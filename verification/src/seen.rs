//! Laws of what is seen: once a tail is drawn, the screen shows in the viewport the newest of its
//! rows, and below them the pinned ones; once a viewport is drawn, it shows what was drawn in it.

use vstd::prelude::*;

use crate::buffer;
use crate::buffer::Grid;
use crate::command::OpOf;
use crate::command::OpView;
use crate::diff;
use crate::display;
use crate::display::Display;
use crate::display::Glyph;
use crate::display::Tearing;
use crate::drawing;
use crate::geometry;
use crate::geometry::Position;
use crate::geometry::Rect;
use crate::geometry::Size;
use crate::history::InsertHistoryMode;
use crate::inline::InlineView;
use crate::inline::Screen;
use crate::inline::Tail;
use crate::inline::TailView;
use crate::insertion;
use crate::known;
use crate::layout;
use crate::layout::Layout;
use crate::rows;
use crate::tail;
use crate::terminal::TerminalView;
use crate::updates;

verus! {

/// Whether a terminal was told, since it was in an earlier state, nothing that sets how it prints.
spec fn keeps_look(t: TerminalView, u: TerminalView) -> bool {
    let ops = insertion::since(t, u);
    &&& u.output == t.output + ops
    &&& forall|i: int| 0 <= i < ops.len() ==> !tail::is_look(#[trigger] ops[i])
}

/// A terminal that prints in its own look still does after operations that do not set how it
/// prints.
proof fn lemma_still_plain(d: Display, ops: Seq<OpView>)
    requires
        d.is_plain(),
        forall|i: int| 0 <= i < ops.len() ==> !tail::is_look(#[trigger] ops[i]),
    ensures
        d.carried(ops).is_plain(),
    decreases ops.len(),
{
    if ops.len() > 0 {
        let before = ops.drop_last();
        assert forall|i: int| 0 <= i < before.len() implies !tail::is_look(#[trigger] before[i]) by {
            assert(before[i] == ops[i]);
        }
        lemma_still_plain(d, before);
        let op = ops[ops.len() - 1];
        assert(!tail::is_look(op));
        if let OpOf::DrawCells(cells) = op {
            display::lemma_drawn_look(d.carried(before), cells);
        }
    }
}

/// Telling several things after each other that do not set how the terminal prints.
proof fn lemma_keeps_look(a: TerminalView, b: TerminalView, c: TerminalView)
    requires
        keeps_look(a, b),
        keeps_look(b, c),
    ensures
        keeps_look(a, c),
{
    insertion::lemma_since(a, b, c);
    let first = insertion::since(a, b);
    let ops = insertion::since(a, c);
    assert forall|i: int| 0 <= i < ops.len() implies !tail::is_look(#[trigger] ops[i]) by {
        if i < first.len() {
            assert(ops[i] == first[i]);
        } else {
            assert(ops[i] == insertion::since(b, c)[i - first.len()]);
        }
    }
}

/// What clears nothing does not set how the terminal prints.
proof fn lemma_gentle_keeps_look(t: TerminalView, u: TerminalView)
    requires
        updates::only_gentle(t, u),
    ensures
        keeps_look(t, u),
{
    let ops = insertion::since(t, u);
    assert forall|i: int| 0 <= i < ops.len() implies !tail::is_look(#[trigger] ops[i]) by {
        assert(updates::is_gentle(ops[i]));
    }
}

/// Giving a viewport another height does not set how the terminal prints.
proof fn lemma_fitted_keeps_look(t: TerminalView, height: u16, size: Size)
    ensures
        keeps_look(t, t.fitted(height, size)),
{
    let u = t.fitted(height, size);
    let ops = insertion::since(t, u);
    assert(u.output =~= t.output + ops);
    assert forall|i: int| 0 <= i < ops.len() implies !tail::is_look(#[trigger] ops[i]) by {
        assert(ops[i] == u.output[t.output.len() + i]);
    }
}

/// Making room for a tail does not set how the terminal prints.
proof fn lemma_room_keeps_look(v: InlineView, height: u16, screen: Screen)
    requires
        v.is_ready(screen.size),
    ensures
        keeps_look(v.terminal, v.made_room(screen, height)),
{
    let t = v.terminal;
    let t0 = t.begun();
    let standard = InsertHistoryMode::Standard;
    assert(t0.settled(screen) == t0);
    assert(insertion::since(t, t0) =~= seq![OpOf::BeginSynchronizedUpdate]);
    assert(t0.output =~= t.output + insertion::since(t, t0));
    let m = if t0.viewport_area.width == 0 {
        t0.fitted(height, screen.size)
    } else {
        t0.with_history(v.pending, standard)
    };
    let u = v.made_room(screen, height);
    if t0.viewport_area.width == 0 {
        lemma_fitted_keeps_look(t0, height, screen.size);
        updates::law_inserting_history_clears_nothing(m, v.pending);
        lemma_gentle_keeps_look(m, u);
    } else {
        updates::law_inserting_history_clears_nothing(t0, v.pending);
        lemma_gentle_keeps_look(t0, m);
        lemma_fitted_keeps_look(m, height, screen.size);
    }
    lemma_keeps_look(t0, m, u);
    lemma_keeps_look(t, t0, u);
}

impl Tail {
    /// The row of the tail that stands in the row `r` of the viewport, if it is shown from the row
    /// `start` on.
    pub open spec fn row_from(self, start: int, r: int) -> int {
        if r < self.visible() {
            start + r
        } else {
            self.scrollback_height + (r - self.visible())
        }
    }

    /// The row of the tail that stands in the row `r` of the viewport, if just the rows that do not
    /// fit on the screen are committed.
    pub open spec fn row_at(self, r: int) -> int {
        if r < self.visible() {
            self.overflow() + r
        } else {
            self.scrollback_height + (r - self.visible())
        }
    }
}

impl InlineView {
    /// The terminal with the rows of a tail in the viewport, before they are shown.
    pub open spec fn tail_composed(
        self,
        state: TailView,
        source: Grid,
        tail: Tail,
        screen: Screen,
    ) -> TerminalView {
        let committed = state.arranged(tail).committed_rows;
        let t = self.made_room(screen, tail.height()).with_rows(
            source,
            committed,
            geometry::minus(tail.overflow(), committed),
        ).invalidated().on_screen(screen.size);
        t.with_current(
            t.composed(
                source,
                state.drawn(tail).committed_rows,
                tail.scrollback_height,
                tail.pinned(),
            ),
        )
    }

    /// Whether the rows of a tail that the viewport has room for can be shown: all their cells are
    /// drawn, and each in a look that the one before it leads to.
    pub open spec fn can_show_tail(
        self,
        state: TailView,
        source: Grid,
        tail: Tail,
        screen: Screen,
    ) -> bool {
        let w = tail.size.width as int;
        &&& forall|r: int|
            #![trigger tail.row_at(r)]
            0 <= r < tail.height() ==> {
                let line = diff::line(source.cells, w, tail.row_at(r));
                rows::tidy_row(line) && rows::none_skipped(line)
            }
        &&& drawing::faithful_all(self.tail_composed(state, source, tail, screen).updates())
    }
}

/// Of a viewport of which nothing is known, all cells can be shown, and nothing is left of wide
/// texts.
proof fn lemma_nothing_known(
    t: TerminalView,
    tearing: Tearing,
    seen: Seq<Seq<Glyph>>,
    next: Grid,
)
    requires
        t.wf(),
        next.wf(),
        next.area == t.previous.area,
    ensures
        ({
            let a = t.invalidated().previous;
            &&& drawing::tidy(a.cells, a.area.width as int, a.area.height as int)
            &&& drawing::tears_off(tearing, seen, a, next.cells)
        }),
{
    let a = t.invalidated().previous;
    let w = a.area.width as int;
    let h = a.area.height as int;
    buffer::lemma_cells(a.area);
    assert(buffer::glyph(' ')[0] != buffer::glyph('\n')[0]);
    assert forall|r: int, c: int| 0 <= r < h && 0 <= c < w implies #[trigger] rows::is_tidy(
        diff::line(a.cells, w, r),
        c,
    ) && diff::columns(diff::line(a.cells, w, r)[c]) == 1 by {
        drawing::lemma_line(a.cells, w, h, r);
        let cell = diff::line(a.cells, w, r)[c];
        assert(cell == a.cells[r * w + c]);
        assert(cell.symbol == buffer::glyph(' '));
        rows::lemma_blank_columns(cell);
    }
    assert forall|r: int| 0 <= r < h implies rows::tidy_row(
        #[trigger] diff::line(a.cells, w, r),
    ) by {
        drawing::lemma_line(a.cells, w, h, r);
    }
    assert forall|r: int| 0 <= r < h implies rows::tears_off(
        tearing,
        seen[a.area.y + r],
        diff::line(a.cells, w, r),
        #[trigger] diff::line(next.cells, w, r),
    ) by {
        let line = diff::line(a.cells, w, r);
        let c = diff::last_column(diff::line(next.cells, w, r)) + 1;
        drawing::lemma_line(a.cells, w, h, r);
        drawing::lemma_line(next.cells, w, h, r);
        if 0 < c < w {
            assert(rows::is_tidy(line, c - 1));
        }
    }
}

/// A frame that is shown at the end of an update.
proof fn lemma_shown_at_end(t: TerminalView, cursor: Option<Position>, d: Display)
    requires
        t.wf(),
        t.knows(d),
        t.can_show(d),
    ensures
        ({
            let u = t.presented(cursor).ended();
            let s = d.carried(insertion::since(t, u));
            let y = t.viewport_area.y as int;
            &&& u.output == t.output + insertion::since(t, u)
            &&& u.previous == t.current
            &&& u.viewport_area == t.viewport_area
            &&& u.knows(s)
            &&& s.rows.len() == d.rows.len()
            &&& forall|i: int|
                0 <= i < s.rows.len() && !(y <= i < y + t.viewport_area.height) ==> s.rows[i]
                    == #[trigger] d.rows[i]
        }),
{
    drawing::law_presented_frame_is_shown(t, cursor, d);
    drawing::lemma_presented(t, cursor, d);
    let p = t.presented(cursor);
    let u = p.ended();
    let last = seq![OpOf::EndSynchronizedUpdate, OpOf::FlushWriter];
    assert(insertion::since(p, u) =~= last);
    assert(u.output =~= p.output + insertion::since(p, u));
    insertion::lemma_since(t, p, u);
    display::lemma_carried(d, insertion::since(t, p), last);
    drawing::lemma_calm(d.carried(insertion::since(t, p)), last);
}

/// A frame that is drawn in a viewport of which nothing is known, at the end of an update, is
/// shown.
proof fn lemma_drawn_anew(t: TerminalView, size: Size, cells: Grid, d: Display)
    requires
        t.wf(),
        t.viewport_area.x == 0,
        t.viewport_area.width > 0,
        t.viewport_area.y + t.viewport_area.height <= d.rows.len() <= u16::MAX,
        forall|y: int|
            0 <= y < d.rows.len() ==> (#[trigger] d.rows[y]).len() == t.viewport_area.width,
        d.is_plain(),
        cells.wf(),
        cells.area == t.current.area,
        drawing::tidy(
            cells.cells,
            t.viewport_area.width as int,
            t.viewport_area.height as int,
        ),
        drawing::all_drawn(
            cells.cells,
            t.viewport_area.width as int,
            t.viewport_area.height as int,
        ),
        drawing::faithful_all(
            t.invalidated().on_screen(size).with_current(cells).updates(),
        ),
    ensures
        ({
            let m = t.invalidated().on_screen(size).with_current(cells);
            let u = m.presented(None).ended();
            let s = d.carried(insertion::since(t, u));
            &&& u.output == t.output + insertion::since(t, u)
            &&& u.previous == cells
            &&& u.viewport_area == t.viewport_area
            &&& u.knows(s)
            &&& s.rows.len() == d.rows.len()
        }),
{
    let m = t.invalidated().on_screen(size).with_current(cells);
    drawing::law_invalidated_viewport_is_drawn_anew(t, d);
    lemma_nothing_known(t, d.tearing, d.rows, cells);
    lemma_shown_at_end(m, None, d);
    let u = m.presented(None).ended();
    assert(insertion::since(t, u) == insertion::since(m, u));
}

/// A tail is seen from the first of its rows on that is not committed: the screen shows in the
/// viewport as many rows from there on as there is room for, and below them the pinned rows. What
/// the terminal takes the screen to show there is that.
#[verifier::rlimit(40)]
pub proof fn law_uncommitted_rows_are_seen(
    v: InlineView,
    state: TailView,
    source: Grid,
    tail: Tail,
    screen: Screen,
    d: Display,
)
    requires
        v.is_ready(tail.size),
        tail.size == screen.size,
        d.has_size(tail.size.width as int, tail.size.height as int),
        d.is_plain(),
        v.is_countable(tail.height(), tail.size),
        tail::holds_tail(source, tail),
        ({
            let start = geometry::greatest(
                tail::committed_so_far(state, tail),
                tail.overflow() as int,
            );
            &&& start + tail.visible() <= source.area.height
            &&& forall|r: int|
                #![trigger tail.row_from(start, r)]
                0 <= r < tail.height() ==> {
                    let line = diff::line(
                        source.cells,
                        tail.size.width as int,
                        tail.row_from(start, r),
                    );
                    rows::tidy_row(line) && rows::none_skipped(line)
                }
        }),
        drawing::faithful_all(v.tail_composed(state, source, tail, screen).updates()),
    ensures
        ({
            let u = v.tail_drawn(state, source, tail, screen).terminal;
            let s = d.carried(insertion::since(v.terminal, u));
            let y = u.viewport_area.y as int;
            let start = geometry::greatest(
                tail::committed_so_far(state, tail),
                tail.overflow() as int,
            );
            &&& u.viewport_area.height == tail.height() == tail.visible() + tail.pinned()
            &&& y + tail.height() <= s.rows.len() == tail.size.height
            &&& forall|r: int|
                #![trigger tail.row_from(start, r)]
                0 <= r < tail.height() ==> rows::row_shown(
                    s.rows[y + r],
                    diff::line(source.cells, tail.size.width as int, tail.row_from(start, r)),
                )
            &&& u.knows(s)
        }),
{
    let t = v.terminal;
    let w = tail.size.width as int;
    let start = geometry::greatest(tail::committed_so_far(state, tail), tail.overflow() as int);
    tail::law_drawing_commits_what_is_not_shown(state, tail);
    let committed = state.arranged(tail).committed_rows;
    let n = geometry::minus(tail.overflow(), committed);
    let t1 = v.made_room(screen, tail.height());
    tail::lemma_made_room(v, tail.height(), screen, d);
    lemma_room_keeps_look(v, tail.height(), screen);
    let d1 = d.carried(insertion::since(t, t1));
    let t2 = t1.with_rows(source, committed, n);
    let d2 = d1.carried(insertion::since(t1, t2));
    tail::lemma_rows_committed(t1, source, committed, n, d1);
    updates::lemma_with_rows_gentle(t1, source, committed, n);
    lemma_gentle_keeps_look(t1, t2);
    lemma_still_plain(d, insertion::since(t, t1));
    lemma_still_plain(d1, insertion::since(t1, t2));
    insertion::lemma_since(t, t1, t2);
    display::lemma_carried(d, insertion::since(t, t1), insertion::since(t1, t2));
    let m = v.tail_composed(state, source, tail, screen);
    let u = v.tail_drawn(state, source, tail, screen).terminal;
    let cells = m.current;
    assert(u == m.presented(None).ended());
    assert(cells.wf() && cells.area == t2.current.area);
    assert(u.previous == cells);
    assert forall|r: int| 0 <= r < tail.height() implies #[trigger] diff::line(cells.cells, w, r)
        == diff::line(source.cells, w, tail.row_from(start, r)) by {
        tail::law_tail_is_shown_from_the_first_uncommitted_row(v, state, source, tail, screen, r);
    }
    lemma_drawn_anew(t2, screen.size, cells, d2);
    insertion::lemma_since(t, t2, u);
    display::lemma_carried(d, insertion::since(t, t2), insertion::since(t2, u));
    let s = d.carried(insertion::since(t, u));
    let y = u.viewport_area.y as int;
    assert forall|r: int|
        #![trigger tail.row_from(start, r)]
        0 <= r < tail.height() implies rows::row_shown(
        s.rows[y + r],
        diff::line(source.cells, w, tail.row_from(start, r)),
    ) by {
        assert(diff::line(cells.cells, w, r) == diff::line(source.cells, w, tail.row_from(start, r)));
    }
}

/// A tail of which just the rows that do not fit on the screen are committed is seen in full: the
/// screen shows in the viewport the newest of its rows, those that follow on the committed ones,
/// and below them the pinned rows. What the terminal takes the screen to show there is that.
#[verifier::rlimit(40)]
pub proof fn law_newest_rows_are_seen(
    v: InlineView,
    state: TailView,
    source: Grid,
    tail: Tail,
    screen: Screen,
    d: Display,
)
    requires
        v.is_ready(tail.size),
        tail.size == screen.size,
        d.has_size(tail.size.width as int, tail.size.height as int),
        d.is_plain(),
        v.is_countable(tail.height(), tail.size),
        tail::holds_tail(source, tail),
        state.arranged(tail).committed_rows <= tail.overflow(),
        v.can_show_tail(state, source, tail, screen),
    ensures
        ({
            let u = v.tail_drawn(state, source, tail, screen).terminal;
            let s = d.carried(insertion::since(v.terminal, u));
            let y = u.viewport_area.y as int;
            &&& u.viewport_area.height == tail.height() == tail.visible() + tail.pinned()
            &&& y + tail.height() <= s.rows.len() == tail.size.height
            &&& forall|r: int|
                #![trigger tail.row_at(r)]
                0 <= r < tail.height() ==> rows::row_shown(
                    s.rows[y + r],
                    diff::line(source.cells, tail.size.width as int, tail.row_at(r)),
                )
            &&& u.knows(s)
        }),
{
    let start = geometry::greatest(tail::committed_so_far(state, tail), tail.overflow() as int);
    tail::law_drawing_commits_what_is_not_shown(state, tail);
    assert(start == tail.overflow());
    assert forall|r: int|
        #![trigger tail.row_from(start, r)]
        0 <= r < tail.height() implies {
        let line = diff::line(
            source.cells,
            tail.size.width as int,
            tail.row_from(start, r),
        );
        rows::tidy_row(line) && rows::none_skipped(line)
    } by {
        assert(tail.row_from(start, r) == tail.row_at(r));
    }
    law_uncommitted_rows_are_seen(v, state, source, tail, screen, d);
    let u = v.tail_drawn(state, source, tail, screen).terminal;
    let s = d.carried(insertion::since(v.terminal, u));
    let y = u.viewport_area.y as int;
    assert forall|r: int|
        #![trigger tail.row_at(r)]
        0 <= r < tail.height() implies rows::row_shown(
        s.rows[y + r],
        diff::line(source.cells, tail.size.width as int, tail.row_at(r)),
    ) by {
        assert(tail.row_from(start, r) == tail.row_at(r));
    }
}

/// The rows of a measured layout are a tail: first those of the inline regions, which scroll, then
/// the pinned ones, as far as all of them can be counted.
pub proof fn law_measured_layout_is_a_tail(layout: Layout, drawn: Grid)
    requires
        ({
            let measured = layout.measured(drawn);
            measured.scrollback_height + measured.pinned_bottom_height <= u16::MAX
        }),
    ensures
        ({
            let measured = layout.measured(drawn);
            let tail = Tail {
                scrollback_height: measured.scrollback_height,
                pinned_bottom_height: measured.pinned_bottom_height,
                size: layout.size,
            };
            &&& tail::holds_tail(measured.grid, tail)
            &&& tail.pinned() == measured.pinned_bottom_height
            &&& measured.grid.area.height == tail.scrollback_height + tail.pinned_bottom_height
        }),
{
    layout::law_measured_rows_add_up(layout, drawn);
    layout::lemma_gathered_area(layout, drawn);
}

/// Showing a frame at the end of an update leaves the viewport where it is, on the same screen.
proof fn lemma_viewport_stays(t: TerminalView, cursor: Option<Position>)
    requires
        t.wf(),
    ensures
        ({
            let u = t.presented(cursor).ended();
            &&& u.wf()
            &&& u.viewport_area == t.viewport_area
            &&& u.last_known_screen_size == t.last_known_screen_size
        }),
{
}

/// A viewport that a tail has been drawn in has the rows of the tail and no pending history, and a
/// tail can be drawn or end in it.
#[verifier::rlimit(40)]
proof fn lemma_drawn_is_ready(
    v: InlineView,
    state: TailView,
    source: Grid,
    tail: Tail,
    screen: Screen,
    d: Display,
)
    requires
        v.is_ready(tail.size),
        tail.size == screen.size,
        d.has_size(tail.size.width as int, tail.size.height as int),
        v.is_countable(tail.height(), tail.size),
        source.wf(),
        tail.overflow() > state.arranged(tail).committed_rows ==> tail::holds_tail(source, tail),
    ensures
        ({
            let u = v.tail_drawn(state, source, tail, screen);
            &&& u.is_ready(tail.size)
            &&& u.terminal.viewport_area.width == tail.size.width
            &&& u.terminal.viewport_area.height == tail.height()
            &&& u.pending.len() == 0
        }),
{
    let committed = state.arranged(tail).committed_rows;
    let n = geometry::minus(tail.overflow(), committed);
    let t1 = v.made_room(screen, tail.height());
    tail::lemma_made_room(v, tail.height(), screen, d);
    let d1 = d.carried(insertion::since(v.terminal, t1));
    tail::lemma_rows_committed(t1, source, committed, n, d1);
    let m = v.tail_composed(state, source, tail, screen);
    assert(m.wf());
    lemma_viewport_stays(m, None);
    assert(v.tail_drawn(state, source, tail, screen).terminal == m.presented(None).ended());
}

/// A screen on which a tail is drawn keeps its size.
#[verifier::rlimit(40)]
proof fn lemma_screen_keeps_its_size(
    v: InlineView,
    state: TailView,
    source: Grid,
    tail: Tail,
    screen: Screen,
    d: Display,
)
    requires
        v.is_ready(tail.size),
        tail.size == screen.size,
        d.has_size(tail.size.width as int, tail.size.height as int),
        v.is_countable(tail.height(), tail.size),
        source.wf(),
        tail.overflow() > state.arranged(tail).committed_rows ==> tail::holds_tail(source, tail),
        tail::feeds_nothing(source.cells),
        tail::feeds_nothing(v.terminal.current.cells),
    ensures
        ({
            let u = v.tail_drawn(state, source, tail, screen);
            let s = d.carried(insertion::since(v.terminal, u.terminal));
            s.has_size(tail.size.width as int, tail.size.height as int)
        }),
{
    let t = v.terminal;
    let committed = state.arranged(tail).committed_rows;
    let n = geometry::minus(tail.overflow(), committed);
    let t1 = v.made_room(screen, tail.height());
    tail::lemma_made_room(v, tail.height(), screen, d);
    let d1 = d.carried(insertion::since(t, t1));
    let t2 = t1.with_rows(source, committed, n);
    let d2 = d1.carried(insertion::since(t1, t2));
    tail::lemma_rows_committed(t1, source, committed, n, d1);
    insertion::lemma_since(t, t1, t2);
    display::lemma_carried(d, insertion::since(t, t1), insertion::since(t1, t2));
    let u = v.tail_drawn(state, source, tail, screen).terminal;
    tail::lemma_room_feeds_nothing(v, tail.height(), screen);
    tail::lemma_rest_shown(
        t2,
        source,
        state.drawn(tail).committed_rows,
        tail,
        screen.size,
        d2,
    );
    insertion::lemma_since(t, t2, u);
    display::lemma_carried(d, insertion::since(t, t2), insertion::since(t2, u));
}

/// A tail that ends after it was drawn, with the same pinned rows and as many scrolling ones or
/// more, leaves them all in order: on all that stood above the viewport follow at once its rows
/// from the first one on that was not committed, however many have come since, and the viewport
/// shrinks to the pinned rows, which it shows.
#[verifier::rlimit(40)]
pub proof fn law_tail_ends_as_it_was_drawn(
    v: InlineView,
    state: TailView,
    source: Grid,
    tail: Tail,
    screen: Screen,
    longer_source: Grid,
    longer: Tail,
    d: Display,
)
    requires
        v.is_ready(tail.size),
        tail.size == screen.size,
        d.has_size(tail.size.width as int, tail.size.height as int),
        v.is_countable(tail.height(), tail.size),
        source.wf(),
        tail.overflow() > state.arranged(tail).committed_rows ==> tail::holds_tail(source, tail),
        tail::feeds_nothing(source.cells),
        tail::feeds_nothing(v.terminal.current.cells),
        longer.size == tail.size,
        longer.pinned_bottom_height == tail.pinned_bottom_height,
        tail::holds_tail(longer_source, longer),
        geometry::greatest(tail::committed_so_far(state, tail), tail.overflow() as int)
            + tail.visible() <= longer.scrollback_height,
    ensures
        ({
            let v1 = v.tail_drawn(state, source, tail, screen);
            let s1 = d.carried(insertion::since(v.terminal, v1.terminal));
            let u = v1.tail_finished(state.drawn(tail), longer_source, longer).terminal;
            let s = s1.carried(insertion::since(v1.terminal, u));
            let w = tail.size.width as int;
            let committed = geometry::greatest(
                tail::committed_so_far(state, tail),
                tail.overflow() as int,
            );
            &&& u.viewport_area.height == tail.pinned()
            &&& u.is_on_screen()
            &&& insertion::above(s, u.viewport_area.y as int) == insertion::above(
                s1,
                v1.terminal.viewport_area.y as int,
            ) + insertion::told_rows(
                longer_source.cells,
                w,
                committed,
                longer.scrollback_height - committed,
            )
            &&& u.viewport_rows(s) == insertion::told_rows(
                longer_source.cells,
                w,
                longer.scrollback_height as int,
                tail.pinned() as int,
            )
        }),
{
    let v1 = v.tail_drawn(state, source, tail, screen);
    let s1 = d.carried(insertion::since(v.terminal, v1.terminal));
    let state1 = state.drawn(tail);
    lemma_drawn_is_ready(v, state, source, tail, screen, d);
    lemma_screen_keeps_its_size(v, state, source, tail, screen, d);
    tail::law_drawing_commits_what_is_not_shown(state, tail);
    tail::law_tail_takes_the_rows_there_are(tail);
    tail::law_ending_commits_nothing(state1, longer);
    let ending = state1.ending(longer.scrollback_height, longer.size.width);
    assert(ending.kept(longer.pinned_bottom_height, tail.height()) == tail.pinned());
    assert(v1.tail_shown(state1, longer) == tail.visible());
    assert(tail::holds_ending_tail(v1, state1, longer_source, longer));
    tail::law_finished_tail_stands_in_order(v1, state1, longer_source, longer, s1);
    let u = v1.tail_finished(state1, longer_source, longer).terminal;
    let s = s1.carried(insertion::since(v1.terminal, u));
    let w = tail.size.width as int;
    let committed = ending.committed_rows as int;
    let now = insertion::above(s, u.viewport_area.y as int);
    let base = insertion::above(s1, v1.terminal.viewport_area.y as int) + tail::history_rows(
        v1.pending,
        longer.size.width,
    ) + insertion::told_rows(
        longer_source.cells,
        w,
        committed,
        longer.scrollback_height - committed,
    );
    assert(now =~= now.subrange(0, base.len() as int));
    assert(now =~= insertion::above(s1, v1.terminal.viewport_area.y as int)
        + insertion::told_rows(
        longer_source.cells,
        w,
        committed,
        longer.scrollback_height - committed,
    ));
}

/// A viewport that is ready to be drawn: what the terminal is taken to show in it is what the screen
/// shows, or nothing is known of it.
#[verifier::rlimit(40)]
proof fn lemma_readied_known(v: InlineView, screen: Screen, height: u16, d: Display)
    requires
        v.is_ready(screen.size),
        d.has_size(screen.size.width as int, screen.size.height as int),
        d.is_plain(),
        v.terminal.viewport_area.y + geometry::lower(height, screen.size.height) <= u16::MAX,
        v.pending.len() == 0 ==> {
            &&& v.terminal.viewport_area.width > 0 ==> v.terminal.knows(d)
            &&& known::blank_from(d, known::end_of_viewport(v.terminal))
        },
    ensures
        ({
            let m = v.readied(screen, height);
            let s = d.carried(insertion::since(v.terminal, m));
            &&& m.output == v.terminal.output + insertion::since(v.terminal, m)
            &&& m.wf()
            &&& m.knows(s)
            &&& m.is_on_screen()
            &&& m.viewport_area.x == 0
            &&& m.viewport_area.width == screen.size.width
            &&& m.viewport_area.height == geometry::lower(height, screen.size.height)
            &&& m.last_known_screen_size == screen.size
            &&& s.rows.len() == screen.size.height
            &&& v.pending.len() == 0 ==> known::blank_from(s, known::end_of_viewport(m))
        }),
{
    let t = v.terminal;
    let t0 = t.begun();
    let standard = InsertHistoryMode::Standard;
    assert(t0.settled(screen) == t0);
    tail::lemma_begun(t, d);
    tail::lemma_room_above_history(v, height, d);
    let f = t0.fitted(height, screen.size);
    let t1 = f.with_history(v.pending, standard);
    let d1 = d.carried(insertion::since(t0, t1));
    insertion::lemma_since(t, t0, t1);
    display::lemma_carried(d, insertion::since(t, t0), insertion::since(t0, t1));
    let m = v.readied(screen, height);
    assert(insertion::since(t, m) == insertion::since(t, t1));
    if v.pending.len() == 0 {
        assert(m == f);
        assert(t0.knows(d) == t.knows(d));
        known::law_fitting_keeps_what_is_known(t0, height, d);
    } else {
        lemma_fitted_keeps_look(t0, height, screen.size);
        updates::law_inserting_history_clears_nothing(f, v.pending);
        lemma_gentle_keeps_look(f, t1);
        lemma_keeps_look(t0, f, t1);
        lemma_still_plain(d, insertion::since(t0, t1));
        drawing::law_invalidated_viewport_is_drawn_anew(t1, d1);
        assert(m == t1.invalidated());
    }
}

/// A viewport that is drawn is seen: the screen shows in it the cells that were drawn, and that is
/// what the terminal is taken to show there. That holds where the terminal was taken to show what
/// the screen showed before, and nothing stood below the viewport; where history is inserted, it
/// holds whatever stood there. If none is, nothing stands below the viewport then either, so that
/// it holds of the next frame too.
#[verifier::rlimit(40)]
pub proof fn law_drawn_viewport_is_seen(
    v: InlineView,
    screen: Screen,
    height: u16,
    grid: Grid,
    cursor: Option<Position>,
    d: Display,
)
    requires
        v.is_ready(screen.size),
        d.has_size(screen.size.width as int, screen.size.height as int),
        d.is_plain(),
        v.terminal.viewport_area.y + geometry::lower(height, screen.size.height) <= u16::MAX,
        v.pending.len() == 0 ==> {
            &&& v.terminal.viewport_area.width > 0 ==> v.terminal.knows(d)
            &&& known::blank_from(d, known::end_of_viewport(v.terminal))
        },
        grid.wf(),
        grid.area == v.readied(screen, height).current.area,
        ({
            let m = v.readied(screen, height).on_screen(screen.size).with_current(grid);
            m.can_show(d.carried(insertion::since(v.terminal, m)))
        }),
    ensures
        ({
            let m = v.readied(screen, height).on_screen(screen.size).with_current(grid);
            let u = m.presented(cursor).ended();
            let s = d.carried(insertion::since(v.terminal, u));
            let y = u.viewport_area.y as int;
            &&& u.viewport_area.x == 0
            &&& u.viewport_area.width == screen.size.width
            &&& u.viewport_area.height == geometry::lower(height, screen.size.height)
            &&& y + u.viewport_area.height <= s.rows.len() == screen.size.height
            &&& forall|r: int|
                0 <= r < u.viewport_area.height ==> rows::row_shown(
                    s.rows[y + r],
                    #[trigger] diff::line(grid.cells, screen.size.width as int, r),
                )
            &&& u.previous == grid
            &&& u.knows(s)
            &&& v.pending.len() == 0 ==> known::blank_from(s, known::end_of_viewport(u))
        }),
{
    let t = v.terminal;
    let ready = v.readied(screen, height);
    lemma_readied_known(v, screen, height, d);
    let m = ready.on_screen(screen.size).with_current(grid);
    let d1 = d.carried(insertion::since(t, ready));
    assert(insertion::since(t, m) == insertion::since(t, ready));
    lemma_shown_at_end(m, cursor, d1);
    let u = m.presented(cursor).ended();
    insertion::lemma_since(t, m, u);
    display::lemma_carried(d, insertion::since(t, m), insertion::since(m, u));
    let s = d.carried(insertion::since(t, u));
    if v.pending.len() == 0 {
        let end = known::end_of_viewport(u);
        assert forall|r: int| end <= r < s.rows.len() implies known::shows_nothing(
            #[trigger] s.rows[r],
        ) by {
            assert(known::shows_nothing(d1.rows[r]));
        }
    }
}

/// A tail that ends leaves the terminal with what it was taken to show in the pinned rows: the rows
/// that the viewport shrinks to are still taken to show what was last drawn there.
#[verifier::rlimit(40)]
pub proof fn law_pinned_rows_stay_known(
    v: InlineView,
    state: TailView,
    source: Grid,
    tail: Tail,
    r: int,
)
    requires
        v.is_ready(tail.size),
        v.terminal.viewport_area.width > 0,
        v.pending.len() == 0,
        ({
            let u = v.tail_finished(state, source, tail).terminal;
            0 <= r < u.viewport_area.height <= v.terminal.viewport_area.height
        }),
        tail::holds_ending_tail(v, state, source, tail),
    ensures
        ({
            let t = v.terminal;
            let u = v.tail_finished(state, source, tail).terminal;
            let w = tail.size.width as int;
            &&& u.previous.area == u.viewport_area
            &&& u.viewport_area.width == tail.size.width
            &&& diff::line(u.previous.cells, w, r) == diff::line(
                t.previous.cells,
                w,
                t.viewport_area.height - u.viewport_area.height + r,
            )
        }),
{
    let t = v.terminal;
    let t0 = t.begun();
    let w = tail.size.width as int;
    let s = state.ending(tail.scrollback_height, tail.size.width);
    let pinned = s.kept(tail.pinned_bottom_height, t.viewport_area.height);
    let visible = v.tail_shown(state, tail);
    let target = geometry::minus(tail.scrollback_height, visible);
    let n = geometry::minus(target, s.committed_rows);
    assert(v.opened(tail) == t0);
    let t1 = t0.with_rows(source, s.committed_rows, n);
    let u = v.tail_finished(state, source, tail).terminal;
    assert(t0.with_history(v.pending, InsertHistoryMode::Standard) == t0);
    assert(t1.previous.cells =~= t.previous.cells) by {
        if n > 0 {
            let area = Rect { x: 0, y: 0, width: t.viewport_area.width, height: n };
            let cells = Grid::spec_empty(area).copied(source, s.committed_rows, area).cells;
            assert(t0.inserted(n, cells).previous.cells =~= t.previous.cells);
        }
    }
    assert(t1.viewport_area.height == t.viewport_area.height);
    assert(t1.viewport_area.width == t.viewport_area.width);
    assert(t1.viewport_area.x == 0);
    assert(t1.wf());
    assert(t1.viewport_area.y + t1.viewport_area.height <= t.last_known_screen_size.height);
    let area = t1.viewport_area;
    let left = crate::inline::pinned_area(area, pinned);
    if pinned < area.height {
        assert(left.y == area.y + area.height - pinned && left.height == pinned && left.width
            == area.width && left.x == 0);
        known::lemma_remapped_line(t1.previous, left, r);
        assert(u.previous == t1.previous.remapped(left));
    }
}

} // verus!
