//! Laws of what stands above the viewport: pending history and the rows of a growing text join the
//! history in order, each once, and the pinned rows never do.

use vstd::prelude::*;

use crate::buffer;
use crate::buffer::CellView;
use crate::buffer::Grid;
use crate::command::Attribute;
use crate::command::OpOf;
use crate::command::OpView;
use crate::command::PlacedView;
use crate::diff;
use crate::diff::DrawCommandOf;
use crate::diff::DrawCommandView;
use crate::display;
use crate::display::Display;
use crate::display::Glyph;
use crate::draw;
use crate::draw::ModifierDiff;
use crate::draw::Pen;
use crate::drawing;
use crate::geometry;
use crate::geometry::Position;
use crate::geometry::Rect;
use crate::geometry::Size;
use crate::history;
use crate::history::InsertHistoryMode;
use crate::inline::InlineView;
use crate::inline::Screen;
use crate::inline::Tail;
use crate::inline::TailView;
use crate::insertion;
use crate::style;
use crate::style::TermColor;
use crate::style::BOLD;
use crate::style::CROSSED_OUT;
use crate::style::DIM;
use crate::style::ITALIC;
use crate::style::RAPID_BLINK;
use crate::style::REVERSED;
use crate::style::SLOW_BLINK;
use crate::style::UNDERLINED;
use crate::terminal;
use crate::terminal::TerminalView;
use crate::text::LineView;

verus! {

/// While the width stays the same, the rows that count as committed never become fewer, and the
/// next tail goes on behind the last committed one.
pub proof fn law_commits_follow_on_each_other(state: TailView, tail: Tail, next: Tail)
    requires
        state.width == 0 || state.width == tail.size.width,
        next.size.width == tail.size.width,
        tail.size.width > 0,
    ensures
        state.drawn(tail).committed_rows >= state.committed_rows,
        state.drawn(tail).committed_rows >= tail.overflow(),
        state.drawn(tail).arranged(next).committed_rows == state.drawn(tail).committed_rows,
{
}

/// The rows that a tail commits all lie before its pinned rows, which are shown in full as far as
/// the screen has rows.
pub proof fn law_pinned_rows_are_never_committed(state: TailView, tail: Tail)
    ensures
        tail.overflow() + tail.visible() == tail.scrollback_height,
        state.drawn(tail).committed_rows <= geometry::upper(
            state.committed_rows,
            tail.scrollback_height,
        ),
        tail.pinned() == geometry::lower(tail.pinned_bottom_height, tail.size.height),
        tail.height() == tail.visible() + tail.pinned(),
        tail.height() <= tail.size.height,
{
}

/// How many rows of a tail are in the history when it ends: those that drawing it has committed.
/// Where the width has changed since, there are no more of them than the tail has.
pub open spec fn committed_at_end(state: TailView, tail: Tail) -> int {
    if state.width == tail.size.width || state.width == 0 {
        state.committed_rows as int
    } else {
        geometry::least(state.committed_rows as int, tail.scrollback_height as int)
    }
}

/// Ending a tail counts no row as committed that drawing it has not committed, and leaves what is
/// known of its last drawing.
pub proof fn law_ending_commits_nothing(state: TailView, tail: Tail)
    ensures
        ({
            let s = state.ending(tail.scrollback_height, tail.size.width);
            &&& s.committed_rows == committed_at_end(state, tail)
            &&& s.committed_rows <= state.committed_rows
            &&& s.width == tail.size.width
            &&& s.visible_rows == state.visible_rows
            &&& s.pinned_bottom_height == state.pinned_bottom_height
        }),
{
}

/// How many rows of a tail are in the history when it is drawn: those that were committed before.
/// Where the width has changed since, just those count that the screen does not show.
pub open spec fn committed_so_far(state: TailView, tail: Tail) -> int {
    if state.width == tail.size.width || state.width == 0 {
        state.committed_rows as int
    } else {
        geometry::greatest(tail.scrollback_height - tail.visible(), 0)
    }
}

/// Drawing a tail commits the rows that the screen has no room for and that were not committed
/// before, and no other; what was shown of it is known when it is drawn next, or ends.
pub proof fn law_drawing_commits_what_is_not_shown(state: TailView, tail: Tail)
    ensures
        state.arranged(tail).committed_rows == committed_so_far(state, tail),
        ({
            let s = state.drawn(tail);
            &&& s.committed_rows == geometry::greatest(
                committed_so_far(state, tail),
                tail.scrollback_height - tail.visible(),
            )
            &&& s.width == tail.size.width
            &&& s.visible_rows == tail.visible()
            &&& s.pinned_bottom_height == tail.pinned()
        }),
        ({
            let s = TailView::spec_new();
            s.committed_rows == 0 && s.width == 0 && s.visible_rows == 0 && s.pinned_bottom_height
                == 0
        }),
{
}

/// Of a tail the screen shows as much as it has rows for: the pinned rows first, and the last of
/// the scrolling ones in the rows that they leave.
pub proof fn law_tail_takes_the_rows_there_are(tail: Tail)
    ensures
        tail.pinned() == geometry::least(
            tail.pinned_bottom_height as int,
            tail.size.height as int,
        ),
        tail.visible() == geometry::least(
            tail.scrollback_height as int,
            tail.size.height - tail.pinned(),
        ),
        tail.overflow() == tail.scrollback_height - tail.visible(),
        tail.height() == tail.visible() + tail.pinned(),
        tail.overflow() > 0 ==> tail.height() == tail.size.height,
{
}

/// A tail that ends keeps the pinned rows that it is given, or where it is given none those that
/// were last drawn, as far as the viewport has rows. Above them stay as many scrolling rows as were
/// last drawn, or where none were all that are not committed, as far as there is room.
pub proof fn law_ending_tail_keeps_what_was_shown(
    state: TailView,
    scrollback_height: u16,
    pinned_bottom_height: u16,
    height: u16,
    room: u16,
)
    ensures
        pinned_bottom_height > 0 ==> state.kept(pinned_bottom_height, height) == geometry::least(
            pinned_bottom_height as int,
            height as int,
        ),
        pinned_bottom_height == 0 ==> state.kept(pinned_bottom_height, height) == geometry::least(
            state.pinned_bottom_height as int,
            height as int,
        ),
        state.visible_rows > 0 ==> state.shown(scrollback_height, room) == geometry::least(
            state.visible_rows as int,
            room as int,
        ),
        state.visible_rows == 0 ==> state.shown(scrollback_height, room) == geometry::least(
            geometry::greatest(scrollback_height - state.committed_rows, 0),
            room as int,
        ),
{
}

/// Whether no cell holds a line feed.
pub open spec fn feeds_nothing(cells: Seq<CellView>) -> bool {
    forall|i: int| 0 <= i < cells.len() ==> (#[trigger] cells[i]).symbol != buffer::glyph('\n')
}

/// Whether the changes all lie in the rows `lo` to before `hi`, and show no line feed.
spec fn within(commands: Seq<DrawCommandView>, lo: int, hi: int) -> bool {
    forall|k: int|
        #![trigger commands[k]]
        0 <= k < commands.len() ==> {
            &&& lo <= draw::place(commands[k]).y < hi
            &&& commands[k] is Put ==> commands[k]->cell.symbol != buffer::glyph('\n')
        }
}

/// Whether two screens differ in the rows `lo` to before `hi` alone.
pub open spec fn differ_within(a: Display, b: Display, lo: int, hi: int) -> bool {
    &&& a.history == b.history
    &&& a.rows.len() == b.rows.len()
    &&& forall|y: int| 0 <= y < a.rows.len() ==> (#[trigger] a.rows[y]).len() == b.rows[y].len()
    &&& forall|y: int| 0 <= y < a.rows.len() && !(lo <= y < hi) ==> #[trigger] a.rows[y] == b.rows[y]
}

/// One operation of a change, with the cursor in a row of it.
proof fn lemma_op_within(d: Display, s: Display, op: OpView, lo: int, hi: int)
    requires
        differ_within(s, d, lo, hi),
        0 <= lo,
        hi <= d.rows.len(),
        match op {
            OpOf::Print(text) => text != buffer::glyph('\n') && lo <= s.y < hi,
            OpOf::ClearUntilNewLine => lo <= s.y < hi,
            OpOf::SetColors { .. } => true,
            OpOf::SetForegroundColor(_) => true,
            OpOf::SetBackgroundColor(_) => true,
            OpOf::SetAttribute(_) => true,
            OpOf::MoveTo { .. } => true,
            _ => false,
        },
    ensures
        differ_within(s.after(op), d, lo, hi),
        op !is MoveTo ==> s.after(op).y == s.y,
{
}

/// Operations that set how the terminal prints.
pub open spec fn is_look(op: OpView) -> bool {
    match op {
        OpOf::SetColors { .. } => true,
        OpOf::SetForegroundColor(_) => true,
        OpOf::SetBackgroundColor(_) => true,
        OpOf::SetAttribute(_) => true,
        _ => false,
    }
}

/// Whether all operations set how the terminal prints.
pub open spec fn all_looks(ops: Seq<OpView>) -> bool {
    forall|i: int| 0 <= i < ops.len() ==> is_look(#[trigger] ops[i])
}

/// Operations that set how the terminal prints, and an attribute that may be switched.
proof fn lemma_all_looks(ops: Seq<OpView>, yes: bool, attribute: Attribute)
    requires
        all_looks(ops),
    ensures
        all_looks(ops + draw::wanted(yes, attribute)),
{
    let all = ops + draw::wanted(yes, attribute);
    assert forall|i: int| 0 <= i < all.len() implies is_look(#[trigger] all[i]) by {
        if i < ops.len() {
            assert(all[i] == ops[i]);
        }
    }
}

/// What leads from one set of modifiers to another sets how the terminal prints.
proof fn lemma_modifiers_are_looks(m: ModifierDiff)
    ensures
        all_looks(m.ops()),
{
    lemma_ended_are_looks(m);
    lemma_started_are_looks(m);
    let all = m.ops();
    assert forall|i: int| 0 <= i < all.len() implies is_look(#[trigger] all[i]) by {
        if i < m.ended().len() {
            assert(all[i] == m.ended()[i]);
        } else {
            assert(all[i] == m.started()[i - m.ended().len()]);
        }
    }
}

/// What ends modifiers sets how the terminal prints.
proof fn lemma_ended_are_looks(m: ModifierDiff)
    ensures
        all_looks(m.ended()),
{
    let gone = m.from.spec_difference(m.to);
    let bold = gone.spec_contains(BOLD);
    let o1 = draw::wanted(gone.spec_contains(REVERSED), Attribute::NoReverse);
    let o2 = o1 + draw::wanted(bold, Attribute::NormalIntensity);
    let o3 = o2 + draw::wanted(bold && m.to.spec_contains(DIM), Attribute::Dim);
    let o4 = o3 + draw::wanted(gone.spec_contains(ITALIC), Attribute::NoItalic);
    let o5 = o4 + draw::wanted(gone.spec_contains(UNDERLINED), Attribute::NoUnderline);
    let o6 = o5 + draw::wanted(gone.spec_contains(DIM), Attribute::NormalIntensity);
    let o7 = o6 + draw::wanted(gone.spec_contains(CROSSED_OUT), Attribute::NotCrossedOut);
    lemma_all_looks(o1, bold, Attribute::NormalIntensity);
    lemma_all_looks(o2, bold && m.to.spec_contains(DIM), Attribute::Dim);
    lemma_all_looks(o3, gone.spec_contains(ITALIC), Attribute::NoItalic);
    lemma_all_looks(o4, gone.spec_contains(UNDERLINED), Attribute::NoUnderline);
    lemma_all_looks(o5, gone.spec_contains(DIM), Attribute::NormalIntensity);
    lemma_all_looks(o6, gone.spec_contains(CROSSED_OUT), Attribute::NotCrossedOut);
    lemma_all_looks(
        o7,
        gone.spec_contains(SLOW_BLINK) || gone.spec_contains(RAPID_BLINK),
        Attribute::NoBlink,
    );
}

/// What starts modifiers sets how the terminal prints.
proof fn lemma_started_are_looks(m: ModifierDiff)
    ensures
        all_looks(m.started()),
{
    let new = m.to.spec_difference(m.from);
    let o1 = draw::wanted(new.spec_contains(REVERSED), Attribute::Reverse);
    let o2 = o1 + draw::wanted(new.spec_contains(BOLD), Attribute::Bold);
    let o3 = o2 + draw::wanted(new.spec_contains(ITALIC), Attribute::Italic);
    let o4 = o3 + draw::wanted(new.spec_contains(UNDERLINED), Attribute::Underlined);
    let o5 = o4 + draw::wanted(new.spec_contains(DIM), Attribute::Dim);
    let o6 = o5 + draw::wanted(new.spec_contains(CROSSED_OUT), Attribute::CrossedOut);
    let o7 = o6 + draw::wanted(new.spec_contains(SLOW_BLINK), Attribute::SlowBlink);
    lemma_all_looks(o1, new.spec_contains(BOLD), Attribute::Bold);
    lemma_all_looks(o2, new.spec_contains(ITALIC), Attribute::Italic);
    lemma_all_looks(o3, new.spec_contains(UNDERLINED), Attribute::Underlined);
    lemma_all_looks(o4, new.spec_contains(DIM), Attribute::Dim);
    lemma_all_looks(o5, new.spec_contains(CROSSED_OUT), Attribute::CrossedOut);
    lemma_all_looks(o6, new.spec_contains(SLOW_BLINK), Attribute::SlowBlink);
    lemma_all_looks(o7, new.spec_contains(RAPID_BLINK), Attribute::RapidBlink);
}

/// Setting how the terminal prints changes nothing that the screen shows.
proof fn lemma_looks_within(d: Display, ops: Seq<OpView>)
    requires
        all_looks(ops),
    ensures
        d.carried(ops).rows == d.rows,
        d.carried(ops).history == d.history,
        d.carried(ops).y == d.y,
    decreases ops.len(),
{
    if ops.len() > 0 {
        let before = ops.drop_last();
        assert forall|i: int| 0 <= i < before.len() implies is_look(#[trigger] before[i]) by {
            assert(before[i] == ops[i]);
        }
        lemma_looks_within(d, before);
        assert(is_look(ops[ops.len() - 1]));
    }
}

/// The operations that show a cell set how the terminal prints, and print its text.
pub proof fn lemma_print_ends(pen: Pen, cell: CellView)
    ensures
        pen.print(cell).len() > 0,
        all_looks(pen.print(cell).drop_last()),
        pen.print(cell).last() == OpOf::<Seq<char>, Seq<PlacedView>>::Print(cell.symbol),
{
    let m = ModifierDiff { from: pen.modifier, to: cell.modifier };
    lemma_modifiers_are_looks(m);
    let ops = pen.print(cell).drop_last();
    let n = if cell.modifier != pen.modifier {
        m.ops().len()
    } else {
        0
    };
    assert forall|i: int| 0 <= i < ops.len() implies is_look(#[trigger] ops[i]) by {
        if i < n {
            assert(ops[i] == m.ops()[i]);
        }
    }
}

/// The operations of a change stay in its row.
proof fn lemma_command_within(
    d: Display,
    s: Display,
    pen: Pen,
    command: DrawCommandView,
    lo: int,
    hi: int,
)
    requires
        differ_within(s, d, lo, hi),
        0 <= lo <= draw::place(command).y < hi <= d.rows.len(),
        command is Put ==> command->cell.symbol != buffer::glyph('\n'),
        pen.last matches Some(p) ==> s.y == p.y,
    ensures
        differ_within(s.carried(pen.ops(command)), d, lo, hi),
        s.carried(pen.ops(command)).y == draw::place(command).y,
{
    let p = draw::place(command);
    let go = OpOf::MoveTo { x: p.x, y: p.y };
    let first = if pen.is_next(p) {
        Seq::empty()
    } else {
        seq![go]
    };
    let rest = match command {
        DrawCommandOf::Put { cell, .. } => pen.print(cell),
        DrawCommandOf::ClearToEnd { bg, .. } => seq![
            OpOf::SetAttribute(Attribute::Reset),
            OpOf::SetBackgroundColor(style::term_color(bg)),
            OpOf::ClearUntilNewLine,
        ],
    };
    display::lemma_carried(s, first, rest);
    let a = s.carried(first);
    if pen.is_next(p) {
        assert(a == s);
    } else {
        display::lemma_carried_one(s, go);
    }
    assert(a.y == p.y);
    let looks = rest.drop_last();
    match command {
        DrawCommandOf::Put { cell, .. } => {
            lemma_print_ends(pen, cell);
        },
        DrawCommandOf::ClearToEnd { bg, .. } => {
            assert(looks =~= seq![
                OpOf::SetAttribute(Attribute::Reset),
                OpOf::SetBackgroundColor(style::term_color(bg)),
            ]);
        },
    }
    lemma_looks_within(a, looks);
    lemma_op_within(d, a.carried(looks), rest.last(), lo, hi);
}

/// The operations of changes stay in their rows.
proof fn lemma_strokes_within(d: Display, commands: Seq<DrawCommandView>, lo: int, hi: int)
    requires
        within(commands, lo, hi),
        0 <= lo,
        hi <= d.rows.len(),
    ensures
        ({
            let s = d.carried(draw::strokes(commands));
            &&& differ_within(s, d, lo, hi)
            &&& draw::pen_after(commands).last matches Some(p) ==> s.y == p.y
        }),
    decreases commands.len(),
{
    if commands.len() > 0 {
        let before = commands.drop_last();
        let pen = draw::pen_after(before);
        assert forall|k: int| 0 <= k < before.len() implies {
            &&& lo <= draw::place(#[trigger] before[k]).y < hi
            &&& before[k] is Put ==> before[k]->cell.symbol != buffer::glyph('\n')
        } by {
            assert(before[k] == commands[k]);
        }
        lemma_strokes_within(d, before, lo, hi);
        let command = commands[commands.len() - 1];
        display::lemma_carried(d, draw::strokes(before), pen.ops(command));
        lemma_command_within(d, d.carried(draw::strokes(before)), pen, command, lo, hi);
    } else {
        assert(d.carried(draw::strokes(commands)) == d);
    }
}

/// The clearings lie in the rows of the grid.
proof fn lemma_clears_within(a: Grid, next: Seq<CellView>, n: int)
    requires
        a.area.fits(),
        0 <= n <= a.area.height,
    ensures
        within(
            diff::clears(a, next, n),
            a.area.y as int,
            a.area.y + a.area.height,
        ),
    decreases n,
{
    if n > 0 {
        lemma_clears_within(a, next, n - 1);
        let before = diff::clears(a, next, n - 1);
        let all = diff::clears(a, next, n);
        assert forall|k: int| 0 <= k < all.len() implies {
            &&& a.area.y <= draw::place(#[trigger] all[k]).y < a.area.y + a.area.height
            &&& all[k] is Put ==> all[k]->cell.symbol != buffer::glyph('\n')
        } by {
            if k < before.len() {
                assert(all[k] == before[k]);
            }
        }
    }
}

/// The showings lie in the rows of the grid.
proof fn lemma_puts_within(a: Grid, next: Seq<CellView>, n: int)
    requires
        a.wf(),
        a.area.fits(),
        next.len() == a.cells.len(),
        feeds_nothing(next),
        0 <= n <= a.cells.len(),
    ensures
        within(
            diff::puts(a, next, n),
            a.area.y as int,
            a.area.y + a.area.height,
        ),
    decreases n,
{
    if n > 0 {
        lemma_puts_within(a, next, n - 1);
        buffer::lemma_place(a.area, n - 1);
        let before = diff::puts(a, next, n - 1);
        let all = diff::puts(a, next, n);
        assert forall|k: int| 0 <= k < all.len() implies {
            &&& a.area.y <= draw::place(#[trigger] all[k]).y < a.area.y + a.area.height
            &&& all[k] is Put ==> all[k]->cell.symbol != buffer::glyph('\n')
        } by {
            if k < before.len() {
                assert(all[k] == before[k]);
            }
        }
    }
}

/// A frame that is shown changes nothing outside of the viewport.
pub proof fn law_drawing_stays_in_the_viewport(
    t: TerminalView,
    cursor: Option<Position>,
    d: Display,
)
    requires
        t.wf(),
        t.viewport_area.fits(),
        t.viewport_area.y + t.viewport_area.height <= d.rows.len(),
        feeds_nothing(t.current.cells),
    ensures
        differ_within(
            d.carried(insertion::since(t, t.presented(cursor))),
            d,
            t.viewport_area.y as int,
            t.viewport_area.y + t.viewport_area.height,
        ),
{
    let a = t.previous;
    let next = t.current.cells;
    let lo = t.viewport_area.y as int;
    let hi = t.viewport_area.y + t.viewport_area.height;
    drawing::lemma_presented(t, cursor, d);
    if t.viewport_area.width == 0 && t.viewport_area.height == 0 {
        buffer::lemma_cells(a.area);
        assert(a.area.height * a.area.width == 0) by (nonlinear_arith)
            requires
                a.area.height == 0,
        ;
        assert(t.updates() =~= Seq::empty());
    } else if t.updates().len() > 0 {
        let clears = diff::clears(a, next, a.area.height as int);
        let puts = diff::puts(a, next, a.cells.len() as int);
        lemma_clears_within(a, next, a.area.height as int);
        lemma_puts_within(a, next, a.cells.len() as int);
        let all = t.updates();
        assert forall|k: int| 0 <= k < all.len() implies {
            &&& lo <= draw::place(#[trigger] all[k]).y < hi
            &&& all[k] is Put ==> all[k]->cell.symbol != buffer::glyph('\n')
        } by {
            if k < clears.len() {
                assert(all[k] == clears[k]);
            } else {
                assert(all[k] == puts[k - clears.len()]);
            }
        }
        lemma_strokes_within(d, all, lo, hi);
        display::lemma_carried(d, draw::strokes(all), draw::plain_look());
        lemma_looks_within(d.carried(draw::strokes(all)), draw::plain_look());
    }
}

/// The rows of a grid that are copied into one of as many rows are the rows themselves.
proof fn lemma_copied_rows(source: Grid, start: u16, n: u16)
    requires
        source.wf(),
        source.area.x == 0,
        source.area.y == 0,
        start + n <= source.area.height,
        source.area.width > 0,
    ensures
        ({
            let w = source.area.width as int;
            let area = Rect { x: 0, y: 0, width: source.area.width, height: n };
            let cells = Grid::spec_empty(area).copied(source, start, area).cells;
            &&& cells.len() == n * w
            &&& insertion::told_rows(cells, w, 0, n as int) == insertion::told_rows(
                source.cells,
                w,
                start as int,
                n as int,
            )
            &&& forall|r: int|
                0 <= r < n ==> #[trigger] diff::line(cells, w, r) == diff::line(
                    source.cells,
                    w,
                    start + r,
                )
        }),
{
    let w = source.area.width as int;
    let area = Rect { x: 0, y: 0, width: source.area.width, height: n };
    let empty = Grid::spec_empty(area);
    let cells = empty.copied(source, start, area).cells;
    buffer::lemma_cells(area);
    buffer::lemma_cells(source.area);
    assert forall|r: int| 0 <= r < n implies #[trigger] diff::line(cells, w, r) == diff::line(
        source.cells,
        w,
        start + r,
    ) by {
        drawing::lemma_line(cells, w, n as int, r);
        drawing::lemma_line(source.cells, w, source.area.height as int, start + r);
        let a = diff::line(cells, w, r);
        let b = diff::line(source.cells, w, start + r);
        assert forall|c: int| 0 <= c < w implies a[c] == #[trigger] b[c] by {
            let i = r * w + c;
            insertion::lemma_number(w, i, r, c);
            assert(a[c] == cells[i]);
            assert(b[c] == source.cells[(start + r) * w + c]);
            assert(empty.column(i) == c && empty.row(i) == r);
            assert(source.index(c, start + r) == (start + r) * w + c);
        }
        assert(a =~= b);
    }
    let told = insertion::told_rows(cells, w, 0, n as int);
    let want = insertion::told_rows(source.cells, w, start as int, n as int);
    assert forall|r: int| 0 <= r < n implies told[r] == #[trigger] want[r] by {
        assert(diff::line(cells, w, r) == diff::line(source.cells, w, start + r));
    }
    assert(told =~= want);
}

/// Whether a terminal is told something behind all that it was told before.
spec fn follows(t: TerminalView, u: TerminalView) -> bool {
    u.output == t.output + insertion::since(t, u)
}

/// A viewport that is given another height lies on the screen. Where it starts higher than before,
/// or as high, all that stood above it follows on the history as before; where it starts lower,
/// its first rows join what stands above it.
pub proof fn law_fitting_keeps_what_stands_above(
    t: TerminalView,
    height: u16,
    d: Display,
)
    requires
        t.wf(),
        t.is_on_screen(),
        d.has_size(
            t.last_known_screen_size.width as int,
            t.last_known_screen_size.height as int,
        ),
        t.viewport_area.width == t.last_known_screen_size.width || t.viewport_area.width == 0,
        t.viewport_area.y + geometry::lower(height, t.last_known_screen_size.height) <= u16::MAX,
    ensures
        ({
            let u = t.fitted(height, t.last_known_screen_size);
            let s = d.carried(insertion::since(t, u));
            let y = t.viewport_area.y as int;
            let now = insertion::above(s, u.viewport_area.y as int);
            &&& u.wf()
            &&& u.is_on_screen()
            &&& u.is_size_of(s)
            &&& u.output == t.output + insertion::since(t, u)
            &&& u.viewport_area.height == geometry::lower(height, t.last_known_screen_size.height)
            &&& u.viewport_area.width == t.last_known_screen_size.width
            &&& u.viewport_area.x == t.viewport_area.x
            &&& u.last_known_screen_size == t.last_known_screen_size
            &&& u.viewport_area.y <= y ==> now == insertion::above(d, y)
            &&& u.viewport_area.y > y ==> now == insertion::above(d, u.viewport_area.y as int)
        }),
{
    let size = t.last_known_screen_size;
    let w = size.width as int;
    let h = size.height as int;
    let y = t.viewport_area.y as int;
    let u = t.fitted(height, size);
    let area = crate::inline::fit(t.viewport_area, height, size);
    let top = crate::inline::fit_top(t.viewport_area, height, size);
    let by = geometry::plus(top, area.height) - size.height;
    let m = if by > 0 {
        t.told(terminal::scroll_up(0, top as int, by))
    } else {
        t
    };
    let b = d.carried(insertion::since(t, m));
    assert(follows(t, m)) by {
        assert(m.output =~= t.output + insertion::since(t, m));
    }
    if by > 0 {
        assert(top == y);
        assert(insertion::since(t, m) =~= terminal::scroll_up(0, top as int, by));
        insertion::lemma_scroll_up(d, top as int, by, w, h);
        assert(b.rows.subrange(0, top - by) =~= d.rows.subrange(by, top as int));
        assert(insertion::above(b, top - by) =~= insertion::above(d, top as int));
    } else {
        assert(insertion::since(t, m) =~= Seq::empty());
        assert(b == d);
    }
    assert(b.has_size(w, h));
    if area == t.viewport_area || crate::inline::keeps_cells(t.viewport_area, area) {
        assert(insertion::since(t, u) == insertion::since(t, m));
    } else if t.viewport_area.spec_is_empty() {
        assert(m.cleared() == m);
        assert(insertion::since(t, u) == insertion::since(t, m));
    } else {
        insertion::lemma_cleared(m, b, w, h);
        insertion::lemma_since(t, m, m.cleared());
        display::lemma_carried(
            d,
            insertion::since(t, m),
            insertion::since(m, m.cleared()),
        );
        let s = d.carried(insertion::since(t, u));
        assert(u.output == m.cleared().output);
        assert(insertion::since(t, u) == insertion::since(t, m.cleared()));
        assert(insertion::above(s, y) == insertion::above(b, y));
        assert(area.y <= y);
        assert(s.rows.subrange(0, area.y as int) =~= s.rows.subrange(0, y).subrange(
            0,
            area.y as int,
        ));
        assert(b.rows.subrange(0, area.y as int) =~= b.rows.subrange(0, y).subrange(
            0,
            area.y as int,
        ));
        assert(s.history =~= insertion::above(s, y).subrange(0, s.history.len() as int));
        assert(b.history =~= insertion::above(b, y).subrange(0, b.history.len() as int));
        assert(insertion::above(s, area.y as int) =~= insertion::above(s, y).subrange(
            0,
            s.history.len() + area.y,
        ));
        assert(insertion::above(b, area.y as int) =~= insertion::above(b, y).subrange(
            0,
            b.history.len() + area.y,
        ));
    }
    let s = d.carried(insertion::since(t, u));
    assert(insertion::above(s, area.y as int) == insertion::above(b, area.y as int));
    assert(by > 0 ==> area.y == top - by);
    assert(u.viewport_area == area);
}

/// Rows of a grid that are inserted above the viewport join what stands above it.
proof fn lemma_with_rows_above(t: TerminalView, source: Grid, start: u16, n: u16, d: Display)
    requires
        t.wf(),
        t.is_on_screen(),
        t.is_size_of(d),
        t.viewport_area.width > 0,
        n > 0 ==> t.has_room(),
        source.wf(),
        source.area.x == 0,
        source.area.y == 0,
        source.area.width == t.viewport_area.width,
        start + n <= source.area.height,
    ensures
        ({
            let w = t.viewport_area.width as int;
            let u = t.with_rows(source, start, n);
            let s = d.carried(insertion::since(t, u));
            &&& u.wf()
            &&& u.is_on_screen()
            &&& u.is_size_of(s)
            &&& u.output == t.output + insertion::since(t, u)
            &&& u.viewport_area.height == t.viewport_area.height
            &&& u.viewport_area.width == t.viewport_area.width
            &&& u.viewport_area.x == t.viewport_area.x
            &&& u.last_known_screen_size == t.last_known_screen_size
            &&& t.viewport_area.height == t.last_known_screen_size.height ==> u.viewport_area
                == t.viewport_area
            &&& insertion::above(s, u.viewport_area.y as int) == insertion::above(
                d,
                t.viewport_area.y as int,
            ) + insertion::told_rows(source.cells, w, start as int, n as int)
            &&& t.knows_top_row(d) ==> u.viewport_rows(s) == t.viewport_rows(d)
        }),
{
    let w = t.viewport_area.width as int;
    let u = t.with_rows(source, start, n);
    let s = d.carried(insertion::since(t, u));
    if n == 0 {
        assert(insertion::since(t, u) =~= Seq::empty());
        assert(u.output =~= t.output + insertion::since(t, u));
        assert(insertion::above(s, u.viewport_area.y as int) =~= insertion::above(
            d,
            t.viewport_area.y as int,
        ) + insertion::told_rows(source.cells, w, start as int, n as int));
    } else {
        let area = Rect { x: 0, y: 0, width: t.viewport_area.width, height: n };
        let cells = Grid::spec_empty(area).copied(source, start, area).cells;
        lemma_copied_rows(source, start, n);
        insertion::law_inserted_rows_join_the_history(t, n, cells, d);
        insertion::lemma_inserted_output(t, n, cells);
        let m = t.inserted(n, cells);
        let b = d.carried(insertion::since(t, m));
        insertion::lemma_moved(m, t.last_known_cursor_pos, b);
        let moved = m.moved(t.last_known_cursor_pos);
        insertion::lemma_since(t, m, moved);
        assert(u.output == moved.output);
        assert(insertion::since(t, u) == insertion::since(t, moved));
        display::lemma_carried(d, insertion::since(t, m), insertion::since(m, moved));
    }
}

/// Whether two states of a terminal have the same viewport but for the row it starts at, and are
/// of the same screen.
pub open spec fn same_viewport(t: TerminalView, u: TerminalView) -> bool {
    &&& u.viewport_area.height == t.viewport_area.height
    &&& u.viewport_area.width == t.viewport_area.width
    &&& u.viewport_area.x == t.viewport_area.x
    &&& u.last_known_screen_size == t.last_known_screen_size
}

/// The rows that several lines of history take in a viewport of `width` columns.
pub open spec fn history_rows(lines: Seq<LineView>, width: u16) -> Seq<Seq<Glyph>> {
    if lines.len() == 0 {
        Seq::empty()
    } else {
        let grid = history::history_grid(lines, width);
        insertion::told_rows(grid.cells, width as int, 0, grid.area.height as int)
    }
}

/// There is room for rows above a viewport that lies on the screen.
proof fn lemma_has_room(t: TerminalView)
    requires
        t.is_on_screen(),
        t.last_known_screen_size.height > 0,
    ensures
        t.has_room(),
{
}

/// Lines of history that are inserted above the viewport join what stands above it.
proof fn lemma_with_history_above(t: TerminalView, lines: Seq<LineView>, d: Display)
    requires
        t.wf(),
        t.is_on_screen(),
        t.is_size_of(d),
        t.viewport_area.width > 0,
        t.last_known_screen_size.height > 0,
    ensures
        ({
            let u = t.with_history(lines, InsertHistoryMode::Standard);
            let s = d.carried(insertion::since(t, u));
            &&& u.wf()
            &&& u.is_on_screen()
            &&& u.is_size_of(s)
            &&& u.output == t.output + insertion::since(t, u)
            &&& same_viewport(t, u)
            &&& t.viewport_area.height == t.last_known_screen_size.height ==> u.viewport_area
                == t.viewport_area
            &&& insertion::above(s, u.viewport_area.y as int) == insertion::above(
                d,
                t.viewport_area.y as int,
            ) + history_rows(lines, t.viewport_area.width)
            &&& t.knows_top_row(d) ==> u.viewport_rows(s) == t.viewport_rows(d)
        }),
{
    let u = t.with_history(lines, InsertHistoryMode::Standard);
    let s = d.carried(insertion::since(t, u));
    lemma_has_room(t);
    crate::inline::lemma_with_history(t, lines);
    if lines.len() == 0 {
        assert(insertion::since(t, u) =~= Seq::empty());
        assert(u.output =~= t.output + insertion::since(t, u));
        assert(insertion::above(s, u.viewport_area.y as int) =~= insertion::above(
            d,
            t.viewport_area.y as int,
        ) + history_rows(lines, t.viewport_area.width));
    } else {
        insertion::law_history_lines_join_the_history(t, lines, InsertHistoryMode::Standard, d);
        let grid = history::history_grid(lines, t.viewport_area.width);
        let m = t.inserted(grid.area.height, grid.cells);
        assert(m.wf());
        assert(u.wf());
    }
}

impl InlineView {
    /// Whether the viewport lies on a screen of the size it had, and is as wide as the screen, or
    /// has no columns, as when it was never drawn.
    pub open spec fn is_ready(self, size: Size) -> bool {
        &&& self.terminal.wf()
        &&& self.terminal.is_on_screen()
        &&& size == self.terminal.last_known_screen_size
        &&& self.terminal.viewport_area.width == size.width || self.terminal.viewport_area.width
            == 0
        &&& self.terminal.viewport_area.x == 0
        &&& 0 < size.width
        &&& 0 < size.height
    }

    /// The terminal when the viewport is given another height: with the pending history inserted,
    /// if the viewport has columns.
    pub open spec fn before_fitting(self) -> TerminalView {
        if self.terminal.viewport_area.width == 0 {
            self.terminal
        } else {
            self.terminal.with_history(self.pending, InsertHistoryMode::Standard)
        }
    }

    /// Whether the row below a viewport of so many rows can be counted, before it is moved up to
    /// end on the screen.
    pub open spec fn is_countable(self, height: u16, size: Size) -> bool {
        self.before_fitting().viewport_area.y + geometry::lower(height, size.height) <= u16::MAX
    }

    /// The row of the screen that the pending history is inserted at. A viewport without columns
    /// is given its rows first, and may start lower then.
    pub open spec fn history_row(self, height: u16, size: Size) -> int {
        let area = self.terminal.viewport_area;
        if area.width == 0 {
            geometry::greatest(
                area.y as int,
                crate::inline::fit(area, height, size).y as int,
            )
        } else {
            area.y as int
        }
    }

    /// What stood above the row that the pending history is inserted at, and the pending history.
    pub open spec fn with_pending(self, height: u16, size: Size, d: Display) -> Seq<Seq<Glyph>> {
        insertion::above(d, self.history_row(height, size)) + history_rows(
            self.pending,
            size.width,
        )
    }

    /// How many rows lower the viewport starts when it is given so many rows: those of its rows
    /// stay above it.
    pub open spec fn rows_let_go(self, height: u16, size: Size) -> int {
        let m = self.before_fitting().viewport_area;
        if m.width == 0 {
            0
        } else {
            geometry::greatest(crate::inline::fit(m, height, size).y - m.y, 0)
        }
    }
}

/// Whether a grid holds the rows of a tail: first those that scroll, then the pinned ones.
pub open spec fn holds_tail(source: Grid, tail: Tail) -> bool {
    &&& source.wf()
    &&& source.area.x == 0
    &&& source.area.y == 0
    &&& source.area.width == tail.size.width
    &&& source.area.height >= tail.scrollback_height + tail.pinned()
}

/// Copying keeps cells without line feeds free of them.
proof fn lemma_copied_feeds_nothing(grid: Grid, source: Grid, start: u16, area: Rect)
    requires
        source.wf(),
        feeds_nothing(grid.cells),
        feeds_nothing(source.cells),
    ensures
        feeds_nothing(grid.copied(source, start, area).cells),
{
    let cells = grid.copied(source, start, area).cells;
    assert forall|i: int| 0 <= i < cells.len() implies (#[trigger] cells[i]).symbol
        != buffer::glyph('\n') by {
        let c = grid.column(i) - area.x;
        let r = grid.row(i) - area.y;
        if source.holds(source.area.x + c, source.area.y + start + r) {
            buffer::lemma_index(source, source.area.x + c, source.area.y + start + r);
        }
        assert(grid.cells[i].symbol != buffer::glyph('\n'));
    }
}

/// What stands above a viewport that starts lower than before: what stood above it, and its first
/// rows.
proof fn lemma_above_more(d: Display, y: int, k: int)
    requires
        0 <= y,
        0 <= k,
        y + k <= d.rows.len(),
    ensures
        insertion::above(d, y + k) == insertion::above(d, y) + d.rows.subrange(y, y + k),
{
    assert(insertion::above(d, y + k) =~= insertion::above(d, y) + d.rows.subrange(y, y + k));
}

/// A viewport with columns: the pending history is inserted above it, and it is given another
/// height.
#[verifier::rlimit(40)]
proof fn lemma_room_below_history(v: InlineView, height: u16, screen: Screen, d: Display)
    requires
        v.is_ready(screen.size),
        v.terminal.viewport_area.width > 0,
        d.has_size(screen.size.width as int, screen.size.height as int),
        v.is_countable(height, screen.size),
    ensures
        ({
            let t0 = v.terminal.begun();
            let u = v.made_room(screen, height);
            let s = d.carried(insertion::since(t0, u));
            let now = insertion::above(s, u.viewport_area.y as int);
            let k = v.rows_let_go(height, screen.size);
            let base = v.with_pending(height, screen.size, d);
            &&& u.wf()
            &&& u.is_on_screen()
            &&& u.is_size_of(s)
            &&& u.output == t0.output + insertion::since(t0, u)
            &&& u.last_known_screen_size == screen.size
            &&& u.viewport_area.x == 0
            &&& u.viewport_area.width == screen.size.width
            &&& u.viewport_area.height == geometry::lower(height, screen.size.height)
            &&& now.len() == base.len() + k
            &&& now.subrange(0, base.len() as int) == base
            &&& t0.knows_top_row(d) ==> now == base + t0.viewport_rows(d).subrange(0, k)
        }),
{
    let t0 = v.terminal.begun();
    let m = t0.with_history(v.pending, InsertHistoryMode::Standard);
    let dm = d.carried(insertion::since(t0, m));
    lemma_with_history_above(t0, v.pending, d);
    assert(m.viewport_area == v.before_fitting().viewport_area);
    law_fitting_keeps_what_stands_above(m, height, dm);
    let u = m.fitted(height, screen.size);
    assert(v.made_room(screen, height) == u);
    crate::inline::lemma_fitted(m, height, screen.size);
    insertion::lemma_since(t0, m, u);
    display::lemma_carried(d, insertion::since(t0, m), insertion::since(m, u));
    let s = d.carried(insertion::since(t0, u));
    let k = v.rows_let_go(height, screen.size);
    let y = m.viewport_area.y as int;
    let now = insertion::above(s, u.viewport_area.y as int);
    let base = v.with_pending(height, screen.size, d);
    assert(base == insertion::above(dm, y));
    lemma_above_more(dm, y, k);
    assert(now == base + dm.rows.subrange(y, y + k));
    assert(now.subrange(0, base.len() as int) =~= base);
    if t0.knows_top_row(d) {
        assert(k <= m.viewport_area.height);
        assert(dm.rows.subrange(y, y + k) =~= m.viewport_rows(dm).subrange(0, k));
    }
}

/// A viewport that is given another height first, and then has the pending history inserted above
/// it.
pub proof fn lemma_room_above_history(v: InlineView, height: u16, d: Display)
    requires
        v.is_ready(v.terminal.last_known_screen_size),
        d.has_size(
            v.terminal.last_known_screen_size.width as int,
            v.terminal.last_known_screen_size.height as int,
        ),
        v.terminal.viewport_area.y + geometry::lower(
            height,
            v.terminal.last_known_screen_size.height,
        ) <= u16::MAX,
    ensures
        ({
            let size = v.terminal.last_known_screen_size;
            let t0 = v.terminal.begun();
            let u = t0.fitted(height, size).with_history(v.pending, InsertHistoryMode::Standard);
            let s = d.carried(insertion::since(t0, u));
            let y = v.terminal.viewport_area.y as int;
            let row = crate::inline::fit(v.terminal.viewport_area, height, size).y as int;
            &&& u.wf()
            &&& u.is_on_screen()
            &&& u.is_size_of(s)
            &&& u.output == t0.output + insertion::since(t0, u)
            &&& u.last_known_screen_size == size
            &&& u.viewport_area.x == 0
            &&& u.viewport_area.width == size.width
            &&& u.viewport_area.height == geometry::lower(height, size.height)
            &&& insertion::above(s, u.viewport_area.y as int) == insertion::above(
                d,
                geometry::greatest(y, row),
            ) + history_rows(v.pending, size.width)
        }),
{
    let size = v.terminal.last_known_screen_size;
    let t0 = v.terminal.begun();
    let m = t0.fitted(height, size);
    let dm = d.carried(insertion::since(t0, m));
    law_fitting_keeps_what_stands_above(t0, height, d);
    crate::inline::lemma_fitted(t0, height, size);
    lemma_with_history_above(m, v.pending, dm);
    let u = m.with_history(v.pending, InsertHistoryMode::Standard);
    insertion::lemma_since(t0, m, u);
    display::lemma_carried(d, insertion::since(t0, m), insertion::since(m, u));
}

/// Room is made for a tail: all that stood above the viewport is followed by the pending history,
/// and that by the rows which the viewport lets go.
pub proof fn lemma_made_room(v: InlineView, height: u16, screen: Screen, d: Display)
    requires
        v.is_ready(screen.size),
        d.has_size(screen.size.width as int, screen.size.height as int),
        v.is_countable(height, screen.size),
    ensures
        ({
            let t = v.terminal;
            let u = v.made_room(screen, height);
            let s = d.carried(insertion::since(t, u));
            let now = insertion::above(s, u.viewport_area.y as int);
            let k = v.rows_let_go(height, screen.size);
            let base = v.with_pending(height, screen.size, d);
            &&& u.wf()
            &&& u.is_on_screen()
            &&& u.is_size_of(s)
            &&& u.output == t.output + insertion::since(t, u)
            &&& u.last_known_screen_size == screen.size
            &&& u.viewport_area.x == 0
            &&& u.viewport_area.width == screen.size.width
            &&& u.viewport_area.height == geometry::lower(height, screen.size.height)
            &&& now.len() == base.len() + k
            &&& now.subrange(0, base.len() as int) == base
            &&& t.knows_top_row(d) ==> now == base + t.viewport_rows(d).subrange(0, k)
        }),
{
    let t = v.terminal;
    let t0 = t.begun();
    let u = v.made_room(screen, height);
    lemma_begun(t, d);
    if t.viewport_area.width == 0 {
        lemma_room_above_history(v, height, d);
        let s = d.carried(insertion::since(t0, u));
        let now = insertion::above(s, u.viewport_area.y as int);
        assert(now.subrange(0, now.len() as int) =~= now);
        assert(now =~= now + t.viewport_rows(d).subrange(0, 0));
    } else {
        lemma_room_below_history(v, height, screen, d);
    }
    insertion::lemma_since(t, t0, u);
    display::lemma_carried(d, insertion::since(t, t0), insertion::since(t0, u));
}

/// A frame that is shown at the end of an update changes nothing outside of the viewport.
proof fn lemma_frame_ended(t: TerminalView, cursor: Option<Position>, d: Display)
    requires
        t.wf(),
        t.viewport_area.fits(),
        t.viewport_area.y + t.viewport_area.height <= d.rows.len(),
        feeds_nothing(t.current.cells),
    ensures
        ({
            let u = t.presented(cursor).ended();
            let s = d.carried(insertion::since(t, u));
            &&& u.output == t.output + insertion::since(t, u)
            &&& u.viewport_area == t.viewport_area
            &&& differ_within(
                s,
                d,
                t.viewport_area.y as int,
                t.viewport_area.y + t.viewport_area.height,
            )
        }),
{
    let p = t.presented(cursor);
    drawing::lemma_presented(t, cursor, d);
    law_drawing_stays_in_the_viewport(t, cursor, d);
    let u = p.ended();
    let last = seq![OpOf::EndSynchronizedUpdate, OpOf::FlushWriter];
    assert(insertion::since(p, u) =~= last);
    assert(follows(p, u));
    insertion::lemma_since(t, p, u);
    display::lemma_carried(d, insertion::since(t, p), last);
    drawing::lemma_calm(d.carried(insertion::since(t, p)), last);
}

/// What is drawn into the viewport at the end of an update changes nothing outside of it.
proof fn lemma_shown_and_ended(t: TerminalView, cells: Grid, size: Size, d: Display)
    requires
        t.wf(),
        t.viewport_area.fits(),
        t.viewport_area.y + t.viewport_area.height <= d.rows.len(),
        cells.wf(),
        cells.area == t.current.area,
        feeds_nothing(cells.cells),
    ensures
        ({
            let u = t.invalidated().on_screen(size).with_current(cells).presented(None).ended();
            let s = d.carried(insertion::since(t, u));
            &&& u.output == t.output + insertion::since(t, u)
            &&& u.viewport_area == t.viewport_area
            &&& differ_within(
                s,
                d,
                t.viewport_area.y as int,
                t.viewport_area.y + t.viewport_area.height,
            )
        }),
{
    let m = t.invalidated().on_screen(size).with_current(cells);
    lemma_frame_ended(m, None, d);
    let u = m.presented(None).ended();
    assert(insertion::since(t, u) == insertion::since(m, u));
}

/// Pending lines stand above a viewport that is drawn, right behind all that stood above it; where
/// it then starts lower, its first rows stay there, above them. No other row above the viewport
/// changes.
#[verifier::rlimit(40)]
pub proof fn law_pending_history_stands_above_the_viewport(
    v: InlineView,
    screen: Screen,
    height: u16,
    grid: Grid,
    cursor: Option<Position>,
    d: Display,
)
    requires
        v.is_ready(screen.size),
        d.has_size(screen.size.width as int, screen.size.height as int),
        v.terminal.viewport_area.y + geometry::lower(height, screen.size.height) <= u16::MAX,
        grid.wf(),
        grid.area == v.readied(screen, height).current.area,
        feeds_nothing(grid.cells),
    ensures
        ({
            let u = v.readied(screen, height).on_screen(screen.size).with_current(grid).presented(
                cursor,
            ).ended();
            let s = d.carried(insertion::since(v.terminal, u));
            let y = v.terminal.viewport_area.y as int;
            let row = crate::inline::fit(v.terminal.viewport_area, height, screen.size).y as int;
            insertion::above(s, u.viewport_area.y as int) == insertion::above(
                d,
                geometry::greatest(y, row),
            ) + history_rows(v.pending, screen.size.width)
        }),
{
    let t = v.terminal;
    let t0 = t.begun();
    assert(t0.settled(screen) == t0);
    lemma_begun(t, d);
    lemma_room_above_history(v, height, d);
    let t1 = t0.fitted(height, screen.size).with_history(v.pending, InsertHistoryMode::Standard);
    let d1 = d.carried(insertion::since(t0, t1));
    let m = v.readied(screen, height).on_screen(screen.size).with_current(grid);
    assert(m.output == t1.output && m.viewport_area == t1.viewport_area);
    assert(m.wf());
    lemma_frame_ended(m, cursor, d1);
    let u = m.presented(cursor).ended();
    assert(insertion::since(t1, u) == insertion::since(m, u));
    insertion::lemma_since(t0, t1, u);
    display::lemma_carried(d, insertion::since(t0, t1), insertion::since(t1, u));
    insertion::lemma_since(t, t0, u);
    display::lemma_carried(d, insertion::since(t, t0), insertion::since(t0, u));
    let s = d.carried(insertion::since(t, u));
    let top = u.viewport_area.y as int;
    assert(s.rows.subrange(0, top) =~= d1.rows.subrange(0, top));
}

/// A viewport that is given another height shows no line feed, if it showed none.
proof fn lemma_fitted_feeds_nothing(t: TerminalView, height: u16, size: Size)
    requires
        t.wf(),
        feeds_nothing(t.current.cells),
    ensures
        feeds_nothing(t.fitted(height, size).current.cells),
{
    let old_cells = t.current.cells;
    let now = t.fitted(height, size).current;
    let cells = now.cells;
    assert forall|i: int| 0 <= i < cells.len() implies (#[trigger] cells[i]).symbol
        != buffer::glyph('\n') by {
        assert(buffer::glyph(' ')[0] != buffer::glyph('\n')[0]);
        let c = now.column(i);
        let r = now.row(i);
        if t.current.holds(c, r) {
            buffer::lemma_index(t.current, c, r);
            assert(old_cells[t.current.index(c, r)].symbol != buffer::glyph('\n'));
        }
        if i < old_cells.len() {
            assert(old_cells[i].symbol != buffer::glyph('\n'));
        }
    }
}

/// A viewport that history is inserted above shows no line feed, if it showed none.
proof fn lemma_history_feeds_nothing(t: TerminalView, lines: Seq<LineView>)
    requires
        t.wf(),
        feeds_nothing(t.current.cells),
    ensures
        feeds_nothing(t.with_history(lines, InsertHistoryMode::Standard).current.cells),
{
    let old_cells = t.current.cells;
    let cells = t.with_history(lines, InsertHistoryMode::Standard).current.cells;
    assert forall|i: int| 0 <= i < cells.len() implies (#[trigger] cells[i]).symbol
        != buffer::glyph('\n') by {
        assert(buffer::glyph(' ')[0] != buffer::glyph('\n')[0]);
        if i < old_cells.len() {
            assert(old_cells[i].symbol != buffer::glyph('\n'));
        }
    }
}

/// Inserting history keeps the parts of a terminal together.
proof fn lemma_history_wf(t: TerminalView, lines: Seq<LineView>)
    requires
        t.wf(),
    ensures
        t.with_history(lines, InsertHistoryMode::Standard).wf(),
{
    let grid = history::history_grid(lines, t.viewport_area.width);
    assert(t.inserted(grid.area.height, grid.cells).wf());
}

/// A viewport that room has been made for shows no line feed, if it showed none.
pub proof fn lemma_room_feeds_nothing(v: InlineView, height: u16, screen: Screen)
    requires
        v.is_ready(screen.size),
        feeds_nothing(v.terminal.current.cells),
    ensures
        feeds_nothing(v.made_room(screen, height).current.cells),
{
    let t0 = v.terminal.begun();
    assert(t0.settled(screen) == t0);
    if t0.viewport_area.width == 0 {
        let m = t0.fitted(height, screen.size);
        lemma_fitted_feeds_nothing(t0, height, screen.size);
        assert(m.wf());
        lemma_history_feeds_nothing(m, v.pending);
    } else {
        lemma_history_feeds_nothing(t0, v.pending);
        lemma_history_wf(t0, v.pending);
        lemma_fitted_feeds_nothing(
            t0.with_history(v.pending, InsertHistoryMode::Standard),
            height,
            screen.size,
        );
    }
}

/// What a tail draws into the viewport holds no line feed.
proof fn lemma_composed_feeds_nothing(t: TerminalView, source: Grid, start: u16, tail: Tail)
    requires
        source.wf(),
        feeds_nothing(t.current.cells),
        feeds_nothing(source.cells),
    ensures
        feeds_nothing(t.composed(source, start, tail.scrollback_height, tail.pinned()).cells),
{
    let area = t.viewport_area;
    let p = geometry::lower(tail.pinned(), area.height);
    let tail_area = Rect::spec_new(area.x, area.y, area.width, geometry::minus(area.height, p));
    lemma_copied_feeds_nothing(t.current, source, start, tail_area);
    lemma_copied_feeds_nothing(
        t.current.copied(source, start, tail_area),
        source,
        tail.scrollback_height,
        crate::inline::pinned_area(area, p),
    );
}

/// Showing a frame leaves the viewport where it is.
proof fn lemma_viewport_kept(t: TerminalView)
    ensures
        t.presented(None).ended().viewport_area == t.viewport_area,
{
}

/// The rows of a tail that are not yet committed and do not fit on the screen, of which there may
/// be none, join what stands above the viewport.
pub proof fn lemma_rows_committed(t: TerminalView, source: Grid, start: u16, n: u16, d: Display)
    requires
        t.wf(),
        t.is_on_screen(),
        t.is_size_of(d),
        t.viewport_area.width > 0,
        t.last_known_screen_size.height > 0,
        n > 0 ==> {
            &&& t.viewport_area.height == t.last_known_screen_size.height
            &&& source.wf()
            &&& source.area.x == 0
            &&& source.area.y == 0
            &&& source.area.width == t.viewport_area.width
            &&& start + n <= source.area.height
        },
    ensures
        ({
            let u = t.with_rows(source, start, n);
            let s = d.carried(insertion::since(t, u));
            &&& u.wf()
            &&& u.is_size_of(s)
            &&& u.output == t.output + insertion::since(t, u)
            &&& u.viewport_area == t.viewport_area
            &&& u.current == t.current
            &&& u.last_known_screen_size == t.last_known_screen_size
            &&& insertion::above(s, u.viewport_area.y as int) == insertion::above(
                d,
                t.viewport_area.y as int,
            ) + insertion::told_rows(
                source.cells,
                t.viewport_area.width as int,
                start as int,
                n as int,
            )
        }),
{
    let u = t.with_rows(source, start, n);
    if n == 0 {
        let s = d.carried(insertion::since(t, u));
        assert(insertion::since(t, u) =~= Seq::empty());
        assert(u.output =~= t.output + insertion::since(t, u));
        assert(insertion::above(s, u.viewport_area.y as int) =~= insertion::above(
            d,
            t.viewport_area.y as int,
        ) + insertion::told_rows(source.cells, t.viewport_area.width as int, start as int, 0));
    } else {
        lemma_has_room(t);
        lemma_with_rows_above(t, source, start, n, d);
        assert(t.shift(n as int) == 0);
    }
}

/// A tail that is shown changes nothing above the viewport.
pub proof fn lemma_rest_shown(
    t: TerminalView,
    source: Grid,
    start: u16,
    tail: Tail,
    size: Size,
    d: Display,
)
    requires
        t.wf(),
        t.viewport_area.fits(),
        t.viewport_area.y + t.viewport_area.height <= d.rows.len(),
        source.wf(),
        feeds_nothing(t.current.cells),
        feeds_nothing(source.cells),
    ensures
        ({
            let t3 = t.invalidated().on_screen(size);
            let cells = t3.composed(source, start, tail.scrollback_height, tail.pinned());
            let u = t3.with_current(cells).presented(None).ended();
            let s = d.carried(insertion::since(t, u));
            &&& u.output == t.output + insertion::since(t, u)
            &&& u.viewport_area == t.viewport_area
            &&& s.rows.len() == d.rows.len()
            &&& forall|i: int| 0 <= i < s.rows.len() ==> (#[trigger] s.rows[i]).len()
                == d.rows[i].len()
            &&& insertion::above(s, u.viewport_area.y as int) == insertion::above(
                d,
                t.viewport_area.y as int,
            )
        }),
{
    let t3 = t.invalidated().on_screen(size);
    let cells = t3.composed(source, start, tail.scrollback_height, tail.pinned());
    let u = t3.with_current(cells).presented(None).ended();
    lemma_composed_feeds_nothing(t3, source, start, tail);
    assert(cells.wf() && cells.area == t.current.area);
    lemma_shown_and_ended(t, cells, size, d);
    lemma_viewport_kept(t3.with_current(cells));
    let s = d.carried(insertion::since(t, u));
    let y = t.viewport_area.y as int;
    assert(s.rows.subrange(0, y) =~= d.rows.subrange(0, y));
}

/// The rows of a tail that are not yet committed and do not fit on the screen are inserted, and the
/// rest is shown: what stands above the viewport then.
#[verifier::rlimit(40)]
proof fn lemma_tail_drawn(
    v: InlineView,
    state: TailView,
    source: Grid,
    tail: Tail,
    screen: Screen,
    d: Display,
)
    requires
        v.is_ready(tail.size),
        tail.size == screen.size,
        d.has_size(tail.size.width as int, tail.size.height as int),
        v.is_countable(tail.height(), tail.size),
        source.wf(),
        tail.overflow() > state.arranged(tail).committed_rows ==> holds_tail(source, tail),
        feeds_nothing(source.cells),
        feeds_nothing(v.terminal.current.cells),
    ensures
        ({
            let t = v.terminal;
            let t1 = v.made_room(screen, tail.height());
            let d1 = d.carried(insertion::since(t, t1));
            let u = v.tail_drawn(state, source, tail, screen).terminal;
            let s = d.carried(insertion::since(t, u));
            let committed = state.arranged(tail).committed_rows;
            &&& u.viewport_area == t1.viewport_area
            &&& s.rows.len() == tail.size.height
            &&& insertion::above(s, u.viewport_area.y as int) == insertion::above(
                d1,
                t1.viewport_area.y as int,
            ) + insertion::told_rows(
                source.cells,
                tail.size.width as int,
                committed as int,
                geometry::minus(tail.overflow(), committed) as int,
            )
        }),
{
    let t = v.terminal;
    let committed = state.arranged(tail).committed_rows;
    let n = geometry::minus(tail.overflow(), committed);
    let t1 = v.made_room(screen, tail.height());
    lemma_made_room(v, tail.height(), screen, d);
    lemma_room_feeds_nothing(v, tail.height(), screen);
    let d1 = d.carried(insertion::since(t, t1));
    let t2 = t1.with_rows(source, committed, n);
    let d2 = d1.carried(insertion::since(t1, t2));
    lemma_rows_committed(t1, source, committed, n, d1);
    insertion::lemma_since(t, t1, t2);
    display::lemma_carried(d, insertion::since(t, t1), insertion::since(t1, t2));
    let start = state.drawn(tail).committed_rows;
    lemma_rest_shown(t2, source, start, tail, screen.size, d2);
    let u = v.tail_drawn(state, source, tail, screen).terminal;
    insertion::lemma_since(t, t2, u);
    display::lemma_carried(d, insertion::since(t, t2), insertion::since(t2, u));
}

/// Rows of a tail that do not fit on the screen, and have not been committed, follow in order and
/// complete on all that stood above the viewport and on the pending history. The viewport then
/// fills the screen, and the history ends with them.
#[verifier::rlimit(40)]
pub proof fn law_overflowing_rows_join_the_history(
    v: InlineView,
    state: TailView,
    source: Grid,
    tail: Tail,
    screen: Screen,
    d: Display,
)
    requires
        v.is_ready(tail.size),
        tail.size == screen.size,
        d.has_size(tail.size.width as int, tail.size.height as int),
        v.is_countable(tail.size.height, tail.size),
        holds_tail(source, tail),
        feeds_nothing(source.cells),
        feeds_nothing(v.terminal.current.cells),
        tail.overflow() > state.arranged(tail).committed_rows,
    ensures
        ({
            let u = v.tail_drawn(state, source, tail, screen).terminal;
            let s = d.carried(insertion::since(v.terminal, u));
            let committed = committed_so_far(state, tail);
            &&& u.viewport_area == Rect {
                x: 0,
                y: 0,
                width: tail.size.width,
                height: tail.size.height,
            }
            &&& s.history == insertion::above(d, v.terminal.viewport_area.y as int)
                + history_rows(v.pending, tail.size.width) + insertion::told_rows(
                source.cells,
                tail.size.width as int,
                committed,
                tail.overflow() - committed,
            )
        }),
{
    let t = v.terminal;
    law_drawing_commits_what_is_not_shown(state, tail);
    assert(tail.height() == tail.size.height);
    let t1 = v.made_room(screen, tail.height());
    lemma_made_room(v, tail.height(), screen, d);
    let d1 = d.carried(insertion::since(t, t1));
    assert(t1.viewport_area.y == 0);
    assert(v.rows_let_go(tail.height(), tail.size) == 0);
    let base = v.with_pending(tail.height(), tail.size, d);
    let now = insertion::above(d1, 0);
    assert(now.subrange(0, base.len() as int) =~= now);
    lemma_tail_drawn(v, state, source, tail, screen, d);
    let u = v.tail_drawn(state, source, tail, screen).terminal;
    let s = d.carried(insertion::since(t, u));
    assert(insertion::above(s, 0) =~= s.history);
}

/// A tail whose rows all fit on the screen, or are committed, inserts nothing but the pending
/// history: that follows on all that stood above the viewport. Where the viewport then starts
/// lower, its first rows stay above it.
pub proof fn law_fitting_tail_commits_nothing(
    v: InlineView,
    state: TailView,
    source: Grid,
    tail: Tail,
    screen: Screen,
    d: Display,
)
    requires
        v.is_ready(tail.size),
        tail.size == screen.size,
        d.has_size(tail.size.width as int, tail.size.height as int),
        v.is_countable(tail.height(), tail.size),
        source.wf(),
        feeds_nothing(source.cells),
        feeds_nothing(v.terminal.current.cells),
        tail.overflow() <= state.arranged(tail).committed_rows,
    ensures
        ({
            let u = v.tail_drawn(state, source, tail, screen).terminal;
            let s = d.carried(insertion::since(v.terminal, u));
            let now = insertion::above(s, u.viewport_area.y as int);
            let base = v.with_pending(tail.height(), tail.size, d);
            let k = v.rows_let_go(tail.height(), tail.size);
            &&& now.len() == base.len() + k
            &&& now.subrange(0, base.len() as int) == base
            &&& v.terminal.knows_top_row(d) ==> now == base + v.terminal.viewport_rows(
                d,
            ).subrange(0, k)
        }),
{
    let t = v.terminal;
    let t1 = v.made_room(screen, tail.height());
    lemma_made_room(v, tail.height(), screen, d);
    lemma_tail_drawn(v, state, source, tail, screen, d);
    let d1 = d.carried(insertion::since(t, t1));
    let now = insertion::above(d1, t1.viewport_area.y as int);
    assert(now + insertion::told_rows(
        source.cells,
        tail.size.width as int,
        state.arranged(tail).committed_rows as int,
        0,
    ) =~= now);
}

/// What follows on the start of what stands above a viewport stays there when more joins it.
proof fn lemma_part_stays(
    first: Seq<Seq<Glyph>>,
    part: Seq<Seq<Glyph>>,
    before: Seq<Seq<Glyph>>,
    more: Seq<Seq<Glyph>>,
)
    requires
        (first + part).len() <= before.len(),
        before.subrange(0, (first + part).len() as int) == first + part,
    ensures
        first.len() + part.len() <= (before + more).len(),
        (before + more).subrange(first.len() as int, (first.len() + part.len()) as int) == part,
{
    let now = before + more;
    let at = first.len() as int;
    assert forall|i: int| 0 <= i < part.len() implies now[at + i] == #[trigger] part[i] by {
        assert((first + part)[at + i] == part[i]);
        assert(before.subrange(0, (first + part).len() as int)[at + i] == before[at + i]);
    }
    assert(now.subrange(at, (at + part.len()) as int) =~= part);
}

/// Pending lines stand above a tail that is drawn, right behind all that stood above the viewport,
/// and none is pending any more. That holds of a viewport that was never drawn too.
#[verifier::rlimit(40)]
pub proof fn law_pending_history_stands_above_the_tail(
    v: InlineView,
    state: TailView,
    source: Grid,
    tail: Tail,
    screen: Screen,
    d: Display,
)
    requires
        v.is_ready(tail.size),
        tail.size == screen.size,
        d.has_size(tail.size.width as int, tail.size.height as int),
        v.is_countable(tail.height(), tail.size),
        source.wf(),
        tail.overflow() > state.arranged(tail).committed_rows ==> holds_tail(source, tail),
        feeds_nothing(source.cells),
        feeds_nothing(v.terminal.current.cells),
    ensures
        ({
            let u = v.tail_drawn(state, source, tail, screen);
            let s = d.carried(insertion::since(v.terminal, u.terminal));
            let now = insertion::above(s, u.terminal.viewport_area.y as int);
            let rows = history_rows(v.pending, tail.size.width);
            let at = insertion::above(d, v.history_row(tail.height(), tail.size)).len() as int;
            &&& u.pending.len() == 0
            &&& at + rows.len() <= now.len()
            &&& now.subrange(at, (at + rows.len()) as int) == rows
        }),
{
    let t1 = v.made_room(screen, tail.height());
    lemma_made_room(v, tail.height(), screen, d);
    lemma_tail_drawn(v, state, source, tail, screen, d);
    let d1 = d.carried(insertion::since(v.terminal, t1));
    let committed = state.arranged(tail).committed_rows;
    lemma_part_stays(
        insertion::above(d, v.history_row(tail.height(), tail.size)),
        history_rows(v.pending, tail.size.width),
        insertion::above(d1, t1.viewport_area.y as int),
        insertion::told_rows(
            source.cells,
            tail.size.width as int,
            committed as int,
            geometry::minus(tail.overflow(), committed) as int,
        ),
    );
}

/// A row of a grid into which rows of another have been copied from the row `k` of it on.
proof fn lemma_copied_line(grid: Grid, source: Grid, start: u16, k: int, n: u16, r: int)
    requires
        grid.wf(),
        source.wf(),
        grid.area.fits(),
        grid.area.x == 0,
        source.area.x == 0,
        source.area.y == 0,
        source.area.width == grid.area.width,
        grid.area.y + grid.area.height <= u16::MAX,
        0 <= k,
        k + n <= grid.area.height,
        start + n <= source.area.height,
        0 <= r < grid.area.height,
    ensures
        ({
            let w = grid.area.width as int;
            let area = Rect {
                x: 0,
                y: (grid.area.y + k) as u16,
                width: grid.area.width,
                height: n,
            };
            let line = diff::line(grid.copied(source, start, area).cells, w, r);
            if k <= r < k + n {
                line == diff::line(source.cells, w, start + (r - k))
            } else {
                line == diff::line(grid.cells, w, r)
            }
        }),
{
    let w = grid.area.width as int;
    let area = Rect { x: 0, y: (grid.area.y + k) as u16, width: grid.area.width, height: n };
    let cells = grid.copied(source, start, area).cells;
    buffer::lemma_cells(grid.area);
    buffer::lemma_cells(source.area);
    drawing::lemma_line(cells, w, grid.area.height as int, r);
    drawing::lemma_line(grid.cells, w, grid.area.height as int, r);
    let line = diff::line(cells, w, r);
    let q = start + (r - k);
    if k <= r < k + n {
        drawing::lemma_line(source.cells, w, source.area.height as int, q);
    }
    let want = if k <= r < k + n {
        diff::line(source.cells, w, q)
    } else {
        diff::line(grid.cells, w, r)
    };
    assert forall|c: int| 0 <= c < w implies line[c] == #[trigger] want[c] by {
        let i = r * w + c;
        insertion::lemma_number(w, i, r, c);
        assert(line[c] == cells[i]);
        assert(grid.column(i) == c && grid.row(i) == grid.area.y + r);
        assert(diff::line(grid.cells, w, r)[c] == grid.cells[i]);
        if k <= r < k + n {
            assert(source.index(c, q) == q * w + c);
            assert(diff::line(source.cells, w, q)[c] == source.cells[q * w + c]);
        }
    }
    assert(line =~= want);
}

/// The cells of a viewport that a tail is drawn in: its rows from `start` on, and at the end the
/// pinned ones.
proof fn lemma_composed_lines(t: TerminalView, source: Grid, start: u16, tail: Tail, r: int)
    requires
        t.wf(),
        t.viewport_area.x == 0,
        t.viewport_area.width == tail.size.width,
        t.viewport_area.width > 0,
        t.viewport_area.height == tail.height(),
        t.viewport_area.y + t.viewport_area.height <= u16::MAX,
        source.wf(),
        source.area.x == 0,
        source.area.y == 0,
        source.area.width == tail.size.width,
        start + tail.visible() <= source.area.height,
        tail.scrollback_height + tail.pinned() <= source.area.height,
        0 <= r < tail.height(),
    ensures
        ({
            let w = tail.size.width as int;
            let cells = t.composed(source, start, tail.scrollback_height, tail.pinned());
            let line = diff::line(cells.cells, w, r);
            &&& r < tail.visible() ==> line == diff::line(source.cells, w, start + r)
            &&& r >= tail.visible() ==> line == diff::line(
                source.cells,
                w,
                tail.scrollback_height + (r - tail.visible()),
            )
        }),
{
    let area = t.viewport_area;
    let p = tail.pinned();
    let cells = t.composed(source, start, tail.scrollback_height, p);
    let tail_area = Rect { x: 0, y: area.y, width: area.width, height: tail.visible() };
    let pinned_area = Rect {
        x: 0,
        y: (area.y + tail.visible()) as u16,
        width: area.width,
        height: p,
    };
    assert(Rect::spec_new(area.x, area.y, area.width, geometry::minus(area.height, p))
        == tail_area);
    assert(crate::inline::pinned_area(area, p) == pinned_area);
    let first = t.current.copied(source, start, tail_area);
    assert(cells == first.copied(source, tail.scrollback_height, pinned_area));
    lemma_copied_line(t.current, source, start, 0, tail.visible(), r);
    lemma_copied_line(first, source, tail.scrollback_height, tail.visible() as int, p, r);
}

/// A screen of a size that shows nothing.
spec fn empty_screen(size: Size) -> Display {
    Display {
        history: Seq::empty(),
        rows: Seq::new(
            size.height as nat,
            |y: int| Seq::new(size.width as nat, |x: int| display::empty_glyph(TermColor::Reset)),
        ),
        x: 0,
        y: 0,
        fg: TermColor::Reset,
        bg: TermColor::Reset,
        attributes: display::Attributes::plain(),
        tearing: |seen: display::Glyph, over: display::Glyph| seen,
    }
}

/// A tail is shown from the first of its rows on that is not committed: the viewport holds as many
/// rows from there on as there is room for, and below them the pinned rows.
#[verifier::rlimit(40)]
pub proof fn law_tail_is_shown_from_the_first_uncommitted_row(
    v: InlineView,
    state: TailView,
    source: Grid,
    tail: Tail,
    screen: Screen,
    r: int,
)
    requires
        v.is_ready(tail.size),
        tail.size == screen.size,
        v.is_countable(tail.height(), tail.size),
        holds_tail(source, tail),
        geometry::greatest(committed_so_far(state, tail), tail.overflow() as int) + tail.visible()
            <= source.area.height,
        0 <= r < tail.height(),
    ensures
        ({
            let u = v.tail_drawn(state, source, tail, screen).terminal;
            let w = tail.size.width as int;
            let start = geometry::greatest(
                committed_so_far(state, tail),
                tail.overflow() as int,
            );
            let line = diff::line(u.previous.cells, w, r);
            &&& u.viewport_area.height == tail.height()
            &&& r < tail.visible() ==> line == diff::line(source.cells, w, start + r)
            &&& r >= tail.visible() ==> line == diff::line(
                source.cells,
                w,
                tail.scrollback_height + (r - tail.visible()),
            )
        }),
{
    let committed = state.arranged(tail).committed_rows;
    let t1 = v.made_room(screen, tail.height());
    lemma_made_room(v, tail.height(), screen, empty_screen(tail.size));
    let n = geometry::minus(tail.overflow(), committed);
    let t2 = t1.with_rows(source, committed, n);
    if n > 0 {
        assert(tail.height() == tail.size.height);
    }
    assert(t2.viewport_area == t1.viewport_area);
    assert(t2.current == t1.current);
    assert(t2.wf());
    let t3 = t2.invalidated().on_screen(screen.size);
    let start = state.drawn(tail).committed_rows;
    law_drawing_commits_what_is_not_shown(state, tail);
    let cells = t3.composed(source, start, tail.scrollback_height, tail.pinned());
    lemma_composed_lines(t3, source, start, tail, r);
    let u = t3.with_current(cells).presented(None).ended();
    assert(u.previous == cells);
    lemma_viewport_kept(t3.with_current(cells));
    assert(u == v.tail_drawn(state, source, tail, screen).terminal);
}

/// A tail of which just the rows that do not fit on the screen are committed is shown in full: the
/// viewport holds the rows that follow on them, and below them the pinned rows.
pub proof fn law_tail_is_shown_behind_the_committed_rows(
    v: InlineView,
    state: TailView,
    source: Grid,
    tail: Tail,
    screen: Screen,
    r: int,
)
    requires
        v.is_ready(tail.size),
        tail.size == screen.size,
        v.is_countable(tail.height(), tail.size),
        holds_tail(source, tail),
        state.arranged(tail).committed_rows <= tail.overflow(),
        0 <= r < tail.height(),
    ensures
        ({
            let u = v.tail_drawn(state, source, tail, screen).terminal;
            let w = tail.size.width as int;
            let line = diff::line(u.previous.cells, w, r);
            &&& u.viewport_area.height == tail.height()
            &&& r < tail.visible() ==> line == diff::line(source.cells, w, tail.overflow() + r)
            &&& r >= tail.visible() ==> line == diff::line(
                source.cells,
                w,
                tail.scrollback_height + (r - tail.visible()),
            )
        }),
{
    law_drawing_commits_what_is_not_shown(state, tail);
    law_tail_is_shown_from_the_first_uncommitted_row(v, state, source, tail, screen, r);
}

/// Rows of a grid that are drawn in an area of the screen replace what stood there.
proof fn lemma_painted(
    t: TerminalView,
    source: Grid,
    start: u16,
    area: Rect,
    d: Display,
)
    requires
        t.is_size_of(d),
        t.viewport_area.width > 0,
        area.x == 0,
        area.width == t.viewport_area.width,
        area.y + area.height <= t.last_known_screen_size.height,
        source.wf(),
        source.area.x == 0,
        source.area.y == 0,
        source.area.width == area.width,
        start + area.height <= source.area.height,
    ensures
        ({
            let u = t.painted(source, start, area);
            let s = d.carried(insertion::since(t, u));
            let y = area.y as int;
            let n = area.height as int;
            let h = t.last_known_screen_size.height as int;
            &&& u.output == t.output + insertion::since(t, u)
            &&& u.is_size_of(s)
            &&& s.history == d.history
            &&& s.rows == d.rows.subrange(0, y) + insertion::told_rows(
                source.cells,
                area.width as int,
                start as int,
                n,
            ) + d.rows.subrange(y + n, h)
        }),
{
    let w = area.width as int;
    let h = t.last_known_screen_size.height as int;
    let n = area.height as int;
    let y = area.y as int;
    let u = t.painted(source, start, area);
    let s = d.carried(insertion::since(t, u));
    let told = insertion::told_rows(source.cells, w, start as int, n);
    if n == 0 {
        assert(insertion::since(t, u) =~= Seq::empty());
        assert(u.output =~= t.output + insertion::since(t, u));
        assert(s.rows =~= d.rows.subrange(0, y) + told + d.rows.subrange(y + n, h));
    } else {
        let empty = Grid::spec_empty(area);
        let grid = empty.copied(source, start, area);
        let flat = Rect { x: 0, y: 0, width: area.width, height: area.height };
        lemma_copied_rows(source, start, area.height);
        let cells = Grid::spec_empty(flat).copied(source, start, flat).cells;
        buffer::lemma_cells(area);
        assert(grid.cells =~= cells) by {
            assert forall|i: int| 0 <= i < cells.len() implies grid.cells[i] == #[trigger] cells[i] by {
                buffer::lemma_place(area, i);
            }
        }
        let placed = crate::inline::placed(grid);
        let want = terminal::rows_at(cells, w, 0, n, y);
        assert(0 * w == 0);
        assert(placed =~= want) by {
            assert forall|i: int| 0 <= i < placed.len() implies placed[i] == #[trigger] want[i] by {
                buffer::lemma_place(area, i);
                assert(cells[0 * w + i] == grid.cells[i]);
            }
        }
        let op = OpOf::DrawCells(placed);
        assert(insertion::since(t, u) =~= seq![op]);
        assert(u.output =~= t.output + seq![op]);
        assert(terminal::draw_rows(cells, w, 0, n, y) =~= seq![op]);
        assert((0 + n) * w == n * w);
        insertion::lemma_drawn_rows(d, cells, w, 0, n, y, h);
    }
}

/// Rows of a grid that are drawn at the start of a viewport, and others at its end, leave what lies
/// between them.
proof fn lemma_painted_twice(
    t: TerminalView,
    source: Grid,
    start: u16,
    visible: u16,
    pinned_start: u16,
    pinned: u16,
    d: Display,
)
    requires
        t.is_size_of(d),
        t.is_on_screen(),
        t.viewport_area.width > 0,
        t.viewport_area.x == 0,
        visible + pinned <= t.viewport_area.height,
        source.wf(),
        source.area.x == 0,
        source.area.y == 0,
        source.area.width == t.viewport_area.width,
        start + visible <= source.area.height,
        pinned_start + pinned <= source.area.height,
    ensures
        ({
            let area = t.viewport_area;
            let w = area.width as int;
            let y = area.y as int;
            let end = y + area.height - pinned;
            let h = t.last_known_screen_size.height as int;
            let u = t.painted(
                source,
                start,
                Rect::spec_new(area.x, area.y, area.width, visible),
            ).painted(source, pinned_start, crate::inline::pinned_area(area, pinned));
            let s = d.carried(insertion::since(t, u));
            &&& u.output == t.output + insertion::since(t, u)
            &&& crate::inline::pinned_area(area, pinned) == (Rect {
                x: 0,
                y: end as u16,
                width: area.width,
                height: pinned,
            })
            &&& s.history == d.history
            &&& s.rows == d.rows.subrange(0, y) + insertion::told_rows(
                source.cells,
                w,
                start as int,
                visible as int,
            ) + d.rows.subrange(y + visible, end) + insertion::told_rows(
                source.cells,
                w,
                pinned_start as int,
                pinned as int,
            ) + d.rows.subrange(end + pinned, h)
        }),
{
    let area = t.viewport_area;
    let y = area.y as int;
    let w = area.width as int;
    let h = t.last_known_screen_size.height as int;
    let end = y + area.height - pinned;
    let tail_area = Rect { x: 0, y: area.y, width: area.width, height: visible };
    assert(Rect::spec_new(area.x, area.y, area.width, visible) == tail_area);
    lemma_painted(t, source, start, tail_area, d);
    let t2 = t.painted(source, start, tail_area);
    let d2 = d.carried(insertion::since(t, t2));
    let pinned_area = Rect { x: 0, y: end as u16, width: area.width, height: pinned };
    assert(crate::inline::pinned_area(area, pinned) == pinned_area);
    lemma_painted(t2, source, pinned_start, pinned_area, d2);
    let t3 = t2.painted(source, pinned_start, pinned_area);
    let d3 = d2.carried(insertion::since(t2, t3));
    insertion::lemma_since(t, t2, t3);
    display::lemma_carried(d, insertion::since(t, t2), insertion::since(t2, t3));
    let told = insertion::told_rows(source.cells, w, start as int, visible as int);
    assert(d2.rows.subrange(0, end) =~= d.rows.subrange(0, y) + told + d.rows.subrange(
        y + visible,
        end,
    ));
    assert(d2.rows.subrange(end + pinned, h) =~= d.rows.subrange(end + pinned, h));
}

/// The last rows of a tail, drawn in a viewport: the scrolling ones at its start and the pinned
/// ones at its end, which it shrinks to. The rows between them stay.
proof fn lemma_tail_left(
    t: TerminalView,
    source: Grid,
    start: u16,
    visible: u16,
    pinned_start: u16,
    pinned: u16,
    d: Display,
)
    requires
        t.is_size_of(d),
        t.is_on_screen(),
        t.viewport_area.width > 0,
        t.viewport_area.x == 0,
        visible + pinned <= t.viewport_area.height,
        source.wf(),
        source.area.x == 0,
        source.area.y == 0,
        source.area.width == t.viewport_area.width,
        start + visible <= source.area.height,
        pinned_start + pinned <= source.area.height,
    ensures
        ({
            let u = t.with_tail_left(source, start, visible, pinned_start, pinned).ended();
            let s = d.carried(insertion::since(t, u));
            let w = t.viewport_area.width as int;
            &&& u.output == t.output + insertion::since(t, u)
            &&& u.viewport_area.height == pinned
            &&& u.viewport_area.y == t.viewport_area.y + t.viewport_area.height - pinned
            &&& u.is_on_screen()
            &&& insertion::above(s, u.viewport_area.y as int) == insertion::above(
                d,
                t.viewport_area.y as int,
            ) + insertion::told_rows(source.cells, w, start as int, visible as int)
                + t.viewport_rows(d).subrange(
                visible as int,
                t.viewport_area.height - pinned,
            )
            &&& u.viewport_rows(s) == insertion::told_rows(
                source.cells,
                w,
                pinned_start as int,
                pinned as int,
            )
        }),
{
    let area = t.viewport_area;
    let y = area.y as int;
    let w = area.width as int;
    let end = y + area.height - pinned;
    lemma_painted_twice(t, source, start, visible, pinned_start, pinned, d);
    let pinned_area = crate::inline::pinned_area(area, pinned);
    let t3 = t.painted(
        source,
        start,
        Rect::spec_new(area.x, area.y, area.width, visible),
    ).painted(source, pinned_start, pinned_area);
    let d3 = d.carried(insertion::since(t, t3));
    let left = t.with_tail_left(source, start, visible, pinned_start, pinned);
    assert(left.output == t3.output);
    assert(left.viewport_area == pinned_area);
    let u = left.ended();
    let last = seq![OpOf::EndSynchronizedUpdate, OpOf::FlushWriter];
    assert(insertion::since(t3, u) =~= last);
    assert(follows(t3, u));
    insertion::lemma_since(t, t3, u);
    display::lemma_carried(d, insertion::since(t, t3), last);
    drawing::lemma_calm(d3, last);
    let told = insertion::told_rows(source.cells, w, start as int, visible as int);
    let between = t.viewport_rows(d).subrange(visible as int, area.height - pinned);
    assert(between =~= d.rows.subrange(y + visible, end));
    assert(insertion::above(d3, end) =~= insertion::above(d, y) + told + between);
    assert(d3.rows.subrange(end, end + pinned) =~= insertion::told_rows(
        source.cells,
        w,
        pinned_start as int,
        pinned as int,
    ));
}

/// The pending history, and the rows of a tail that do not stay in the viewport, are inserted
/// above it when the tail ends.
proof fn lemma_tail_ending(
    t: TerminalView,
    lines: Seq<LineView>,
    source: Grid,
    start: u16,
    n: u16,
    d: Display,
)
    requires
        t.wf(),
        t.is_on_screen(),
        t.is_size_of(d),
        t.viewport_area.width > 0,
        t.last_known_screen_size.height > 0,
        source.wf(),
        source.area.x == 0,
        source.area.y == 0,
        source.area.width == t.viewport_area.width,
        start + n <= source.area.height,
    ensures
        ({
            let u = t.with_history(lines, InsertHistoryMode::Standard).with_rows(source, start, n);
            let s = d.carried(insertion::since(t, u));
            let w = t.viewport_area.width as int;
            &&& u.is_on_screen()
            &&& u.is_size_of(s)
            &&& u.output == t.output + insertion::since(t, u)
            &&& same_viewport(t, u)
            &&& insertion::above(s, u.viewport_area.y as int) == insertion::above(
                d,
                t.viewport_area.y as int,
            ) + history_rows(lines, t.viewport_area.width) + insertion::told_rows(
                source.cells,
                w,
                start as int,
                n as int,
            )
            &&& t.knows_top_row(d) ==> u.viewport_rows(s) == t.viewport_rows(d)
        }),
{
    let m = t.with_history(lines, InsertHistoryMode::Standard);
    let u = m.with_rows(source, start, n);
    let dm = d.carried(insertion::since(t, m));
    lemma_with_history_above(t, lines, d);
    lemma_has_room(m);
    lemma_with_rows_above(m, source, start, n, dm);
    insertion::lemma_since(t, m, u);
    display::lemma_carried(d, insertion::since(t, m), insertion::since(m, u));
    if t.knows_top_row(d) {
        lemma_top_row_stays(t, lines, d, dm);
    }
}

/// A viewport that fills the screen still shows in its top row what the terminal takes it to show
/// there, once history has been inserted.
proof fn lemma_top_row_stays(t: TerminalView, lines: Seq<LineView>, d: Display, dm: Display)
    requires
        t.knows_top_row(d),
        ({
            let m = t.with_history(lines, InsertHistoryMode::Standard);
            &&& t.viewport_area.height == t.last_known_screen_size.height ==> m.viewport_area
                == t.viewport_area
            &&& same_viewport(t, m)
            &&& m.viewport_rows(dm) == t.viewport_rows(d)
            &&& t.is_size_of(d)
            &&& m.is_size_of(dm)
            &&& t.is_on_screen()
        }),
    ensures
        t.with_history(lines, InsertHistoryMode::Standard).knows_top_row(dm),
{
    let m = t.with_history(lines, InsertHistoryMode::Standard);
    if t.viewport_area.height == t.last_known_screen_size.height && t.viewport_area.height > 0 {
        assert(m.previous == t.previous);
        assert(m.viewport_rows(dm)[0] == dm.rows[0]);
        assert(t.viewport_rows(d)[0] == d.rows[0]);
    }
}

/// Whether a grid holds the rows of a tail that ends, and no more of them are committed than are
/// left when those that stay in the viewport are taken away.
pub open spec fn holds_ending_tail(
    v: InlineView,
    state: TailView,
    source: Grid,
    tail: Tail,
) -> bool {
    let s = state.ending(tail.scrollback_height, tail.size.width);
    let pinned = s.kept(tail.pinned_bottom_height, v.opened(tail).viewport_area.height);
    &&& holds_tail(source, Tail { pinned_bottom_height: pinned, ..tail })
    &&& s.committed_rows + v.tail_shown(state, tail) <= tail.scrollback_height
}

/// What a tail of `total` scrolling rows leaves, of which `committed` are committed and `visible`
/// stay in the viewport.
proof fn lemma_rows_left(
    t: TerminalView,
    lines: Seq<LineView>,
    source: Grid,
    committed: u16,
    visible: u16,
    total: u16,
    pinned: u16,
    d: Display,
)
    requires
        t.wf(),
        t.is_on_screen(),
        t.is_size_of(d),
        t.viewport_area.width > 0,
        t.viewport_area.x == 0,
        t.last_known_screen_size.height > 0,
        source.wf(),
        source.area.x == 0,
        source.area.y == 0,
        source.area.width == t.viewport_area.width,
        committed + visible <= total,
        visible + pinned <= t.viewport_area.height,
        total + pinned <= source.area.height,
    ensures
        ({
            let w = t.viewport_area.width as int;
            let target = (total - visible) as u16;
            let u = t.with_history(lines, InsertHistoryMode::Standard).with_rows(
                source,
                committed,
                (target - committed) as u16,
            ).with_tail_left(source, target, visible, total, pinned).ended();
            let seen = d.carried(insertion::since(t, u));
            let gap = t.viewport_area.height - pinned - visible;
            let now = insertion::above(seen, u.viewport_area.y as int);
            let base = insertion::above(d, t.viewport_area.y as int) + history_rows(
                lines,
                t.viewport_area.width,
            ) + insertion::told_rows(source.cells, w, committed as int, total - committed);
            &&& u.output == t.output + insertion::since(t, u)
            &&& u.viewport_area.height == pinned
            &&& u.is_on_screen()
            &&& now.len() == base.len() + gap
            &&& now.subrange(0, base.len() as int) == base
            &&& t.knows_top_row(d) ==> now == base + t.viewport_rows(d).subrange(
                visible as int,
                visible + gap,
            )
            &&& u.viewport_rows(seen) == insertion::told_rows(
                source.cells,
                w,
                total as int,
                pinned as int,
            )
        }),
{
    let w = t.viewport_area.width as int;
    let gap = t.viewport_area.height - pinned - visible;
    let target = (total - visible) as u16;
    let n = (target - committed) as u16;
    lemma_tail_ending(t, lines, source, committed, n, d);
    let t1 = t.with_history(lines, InsertHistoryMode::Standard).with_rows(source, committed, n);
    let d1 = d.carried(insertion::since(t, t1));
    lemma_tail_left(t1, source, target, visible, total, pinned, d1);
    let u = t1.with_tail_left(source, target, visible, total, pinned).ended();
    insertion::lemma_since(t, t1, u);
    display::lemma_carried(d, insertion::since(t, t1), insertion::since(t1, u));
    insertion::lemma_told_rows(source.cells, w, committed as int, n as int, total - committed);
    let seen = d.carried(insertion::since(t, u));
    let now = insertion::above(seen, u.viewport_area.y as int);
    let before = insertion::above(d, t.viewport_area.y as int) + history_rows(
        lines,
        t.viewport_area.width,
    );
    let inserted = insertion::told_rows(source.cells, w, committed as int, n as int);
    let stay = insertion::told_rows(source.cells, w, target as int, visible as int);
    let told = insertion::told_rows(source.cells, w, committed as int, total - committed);
    let between = t1.viewport_rows(d1).subrange(visible as int, visible + gap);
    assert(told == inserted + stay);
    assert(now == before + inserted + stay + between);
    assert(before + inserted + stay =~= before + told);
    assert(now.subrange(0, (before + told).len() as int) =~= before + told);
}

/// What a tail leaves that ends in a viewport with columns.
proof fn lemma_tail_finished(
    v: InlineView,
    state: TailView,
    source: Grid,
    tail: Tail,
    d: Display,
)
    requires
        v.is_ready(tail.size),
        v.opened(tail).wf(),
        v.opened(tail).is_on_screen(),
        v.opened(tail).is_size_of(d),
        v.opened(tail).viewport_area.width == tail.size.width,
        v.opened(tail).viewport_area.x == 0,
        v.opened(tail).last_known_screen_size == tail.size,
        holds_ending_tail(v, state, source, tail),
    ensures
        ({
            let t = v.opened(tail);
            let u = v.tail_finished(state, source, tail).terminal;
            let w = tail.size.width as int;
            let seen = d.carried(insertion::since(t, u));
            let s = state.ending(tail.scrollback_height, tail.size.width);
            let pinned = s.kept(tail.pinned_bottom_height, t.viewport_area.height);
            let visible = v.tail_shown(state, tail);
            let gap = t.viewport_area.height - pinned - visible;
            let now = insertion::above(seen, u.viewport_area.y as int);
            let base = insertion::above(d, t.viewport_area.y as int) + history_rows(
                v.pending,
                tail.size.width,
            ) + insertion::told_rows(
                source.cells,
                w,
                s.committed_rows as int,
                tail.scrollback_height - s.committed_rows,
            );
            &&& u.output == t.output + insertion::since(t, u)
            &&& u.viewport_area.height == pinned
            &&& u.is_on_screen()
            &&& 0 <= gap
            &&& now.len() == base.len() + gap
            &&& now.subrange(0, base.len() as int) == base
            &&& t.knows_top_row(d) ==> now == base + t.viewport_rows(d).subrange(
                visible as int,
                visible + gap,
            )
            &&& u.viewport_rows(seen) == insertion::told_rows(
                source.cells,
                w,
                tail.scrollback_height as int,
                pinned as int,
            )
        }),
{
    let t = v.opened(tail);
    let s = state.ending(tail.scrollback_height, tail.size.width);
    let pinned = s.kept(tail.pinned_bottom_height, t.viewport_area.height);
    let visible = v.tail_shown(state, tail);
    assert(visible + pinned <= t.viewport_area.height);
    lemma_rows_left(
        t,
        v.pending,
        source,
        s.committed_rows,
        visible,
        tail.scrollback_height,
        pinned,
        d,
    );
}

/// A tail that ends leaves all its rows in order. On all that stood above the viewport follows the
/// pending history, and on that follow the rows of the tail that were not committed. Behind them
/// stand the rows of the viewport that the tail leaves free, and in the viewport, which shrinks to
/// them, the pinned rows.
pub proof fn law_finished_tail_stands_in_order(
    v: InlineView,
    state: TailView,
    source: Grid,
    tail: Tail,
    d: Display,
)
    requires
        v.is_ready(tail.size),
        v.terminal.viewport_area.width > 0,
        d.has_size(tail.size.width as int, tail.size.height as int),
        holds_ending_tail(v, state, source, tail),
    ensures
        ({
            let t = v.terminal;
            let u = v.tail_finished(state, source, tail).terminal;
            let w = tail.size.width as int;
            let seen = d.carried(insertion::since(t, u));
            let s = state.ending(tail.scrollback_height, tail.size.width);
            let pinned = s.kept(tail.pinned_bottom_height, t.viewport_area.height);
            let visible = v.tail_shown(state, tail);
            let gap = t.viewport_area.height - pinned - visible;
            let now = insertion::above(seen, u.viewport_area.y as int);
            let committed = committed_at_end(state, tail);
            let base = insertion::above(d, t.viewport_area.y as int) + history_rows(
                v.pending,
                tail.size.width,
            ) + insertion::told_rows(
                source.cells,
                w,
                committed,
                tail.scrollback_height - committed,
            );
            &&& u.viewport_area.height == pinned
            &&& u.is_on_screen()
            &&& 0 <= gap
            &&& now.len() == base.len() + gap
            &&& now.subrange(0, base.len() as int) == base
            &&& t.knows_top_row(d) ==> now == base + t.viewport_rows(d).subrange(
                visible as int,
                visible + gap,
            )
            &&& u.viewport_rows(seen) == insertion::told_rows(
                source.cells,
                w,
                tail.scrollback_height as int,
                pinned as int,
            )
        }),
{
    let t = v.terminal;
    let t0 = t.begun();
    lemma_begun(t, d);
    law_ending_commits_nothing(state, tail);
    lemma_tail_finished(v, state, source, tail, d);
    let u = v.tail_finished(state, source, tail).terminal;
    insertion::lemma_since(t, t0, u);
    display::lemma_carried(d, insertion::since(t, t0), insertion::since(t0, u));
}

/// Starting an update changes nothing on the screen.
pub proof fn lemma_begun(t: TerminalView, d: Display)
    ensures
        t.begun().output == t.output + insertion::since(t, t.begun()),
        d.carried(insertion::since(t, t.begun())) == d,
{
    let t0 = t.begun();
    assert(insertion::since(t, t0) =~= seq![OpOf::BeginSynchronizedUpdate]);
    assert(t0.output =~= t.output + insertion::since(t, t0));
    display::lemma_carried_one(d, OpOf::BeginSynchronizedUpdate);
}

/// A tail that ends in a viewport without columns, such as one that was never drawn, is given the
/// rows that the screen has for it. On all that stood above it follow the pending history and then
/// the rows of the tail that were not committed, and the viewport shrinks to the pinned rows.
pub proof fn law_tail_finished_undrawn_stands_in_order(
    v: InlineView,
    state: TailView,
    source: Grid,
    tail: Tail,
    d: Display,
)
    requires
        v.is_ready(tail.size),
        v.terminal.viewport_area.width == 0,
        v.is_countable(tail.height(), tail.size),
        d.has_size(tail.size.width as int, tail.size.height as int),
        holds_ending_tail(v, state, source, tail),
    ensures
        ({
            let t = v.terminal;
            let u = v.tail_finished(state, source, tail).terminal;
            let w = tail.size.width as int;
            let seen = d.carried(insertion::since(t, u));
            let s = state.ending(tail.scrollback_height, tail.size.width);
            let pinned = s.kept(tail.pinned_bottom_height, tail.height());
            let now = insertion::above(seen, u.viewport_area.y as int);
            let committed = committed_at_end(state, tail);
            let base = v.with_pending(tail.height(), tail.size, d) + insertion::told_rows(
                source.cells,
                w,
                committed,
                tail.scrollback_height - committed,
            );
            &&& v.tail_finished(state, source, tail).pending.len() == 0
            &&& u.viewport_area.height == pinned
            &&& u.is_on_screen()
            &&& now.len() == base.len() + tail.height() - pinned - v.tail_shown(state, tail)
            &&& now.subrange(0, base.len() as int) == base
            &&& u.viewport_rows(seen) == insertion::told_rows(
                source.cells,
                w,
                tail.scrollback_height as int,
                pinned as int,
            )
        }),
{
    let t = v.terminal;
    let t0 = t.begun();
    let open = v.opened(tail);
    lemma_begun(t, d);
    law_ending_commits_nothing(state, tail);
    law_fitting_keeps_what_stands_above(t0, tail.height(), d);
    crate::inline::lemma_fitted(t0, tail.height(), tail.size);
    let d1 = d.carried(insertion::since(t0, open));
    lemma_tail_finished(v, state, source, tail, d1);
    let u = v.tail_finished(state, source, tail).terminal;
    insertion::lemma_since(t0, open, u);
    display::lemma_carried(d, insertion::since(t0, open), insertion::since(open, u));
    insertion::lemma_since(t, t0, u);
    display::lemma_carried(d, insertion::since(t, t0), insertion::since(t0, u));
}

/// A tail that ends with fewer rows than were committed of it, or just as many beyond those that
/// stay, inserts none. On all that stood above the viewport follows the pending history, and on that
/// the rows of the tail behind the committed ones that stay; behind them stand the rows of the
/// viewport that are left free, and in the viewport the pinned rows.
#[verifier::rlimit(40)]
pub proof fn law_shrunken_tail_inserts_nothing(
    v: InlineView,
    state: TailView,
    source: Grid,
    tail: Tail,
    d: Display,
)
    requires
        v.is_ready(tail.size),
        v.terminal.viewport_area.width > 0,
        d.has_size(tail.size.width as int, tail.size.height as int),
        holds_tail(
            source,
            Tail {
                pinned_bottom_height: state.kept(
                    tail.pinned_bottom_height,
                    v.terminal.viewport_area.height,
                ),
                ..tail
            },
        ),
        committed_at_end(state, tail) + v.tail_shown(state, tail) >= tail.scrollback_height,
        committed_at_end(state, tail) + v.tail_shown(state, tail) <= source.area.height,
    ensures
        ({
            let t = v.terminal;
            let u = v.tail_finished(state, source, tail).terminal;
            let w = tail.size.width as int;
            let seen = d.carried(insertion::since(t, u));
            let pinned = state.kept(tail.pinned_bottom_height, t.viewport_area.height);
            let visible = v.tail_shown(state, tail);
            let gap = t.viewport_area.height - pinned - visible;
            let now = insertion::above(seen, u.viewport_area.y as int);
            let base = insertion::above(d, t.viewport_area.y as int) + history_rows(
                v.pending,
                tail.size.width,
            ) + insertion::told_rows(
                source.cells,
                w,
                committed_at_end(state, tail),
                visible as int,
            );
            &&& u.viewport_area.height == pinned
            &&& u.is_on_screen()
            &&& 0 <= gap
            &&& now.len() == base.len() + gap
            &&& now.subrange(0, base.len() as int) == base
            &&& u.viewport_rows(seen) == insertion::told_rows(
                source.cells,
                w,
                tail.scrollback_height as int,
                pinned as int,
            )
        }),
{
    let t = v.terminal;
    let t0 = t.begun();
    let w = tail.size.width as int;
    let s = state.ending(tail.scrollback_height, tail.size.width);
    let pinned = s.kept(tail.pinned_bottom_height, t.viewport_area.height);
    let visible = v.tail_shown(state, tail);
    let gap = t.viewport_area.height - pinned - visible;
    lemma_begun(t, d);
    law_ending_commits_nothing(state, tail);
    assert(v.opened(tail) == t0);
    assert(visible + pinned <= t.viewport_area.height);
    let committed = s.committed_rows;
    lemma_tail_ending(t0, v.pending, source, 0, 0, d);
    let t1 = t0.with_history(v.pending, InsertHistoryMode::Standard);
    assert(t0.with_history(v.pending, InsertHistoryMode::Standard).with_rows(source, 0, 0) == t1);
    assert(t1.with_rows(source, committed, 0) == t1);
    let d1 = d.carried(insertion::since(t0, t1));
    lemma_tail_left(t1, source, committed, visible, tail.scrollback_height, pinned, d1);
    let u = v.tail_finished(state, source, tail).terminal;
    assert(u == t1.with_tail_left(
        source,
        committed,
        visible,
        tail.scrollback_height,
        pinned,
    ).ended());
    insertion::lemma_since(t0, t1, u);
    display::lemma_carried(d, insertion::since(t0, t1), insertion::since(t1, u));
    insertion::lemma_since(t, t0, u);
    display::lemma_carried(d, insertion::since(t, t0), insertion::since(t0, u));
    let seen = d.carried(insertion::since(t, u));
    let now = insertion::above(seen, u.viewport_area.y as int);
    let before = insertion::above(d, t.viewport_area.y as int) + history_rows(
        v.pending,
        tail.size.width,
    );
    let stay = insertion::told_rows(source.cells, w, committed as int, visible as int);
    let between = t1.viewport_rows(d1).subrange(visible as int, visible + gap);
    assert(insertion::above(d1, t1.viewport_area.y as int) =~= before);
    assert(now == before + stay + between);
    assert(now.subrange(0, (before + stay).len() as int) =~= before + stay);
}

} // verus!
