//! Laws of updates: what the terminal is told to draw is shown at once, and clears no more than it
//! has to.

use vstd::prelude::*;

use crate::buffer::CellView;
use crate::buffer::Grid;
use crate::command::Attribute;
use crate::command::OpOf;
use crate::command::OpView;
use crate::diff::DrawCommandOf;
use crate::diff::DrawCommandView;
use crate::draw;
use crate::draw::Pen;
use crate::geometry::Position;
use crate::geometry::Rect;
use crate::geometry::Size;
use crate::history;
use crate::history::InsertHistoryMode;
use crate::inline::InlineView;
use crate::inline::Screen;
use crate::inline::Tail;
use crate::inline::TailView;
use crate::insertion;
use crate::style;
use crate::tail;
use crate::terminal;
use crate::terminal::TerminalView;
use crate::text::LineView;

verus! {

/// Whether an operation starts or ends an update that is shown at once.
pub open spec fn is_bound(op: OpView) -> bool {
    op is BeginSynchronizedUpdate || op is EndSynchronizedUpdate
}

/// Whether an operation clears nothing: it scrolls rows, draws cells at their places, or moves the
/// cursor.
pub open spec fn is_gentle(op: OpView) -> bool {
    op is ScrollUp || op is ScrollDown || op is DrawCells || op is MoveTo
}

/// Whether all operations clear nothing.
pub open spec fn all_gentle(ops: Seq<OpView>) -> bool {
    forall|i: int| 0 <= i < ops.len() ==> is_gentle(#[trigger] ops[i])
}

/// Whether no operation starts or ends an update.
pub open spec fn no_bounds(ops: Seq<OpView>) -> bool {
    forall|i: int| 0 <= i < ops.len() ==> !is_bound(#[trigger] ops[i])
}

/// Operations of two runs that clear nothing.
proof fn lemma_gentle(a: Seq<OpView>, b: Seq<OpView>)
    requires
        all_gentle(a),
        all_gentle(b),
    ensures
        all_gentle(a + b),
{
    assert forall|i: int| 0 <= i < (a + b).len() implies is_gentle(#[trigger] (a + b)[i]) by {
        if i < a.len() {
            assert((a + b)[i] == a[i]);
        } else {
            assert((a + b)[i] == b[i - a.len()]);
        }
    }
}

/// Operations of two runs that start or end no update.
proof fn lemma_no_bounds(a: Seq<OpView>, b: Seq<OpView>)
    requires
        no_bounds(a),
        no_bounds(b),
    ensures
        no_bounds(a + b),
{
    assert forall|i: int| 0 <= i < (a + b).len() implies !is_bound(#[trigger] (a + b)[i]) by {
        if i < a.len() {
            assert((a + b)[i] == a[i]);
        } else {
            assert((a + b)[i] == b[i - a.len()]);
        }
    }
}

/// Whether a terminal was told, since it was in an earlier state, only what clears nothing.
pub open spec fn only_gentle(t: TerminalView, u: TerminalView) -> bool {
    u.output == t.output + insertion::since(t, u) && all_gentle(insertion::since(t, u))
}

/// Whether a terminal was told, since it was in an earlier state, nothing that starts or ends an
/// update.
pub open spec fn only_inner(t: TerminalView, u: TerminalView) -> bool {
    u.output == t.output + insertion::since(t, u) && no_bounds(insertion::since(t, u))
}

/// Telling several things after each other that clear nothing.
proof fn lemma_only_gentle(a: TerminalView, b: TerminalView, c: TerminalView)
    requires
        only_gentle(a, b),
        only_gentle(b, c),
    ensures
        only_gentle(a, c),
{
    insertion::lemma_since(a, b, c);
    lemma_gentle(insertion::since(a, b), insertion::since(b, c));
}

/// Telling several things after each other that start or end no update.
proof fn lemma_only_inner(a: TerminalView, b: TerminalView, c: TerminalView)
    requires
        only_inner(a, b),
        only_inner(b, c),
    ensures
        only_inner(a, c),
{
    insertion::lemma_since(a, b, c);
    lemma_no_bounds(insertion::since(a, b), insertion::since(b, c));
}

/// What clears nothing starts or ends no update.
proof fn lemma_gentle_is_inner(t: TerminalView, u: TerminalView)
    requires
        only_gentle(t, u),
    ensures
        only_inner(t, u),
{
    let ops = insertion::since(t, u);
    assert forall|i: int| 0 <= i < ops.len() implies !is_bound(#[trigger] ops[i]) by {
        assert(is_gentle(ops[i]));
    }
}

/// Telling operations.
proof fn lemma_told(t: TerminalView, ops: Seq<OpView>)
    ensures
        t.told(ops).output == t.output + insertion::since(t, t.told(ops)),
        insertion::since(t, t.told(ops)) == ops,
{
    assert(insertion::since(t, t.told(ops)) =~= ops);
}

/// Rows that are drawn and scrolled out of the screen.
proof fn lemma_scrolled_out_gentle(cells: Seq<CellView>, w: int, n: int)
    ensures
        all_gentle(terminal::scrolled_out(cells, w, n)),
    decreases n,
{
    if n > 0 {
        lemma_scrolled_out_gentle(cells, w, n - 1);
        let put = terminal::draw_rows(cells, w, n - 1, 1, 0);
        let up = terminal::scroll_up(0, 1, 1);
        lemma_gentle(put, up);
        lemma_gentle(terminal::scrolled_out(cells, w, n - 1), put + up);
    }
}

/// Rows that are scrolled in.
proof fn lemma_scrolled_in_gentle(cells: Seq<CellView>, w: int, from: int, n: int, top: int)
    ensures
        all_gentle(terminal::scrolled_in(cells, w, from, n, top)),
    decreases n,
{
    if n > 0 && top > 0 {
        let k = crate::geometry::least(n, top);
        lemma_scrolled_in_gentle(cells, w, from + k, n - k, top);
        let up = terminal::scroll_up(0, top, k);
        let put = terminal::draw_rows(cells, w, from, k, top - k);
        lemma_gentle(up, put);
        lemma_gentle(up + put, terminal::scrolled_in(cells, w, from + k, n - k, top));
    }
}

/// Inserting rows above the viewport, by scrolling parts of the screen, clears nothing.
pub proof fn law_inserting_clears_nothing(t: TerminalView, height: u16, cells: Seq<CellView>)
    ensures
        only_gentle(t, t.inserted(height, cells)),
{
    let u = t.inserted(height, cells);
    let w = t.viewport_area.width as int;
    let top = t.viewport_area.y as int;
    insertion::lemma_inserted_output(t, height, cells);
    if height == 0 || w == 0 {
        assert(insertion::since(t, u) =~= Seq::empty());
    } else if t.viewport_area.height == t.last_known_screen_size.height {
        let out = terminal::scrolled_out(cells, w, height as int);
        let put = terminal::draw_rows(t.previous.cells, w, 0, 1, 0);
        lemma_scrolled_out_gentle(cells, w, height as int);
        lemma_gentle(out, put);
        assert(insertion::since(t, u) =~= out + put);
    } else {
        let d = t.shift(height as int);
        let rest = terminal::scrolled_in(cells, w, d, height - d, top + d);
        lemma_scrolled_in_gentle(cells, w, d, height - d, top + d);
        if d > 0 {
            let down = terminal::scroll_down(top, t.viewport_area.spec_bottom() + d, d);
            let put = terminal::draw_rows(cells, w, 0, d, top);
            lemma_gentle(down, put);
            lemma_gentle(down + put, rest);
            assert(insertion::since(t, u) =~= (down + put) + rest);
        } else {
            assert(insertion::since(t, u) =~= rest);
        }
    }
}

/// Moving the cursor clears nothing.
proof fn lemma_moved_gentle(t: TerminalView, position: Position)
    ensures
        only_gentle(t, t.moved(position)),
{
    lemma_told(t, seq![OpOf::MoveTo { x: position.x, y: position.y }]);
}

/// Inserting lines of history, by scrolling parts of the screen, clears nothing.
pub proof fn law_inserting_history_clears_nothing(t: TerminalView, lines: Seq<LineView>)
    ensures
        only_gentle(t, t.with_history(lines, InsertHistoryMode::Standard)),
{
    let u = t.with_history(lines, InsertHistoryMode::Standard);
    if lines.len() == 0 {
        assert(insertion::since(t, u) =~= Seq::empty());
        assert(u.output =~= t.output + insertion::since(t, u));
    } else {
        let grid = history::history_grid(lines, t.viewport_area.width);
        let m = t.inserted(grid.area.height, grid.cells);
        law_inserting_clears_nothing(t, grid.area.height, grid.cells);
        lemma_moved_gentle(m, t.last_known_cursor_pos);
        lemma_only_gentle(t, m, m.moved(t.last_known_cursor_pos));
        assert(insertion::since(t, u) == insertion::since(t, m.moved(t.last_known_cursor_pos)));
    }
}

/// Inserting rows of a grid clears nothing.
pub proof fn lemma_with_rows_gentle(t: TerminalView, source: Grid, start: u16, n: u16)
    ensures
        only_gentle(t, t.with_rows(source, start, n)),
{
    let u = t.with_rows(source, start, n);
    if n == 0 || t.viewport_area.width == 0 {
        assert(insertion::since(t, u) =~= Seq::empty());
        assert(u.output =~= t.output + insertion::since(t, u));
    } else {
        let area = Rect { x: 0, y: 0, width: t.viewport_area.width, height: n };
        let cells = Grid::spec_empty(area).copied(source, start, area).cells;
        let m = t.inserted(n, cells);
        law_inserting_clears_nothing(t, n, cells);
        lemma_moved_gentle(m, t.last_known_cursor_pos);
        lemma_only_gentle(t, m, m.moved(t.last_known_cursor_pos));
        assert(insertion::since(t, u) == insertion::since(t, m.moved(t.last_known_cursor_pos)));
    }
}

/// A viewport that changes its height and keeps its last row, or grows at its end, clears nothing.
pub proof fn law_kept_viewport_clears_nothing(t: TerminalView, height: u16, size: Size)
    requires
        crate::inline::keeps_cells(
            t.viewport_area,
            crate::inline::fit(t.viewport_area, height, size),
        ),
    ensures
        only_gentle(t, t.fitted(height, size)),
{
    let u = t.fitted(height, size);
    let area = crate::inline::fit(t.viewport_area, height, size);
    let top = crate::inline::fit_top(t.viewport_area, height, size);
    let by = crate::geometry::plus(top, area.height) - size.height;
    if by > 0 {
        let ops = terminal::scroll_up(0, top as int, by);
        lemma_told(t, ops);
        assert(insertion::since(t, u) == insertion::since(t, t.told(ops)));
    } else {
        assert(insertion::since(t, u) =~= Seq::empty());
        assert(u.output =~= t.output + insertion::since(t, u));
    }
}

/// A viewport without columns that is given others clears nothing.
proof fn lemma_fitted_empty_gentle(t: TerminalView, height: u16, size: Size)
    requires
        t.viewport_area.width == 0,
    ensures
        only_gentle(t, t.fitted(height, size)),
{
    let u = t.fitted(height, size);
    let ops = insertion::since(t, u);
    assert(u.output =~= t.output + ops);
    assert forall|i: int| 0 <= i < ops.len() implies is_gentle(#[trigger] ops[i]) by {
        assert(ops[i] == u.output[t.output.len() + i]);
    }
}

/// Giving a viewport another height starts or ends no update.
proof fn lemma_fitted_inner(t: TerminalView, height: u16, size: Size)
    ensures
        only_inner(t, t.fitted(height, size)),
{
    let u = t.fitted(height, size);
    let area = crate::inline::fit(t.viewport_area, height, size);
    let top = crate::inline::fit_top(t.viewport_area, height, size);
    let by = crate::geometry::plus(top, area.height) - size.height;
    let m = if by > 0 {
        t.told(terminal::scroll_up(0, top as int, by))
    } else {
        t
    };
    if by > 0 {
        lemma_told(t, terminal::scroll_up(0, top as int, by));
    } else {
        assert(insertion::since(t, m) =~= Seq::empty());
        assert(m.output =~= t.output + insertion::since(t, m));
    }
    if area == t.viewport_area || crate::inline::keeps_cells(t.viewport_area, area) {
        assert(insertion::since(t, u) == insertion::since(t, m));
    } else {
        lemma_cleared_inner(m);
        lemma_only_inner(t, m, m.cleared());
        assert(insertion::since(t, u) == insertion::since(t, m.cleared()));
    }
}

/// Clearing the viewport starts or ends no update.
proof fn lemma_cleared_inner(t: TerminalView)
    ensures
        only_inner(t, t.cleared()),
{
    let u = t.cleared();
    let ops = insertion::since(t, u);
    assert(u.output =~= t.output + ops);
    assert forall|i: int| 0 <= i < ops.len() implies !is_bound(#[trigger] ops[i]) by {
        assert(ops[i] == u.output[t.output.len() + i]);
    }
}

/// Moving the viewport to where it has gone starts or ends no update.
proof fn lemma_settled_inner(t: TerminalView, screen: Screen)
    ensures
        only_inner(t, t.settled(screen)),
{
    let u = t.settled(screen);
    match t.pending_area(screen) {
        Some(area) => {
            lemma_cleared_inner(t.resized(area));
            assert(insertion::since(t, u) == insertion::since(t.resized(area), u));
        },
        None => {
            assert(insertion::since(t, u) =~= Seq::empty());
            assert(u.output =~= t.output + insertion::since(t, u));
        },
    }
}

/// The operations of a change start or end no update.
proof fn lemma_ops_inner(pen: Pen, command: DrawCommandView)
    ensures
        no_bounds(pen.ops(command)),
{
    let p = draw::place(command);
    let first = if pen.is_next(p) {
        Seq::empty()
    } else {
        seq![OpOf::MoveTo { x: p.x, y: p.y }]
    };
    match command {
        DrawCommandOf::Put { cell, .. } => {
            tail::lemma_print_ends(pen, cell);
            let ops = pen.print(cell);
            assert forall|i: int| 0 <= i < ops.len() implies !is_bound(#[trigger] ops[i]) by {
                if i < ops.len() - 1 {
                    assert(tail::is_look(ops.drop_last()[i]));
                }
            }
            lemma_no_bounds(first, ops);
        },
        DrawCommandOf::ClearToEnd { bg, .. } => {
            let ops = seq![
                OpOf::SetAttribute(Attribute::Reset),
                OpOf::SetBackgroundColor(style::term_color(bg)),
                OpOf::ClearUntilNewLine,
            ];
            lemma_no_bounds(first, ops);
        },
    }
}

/// The operations of changes start or end no update.
proof fn lemma_strokes_inner(commands: Seq<DrawCommandView>)
    ensures
        no_bounds(draw::strokes(commands)),
    decreases commands.len(),
{
    if commands.len() > 0 {
        let before = commands.drop_last();
        lemma_strokes_inner(before);
        lemma_ops_inner(draw::pen_after(before), commands.last());
        lemma_no_bounds(draw::strokes(before), draw::pen_after(before).ops(commands.last()));
    }
}

/// Showing a frame starts or ends no update.
proof fn lemma_presented_inner(t: TerminalView, cursor: Option<Position>)
    ensures
        only_inner(t, t.presented(cursor)),
{
    let f = t.flushed();
    let u = t.presented(cursor);
    if t.updates().len() == 0 {
        assert(insertion::since(t, f) =~= Seq::empty());
        assert(f.output =~= t.output + insertion::since(t, f));
    } else {
        lemma_strokes_inner(t.updates());
        lemma_no_bounds(draw::strokes(t.updates()), draw::plain_look());
        lemma_told(t, draw::drawing(t.updates()));
        assert(insertion::since(t, f) =~= draw::drawing(t.updates()));
    }
    let rest = insertion::since(f, u);
    assert(u.output =~= f.output + rest);
    assert forall|i: int| 0 <= i < rest.len() implies !is_bound(#[trigger] rest[i]) by {
        assert(rest[i] == u.output[f.output.len() + i]);
    }
    lemma_only_inner(t, f, u);
}

/// Whether a terminal was told, since it was in an earlier state, just one update: what starts it,
/// what is shown at once, what ends it, and to hand it over.
pub open spec fn one_update(t: TerminalView, u: TerminalView) -> bool {
    let ops = insertion::since(t, u);
    let n = ops.len() as int;
    &&& u.output == t.output + ops
    &&& n >= 3
    &&& ops[0] is BeginSynchronizedUpdate
    &&& no_bounds(ops.subrange(1, n - 2))
    &&& ops[n - 2] is EndSynchronizedUpdate
    &&& ops[n - 1] is FlushWriter
}

/// An update around what starts or ends none.
proof fn lemma_one_update(t: TerminalView, m: TerminalView)
    requires
        only_inner(t.begun(), m),
    ensures
        one_update(t, m.ended()),
{
    let u = m.ended();
    let inner = insertion::since(t.begun(), m);
    let first: Seq<OpView> = seq![OpOf::BeginSynchronizedUpdate];
    let last: Seq<OpView> = seq![OpOf::EndSynchronizedUpdate, OpOf::FlushWriter];
    let ops = insertion::since(t, u);
    assert(ops =~= first + inner + last);
    assert(u.output =~= t.output + ops);
    assert(ops.subrange(1, ops.len() - 2) =~= inner);
}

/// All that the terminal is told to draw a viewport is shown at once.
pub proof fn law_drawing_is_one_update(
    v: InlineView,
    screen: Screen,
    height: u16,
    grid: Grid,
    cursor: Option<Position>,
)
    ensures
        one_update(
            v.terminal,
            v.readied(screen, height).on_screen(screen.size).with_current(grid).presented(
                cursor,
            ).ended(),
        ),
{
    let t0 = v.terminal.begun();
    let t1 = t0.settled(screen);
    let t2 = t1.fitted(height, screen.size);
    let t3 = t2.with_history(v.pending, InsertHistoryMode::Standard);
    lemma_settled_inner(t0, screen);
    lemma_fitted_inner(t1, height, screen.size);
    lemma_only_inner(t0, t1, t2);
    law_inserting_history_clears_nothing(t2, v.pending);
    lemma_gentle_is_inner(t2, t3);
    lemma_only_inner(t0, t2, t3);
    let m = v.readied(screen, height).on_screen(screen.size).with_current(grid);
    assert(m.output == t3.output);
    assert(insertion::since(t0, m) == insertion::since(t0, t3));
    lemma_presented_inner(m, cursor);
    lemma_only_inner(t0, m, m.presented(cursor));
    lemma_one_update(v.terminal, m.presented(cursor));
}

/// All that the terminal is told to draw a tail is shown at once.
pub proof fn law_drawing_a_tail_is_one_update(
    v: InlineView,
    state: TailView,
    source: Grid,
    tail: Tail,
    screen: Screen,
)
    ensures
        one_update(v.terminal, v.tail_drawn(state, source, tail, screen).terminal),
{
    let t0 = v.terminal.begun();
    let t1 = t0.settled(screen);
    lemma_settled_inner(t0, screen);
    let t2 = if t1.viewport_area.width == 0 {
        t1.fitted(tail.height(), screen.size)
    } else {
        t1.with_history(v.pending, InsertHistoryMode::Standard)
    };
    let t3 = v.made_room(screen, tail.height());
    law_inserting_history_clears_nothing(t1, v.pending);
    law_inserting_history_clears_nothing(t2, v.pending);
    if t1.viewport_area.width == 0 {
        lemma_fitted_inner(t1, tail.height(), screen.size);
        lemma_gentle_is_inner(t2, t3);
    } else {
        lemma_gentle_is_inner(t1, t2);
        lemma_fitted_inner(t2, tail.height(), screen.size);
    }
    lemma_only_inner(t0, t1, t2);
    lemma_only_inner(t0, t2, t3);
    let committed = state.arranged(tail).committed_rows;
    let n = crate::geometry::minus(tail.overflow(), committed);
    let t4 = t3.with_rows(source, committed, n);
    lemma_with_rows_gentle(t3, source, committed, n);
    lemma_gentle_is_inner(t3, t4);
    lemma_only_inner(t0, t3, t4);
    let t5 = t4.invalidated().on_screen(screen.size);
    let cells = t5.composed(
        source,
        state.drawn(tail).committed_rows,
        tail.scrollback_height,
        tail.pinned(),
    );
    let m = t5.with_current(cells);
    assert(insertion::since(t0, m) == insertion::since(t0, t4));
    lemma_presented_inner(m, None);
    lemma_only_inner(t0, m, m.presented(None));
    lemma_one_update(v.terminal, m.presented(None));
}

/// Drawing rows of a grid in an area clears nothing.
proof fn lemma_painted_gentle(t: TerminalView, source: Grid, start: u16, area: Rect)
    ensures
        only_gentle(t, t.painted(source, start, area)),
{
    let u = t.painted(source, start, area);
    let ops = insertion::since(t, u);
    assert(u.output =~= t.output + ops);
    assert forall|i: int| 0 <= i < ops.len() implies is_gentle(#[trigger] ops[i]) by {
        assert(ops[i] == u.output[t.output.len() + i]);
    }
}

/// Ending a tail clears nothing, and all that the terminal is told for it is shown at once.
pub proof fn law_finishing_a_tail_clears_nothing(
    v: InlineView,
    state: TailView,
    source: Grid,
    tail: Tail,
)
    ensures
        ({
            let u = v.tail_finished(state, source, tail).terminal;
            let ops = insertion::since(v.terminal, u);
            &&& one_update(v.terminal, u)
            &&& all_gentle(ops.subrange(1, ops.len() - 2))
        }),
{
    let s = state.ending(tail.scrollback_height, tail.size.width);
    let visible = v.tail_shown(state, tail);
    let target = crate::geometry::minus(tail.scrollback_height, visible);
    let n = crate::geometry::minus(target, s.committed_rows);
    let pinned = s.kept(tail.pinned_bottom_height, v.opened(tail).viewport_area.height);
    let start = crate::geometry::upper(s.committed_rows, target);
    let t0 = v.terminal.begun();
    let open = v.opened(tail);
    let t1 = open.with_history(v.pending, InsertHistoryMode::Standard);
    let t2 = t1.with_rows(source, s.committed_rows, n);
    if t0.viewport_area.width == 0 {
        lemma_fitted_empty_gentle(t0, tail.height(), tail.size);
    } else {
        assert(insertion::since(t0, open) =~= Seq::empty());
        assert(open.output =~= t0.output + insertion::since(t0, open));
    }
    law_inserting_history_clears_nothing(open, v.pending);
    lemma_only_gentle(t0, open, t1);
    lemma_with_rows_gentle(t1, source, s.committed_rows, n);
    lemma_only_gentle(t0, t1, t2);
    let area = t2.viewport_area;
    let tail_area = Rect::spec_new(area.x, area.y, area.width, visible);
    let t3 = t2.painted(source, start, tail_area);
    lemma_painted_gentle(t2, source, start, tail_area);
    lemma_only_gentle(t0, t2, t3);
    let pinned_area = crate::inline::pinned_area(area, pinned);
    let t4 = t3.painted(source, tail.scrollback_height, pinned_area);
    lemma_painted_gentle(t3, source, tail.scrollback_height, pinned_area);
    lemma_only_gentle(t0, t3, t4);
    let m = t2.with_tail_left(source, start, visible, tail.scrollback_height, pinned);
    assert(m.output == t4.output);
    assert(insertion::since(t0, m) == insertion::since(t0, t4));
    lemma_gentle_is_inner(t0, m);
    lemma_one_update(v.terminal, m);
    let u = m.ended();
    let ops = insertion::since(v.terminal, u);
    assert(ops.subrange(1, ops.len() - 2) =~= insertion::since(t0, m));
}

/// Whether the rows of history that are known to be visible lie above the viewport.
pub open spec fn history_lies_above(t: TerminalView) -> bool {
    t.visible_history_rows <= t.viewport_area.y
}

/// Pasted rows leave a viewport with the visible history above it.
proof fn lemma_pasted_history(
    t: TerminalView,
    cells: Seq<CellView>,
    from: int,
    left: int,
    drawn: int,
)
    ensures
        history_lies_above(t.pasted(cells, from, left, drawn)),
    decreases left,
{
    let screen = t.last_known_screen_size.height as int;
    let d = crate::geometry::least(left, screen);
    if left + t.viewport_area.height > screen && d > 0 {
        let up = crate::geometry::greatest(0, drawn + d - screen);
        let w = t.viewport_area.width as int;
        lemma_pasted_history(
            t.rolled(up).told(terminal::draw_rows(cells, w, from, d, drawn - up)),
            cells,
            from + d,
            left - d,
            drawn + d - up,
        );
    }
}

/// The visible history lies above the viewport, whatever is done with the terminal.
pub proof fn law_visible_history_lies_above_the_viewport(
    t: TerminalView,
    area: Rect,
    rows: u16,
    cells: Seq<CellView>,
    lines: Seq<LineView>,
    mode: InsertHistoryMode,
    cursor: Option<Position>,
    size: Size,
)
    requires
        history_lies_above(t),
    ensures
        history_lies_above(t.resized(area)),
        history_lies_above(t.remapped(area)),
        history_lies_above(t.noted(rows)),
        history_lies_above(t.cleared()),
        history_lies_above(t.invalidated()),
        history_lies_above(t.on_screen(size)),
        history_lies_above(t.presented(cursor)),
        history_lies_above(t.inserted(rows, cells)),
        history_lies_above(t.with_history(lines, mode)),
        history_lies_above(t.fitted(rows, size)),
{
    if lines.len() > 0 && mode == InsertHistoryMode::Zellij {
        let grid = history::history_grid(lines, t.viewport_area.width);
        lemma_pasted_history(
            t,
            grid.cells,
            0,
            grid.area.height as int,
            t.viewport_area.y as int,
        );
    }
}

/// The steps of drawing a tail, and of ending it, keep the visible history above the viewport.
proof fn lemma_history_stays_above(
    t: TerminalView,
    screen: Screen,
    height: u16,
    source: Grid,
    start: u16,
    n: u16,
)
    requires
        history_lies_above(t),
    ensures
        history_lies_above(t.begun()),
        history_lies_above(t.ended()),
        history_lies_above(t.settled(screen)),
        history_lies_above(t.fitted(height, screen.size)),
        history_lies_above(t.with_rows(source, start, n)),
{
}

/// Inserting history keeps the visible history above the viewport.
proof fn lemma_history_lies_above_history(t: TerminalView, lines: Seq<LineView>)
    requires
        history_lies_above(t),
    ensures
        history_lies_above(t.with_history(lines, InsertHistoryMode::Standard)),
{
}

/// Leaving the last rows of a tail keeps the visible history above the viewport.
proof fn lemma_history_lies_above_rest(
    t: TerminalView,
    source: Grid,
    start: u16,
    visible: u16,
    pinned_start: u16,
    pinned: u16,
)
    requires
        history_lies_above(t),
    ensures
        history_lies_above(t.with_tail_left(source, start, visible, pinned_start, pinned)),
{
}

/// Showing a frame keeps the visible history above the viewport.
proof fn lemma_history_lies_above_frame(t: TerminalView, grid: Grid, size: Size)
    requires
        history_lies_above(t),
    ensures
        history_lies_above(
            t.invalidated().on_screen(size).with_current(grid).presented(None).ended(),
        ),
{
}

/// Making room for a tail keeps the visible history above the viewport.
proof fn lemma_history_lies_above_room(v: InlineView, screen: Screen, height: u16)
    requires
        history_lies_above(v.terminal),
    ensures
        history_lies_above(v.made_room(screen, height)),
{
    let t = v.terminal.begun().settled(screen);
    assert(history_lies_above(t));
    let fitted = t.fitted(height, screen.size);
    assert(history_lies_above(fitted));
    lemma_history_lies_above_history(t, v.pending);
    lemma_history_lies_above_history(fitted, v.pending);
    let inserted = t.with_history(v.pending, InsertHistoryMode::Standard);
    assert(history_lies_above(inserted.fitted(height, screen.size)));
}

/// Drawing a tail keeps the visible history above the viewport.
proof fn lemma_history_lies_above_drawn(
    v: InlineView,
    state: TailView,
    source: Grid,
    tail: Tail,
    screen: Screen,
)
    requires
        history_lies_above(v.terminal),
    ensures
        history_lies_above(v.tail_drawn(state, source, tail, screen).terminal),
{
    let committed = state.arranged(tail).committed_rows;
    let n = crate::geometry::minus(tail.overflow(), committed);
    let height = tail.height();
    let t3 = v.made_room(screen, height);
    lemma_history_lies_above_room(v, screen, height);
    let t4 = t3.with_rows(source, committed, n);
    lemma_history_stays_above(t3, screen, height, source, committed, n);
    let cells = t4.invalidated().on_screen(screen.size).composed(
        source,
        state.drawn(tail).committed_rows,
        tail.scrollback_height,
        tail.pinned(),
    );
    lemma_history_lies_above_frame(t4, cells, screen.size);
}

/// Ending a tail keeps the visible history above the viewport.
proof fn lemma_history_lies_above_finished(
    v: InlineView,
    state: TailView,
    source: Grid,
    tail: Tail,
    screen: Screen,
)
    requires
        history_lies_above(v.terminal),
    ensures
        history_lies_above(v.tail_finished(state, source, tail).terminal),
{
    let s = state.ending(tail.scrollback_height, tail.size.width);
    let visible = v.tail_shown(state, tail);
    let target = crate::geometry::minus(tail.scrollback_height, visible);
    let m = crate::geometry::minus(target, s.committed_rows);
    let u0 = v.opened(tail);
    let u1 = u0.with_history(v.pending, InsertHistoryMode::Standard);
    let u2 = u1.with_rows(source, s.committed_rows, m);
    assert(history_lies_above(u0));
    lemma_history_lies_above_history(u0, v.pending);
    lemma_history_stays_above(u1, screen, 0, source, s.committed_rows, m);
    let start = crate::geometry::upper(s.committed_rows, target);
    let pinned = s.kept(tail.pinned_bottom_height, u0.viewport_area.height);
    lemma_history_lies_above_rest(u2, source, start, visible, tail.scrollback_height, pinned);
    let u3 = u2.with_tail_left(source, start, visible, tail.scrollback_height, pinned);
    lemma_history_stays_above(u3, screen, 0, source, s.committed_rows, m);
}

/// The visible history lies above the viewport after a tail has been drawn, and after it has
/// ended.
pub proof fn law_visible_history_lies_above_a_tail(
    v: InlineView,
    state: TailView,
    source: Grid,
    tail: Tail,
    screen: Screen,
)
    requires
        history_lies_above(v.terminal),
    ensures
        history_lies_above(v.tail_drawn(state, source, tail, screen).terminal),
        history_lies_above(v.tail_finished(state, source, tail).terminal),
{
    lemma_history_lies_above_drawn(v, state, source, tail, screen);
    lemma_history_lies_above_finished(v, state, source, tail, screen);
}

/// A viewport that is given another height lies on the screen and is as wide as it. It has as many
/// rows as asked for, as far as the screen has them.
pub proof fn law_fitted_viewport_lies_on_the_screen(area: Rect, height: u16, size: Size)
    requires
        size.height < u16::MAX,
    ensures
        ({
            let now = crate::inline::fit(area, height, size);
            &&& now.width == size.width
            &&& now.height == crate::geometry::lower(height, size.height)
            &&& now.y + now.height <= size.height
        }),
{
}

/// A viewport as wide as the screen that is given another height clears nothing where it ends in the
/// same row as before, or starts in the same row and has no fewer rows.
pub proof fn law_viewport_that_stays_clears_nothing(t: TerminalView, height: u16, size: Size)
    requires
        t.viewport_area.width == size.width,
        t.viewport_area.y + t.viewport_area.height <= u16::MAX,
        ({
            let area = t.viewport_area;
            let now = t.fitted(height, size).viewport_area;
            now.y + now.height == area.y + area.height || (now.y == area.y && now.height
                >= area.height)
        }),
    ensures
        only_gentle(t, t.fitted(height, size)),
{
    law_kept_viewport_clears_nothing(t, height, size);
}

/// There is room for rows above a viewport that lies on a screen with rows.
pub proof fn law_there_is_room_on_a_screen(t: TerminalView)
    requires
        t.is_on_screen(),
        t.last_known_screen_size.height > 0,
        t.last_known_screen_size.height < u16::MAX,
    ensures
        t.has_room(),
{
}

/// A viewport that lies on a screen can be drawn there in any height, and so can a tail, which can
/// also end there.
pub proof fn law_viewport_on_a_screen_can_be_drawn(
    v: InlineView,
    screen: Screen,
    height: u16,
    state: TailView,
    tail: Tail,
)
    requires
        v.is_ready(screen.size),
        screen.size.height < u16::MAX,
        tail.size == screen.size,
    ensures
        v.can_draw(screen, height),
        v.can_draw_tail(state, tail, screen),
        v.can_finish_tail(state, tail),
{
    law_fitted_viewport_lies_on_the_screen(v.terminal.viewport_area, height, screen.size);
    law_fitted_viewport_lies_on_the_screen(v.terminal.viewport_area, tail.height(), screen.size);
    assert(v.terminal.settled(screen) == v.terminal);
    law_there_is_room_on_a_screen(v.terminal);
}

/// The size that the screen has when a viewport or a tail is drawn is remembered.
pub proof fn law_size_of_the_screen_is_remembered(
    v: InlineView,
    screen: Screen,
    height: u16,
    grid: Grid,
    cursor: Option<Position>,
    state: TailView,
    source: Grid,
    tail: Tail,
)
    ensures
        v.readied(screen, height).on_screen(screen.size).with_current(grid).presented(
            cursor,
        ).ended().last_known_screen_size == screen.size,
        v.tail_drawn(state, source, tail, screen).terminal.last_known_screen_size == screen.size,
        v.tail_drawn(state, source, tail, screen).pending.len() == 0,
        v.tail_finished(state, source, tail).pending.len() == 0,
{
}

} // verus!
