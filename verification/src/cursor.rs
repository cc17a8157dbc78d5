//! Laws of the cursor: it is shown where it was asked for, returns there when rows are inserted,
//! and in the end leaves the viewport.

use vstd::prelude::*;

use crate::buffer;
use crate::buffer::CellView;
use crate::buffer::Grid;
use crate::command::Attribute;
use crate::command::OpOf;
use crate::command::OpView;
use crate::command::PlacedView;
use crate::diff::DrawCommandOf;
use crate::diff::DrawCommandView;
use crate::display;
use crate::display::Display;
use crate::draw;
use crate::draw::Pen;
use crate::geometry;
use crate::geometry::Position;
use crate::geometry::Rect;
use crate::geometry::Size;
use crate::history;
use crate::history::InsertHistoryMode;
use crate::insertion;
use crate::style;
use crate::tail;
use crate::terminal;
use crate::terminal::TerminalView;
use crate::text::LineView;

verus! {

/// Whether the cursor of a screen stands at a place.
pub open spec fn stands_at(d: Display, p: Position) -> bool {
    d.x == p.x && d.y == p.y
}

/// Whether the cursor is hidden after several operations: the last one that hides or shows it says
/// so.
pub open spec fn hidden_after(hidden: bool, ops: Seq<OpView>) -> bool
    decreases ops.len(),
{
    if ops.len() == 0 {
        hidden
    } else {
        match ops.last() {
            OpOf::Hide => true,
            OpOf::Show => false,
            _ => hidden_after(hidden, ops.drop_last()),
        }
    }
}

/// Whether no operation hides or shows the cursor.
pub open spec fn none_hides(ops: Seq<OpView>) -> bool {
    forall|i: int| 0 <= i < ops.len() ==> (#[trigger] ops[i]) !is Hide && ops[i] !is Show
}

/// Operations that neither hide nor show the cursor leave it as it is.
proof fn lemma_none_hides(hidden: bool, ops: Seq<OpView>)
    requires
        none_hides(ops),
    ensures
        hidden_after(hidden, ops) == hidden,
    decreases ops.len(),
{
    if ops.len() > 0 {
        let before = ops.drop_last();
        assert forall|i: int| 0 <= i < before.len() implies (#[trigger] before[i]) !is Hide
            && before[i] !is Show by {
            assert(before[i] == ops[i]);
        }
        lemma_none_hides(hidden, before);
        assert(ops[ops.len() - 1] !is Hide && ops[ops.len() - 1] !is Show);
    }
}

/// Operations hide or show the cursor one after the other.
proof fn lemma_hidden_after(hidden: bool, a: Seq<OpView>, b: Seq<OpView>)
    ensures
        hidden_after(hidden, a + b) == hidden_after(hidden_after(hidden, a), b),
    decreases b.len(),
{
    if b.len() == 0 {
        assert(a + b =~= a);
    } else {
        assert((a + b).drop_last() =~= a + b.drop_last());
        lemma_hidden_after(hidden, a, b.drop_last());
    }
}

/// Two runs of operations that neither hide nor show the cursor.
proof fn lemma_none_hides_both(a: Seq<OpView>, b: Seq<OpView>)
    requires
        none_hides(a),
        none_hides(b),
    ensures
        none_hides(a + b),
{
    assert forall|i: int| 0 <= i < (a + b).len() implies (#[trigger] (a + b)[i]) !is Hide && (a
        + b)[i] !is Show by {
        if i < a.len() {
            assert((a + b)[i] == a[i]);
        } else {
            assert((a + b)[i] == b[i - a.len()]);
        }
    }
}

/// The operations of a change neither hide nor show the cursor.
proof fn lemma_ops_hide_nothing(pen: Pen, command: DrawCommandView)
    ensures
        none_hides(pen.ops(command)),
{
    let p = draw::place(command);
    let first = if pen.is_next(p) {
        Seq::empty()
    } else {
        seq![OpOf::MoveTo { x: p.x, y: p.y }]
    };
    match command {
        DrawCommandOf::Put { cell, .. } => {
            tail::lemma_print_ends(pen, cell);
            let ops = pen.print(cell);
            assert forall|i: int| 0 <= i < ops.len() implies (#[trigger] ops[i]) !is Hide && ops[i]
                !is Show by {
                if i < ops.len() - 1 {
                    assert(tail::is_look(ops.drop_last()[i]));
                }
            }
            lemma_none_hides_both(first, ops);
        },
        DrawCommandOf::ClearToEnd { bg, .. } => {
            let ops = seq![
                OpOf::SetAttribute(Attribute::Reset),
                OpOf::SetBackgroundColor(style::term_color(bg)),
                OpOf::ClearUntilNewLine,
            ];
            lemma_none_hides_both(first, ops);
        },
    }
}

/// The operations of several changes neither hide nor show the cursor.
proof fn lemma_strokes_hide_nothing(commands: Seq<DrawCommandView>)
    ensures
        none_hides(draw::strokes(commands)),
    decreases commands.len(),
{
    if commands.len() > 0 {
        let before = commands.drop_last();
        lemma_strokes_hide_nothing(before);
        lemma_ops_hide_nothing(draw::pen_after(before), commands.last());
        lemma_none_hides_both(
            draw::strokes(before),
            draw::pen_after(before).ops(commands.last()),
        );
    }
}

/// The cursor is hidden after a frame that asks for none, and is shown after one that asks for it,
/// and the terminal is taken to show it, or not, just as it does.
pub proof fn law_cursor_is_shown_if_asked_for(t: TerminalView, cursor: Option<Position>)
    ensures
        ({
            let u = t.presented(cursor);
            &&& u.hidden_cursor == (cursor is None)
            &&& hidden_after(t.hidden_cursor, insertion::since(t, u)) == (cursor is None)
        }),
{
    let f = t.flushed();
    let g = f.pointed(cursor);
    let u = t.presented(cursor);
    let drawn = insertion::since(t, f);
    assert(f.output =~= t.output + drawn);
    if t.updates().len() == 0 {
        assert(drawn =~= Seq::empty());
    } else {
        lemma_strokes_hide_nothing(t.updates());
        lemma_none_hides_both(draw::strokes(t.updates()), draw::plain_look());
        assert(drawn =~= draw::drawing(t.updates()));
    }
    lemma_none_hides(t.hidden_cursor, drawn);
    let pointing = insertion::since(f, g);
    let told = insertion::since(g, u);
    assert(g.output =~= f.output + pointing);
    assert(u.output =~= g.output + told);
    insertion::lemma_since(t, f, g);
    insertion::lemma_since(t, g, u);
    lemma_hidden_after(t.hidden_cursor, drawn, pointing);
    lemma_hidden_after(t.hidden_cursor, insertion::since(t, g), told);
    assert(none_hides(told)) by {
        assert forall|i: int| 0 <= i < told.len() implies (#[trigger] told[i]) !is Hide && told[i]
            !is Show by {
            assert(told[i] == u.output[g.output.len() + i]);
        }
    }
    lemma_none_hides(hidden_after(t.hidden_cursor, insertion::since(t, g)), told);
    let hide = OpOf::Hide;
    let show = OpOf::Show;
    match cursor {
        None => {
            if f.hidden_cursor {
                assert(pointing =~= Seq::empty());
            } else {
                assert(pointing =~= seq![hide]);
                assert(pointing.last() == hide);
            }
        },
        Some(p) => {
            let go = OpOf::MoveTo { x: p.x, y: p.y };
            let moves = p != f.last_known_cursor_pos;
            if f.hidden_cursor && moves {
                assert(pointing =~= seq![show, go]);
                assert(pointing.drop_last() =~= seq![show]);
                assert(hidden_after(f.hidden_cursor, seq![show]) == false);
            } else if f.hidden_cursor {
                assert(pointing =~= seq![show]);
            } else if moves {
                assert(pointing =~= seq![go]);
                assert(pointing.drop_last() =~= Seq::empty());
                assert(hidden_after(f.hidden_cursor, pointing.drop_last()) == f.hidden_cursor);
            } else {
                assert(pointing =~= Seq::empty());
            }
        },
    }
}

/// The cursor is moved to where a frame asks for it, if it is not taken to stand there once the
/// frame has been drawn.
proof fn lemma_pointed(f: TerminalView, u: TerminalView, p: Position, d: Display)
    requires
        u.output == f.pointed(Some(p)).swapped().output || u.output
            == f.pointed(Some(p)).swapped().told(seq![OpOf::Flush]).output,
    ensures
        ({
            let s = d.carried(insertion::since(f, u));
            &&& u.output == f.output + insertion::since(f, u)
            &&& p != f.last_known_cursor_pos ==> stands_at(s, p)
            &&& p == f.last_known_cursor_pos ==> s.x == d.x && s.y == d.y
        }),
{
    let g = f.pointed(Some(p));
    let show = OpOf::Show;
    let go = OpOf::MoveTo { x: p.x, y: p.y };
    let flush = OpOf::Flush;
    let m = if f.hidden_cursor {
        f.shown()
    } else {
        f
    };
    assert(insertion::since(f, m) =~= (if f.hidden_cursor {
        seq![show]
    } else {
        Seq::empty()
    }));
    assert(m.output =~= f.output + insertion::since(f, m));
    let a = d.carried(insertion::since(f, m));
    if f.hidden_cursor {
        display::lemma_carried_one(d, show);
    }
    assert(a == d);
    assert(insertion::since(m, g) =~= (if p != f.last_known_cursor_pos {
        seq![go]
    } else {
        Seq::empty()
    }));
    assert(g.output =~= m.output + insertion::since(m, g));
    let b = a.carried(insertion::since(m, g));
    if p != f.last_known_cursor_pos {
        display::lemma_carried_one(a, go);
    }
    insertion::lemma_since(f, m, g);
    display::lemma_carried(d, insertion::since(f, m), insertion::since(m, g));
    let told = insertion::since(g, u);
    assert(u.output =~= g.output + told);
    if u.output == g.output {
        assert(told =~= Seq::empty());
    } else {
        assert(told =~= seq![flush]);
        display::lemma_carried_one(b, flush);
    }
    insertion::lemma_since(f, g, u);
    display::lemma_carried(d, insertion::since(f, g), told);
}

/// The cursor stands where a frame asks for it, once the frame is shown. Where cells were shown, it
/// is moved there unless the last of them stands at that place. Where none were, it is moved there
/// unless it was last put there: it still stands there then, if nothing was cleared either.
pub proof fn law_cursor_stands_where_it_was_asked_for(
    t: TerminalView,
    p: Position,
    d: Display,
)
    ensures
        ({
            let commands = t.updates();
            let u = t.presented(Some(p));
            let s = d.carried(insertion::since(t, u));
            &&& u.last_known_cursor_pos == p
            &&& forall|k: int|
                #![trigger commands[k]]
                0 <= k < commands.len() && commands[k] is Put && draw::place(commands[k]) != p && (
                forall|j: int| k < j < commands.len() ==> (#[trigger] commands[j]) !is Put)
                    ==> stands_at(s, p)
            &&& (forall|k: int| 0 <= k < commands.len() ==> (#[trigger] commands[k]) !is Put)
                && t.last_known_cursor_pos != p ==> stands_at(s, p)
            &&& commands.len() == 0 && stands_at(d, t.last_known_cursor_pos) ==> stands_at(s, p)
        }),
{
    let commands = t.updates();
    let f = t.flushed();
    let u = t.presented(Some(p));
    assert(f.output =~= t.output + insertion::since(t, f));
    let m = d.carried(insertion::since(t, f));
    lemma_pointed(f, u, p, m);
    insertion::lemma_since(t, f, u);
    display::lemma_carried(d, insertion::since(t, f), insertion::since(f, u));
    if commands.len() == 0 {
        assert(insertion::since(t, f) =~= Seq::empty());
        assert(m == d);
    }
    assert forall|k: int|
        #![trigger commands[k]]
        0 <= k < commands.len() && commands[k] is Put && (forall|j: int|
            k < j < commands.len() ==> (#[trigger] commands[j]) !is Put)
            implies terminal::last_put(commands) == Some(draw::place(commands[k])) by {
        lemma_last_put(commands, k);
    }
    if forall|k: int| 0 <= k < commands.len() ==> (#[trigger] commands[k]) !is Put {
        lemma_no_put(commands);
    }
}

/// The last of several changes that shows a cell.
proof fn lemma_last_put(commands: Seq<DrawCommandView>, k: int)
    requires
        0 <= k < commands.len(),
        commands[k] is Put,
        forall|j: int| k < j < commands.len() ==> (#[trigger] commands[j]) !is Put,
    ensures
        terminal::last_put(commands) == Some(draw::place(commands[k])),
    decreases commands.len(),
{
    let n = commands.len() - 1;
    if k < n {
        assert(commands[n] !is Put);
        let before = commands.drop_last();
        assert forall|j: int| k < j < before.len() implies (#[trigger] before[j]) !is Put by {
            assert(before[j] == commands[j]);
        }
        lemma_last_put(before, k);
    }
}

/// Changes of which none shows a cell.
proof fn lemma_no_put(commands: Seq<DrawCommandView>)
    requires
        forall|j: int| 0 <= j < commands.len() ==> (#[trigger] commands[j]) !is Put,
    ensures
        terminal::last_put(commands) is None,
    decreases commands.len(),
{
    if commands.len() > 0 {
        let before = commands.drop_last();
        assert(commands[commands.len() - 1] !is Put);
        assert forall|j: int| 0 <= j < before.len() implies (#[trigger] before[j]) !is Put by {
            assert(before[j] == commands[j]);
        }
        lemma_no_put(before);
    }
}

/// Pasting rows tells the terminal nothing less.
proof fn lemma_pasted_tells(
    t: TerminalView,
    cells: Seq<CellView>,
    from: int,
    left: int,
    drawn: int,
)
    ensures
        t.output.len() <= t.pasted(cells, from, left, drawn).output.len(),
    decreases left,
{
    let screen = t.last_known_screen_size.height as int;
    let viewport = t.viewport_area.height as int;
    let d = geometry::least(left, screen);
    if left + viewport > screen && d > 0 {
        let up = geometry::greatest(0, drawn + d - screen);
        let next = t.rolled(up).told(
            terminal::draw_rows(cells, t.viewport_area.width as int, from, d, drawn - up),
        );
        lemma_pasted_tells(next, cells, from + d, left - d, drawn + d - up);
    }
}

/// Once history has been inserted, the cursor stands where it was last put.
pub proof fn law_cursor_returns_from_the_history(
    t: TerminalView,
    lines: Seq<LineView>,
    mode: InsertHistoryMode,
    d: Display,
)
    requires
        lines.len() > 0,
    ensures
        ({
            let u = t.with_history(lines, mode);
            let s = d.carried(insertion::since(t, u));
            &&& u.last_known_cursor_pos == t.last_known_cursor_pos
            &&& stands_at(s, t.last_known_cursor_pos)
        }),
{
    let u = t.with_history(lines, mode);
    let grid = history::history_grid(lines, t.viewport_area.width);
    let p = t.last_known_cursor_pos;
    let go: OpView = OpOf::MoveTo { x: p.x, y: p.y };
    match mode {
        InsertHistoryMode::Standard => {
            insertion::lemma_inserted_output(t, grid.area.height, grid.cells);
        },
        InsertHistoryMode::Zellij => {
            lemma_pasted_tells(
                t,
                grid.cells,
                0,
                grid.area.height as int,
                t.viewport_area.y as int,
            );
        },
    }
    let ops = insertion::since(t, u);
    assert(u.output.len() > t.output.len());
    assert(ops.last() == go);
}

/// A terminal that is told to leave its viewport has the cursor at the start of the row below it.
/// Where there is none, all rows move up by one to make it, and nothing is lost of them.
pub proof fn law_cursor_leaves_the_viewport(t: TerminalView, size: Size, d: Display)
    requires
        !t.viewport_area.spec_is_empty(),
        0 < size.height,
        d.has_size(size.width as int, size.height as int),
    ensures
        ({
            let u = t.left(size);
            let s = d.carried(insertion::since(t, u));
            let bottom = t.viewport_area.y + t.viewport_area.height;
            let last = size.height - 1;
            &&& s.x == 0
            &&& bottom <= last ==> {
                &&& s.y == bottom
                &&& s.rows == d.rows
                &&& s.history == d.history
            }
            &&& bottom > last ==> {
                &&& s.y == last
                &&& s.rows.len() == size.height
                &&& insertion::above(s, last) == insertion::above(d, size.height as int)
                &&& forall|x: int|
                    0 <= x < size.width ==> #[trigger] s.rows[last][x] == display::empty_glyph(d.bg)
            }
        }),
{
    let u = t.left(size);
    let bottom = t.viewport_area.spec_bottom();
    let s = d.carried(insertion::since(t, u));
    let flush = OpOf::FlushWriter;
    let last = size.height - 1;
    if bottom < size.height {
        let go = OpOf::MoveTo { x: 0u16, y: bottom };
        assert(insertion::since(t, u) =~= seq![go] + seq![flush]);
        display::lemma_carried(d, seq![go], seq![flush]);
        display::lemma_carried_one(d, go);
        display::lemma_carried_one(d.after(go), flush);
    } else {
        let go = OpOf::MoveTo { x: 0u16, y: last as u16 };
        let feed = OpOf::Print(buffer::glyph('\n'));
        assert(insertion::since(t, u) =~= (seq![go] + seq![feed]) + seq![flush]);
        display::lemma_carried(d, seq![go] + seq![feed], seq![flush]);
        display::lemma_carried(d, seq![go], seq![feed]);
        display::lemma_carried_one(d, go);
        let a = d.after(go);
        display::lemma_carried_one(a, feed);
        let b = a.after(feed);
        display::lemma_carried_one(b, flush);
        assert(b.rows == d.rows.subrange(0, 0) + d.rows.subrange(1, size.height as int)
            + a.empty_rows(0, 1) + d.rows.subrange(size.height as int, size.height as int));
        assert(b.rows.len() == size.height);
        assert(b.history =~= d.history + d.rows.subrange(0, 1));
        assert(insertion::above(b, last) =~= insertion::above(d, size.height as int));
        assert(b.rows[last] == a.empty_rows(0, 1)[0]);
    }
}

/// Once rows of a grid have been inserted above the viewport, the cursor stands where it was last
/// put.
pub proof fn law_cursor_returns_from_inserted_rows(
    t: TerminalView,
    source: Grid,
    start: u16,
    n: u16,
    d: Display,
)
    requires
        n > 0,
        t.viewport_area.width > 0,
    ensures
        ({
            let u = t.with_rows(source, start, n);
            let s = d.carried(insertion::since(t, u));
            &&& u.last_known_cursor_pos == t.last_known_cursor_pos
            &&& stands_at(s, t.last_known_cursor_pos)
        }),
{
    let u = t.with_rows(source, start, n);
    let area = Rect { x: 0, y: 0, width: t.viewport_area.width, height: n };
    let cells = Grid::spec_empty(area).copied(source, start, area).cells;
    let p = t.last_known_cursor_pos;
    let go: OpView = OpOf::MoveTo { x: p.x, y: p.y };
    insertion::lemma_inserted_output(t, n, cells);
    let ops = insertion::since(t, u);
    assert(u.output.len() > t.output.len());
    assert(ops.last() == go);
}

/// The cursor is taken to stand at the last place that rows are drawn at, and where the viewport is
/// cleared at its start, where it does stand.
pub proof fn law_cursor_is_known_after_drawing(
    t: TerminalView,
    source: Grid,
    start: u16,
    area: Rect,
    d: Display,
)
    requires
        area.x + area.width <= u16::MAX,
        area.y + area.height <= u16::MAX,
    ensures
        !area.spec_is_empty() && t.viewport_area.width > 0 ==> t.painted(
            source,
            start,
            area,
        ).last_known_cursor_pos == (Position {
            x: (area.x + area.width - 1) as u16,
            y: (area.y + area.height - 1) as u16,
        }),
        !t.viewport_area.spec_is_empty() ==> ({
            let u = t.cleared();
            let s = d.carried(insertion::since(t, u));
            &&& u.last_known_cursor_pos.x == t.viewport_area.x
            &&& u.last_known_cursor_pos.y == t.viewport_area.y
            &&& stands_at(s, u.last_known_cursor_pos)
        }),
{
    if !t.viewport_area.spec_is_empty() {
        let u = t.cleared();
        let go = OpOf::MoveTo { x: t.viewport_area.x, y: t.viewport_area.y };
        let clear = OpOf::ClearFromCursorDown;
        assert(insertion::since(t, u) =~= seq![go] + seq![clear]);
        display::lemma_carried(d, seq![go], seq![clear]);
        display::lemma_carried_one(d, go);
        display::lemma_carried_one(d.after(go), clear);
    }
}

/// What a frame tells the terminal is handed over at its end; where it tells nothing, nothing is
/// handed over.
pub proof fn law_frames_are_handed_over(t: TerminalView, cursor: Option<Position>, size: Size)
    ensures
        ({
            let u = t.presented(cursor);
            let ops = insertion::since(t, u);
            &&& ops.len() > 0 ==> ops.last() is Flush
            &&& t.updates().len() > 0 ==> ops.len() > 0
            &&& cursor is None && !t.hidden_cursor ==> ops.len() > 0
            &&& cursor is Some && t.hidden_cursor ==> ops.len() > 0
        }),
        !t.viewport_area.spec_is_empty() && size.height > 0 ==> insertion::since(
            t,
            t.left(size),
        ).last() is FlushWriter,
{
    let f = t.flushed();
    let g = f.pointed(cursor);
    let u = t.presented(cursor);
    assert(f.output.len() >= t.output.len());
    if t.updates().len() > 0 {
        assert(draw::drawing(t.updates()).len() >= 3);
    }
    assert(g.output.len() >= f.output.len());
    if u.output.len() > t.output.len() {
        assert(u.output.last() == OpOf::<Seq<char>, Seq<PlacedView>>::Flush);
    }
}

/// Pasting rows leaves the cursor as it is shown, and of the visible history what still has room
/// above the viewport.
proof fn lemma_pasted_keeps(t: TerminalView, cells: Seq<CellView>, from: int, left: int, drawn: int)
    ensures
        ({
            let u = t.pasted(cells, from, left, drawn);
            &&& u.hidden_cursor == t.hidden_cursor
            &&& u.last_known_screen_size == t.last_known_screen_size
            &&& u.visible_history_rows == geometry::least(
                t.visible_history_rows as int,
                u.viewport_area.y as int,
            )
        }),
    decreases left,
{
    let screen = t.last_known_screen_size.height as int;
    let viewport = t.viewport_area.height as int;
    let d = geometry::least(left, screen);
    if left + viewport > screen && d > 0 {
        let up = geometry::greatest(0, drawn + d - screen);
        let next = t.rolled(up).told(
            terminal::draw_rows(cells, t.viewport_area.width as int, from, d, drawn - up),
        );
        lemma_pasted_keeps(next, cells, from + d, left - d, drawn + d - up);
    }
}

/// Whatever is done with the viewport, the cursor stays as it is shown: it is hidden and shown by
/// frames alone. The screen stays the one that it was.
pub proof fn law_cursor_stays_as_it_is_shown(
    t: TerminalView,
    height: u16,
    size: Size,
    lines: Seq<LineView>,
    mode: InsertHistoryMode,
    source: Grid,
    start: u16,
    cells: Seq<CellView>,
)
    ensures
        t.fitted(height, size).hidden_cursor == t.hidden_cursor,
        t.with_history(lines, mode).hidden_cursor == t.hidden_cursor,
        t.with_rows(source, start, height).hidden_cursor == t.hidden_cursor,
        t.inserted(height, cells).hidden_cursor == t.hidden_cursor,
        t.cleared().hidden_cursor == t.hidden_cursor,
        t.left(size).hidden_cursor == t.hidden_cursor,
        t.with_history(lines, mode).last_known_screen_size == t.last_known_screen_size,
        t.with_rows(source, start, height).last_known_screen_size == t.last_known_screen_size,
        t.inserted(height, cells).last_known_screen_size == t.last_known_screen_size,
{
    let grid = history::history_grid(lines, t.viewport_area.width);
    lemma_pasted_keeps(t, grid.cells, 0, grid.area.height as int, t.viewport_area.y as int);
}

/// Inserted rows count as visible history as far as there are rows above the viewport for them, and
/// of the visible history no more is forgotten than has no room there.
pub proof fn law_visible_history_is_counted(
    t: TerminalView,
    lines: Seq<LineView>,
    source: Grid,
    start: u16,
    n: u16,
    height: u16,
    size: Size,
)
    requires
        t.visible_history_rows <= t.viewport_area.y,
        t.viewport_area.width > 0,
    ensures
        ({
            let u = t.with_history(lines, InsertHistoryMode::Zellij);
            lines.len() > 0 ==> u.visible_history_rows == geometry::least(
                t.visible_history_rows + geometry::least(
                    history::total_rows(lines, t.viewport_area.width as int),
                    u16::MAX as int,
                ),
                u.viewport_area.y as int,
            )
        }),
        ({
            let u = t.with_rows(source, start, n);
            u.visible_history_rows == geometry::least(
                t.visible_history_rows + n,
                u.viewport_area.y as int,
            )
        }),
        ({
            let u = t.fitted(height, size);
            u.visible_history_rows == geometry::least(
                t.visible_history_rows as int,
                u.viewport_area.y as int,
            )
        }),
{
    let w = t.viewport_area.width as int;
    history::law_every_line_takes_a_row(lines, w);
    let wrap = geometry::upper(t.viewport_area.width, 1) as int;
    assert(wrap == w);
    let empty = Grid::spec_empty(
        Rect {
            x: 0,
            y: 0,
            width: t.viewport_area.width,
            height: history::inserted_rows(lines, wrap),
        },
    );
    history::lemma_rendered(empty, lines, 0, wrap, 0);
    let grid = history::history_grid(lines, t.viewport_area.width);
    lemma_pasted_keeps(t, grid.cells, 0, grid.area.height as int, t.viewport_area.y as int);
}

} // verus!
