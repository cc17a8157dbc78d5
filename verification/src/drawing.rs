//! Laws of drawing: the screen shows what was drawn, and is told nothing where it shows that
//! already.

use vstd::prelude::*;

use crate::buffer;
use crate::buffer::CellView;
use crate::buffer::Grid;
use crate::command::Attribute;
use crate::command::OpOf;
use crate::command::OpView;
use crate::diff;
use crate::diff::DrawCommandOf;
use crate::diff::DrawCommandView;
use crate::display;
use crate::display::Attributes;
use crate::display::Display;
use crate::display::Glyph;
use crate::display::Tearing;
use crate::draw;
use crate::draw::ModifierDiff;
use crate::draw::Pen;
use crate::geometry;
use crate::geometry::Position;
use crate::geometry::Size;
use crate::insertion;
use crate::rows;
use crate::showing;
use crate::style;
use crate::style::Color;
use crate::style::TermColor;
use crate::terminal::TerminalView;

verus! {

/// Whether all cells of several rows can be shown.
pub open spec fn tidy(cells: Seq<CellView>, w: int, h: int) -> bool {
    forall|r: int| 0 <= r < h ==> rows::tidy_row(#[trigger] diff::line(cells, w, r))
}

/// Whether no cell of several rows is left out when they are drawn.
pub open spec fn all_drawn(cells: Seq<CellView>, w: int, h: int) -> bool {
    forall|r: int| 0 <= r < h ==> rows::none_skipped(#[trigger] diff::line(cells, w, r))
}

/// Whether the screen shows the cells of a grid, but for those of which nothing is known.
pub open spec fn grid_shown(seen: Seq<Seq<Glyph>>, grid: Grid) -> bool {
    forall|r: int|
        0 <= r < grid.area.height ==> rows::row_shown(
            seen[grid.area.y + r],
            #[trigger] diff::line(grid.cells, grid.area.width as int, r),
        )
}

/// The rows of the screen after a change.
pub open spec fn changed(
    tearing: Tearing,
    seen: Seq<Seq<Glyph>>,
    command: DrawCommandView,
) -> Seq<Seq<Glyph>> {
    match command {
        DrawCommandOf::Put { x, y, cell } => seen.update(
            y as int,
            display::printed_row(
                tearing,
                seen[y as int],
                x as int,
                display::look(cell),
                diff::columns(cell) as int,
            ),
        ),
        DrawCommandOf::ClearToEnd { x, y, bg } => seen.update(
            y as int,
            display::cleared_row(tearing, seen[y as int], x as int, style::term_color(bg)),
        ),
    }
}

/// The rows of the screen after several changes.
pub open spec fn changed_all(
    tearing: Tearing,
    seen: Seq<Seq<Glyph>>,
    commands: Seq<DrawCommandView>,
) -> Seq<Seq<Glyph>>
    decreases commands.len(),
{
    if commands.len() == 0 {
        seen
    } else {
        changed(tearing, changed_all(tearing, seen, commands.drop_last()), commands.last())
    }
}

/// Changes are made one after the other.
proof fn lemma_changed_all(
    tearing: Tearing,
    seen: Seq<Seq<Glyph>>,
    a: Seq<DrawCommandView>,
    b: Seq<DrawCommandView>,
)
    ensures
        changed_all(tearing, seen, a + b) == changed_all(tearing, changed_all(tearing, seen, a), b),
    decreases b.len(),
{
    if b.len() == 0 {
        assert(a + b =~= a);
    } else {
        assert((a + b).drop_last() =~= a + b.drop_last());
        lemma_changed_all(tearing, seen, a, b.drop_last());
    }
}

/// What has to hold of a screen and of what is to be drawn on it: the viewport starts in the first
/// column and lies on the screen, and all cells can be shown and are drawn.
pub open spec fn drawable(seen: Seq<Seq<Glyph>>, a: Grid, next: Seq<CellView>) -> bool {
    let w = a.area.width as int;
    let h = a.area.height as int;
    &&& a.wf()
    &&& next.len() == a.cells.len()
    &&& a.area.x == 0
    &&& a.area.y + h <= seen.len() <= u16::MAX
    &&& forall|y: int| 0 <= y < seen.len() ==> (#[trigger] seen[y]).len() == w
    &&& tidy(a.cells, w, h)
    &&& tidy(next, w, h)
    &&& all_drawn(next, w, h)
}

/// Whether nothing is left of the wide texts at the ends of the rows.
pub open spec fn tears_off(
    tearing: Tearing,
    seen: Seq<Seq<Glyph>>,
    a: Grid,
    next: Seq<CellView>,
) -> bool {
    let w = a.area.width as int;
    forall|r: int|
        0 <= r < a.area.height ==> rows::tears_off(
            tearing,
            seen[a.area.y + r],
            diff::line(a.cells, w, r),
            #[trigger] diff::line(next, w, r),
        )
}

/// The cells of a row.
pub proof fn lemma_line(cells: Seq<CellView>, w: int, h: int, r: int)
    requires
        cells.len() == h * w,
        0 <= r < h,
        0 <= w,
    ensures
        diff::line(cells, w, r).len() == w,
        0 <= r * w,
        (r + 1) * w == r * w + w,
        (r + 1) * w <= h * w,
        forall|c: int|
            0 <= c < w ==> #[trigger] diff::line(cells, w, r)[c] == cells[r * w + c],
{
    assert((r + 1) * w == r * w + w) by (nonlinear_arith);
    assert((r + 1) * w <= h * w) by (nonlinear_arith)
        requires
            r + 1 <= h,
            0 <= w,
    ;
    assert(0 <= r * w) by (nonlinear_arith)
        requires
            0 <= r,
            0 <= w,
    ;
}

/// The screen after the clearings of the first `n` rows.
spec fn rows_cleared(
    tearing: Tearing,
    seen: Seq<Seq<Glyph>>,
    a: Grid,
    next: Seq<CellView>,
    n: int,
) -> Seq<Seq<Glyph>> {
    let w = a.area.width as int;
    Seq::new(
        seen.len(),
        |y: int|
            if a.area.y <= y < a.area.y + n {
                rows::cleared(
                    tearing,
                    seen[y],
                    diff::line(a.cells, w, y - a.area.y),
                    diff::line(next, w, y - a.area.y),
                )
            } else {
                seen[y]
            },
    )
}

/// The clearings clear the rows that need it.
proof fn lemma_clears(
    tearing: Tearing,
    seen: Seq<Seq<Glyph>>,
    a: Grid,
    next: Seq<CellView>,
    n: int,
)
    requires
        drawable(seen, a, next),
        0 <= n <= a.area.height,
    ensures
        changed_all(tearing, seen, diff::clears(a, next, n)) == rows_cleared(
            tearing,
            seen,
            a,
            next,
            n,
        ),
    decreases n,
{
    let now = changed_all(tearing, seen, diff::clears(a, next, n));
    if n == 0 {
        assert(now =~= rows_cleared(tearing, seen, a, next, 0));
    } else {
        let w = a.area.width as int;
        let h = a.area.height as int;
        let r = n - 1;
        let y = a.area.y + r;
        let old_line = diff::line(a.cells, w, r);
        let new_line = diff::line(next, w, r);
        lemma_clears(tearing, seen, a, next, r);
        let before = rows_cleared(tearing, seen, a, next, r);
        let more = diff::row_clear(a, next, r);
        lemma_changed_all(tearing, seen, diff::clears(a, next, r), more);
        buffer::lemma_cells(a.area);
        lemma_line(a.cells, w, h, r);
        lemma_line(next, w, h, r);
        if diff::needs_clear(old_line, new_line) {
            assert(w > 0);
            rows::lemma_last_column(new_line, 0);
            assert(more.drop_last() =~= Seq::empty());
            assert(changed_all(tearing, before, more.drop_last()) == before);
            assert(changed_all(tearing, before, more) == changed(tearing, before, more[0]));
        } else {
            assert(changed_all(tearing, before, more) == before);
        }
        assert(now =~= rows_cleared(tearing, seen, a, next, n));
    }
}

/// Where the cell `i` stands.
proof fn lemma_cell(a: Grid, i: int)
    requires
        a.wf(),
        0 <= i < a.cells.len(),
    ensures
        ({
            let w = a.area.width as int;
            let r = i / w;
            let c = i % w;
            &&& 0 < w
            &&& 0 <= c < w
            &&& 0 <= r < a.area.height
            &&& i == r * w + c
        }),
{
    buffer::lemma_place(a.area, i);
}

/// The cell before the cell `i`, if that is not the first one, takes one or two columns, and two
/// only in the same row.
proof fn lemma_columns_before(cells: Seq<CellView>, w: int, h: int, r: int, c: int)
    requires
        cells.len() == h * w,
        tidy(cells, w, h),
        0 <= r < h,
        0 <= c < w,
        r * w + c > 0,
    ensures
        1 <= diff::columns(cells[r * w + c - 1]) <= 2,
        diff::columns(cells[r * w + c - 1]) == 2 <==> rows::is_covered(diff::line(cells, w, r), c),
{
    lemma_line(cells, w, h, r);
    let line = diff::line(cells, w, r);
    if c > 0 {
        assert(line[c - 1] == cells[r * w + (c - 1)]);
        assert(rows::is_tidy(line, c - 1));
    } else {
        assert(r > 0) by (nonlinear_arith)
            requires
                r * w + c > 0,
                c == 0,
                r >= 0,
        ;
        lemma_line(cells, w, h, r - 1);
        let above = diff::line(cells, w, r - 1);
        assert(above[w - 1] == cells[(r - 1) * w + (w - 1)]);
        assert(rows::is_tidy(above, w - 1));
    }
}

/// A cell is spoiled if the one before it takes two columns, or took them.
proof fn lemma_spoiled(a: Grid, next: Seq<CellView>, i: int)
    requires
        a.wf(),
        next.len() == a.cells.len(),
        tidy(a.cells, a.area.width as int, a.area.height as int),
        tidy(next, a.area.width as int, a.area.height as int),
        0 <= i < a.cells.len(),
    ensures
        ({
            let w = a.area.width as int;
            let r = i / w;
            let c = i % w;
            &&& 0 <= diff::spoiled(a.cells, next, i) <= 1
            &&& diff::spoiled(a.cells, next, i) > 0 <==> rows::is_covered(
                diff::line(next, w, r),
                c,
            ) || rows::is_covered(diff::line(a.cells, w, r), c)
        }),
    decreases i,
{
    let w = a.area.width as int;
    let h = a.area.height as int;
    lemma_cell(a, i);
    buffer::lemma_cells(a.area);
    if i > 0 {
        lemma_spoiled(a, next, i - 1);
        lemma_columns_before(a.cells, w, h, i / w, i % w);
        lemma_columns_before(next, w, h, i / w, i % w);
    }
}

/// A cell of the grid has to be shown anew just as the cell of its row has.
proof fn lemma_needs_put(a: Grid, next: Seq<CellView>, i: int)
    requires
        a.wf(),
        next.len() == a.cells.len(),
        tidy(a.cells, a.area.width as int, a.area.height as int),
        tidy(next, a.area.width as int, a.area.height as int),
        0 <= i < a.cells.len(),
    ensures
        ({
            let w = a.area.width as int;
            let r = i / w;
            let c = i % w;
            let here = rows::put_here(diff::line(a.cells, w, r), diff::line(next, w, r), c);
            &&& next[i] == diff::line(next, w, r)[c]
            &&& diff::needs_put(a, next, i) ==> here
            &&& a.area.x == 0 && here && !next[i].skip ==> diff::needs_put(a, next, i)
        }),
{
    let w = a.area.width as int;
    let h = a.area.height as int;
    let r = i / w;
    let c = i % w;
    lemma_cell(a, i);
    buffer::lemma_cells(a.area);
    lemma_line(a.cells, w, h, r);
    lemma_line(next, w, h, r);
    lemma_spoiled(a, next, i);
    let new_line = diff::line(next, w, r);
    assert(new_line[c] == next[r * w + c]);
    assert(diff::line(a.cells, w, r)[c] == a.cells[r * w + c]);
    assert(rows::is_tidy(new_line, c));
    rows::lemma_last_column(new_line, c);
    if i > 0 {
        lemma_columns_before(next, w, h, r, c);
    } else {
        assert(c == 0) by {
            vstd::arithmetic::div_mod::lemma_small_mod(0, w as nat);
        }
    }
}

/// How many cells of the row `r` are among the first `n`.
spec fn done_in_row(w: int, r: int, n: int) -> int {
    geometry::greatest(0, geometry::least(w, n - r * w))
}

/// The screen after the showings among the first `n` cells.
spec fn rows_redrawn(
    tearing: Tearing,
    seen: Seq<Seq<Glyph>>,
    a: Grid,
    next: Seq<CellView>,
    n: int,
) -> Seq<Seq<Glyph>> {
    let w = a.area.width as int;
    Seq::new(
        seen.len(),
        |y: int|
            if a.area.y <= y < a.area.y + a.area.height {
                rows::redrawn(
                    tearing,
                    seen[y],
                    diff::line(a.cells, w, y - a.area.y),
                    diff::line(next, w, y - a.area.y),
                    done_in_row(w, y - a.area.y, n),
                )
            } else {
                seen[y]
            },
    )
}

/// One more cell is one more in its row, and none in the others.
proof fn lemma_done(w: int, r: int, c: int, q: int)
    requires
        0 <= c < w,
        0 <= r,
        0 <= q,
    ensures
        q == r ==> done_in_row(w, q, r * w + c) == c && done_in_row(w, q, r * w + c + 1) == c + 1,
        q != r ==> done_in_row(w, q, r * w + c) == done_in_row(w, q, r * w + c + 1),
{
    if q < r {
        assert((q + 1) * w <= r * w) by (nonlinear_arith)
            requires
                q + 1 <= r,
                0 < w,
        ;
        assert((q + 1) * w == q * w + w) by (nonlinear_arith);
    } else if q > r {
        assert((r + 1) * w <= q * w) by (nonlinear_arith)
            requires
                r + 1 <= q,
                0 < w,
        ;
        assert((r + 1) * w == r * w + w) by (nonlinear_arith);
    }
}

/// The showings show the cells that need it.
proof fn lemma_puts(
    tearing: Tearing,
    seen: Seq<Seq<Glyph>>,
    a: Grid,
    next: Seq<CellView>,
    n: int,
)
    requires
        drawable(seen, a, next),
        0 <= n <= a.cells.len(),
    ensures
        changed_all(tearing, seen, diff::puts(a, next, n)) == rows_redrawn(
            tearing,
            seen,
            a,
            next,
            n,
        ),
    decreases n,
{
    let w = a.area.width as int;
    let h = a.area.height as int;
    let now = changed_all(tearing, seen, diff::puts(a, next, n));
    if n == 0 {
        assert forall|y: int| 0 <= y < seen.len() implies now[y] == #[trigger] rows_redrawn(
            tearing,
            seen,
            a,
            next,
            0,
        )[y] by {
            let r = y - a.area.y;
            assert(r >= 0 ==> r * w >= 0) by (nonlinear_arith)
                requires
                    w >= 0,
            ;
        }
        assert(now =~= rows_redrawn(tearing, seen, a, next, 0));
    } else {
        let i = n - 1;
        let r = i / w;
        let c = i % w;
        lemma_puts(tearing, seen, a, next, i);
        lemma_cell(a, i);
        lemma_needs_put(a, next, i);
        buffer::lemma_cells(a.area);
        lemma_line(next, w, h, r);
        assert(rows::none_skipped(diff::line(next, w, r)));
        let before = rows_redrawn(tearing, seen, a, next, i);
        let after = rows_redrawn(tearing, seen, a, next, n);
        assert forall|y: int| a.area.y <= y < a.area.y + h implies ({
            let q = y - a.area.y;
            &&& q == r ==> done_in_row(w, q, i) == c && done_in_row(w, q, n) == c + 1
            &&& q != r ==> #[trigger] after[y] == before[y]
        }) by {
            lemma_done(w, r, c, y - a.area.y);
        }
        let y = a.area.y + r;
        lemma_done(w, r, c, r);
        if diff::needs_put(a, next, i) {
            let command = DrawCommandOf::Put {
                x: a.column(i) as u16,
                y: a.row(i) as u16,
                cell: next[i],
            };
            assert(diff::puts(a, next, n).drop_last() =~= diff::puts(a, next, i));
            assert(now == changed(tearing, before, command));
            assert(after[y] == display::printed_row(
                tearing,
                before[y],
                c,
                display::look(next[i]),
                diff::columns(next[i]) as int,
            ));
            assert(now =~= after);
        } else {
            assert(after[y] == before[y]);
            assert(now =~= after);
        }
    }
}

/// The changes make a screen that shows a grid show other cells in its place, where nothing is left
/// of the wide texts at the ends of the rows; the other rows stay.
pub proof fn law_changes_show_what_was_drawn(
    tearing: Tearing,
    seen: Seq<Seq<Glyph>>,
    a: Grid,
    next: Seq<CellView>,
)
    requires
        drawable(seen, a, next),
        grid_shown(seen, a),
        tears_off(tearing, seen, a, next),
    ensures
        ({
            let now = changed_all(tearing, seen, diff::changes(a, next));
            &&& now.len() == seen.len()
            &&& forall|y: int| 0 <= y < now.len() ==> (#[trigger] now[y]).len() == seen[y].len()
            &&& grid_shown(now, Grid { area: a.area, cells: next })
            &&& forall|y: int|
                0 <= y < now.len() && !(a.area.y <= y < a.area.y + a.area.height) ==> now[y]
                    == #[trigger] seen[y]
        }),
{
    let w = a.area.width as int;
    let h = a.area.height as int;
    let n = a.cells.len() as int;
    let start = rows_cleared(tearing, seen, a, next, h);
    let now = changed_all(tearing, seen, diff::changes(a, next));
    lemma_clears(tearing, seen, a, next, h);
    lemma_changed_all(tearing, seen, diff::clears(a, next, h), diff::puts(a, next, n));
    assert forall|y: int| 0 <= y < start.len() implies (#[trigger] start[y]).len() == w by {
        assert(seen[y].len() == w);
    }
    lemma_puts(tearing, start, a, next, n);
    buffer::lemma_cells(a.area);
    assert forall|y: int| a.area.y <= y < a.area.y + h implies rows::row_shown(
        #[trigger] now[y],
        diff::line(next, w, y - a.area.y),
    ) && now[y].len() == w by {
        let r = y - a.area.y;
        lemma_line(a.cells, w, h, r);
        lemma_line(next, w, h, r);
        assert(rows::row_shown(seen[a.area.y + r], diff::line(a.cells, w, r)));
        rows::law_row_shows_what_was_drawn(
            tearing,
            seen[y],
            diff::line(a.cells, w, r),
            diff::line(next, w, r),
        );
        assert(done_in_row(w, r, n) == w);
    }
    assert forall|y: int| 0 <= y < now.len() implies (#[trigger] now[y]).len() == seen[y].len() by {
        assert(seen[y].len() == w);
    }
    assert forall|r: int| 0 <= r < h implies rows::row_shown(
        now[a.area.y + r],
        #[trigger] diff::line(next, w, r),
    ) by {
        assert(rows::row_shown(now[a.area.y + r], diff::line(next, w, a.area.y + r - a.area.y)));
    }
}

/// Whether no cell takes more than two columns.
pub open spec fn no_wider_than_two(cells: Seq<CellView>) -> bool {
    forall|i: int| 0 <= i < cells.len() ==> diff::columns(#[trigger] cells[i]) <= 2
}

/// The cells of a grid that the screen shows need no change, if none takes more than two columns.
pub proof fn law_shown_grid_needs_no_change(a: Grid)
    requires
        a.wf(),
        no_wider_than_two(a.cells),
        forall|i: int| 0 <= i < a.cells.len() ==> !diff::is_invalid(#[trigger] a.cells[i]),
    ensures
        diff::changes(a, a.cells).len() == 0,
{
    lemma_no_clears(a, a.area.height as int);
    lemma_no_puts(a, a.cells.len() as int);
}

/// A row of valid cells.
proof fn lemma_valid_line(a: Grid, r: int)
    requires
        a.wf(),
        0 <= r < a.area.height,
        no_wider_than_two(a.cells),
        forall|i: int| 0 <= i < a.cells.len() ==> !diff::is_invalid(#[trigger] a.cells[i]),
    ensures
        ({
            let line = diff::line(a.cells, a.area.width as int, r);
            &&& line.len() == a.area.width
            &&& forall|c: int| 0 <= c < line.len() ==> !diff::is_invalid(#[trigger] line[c])
            &&& forall|c: int| 0 <= c < line.len() ==> diff::columns(#[trigger] line[c]) <= 2
        }),
{
    let w = a.area.width as int;
    let line = diff::line(a.cells, w, r);
    buffer::lemma_cells(a.area);
    lemma_line(a.cells, w, a.area.height as int, r);
    assert forall|c: int| 0 <= c < line.len() implies !diff::is_invalid(#[trigger] line[c])
        && diff::columns(line[c]) <= 2 by {
        assert(line[c] == a.cells[r * w + c]);
    }
}

/// No row of a shown grid is cleared.
proof fn lemma_no_clears(a: Grid, n: int)
    requires
        a.wf(),
        no_wider_than_two(a.cells),
        forall|i: int| 0 <= i < a.cells.len() ==> !diff::is_invalid(#[trigger] a.cells[i]),
        0 <= n <= a.area.height,
    ensures
        diff::clears(a, a.cells, n).len() == 0,
    decreases n,
{
    if n > 0 {
        let w = a.area.width as int;
        lemma_no_clears(a, n - 1);
        lemma_valid_line(a, n - 1);
        if w > 0 {
            rows::law_shown_row_needs_nothing(diff::line(a.cells, w, n - 1), 0);
        }
    }
}

/// A cell that the screen may show wrongly lies behind a wide one.
proof fn lemma_spoiled_is_covered(cells: Seq<CellView>, i: int)
    requires
        no_wider_than_two(cells),
        0 <= i <= cells.len(),
    ensures
        diff::spoiled(cells, cells, i) <= 1,
        diff::spoiled(cells, cells, i) > 0 ==> diff::covered(cells, i),
    decreases i,
{
    if i > 0 {
        lemma_spoiled_is_covered(cells, i - 1);
        assert(diff::columns(cells[i - 1]) <= 2);
    }
}

/// No cell of a shown grid is drawn.
proof fn lemma_no_puts(a: Grid, n: int)
    requires
        no_wider_than_two(a.cells),
        forall|i: int| 0 <= i < a.cells.len() ==> !diff::is_invalid(#[trigger] a.cells[i]),
        0 <= n <= a.cells.len(),
    ensures
        diff::puts(a, a.cells, n).len() == 0,
    decreases n,
{
    if n > 0 {
        lemma_no_puts(a, n - 1);
        lemma_spoiled_is_covered(a.cells, n - 1);
        assert(!diff::is_invalid(a.cells[n - 1]));
    }
}

/// Cells that are marked as unknown are told from others by their look, and any cell can be marked
/// so.
pub proof fn law_unknown_cells_are_marked(cell: CellView)
    ensures
        diff::is_invalid(buffer::invalidated(cell)),
        diff::is_invalid(cell) ==> cell.fg == Color::Indexed(255) && cell.bg == Color::Indexed(254)
            && cell.modifier.spec_contains(style::RAPID_BLINK),
{
    assert(0x020u16 & 0x020u16 == 0x020u16) by (bit_vector);
}

/// Whether the screen may show something else at the cell `i` than is to be shown there: the cell
/// has changed, or nothing is known of it, or a wide text stood or stands before it.
pub open spec fn may_differ(a: Grid, next: Seq<CellView>, i: int) -> bool {
    ||| next[i] != a.cells[i]
    ||| diff::is_invalid(a.cells[i])
    ||| i > 0 && (diff::columns(a.cells[i - 1]) > 1 || diff::columns(next[i - 1]) > 1)
}

/// A cell that the screen may show wrongly stands right behind a wide text, if no text takes more
/// than two columns.
proof fn lemma_spoiled_by_the_one_before(old_cells: Seq<CellView>, new_cells: Seq<CellView>, i: int)
    requires
        no_wider_than_two(old_cells),
        no_wider_than_two(new_cells),
        old_cells.len() == new_cells.len(),
        0 <= i <= old_cells.len(),
    ensures
        diff::spoiled(old_cells, new_cells, i) <= 1,
        diff::spoiled(old_cells, new_cells, i) > 0 ==> i > 0 && (diff::columns(old_cells[i - 1]) > 1
            || diff::columns(new_cells[i - 1]) > 1),
    decreases i,
{
    if i > 0 {
        lemma_spoiled_by_the_one_before(old_cells, new_cells, i - 1);
        assert(diff::columns(old_cells[i - 1]) <= 2);
        assert(diff::columns(new_cells[i - 1]) <= 2);
    }
}

/// Whether a change shows a cell that the screen may show otherwise.
spec fn is_called_for(a: Grid, next: Seq<CellView>, n: int, command: DrawCommandView) -> bool {
    exists|i: int|
        {
            &&& 0 <= i < n
            &&& #[trigger] may_differ(a, next, i)
            &&& !next[i].skip
            &&& command == (DrawCommandOf::Put {
                x: a.column(i) as u16,
                y: a.row(i) as u16,
                cell: next[i],
            })
        }
}

/// The showings among the first `n` cells are called for.
proof fn lemma_puts_called_for(a: Grid, next: Seq<CellView>, n: int, k: int)
    requires
        next.len() == a.cells.len(),
        no_wider_than_two(a.cells),
        no_wider_than_two(next),
        0 <= n <= a.cells.len(),
        0 <= k < diff::puts(a, next, n).len(),
    ensures
        is_called_for(a, next, n, diff::puts(a, next, n)[k]),
    decreases n,
{
    let i = n - 1;
    lemma_spoiled_by_the_one_before(a.cells, next, i);
    if k < diff::puts(a, next, i).len() {
        lemma_puts_called_for(a, next, i, k);
        let j = choose|j: int|
            {
                &&& 0 <= j < i
                &&& #[trigger] may_differ(a, next, j)
                &&& !next[j].skip
                &&& diff::puts(a, next, i)[k] == (DrawCommandOf::Put {
                    x: a.column(j) as u16,
                    y: a.row(j) as u16,
                    cell: next[j],
                })
            };
        assert(may_differ(a, next, j));
    } else {
        assert(may_differ(a, next, i));
    }
}

/// Whether a change clears the row `r`, which shows something in the column `c`, where nothing is
/// to be shown.
spec fn clears_what_is_stale(
    a: Grid,
    next: Seq<CellView>,
    r: int,
    c: int,
    command: DrawCommandView,
) -> bool {
    let w = a.area.width as int;
    let old_line = diff::line(a.cells, w, r);
    let new_line = diff::line(next, w, r);
    let last = diff::last_column(new_line);
    let bg = diff::end_color(new_line);
    &&& last < c < old_line.len()
    &&& diff::is_invalid(old_line[c]) || !diff::is_blank(old_line[c], bg)
    &&& command matches DrawCommandOf::ClearToEnd { x, y, bg: color } && x == (a.area.x + last + 1)
        as u16 && y == (a.area.y + r) as u16 && color == bg
}

/// The clearings of the first `n` rows are called for.
proof fn lemma_clears_called_for(a: Grid, next: Seq<CellView>, n: int, k: int)
    requires
        0 <= n,
        0 <= k < diff::clears(a, next, n).len(),
    ensures
        exists|r: int, c: int|
            0 <= r < n && #[trigger] clears_what_is_stale(
                a,
                next,
                r,
                c,
                diff::clears(a, next, n)[k],
            ),
    decreases n,
{
    let w = a.area.width as int;
    let before = diff::clears(a, next, n - 1);
    let command = diff::clears(a, next, n)[k];
    if k < before.len() {
        lemma_clears_called_for(a, next, n - 1, k);
        assert(command == before[k]);
        let (r, c) = choose|r: int, c: int|
            0 <= r < n - 1 && #[trigger] clears_what_is_stale(a, next, r, c, command);
        assert(clears_what_is_stale(a, next, r, c, command));
    } else {
        let r = n - 1;
        let old_line = diff::line(a.cells, w, r);
        let new_line = diff::line(next, w, r);
        let c = choose|c: int|
            diff::last_column(new_line) < c < old_line.len() && (diff::is_invalid(
                #[trigger] old_line[c],
            ) || !diff::is_blank(old_line[c], diff::end_color(new_line)));
        assert(command == diff::row_clear(a, next, r)[0]);
        assert(clears_what_is_stale(a, next, r, c, command));
    }
}

/// Only what has changed is written: each change shows a cell that the screen may show otherwise,
/// at its place, or clears the end of a row that shows something there, from behind the last cell
/// on that is to be drawn. No text may take more than two columns.
pub proof fn law_only_changes_are_written(a: Grid, next: Seq<CellView>, k: int)
    requires
        a.wf(),
        a.area.fits(),
        next.len() == a.cells.len(),
        no_wider_than_two(a.cells),
        no_wider_than_two(next),
        0 <= k < diff::changes(a, next).len(),
    ensures
        match diff::changes(a, next)[k] {
            DrawCommandOf::Put { x, y, cell } => exists|i: int|
                {
                    &&& 0 <= i < a.cells.len()
                    &&& #[trigger] may_differ(a, next, i)
                    &&& !next[i].skip
                    &&& cell == next[i]
                    &&& x == a.column(i)
                    &&& y == a.row(i)
                },
            DrawCommandOf::ClearToEnd { x, y, bg } => exists|r: int, c: int|
                {
                    let old_line = diff::line(a.cells, a.area.width as int, r);
                    &&& 0 <= r < a.area.height
                    &&& y == a.area.y + r
                    &&& 0 <= c < a.area.width
                    &&& a.area.x < x <= a.area.x + c
                    &&& diff::is_invalid(
                        #[trigger] diff::line(a.cells, a.area.width as int, r)[c],
                    ) || !diff::is_blank(old_line[c], bg)
                },
        },
{
    let w = a.area.width as int;
    let h = a.area.height as int;
    let clears = diff::clears(a, next, h);
    let puts = diff::puts(a, next, a.cells.len() as int);
    let command = diff::changes(a, next)[k];
    if k < clears.len() {
        assert(command == clears[k]);
        lemma_clears_called_for(a, next, h, k);
        let (r, c) = choose|r: int, c: int|
            0 <= r < h && #[trigger] clears_what_is_stale(a, next, r, c, command);
        buffer::lemma_cells(a.area);
        lemma_line(a.cells, w, h, r);
        lemma_line(next, w, h, r);
        let new_line = diff::line(next, w, r);
        assert forall|i: int| 0 <= i < new_line.len() implies diff::columns(
            #[trigger] new_line[i],
        ) <= 2 by {
            assert(new_line[i] == next[r * w + i]);
        }
        rows::lemma_drawn_from(new_line, diff::end_color(new_line), 0, 0);
        assert(diff::is_invalid(diff::line(a.cells, w, r)[c]) || !diff::is_blank(
            diff::line(a.cells, w, r)[c],
            diff::end_color(new_line),
        ));
    } else {
        assert(command == puts[k - clears.len()]);
        lemma_puts_called_for(a, next, a.cells.len() as int, k - clears.len());
        let i = choose|i: int|
            {
                &&& 0 <= i < a.cells.len()
                &&& #[trigger] may_differ(a, next, i)
                &&& !next[i].skip
                &&& command == (DrawCommandOf::Put {
                    x: a.column(i) as u16,
                    y: a.row(i) as u16,
                    cell: next[i],
                })
            };
        buffer::lemma_place(a.area, i);
        assert(may_differ(a, next, i));
    }
}

/// Whether a terminal prints in the look that the drawing takes it to print in.
spec fn in_step(d: Display, pen: Pen) -> bool {
    &&& d.fg == style::term_color(pen.fg)
    &&& d.bg == style::term_color(pen.bg)
    &&& d.attributes == Attributes::of(pen.modifier)
}

/// The operations that show a cell are carried out at the cursor.
proof fn lemma_print(d: Display, pen: Pen, cell: CellView)
    requires
        in_step(d, pen),
        cell.symbol != buffer::glyph('\n'),
        showing::faithful(pen.modifier, cell.modifier),
    ensures
        ({
            let look = display::look(cell);
            let k = diff::columns(cell) as int;
            d.carried(pen.print(cell)) == Display {
                rows: d.rows.update(
                    d.y,
                    display::printed_row(d.tearing, d.rows[d.y], d.x, look, k),
                ),
                x: d.x + k,
                fg: look.fg,
                bg: look.bg,
                attributes: look.attributes,
                ..d
            }
        }),
{
    let look = display::look(cell);
    let mods = if cell.modifier != pen.modifier {
        ModifierDiff { from: pen.modifier, to: cell.modifier }.ops()
    } else {
        Seq::empty()
    };
    let set = OpOf::SetColors { fg: look.fg, bg: look.bg };
    let colors = if cell.fg != pen.fg || cell.bg != pen.bg {
        seq![set]
    } else {
        Seq::empty()
    };
    let text = OpOf::Print(cell.symbol);
    display::lemma_carried(d, mods + colors, seq![text]);
    display::lemma_carried(d, mods, colors);
    let a = d.carried(mods);
    if cell.modifier != pen.modifier {
        showing::law_modifiers_are_reached(
            d,
            ModifierDiff { from: pen.modifier, to: cell.modifier },
        );
    } else {
        assert(a == d);
    }
    assert(a == Display { attributes: look.attributes, ..d });
    let b = a.carried(colors);
    if cell.fg != pen.fg || cell.bg != pen.bg {
        display::lemma_carried_one(a, set);
    } else {
        assert(b == a);
    }
    assert(b == Display { fg: look.fg, bg: look.bg, attributes: look.attributes, ..d });
    display::lemma_carried_one(b, text);
    assert(look == Glyph {
        symbol: cell.symbol,
        fg: b.fg,
        bg: b.bg,
        attributes: b.attributes,
    });
}

/// The operations of a change start at its place.
proof fn lemma_placed(d: Display, pen: Pen, command: DrawCommandView, ops: Seq<OpView>)
    requires
        pen.is_next(draw::place(command)) ==> d.x == draw::place(command).x && d.y == draw::place(
            command,
        ).y,
    ensures
        ({
            let p = draw::place(command);
            let go = if pen.is_next(p) {
                Seq::empty()
            } else {
                seq![OpOf::MoveTo { x: p.x, y: p.y }]
            };
            d.carried(go + ops) == (Display { x: p.x as int, y: p.y as int, ..d }).carried(ops)
        }),
{
    let p = draw::place(command);
    let op = OpOf::MoveTo { x: p.x, y: p.y };
    let go = if pen.is_next(p) {
        Seq::empty()
    } else {
        seq![op]
    };
    display::lemma_carried(d, go, ops);
    if pen.is_next(p) {
        assert(d.carried(go) == d);
    } else {
        display::lemma_carried_one(d, op);
    }
}

/// The operations of a change are carried out.
proof fn lemma_command(d: Display, pen: Pen, command: DrawCommandView)
    requires
        in_step(d, pen),
        pen.is_next(draw::place(command)) ==> d.x == draw::place(command).x && d.y == draw::place(
            command,
        ).y,
        command is Put ==> command->cell.symbol != buffer::glyph('\n') && showing::faithful(
            pen.modifier,
            command->cell.modifier,
        ),
        command is ClearToEnd ==> pen.fg == Color::Reset,
    ensures
        ({
            let s = d.carried(pen.ops(command));
            let p = draw::place(command);
            &&& in_step(s, pen.after(command))
            &&& s.rows == changed(d.tearing, d.rows, command)
            &&& s.history == d.history
            &&& s.tearing == d.tearing
            &&& s.y == p.y
            &&& s.x == p.x + (if command is Put {
                diff::columns(command->cell) as int
            } else {
                0
            })
        }),
{
    let p = draw::place(command);
    let at = Display { x: p.x as int, y: p.y as int, ..d };
    match command {
        DrawCommandOf::Put { cell, .. } => {
            lemma_placed(d, pen, command, pen.print(cell));
            lemma_print(at, pen, cell);
        },
        DrawCommandOf::ClearToEnd { bg, .. } => {
            let reset = OpOf::SetAttribute(Attribute::Reset);
            let set = OpOf::SetBackgroundColor(style::term_color(bg));
            let clear = OpOf::ClearUntilNewLine;
            lemma_placed(d, pen, command, seq![reset, set, clear]);
            assert(seq![reset, set, clear] =~= seq![reset] + seq![set] + seq![clear]);
            display::lemma_carried(at, seq![reset] + seq![set], seq![clear]);
            display::lemma_carried(at, seq![reset], seq![set]);
            display::lemma_carried_one(at, reset);
            display::lemma_carried_one(at.after(reset), set);
            display::lemma_carried_one(at.after(reset).after(set), clear);
            showing::lemma_no_modifier();
        },
    }
}

/// Whether each cell is shown in a look that the one before it leads to.
pub open spec fn faithful_all(commands: Seq<DrawCommandView>) -> bool
    decreases commands.len(),
{
    commands.len() == 0 || (faithful_all(commands.drop_last()) && (commands.last() is Put
        ==> showing::faithful(
        draw::pen_after(commands.drop_last()).modifier,
        commands.last()->cell.modifier,
    )))
}

/// The clearings of the first `n` rows are carried out.
proof fn lemma_clear_strokes(d: Display, a: Grid, next: Seq<CellView>, n: int)
    requires
        drawable(d.rows, a, next),
        d.is_plain(),
        0 <= n <= a.area.height,
    ensures
        ({
            let commands = diff::clears(a, next, n);
            let s = d.carried(draw::strokes(commands));
            let pen = draw::pen_after(commands);
            &&& in_step(s, pen)
            &&& pen.fg == Color::Reset
            &&& s.rows == changed_all(d.tearing, d.rows, commands)
            &&& s.history == d.history
            &&& s.tearing == d.tearing
            &&& pen.last matches Some(p) ==> exists|r: int|
                #![trigger diff::line(next, a.area.width as int, r)]
                0 <= r < n && p.y == a.area.y + r && p.x == diff::last_column(
                    diff::line(next, a.area.width as int, r),
                ) + 1
        }),
    decreases n,
{
    let commands = diff::clears(a, next, n);
    showing::lemma_no_modifier();
    if n == 0 {
        assert(d.carried(draw::strokes(commands)) == d);
    } else {
        let w = a.area.width as int;
        let h = a.area.height as int;
        let r = n - 1;
        let new_line = diff::line(next, w, r);
        let before = diff::clears(a, next, r);
        let more = diff::row_clear(a, next, r);
        lemma_clear_strokes(d, a, next, r);
        if diff::needs_clear(diff::line(a.cells, w, r), new_line) {
            let command = more[0];
            let s = d.carried(draw::strokes(before));
            let pen = draw::pen_after(before);
            assert(commands.drop_last() =~= before);
            assert(commands.last() == command);
            buffer::lemma_cells(a.area);
            lemma_line(a.cells, w, h, r);
            lemma_line(next, w, h, r);
            rows::lemma_last_column(new_line, 0);
            assert(draw::place(command).y == a.area.y + r);
            assert(!pen.is_next(draw::place(command)));
            lemma_command(s, pen, command);
            display::lemma_carried(d, draw::strokes(before), pen.ops(command));
            assert(draw::place(command).x == diff::last_column(new_line) + 1);
        } else {
            assert(commands =~= before);
        }
    }
}

/// The cursor stands behind what was last drawn: a cell, or the start of what was cleared.
spec fn cursor_known(s: Display, pen: Pen, a: Grid, next: Seq<CellView>, n: int) -> bool {
    let w = a.area.width as int;
    pen.last matches Some(p) ==> {
        ||| exists|m: int|
            #![trigger next[m]]
            0 <= m < n && p.x == a.column(m) && p.y == a.row(m) && s.x == p.x + diff::columns(
                next[m],
            ) && s.y == p.y
        ||| exists|r: int|
            #![trigger diff::line(next, w, r)]
            0 <= r < a.area.height && p.y == a.area.y + r && p.x == diff::last_column(
                diff::line(next, w, r),
            ) + 1
    }
}

/// Where the next cell follows on the last drawn one, the cursor stands there.
proof fn lemma_cursor(s: Display, pen: Pen, a: Grid, next: Seq<CellView>, i: int)
    requires
        drawable(s.rows, a, next),
        0 <= i < a.cells.len(),
        diff::needs_put(a, next, i),
        cursor_known(s, pen, a, next, i),
        pen.is_next(Position { x: a.column(i) as u16, y: a.row(i) as u16 }),
    ensures
        s.x == a.column(i),
        s.y == a.row(i),
{
    let w = a.area.width as int;
    let h = a.area.height as int;
    let c = i % w;
    let p = pen.last->0;
    lemma_cell(a, i);
    lemma_needs_put(a, next, i);
    buffer::lemma_cells(a.area);
    if exists|m: int|
        #![trigger next[m]]
        0 <= m < i && p.x == a.column(m) && p.y == a.row(m) && s.x == p.x + diff::columns(next[m])
            && s.y == p.y {
        let m = choose|m: int|
            #![trigger next[m]]
            0 <= m < i && p.x == a.column(m) && p.y == a.row(m) && s.x == p.x + diff::columns(
                next[m],
            ) && s.y == p.y;
        lemma_cell(a, m);
        assert(m / w == i / w);
        assert(m == i - 1);
        lemma_columns_before(next, w, h, i / w, c);
    } else {
        let r = choose|r: int|
            #![trigger diff::line(next, w, r)]
            0 <= r < a.area.height && p.y == a.area.y + r && p.x == diff::last_column(
                diff::line(next, w, r),
            ) + 1;
        assert(r == i / w);
    }
}

/// A screen of which all rows have their length keeps that through the changes.
proof fn lemma_still_drawable(
    tearing: Tearing,
    seen: Seq<Seq<Glyph>>,
    a: Grid,
    next: Seq<CellView>,
    n: int,
)
    requires
        drawable(seen, a, next),
        0 <= n <= a.cells.len(),
    ensures
        drawable(
            changed_all(
                tearing,
                seen,
                diff::clears(a, next, a.area.height as int) + diff::puts(a, next, n),
            ),
            a,
            next,
        ),
{
    let h = a.area.height as int;
    let w = a.area.width as int;
    let start = rows_cleared(tearing, seen, a, next, h);
    lemma_clears(tearing, seen, a, next, h);
    lemma_changed_all(tearing, seen, diff::clears(a, next, h), diff::puts(a, next, n));
    assert forall|y: int| 0 <= y < start.len() implies (#[trigger] start[y]).len() == w by {
        assert(seen[y].len() == w);
    }
    lemma_puts(tearing, start, a, next, n);
    let now = rows_redrawn(tearing, start, a, next, n);
    assert forall|y: int| 0 <= y < now.len() implies (#[trigger] now[y]).len() == w by {
        if a.area.y <= y < a.area.y + h {
            lemma_redrawn_len(
                tearing,
                start[y],
                diff::line(a.cells, w, y - a.area.y),
                diff::line(next, w, y - a.area.y),
                done_in_row(w, y - a.area.y, n),
            );
        }
        assert(start[y].len() == w);
    }
}

/// Drawing the cells of a row keeps its length.
proof fn lemma_redrawn_len(
    tearing: Tearing,
    seen: Seq<Glyph>,
    old_line: Seq<CellView>,
    new_line: Seq<CellView>,
    n: int,
)
    ensures
        rows::redrawn(tearing, seen, old_line, new_line, n).len() == seen.len(),
    decreases n,
{
    if n > 0 {
        lemma_redrawn_len(tearing, seen, old_line, new_line, n - 1);
    }
}

/// The clearings, and the showings among the first `n` cells, are carried out.
proof fn lemma_strokes(d: Display, a: Grid, next: Seq<CellView>, n: int)
    requires
        drawable(d.rows, a, next),
        d.is_plain(),
        0 <= n <= a.cells.len(),
        faithful_all(diff::clears(a, next, a.area.height as int) + diff::puts(a, next, n)),
    ensures
        ({
            let commands = diff::clears(a, next, a.area.height as int) + diff::puts(a, next, n);
            let s = d.carried(draw::strokes(commands));
            let pen = draw::pen_after(commands);
            &&& in_step(s, pen)
            &&& s.rows == changed_all(d.tearing, d.rows, commands)
            &&& s.history == d.history
            &&& s.tearing == d.tearing
            &&& cursor_known(s, pen, a, next, n)
        }),
    decreases n,
{
    let w = a.area.width as int;
    let h = a.area.height as int;
    let clears = diff::clears(a, next, h);
    let commands = clears + diff::puts(a, next, n);
    if n == 0 {
        assert(commands =~= clears);
        lemma_clear_strokes(d, a, next, h);
    } else {
        let i = n - 1;
        let before = clears + diff::puts(a, next, i);
        if diff::needs_put(a, next, i) {
            let command = DrawCommandOf::Put {
                x: a.column(i) as u16,
                y: a.row(i) as u16,
                cell: next[i],
            };
            assert(commands.drop_last() =~= before);
            assert(commands.last() == command);
            lemma_strokes(d, a, next, i);
            let s = d.carried(draw::strokes(before));
            let pen = draw::pen_after(before);
            lemma_still_drawable(d.tearing, d.rows, a, next, i);
            lemma_cell(a, i);
            if pen.is_next(draw::place(command)) {
                lemma_cursor(s, pen, a, next, i);
            }
            lemma_needs_put(a, next, i);
            buffer::lemma_cells(a.area);
            lemma_line(next, w, h, i / w);
            assert(rows::is_tidy(diff::line(next, w, i / w), i % w));
            lemma_command(s, pen, command);
            display::lemma_carried(d, draw::strokes(before), pen.ops(command));
            assert(next[i] == next[n - 1]);
        } else {
            assert(commands =~= before);
            lemma_strokes(d, a, next, i);
        }
    }
}

/// What draws the changes makes a screen that shows a grid show other cells in its place. The
/// other rows and the history stay, and the terminal prints in its own look again.
pub proof fn law_screen_shows_what_was_drawn(d: Display, a: Grid, next: Seq<CellView>)
    requires
        drawable(d.rows, a, next),
        grid_shown(d.rows, a),
        tears_off(d.tearing, d.rows, a, next),
        d.is_plain(),
        faithful_all(diff::changes(a, next)),
    ensures
        ({
            let s = d.carried(draw::drawing(diff::changes(a, next)));
            &&& grid_shown(s.rows, Grid { area: a.area, cells: next })
            &&& s.is_plain()
            &&& s.history == d.history
            &&& s.tearing == d.tearing
            &&& s.rows.len() == d.rows.len()
            &&& forall|y: int| 0 <= y < s.rows.len() ==> (#[trigger] s.rows[y]).len()
                == d.rows[y].len()
            &&& forall|y: int|
                0 <= y < s.rows.len() && !(a.area.y <= y < a.area.y + a.area.height) ==> s.rows[y]
                    == #[trigger] d.rows[y]
        }),
{
    let commands = diff::changes(a, next);
    lemma_strokes(d, a, next, a.cells.len() as int);
    law_changes_show_what_was_drawn(d.tearing, d.rows, a, next);
    let b = d.carried(draw::strokes(commands));
    display::lemma_carried(d, draw::strokes(commands), draw::plain_look());
    let o1 = OpOf::SetForegroundColor(TermColor::Reset);
    let o2 = OpOf::SetBackgroundColor(TermColor::Reset);
    let o3 = OpOf::SetAttribute(Attribute::Reset);
    assert(draw::plain_look() =~= seq![o1] + seq![o2] + seq![o3]);
    display::lemma_carried(b, seq![o1] + seq![o2], seq![o3]);
    display::lemma_carried(b, seq![o1], seq![o2]);
    display::lemma_carried_one(b, o1);
    display::lemma_carried_one(b.after(o1), o2);
    display::lemma_carried_one(b.after(o1).after(o2), o3);
}

/// Operations that change neither the rows of a screen nor its history, nor how the terminal
/// prints.
pub open spec fn is_calm(op: OpView) -> bool {
    match op {
        OpOf::MoveTo { .. } => true,
        OpOf::Hide => true,
        OpOf::Show => true,
        OpOf::BeginSynchronizedUpdate => true,
        OpOf::EndSynchronizedUpdate => true,
        OpOf::Flush => true,
        OpOf::FlushWriter => true,
        _ => false,
    }
}

/// Whether two screens show the same, have the same history and print in the same look.
pub open spec fn same_screen(a: Display, b: Display) -> bool {
    &&& a.rows == b.rows
    &&& a.history == b.history
    &&& a.fg == b.fg
    &&& a.bg == b.bg
    &&& a.attributes == b.attributes
    &&& a.tearing == b.tearing
}

/// Calm operations leave the screen as it is.
pub proof fn lemma_calm(d: Display, ops: Seq<OpView>)
    requires
        forall|i: int| 0 <= i < ops.len() ==> is_calm(#[trigger] ops[i]),
    ensures
        same_screen(d.carried(ops), d),
    decreases ops.len(),
{
    if ops.len() > 0 {
        let before = ops.drop_last();
        assert forall|i: int| 0 <= i < before.len() implies is_calm(#[trigger] before[i]) by {
            assert(before[i] == ops[i]);
        }
        lemma_calm(d, before);
        assert(is_calm(ops[ops.len() - 1]));
    }
}

/// What a terminal is told to show a frame, of which only the drawing changes the screen.
pub proof fn lemma_presented(t: TerminalView, cursor: Option<Position>, d: Display)
    ensures
        ({
            let u = t.presented(cursor);
            let s = d.carried(insertion::since(t, u));
            let drawn = if t.updates().len() == 0 {
                d
            } else {
                d.carried(draw::drawing(t.updates()))
            };
            &&& u.output == t.output + insertion::since(t, u)
            &&& same_screen(s, drawn)
        }),
{
    let f = t.flushed();
    let u = t.presented(cursor);
    let rest = insertion::since(f, u);
    assert(f.output =~= t.output + insertion::since(t, f));
    assert(u.output =~= f.output + rest);
    assert forall|i: int| 0 <= i < rest.len() implies is_calm(#[trigger] rest[i]) by {
        assert(rest[i] == u.output[f.output.len() + i]);
    }
    insertion::lemma_since(t, f, u);
    display::lemma_carried(d, insertion::since(t, f), rest);
    lemma_calm(d.carried(insertion::since(t, f)), rest);
    if t.updates().len() == 0 {
        assert(insertion::since(t, f) =~= Seq::empty());
    } else {
        assert(insertion::since(t, f) =~= draw::drawing(t.updates()));
    }
}

impl TerminalView {
    /// Whether the screen shows in the viewport what the terminal takes it to show.
    pub open spec fn knows(self, d: Display) -> bool {
        &&& grid_shown(d.rows, self.previous)
        &&& d.is_plain()
    }

    /// Whether a frame that has been drawn can be shown on a screen.
    pub open spec fn can_show(self, d: Display) -> bool {
        &&& self.viewport_area.x == 0
        &&& self.viewport_area.y + self.viewport_area.height <= d.rows.len() <= u16::MAX
        &&& forall|y: int|
            0 <= y < d.rows.len() ==> (#[trigger] d.rows[y]).len() == self.viewport_area.width
        &&& tidy(
            self.previous.cells,
            self.viewport_area.width as int,
            self.viewport_area.height as int,
        )
        &&& tidy(
            self.current.cells,
            self.viewport_area.width as int,
            self.viewport_area.height as int,
        )
        &&& all_drawn(
            self.current.cells,
            self.viewport_area.width as int,
            self.viewport_area.height as int,
        )
        &&& tears_off(d.tearing, d.rows, self.previous, self.current.cells)
        &&& faithful_all(self.updates())
    }
}

/// A frame that is shown: the screen shows in the viewport the cells that were drawn, and what the
/// terminal takes it to show there is that. The rows above and below, and the history, stay.
pub proof fn law_presented_frame_is_shown(t: TerminalView, cursor: Option<Position>, d: Display)
    requires
        t.wf(),
        t.knows(d),
        t.can_show(d),
    ensures
        ({
            let u = t.presented(cursor);
            let s = d.carried(insertion::since(t, u));
            let y = t.viewport_area.y as int;
            let h = t.viewport_area.height as int;
            &&& u.previous == t.current
            &&& u.knows(s)
            &&& s.history == d.history
            &&& s.tearing == d.tearing
            &&& s.rows.len() == d.rows.len()
            &&& forall|i: int| 0 <= i < s.rows.len() ==> (#[trigger] s.rows[i]).len()
                == d.rows[i].len()
            &&& forall|i: int|
                0 <= i < s.rows.len() && !(y <= i < y + h) ==> s.rows[i] == #[trigger] d.rows[i]
        }),
{
    let a = t.previous;
    let next = t.current.cells;
    lemma_presented(t, cursor, d);
    if t.viewport_area.width == 0 && t.viewport_area.height == 0 {
        buffer::lemma_cells(a.area);
        assert(a.area.height * a.area.width == 0) by (nonlinear_arith)
            requires
                a.area.height == 0,
        ;
        assert(t.updates() =~= Seq::empty());
    } else {
        assert(a.area == t.viewport_area);
        law_screen_shows_what_was_drawn(d, a, next);
        assert(Grid { area: a.area, cells: next } == t.current);
        if t.updates().len() == 0 {
            law_changes_show_what_was_drawn(d.tearing, d.rows, a, next);
            assert(changed_all(d.tearing, d.rows, t.updates()) == d.rows);
        }
    }
}

/// Drawing the frame that the screen shows, with the cursor where it is, tells the terminal
/// nothing.
pub proof fn law_redrawing_tells_nothing(t: TerminalView, cursor: Option<Position>)
    requires
        t.wf(),
        t.current == t.previous,
        no_wider_than_two(t.previous.cells),
        forall|i: int|
            0 <= i < t.previous.cells.len() ==> !diff::is_invalid(#[trigger] t.previous.cells[i]),
        cursor matches Some(p) ==> !t.hidden_cursor && p == t.last_known_cursor_pos,
        cursor is None ==> t.hidden_cursor,
    ensures
        t.presented(cursor).output == t.output,
{
    law_shown_grid_needs_no_change(t.previous);
}

/// Drawing a frame again, right after it was drawn, tells the terminal nothing and leaves the
/// cursor as it is.
pub proof fn law_drawing_twice_tells_nothing(
    t: TerminalView,
    size: Size,
    grid: Grid,
    cursor: Option<Position>,
)
    requires
        t.wf(),
        grid.wf(),
        grid.area == t.current.area,
        no_wider_than_two(grid.cells),
        forall|i: int| 0 <= i < grid.cells.len() ==> !diff::is_invalid(#[trigger] grid.cells[i]),
    ensures
        ({
            let u = t.on_screen(size).with_current(grid).presented(cursor);
            let v = u.on_screen(size).with_current(grid).presented(cursor);
            &&& v.output == u.output
            &&& v.hidden_cursor == u.hidden_cursor
            &&& v.last_known_cursor_pos == u.last_known_cursor_pos
            &&& v.previous == u.previous
            &&& v.viewport_area == u.viewport_area
        }),
{
    let u = t.on_screen(size).with_current(grid).presented(cursor);
    let again = u.on_screen(size).with_current(grid);
    assert(u.previous == grid);
    law_shown_grid_needs_no_change(grid);
    assert(again.flushed() == again);
}

/// Whatever the screen shows in a viewport of which nothing is known, the terminal takes it to
/// show nothing else, so that the next frame is drawn anew.
pub proof fn law_invalidated_viewport_is_drawn_anew(t: TerminalView, d: Display)
    requires
        t.wf(),
        d.is_plain(),
        t.viewport_area.y + t.viewport_area.height <= d.rows.len(),
        forall|y: int|
            0 <= y < d.rows.len() ==> (#[trigger] d.rows[y]).len() == t.viewport_area.width,
    ensures
        t.invalidated().knows(d),
{
    let grid = t.previous.invalid();
    let w = grid.area.width as int;
    let h = grid.area.height as int;
    buffer::lemma_cells(grid.area);
    assert(0x020u16 & 0x020u16 == 0x020u16) by (bit_vector);
    assert forall|r: int| 0 <= r < h implies rows::row_shown(
        d.rows[grid.area.y + r],
        #[trigger] diff::line(grid.cells, w, r),
    ) by {
        lemma_line(grid.cells, w, h, r);
        let line = diff::line(grid.cells, w, r);
        assert(d.rows[grid.area.y + r].len() == w);
        assert forall|c: int| 0 <= c < line.len() implies diff::is_invalid(line[c]) by {
            assert(line[c] == grid.cells[r * w + c]);
        }
    }
}

} // verus!
