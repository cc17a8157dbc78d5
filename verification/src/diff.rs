//! What has to be drawn so that the screen shows one buffer in place of another.

use vstd::prelude::*;

use crate::buffer;
use crate::buffer::Buffer;
use crate::buffer::Cell;
use crate::buffer::CellView;
use crate::buffer::Grid;
use crate::style::Color;
use crate::style::Modifier;
use crate::style::RAPID_BLINK;
use crate::text;

verus! {

/// One change to the screen.
#[derive(Debug)]
#[verifier::ext_equal]
pub enum DrawCommandOf<C> {
    /// Shows a cell at a place.
    Put { x: u16, y: u16, cell: C },
    /// Clears a row from a place on.
    ClearToEnd { x: u16, y: u16, bg: Color },
}

/// A change to the screen.
pub type DrawCommand = DrawCommandOf<Cell>;

/// What a change to the screen holds.
pub type DrawCommandView = DrawCommandOf<CellView>;

impl View for DrawCommandOf<Cell> {
    type V = DrawCommandOf<CellView>;

    open spec fn view(&self) -> DrawCommandOf<CellView> {
        match *self {
            DrawCommandOf::Put { x, y, cell } => DrawCommandOf::Put { x, y, cell: cell@ },
            DrawCommandOf::ClearToEnd { x, y, bg } => DrawCommandOf::ClearToEnd { x, y, bg },
        }
    }
}

impl DrawCommandOf<Cell> {
    /// Whether the change shows a cell.
    pub fn is_put(&self) -> (r: bool)
        ensures
            r == (self@ is Put),
    {
        match self {
            DrawCommandOf::Put { .. } => true,
            DrawCommandOf::ClearToEnd { .. } => false,
        }
    }
}

/// What several changes hold.
pub open spec fn views(commands: Seq<DrawCommand>) -> Seq<DrawCommandView> {
    commands.map_values(|c: DrawCommand| c@)
}

/// Appends a change.
fn push(commands: &mut Vec<DrawCommand>, command: DrawCommand)
    ensures
        views(final(commands)@) == views(old(commands)@).push(command@),
{
    commands.push(command);
    assert(views(commands@) =~= views(old(commands)@).push(command@));
}

/// Whether a cell says that the screen may show anything in its place.
pub open spec fn is_invalid(cell: CellView) -> bool {
    &&& cell.fg == Color::Indexed(255)
    &&& cell.bg == Color::Indexed(254)
    &&& cell.modifier.spec_contains(RAPID_BLINK)
}

/// Whether a cell says that the screen may show anything in its place.
pub fn is_invalidated_cell(cell: &Cell) -> (r: bool)
    ensures
        r == is_invalid(cell@),
{
    cell.fg == Color::Indexed(255) && cell.bg == Color::Indexed(254) && cell.modifier.contains(
        RAPID_BLINK,
    )
}

/// How many columns a cell takes on the screen.
pub open spec fn columns(cell: CellView) -> nat {
    text::text_columns(text::visible(cell.symbol))
}

/// Whether a cell looks like a cleared one on the background `bg`.
pub open spec fn is_blank(cell: CellView, bg: Color) -> bool {
    &&& cell.symbol == buffer::glyph(' ')
    &&& cell.bg == bg
    &&& cell.modifier == Modifier::spec_empty()
}

/// Whether a cell looks like a cleared one on the background `bg`.
fn looks_blank(cell: &Cell, bg: Color) -> (r: bool)
    ensures
        r == is_blank(cell@, bg),
{
    cell.shows(' ') && cell.bg == bg && cell.modifier == Modifier::empty()
}

/// The `y`-th row of cells, each row having `w` of them.
pub open spec fn line(cells: Seq<CellView>, w: int, y: int) -> Seq<CellView> {
    cells.subrange(y * w, (y + 1) * w)
}

/// The background that the row ends in.
pub open spec fn end_color(row: Seq<CellView>) -> Color {
    if row.len() == 0 {
        Color::Reset
    } else {
        row.last().bg
    }
}

/// The last column that the cells of `row` from `column` on cover with something other than
/// `bg`; `last` where there is none. Cells that lie behind a wide one do not count.
pub open spec fn last_drawn(row: Seq<CellView>, bg: Color, column: int, last: int) -> int
    decreases crate::geometry::greatest(row.len() - column, 0),
{
    if column >= row.len() {
        last
    } else {
        let w = columns(row[column]) as int;
        let covered = crate::geometry::least(
            column + crate::geometry::greatest(w - 1, 0),
            usize::MAX as int,
        );
        last_drawn(
            row,
            bg,
            column + crate::geometry::greatest(w, 1),
            if is_blank(row[column], bg) {
                last
            } else {
                covered
            },
        )
    }
}

/// The last column of a row that is drawn rather than cleared; the first, where all are blank.
pub open spec fn last_column(row: Seq<CellView>) -> int {
    last_drawn(row, end_color(row), 0, 0)
}

/// Whether a row shows something else than `bg` behind the column `last`.
pub open spec fn stale_behind(row: Seq<CellView>, last: int, bg: Color) -> bool {
    exists|k: int|
        last < k < row.len() && (is_invalid(#[trigger] row[k]) || !is_blank(row[k], bg))
}

/// Whether the screen, which shows `old`, has to be cleared behind the last drawn column of `new`.
pub open spec fn needs_clear(old: Seq<CellView>, new: Seq<CellView>) -> bool {
    stale_behind(old, last_column(new), end_color(new))
}

/// The clearing of the row `y`, if there is one.
pub open spec fn row_clear(a: Grid, next: Seq<CellView>, y: int) -> Seq<DrawCommandView> {
    let w = a.area.width as int;
    if needs_clear(line(a.cells, w, y), line(next, w, y)) {
        seq![
            DrawCommandOf::ClearToEnd {
                x: (a.area.x + last_column(line(next, w, y)) + 1) as u16,
                y: (a.area.y + y) as u16,
                bg: end_color(line(next, w, y)),
            },
        ]
    } else {
        Seq::empty()
    }
}

/// The clearings of the first `n` rows.
pub open spec fn clears(a: Grid, next: Seq<CellView>, n: int) -> Seq<DrawCommandView>
    decreases n,
{
    if n <= 0 {
        Seq::empty()
    } else {
        clears(a, next, n - 1) + row_clear(a, next, n - 1)
    }
}

/// How many cells from the `i`-th on the screen may show wrongly, because a wider cell stood or
/// stands before them.
pub open spec fn spoiled(old: Seq<CellView>, new: Seq<CellView>, i: int) -> int
    decreases i,
{
    if i <= 0 {
        0
    } else {
        let affected = crate::geometry::greatest(
            columns(new[i - 1]) as int,
            columns(old[i - 1]) as int,
        );
        crate::geometry::greatest(
            crate::geometry::greatest(affected, spoiled(old, new, i - 1)) - 1,
            0,
        )
    }
}

/// Whether the cell `i` lies behind a wide one.
pub open spec fn covered(new: Seq<CellView>, i: int) -> bool {
    i > 0 && columns(new[i - 1]) > 1
}

/// Whether the cell `i` has to be shown anew.
pub open spec fn needs_put(a: Grid, next: Seq<CellView>, i: int) -> bool {
    &&& !next[i].skip
    &&& is_invalid(a.cells[i]) || next[i] != a.cells[i] || spoiled(a.cells, next, i) > 0
    &&& !covered(next, i)
    &&& a.column(i) <= last_column(line(next, a.area.width as int, i / (a.area.width as int)))
        % 65536
}

/// The showings among the first `n` cells.
pub open spec fn puts(a: Grid, next: Seq<CellView>, n: int) -> Seq<DrawCommandView>
    decreases n,
{
    if n <= 0 {
        Seq::empty()
    } else if needs_put(a, next, n - 1) {
        puts(a, next, n - 1).push(
            DrawCommandOf::Put {
                x: a.column(n - 1) as u16,
                y: a.row(n - 1) as u16,
                cell: next[n - 1],
            },
        )
    } else {
        puts(a, next, n - 1)
    }
}

/// The changes that make a screen which shows `a` show the cells `next`.
pub open spec fn changes(a: Grid, next: Seq<CellView>) -> Seq<DrawCommandView> {
    clears(a, next, a.area.height as int) + puts(a, next, a.cells.len() as int)
}

/// The background that a row of cells ends in.
fn color_at_end(cells: &Vec<Cell>, start: usize, end: usize) -> (r: Color)
    requires
        start <= end <= cells@.len(),
    ensures
        r == end_color(buffer::views(cells@).subrange(start as int, end as int)),
{
    if start == end {
        Color::Reset
    } else {
        cells[end - 1].bg
    }
}

/// The last column of a row that is drawn rather than cleared.
fn last_drawn_column(cells: &Vec<Cell>, start: usize, end: usize, bg: Color) -> (r: usize)
    requires
        start <= end <= cells@.len(),
        bg == end_color(buffer::views(cells@).subrange(start as int, end as int)),
    ensures
        r == last_column(buffer::views(cells@).subrange(start as int, end as int)),
{
    let ghost row = buffer::views(cells@).subrange(start as int, end as int);
    let mut last: usize = 0;
    let mut column: usize = 0;
    while column < end - start
        invariant
            start <= end <= cells@.len(),
            row == buffer::views(cells@).subrange(start as int, end as int),
            last_column(row) == last_drawn(row, bg, column as int, last as int),
        decreases crate::geometry::greatest(end - start - column, 0),
    {
        let cell: &Cell = &cells[start + column];
        assert(row[column as int] == cell@);
        let w: usize = text::display_width(cell.symbol.as_str());
        if !looks_blank(cell, bg) {
            last = column.saturating_add(w.saturating_sub(1));
        }
        let step: usize = if w > 1 {
            w
        } else {
            1
        };
        if step >= end - start - column {
            proof {
                reveal_with_fuel(last_drawn, 2);
            }
            return last;
        }
        column += step;
    }
    last
}

/// Whether the screen has to be cleared behind the column `last` of a row.
fn row_is_stale(
    cells: &Vec<Cell>,
    start: usize,
    end: usize,
    last: usize,
    bg: Color,
) -> (r: bool)
    requires
        start <= end <= cells@.len(),
    ensures
        r == stale_behind(
            buffer::views(cells@).subrange(start as int, end as int),
            last as int,
            bg,
        ),
{
    let ghost row = buffer::views(cells@).subrange(start as int, end as int);
    if last >= end - start {
        return false;
    }
    let mut k: usize = last + 1;
    while k < end - start
        invariant
            start <= end <= cells@.len(),
            last < k,
            row == buffer::views(cells@).subrange(start as int, end as int),
            forall|j: int|
                last < j < k && j < end - start ==> !is_invalid(#[trigger] row[j]) && is_blank(
                    row[j],
                    bg,
                ),
        decreases end - start - k,
    {
        let cell: &Cell = &cells[start + k];
        assert(row[k as int] == cell@);
        if is_invalidated_cell(cell) || !looks_blank(cell, bg) {
            return true;
        }
        k += 1;
    }
    false
}

/// The larger of two counts.
fn max_usize(a: usize, b: usize) -> (r: usize)
    ensures
        r == crate::geometry::greatest(a as int, b as int),
{
    if a >= b {
        a
    } else {
        b
    }
}

/// The changes that make a screen which shows the buffer `a` show the buffer `b`.
pub fn diff_buffers(a: &Buffer, b: &Buffer) -> (r: Vec<DrawCommand>)
    requires
        a@.wf(),
        a.area.fits(),
        a.content@.len() <= b.content@.len(),
    ensures
        views(r@) == changes(a@, b@.cells),
{
    let mut updates: Vec<DrawCommand> = Vec::new();
    let mut last_columns: Vec<u16> = Vec::new();
    let w: usize = a.area.width as usize;
    let h: u16 = a.area.height;
    let ghost next = b@.cells;
    let mut y: u16 = 0;
    let mut start: usize = 0;
    assert(views(updates@) =~= clears(a@, next, 0));
    while y < h
        invariant
            a@.wf(),
            a.area.fits(),
            a.content@.len() <= b.content@.len(),
            next == b@.cells,
            w == a.area.width,
            h == a.area.height,
            y <= h,
            start == y * w,
            views(updates@) == clears(a@, next, y as int),
            last_columns@.len() == y,
            forall|k: int|
                0 <= k < y ==> #[trigger] last_columns@[k] == last_column(line(next, w as int, k))
                    % 65536,
        decreases h - y,
    {
        assert((y + 1) * w == y * w + w) by (nonlinear_arith);
        assert((y + 1) * w <= h * w) by (nonlinear_arith)
            requires
                y + 1 <= h,
                0 <= w,
        ;
        assert(h * w == a.area.cells()) by (nonlinear_arith)
            requires
                a.area.cells() == a.area.width as nat * a.area.height as nat,
                w == a.area.width,
                h == a.area.height,
        ;
        assert(start + w <= a.content.len());
        let end: usize = start + w;
        let bg: Color = color_at_end(&b.content, start, end);
        let last: usize = last_drawn_column(&b.content, start, end, bg);
        let ghost row = line(next, w as int, y as int);
        assert(row == buffer::views(b.content@).subrange(start as int, end as int));
        assert(line(a@.cells, w as int, y as int) == buffer::views(a.content@).subrange(
            start as int,
            end as int,
        ));
        if row_is_stale(&a.content, start, end, last, bg) {
            assert(last + 1 < w + 1);
            assert(needs_clear(line(a@.cells, w as int, y as int), row));
            push(
                &mut updates,
                DrawCommandOf::ClearToEnd {
                    x: a.area.x + (last + 1) as u16,
                    y: a.area.y + y,
                    bg,
                },
            );
        }
        assert(views(updates@) =~= clears(a@, next, y + 1));
        assert((last as u16) == last % 65536) by (bit_vector);
        last_columns.push(last as u16);
        start = end;
        y += 1;
    }
    let mut i: usize = 0;
    let mut spoil: usize = 0;
    let mut to_skip: usize = 0;
    assert(views(updates@) =~= clears(a@, next, h as int) + puts(a@, next, 0));
    while i < a.content.len()
        invariant
            a@.wf(),
            a.area.fits(),
            a.content@.len() <= b.content@.len(),
            next == b@.cells,
            w == a.area.width,
            h == a.area.height,
            i <= a.content@.len(),
            last_columns@.len() == h,
            forall|k: int|
                0 <= k < h ==> #[trigger] last_columns@[k] == last_column(line(next, w as int, k))
                    % 65536,
            spoil == spoiled(a@.cells, next, i as int),
            to_skip > 0 <==> covered(next, i as int),
            views(updates@) == clears(a@, next, h as int) + puts(a@, next, i as int),
        decreases a.content.len() - i,
    {
        proof {
            buffer::lemma_place(a.area, i as int);
        }
        let current: &Cell = &b.content[i];
        let previous: &Cell = &a.content[i];
        assert(next[i as int] == current@);
        assert(a@.cells[i as int] == previous@);
        if !current.skip && (is_invalidated_cell(previous) || !current.same(previous) || spoil > 0)
            && to_skip == 0 {
            let place = a.pos_of(i);
            if place.x <= last_columns[i / w] {
                push(
                    &mut updates,
                    DrawCommandOf::Put { x: place.x, y: place.y, cell: current.clone() },
                );
            }
        }
        assert(views(updates@) =~= clears(a@, next, h as int) + puts(a@, next, i + 1));
        let wide: usize = text::display_width(current.symbol.as_str());
        to_skip = wide.saturating_sub(1);
        let affected: usize = max_usize(wide, text::display_width(previous.symbol.as_str()));
        spoil = max_usize(affected, spoil).saturating_sub(1);
        i += 1;
    }
    updates
}

} // verus!
