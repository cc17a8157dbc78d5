//! The grid of cells that is drawn into, and the operations that move whole rows of it.

use ratatui::buffer::CellWidth;
use vstd::prelude::*;

use crate::geometry::Position;
use crate::geometry::Rect;
use crate::style;
use crate::style::Color;
use crate::style::Modifier;
use crate::style::Style;
use crate::style::RAPID_BLINK;
use crate::text;

verus! {

/// What a cell asks of the comparison with what the screen shows.
#[derive(Debug, Clone, Copy, PartialEq, Eq, Hash, Structural)]
pub enum DiffOption {
    Plain,
    Skip,
    AlwaysUpdate,
    ForcedWidth(u16),
}

/// A cell: the text it shows and its look.
#[derive(Debug, PartialEq, Eq, Hash)]
#[verifier::ext_equal]
pub struct CellOf<S> {
    pub symbol: S,
    pub fg: Color,
    pub bg: Color,
    pub underline_color: Color,
    pub modifier: Modifier,
    pub diff_option: DiffOption,
    pub skip: bool,
}

/// A cell.
pub type Cell = CellOf<String>;

/// What a cell holds.
pub type CellView = CellOf<Seq<char>>;

impl View for CellOf<String> {
    type V = CellOf<Seq<char>>;

    open spec fn view(&self) -> CellOf<Seq<char>> {
        CellOf {
            symbol: self.symbol@,
            fg: self.fg,
            bg: self.bg,
            underline_color: self.underline_color,
            modifier: self.modifier,
            diff_option: self.diff_option,
            skip: self.skip,
        }
    }
}

/// The text of one character.
pub open spec fn glyph(ch: char) -> Seq<char> {
    seq![ch]
}

/// The text of one character.
pub(crate) fn one_char(ch: char) -> (r: String)
    ensures
        r@ == glyph(ch),
{
    let mut text: String = String::new();
    text.push(ch);
    assert(text@ =~= glyph(ch));
    text
}

/// The cell that shows nothing, in the terminal's own look.
pub open spec fn blank() -> CellView {
    CellOf {
        symbol: glyph(' '),
        fg: Color::Reset,
        bg: Color::Reset,
        underline_color: Color::Reset,
        modifier: Modifier::spec_empty(),
        diff_option: DiffOption::Plain,
        skip: false,
    }
}

impl Clone for CellOf<String> {
    fn clone(&self) -> (r: CellOf<String>)
        ensures
            r@ == self@,
    {
        CellOf {
            symbol: self.symbol.clone(),
            fg: self.fg,
            bg: self.bg,
            underline_color: self.underline_color,
            modifier: self.modifier,
            diff_option: self.diff_option,
            skip: self.skip,
        }
    }
}

impl CellOf<Seq<char>> {
    /// The cell with another text.
    pub open spec fn with_symbol(self, symbol: Seq<char>) -> CellView {
        CellOf { symbol, ..self }
    }

    /// The cell with a style laid over its look.
    pub open spec fn with_style(self, style: Style) -> CellView {
        CellOf {
            fg: if style.fg is Some {
                style.fg->0
            } else {
                self.fg
            },
            bg: if style.bg is Some {
                style.bg->0
            } else {
                self.bg
            },
            underline_color: if style.underline_color is Some {
                style.underline_color->0
            } else {
                self.underline_color
            },
            modifier: self.modifier.spec_union(style.add_modifier).spec_difference(
                style.sub_modifier,
            ),
            ..self
        }
    }
}

/// A style that is laid over a cell changes what it speaks of, and nothing else: a colour that it
/// gives is the cell's, a modifier that it takes away is gone, and one that it adds, and does not
/// take away, is there.
pub proof fn law_style_is_laid_over_a_cell(cell: CellView, style: Style, flag: u16)
    requires
        style::is_flag(flag),
    ensures
        ({
            let now = cell.with_style(style);
            &&& style.fg matches Some(color) ==> now.fg == color
            &&& style.fg is None ==> now.fg == cell.fg
            &&& style.bg matches Some(color) ==> now.bg == color
            &&& style.bg is None ==> now.bg == cell.bg
            &&& style.underline_color matches Some(color) ==> now.underline_color == color
            &&& style.underline_color is None ==> now.underline_color == cell.underline_color
            &&& style.sub_modifier.spec_contains(flag) ==> !now.modifier.spec_contains(flag)
            &&& !style.sub_modifier.spec_contains(flag) ==> (now.modifier.spec_contains(flag)
                <==> cell.modifier.spec_contains(flag) || style.add_modifier.spec_contains(flag))
            &&& now.symbol == cell.symbol
            &&& now.skip == cell.skip
            &&& now.diff_option == cell.diff_option
        }),
{
    style::law_modifiers_are_a_set(cell.modifier, style.add_modifier, flag);
    style::law_modifiers_are_a_set(
        cell.modifier.spec_union(style.add_modifier),
        style.sub_modifier,
        flag,
    );
}

/// A style that is patched by another, laid over a cell, gives it the look that the first and then
/// the other give it.
pub proof fn law_patched_style_is_both_styles(cell: CellView, a: Style, b: Style)
    ensures
        cell.with_style(a.spec_patch(b)) == cell.with_style(a).with_style(b),
{
    let m = cell.modifier.bits;
    let more = a.add_modifier.bits;
    let less = a.sub_modifier.bits;
    let more2 = b.add_modifier.bits;
    let less2 = b.sub_modifier.bits;
    assert((m | ((more & !less2) | more2)) & !((less & !more2) | less2) == (((m | more) & !less)
        | more2) & !less2) by (bit_vector);
}

/// The style that changes nothing changes no cell, and none that it patches or is patched by.
pub proof fn law_plain_style_changes_nothing(cell: CellView, style: Style)
    ensures
        cell.with_style(Style::spec_plain()) == cell,
        cell.with_style(style.spec_patch(Style::spec_plain())) == cell.with_style(style),
        cell.with_style(Style::spec_plain().spec_patch(style)) == cell.with_style(style),
{
    let m = cell.modifier.bits;
    assert((m | 0) & !0u16 == m) by (bit_vector);
    law_patched_style_is_both_styles(cell, style, Style::spec_plain());
    law_patched_style_is_both_styles(cell, Style::spec_plain(), style);
    let now = cell.with_style(style).modifier.bits;
    assert((now | 0) & !0u16 == now) by (bit_vector);
}

/// The colour of `new` where it is given, else `color`.
fn repaint(color: Color, new: Option<Color>) -> (r: Color)
    ensures
        r == (if new is Some {
            new->0
        } else {
            color
        }),
{
    match new {
        Some(c) => c,
        None => color,
    }
}

impl CellOf<String> {
    /// The cell that shows nothing.
    pub fn empty() -> (r: Cell)
        ensures
            r@ == blank(),
    {
        CellOf {
            symbol: one_char(' '),
            fg: Color::Reset,
            bg: Color::Reset,
            underline_color: Color::Reset,
            modifier: Modifier::empty(),
            diff_option: DiffOption::Plain,
            skip: false,
        }
    }

    /// Whether two cells hold the same.
    pub fn same(&self, other: &Cell) -> (r: bool)
        ensures
            r == (self@ == other@),
    {
        self.symbol == other.symbol && self.fg == other.fg && self.bg == other.bg
            && self.underline_color == other.underline_color && self.modifier == other.modifier
            && self.diff_option == other.diff_option && self.skip == other.skip
    }

    /// Whether the cell shows just the character `ch`.
    pub fn shows(&self, ch: char) -> (r: bool)
        ensures
            r == (self@.symbol == glyph(ch)),
    {
        let text: &str = self.symbol.as_str();
        let same = text.unicode_len() == 1 && text.get_char(0) == ch;
        proof {
            if text@.len() == 1 && text@[0] == ch {
                assert(text@ =~= glyph(ch));
            }
        }
        same
    }

    /// Gives the cell another text.
    pub fn set_symbol(&mut self, symbol: String)
        ensures
            final(self)@ == old(self)@.with_symbol(symbol@),
    {
        self.symbol = symbol;
    }

    /// Lays a style over the cell's look.
    pub fn set_style(&mut self, style: Style)
        ensures
            final(self)@ == old(self)@.with_style(style),
    {
        self.fg = repaint(self.fg, style.fg);
        self.bg = repaint(self.bg, style.bg);
        self.underline_color = repaint(self.underline_color, style.underline_color);
        self.modifier = self.modifier.union(style.add_modifier).difference(style.sub_modifier);
    }
}

/// A rectangle of cells, row by row.
#[derive(Debug, PartialEq, Eq, Hash)]
pub struct Buffer {
    pub area: Rect,
    pub content: Vec<Cell>,
}

/// What a buffer holds.
#[verifier::ext_equal]
pub struct Grid {
    pub area: Rect,
    pub cells: Seq<CellView>,
}

/// What several cells hold.
pub open spec fn views(cells: Seq<Cell>) -> Seq<CellView> {
    cells.map_values(|c: Cell| c@)
}

impl View for Buffer {
    type V = Grid;

    open spec fn view(&self) -> Grid {
        Grid { area: self.area, cells: views(self.content@) }
    }
}

impl Clone for Buffer {
    fn clone(&self) -> (r: Buffer)
        ensures
            r@ == self@,
    {
        let mut content: Vec<Cell> = Vec::new();
        let mut i: usize = 0;
        while i < self.content.len()
            invariant
                i <= self.content.len(),
                content@.len() == i,
                forall|k: int| 0 <= k < i ==> (#[trigger] content@[k])@ == self.content@[k]@,
            decreases self.content.len() - i,
        {
            content.push(self.content[i].clone());
            i += 1;
        }
        let buffer = Buffer { area: self.area, content };
        assert(buffer@ =~= self@);
        buffer
    }
}

/// So many cells that show nothing.
pub open spec fn blanks(n: nat) -> Seq<CellView> {
    Seq::new(n, |i: int| blank())
}

impl Grid {
    /// Whether there is one cell for each place of the area.
    pub open spec fn wf(self) -> bool {
        self.cells.len() == self.area.cells()
    }

    /// The grid of an area that shows nothing.
    pub open spec fn spec_empty(area: Rect) -> Grid {
        Grid { area, cells: blanks(area.cells()) }
    }

    /// The column of the screen that the cell `i` stands in.
    pub open spec fn column(self, i: int) -> int {
        self.area.x + i % (self.area.width as int)
    }

    /// The row of the screen that the cell `i` stands in.
    pub open spec fn row(self, i: int) -> int {
        self.area.y + i / (self.area.width as int)
    }

    /// Whether the place at column `x` and row `y` of the screen can be addressed in the grid.
    pub open spec fn holds(self, x: int, y: int) -> bool {
        &&& self.area.x <= x < self.area.spec_right()
        &&& self.area.y <= y < self.area.spec_bottom()
    }

    /// Where the cell at column `x` and row `y` of the screen stands.
    pub open spec fn index(self, x: int, y: int) -> int {
        (y - self.area.y) * self.area.width + (x - self.area.x)
    }

    /// The cell at column `x` and row `y` of the screen.
    pub open spec fn at(self, x: int, y: int) -> CellView {
        self.cells[self.index(x, y)]
    }

    /// The grid with each cell replaced by `f` of its number.
    pub open spec fn with_cells(self, f: spec_fn(int) -> CellView) -> Grid {
        Grid { area: self.area, cells: Seq::new(self.cells.len(), f) }
    }

    /// The cells of the `n`-th row of the grid.
    pub open spec fn line(self, n: int) -> Seq<CellView> {
        self.cells.subrange(n * self.area.width, (n + 1) * self.area.width)
    }
}

/// A cell of the grid stands at an index below the number of cells.
pub proof fn lemma_index(grid: Grid, x: int, y: int)
    requires
        grid.holds(x, y),
    ensures
        0 <= grid.index(x, y) < grid.area.cells(),
        grid.column(grid.index(x, y)) == x,
        grid.row(grid.index(x, y)) == y,
{
    let w = grid.area.width as int;
    let r = y - grid.area.y;
    let c = x - grid.area.x;
    assert(0 <= c < w);
    assert(0 <= r < grid.area.height);
    assert(0 <= r * w) by (nonlinear_arith)
        requires
            0 <= r,
            0 <= w,
    ;
    assert(r * w + w <= grid.area.height * w) by (nonlinear_arith)
        requires
            r + 1 <= grid.area.height,
            0 <= w,
    ;
    assert(grid.area.cells() == grid.area.height * w) by (nonlinear_arith)
        requires
            grid.area.cells() == grid.area.width as nat * grid.area.height as nat,
            w == grid.area.width,
    ;
    vstd::arithmetic::div_mod::lemma_fundamental_div_mod_converse(r * w + c, w, r, c);
}

/// An area holds so many rows of so many cells.
pub proof fn lemma_cells(area: Rect)
    ensures
        area.cells() == area.height * area.width,
{
    assert(area.width as nat * area.height as nat == area.height * area.width) by (nonlinear_arith);
}

/// Each cell of a grid stands in a column and a row of its area.
pub proof fn lemma_place(area: Rect, i: int)
    requires
        0 <= i < area.cells(),
    ensures
        0 < area.width,
        0 <= i % (area.width as int) < area.width,
        0 <= i / (area.width as int) < area.height,
        i == (i / (area.width as int)) * area.width + i % (area.width as int),
{
    let w = area.width as int;
    let h = area.height as int;
    assert(area.cells() == w * h);
    assert(w > 0) by (nonlinear_arith)
        requires
            0 <= i < w * h,
            0 <= w,
            0 <= h,
    ;
    vstd::arithmetic::div_mod::lemma_fundamental_div_mod(i, w);
    vstd::arithmetic::div_mod::lemma_mod_bound(i, w);
    assert(w * (i / w) == (i / w) * w) by (nonlinear_arith);
    assert(i / w < h) by (nonlinear_arith)
        requires
            i == (i / w) * w + i % w,
            0 <= i % w,
            i < w * h,
            w > 0,
    ;
    assert(0 <= i / w) by (nonlinear_arith)
        requires
            0 <= i,
            w > 0,
    ;
}

/// How many halfwidth voiced and semi-voiced sound marks a text holds.
pub open spec fn sound_marks(text: Seq<char>) -> nat {
    text.filter(|c: char| c == '\u{ff9e}' || c == '\u{ff9f}').len()
}

/// How many columns a text takes in a buffer: one, if it is a single ASCII character; else its
/// columns, and one more for each halfwidth sound mark, both counted in a `u16`.
pub open spec fn cell_columns(text: Seq<char>) -> u16 {
    if text.len() == 1 && text[0] <= '\u{7f}' {
        1
    } else {
        crate::geometry::plus(
            #[verifier::truncate]
            (text::text_columns(text) as u16),
            #[verifier::truncate]
            (sound_marks(text) as u16),
        )
    }
}

/// `<str as ratatui::buffer::CellWidth>::cell_width`: the columns that a text takes when it is
/// set into a buffer. It is one for a text of a single byte, and else what `UnicodeWidthStr::width`
/// gives, with one added for each halfwidth sound mark.
#[verifier::external_body]
pub(crate) fn symbol_width(symbol: &str) -> (r: u16)
    requires
        symbol@.len() == 1 ==> !text::is_control(symbol@[0]),
    ensures
        r == cell_columns(symbol@),
{
    symbol.cell_width()
}

/// The private-use character that stands in a cell which nothing has been drawn into.
pub const MEASUREMENT_MARK: char = '\u{e000}';

/// The cell that nothing has been drawn into.
pub open spec fn marked() -> CellView {
    blank().with_symbol(glyph(MEASUREMENT_MARK))
}

/// A cell whose look says that the screen may show anything in its place.
pub open spec fn invalidated(cell: CellView) -> CellView {
    CellOf {
        symbol: glyph(' '),
        fg: Color::Indexed(255),
        bg: Color::Indexed(254),
        modifier: Modifier { bits: RAPID_BLINK },
        ..cell
    }
}

impl Grid {
    /// The grid with its number of cells cut, or filled up with blanks, to those of `area`.
    pub open spec fn resized(self, area: Rect) -> Grid {
        Grid {
            area,
            cells: Seq::new(
                area.cells(),
                |i: int|
                    if i < self.cells.len() {
                        self.cells[i]
                    } else {
                        blank()
                    },
            ),
        }
    }

    /// The grid that shows nothing.
    pub open spec fn cleared(self) -> Grid {
        self.with_cells(|i: int| blank())
    }

    /// The grid in which nothing has been drawn.
    pub open spec fn unmeasured(self) -> Grid {
        self.with_cells(|i: int| marked())
    }

    /// The grid with a space in each cell that nothing has been drawn into.
    pub open spec fn unmarked(self) -> Grid {
        self.with_cells(
            |i: int|
                if self.cells[i].symbol == glyph(MEASUREMENT_MARK) {
                    self.cells[i].with_symbol(glyph(' '))
                } else {
                    self.cells[i]
                },
        )
    }

    /// The grid of which nothing is known to be on the screen.
    pub open spec fn invalid(self) -> Grid {
        self.with_cells(|i: int| invalidated(self.cells[i]))
    }

    /// The grid of another area: the places that lie in both keep their cells.
    pub open spec fn remapped(self, area: Rect) -> Grid {
        if self.area == area {
            self
        } else {
            let fresh = Grid::spec_empty(area);
            fresh.with_cells(
                |i: int|
                    if fresh.holds(fresh.column(i), fresh.row(i)) && self.holds(
                        fresh.column(i),
                        fresh.row(i),
                    ) {
                        self.at(fresh.column(i), fresh.row(i))
                    } else {
                        blank()
                    },
            )
        }
    }

    /// How many rows of the grid `copied` takes: what is left from `start` on, at most `height`.
    pub open spec fn rows_from(self, start: u16, height: u16) -> int {
        crate::geometry::least(
            height as int,
            crate::geometry::minus(self.area.height, start) as int,
        )
    }

    /// The grid with the rows of `source` from `start` on copied into `area`, as far as they
    /// reach, `area` has room and the place lies in the grid.
    pub open spec fn copied(self, source: Grid, start: u16, area: Rect) -> Grid {
        self.with_cells(
            |i: int|
                {
                    let c = self.column(i) - area.x;
                    let r = self.row(i) - area.y;
                    if self.holds(self.column(i), self.row(i)) && 0 <= c < area.width && c
                        < source.area.width && 0 <= r < source.rows_from(start, area.height)
                        && source.holds(source.area.x + c, source.area.y + start + r) {
                        source.at(source.area.x + c, source.area.y + start + r)
                    } else {
                        self.cells[i]
                    }
                },
        )
    }

    /// Whether something has been drawn into the row `y` of the screen between the columns of
    /// `area`.
    pub open spec fn row_touched(self, area: Rect, y: int) -> bool {
        exists|x: int|
            #![trigger self.at(x, y)]
            area.x <= x < area.spec_right() && self.holds(x, y) && self.at(x, y).symbol != glyph(
                MEASUREMENT_MARK,
            )
    }

    /// How many of the first `n` rows of `area` there are down to the last one that something has
    /// been drawn into.
    pub open spec fn touched_rows(self, area: Rect, n: nat) -> nat
        decreases n,
    {
        if n == 0 {
            0
        } else if self.row_touched(area, area.y + n - 1) {
            n
        } else {
            self.touched_rows(area, (n - 1) as nat)
        }
    }

    /// How many rows of `area` there are down to the last one that something has been drawn into.
    pub open spec fn touched_height(self, area: Rect) -> nat {
        if area.spec_is_empty() {
            0
        } else {
            self.touched_rows(area, (area.spec_bottom() - area.y) as nat)
        }
    }

    /// The grid with the character `ch` set at column `x` of row `y`: in its own cell with
    /// `style`, and with the further cells it covers cleared. Where it has no columns, or not
    /// enough are left in the row, nothing changes.
    pub open spec fn with_char(self, x: u16, y: u16, ch: char, style: Style) -> Grid {
        let w = cell_columns(glyph(ch)) as int;
        if w == 0 || w > self.area.spec_right() - x {
            self
        } else {
            let k = self.index(x as int, y as int);
            self.with_cells(
                |i: int|
                    if i == k {
                        self.cells[i].with_symbol(glyph(ch)).with_style(style)
                    } else if k < i < k + w {
                        blank()
                    } else {
                        self.cells[i]
                    },
            )
        }
    }
}

/// A character that is set stands at its place in the style that it is given, over the look that
/// the cell had; behind a wide one the cells that it covers are blank, and no other cell changes.
/// Where its columns do not lie in the grid, nothing changes.
pub proof fn law_character_is_set_at_its_place(
    grid: Grid,
    x: u16,
    y: u16,
    ch: char,
    style: Style,
    px: int,
    py: int,
)
    requires
        grid.wf(),
        grid.holds(x as int, y as int),
        grid.holds(px, py),
    ensures
        ({
            let w = cell_columns(glyph(ch)) as int;
            let now = grid.with_char(x, y, ch, style);
            let fits = 0 < w && x + w <= grid.area.spec_right();
            &&& now.wf()
            &&& now.area == grid.area
            &&& fits && px == x && py == y ==> now.at(px, py) == grid.at(px, py).with_symbol(
                glyph(ch),
            ).with_style(style)
            &&& fits && py == y && x < px < x + w ==> now.at(px, py) == blank()
            &&& !fits || py != y || !(x <= px < x + w) ==> now.at(px, py) == grid.at(px, py)
        }),
{
    let k = grid.index(x as int, y as int);
    let w = grid.area.width as int;
    let n = cell_columns(glyph(ch)) as int;
    lemma_index(grid, x as int, y as int);
    lemma_index(grid, px, py);
    let i = grid.index(px, py);
    let c = x - grid.area.x;
    let r = y - grid.area.y;
    let pc = px - grid.area.x;
    let pr = py - grid.area.y;
    assert(k == r * w + c && i == pr * w + pc) by {
        assert(r * w == w * r && pr * w == w * pr) by (nonlinear_arith);
    }
    if 0 < n && x + n <= grid.area.spec_right() && k <= i < k + n {
        assert(c + n <= w);
        assert(pr == r) by (nonlinear_arith)
            requires
                r * w + c <= pr * w + pc < r * w + c + n,
                0 <= c,
                c + n <= w,
                0 <= pc < w,
        ;
    }
}

/// Rows of a grid that are copied into an area of another stand there as they stood, from the first
/// row of the area on, and no cell outside of the area changes.
pub proof fn law_copied_rows_stand_as_they_stood(
    grid: Grid,
    source: Grid,
    start: u16,
    area: Rect,
    c: int,
    r: int,
)
    requires
        grid.wf(),
        grid.holds(area.x + c, area.y + r),
    ensures
        ({
            let now = grid.copied(source, start, area);
            let (x, y) = (area.x + c, area.y + r);
            let (from_x, from_y) = (source.area.x + c, source.area.y + start + r);
            let inside = 0 <= c < area.width && 0 <= r < area.height;
            &&& now.wf()
            &&& now.area == grid.area
            &&& inside && source.holds(from_x, from_y) ==> now.at(x, y) == source.at(
                from_x,
                from_y,
            )
            &&& !inside || !source.holds(from_x, from_y) ==> now.at(x, y) == grid.at(x, y)
        }),
{
    lemma_index(grid, area.x + c, area.y + r);
}

/// A grid that is given another area keeps the cells that lie in both, and its other cells are
/// blank.
pub proof fn law_remapped_cells_keep_their_places(grid: Grid, area: Rect, x: int, y: int)
    requires
        grid.wf(),
        grid.remapped(area).holds(x, y),
    ensures
        grid.remapped(area).area == area,
        grid.holds(x, y) ==> grid.remapped(area).at(x, y) == grid.at(x, y),
        !grid.holds(x, y) ==> grid.remapped(area).at(x, y) == blank(),
{
    lemma_index(grid.remapped(area), x, y);
    if grid.area != area {
        lemma_index(Grid::spec_empty(area), x, y);
    }
}

/// A blank cell shows a space in the terminal's own look.
pub proof fn law_blank_cells_show_nothing()
    ensures
        blank().symbol == seq![' '],
        blank().fg is Reset,
        blank().bg is Reset,
        blank().underline_color is Reset,
        blank().modifier == Modifier::spec_empty(),
        !blank().skip,
{
}

/// The touched rows of an area end at the last one that something has been drawn into.
pub proof fn law_touched_rows_end_at_the_last_drawn_one(grid: Grid, area: Rect, n: nat, r: int)
    requires
        0 <= r < n,
    ensures
        grid.touched_rows(area, n) <= n,
        r >= grid.touched_rows(area, n) ==> !grid.row_touched(area, area.y + r),
        grid.touched_rows(area, n) > 0 ==> grid.row_touched(
            area,
            area.y + grid.touched_rows(area, n) - 1,
        ),
    decreases n,
{
    assert(grid.touched_rows(area, 0) == 0);
    if !grid.row_touched(area, area.y + n - 1) && n > 1 {
        law_touched_rows_end_at_the_last_drawn_one(
            grid,
            area,
            (n - 1) as nat,
            if r < n - 1 {
                r
            } else {
                0
            },
        );
    }
}

impl Buffer {
    /// The buffer of an area that shows nothing.
    pub fn empty(area: Rect) -> (r: Buffer)
        ensures
            r@ == Grid::spec_empty(area),
            r@.wf(),
    {
        let mut buffer = Buffer { area: Rect::new(0, 0, 0, 0), content: Vec::new() };
        buffer.resize(area);
        assert(buffer@ =~= Grid::spec_empty(area));
        buffer
    }

    /// How many cells an area holds.
    fn count(area: Rect) -> (r: usize)
        ensures
            r == area.cells(),
    {
        assert(area.width as nat * area.height as nat <= 65535 * 65535) by (nonlinear_arith)
            requires
                area.width <= 65535,
                area.height <= 65535,
        ;
        area.width as usize * area.height as usize
    }

    /// Gives the buffer another area: the cells keep their order, and are cut or filled up with
    /// blanks.
    pub fn resize(&mut self, area: Rect)
        ensures
            final(self)@ == old(self)@.resized(area),
            final(self)@.wf(),
    {
        let n: usize = Buffer::count(area);
        if self.content.len() > n {
            self.content.truncate(n);
        }
        let ghost len = self.content@.len();
        while self.content.len() < n
            invariant
                len <= self.content@.len() <= n,
                len == crate::geometry::least(old(self).content@.len() as int, n as int),
                forall|k: int| 0 <= k < len ==> #[trigger] self.content@[k] == old(self).content@[k],
                forall|k: int|
                    len <= k < self.content@.len() ==> (#[trigger] self.content@[k])@ == blank(),
            decreases n - self.content.len(),
        {
            self.content.push(Cell::empty());
        }
        self.area = area;
        assert(self@ =~= old(self)@.resized(area));
    }

    /// Clears every cell.
    pub fn reset(&mut self)
        ensures
            final(self)@ == old(self)@.cleared(),
    {
        let mut i: usize = 0;
        while i < self.content.len()
            invariant
                i <= self.content@.len() == old(self).content@.len(),
                self.area == old(self).area,
                forall|k: int| 0 <= k < i ==> (#[trigger] self.content@[k])@ == blank(),
            decreases self.content.len() - i,
        {
            self.content.set(i, Cell::empty());
            i += 1;
        }
        assert(self@ =~= old(self)@.cleared());
    }

    /// Where the cell at column `x` and row `y` of the screen stands, if the area holds it.
    pub fn index_of(&self, x: u32, y: u32) -> (r: Option<usize>)
        requires
            self@.wf(),
        ensures
            r == (if self@.holds(x as int, y as int) {
                Some(self@.index(x as int, y as int) as usize)
            } else {
                None
            }),
            r is Some ==> r->0 == self@.index(x as int, y as int) && r->0 < self.content@.len(),
    {
        let area: Rect = self.area;
        if x >= area.x as u32 && x < area.right() as u32 && y >= area.y as u32 && y
            < area.bottom() as u32 {
            proof {
                lemma_index(self@, x as int, y as int);
            }
            let r: usize = (y - area.y as u32) as usize;
            let c: usize = (x - area.x as u32) as usize;
            let w: usize = area.width as usize;
            assert(self@.index(x as int, y as int) < self.content.len());
            assert(0 <= r * w) by (nonlinear_arith);
            assert(r * w + c == self@.index(x as int, y as int));
            Some(r * w + c)
        } else {
            None
        }
    }

    /// The cell at a place of the screen, if the area holds it.
    pub fn cell(&self, position: Position) -> (r: Option<&Cell>)
        requires
            self@.wf(),
        ensures
            self@.holds(position.x as int, position.y as int) ==> r is Some && (r->0)@ == self@.at(
                position.x as int,
                position.y as int,
            ),
            !self@.holds(position.x as int, position.y as int) ==> r is None,
    {
        match self.index_of(position.x as u32, position.y as u32) {
            Some(i) => Some(&self.content[i]),
            None => None,
        }
    }

    /// The place of the screen that the cell `index` stands for.
    pub fn pos_of(&self, index: usize) -> (r: Position)
        requires
            self@.wf(),
            self.area.fits(),
            index < self.content@.len(),
        ensures
            r.x == self@.column(index as int),
            r.y == self@.row(index as int),
    {
        proof {
            lemma_place(self.area, index as int);
        }
        let w: usize = self.area.width as usize;
        Position { x: self.area.x + (index % w) as u16, y: self.area.y + (index / w) as u16 }
    }
}

/// Makes a cell one that nothing has been drawn into.
fn set_measurement_mark(cell: &mut Cell)
    ensures
        final(cell)@ == marked(),
{
    *cell = Cell::empty();
    cell.set_symbol(one_char(MEASUREMENT_MARK));
}

/// Whether nothing has been drawn into a cell.
fn is_measurement_mark(cell: &Cell) -> (r: bool)
    ensures
        r == (cell@.symbol == glyph(MEASUREMENT_MARK)),
{
    cell.shows(MEASUREMENT_MARK)
}

/// Makes every cell one that nothing has been drawn into.
pub fn mark_measurement_buffer(buffer: &mut Buffer)
    ensures
        final(buffer)@ == old(buffer)@.unmeasured(),
{
    let mut i: usize = 0;
    while i < buffer.content.len()
        invariant
            i <= buffer.content@.len() == old(buffer).content@.len(),
            buffer.area == old(buffer).area,
            forall|k: int| 0 <= k < i ==> (#[trigger] buffer.content@[k])@ == marked(),
        decreases buffer.content.len() - i,
    {
        let mut cell: Cell = Cell::empty();
        set_measurement_mark(&mut cell);
        buffer.content.set(i, cell);
        i += 1;
    }
    assert(buffer@ =~= old(buffer)@.unmeasured());
}

/// Puts a space into every cell that nothing has been drawn into.
pub fn clear_measurement_marks(buffer: &mut Buffer)
    ensures
        final(buffer)@ == old(buffer)@.unmarked(),
{
    let mut i: usize = 0;
    while i < buffer.content.len()
        invariant
            i <= buffer.content@.len() == old(buffer).content@.len(),
            buffer.area == old(buffer).area,
            forall|k: int|
                0 <= k < i ==> (#[trigger] buffer.content@[k])@ == old(buffer)@.unmarked().cells[k],
            forall|k: int|
                i <= k < buffer.content@.len() ==> #[trigger] buffer.content@[k] == old(
                    buffer,
                ).content@[k],
        decreases buffer.content.len() - i,
    {
        if is_measurement_mark(&buffer.content[i]) {
            let mut cell: Cell = buffer.content[i].clone();
            cell.set_symbol(one_char(' '));
            buffer.content.set(i, cell);
        }
        i += 1;
    }
    assert(buffer@ =~= old(buffer)@.unmarked());
}

/// Notes that nothing is known of what the screen shows in the buffer's place.
pub fn mark_buffer_invalid(buffer: &mut Buffer)
    ensures
        final(buffer)@ == old(buffer)@.invalid(),
{
    let mut i: usize = 0;
    while i < buffer.content.len()
        invariant
            i <= buffer.content@.len() == old(buffer).content@.len(),
            buffer.area == old(buffer).area,
            forall|k: int|
                0 <= k < i ==> (#[trigger] buffer.content@[k])@ == invalidated(
                    old(buffer).content@[k]@,
                ),
            forall|k: int|
                i <= k < buffer.content@.len() ==> #[trigger] buffer.content@[k] == old(
                    buffer,
                ).content@[k],
        decreases buffer.content.len() - i,
    {
        let mut cell: Cell = buffer.content[i].clone();
        cell.set_symbol(one_char(' '));
        cell.fg = Color::Indexed(255);
        cell.bg = Color::Indexed(254);
        cell.modifier = Modifier { bits: RAPID_BLINK };
        buffer.content.set(i, cell);
        i += 1;
    }
    assert(buffer@ =~= old(buffer)@.invalid());
}

/// Whether a rectangle holds all places of another.
pub open spec fn encloses(outer: Rect, inner: Rect) -> bool {
    &&& outer.x <= inner.x
    &&& outer.y <= inner.y
    &&& inner.x + inner.width <= outer.x + outer.width
    &&& inner.y + inner.height <= outer.y + outer.height
}

/// A grid that is given an area which holds its own, and then its own again, is as it was, if it
/// ends within the range of `u16`.
pub proof fn law_remapping_back_restores(grid: Grid, area: Rect)
    requires
        grid.wf(),
        encloses(area, grid.area),
        grid.area.x + grid.area.width <= u16::MAX,
        grid.area.y + grid.area.height <= u16::MAX,
    ensures
        grid.remapped(area).remapped(grid.area) == grid,
{
    let outer = grid.remapped(area);
    let back = outer.remapped(grid.area);
    if area != grid.area {
        assert forall|i: int| 0 <= i < grid.cells.len() implies back.cells[i]
            == #[trigger] grid.cells[i] by {
            lemma_place(grid.area, i);
            let x = grid.column(i);
            let y = grid.row(i);
            assert(grid.holds(x, y));
            assert(outer.holds(x, y));
            lemma_index(outer, x, y);
            lemma_index(grid, x, y);
            assert(grid.index(x, y) == i);
            assert(outer.at(x, y) == grid.at(x, y));
        }
        assert(back.cells =~= grid.cells);
    }
}

/// Gives the buffer another area, and keeps the cells of the places that lie in both.
pub fn remap_buffer_to_area(buffer: &mut Buffer, area: Rect)
    requires
        old(buffer)@.wf(),
    ensures
        final(buffer)@ == old(buffer)@.remapped(area),
        final(buffer)@.wf(),
{
    if buffer.area == area {
        return;
    }
    let mut fresh: Buffer = Buffer::empty(area);
    assert forall|k: int| 0 <= k < fresh.content@.len() implies (#[trigger] fresh.content@[k])@
        == blank() by {
        assert(fresh@.cells[k] == blank());
    }
    let w: usize = area.width as usize;
    let mut i: usize = 0;
    while i < fresh.content.len()
        invariant
            *buffer == *old(buffer),
            buffer@.wf(),
            buffer.area != area,
            w == area.width,
            fresh.area == area,
            i <= fresh.content@.len() == area.cells(),
            forall|k: int|
                0 <= k < i ==> (#[trigger] fresh.content@[k])@ == buffer@.remapped(area).cells[k],
            forall|k: int| i <= k < fresh.content@.len() ==> (#[trigger] fresh.content@[k])@ == blank(),
        decreases fresh.content.len() - i,
    {
        proof {
            lemma_place(area, i as int);
        }
        let x: u32 = area.x as u32 + (i % w) as u32;
        let y: u32 = area.y as u32 + (i / w) as u32;
        if x < area.right() as u32 && y < area.bottom() as u32 {
            if let Some(k) = buffer.index_of(x, y) {
                fresh.content.set(i, buffer.content[k].clone());
            }
        }
        i += 1;
    }
    assert(fresh@ =~= buffer@.remapped(area));
    *buffer = fresh;
}

/// Copies the rows of `source` from `start_row` on into the part `target_area` of `target`.
pub fn copy_buffer_rows_to_area(
    source: &Buffer,
    start_row: u16,
    target_area: Rect,
    target: &mut Buffer,
)
    requires
        source@.wf(),
        old(target)@.wf(),
    ensures
        final(target)@ == old(target)@.copied(source@, start_row, target_area),
        final(target)@.wf(),
{
    let rows: u32 = crate::geometry::min_u16(
        target_area.height,
        source.area.height.saturating_sub(start_row),
    ) as u32;
    let area: Rect = target.area;
    let w: usize = area.width as usize;
    let mut i: usize = 0;
    while i < target.content.len()
        invariant
            source@.wf(),
            target.area == area,
            area == old(target).area,
            w == area.width,
            old(target)@.wf(),
            rows == source@.rows_from(start_row, target_area.height),
            i <= target.content@.len() == old(target).content@.len(),
            forall|k: int|
                0 <= k < i ==> (#[trigger] target.content@[k])@ == old(target)@.copied(
                    source@,
                    start_row,
                    target_area,
                ).cells[k],
            forall|k: int|
                i <= k < target.content@.len() ==> #[trigger] target.content@[k] == old(
                    target,
                ).content@[k],
        decreases target.content.len() - i,
    {
        proof {
            lemma_place(area, i as int);
        }
        let x: u32 = area.x as u32 + (i % w) as u32;
        let y: u32 = area.y as u32 + (i / w) as u32;
        let left: u32 = target_area.x as u32;
        let top: u32 = target_area.y as u32;
        if x < area.right() as u32 && y < area.bottom() as u32 && left <= x && x - left
            < target_area.width as u32 && x - left < source.area.width as u32 && top <= y && y - top
            < rows {
            let sx: u32 = source.area.x as u32 + (x - left);
            let sy: u32 = source.area.y as u32 + start_row as u32 + (y - top);
            if let Some(k) = source.index_of(sx, sy) {
                target.content.set(i, source.content[k].clone());
            }
        }
        i += 1;
    }
    assert(target@ =~= old(target)@.copied(source@, start_row, target_area));
}

/// Whether something has been drawn into a row of the screen between the columns of `area`.
fn row_is_touched(buffer: &Buffer, area: Rect, y: u16) -> (r: bool)
    requires
        buffer@.wf(),
    ensures
        r == buffer@.row_touched(area, y as int),
{
    let mut x: u16 = area.x;
    while x < area.right()
        invariant
            buffer@.wf(),
            area.x <= x <= area.spec_right(),
            forall|k: int|
                #![trigger buffer@.at(k, y as int)]
                area.x <= k < x && buffer@.holds(k, y as int) ==> buffer@.at(
                    k,
                    y as int,
                ).symbol == glyph(MEASUREMENT_MARK),
        decreases area.spec_right() - x,
    {
        if let Some(cell) = buffer.cell(Position { x, y }) {
            if !is_measurement_mark(cell) {
                assert(buffer@.at(x as int, y as int).symbol != glyph(MEASUREMENT_MARK));
                return true;
            }
        }
        x += 1;
    }
    false
}

/// How many rows of `area` there are down to the last one that something has been drawn into.
pub fn touched_height(buffer: &Buffer, area: Rect) -> (r: u16)
    requires
        buffer@.wf(),
    ensures
        r == buffer@.touched_height(area),
        r <= area.height,
{
    if area.is_empty() {
        return 0;
    }
    let mut n: u16 = area.bottom() - area.y;
    while n > 0
        invariant
            buffer@.wf(),
            !area.spec_is_empty(),
            n <= area.spec_bottom() - area.y,
            buffer@.touched_height(area) == buffer@.touched_rows(area, n as nat),
        decreases n,
    {
        if row_is_touched(buffer, area, area.y + (n - 1)) {
            return n;
        }
        n -= 1;
    }
    0
}

impl Buffer {
    /// Sets the character `ch` at column `x` of row `y`, as `ratatui`'s `Buffer::set_string` sets
    /// a text of one character.
    pub fn set_char(&mut self, x: u16, y: u16, ch: char, style: Style)
        requires
            old(self)@.wf(),
            old(self)@.holds(x as int, y as int),
            !text::is_control(ch),
        ensures
            final(self)@ == old(self)@.with_char(x, y, ch, style),
            final(self)@.wf(),
    {
        let symbol: String = one_char(ch);
        let w: u16 = symbol_width(symbol.as_str());
        if w == 0 || w > self.area.right() - x {
            return;
        }
        proof {
            lemma_index(self@, x as int, y as int);
            lemma_index(self@, x + w - 1, y as int);
        }
        if let Some(k) = self.index_of(x as u32, y as u32) {
            let mut cell: Cell = self.content[k].clone();
            cell.set_symbol(symbol);
            cell.set_style(style);
            self.content.set(k, cell);
            let mut n: usize = 1;
            while n < w as usize
                invariant
                    self.area == old(self).area,
                    self.content@.len() == old(self).content@.len(),
                    1 <= n <= w,
                    k + w <= self.content.len(),
                    self.content@[k as int]@ == old(self).content@[k as int]@.with_symbol(
                        glyph(ch),
                    ).with_style(style),
                    forall|i: int| k < i < k + n ==> (#[trigger] self.content@[i])@ == blank(),
                    forall|i: int|
                        0 <= i < k || k + n <= i < self.content@.len() ==> #[trigger] self.content@[i]
                            == old(self).content@[i],
                decreases w - n,
            {
                self.content.set(k + n, Cell::empty());
                n += 1;
            }
        }
        assert(self@ =~= old(self)@.with_char(x, y, ch, style));
    }
}

/// A cell that nothing has been drawn into shows a space once the marks are taken out, and any other
/// stays as it was drawn.
pub proof fn law_undrawn_cells_show_a_space(grid: Grid, x: int, y: int)
    requires
        grid.wf(),
        grid.holds(x, y),
    ensures
        ({
            let cell = grid.at(x, y);
            let now = grid.unmarked().at(x, y);
            &&& cell.symbol == glyph(MEASUREMENT_MARK) ==> now == cell.with_symbol(seq![' '])
            &&& cell.symbol != glyph(MEASUREMENT_MARK) ==> now == cell
            &&& grid.unmeasured().at(x, y).symbol == seq![MEASUREMENT_MARK]
        }),
{
    lemma_index(grid, x, y);
}

/// Cells that are given another area keep their order; those that are new are blank.
pub proof fn law_resized_cells_keep_their_order(grid: Grid, area: Rect, i: int)
    requires
        0 <= i < area.cells(),
    ensures
        grid.resized(area).area == area,
        grid.resized(area).wf(),
        i < grid.cells.len() ==> grid.resized(area).cells[i] == grid.cells[i],
        i >= grid.cells.len() ==> grid.resized(area).cells[i] == blank(),
{
}

/// A place of a grid holds one cell, and no two places share one.
pub proof fn law_places_hold_a_cell_each(grid: Grid, x: int, y: int, cell: CellView, px: int, py: int)
    requires
        grid.wf(),
        grid.holds(x, y),
        grid.holds(px, py),
    ensures
        ({
            let now = Grid { cells: grid.cells.update(grid.index(x, y), cell), ..grid };
            &&& now.at(x, y) == cell
            &&& (px, py) != (x, y) ==> now.at(px, py) == grid.at(px, py)
        }),
{
    lemma_index(grid, x, y);
    lemma_index(grid, px, py);
}

} // verus!
