//! Lines of text that are inserted above the viewport, where they scroll out of the screen.

use vstd::prelude::*;

use crate::buffer;
use crate::buffer::Buffer;
use crate::buffer::CellView;
use crate::buffer::Grid;
use crate::geometry;
use crate::geometry::Position;
use crate::geometry::Rect;
use crate::style::Style;
use crate::terminal::Terminal;
use crate::terminal::TerminalView;
use crate::text;
use crate::text::char_width;
use crate::text::chars_of;
use crate::text::line_width;
use crate::text::Line;
use crate::text::LineView;

verus! {

/// How history is inserted.
#[derive(Debug, Clone, Copy, PartialEq, Eq, Structural)]
pub enum InsertHistoryMode {
    /// By scrolling parts of the screen.
    Standard,
    /// By scrolling the whole screen, for a multiplexer that keeps no history of a part of it.
    Zellij,
}

impl InsertHistoryMode {
    /// The mode for a terminal inside Zellij, or for any other.
    pub fn new(is_zellij: bool) -> (r: InsertHistoryMode)
        ensures
            r == (if is_zellij {
                InsertHistoryMode::Zellij
            } else {
                InsertHistoryMode::Standard
            }),
    {
        if is_zellij {
            InsertHistoryMode::Zellij
        } else {
            InsertHistoryMode::Standard
        }
    }
}

/// What several lines hold.
pub open spec fn views(lines: Seq<Line>) -> Seq<LineView> {
    lines.map_values(|l: Line| l@)
}

/// How many rows of `wrap` columns a line takes: as many as its columns fill, and at least one.
pub open spec fn line_rows(line: LineView, wrap: int) -> int {
    (geometry::greatest(line.columns() as int, 1) - 1) / wrap + 1
}

/// How many rows of `wrap` columns several lines take.
pub open spec fn total_rows(lines: Seq<LineView>, wrap: int) -> int
    decreases lines.len(),
{
    if lines.len() == 0 {
        0
    } else {
        total_rows(lines.drop_last(), wrap) + line_rows(lines.last(), wrap)
    }
}

/// How many rows of `wrap` columns are inserted for several lines.
pub open spec fn inserted_rows(lines: Seq<LineView>, wrap: int) -> u16 {
    geometry::least(total_rows(lines, wrap), u16::MAX as int) as u16
}

/// A grid that text is written into, and where its next character goes.
#[verifier::ext_equal]
pub struct Page {
    pub grid: Grid,
    pub x: u16,
    pub y: u16,
}

impl Page {
    /// The page with its next character at the start of the next row.
    pub open spec fn next_row(self) -> Page {
        Page { x: self.grid.area.x, y: geometry::plus(self.y, 1), ..self }
    }

    /// Whether a character of `width` columns would reach past the column `wrap` of its row.
    pub open spec fn wraps(self, width: int, wrap: int) -> bool {
        geometry::minus(self.x, self.grid.area.x) + width > wrap
    }

    /// The page with a character of `width` columns set, as far as its place lies in the grid.
    pub open spec fn put(self, ch: char, width: usize, style: Style) -> Page {
        Page {
            grid: if self.y < self.grid.area.spec_bottom() && self.x
                < self.grid.area.spec_right() {
                self.grid.with_char(self.x, self.y, ch, style)
            } else {
                self.grid
            },
            x: geometry::plus(self.x, width as u16),
            ..self
        }
    }

    /// The page with the characters from `from` on written, and each wrapped at the column
    /// `wrap`. A line feed or a carriage return starts a new row; characters without columns are
    /// left out. A new row at `end` or below ends the writing.
    pub open spec fn written(
        self,
        chars: Seq<char>,
        from: int,
        style: Style,
        wrap: int,
        end: u16,
    ) -> Page
        decreases chars.len() - from,
    {
        if from >= chars.len() {
            self
        } else if chars[from] == '\n' || chars[from] == '\r' {
            if self.next_row().y >= end {
                self.next_row()
            } else {
                self.next_row().written(chars, from + 1, style, wrap, end)
            }
        } else {
            match text::char_columns(chars[from]) {
                Some(w) if w > 0 => {
                    if !self.wraps(w as int, wrap) {
                        self.put(chars[from], w, style).written(chars, from + 1, style, wrap, end)
                    } else if self.next_row().y >= end {
                        self.next_row()
                    } else {
                        self.next_row().put(chars[from], w, style).written(
                            chars,
                            from + 1,
                            style,
                            wrap,
                            end,
                        )
                    }
                },
                _ => self.written(chars, from + 1, style, wrap, end),
            }
        }
    }

    /// The page with the spans of a line from `from` on written, each in its style over the
    /// line's.
    pub open spec fn with_spans(self, line: LineView, from: int, wrap: int, end: u16) -> Page
        decreases line.spans.len() - from,
    {
        if from >= line.spans.len() {
            self
        } else {
            let span = line.spans[from];
            self.written(
                span.content,
                0,
                line.style.spec_patch(span.style),
                wrap,
                end,
            ).with_spans(line, from + 1, wrap, end)
        }
    }
}

/// The grid with the lines from `from` on written into it, from the row `row` of it on. Each line
/// starts below the rows that the one before takes, and the rows below the grid are left out.
pub open spec fn rendered(
    grid: Grid,
    lines: Seq<LineView>,
    from: int,
    wrap: int,
    row: u16,
) -> Grid
    decreases lines.len() - from,
{
    if from >= lines.len() {
        grid
    } else {
        let end = geometry::plus(row, line_rows(lines[from], wrap) as u16);
        let page = Page { grid, x: grid.area.x, y: row }.with_spans(lines[from], 0, wrap, end);
        if end >= grid.area.spec_bottom() {
            page.grid
        } else {
            rendered(page.grid, lines, from + 1, wrap, end)
        }
    }
}

/// The rows that several lines take in a viewport of `width` columns.
pub open spec fn history_grid(lines: Seq<LineView>, width: u16) -> Grid {
    let wrap = geometry::upper(width, 1) as int;
    rendered(
        Grid::spec_empty(
            Rect { x: 0, y: 0, width, height: inserted_rows(lines, wrap) },
        ),
        lines,
        0,
        wrap,
        0,
    )
}

impl TerminalView {
    /// Whether history can be inserted above the viewport.
    pub open spec fn takes_history(self, mode: InsertHistoryMode) -> bool {
        match mode {
            InsertHistoryMode::Standard => self.viewport_area.width > 0 ==> self.has_room(),
            InsertHistoryMode::Zellij => self.viewport_area.height
                <= self.last_known_screen_size.height && self.last_known_screen_size.height > 0,
        }
    }

    /// The terminal told to insert lines of history above the viewport. The cursor returns to
    /// where it was last put.
    pub open spec fn with_history(
        self,
        lines: Seq<LineView>,
        mode: InsertHistoryMode,
    ) -> TerminalView {
        if lines.len() == 0 {
            self
        } else {
            let cells = history_grid(lines, self.viewport_area.width).cells;
            let rows = history_grid(lines, self.viewport_area.width).area.height;
            let t = match mode {
                InsertHistoryMode::Standard => self.inserted(rows, cells),
                InsertHistoryMode::Zellij => self.pasted(
                    cells,
                    0,
                    rows as int,
                    self.viewport_area.y as int,
                ).invalidated(),
            };
            t.moved(self.last_known_cursor_pos).noted(rows)
        }
    }
}

/// Writing into a page keeps the area of its grid, and its number of cells.
proof fn lemma_written(page: Page, chars: Seq<char>, from: int, style: Style, wrap: int, end: u16)
    ensures
        page.written(chars, from, style, wrap, end).grid.area == page.grid.area,
        page.written(chars, from, style, wrap, end).grid.cells.len() == page.grid.cells.len(),
    decreases chars.len() - from,
{
    if from < chars.len() {
        lemma_written(page, chars, from + 1, style, wrap, end);
        lemma_written(page.next_row(), chars, from + 1, style, wrap, end);
        match text::char_columns(chars[from]) {
            Some(w) => {
                let put = page.put(chars[from], w, style);
                lemma_written(put, chars, from + 1, style, wrap, end);
                let put = page.next_row().put(chars[from], w, style);
                lemma_written(put, chars, from + 1, style, wrap, end);
            },
            None => {},
        }
    }
}

/// Writing the spans of a line keeps the area of the grid, and its number of cells.
proof fn lemma_with_spans(page: Page, line: LineView, from: int, wrap: int, end: u16)
    ensures
        page.with_spans(line, from, wrap, end).grid.area == page.grid.area,
        page.with_spans(line, from, wrap, end).grid.cells.len() == page.grid.cells.len(),
    decreases line.spans.len() - from,
{
    if from < line.spans.len() {
        let span = line.spans[from];
        let style = line.style.spec_patch(span.style);
        lemma_written(page, span.content, 0, style, wrap, end);
        lemma_with_spans(page.written(span.content, 0, style, wrap, end), line, from + 1, wrap, end);
    }
}

/// Writing lines keeps the area of the grid, and its number of cells.
pub proof fn lemma_rendered(grid: Grid, lines: Seq<LineView>, from: int, wrap: int, row: u16)
    ensures
        rendered(grid, lines, from, wrap, row).area == grid.area,
        rendered(grid, lines, from, wrap, row).cells.len() == grid.cells.len(),
    decreases lines.len() - from,
{
    if from < lines.len() {
        let end = geometry::plus(row, line_rows(lines[from], wrap) as u16);
        let page = Page { grid, x: grid.area.x, y: row };
        lemma_with_spans(page, lines[from], 0, wrap, end);
        lemma_rendered(page.with_spans(lines[from], 0, wrap, end).grid, lines, from + 1, wrap, end);
    }
}

/// Whether all characters of a text take one column each, in a text and in a cell.
pub open spec fn is_narrow(chars: Seq<char>) -> bool {
    forall|i: int|
        #![trigger chars[i]]
        0 <= i < chars.len() ==> {
            &&& chars[i] != '\n'
            &&& chars[i] != '\r'
            &&& text::char_columns(chars[i]) == Some(1usize)
            &&& buffer::cell_columns(buffer::glyph(chars[i])) == 1
        }
}

/// The column behind `n` narrow characters that fill rows of `w` columns.
spec fn column_behind(n: int, w: int) -> int {
    if n == 0 {
        0
    } else {
        (n - 1) % w + 1
    }
}

/// How many rows `n` narrow characters fill before the one that the last of them stands in.
spec fn rows_behind(n: int, w: int) -> int {
    if n == 0 {
        0
    } else {
        (n - 1) / w
    }
}

/// A page whose next character follows on `n` narrow characters that fill `w` columns of its rows
/// from `row` on.
spec fn stands_behind(page: Page, n: int, w: int, row: int) -> bool {
    &&& page.grid.wf()
    &&& 0 < w <= page.grid.area.width
    &&& page.grid.area.x + w <= u16::MAX
    &&& page.grid.area.y <= row
    &&& page.x == page.grid.area.x + column_behind(n, w)
    &&& page.y == row + rows_behind(n, w)
}

/// Whether a place lies in the first `w` columns of an area, from the row `row` on, and among the
/// places `lo` to before `hi` of those.
spec fn lies_among(area: Rect, w: int, row: int, x: int, y: int, lo: int, hi: int) -> bool {
    &&& 0 <= x - area.x < w
    &&& row <= y
    &&& lo <= (y - row) * w + (x - area.x) < hi
}

/// The place `i` of rows of `w` columns stands in the column `i % w` of the row `i / w`, and no
/// other place does.
proof fn lemma_numbered(w: int, i: int, c: int, r: int)
    requires
        0 < w,
        0 <= i,
        0 <= c < w,
    ensures
        r * w + c == i <==> c == i % w && r == i / w,
{
    vstd::arithmetic::div_mod::lemma_fundamental_div_mod(i, w);
    assert(w * (i / w) == (i / w) * w) by (nonlinear_arith);
    if r * w + c == i {
        assert(w * r == r * w) by (nonlinear_arith);
        vstd::arithmetic::div_mod::lemma_fundamental_div_mod_converse(i, w, r, c);
    }
}

/// A narrow character that is set changes the cell at its place alone.
proof fn lemma_narrow_put(page: Page, ch: char, style: Style, x: int, y: int)
    requires
        page.grid.wf(),
        page.grid.area.x <= page.x < page.grid.area.spec_right(),
        page.grid.area.y <= page.y,
        buffer::cell_columns(buffer::glyph(ch)) == 1,
        page.grid.holds(x, y),
    ensures
        ({
            let put = page.put(ch, 1usize, style).grid;
            &&& put.wf()
            &&& put.area == page.grid.area
            &&& put.at(x, y) == (if x == page.x && y == page.y {
                set_into(page.grid.at(x, y), (ch, style))
            } else {
                page.grid.at(x, y)
            })
        }),
{
    buffer::lemma_index(page.grid, x, y);
    if page.y < page.grid.area.spec_bottom() {
        buffer::lemma_index(page.grid, page.x as int, page.y as int);
    }
}

/// A page whose next character stands below its grid, where it goes behind `n` narrow characters.
spec fn stands_below(page: Page, n: int, w: int, row: int) -> bool {
    &&& page.grid.wf()
    &&& page.grid.area.spec_bottom() <= page.y
    &&& page.grid.area.spec_bottom() <= row + rows_behind(n, w)
}

/// What is written below a grid leaves it as it is.
proof fn lemma_written_below(
    page: Page,
    chars: Seq<char>,
    k: int,
    style: Style,
    w: int,
    end: u16,
)
    requires
        page.grid.area.spec_bottom() <= page.y,
    ensures
        ({
            let done = page.written(chars, k, style, w, end);
            done.grid == page.grid && page.y <= done.y
        }),
    decreases chars.len() - k,
{
    if k < chars.len() {
        lemma_written_below(page, chars, k + 1, style, w, end);
        lemma_written_below(page.next_row(), chars, k + 1, style, w, end);
        match text::char_columns(chars[k]) {
            Some(n) => {
                lemma_written_below(page.put(chars[k], n, style), chars, k + 1, style, w, end);
                lemma_written_below(
                    page.next_row().put(chars[k], n, style),
                    chars,
                    k + 1,
                    style,
                    w,
                    end,
                );
            },
            None => {},
        }
    }
}

/// Below a grid no place of it follows on those that narrow characters fill.
proof fn lemma_none_below(area: Rect, w: int, row: int, x: int, y: int, n: int, hi: int)
    requires
        0 < w,
        0 <= n,
        y < row + rows_behind(n, w),
    ensures
        !lies_among(area, w, row, x, y, n, hi),
{
    if lies_among(area, w, row, x, y, n, hi) {
        let i = (y - row) * w + (x - area.x);
        lemma_numbered(w, i, x - area.x, y - row);
        if n > 0 {
            vstd::arithmetic::div_mod::lemma_div_is_ordered(n - 1, i, w);
        }
    }
}

/// Narrow characters from `k` on are written one behind the other, row by row, behind the `p`
/// characters that stand before them, as far as the grid goes.
proof fn lemma_written_narrow(
    page: Page,
    chars: Seq<char>,
    k: int,
    style: Style,
    w: int,
    row: int,
    end: u16,
    p: int,
    x: int,
    y: int,
)
    requires
        0 <= p,
        0 <= k <= chars.len(),
        stands_behind(page, p + k, w, row) || stands_below(page, p + k, w, row),
        0 < w,
        is_narrow(chars),
        page.grid.area.spec_bottom() <= end || (p + chars.len() > 0 ==> row + (p + chars.len() - 1)
            / w < end),
        page.grid.holds(x, y),
    ensures
        ({
            let done = page.written(chars, k, style, w, end);
            let area = page.grid.area;
            &&& stands_behind(done, p + chars.len(), w, row) || stands_below(
                done,
                p + chars.len(),
                w,
                row,
            )
            &&& done.grid.area == area
            &&& done.grid.at(x, y) == (if lies_among(
                area,
                w,
                row,
                x,
                y,
                p + k,
                p + chars.len(),
            ) {
                set_into(
                    page.grid.at(x, y),
                    (chars[(y - row) * w + (x - area.x) - p], style),
                )
            } else {
                page.grid.at(x, y)
            })
        }),
    decreases chars.len() - k,
{
    let n = p + chars.len() as int;
    if page.grid.area.spec_bottom() <= page.y {
        lemma_written_below(page, chars, k, style, w, end);
        lemma_none_below(page.grid.area, w, row, x, y, p + k, n);
        if p + k > 0 {
            vstd::arithmetic::div_mod::lemma_div_is_ordered(p + k - 1, n - 1, w);
        }
    } else if k < chars.len() {
        let ch = chars[k];
        let i = p + k;
        let area = page.grid.area;
        lemma_next_place(w, i, n);
        let here = if page.wraps(1, w) {
            page.next_row()
        } else {
            page
        };
        assert(here.x == area.x + i % w && here.y == row + i / w);
        if 0 <= x - area.x < w {
            lemma_numbered(w, i, x - area.x, y - row);
        }
        if page.wraps(1, w) && here.y >= end {
            lemma_none_below(area, w, row, x, y, i + 1, n);
        } else {
            let put = here.put(ch, 1usize, style);
            assert(page.written(chars, k, style, w, end) == put.written(
                chars,
                k + 1,
                style,
                w,
                end,
            ));
            lemma_narrow_put(here, ch, style, x, y);
            lemma_next_place(w, i, i + 1);
            lemma_written_narrow(put, chars, k + 1, style, w, row, end, p, x, y);
        }
    }
}

/// The character `k` follows on the one before it, or starts the next row.
proof fn lemma_next_place(w: int, k: int, n: int)
    requires
        0 < w,
        0 <= k < n,
    ensures
        0 <= k % w < w,
        k == (k / w) * w + k % w,
        0 <= k / w <= (n - 1) / w,
        k > 0 && (k - 1) % w + 1 == w ==> k % w == 0 && k / w == (k - 1) / w + 1,
        k > 0 && (k - 1) % w + 1 < w ==> k % w == (k - 1) % w + 1 && k / w == (k - 1) / w,
        k == 0 ==> k % w == 0 && k / w == 0,
        k > 0 ==> 0 <= (k - 1) % w < w,
{
    vstd::arithmetic::div_mod::lemma_fundamental_div_mod(k, w);
    vstd::arithmetic::div_mod::lemma_mod_bound(k, w);
    assert(w * (k / w) == (k / w) * w) by (nonlinear_arith);
    vstd::arithmetic::div_mod::lemma_div_is_ordered(k, n - 1, w);
    vstd::arithmetic::div_mod::lemma_div_pos_is_pos(k, w);
    if k > 0 {
        let a = (k - 1) / w;
        let b = (k - 1) % w;
        vstd::arithmetic::div_mod::lemma_fundamental_div_mod(k - 1, w);
        vstd::arithmetic::div_mod::lemma_mod_bound(k - 1, w);
        assert(w * a == a * w) by (nonlinear_arith);
        if b + 1 == w {
            assert((a + 1) * w == a * w + w) by (nonlinear_arith);
            vstd::arithmetic::div_mod::lemma_fundamental_div_mod_converse(k, w, a + 1, 0);
        } else {
            vstd::arithmetic::div_mod::lemma_fundamental_div_mod_converse(k, w, a, b + 1);
        }
    } else {
        vstd::arithmetic::div_mod::lemma_fundamental_div_mod_converse(k, w, 0, 0);
    }
}

/// The characters of the spans of a line from `from` on, each with its style.
pub open spec fn styled_from(line: LineView, from: int) -> Seq<(char, Style)>
    decreases line.spans.len() - from,
{
    if from >= line.spans.len() {
        Seq::empty()
    } else {
        let span = line.spans[from];
        span.content.map_values(|c: char| (c, line.style.spec_patch(span.style))) + styled_from(
            line,
            from + 1,
        )
    }
}

/// The characters of a line, each with its style.
pub open spec fn styled(line: LineView) -> Seq<(char, Style)> {
    styled_from(line, 0)
}

/// Whether all characters of a line take one column each, and together as many as there are.
pub open spec fn is_narrow_line(line: LineView) -> bool {
    &&& line.columns() == styled(line).len()
    &&& forall|i: int| 0 <= i < line.spans.len() ==> is_narrow((#[trigger] line.spans[i]).content)
}

/// The columns of several texts, the first `n` of them and the rest.
proof fn lemma_styled_columns(line: LineView, n: int)
    requires
        0 <= n <= line.spans.len(),
        forall|i: int|
            0 <= i < line.spans.len() ==> text::is_ascii((#[trigger] line.spans[i]).content),
    ensures
        text::total_columns(
            line.spans.map_values(|s: text::SpanView| s.content).take(n),
        ) + styled_from(line, n).len() == styled(line).len(),
    decreases n,
{
    let texts = line.spans.map_values(|s: text::SpanView| s.content);
    if n == 0 {
        assert(texts.take(0) =~= Seq::empty());
        assert(text::total_columns(texts.take(0)) == 0);
    } else {
        lemma_styled_columns(line, n - 1);
        assert(texts.take(n).drop_last() =~= texts.take(n - 1));
        assert(texts.take(n).last() == line.spans[n - 1].content);
        assert(text::is_ascii(line.spans[n - 1].content));
    }
}

/// A line of printable ASCII characters is narrow.
pub proof fn law_ascii_line_is_narrow(line: LineView)
    requires
        forall|i: int|
            0 <= i < line.spans.len() ==> text::is_ascii((#[trigger] line.spans[i]).content),
    ensures
        is_narrow_line(line),
{
    let n = line.spans.len() as int;
    let texts = line.spans.map_values(|s: text::SpanView| s.content);
    lemma_styled_columns(line, n);
    assert(texts.take(n) =~= texts);
    assert forall|i: int| 0 <= i < line.spans.len() implies is_narrow(
        (#[trigger] line.spans[i]).content,
    ) by {
        let chars = line.spans[i].content;
        assert(text::is_ascii(chars));
        assert forall|k: int| 0 <= k < chars.len() implies text::is_printable_ascii(
            #[trigger] chars[k],
        ) by {}
    }
}

/// A cell that a character has been set into.
pub open spec fn set_into(cell: CellView, c: (char, Style)) -> CellView {
    cell.with_symbol(buffer::glyph(c.0)).with_style(c.1)
}

/// The spans of a narrow line from `from` on are written behind the `p` characters that stand
/// before them.
proof fn lemma_spans_narrow(
    page: Page,
    line: LineView,
    from: int,
    w: int,
    row: int,
    end: u16,
    p: int,
    x: int,
    y: int,
)
    requires
        0 <= p,
        0 <= from <= line.spans.len(),
        stands_behind(page, p, w, row) || stands_below(page, p, w, row),
        0 < w,
        forall|i: int| 0 <= i < line.spans.len() ==> is_narrow((#[trigger] line.spans[i]).content),
        page.grid.area.spec_bottom() <= end || (p + styled_from(line, from).len() > 0 ==> row + (p
            + styled_from(line, from).len() - 1) / w < end),
        page.grid.holds(x, y),
    ensures
        ({
            let done = page.with_spans(line, from, w, end).grid;
            let area = page.grid.area;
            let n = styled_from(line, from).len();
            &&& done.wf()
            &&& done.area == area
            &&& done.at(x, y) == (if lies_among(area, w, row, x, y, p, (p + n) as int) {
                set_into(
                    page.grid.at(x, y),
                    styled_from(line, from)[(y - row) * w + (x - area.x) - p],
                )
            } else {
                page.grid.at(x, y)
            })
        }),
    decreases line.spans.len() - from,
{
    if from < line.spans.len() {
        let span = line.spans[from];
        let style = line.style.spec_patch(span.style);
        let m = span.content.len() as int;
        let rest = styled_from(line, from + 1);
        let all = styled_from(line, from);
        assert(all.len() == m + rest.len());
        if p + m > 0 {
            vstd::arithmetic::div_mod::lemma_div_is_ordered(p + m - 1, p + all.len() - 1, w);
        }
        assert(is_narrow(line.spans[from].content));
        lemma_written_narrow(page, span.content, 0, style, w, row, end, p, x, y);
        let next = page.written(span.content, 0, style, w, end);
        lemma_spans_narrow(next, line, from + 1, w, row, end, p + m, x, y);
    }
}

/// The rows of the first lines add up.
proof fn lemma_rows_add_up(lines: Seq<LineView>, w: int, i: int, j: int)
    requires
        0 < w,
        0 <= i <= j <= lines.len(),
    ensures
        0 <= total_rows(lines.take(i), w),
        total_rows(lines.take(i), w) + (j - i) <= total_rows(lines.take(j), w),
        i < lines.len() ==> total_rows(lines.take(i + 1), w) == total_rows(lines.take(i), w)
            + line_rows(lines[i], w),
    decreases j,
{
    law_every_line_takes_a_row(lines.take(i), w);
    if i < lines.len() {
        assert(lines.take(i + 1).drop_last() =~= lines.take(i));
    }
    if i < j {
        lemma_rows_add_up(lines, w, i, j - 1);
        assert(lines.take(j).drop_last() =~= lines.take(j - 1));
        vstd::arithmetic::div_mod::lemma_div_pos_is_pos(
            geometry::greatest(lines[j - 1].columns() as int, 1) - 1,
            w,
        );
    }
}

/// The characters of a narrow line find room in its rows.
proof fn lemma_narrow_line_fits(line: LineView, w: int)
    requires
        0 < w,
        is_narrow_line(line),
    ensures
        styled(line).len() <= line_rows(line, w) * w,
        styled(line).len() > 0 ==> (styled(line).len() - 1) / w < line_rows(line, w),
        1 <= line_rows(line, w),
{
    let n = geometry::greatest(line.columns() as int, 1);
    vstd::arithmetic::div_mod::lemma_div_pos_is_pos(n - 1, w);
    vstd::arithmetic::div_mod::lemma_fundamental_div_mod(n - 1, w);
    vstd::arithmetic::div_mod::lemma_mod_bound(n - 1, w);
    assert(((n - 1) / w + 1) * w == w * ((n - 1) / w) + w) by (nonlinear_arith);
}

/// Where the character `k` of the line `i` stands in an area, if the lines are wrapped at the column
/// `wrap`.
pub open spec fn place_of(
    area: Rect,
    lines: Seq<LineView>,
    wrap: int,
    i: int,
    k: int,
) -> (int, int) {
    (area.x + k % wrap, area.y + total_rows(lines.take(i), wrap) + k / wrap)
}

/// Whether narrow lines can be written into a grid, wrapped at the column `wrap`: the grid has so
/// many columns, and the columns and the rows of each line can be counted.
pub open spec fn can_hold(grid: Grid, lines: Seq<LineView>, wrap: int) -> bool {
    &&& grid.wf()
    &&& 0 < wrap <= grid.area.width
    &&& grid.area.x + wrap <= u16::MAX
    &&& forall|j: int|
        0 <= j < lines.len() ==> is_narrow_line(#[trigger] lines[j]) && line_rows(lines[j], wrap)
            <= u16::MAX
}

/// One narrow line that is written from its row on.
proof fn lemma_line_narrow(
    grid: Grid,
    lines: Seq<LineView>,
    from: int,
    w: int,
    row: u16,
    x: int,
    y: int,
)
    requires
        can_hold(grid, lines, w),
        0 <= from < lines.len(),
        row == grid.area.y + total_rows(lines.take(from), w),
        grid.holds(x, y),
    ensures
        ({
            let line = lines[from];
            let end = geometry::plus(row, line_rows(line, w) as u16);
            let done = Page { grid, x: grid.area.x, y: row }.with_spans(line, 0, w, end).grid;
            let n = styled(line).len() as int;
            &&& end == geometry::least(row + line_rows(line, w), u16::MAX as int)
            &&& row + line_rows(line, w) == grid.area.y + total_rows(lines.take(from + 1), w)
            &&& can_hold(done, lines, w)
            &&& done.area == grid.area
            &&& n <= line_rows(line, w) * w
            &&& done.at(x, y) == (if lies_among(grid.area, w, row as int, x, y, 0, n) {
                set_into(grid.at(x, y), styled(line)[(y - row) * w + (x - grid.area.x)])
            } else {
                grid.at(x, y)
            })
        }),
{
    let line = lines[from];
    lemma_rows_add_up(lines, w, from, from);
    lemma_narrow_line_fits(line, w);
    let end = geometry::plus(row, line_rows(line, w) as u16);
    let page = Page { grid, x: grid.area.x, y: row };
    lemma_spans_narrow(page, line, 0, w, row as int, end, 0, x, y);
}

/// A place that no character of the narrow lines from `from` on stands at keeps its cell.
proof fn lemma_rendered_unchanged(
    grid: Grid,
    lines: Seq<LineView>,
    from: int,
    w: int,
    row: u16,
    x: int,
    y: int,
)
    requires
        can_hold(grid, lines, w),
        0 <= from <= lines.len(),
        row == grid.area.y + total_rows(lines.take(from), w),
        grid.holds(x, y),
        forall|i: int, k: int|
            from <= i < lines.len() && 0 <= k < styled(lines[i]).len() ==> #[trigger] place_of(
                grid.area,
                lines,
                w,
                i,
                k,
            ) != (x, y),
    ensures
        rendered(grid, lines, from, w, row).at(x, y) == grid.at(x, y),
    decreases lines.len() - from,
{
    if from < lines.len() {
        let line = lines[from];
        let end = geometry::plus(row, line_rows(line, w) as u16);
        let next = Page { grid, x: grid.area.x, y: row }.with_spans(line, 0, w, end).grid;
        lemma_line_narrow(grid, lines, from, w, row, x, y);
        let k = (y - row) * w + (x - grid.area.x);
        if lies_among(grid.area, w, row as int, x, y, 0, styled(line).len() as int) {
            lemma_numbered(w, k, x - grid.area.x, y - row);
            assert(place_of(grid.area, lines, w, from, k) == (x, y));
        }
        assert(next.at(x, y) == grid.at(x, y));
        if end < grid.area.spec_bottom() {
            lemma_rendered_unchanged(next, lines, from + 1, w, end, x, y);
        }
    }
}

/// The place of a character of the line `i` lies in the rows of that line.
proof fn lemma_place(area: Rect, lines: Seq<LineView>, w: int, i: int, k: int)
    requires
        0 < w,
        0 <= i < lines.len(),
        0 <= k < line_rows(lines[i], w) * w,
    ensures
        0 <= k % w < w,
        k == (k / w) * w + k % w,
        0 <= k / w < line_rows(lines[i], w),
        area.y + total_rows(lines.take(i), w) <= place_of(area, lines, w, i, k).1 < area.y
            + total_rows(lines.take(i + 1), w),
{
    let rows = line_rows(lines[i], w);
    lemma_rows_add_up(lines, w, i, i);
    lemma_next_place(w, k, k + 1);
    assert(k / w < rows) by (nonlinear_arith)
        requires
            k == (k / w) * w + k % w,
            0 <= k % w < w,
            k < rows * w,
    ;
}

/// Characters of two lines stand in different rows.
proof fn lemma_places_differ(
    area: Rect,
    lines: Seq<LineView>,
    w: int,
    i: int,
    k: int,
    j: int,
    m: int,
)
    requires
        0 < w,
        0 <= i < lines.len(),
        0 <= j < lines.len(),
        i != j,
        0 <= k < line_rows(lines[i], w) * w,
        0 <= m < line_rows(lines[j], w) * w,
    ensures
        place_of(area, lines, w, i, k).1 != place_of(area, lines, w, j, m).1,
{
    lemma_place(area, lines, w, i, k);
    lemma_place(area, lines, w, j, m);
    if i < j {
        lemma_rows_add_up(lines, w, i + 1, j);
    } else {
        lemma_rows_add_up(lines, w, j + 1, i);
    }
}

/// The place of the character `k` of the line `i`, once the narrow lines from `from` on are
/// written.
proof fn lemma_rendered_set(
    grid: Grid,
    lines: Seq<LineView>,
    from: int,
    w: int,
    row: u16,
    i: int,
    k: int,
)
    requires
        can_hold(grid, lines, w),
        0 <= from <= i < lines.len(),
        row == grid.area.y + total_rows(lines.take(from), w),
        0 <= k < styled(lines[i]).len(),
        place_of(grid.area, lines, w, i, k).1 < grid.area.spec_bottom(),
    ensures
        ({
            let (x, y) = place_of(grid.area, lines, w, i, k);
            &&& grid.holds(x, y)
            &&& rendered(grid, lines, from, w, row).at(x, y) == set_into(
                grid.at(x, y),
                styled(lines[i])[k],
            )
        }),
    decreases lines.len() - from,
{
    let (x, y) = place_of(grid.area, lines, w, i, k);
    let line = lines[from];
    lemma_narrow_line_fits(lines[i], w);
    lemma_place(grid.area, lines, w, i, k);
    lemma_rows_add_up(lines, w, i, i);
    assert(grid.holds(x, y));
    let end = geometry::plus(row, line_rows(line, w) as u16);
    let next = Page { grid, x: grid.area.x, y: row }.with_spans(line, 0, w, end).grid;
    lemma_line_narrow(grid, lines, from, w, row, x, y);
    if from == i {
        assert((y - row) * w + (x - grid.area.x) == k);
        if end < grid.area.spec_bottom() {
            assert forall|j: int, m: int|
                from + 1 <= j < lines.len() && 0 <= m < styled(lines[j]).len() implies #[trigger]
                place_of(next.area, lines, w, j, m) != (x, y) by {
                lemma_narrow_line_fits(lines[j], w);
                lemma_places_differ(grid.area, lines, w, i, k, j, m);
            }
            lemma_rendered_unchanged(next, lines, from + 1, w, end, x, y);
        }
    } else {
        lemma_rows_add_up(lines, w, from + 1, i);
        assert(end <= y);
        assert((y - row) * w >= line_rows(line, w) * w) by (nonlinear_arith)
            requires
                y - row >= line_rows(line, w),
                0 < w,
        ;
        lemma_rendered_set(next, lines, from + 1, w, end, i, k);
    }
}

/// Lines of narrow characters are written cell by cell: the character `k` of a line stands in the
/// column `k % wrap` of its row `k / wrap`, if the grid has that row, and each line starts below
/// the rows that the lines before it take.
pub proof fn law_narrow_lines_fill_rows(
    grid: Grid,
    lines: Seq<LineView>,
    wrap: int,
    i: int,
    k: int,
)
    requires
        can_hold(grid, lines, wrap),
        0 <= i < lines.len(),
        0 <= k < styled(lines[i]).len(),
        place_of(grid.area, lines, wrap, i, k).1 < grid.area.spec_bottom(),
    ensures
        ({
            let (x, y) = place_of(grid.area, lines, wrap, i, k);
            let done = rendered(grid, lines, 0, wrap, grid.area.y);
            &&& done.area == grid.area
            &&& grid.holds(x, y)
            &&& done.at(x, y) == set_into(grid.at(x, y), styled(lines[i])[k])
        }),
{
    lemma_rendered(grid, lines, 0, wrap, grid.area.y);
    assert(lines.take(0) =~= Seq::empty());
    assert(total_rows(lines.take(0), wrap) == 0);
    lemma_rendered_set(grid, lines, 0, wrap, grid.area.y, i, k);
}

/// Writing lines of narrow characters changes no cell but those that their characters stand in.
pub proof fn law_narrow_lines_change_no_other_cell(
    grid: Grid,
    lines: Seq<LineView>,
    wrap: int,
    x: int,
    y: int,
)
    requires
        can_hold(grid, lines, wrap),
        grid.holds(x, y),
        forall|i: int, k: int|
            0 <= i < lines.len() && 0 <= k < styled(lines[i]).len() ==> #[trigger] place_of(
                grid.area,
                lines,
                wrap,
                i,
                k,
            ) != (x, y),
    ensures
        rendered(grid, lines, 0, wrap, grid.area.y).at(x, y) == grid.at(x, y),
{
    assert(lines.take(0) =~= Seq::empty());
    assert(total_rows(lines.take(0), wrap) == 0);
    lemma_rendered_unchanged(grid, lines, 0, wrap, grid.area.y, x, y);
}

/// The rows of history that lines of narrow characters take hold their characters one by one, and
/// the rest of the last row of each line is blank.
pub proof fn law_narrow_history_fills_rows(lines: Seq<LineView>, width: u16, i: int, k: int)
    requires
        0 < width,
        forall|j: int|
            0 <= j < lines.len() ==> is_narrow_line(#[trigger] lines[j]) && line_rows(
                lines[j],
                width as int,
            ) <= u16::MAX,
        0 <= i < lines.len(),
        0 <= k < line_rows(lines[i], width as int) * width,
        total_rows(lines.take(i), width as int) + k / (width as int) < u16::MAX,
    ensures
        ({
            let w = width as int;
            let grid = history_grid(lines, width);
            let chars = styled(lines[i]);
            &&& grid.area.height == geometry::least(total_rows(lines, w), u16::MAX as int)
            &&& grid.at(k % w, total_rows(lines.take(i), w) + k / w) == (if k < chars.len() {
                set_into(buffer::blank(), chars[k])
            } else {
                buffer::blank()
            })
        }),
{
    let w = width as int;
    law_every_line_takes_a_row(lines, w);
    let height = inserted_rows(lines, w);
    let empty = Grid::spec_empty(Rect { x: 0, y: 0, width, height });
    lemma_rendered(empty, lines, 0, w, 0);
    assert(lines.take(lines.len() as int) =~= lines);
    lemma_rows_add_up(lines, w, i, i);
    lemma_rows_add_up(lines, w, i + 1, lines.len() as int);
    lemma_place(empty.area, lines, w, i, k);
    let (x, y) = place_of(empty.area, lines, w, i, k);
    assert(empty.holds(x, y));
    buffer::lemma_index(empty, x, y);
    if k < styled(lines[i]).len() {
        law_narrow_lines_fill_rows(empty, lines, w, i, k);
    } else {
        assert forall|j: int, m: int|
            0 <= j < lines.len() && 0 <= m < styled(lines[j]).len() implies #[trigger] place_of(
            empty.area,
            lines,
            w,
            j,
            m,
        ) != (x, y) by {
            lemma_narrow_line_fits(lines[j], w);
            if i == j {
                lemma_place(empty.area, lines, w, j, m);
            } else {
                lemma_places_differ(empty.area, lines, w, i, k, j, m);
            }
        }
        law_narrow_lines_change_no_other_cell(empty, lines, w, x, y);
    }
}

/// How many characters the first `n` spans of a line hold.
pub open spec fn characters(line: LineView, n: int) -> nat
    decreases n,
{
    if n <= 0 {
        0
    } else {
        characters(line, n - 1) + line.spans[n - 1].content.len()
    }
}

/// The characters of a span stand behind those of the spans before it.
proof fn lemma_span_stands(line: LineView, n: int, from: int, j: int)
    requires
        0 <= from <= n < line.spans.len(),
        0 <= j < line.spans[n].content.len(),
    ensures
        characters(line, from) <= characters(line, n),
        ({
            let k = characters(line, n) - characters(line, from) + j;
            let span = line.spans[n];
            &&& k < styled_from(line, from).len()
            &&& styled_from(line, from)[k] == (span.content[j], line.style.spec_patch(span.style))
        }),
    decreases n - from,
{
    if from < n {
        lemma_span_stands(line, n, from + 1, j);
        assert(characters(line, from + 1) == characters(line, from)
            + line.spans[from].content.len());
    }
}

/// Each character of a narrow line of history stands behind those of the line that come before it,
/// row by row, in the look that the line's style gives a blank cell, with the style of its span
/// laid over that.
pub proof fn law_characters_look_as_their_span_says(
    lines: Seq<LineView>,
    width: u16,
    i: int,
    n: int,
    j: int,
)
    requires
        0 < width,
        forall|m: int|
            0 <= m < lines.len() ==> is_narrow_line(#[trigger] lines[m]) && line_rows(
                lines[m],
                width as int,
            ) <= u16::MAX,
        0 <= i < lines.len(),
        0 <= n < lines[i].spans.len(),
        0 <= j < lines[i].spans[n].content.len(),
        total_rows(lines.take(i), width as int) + (characters(lines[i], n) + j) / (width as int)
            < u16::MAX,
    ensures
        ({
            let w = width as int;
            let k = characters(lines[i], n) + j;
            let span = lines[i].spans[n];
            history_grid(lines, width).at(k % w, total_rows(lines.take(i), w) + k / w)
                == buffer::blank().with_style(lines[i].style).with_style(span.style).with_symbol(
                buffer::glyph(span.content[j]),
            )
        }),
{
    let k = characters(lines[i], n) + j;
    let span = lines[i].spans[n];
    lemma_span_stands(lines[i], n, 0, j);
    lemma_narrow_line_fits(lines[i], width as int);
    law_narrow_history_fills_rows(lines, width, i, k);
    buffer::law_patched_style_is_both_styles(
        buffer::blank().with_symbol(buffer::glyph(span.content[j])),
        lines[i].style,
        span.style,
    );
}

/// A line takes as many rows as its columns need, and no more; an empty one takes one.
pub proof fn law_lines_take_as_few_rows_as_hold_them(line: LineView, wrap: int)
    requires
        wrap > 0,
    ensures
        1 <= line_rows(line, wrap),
        line.columns() <= line_rows(line, wrap) * wrap,
        line_rows(line, wrap) > 1 ==> (line_rows(line, wrap) - 1) * wrap < line.columns(),
{
    let n = geometry::greatest(line.columns() as int, 1);
    vstd::arithmetic::div_mod::lemma_div_pos_is_pos(n - 1, wrap);
    vstd::arithmetic::div_mod::lemma_fundamental_div_mod(n - 1, wrap);
    vstd::arithmetic::div_mod::lemma_mod_bound(n - 1, wrap);
    assert(((n - 1) / wrap + 1) * wrap == wrap * ((n - 1) / wrap) + wrap) by (nonlinear_arith);
    assert((n - 1) / wrap * wrap == wrap * ((n - 1) / wrap)) by (nonlinear_arith);
}

/// The rows of several lines are those of each of them together.
pub proof fn law_rows_of_lines_add_up(lines: Seq<LineView>, more: Seq<LineView>, wrap: int)
    ensures
        total_rows(lines + more, wrap) == total_rows(lines, wrap) + total_rows(more, wrap),
        more.len() == 1 ==> total_rows(more, wrap) == line_rows(more[0], wrap),
    decreases more.len(),
{
    if more.len() == 0 {
        assert(lines + more =~= lines);
    } else {
        assert((lines + more).drop_last() =~= lines + more.drop_last());
        law_rows_of_lines_add_up(lines, more.drop_last(), wrap);
        if more.len() == 1 {
            assert(more.drop_last() =~= Seq::empty());
            assert(total_rows(more.drop_last(), wrap) == 0);
        }
    }
}

/// A character with columns is written where the page stands if it ends within the column `wrap`
/// there, and at the start of the next row if it does not; the page then stands behind it. Below
/// `end` no row is started.
pub proof fn law_characters_are_written_where_they_fit(
    page: Page,
    ch: char,
    n: usize,
    style: Style,
    wrap: int,
    end: u16,
)
    requires
        ch != '\n',
        ch != '\r',
        text::char_columns(ch) == Some(n),
        0 < n <= wrap,
        page.grid.area.x <= page.x,
        page.grid.area.x + wrap <= u16::MAX,
        page.x + n <= u16::MAX,
        page.y < u16::MAX,
    ensures
        ({
            let area = page.grid.area;
            let done = page.written(seq![ch], 0, style, wrap, end);
            let fits = page.x - area.x + n <= wrap;
            let x = if fits {
                page.x as int
            } else {
                area.x as int
            };
            let y = if fits {
                page.y as int
            } else {
                page.y + 1
            };
            &&& !fits && y >= end ==> done.grid == page.grid
            &&& fits || y < end ==> {
                &&& done.x == x + n
                &&& done.y == y
                &&& page.grid.holds(x, y) ==> done.grid == page.grid.with_char(
                    x as u16,
                    y as u16,
                    ch,
                    style,
                )
                &&& y >= area.spec_bottom() ==> done.grid == page.grid
            }
        }),
{
    let here = if page.x - page.grid.area.x + n <= wrap {
        page
    } else {
        page.next_row()
    };
    let put = here.put(ch, n, style);
    assert(seq![ch][0] == ch);
    assert(put.written(seq![ch], 1, style, wrap, end) == put);
}

/// A line feed or a carriage return starts the next row, and a character without columns is left
/// out.
pub proof fn law_characters_without_columns_write_nothing(
    page: Page,
    ch: char,
    style: Style,
    wrap: int,
    end: u16,
)
    requires
        page.y < u16::MAX,
    ensures
        ({
            let done = page.written(seq![ch], 0, style, wrap, end);
            &&& ch == '\n' || ch == '\r' ==> done == (Page {
                grid: page.grid,
                x: page.grid.area.x,
                y: (page.y + 1) as u16,
            })
            &&& ch != '\n' && ch != '\r' && (text::char_columns(ch) is None || text::char_columns(
                ch,
            ) == Some(0usize)) ==> done == page
        }),
{
    assert(seq![ch][0] == ch);
    assert(page.written(seq![ch], 1, style, wrap, end) == page);
    assert(page.next_row().written(seq![ch], 1, style, wrap, end) == page.next_row());
}

/// What is written of a text from some place on is what is written of the rest of it.
proof fn lemma_written_rest(
    page: Page,
    a: Seq<char>,
    b: Seq<char>,
    k: int,
    style: Style,
    wrap: int,
    end: u16,
)
    requires
        0 <= k <= b.len(),
    ensures
        page.written(a + b, a.len() + k, style, wrap, end) == page.written(b, k, style, wrap, end),
    decreases b.len() - k,
{
    if k < b.len() {
        assert((a + b)[a.len() + k] == b[k]);
        lemma_written_rest(page, a, b, k + 1, style, wrap, end);
        lemma_written_rest(page.next_row(), a, b, k + 1, style, wrap, end);
        match text::char_columns(b[k]) {
            Some(n) => {
                lemma_written_rest(page.put(b[k], n, style), a, b, k + 1, style, wrap, end);
                lemma_written_rest(
                    page.next_row().put(b[k], n, style),
                    a,
                    b,
                    k + 1,
                    style,
                    wrap,
                    end,
                );
            },
            None => {},
        }
    }
}

/// The rest of a text is written behind its start.
proof fn lemma_written_behind(
    page: Page,
    a: Seq<char>,
    b: Seq<char>,
    k: int,
    style: Style,
    wrap: int,
    end: u16,
)
    requires
        0 <= k <= a.len(),
        page.written(a, k, style, wrap, end).y < end,
    ensures
        page.written(a + b, k, style, wrap, end) == page.written(a, k, style, wrap, end).written(
            b,
            0,
            style,
            wrap,
            end,
        ),
    decreases a.len() - k,
{
    if k == a.len() {
        lemma_written_rest(page, a, b, 0, style, wrap, end);
    } else {
        assert((a + b)[k] == a[k]);
        let next = page.next_row();
        if a[k] == '\n' || a[k] == '\r' {
            lemma_written_behind(next, a, b, k + 1, style, wrap, end);
        } else {
            match text::char_columns(a[k]) {
                Some(n) if n > 0 => {
                    if !page.wraps(n as int, wrap) {
                        lemma_written_behind(
                            page.put(a[k], n, style),
                            a,
                            b,
                            k + 1,
                            style,
                            wrap,
                            end,
                        );
                    } else {
                        lemma_written_behind(
                            next.put(a[k], n, style),
                            a,
                            b,
                            k + 1,
                            style,
                            wrap,
                            end,
                        );
                    }
                },
                _ => {
                    lemma_written_behind(page, a, b, k + 1, style, wrap, end);
                },
            }
        }
    }
}

/// Text is written character by character: what follows on a text is written behind it, as long as
/// the rows that it may take have not ended.
pub proof fn law_text_is_written_in_order(
    page: Page,
    a: Seq<char>,
    b: Seq<char>,
    style: Style,
    wrap: int,
    end: u16,
)
    requires
        page.written(a, 0, style, wrap, end).y < end,
    ensures
        page.written(a + b, 0, style, wrap, end) == page.written(a, 0, style, wrap, end).written(
            b,
            0,
            style,
            wrap,
            end,
        ),
{
    lemma_written_behind(page, a, b, 0, style, wrap, end);
}

/// History that is inserted counts as visible as far as there are rows above the viewport for it.
pub proof fn law_inserted_history_is_counted(t: TerminalView, lines: Seq<LineView>)
    requires
        lines.len() > 0,
        t.viewport_area.width > 0,
        t.visible_history_rows <= t.viewport_area.y,
    ensures
        ({
            let u = t.with_history(lines, InsertHistoryMode::Standard);
            u.visible_history_rows == geometry::least(
                t.visible_history_rows + geometry::least(
                    total_rows(lines, t.viewport_area.width as int),
                    u16::MAX as int,
                ),
                u.viewport_area.y as int,
            )
        }),
{
    let w = t.viewport_area.width as int;
    law_every_line_takes_a_row(lines, w);
    let wrap = geometry::upper(t.viewport_area.width, 1) as int;
    assert(wrap == w);
    let empty = Grid::spec_empty(
        Rect { x: 0, y: 0, width: t.viewport_area.width, height: inserted_rows(lines, wrap) },
    );
    lemma_rendered(empty, lines, 0, wrap, 0);
    assert(history_grid(lines, t.viewport_area.width).area.height == inserted_rows(lines, wrap));
}

/// Every line takes at least one row.
pub proof fn law_every_line_takes_a_row(lines: Seq<LineView>, wrap: int)
    requires
        wrap > 0,
    ensures
        total_rows(lines, wrap) >= lines.len(),
    decreases lines.len(),
{
    if lines.len() > 0 {
        law_every_line_takes_a_row(lines.drop_last(), wrap);
        vstd::arithmetic::div_mod::lemma_div_pos_is_pos(
            geometry::greatest(lines.last().columns() as int, 1) - 1,
            wrap,
        );
    }
}

/// How many rows of `wrap_width` columns a line takes.
fn count_rows(line: &Line, wrap_width: usize) -> (r: usize)
    requires
        wrap_width > 0,
    ensures
        r == line_rows(line@, wrap_width as int),
        r > 0,
{
    let width: usize = line_width(line);
    let last: usize = if width > 1 {
        width - 1
    } else {
        0
    };
    assert(0 <= last / wrap_width <= last) by (nonlinear_arith)
        requires
            wrap_width > 0,
    ;
    last / wrap_width + 1
}

/// How many rows of `wrap_width` columns are inserted for several lines.
pub fn physical_rows(lines: &Vec<Line>, wrap_width: usize) -> (r: u16)
    ensures
        r == inserted_rows(
            views(lines@),
            geometry::greatest(wrap_width as int, 1),
        ),
        lines@.len() > 0 ==> r > 0,
{
    let wrap: usize = if wrap_width > 1 {
        wrap_width
    } else {
        1
    };
    let ghost all = views(lines@);
    let mut rows: usize = 0;
    let mut i: usize = 0;
    while i < lines.len()
        invariant
            i <= lines.len(),
            wrap > 0,
            all == views(lines@),
            rows == geometry::least(total_rows(all.take(i as int), wrap as int), u16::MAX as int),
            i > 0 ==> rows > 0,
        decreases lines.len() - i,
    {
        let more: usize = count_rows(&lines[i], wrap);
        proof {
            let next = all.take(i + 1);
            assert(next.drop_last() =~= all.take(i as int));
            assert(next.last() == lines@[i as int]@);
        }
        rows = if more >= u16::MAX as usize - rows {
            u16::MAX as usize
        } else {
            rows + more
        };
        i += 1;
    }
    assert(all.take(i as int) =~= all);
    rows as u16
}

/// Writes the characters of a text, wrapped at the column `wrap` and down to before the row `end`;
/// says where the next character goes.
fn write_chars(
    buffer: &mut Buffer,
    at: Position,
    content: &str,
    style: Style,
    wrap: usize,
    end: u16,
) -> (r: Position)
    requires
        old(buffer)@.wf(),
        old(buffer)@.area.x <= at.x,
        old(buffer)@.area.y <= at.y,
    ensures
        final(buffer)@.wf(),
        final(buffer)@.area == old(buffer)@.area,
        final(buffer)@.area.x <= r.x,
        final(buffer)@.area.y <= r.y,
        (Page { grid: final(buffer)@, x: r.x, y: r.y }) == (Page {
            grid: old(buffer)@,
            x: at.x,
            y: at.y,
        }).written(content@, 0, style, wrap as int, end),
{
    let chars: Vec<char> = chars_of(content);
    let ghost start = Page { grid: buffer@, x: at.x, y: at.y };
    let mut x: u16 = at.x;
    let mut y: u16 = at.y;
    let mut i: usize = 0;
    while i < chars.len()
        invariant_except_break
            i <= chars.len(),
            (Page { grid: buffer@, x, y }).written(chars@, i as int, style, wrap as int, end)
                == start.written(chars@, 0, style, wrap as int, end),
        invariant
            buffer@.wf(),
            buffer@.area == start.grid.area,
            buffer@.area.x <= x,
            buffer@.area.y <= y,
        ensures
            (Page { grid: buffer@, x, y }) == start.written(
                chars@,
                0,
                style,
                wrap as int,
                end,
            ),
        decreases chars.len() - i,
    {
        let ghost page = Page { grid: buffer@, x, y };
        let ch: char = chars[i];
        i += 1;
        if ch == '\n' || ch == '\r' {
            y = y.saturating_add(1);
            x = buffer.area.x;
            if y >= end {
                break;
            }
        } else if let Some(width) = char_width(ch) {
            if width > 0 {
                let used: usize = x.saturating_sub(buffer.area.x) as usize;
                if used > wrap || width > wrap - used {
                    y = y.saturating_add(1);
                    x = buffer.area.x;
                    if y >= end {
                        break;
                    }
                }
                if y < buffer.area.bottom() && x < buffer.area.right() {
                    buffer.set_char(x, y, ch, style);
                }
                x = x.saturating_add(
                    #[verifier::truncate]
                    (width as u16),
                );
            }
        }
    }
    Position { x, y }
}

/// Writes the spans of a line, wrapped at the column `wrap` and down to before the row `end`.
fn write_spans(buffer: &mut Buffer, row: u16, line: &Line, wrap: usize, end: u16)
    requires
        old(buffer)@.wf(),
        old(buffer)@.area.y <= row,
    ensures
        final(buffer)@.wf(),
        final(buffer)@.area == old(buffer)@.area,
        final(buffer)@ == (Page {
            grid: old(buffer)@,
            x: old(buffer)@.area.x,
            y: row,
        }).with_spans(line@, 0, wrap as int, end).grid,
{
    let ghost start = Page { grid: buffer@, x: buffer@.area.x, y: row };
    let mut at: Position = Position { x: buffer.area.x, y: row };
    let mut i: usize = 0;
    while i < line.spans.len()
        invariant
            i <= line.spans.len(),
            buffer@.wf(),
            buffer@.area == start.grid.area,
            buffer@.area.x <= at.x,
            buffer@.area.y <= at.y,
            (Page { grid: buffer@, x: at.x, y: at.y }).with_spans(line@, i as int, wrap as int, end)
                == start.with_spans(line@, 0, wrap as int, end),
        decreases line.spans.len() - i,
    {
        let style: Style = line.style.patch(line.spans[i].style);
        at = write_chars(buffer, at, line.spans[i].content.as_str(), style, wrap, end);
        i += 1;
    }
}

/// Writes lines into a buffer, wrapped at the column `wrap_width`.
pub fn render_lines_to_buffer(buffer: &mut Buffer, lines: &Vec<Line>, wrap_width: usize)
    requires
        old(buffer)@.wf(),
    ensures
        final(buffer)@.wf(),
        final(buffer)@ == rendered(
            old(buffer)@,
            views(lines@),
            0,
            geometry::greatest(wrap_width as int, 1),
            old(buffer)@.area.y,
        ),
{
    let wrap: usize = if wrap_width > 1 {
        wrap_width
    } else {
        1
    };
    let ghost all = views(lines@);
    let ghost done = rendered(buffer@, all, 0, wrap as int, buffer@.area.y);
    let mut row: u16 = buffer.area.y;
    let mut i: usize = 0;
    while i < lines.len()
        invariant
            i <= lines.len(),
            wrap > 0,
            all == views(lines@),
            buffer@.wf(),
            buffer@.area.y <= row,
            wrap == geometry::greatest(wrap_width as int, 1),
            rendered(buffer@, all, i as int, wrap as int, row) == done,
            done == rendered(old(buffer)@, all, 0, wrap as int, old(buffer)@.area.y),
        decreases lines.len() - i,
    {
        let rows: usize = count_rows(&lines[i], wrap);
        let end: u16 = row.saturating_add(
            #[verifier::truncate]
            (rows as u16),
        );
        write_spans(buffer, row, &lines[i], wrap, end);
        row = end;
        if row >= buffer.area.bottom() {
            return;
        }
        i += 1;
    }
}

/// Tells the terminal to insert lines of history above the viewport.
pub fn insert_history_lines(terminal: &mut Terminal, lines: Vec<Line>)
    requires
        old(terminal).wf(),
        lines@.len() > 0 ==> old(terminal)@.takes_history(InsertHistoryMode::Standard),
    ensures
        final(terminal).wf(),
        final(terminal)@ == old(terminal)@.with_history(
            views(lines@),
            InsertHistoryMode::Standard,
        ),
{
    insert_history_lines_with_mode(terminal, lines, InsertHistoryMode::Standard);
}

/// Tells the terminal to insert lines of history above the viewport, in a mode.
pub fn insert_history_lines_with_mode(
    terminal: &mut Terminal,
    lines: Vec<Line>,
    mode: InsertHistoryMode,
)
    requires
        old(terminal).wf(),
        lines@.len() > 0 ==> old(terminal)@.takes_history(mode),
    ensures
        final(terminal).wf(),
        final(terminal)@ == old(terminal)@.with_history(views(lines@), mode),
{
    if lines.len() == 0 {
        return;
    }
    let wrap: u16 = geometry::max_u16(terminal.area().width, 1);
    let rows: u16 = physical_rows(&lines, wrap as usize);
    let last_cursor_pos: Position = terminal.cursor_pos();
    let ghost width = terminal@.viewport_area.width;
    let ghost done = history_grid(views(lines@), width);
    proof {
        let empty = Grid::spec_empty(Rect { x: 0, y: 0, width, height: rows });
        lemma_rendered(empty, views(lines@), 0, wrap as int, 0);
    }
    let draw_lines = |buffer: &mut Buffer|
        requires
            buffer@ == Grid::spec_empty(Rect { x: 0, y: 0, width, height: rows }),
        ensures
            final(buffer)@ == done,
        {
            render_lines_to_buffer(buffer, &lines, wrap as usize);
        };
    match mode {
        InsertHistoryMode::Standard => {
            terminal.insert_before(rows, draw_lines);
        },
        InsertHistoryMode::Zellij => {
            terminal.insert_before_without_scrolling_regions(rows, draw_lines);
            terminal.invalidate_viewport();
        },
    }
    terminal.set_cursor_position(last_cursor_pos);
    terminal.note_history_rows_inserted(rows);
}

} // verus!
