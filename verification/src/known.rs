//! Laws of what the terminal is taken to show: that is what the screen shows, also where the
//! viewport is cleared, changes its height or moves, and what is drawn next starts blank.

use vstd::prelude::*;

use crate::buffer;
use crate::buffer::CellView;
use crate::buffer::Grid;
use crate::command::OpOf;
use crate::diff;
use crate::display;
use crate::display::Display;
use crate::display::Glyph;
use crate::drawing;
use crate::geometry;
use crate::geometry::Position;
use crate::geometry::Rect;
use crate::geometry::Size;
use crate::history::InsertHistoryMode;
use crate::inline::InlineView;
use crate::inline::Screen;
use crate::insertion;
use crate::rows;
use crate::showing;
use crate::style::TermColor;
use crate::terminal;
use crate::terminal::TerminalView;
use crate::text::LineView;

verus! {

/// Whether a row of the screen shows nothing, in the terminal's own look.
pub open spec fn shows_nothing(row: Seq<Glyph>) -> bool {
    forall|x: int|
        0 <= x < row.len() ==> rows::is_empty(#[trigger] row[x]) && row[x].bg == TermColor::Reset
}

/// Whether the rows of the screen from `y` on show nothing.
pub open spec fn blank_from(d: Display, y: int) -> bool {
    forall|r: int| y <= r < d.rows.len() ==> shows_nothing(#[trigger] d.rows[r])
}

/// Whether all cells of a grid are blank.
pub open spec fn all_blank(cells: Seq<CellView>) -> bool {
    forall|i: int| 0 <= i < cells.len() ==> #[trigger] cells[i] == buffer::blank()
}

/// A row that shows nothing shows blank cells.
proof fn lemma_blank_row(seen: Seq<Glyph>, row: Seq<CellView>)
    requires
        seen.len() == row.len(),
        all_blank(row),
        shows_nothing(seen),
    ensures
        rows::row_shown(seen, row),
{
    showing::lemma_no_modifier();
    assert forall|c: int|
        0 <= c < row.len() && !rows::is_covered(row, c) && !diff::is_invalid(
            row[c],
        ) implies #[trigger] rows::place_shown(seen, row, c) by {
        assert(row[c] == buffer::blank());
        rows::lemma_blank_columns(row[c]);
        assert(rows::is_empty(seen[c]));
        if c + 1 < row.len() {
            assert(rows::is_empty(seen[c + 1]));
        }
    }
}

/// A grid of blank cells is shown by rows that show nothing.
proof fn lemma_blank_grid(seen: Seq<Seq<Glyph>>, grid: Grid)
    requires
        grid.wf(),
        all_blank(grid.cells),
        grid.area.y + grid.area.height <= seen.len(),
        forall|r: int|
            grid.area.y <= r < grid.area.y + grid.area.height ==> shows_nothing(#[trigger] seen[r])
                && seen[r].len() == grid.area.width,
    ensures
        drawing::grid_shown(seen, grid),
{
    let w = grid.area.width as int;
    let h = grid.area.height as int;
    buffer::lemma_cells(grid.area);
    assert forall|r: int| 0 <= r < h implies rows::row_shown(
        seen[grid.area.y + r],
        #[trigger] diff::line(grid.cells, w, r),
    ) by {
        drawing::lemma_line(grid.cells, w, h, r);
        let line = diff::line(grid.cells, w, r);
        assert forall|c: int| 0 <= c < line.len() implies #[trigger] line[c] == buffer::blank() by {
            assert(line[c] == grid.cells[r * w + c]);
        }
        assert(shows_nothing(seen[grid.area.y + r]));
        lemma_blank_row(seen[grid.area.y + r], line);
    }
}

/// A screen whose viewport is cleared shows nothing from its first row on, and that is what the
/// terminal is taken to show. All that stood above stays.
pub proof fn law_cleared_viewport_shows_nothing(t: TerminalView, d: Display)
    requires
        t.wf(),
        !t.viewport_area.spec_is_empty(),
        t.viewport_area.x == 0,
        t.is_on_screen(),
        t.is_size_of(d),
        d.is_plain(),
    ensures
        ({
            let u = t.cleared();
            let s = d.carried(insertion::since(t, u));
            let y = t.viewport_area.y as int;
            &&& u.output == t.output + insertion::since(t, u)
            &&& u.viewport_area == t.viewport_area
            &&& u.knows(s)
            &&& u.is_size_of(s)
            &&& blank_from(s, y)
            &&& insertion::above(s, y) == insertion::above(d, y)
            &&& s.rows.subrange(0, y) == d.rows.subrange(0, y)
            &&& s.history == d.history
            &&& all_blank(u.previous.cells)
            &&& u.wf()
        }),
{
    let u = t.cleared();
    let y = t.viewport_area.y as int;
    let w = t.viewport_area.width as int;
    let h = t.last_known_screen_size.height as int;
    let go = OpOf::MoveTo { x: t.viewport_area.x, y: t.viewport_area.y };
    let clear = OpOf::ClearFromCursorDown;
    assert(insertion::since(t, u) =~= seq![go] + seq![clear]);
    assert(u.output =~= t.output + insertion::since(t, u));
    display::lemma_carried(d, seq![go], seq![clear]);
    display::lemma_carried_one(d, go);
    display::lemma_carried_one(d.after(go), clear);
    let s = d.carried(insertion::since(t, u));
    assert forall|r: int| y <= r < s.rows.len() implies shows_nothing(#[trigger] s.rows[r]) by {
        assert forall|x: int| 0 <= x < s.rows[r].len() implies rows::is_empty(
            #[trigger] s.rows[r][x],
        ) && s.rows[r][x].bg == TermColor::Reset by {
            assert(s.rows[r][x] == display::empty_glyph(TermColor::Reset));
        }
    }
    assert forall|r: int| 0 <= r < h implies (#[trigger] s.rows[r]).len() == w by {
        assert(d.rows[r].len() == w);
    }
    assert(s.rows.subrange(0, y) =~= d.rows.subrange(0, y));
    assert forall|i: int| 0 <= i < u.previous.cells.len() implies #[trigger] u.previous.cells[i]
        == buffer::blank() by {}
    lemma_blank_grid(s.rows, u.previous);
}

/// A row of a grid that is given another area of the same columns.
pub proof fn lemma_remapped_line(grid: Grid, area: Rect, r: int)
    requires
        grid.wf(),
        grid.area.x == 0,
        area.x == 0,
        area.width == grid.area.width,
        area.width > 0,
        grid.area.y + grid.area.height <= u16::MAX,
        area.y + area.height <= u16::MAX,
        0 <= r < area.height,
    ensures
        ({
            let w = area.width as int;
            let line = diff::line(grid.remapped(area).cells, w, r);
            let q = area.y + r - grid.area.y;
            &&& grid.remapped(area).wf()
            &&& line.len() == w
            &&& 0 <= q < grid.area.height ==> line == diff::line(grid.cells, w, q)
            &&& !(0 <= q < grid.area.height) ==> all_blank(line)
        }),
{
    let now = grid.remapped(area);
    let w = area.width as int;
    let q = area.y + r - grid.area.y;
    buffer::lemma_cells(area);
    buffer::lemma_cells(grid.area);
    drawing::lemma_line(now.cells, w, area.height as int, r);
    let line = diff::line(now.cells, w, r);
    if 0 <= q < grid.area.height {
        drawing::lemma_line(grid.cells, w, grid.area.height as int, q);
    }
    assert forall|c: int| 0 <= c < w implies (0 <= q < grid.area.height ==> #[trigger] line[c]
        == diff::line(grid.cells, w, q)[c]) && (!(0 <= q < grid.area.height) ==> line[c]
        == buffer::blank()) by {
        buffer::law_remapped_cells_keep_their_places(grid, area, c, area.y + r);
        assert(now.at(c, area.y + r) == now.cells[r * w + c]);
        assert(line[c] == now.cells[r * w + c]);
        if 0 <= q < grid.area.height {
            assert(grid.at(c, area.y + r) == grid.cells[q * w + c]);
        }
    }
    if 0 <= q < grid.area.height {
        assert(line =~= diff::line(grid.cells, w, q));
    }
}

/// The first row below the viewport; one without columns has none of its own.
pub open spec fn end_of_viewport(t: TerminalView) -> int {
    if t.viewport_area.width == 0 {
        t.viewport_area.y as int
    } else {
        t.viewport_area.y + t.viewport_area.height
    }
}

/// A viewport that keeps its cells at their places: what the terminal is taken to show is what the
/// screen shows, if the rows that the viewport takes in addition show nothing.
proof fn lemma_remapped_known(t: TerminalView, area: Rect, d: Display, s: Display)
    requires
        t.wf(),
        t.viewport_area.x == 0,
        area.x == 0,
        area.width == t.viewport_area.width,
        area.width > 0,
        t.viewport_area.y + t.viewport_area.height <= u16::MAX,
        area.y + area.height <= s.rows.len() <= u16::MAX,
        drawing::grid_shown(d.rows, t.previous),
        forall|y: int|
            #![trigger s.rows[y]]
            area.y <= y < area.y + area.height ==> {
                &&& s.rows[y].len() == area.width
                &&& if t.viewport_area.y <= y < t.viewport_area.y + t.viewport_area.height {
                    s.rows[y] == d.rows[y]
                } else {
                    shows_nothing(s.rows[y])
                }
            },
    ensures
        drawing::grid_shown(s.rows, t.previous.remapped(area)),
{
    let w = area.width as int;
    assert forall|r: int| 0 <= r < area.height implies rows::row_shown(
        s.rows[area.y + r],
        #[trigger] diff::line(t.previous.remapped(area).cells, w, r),
    ) by {
        lemma_remapped_line(t.previous, area, r);
        let y = area.y + r;
        let q = y - t.viewport_area.y;
        assert(s.rows[y].len() == w);
        if 0 <= q < t.viewport_area.height {
            assert(rows::row_shown(
                d.rows[t.previous.area.y + q],
                diff::line(t.previous.cells, w, q),
            ));
        } else {
            lemma_blank_row(s.rows[y], diff::line(t.previous.remapped(area).cells, w, r));
        }
    }
}

/// The screen once the rows above a viewport have made room for it to start higher.
proof fn lemma_rows_above_scrolled(
    t: TerminalView,
    top: int,
    by: int,
    d: Display,
)
    requires
        d.has_size(
            t.last_known_screen_size.width as int,
            t.last_known_screen_size.height as int,
        ),
        d.is_plain(),
        0 < by <= top <= t.last_known_screen_size.height,
    ensures
        ({
            let m = t.told(terminal::scroll_up(0, top, by));
            let b = d.carried(insertion::since(t, m));
            &&& m.output == t.output + insertion::since(t, m)
            &&& b.has_size(
                t.last_known_screen_size.width as int,
                t.last_known_screen_size.height as int,
            )
            &&& b.is_plain()
            &&& forall|y: int| top - by <= y < top ==> shows_nothing(#[trigger] b.rows[y])
            &&& forall|y: int| top <= y < b.rows.len() ==> #[trigger] b.rows[y] == d.rows[y]
        }),
{
    let m = t.told(terminal::scroll_up(0, top, by));
    let w = t.last_known_screen_size.width as int;
    let h = t.last_known_screen_size.height as int;
    assert(insertion::since(t, m) =~= terminal::scroll_up(0, top, by));
    assert(m.output =~= t.output + insertion::since(t, m));
    insertion::lemma_scroll_up(d, top, by, w, h);
    let b = d.carried(insertion::since(t, m));
    assert(b == d.scrolled_up(0, top, by));
    assert forall|y: int| top - by <= y < top implies shows_nothing(#[trigger] b.rows[y]) by {
        let row = d.empty_rows(0, by)[y - (top - by)];
        assert(b.rows[y] == row);
        assert forall|x: int| 0 <= x < row.len() implies rows::is_empty(#[trigger] row[x])
            && row[x].bg == TermColor::Reset by {
            assert(row[x] == display::empty_glyph(TermColor::Reset));
        }
    }
}

/// A viewport that is given another height: what the terminal is taken to show in it is what the
/// screen shows, and the rows below it show nothing, if both was so before.
#[verifier::rlimit(40)]
pub proof fn law_fitting_keeps_what_is_known(t: TerminalView, height: u16, d: Display)
    requires
        t.wf(),
        t.is_on_screen(),
        t.viewport_area.x == 0,
        t.viewport_area.width == t.last_known_screen_size.width || t.viewport_area.width == 0,
        0 < t.last_known_screen_size.width,
        d.has_size(
            t.last_known_screen_size.width as int,
            t.last_known_screen_size.height as int,
        ),
        t.viewport_area.y + geometry::lower(height, t.last_known_screen_size.height) <= u16::MAX,
        d.is_plain(),
        t.viewport_area.width > 0 ==> t.knows(d),
        blank_from(d, end_of_viewport(t)),
    ensures
        ({
            let u = t.fitted(height, t.last_known_screen_size);
            let s = d.carried(insertion::since(t, u));
            &&& u.output == t.output + insertion::since(t, u)
            &&& u.knows(s)
            &&& blank_from(s, end_of_viewport(u))
            &&& s.has_size(
                t.last_known_screen_size.width as int,
                t.last_known_screen_size.height as int,
            )
        }),
{
    let size = t.last_known_screen_size;
    let w = size.width as int;
    let h = size.height as int;
    let y = t.viewport_area.y as int;
    let u = t.fitted(height, size);
    let area = crate::inline::fit(t.viewport_area, height, size);
    let top = crate::inline::fit_top(t.viewport_area, height, size);
    let by = geometry::plus(top, area.height) - size.height;
    let m = if by > 0 {
        t.told(terminal::scroll_up(0, top as int, by))
    } else {
        t
    };
    let b = d.carried(insertion::since(t, m));
    if by > 0 {
        assert(top == y);
        lemma_rows_above_scrolled(t, top as int, by, d);
    } else {
        assert(insertion::since(t, m) =~= Seq::empty());
        assert(m.output =~= t.output + insertion::since(t, m));
        assert(b == d);
    }
    assert(area.x == 0 && area.width == w);
    assert(area.y + area.height <= h);
    if area == t.viewport_area {
        assert(insertion::since(t, u) == insertion::since(t, m));
        assert(by <= 0);
    } else if crate::inline::keeps_cells(t.viewport_area, area) {
        assert(insertion::since(t, u) == insertion::since(t, m));
        assert forall|r: int|
            #![trigger b.rows[r]]
            area.y <= r < area.y + area.height implies {
            &&& b.rows[r].len() == area.width
            &&& if y <= r < y + t.viewport_area.height {
                b.rows[r] == d.rows[r]
            } else {
                shows_nothing(b.rows[r])
            }
        } by {
            if r >= y + t.viewport_area.height {
                assert(shows_nothing(d.rows[r]));
            }
        }
        lemma_remapped_known(t, area, d, b);
        assert(u.previous == t.previous.remapped(area));
    } else {
        lemma_fitted_anew(t, m, area, b);
        if !t.viewport_area.spec_is_empty() {
            insertion::lemma_cleared(m, b, w, h);
            insertion::lemma_since(t, m, m.cleared());
            display::lemma_carried(
                d,
                insertion::since(t, m),
                insertion::since(m, m.cleared()),
            );
            assert(u.output == m.cleared().output);
            assert(insertion::since(t, u) == insertion::since(t, m.cleared()));
        } else {
            assert(m.cleared() == m);
            assert(insertion::since(m, m) =~= Seq::empty());
            assert(insertion::since(t, u) == insertion::since(t, m));
        }
    }
}

/// A viewport that is cleared and given another area: all of its cells are blank, and so are the
/// rows from the higher one of its two starts on.
#[verifier::rlimit(40)]
proof fn lemma_fitted_anew(t: TerminalView, m: TerminalView, area: Rect, b: Display)
    requires
        t.wf(),
        m == t.told(insertion::since(t, m)),
        t.is_on_screen(),
        t.viewport_area.x == 0,
        t.viewport_area.width == t.last_known_screen_size.width || t.viewport_area.width == 0,
        0 < t.last_known_screen_size.width,
        b.has_size(
            t.last_known_screen_size.width as int,
            t.last_known_screen_size.height as int,
        ),
        b.is_plain(),
        area.width == t.last_known_screen_size.width,
        t.viewport_area.spec_is_empty() || area.y <= t.viewport_area.y,
        area.y + area.height <= t.last_known_screen_size.height,
        forall|r: int| area.y <= r < t.viewport_area.y ==> shows_nothing(#[trigger] b.rows[r]),
        t.viewport_area.spec_is_empty() ==> blank_from(b, t.viewport_area.y as int),
    ensures
        ({
            let u = m.cleared().resized(area);
            let s = b.carried(insertion::since(m, m.cleared()));
            &&& u.knows(s)
            &&& blank_from(s, area.y as int)
            &&& s.has_size(
                t.last_known_screen_size.width as int,
                t.last_known_screen_size.height as int,
            )
        }),
{
    let u = m.cleared().resized(area);
    let s = b.carried(insertion::since(m, m.cleared()));
    let y = t.viewport_area.y as int;
    if t.viewport_area.spec_is_empty() {
        assert(m.cleared() == m);
        assert(insertion::since(m, m) =~= Seq::empty());
        buffer::lemma_cells(t.previous.area);
        assert(t.previous.area.height * t.previous.area.width == 0) by (nonlinear_arith)
            requires
                t.previous.area.height == 0 || t.previous.area.width == 0,
        ;
        assert(t.previous.cells.len() == 0);
        assert(s == b);
    } else {
        law_cleared_viewport_shows_nothing(m, b);
        assert(s.rows.subrange(0, y) == b.rows.subrange(0, y));
    }
    assert forall|r: int| area.y <= r < s.rows.len() implies shows_nothing(#[trigger] s.rows[r]) by {
        if r < y {
            assert(s.rows.subrange(0, y)[r] == b.rows.subrange(0, y)[r]);
            assert(shows_nothing(b.rows[r]));
        }
    }
    assert(all_blank(u.previous.cells)) by {
        let cells = m.cleared().previous.cells;
        assert forall|i: int| 0 <= i < u.previous.cells.len() implies #[trigger] u.previous.cells[i]
            == buffer::blank() by {
            if i < cells.len() {
                assert(cells[i] == buffer::blank());
            }
        }
    }
    lemma_blank_grid(s.rows, u.previous);
}

/// Rows that are inserted above a viewport leave what the terminal is taken to show in it as the
/// screen shows it.
pub proof fn law_inserting_keeps_what_is_known(
    t: TerminalView,
    height: u16,
    cells: Seq<CellView>,
    d: Display,
)
    requires
        t.wf(),
        t.is_on_screen(),
        t.is_size_of(d),
        t.viewport_area.width > 0,
        height > 0 ==> t.has_room(),
        cells.len() == height * t.viewport_area.width,
        drawing::grid_shown(d.rows, t.previous),
        t.knows_top_row(d),
    ensures
        ({
            let u = t.inserted(height, cells);
            let s = d.carried(insertion::since(t, u));
            &&& drawing::grid_shown(s.rows, u.previous)
            &&& u.viewport_area == (Rect { y: u.viewport_area.y, ..t.viewport_area })
            &&& u.viewport_area.y >= t.viewport_area.y
            &&& u.viewport_area.y - t.viewport_area.y == geometry::least(
                height as int,
                t.last_known_screen_size.height - (t.viewport_area.y + t.viewport_area.height),
            )
        }),
{
    let u = t.inserted(height, cells);
    let s = d.carried(insertion::since(t, u));
    insertion::law_inserted_rows_join_the_history(t, height, cells, d);
    let w = t.viewport_area.width as int;
    assert(u.previous.cells =~= t.previous.cells);
    assert forall|r: int| 0 <= r < u.previous.area.height implies rows::row_shown(
        s.rows[u.previous.area.y + r],
        #[trigger] diff::line(u.previous.cells, w, r),
    ) by {
        assert(u.viewport_rows(s)[r] == s.rows[u.viewport_area.y + r]);
        assert(t.viewport_rows(d)[r] == d.rows[t.viewport_area.y + r]);
        assert(rows::row_shown(
            d.rows[t.previous.area.y + r],
            diff::line(t.previous.cells, w, r),
        ));
    }
}

/// What is drawn after a frame has been shown starts blank, and so it does when the viewport is
/// given another height or history is inserted before.
pub proof fn law_next_frame_starts_blank(
    t: TerminalView,
    cursor: Option<Position>,
    height: u16,
    size: Size,
    lines: Seq<LineView>,
)
    requires
        t.wf(),
    ensures
        all_blank(t.presented(cursor).current.cells),
        all_blank(t.current.cells) ==> {
            &&& all_blank(t.fitted(height, size).current.cells)
            &&& all_blank(t.with_history(lines, InsertHistoryMode::Standard).current.cells)
        },
{
    let next = t.presented(cursor).current.cells;
    assert forall|i: int| 0 <= i < next.len() implies #[trigger] next[i] == buffer::blank() by {}
    if all_blank(t.current.cells) {
        let now = t.fitted(height, size).current;
        assert forall|i: int| 0 <= i < now.cells.len() implies #[trigger] now.cells[i]
            == buffer::blank() by {
            let c = now.column(i);
            let r = now.row(i);
            if t.current.holds(c, r) {
                buffer::lemma_index(t.current, c, r);
            }
        }
        let cells = t.with_history(lines, InsertHistoryMode::Standard).current.cells;
        assert forall|i: int| 0 <= i < cells.len() implies #[trigger] cells[i] == buffer::blank() by {
            if i < t.current.cells.len() {
                assert(t.current.cells[i] == buffer::blank());
            }
        }
    }
}

/// A viewport that is given another height stays where it is, if it can. One that reaches the last
/// row and does not grow keeps its last row there, and one that would end below the screen is
/// moved up to end with it.
pub proof fn law_fitted_viewport_stays_where_it_can(area: Rect, height: u16, size: Size)
    requires
        area.y + area.height <= u16::MAX,
        area.y + geometry::lower(height, size.height) <= u16::MAX,
    ensures
        ({
            let now = crate::inline::fit(area, height, size);
            let h = geometry::least(height as int, size.height as int);
            let at_end = area.y + area.height >= size.height && h <= area.height;
            &&& now.x == area.x
            &&& now.width == size.width
            &&& now.height == h
            &&& at_end || area.y + h > size.height ==> now.y + h == size.height
            &&& !at_end && area.y + h <= size.height ==> now.y == area.y
        }),
{
}

/// Where the screen has got another size, the viewport has gone with the cursor, by as many rows,
/// and what stands there is cleared; where it has not, or the cursor was not found, it stays.
pub proof fn law_viewport_goes_with_the_cursor(t: TerminalView, screen: Screen)
    requires
        t.viewport_area.x + t.viewport_area.width <= u16::MAX,
        t.viewport_area.y + t.viewport_area.height <= u16::MAX,
    ensures
        ({
            let u = t.settled(screen);
            &&& screen.size == t.last_known_screen_size || screen.cursor is None ==> u == t
            &&& screen.size != t.last_known_screen_size && screen.cursor is Some ==> {
                let by = screen.cursor->0.y - t.last_known_cursor_pos.y;
                let y = t.viewport_area.y + by;
                &&& u.viewport_area == (Rect { y: u.viewport_area.y, ..t.viewport_area })
                &&& 0 <= y && y + t.viewport_area.height <= u16::MAX ==> u.viewport_area.y == y
                &&& y < 0 ==> u.viewport_area.y == 0
                &&& by == 0 ==> u == t
                &&& by != 0 && !t.viewport_area.spec_is_empty() ==> u.output == t.output + seq![
                    OpOf::MoveTo { x: t.viewport_area.x, y: u.viewport_area.y },
                    OpOf::ClearFromCursorDown,
                ]
            }
        }),
{
    let u = t.settled(screen);
    if screen.size != t.last_known_screen_size && screen.cursor is Some {
        let by = screen.cursor->0.y - t.last_known_cursor_pos.y;
        geometry::law_moved_rectangle_keeps_its_size(t.viewport_area, by as i32);
        if by != 0 && !t.viewport_area.spec_is_empty() {
            let go = OpOf::MoveTo { x: t.viewport_area.x, y: u.viewport_area.y };
            let clear = OpOf::ClearFromCursorDown;
            assert(u.output =~= t.output + seq![go, clear]);
        }
    }
}

/// A viewport that is given another height goes by the screen as it is, whatever size it had before.
pub proof fn law_fitting_goes_by_the_screen_as_it_is(
    t: TerminalView,
    before: Size,
    height: u16,
    size: Size,
)
    ensures
        t.on_screen(before).fitted(height, size).on_screen(size) == t.on_screen(size).fitted(
            height,
            size,
        ),
{
}

} // verus!
