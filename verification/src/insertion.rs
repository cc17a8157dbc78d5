//! Laws of insertion: what is inserted above the viewport joins the history in order, and the
//! viewport stays as it is.

use vstd::prelude::*;

use crate::buffer::CellView;
use crate::buffer::Grid;
use crate::command::OpOf;
use crate::command::OpView;
use crate::display;
use crate::display::Display;
use crate::display::Glyph;
use crate::geometry;
use crate::geometry::Position;
use crate::geometry::Rect;
use crate::history;
use crate::history::InsertHistoryMode;
use crate::style::TermColor;
use crate::terminal;
use crate::terminal::TerminalView;
use crate::text::LineView;

verus! {

/// `n` rows of `w` cells each, from the row `from` on, as they look on the screen.
pub open spec fn told_rows(cells: Seq<CellView>, w: int, from: int, n: int) -> Seq<Seq<Glyph>> {
    Seq::new(
        n as nat,
        |r: int| display::looks(cells.subrange((from + r) * w, (from + r + 1) * w)),
    )
}

/// What the place at column `x` and row `yy` shows once the first `i` of several rows of cells are
/// drawn from the row `y` on.
spec fn shown_at(
    d: Display,
    cells: Seq<CellView>,
    w: int,
    from: int,
    y: int,
    i: int,
    x: int,
    yy: int,
) -> Glyph {
    if y <= yy && (yy - y) * w + x < i {
        display::look(cells[from * w + ((yy - y) * w + x)])
    } else {
        d.rows[yy][x]
    }
}

/// A place of a row has one number.
pub proof fn lemma_number(w: int, i: int, r: int, x: int)
    requires
        w > 0,
        0 <= x < w,
        0 <= i,
    ensures
        r * w + x == i <==> r == i / w && x == i % w,
        0 <= i % w < w,
        i == (i / w) * w + i % w,
{
    vstd::arithmetic::div_mod::lemma_fundamental_div_mod(i, w);
    assert(w * (i / w) == (i / w) * w) by (nonlinear_arith);
    vstd::arithmetic::div_mod::lemma_mod_bound(i, w);
    if r * w + x == i {
        vstd::arithmetic::div_mod::lemma_fundamental_div_mod_converse(i, w, r, x);
    }
}

/// A number below `n * w` stands in a row below `n`.
proof fn lemma_row_of(w: int, n: int, i: int)
    requires
        w > 0,
        0 <= i < n * w,
    ensures
        0 <= i / w < n,
{
    vstd::arithmetic::div_mod::lemma_fundamental_div_mod(i, w);
    vstd::arithmetic::div_mod::lemma_mod_bound(i, w);
    assert(w * (i / w) == (i / w) * w) by (nonlinear_arith);
    assert(i / w < n) by (nonlinear_arith)
        requires
            i == (i / w) * w + i % w,
            0 <= i % w,
            i < n * w,
            w > 0,
    ;
    assert(0 <= i / w) by (nonlinear_arith)
        requires
            0 <= i,
            w > 0,
    ;
}

/// The first cells of several rows, drawn.
proof fn lemma_drawn_prefix(
    d: Display,
    cells: Seq<CellView>,
    w: int,
    from: int,
    n: int,
    y: int,
    h: int,
    i: int,
)
    requires
        d.has_size(w, h),
        0 < w <= u16::MAX,
        0 <= y,
        0 <= n,
        y + n <= h <= u16::MAX,
        0 <= i <= n * w,
    ensures
        ({
            let s = d.drawn(terminal::rows_at(cells, w, from, n, y).take(i));
            &&& s.has_size(w, h)
            &&& s.history == d.history
            &&& s == d.with_rows(s.rows)
            &&& forall|x: int, yy: int|
                #![trigger s.rows[yy][x]]
                0 <= x < w && 0 <= yy < h ==> s.rows[yy][x] == shown_at(
                    d,
                    cells,
                    w,
                    from,
                    y,
                    i,
                    x,
                    yy,
                )
        }),
    decreases i,
{
    let all = terminal::rows_at(cells, w, from, n, y);
    if i == 0 {
        assert(d.drawn(all.take(0)) == d);
        assert forall|x: int, yy: int| 0 <= x < w && 0 <= yy < h implies #[trigger] d.rows[yy][x]
            == shown_at(d, cells, w, from, y, 0, x, yy) by {
            assert(yy >= y ==> (yy - y) * w >= 0) by (nonlinear_arith)
                requires
                    w > 0,
            ;
        }
    } else {
        let k = i - 1;
        lemma_drawn_prefix(d, cells, w, from, n, y, h, k);
        let before = d.drawn(all.take(k));
        let s = d.drawn(all.take(i));
        assert(all.take(i).drop_last() =~= all.take(k));
        let p = all.take(i).last();
        lemma_number(w, k, k / w, k % w);
        lemma_row_of(w, n, k);
        assert(p == all[k]);
        assert(p.x == k % w && p.y == y + k / w);
        assert(s == before.with_glyph(p.x as int, p.y as int, display::look(cells[from * w + k])));
        assert forall|x: int, yy: int| 0 <= x < w && 0 <= yy < h implies #[trigger] s.rows[yy][x]
            == shown_at(d, cells, w, from, y, i, x, yy) by {
            lemma_number(w, k, yy - y, x);
            assert(before.rows[yy][x] == shown_at(d, cells, w, from, y, k, x, yy));
        }
    }
}

/// Several rows of cells, drawn, replace what stood in these rows.
pub proof fn lemma_drawn_rows(
    d: Display,
    cells: Seq<CellView>,
    w: int,
    from: int,
    n: int,
    y: int,
    h: int,
)
    requires
        d.has_size(w, h),
        0 < w <= u16::MAX,
        0 <= from,
        0 <= y,
        0 <= n,
        y + n <= h <= u16::MAX,
        (from + n) * w <= cells.len(),
    ensures
        d.carried(terminal::draw_rows(cells, w, from, n, y)) == d.with_rows(
            d.rows.subrange(0, y) + told_rows(cells, w, from, n) + d.rows.subrange(y + n, h),
        ),
        d.carried(terminal::draw_rows(cells, w, from, n, y)).has_size(w, h),
{
    let ops = terminal::draw_rows(cells, w, from, n, y);
    let want = d.rows.subrange(0, y) + told_rows(cells, w, from, n) + d.rows.subrange(y + n, h);
    if n == 0 {
        assert(d.carried(ops) == d);
        assert(want =~= d.rows);
    } else {
        let all = terminal::rows_at(cells, w, from, n, y);
        assert(0 <= n * w) by (nonlinear_arith)
            requires
                0 <= n,
                0 < w,
        ;
        lemma_drawn_prefix(d, cells, w, from, n, y, h, n * w);
        assert(all.take(n * w) =~= all);
        display::lemma_carried_one(d, ops[0]);
        assert(ops =~= seq![ops[0]]);
        let s = d.drawn(all);
        assert(s.rows =~= want) by {
            assert forall|yy: int| 0 <= yy < h implies s.rows[yy] =~= #[trigger] want[yy] by {
                assert forall|x: int| 0 <= x < w implies s.rows[yy][x] == #[trigger] want[yy][x] by {
                    assert(s.rows[yy][x] == shown_at(d, cells, w, from, y, n * w, x, yy));
                    if y <= yy < y + n {
                        let r = yy - y;
                        assert(r * w + x < n * w) by (nonlinear_arith)
                            requires
                                r < n,
                                0 <= x < w,
                        ;
                        assert((from + r) * w == from * w + r * w) by (nonlinear_arith);
                        assert((from + r + 1) * w == from * w + r * w + w) by (nonlinear_arith);
                        assert((from + r + 1) * w <= (from + n) * w) by (nonlinear_arith)
                            requires
                                r + 1 <= n,
                                0 < w,
                        ;
                        assert(0 <= from * w + r * w) by (nonlinear_arith)
                            requires
                                0 <= from,
                                0 <= r,
                                0 < w,
                        ;
                    } else if yy >= y + n {
                        assert((yy - y) * w + x >= n * w) by (nonlinear_arith)
                            requires
                                yy - y >= n,
                                0 <= x,
                                0 < w,
                        ;
                    }
                }
                if y <= yy < y + n {
                    let r = yy - y;
                    assert((from + r + 1) * w == (from + r) * w + w) by (nonlinear_arith);
                    assert((from + r + 1) * w <= (from + n) * w) by (nonlinear_arith)
                        requires
                            r + 1 <= n,
                            0 < w,
                    ;
                    assert(0 <= (from + r) * w) by (nonlinear_arith)
                        requires
                            0 <= from,
                            0 <= r,
                            0 < w,
                    ;
                }
            }
        }
    }
}

/// What a terminal has been told since it was in an earlier state.
pub open spec fn since(before: TerminalView, now: TerminalView) -> Seq<OpView> {
    now.output.subrange(before.output.len() as int, now.output.len() as int)
}

/// All that stands above the row `y` of the screen: the history, and the rows before `y`.
pub open spec fn above(d: Display, y: int) -> Seq<Seq<Glyph>> {
    d.history + d.rows.subrange(0, y)
}

/// Rows follow each other.
pub proof fn lemma_told_rows(cells: Seq<CellView>, w: int, from: int, k: int, n: int)
    requires
        0 <= k <= n,
    ensures
        told_rows(cells, w, from, n) == told_rows(cells, w, from, k) + told_rows(
            cells,
            w,
            from + k,
            n - k,
        ),
{
    let all = told_rows(cells, w, from, n);
    let parts = told_rows(cells, w, from, k) + told_rows(cells, w, from + k, n - k);
    assert forall|r: int| 0 <= r < n implies all[r] == #[trigger] parts[r] by {
        if r >= k {
            assert(from + k + (r - k) == from + r);
        }
    }
    assert(all =~= parts);
}

/// Scrolling rows up is carried out as told.
pub proof fn lemma_scroll_up(d: Display, end: int, k: int, w: int, h: int)
    requires
        d.has_size(w, h),
        0 < k <= end <= h <= u16::MAX,
    ensures
        d.carried(terminal::scroll_up(0, end, k)) == d.scrolled_up(0, end, k),
        d.scrolled_up(0, end, k).has_size(w, h),
{
    let ops = terminal::scroll_up(0, end, k);
    assert(ops =~= seq![ops[0]]);
    display::lemma_carried_one(d, ops[0]);
    let s = d.scrolled_up(0, end, k);
    assert forall|y: int| 0 <= y < h implies (#[trigger] s.rows[y]).len() == w by {
        if y < end - k {
            assert(s.rows[y] == d.rows[k + y]);
        } else if y >= end {
            assert(s.rows[y] == d.rows[y]);
        } else {
            assert(d.rows[0].len() == w);
        }
    }
}

/// Rows that are scrolled in above the row `top` join what stands above it.
proof fn lemma_scrolled_in(
    d: Display,
    cells: Seq<CellView>,
    w: int,
    from: int,
    n: int,
    top: int,
    h: int,
)
    requires
        d.has_size(w, h),
        0 < w <= u16::MAX,
        0 <= from,
        0 <= n,
        0 <= top <= h <= u16::MAX,
        n > 0 ==> top > 0,
        (from + n) * w <= cells.len(),
    ensures
        ({
            let s = d.carried(terminal::scrolled_in(cells, w, from, n, top));
            &&& s.has_size(w, h)
            &&& above(s, top) == above(d, top) + told_rows(cells, w, from, n)
            &&& s.rows.subrange(top, h) == d.rows.subrange(top, h)
        }),
    decreases n,
{
    let ops = terminal::scrolled_in(cells, w, from, n, top);
    let s = d.carried(ops);
    if n <= 0 || top <= 0 {
        assert(s == d);
        assert(above(s, top) =~= above(d, top) + told_rows(cells, w, from, n));
    } else {
        let k = geometry::least(n, top);
        let up = terminal::scroll_up(0, top, k);
        let put = terminal::draw_rows(cells, w, from, k, top - k);
        let rest = terminal::scrolled_in(cells, w, from + k, n - k, top);
        display::lemma_carried(d, up + put, rest);
        display::lemma_carried(d, up, put);
        lemma_scroll_up(d, top, k, w, h);
        let a = d.scrolled_up(0, top, k);
        assert((from + k) * w <= (from + n) * w) by (nonlinear_arith)
            requires
                k <= n,
                0 < w,
        ;
        lemma_drawn_rows(a, cells, w, from, k, top - k, h);
        let b = d.carried(up + put);
        let told = told_rows(cells, w, from, k);
        assert(b.rows == a.rows.subrange(0, top - k) + told + a.rows.subrange(top, h));
        assert(a.rows.subrange(0, top - k) =~= d.rows.subrange(k, top));
        assert(a.rows.subrange(top, h) =~= d.rows.subrange(top, h));
        assert(above(b, top) =~= above(d, top) + told);
        assert(b.rows.subrange(top, h) =~= d.rows.subrange(top, h));
        assert((from + k) + (n - k) == from + n);
        lemma_scrolled_in(b, cells, w, from + k, n - k, top, h);
        lemma_told_rows(cells, w, from, k, n);
        assert(above(s, top) =~= above(d, top) + told_rows(cells, w, from, n));
    }
}

/// Rows that are drawn over the top row of the screen, and scrolled out of it one by one, join the
/// history.
proof fn lemma_scrolled_out(d: Display, cells: Seq<CellView>, w: int, n: int, h: int)
    requires
        d.has_size(w, h),
        0 < w <= u16::MAX,
        0 < h <= u16::MAX,
        0 <= n,
        n * w <= cells.len(),
    ensures
        ({
            let s = d.carried(terminal::scrolled_out(cells, w, n));
            &&& s.has_size(w, h)
            &&& s.history == d.history + told_rows(cells, w, 0, n)
            &&& s.rows.subrange(1, h) == d.rows.subrange(1, h)
            &&& s.bg == d.bg
        }),
    decreases n,
{
    let s = d.carried(terminal::scrolled_out(cells, w, n));
    if n <= 0 {
        assert(s == d);
        assert(s.history =~= d.history + told_rows(cells, w, 0, n));
    } else {
        let k = n - 1;
        let a = d.carried(terminal::scrolled_out(cells, w, k));
        let put = terminal::draw_rows(cells, w, k, 1, 0);
        let up = terminal::scroll_up(0, 1, 1);
        assert(k * w <= n * w) by (nonlinear_arith)
            requires
                k <= n,
                0 < w,
        ;
        lemma_scrolled_out(d, cells, w, k, h);
        display::lemma_carried(d, terminal::scrolled_out(cells, w, k), put + up);
        display::lemma_carried(a, put, up);
        lemma_drawn_rows(a, cells, w, k, 1, 0, h);
        let b = a.carried(put);
        lemma_scroll_up(b, 1, 1, w, h);
        let told = told_rows(cells, w, k, 1);
        assert(b.rows.subrange(0, 1) =~= told);
        assert(b.rows.subrange(1, h) =~= a.rows.subrange(1, h));
        assert(s == b.scrolled_up(0, 1, 1));
        assert(s.rows.subrange(1, h) =~= b.rows.subrange(1, h));
        lemma_told_rows(cells, w, 0, k, n);
        assert(s.history =~= d.history + told_rows(cells, w, 0, n));
    }
}

impl TerminalView {
    /// Whether the viewport lies on the screen.
    pub open spec fn is_on_screen(self) -> bool {
        self.viewport_area.y + self.viewport_area.height <= self.last_known_screen_size.height
    }

    /// Whether a display is as wide as the viewport, and as high as the screen.
    pub open spec fn is_size_of(self, d: Display) -> bool {
        d.has_size(self.viewport_area.width as int, self.last_known_screen_size.height as int)
    }

    /// Whether a viewport that fills the screen shows in its top row what the terminal takes it to
    /// show there.
    pub open spec fn knows_top_row(self, d: Display) -> bool {
        self.viewport_area.height == self.last_known_screen_size.height && self.viewport_area.height
            > 0 ==> d.rows[0] == display::looks(
            self.previous.cells.subrange(0, self.viewport_area.width as int),
        )
    }

    /// The rows of the screen that the viewport takes.
    pub open spec fn viewport_rows(self, d: Display) -> Seq<Seq<Glyph>> {
        d.rows.subrange(
            self.viewport_area.y as int,
            self.viewport_area.y + self.viewport_area.height,
        )
    }
}

/// Inserting rows tells the terminal something behind all that it was told before.
pub proof fn lemma_inserted_output(t: TerminalView, height: u16, cells: Seq<CellView>)
    ensures
        t.inserted(height, cells).output == t.output + since(t, t.inserted(height, cells)),
{
    let u = t.inserted(height, cells);
    assert(u.output.len() >= t.output.len());
    assert(u.output.subrange(0, t.output.len() as int) =~= t.output);
    assert(u.output =~= t.output + since(t, u));
}

/// A viewport that fills the screen: the rows join the history, and its top row is drawn again.
proof fn lemma_inserted_above_full_screen(
    t: TerminalView,
    height: u16,
    cells: Seq<CellView>,
    d: Display,
)
    requires
        t.wf(),
        d.has_size(t.viewport_area.width as int, t.last_known_screen_size.height as int),
        t.viewport_area.width > 0,
        t.viewport_area.height > 0,
        t.viewport_area.height == t.last_known_screen_size.height,
        cells.len() == height * t.viewport_area.width,
    ensures
        ({
            let w = t.viewport_area.width as int;
            let s = d.carried(
                terminal::scrolled_out(cells, w, height as int) + terminal::draw_rows(
                    t.previous.cells,
                    w,
                    0,
                    1,
                    0,
                ),
            );
            &&& s.has_size(w, t.last_known_screen_size.height as int)
            &&& s.history == d.history + told_rows(cells, w, 0, height as int)
            &&& s.rows == d.rows.update(0, display::looks(t.previous.cells.subrange(0, w)))
        }),
{
    let w = t.viewport_area.width as int;
    let h = t.last_known_screen_size.height as int;
    let out = terminal::scrolled_out(cells, w, height as int);
    let put = terminal::draw_rows(t.previous.cells, w, 0, 1, 0);
    let s = d.carried(out + put);
    display::lemma_carried(d, out, put);
    lemma_scrolled_out(d, cells, w, height as int, h);
    let a = d.carried(out);
    assert(1 * w <= h * w) by (nonlinear_arith)
        requires
            1 <= h,
            0 < w,
    ;
    crate::buffer::lemma_cells(t.previous.area);
    lemma_drawn_rows(a, t.previous.cells, w, 0, 1, 0, h);
    let told = told_rows(t.previous.cells, w, 0, 1);
    let want = d.rows.update(0, display::looks(t.previous.cells.subrange(0, w)));
    assert(told[0] == want[0]);
    assert(s.rows == a.rows.subrange(0, 0) + told + a.rows.subrange(1, h));
    assert forall|i: int| 0 <= i < h implies s.rows[i] == #[trigger] want[i] by {
        if i > 0 {
            assert(s.rows[i] == a.rows.subrange(1, h)[i - 1]);
            assert(d.rows[i] == d.rows.subrange(1, h)[i - 1]);
        }
    }
    assert(s.rows =~= want);
}

/// A viewport of `v` rows that moves down from the row `y` by `k` rows, which are drawn above it:
/// the rows join what stands above the viewport, and it shows what it showed.
proof fn lemma_moved_down(
    d: Display,
    cells: Seq<CellView>,
    w: int,
    h: int,
    y: int,
    v: int,
    k: int,
)
    requires
        d.has_size(w, h),
        0 < w <= u16::MAX,
        h <= u16::MAX,
        0 <= y,
        0 <= v,
        0 < k,
        y + v + k <= h,
        k * w <= cells.len(),
    ensures
        ({
            let s = d.carried(
                terminal::scroll_down(y, y + v + k, k) + terminal::draw_rows(cells, w, 0, k, y),
            );
            &&& s.has_size(w, h)
            &&& above(s, y + k) == above(d, y) + told_rows(cells, w, 0, k)
            &&& s.rows.subrange(y + k, y + k + v) == d.rows.subrange(y, y + v)
        }),
{
    let down = terminal::scroll_down(y, y + v + k, k);
    let put = terminal::draw_rows(cells, w, 0, k, y);
    display::lemma_carried(d, down, put);
    assert(down =~= seq![down[0]]);
    display::lemma_carried_one(d, down[0]);
    let a = d.scrolled_down(y, y + v + k, k);
    assert(d.carried(down) == a);
    assert forall|i: int| 0 <= i < h implies (#[trigger] a.rows[i]).len() == w by {
        if i < y {
            assert(a.rows[i] == d.rows[i]);
        } else if i < y + k {
            assert(d.rows[y].len() == w);
        } else if i < y + v + k {
            assert(a.rows[i] == d.rows[i - k]);
        } else {
            assert(a.rows[i] == d.rows[i]);
        }
    }
    assert((0 + k) * w == k * w);
    lemma_drawn_rows(a, cells, w, 0, k, y, h);
    let s = a.carried(put);
    assert(a.rows.subrange(0, y) =~= d.rows.subrange(0, y));
    assert(above(s, y + k) =~= above(d, y) + told_rows(cells, w, 0, k));
    assert(s.rows.subrange(y + k, y + k + v) =~= d.rows.subrange(y, y + v));
}

/// Rows that are inserted above the viewport follow, in order and complete, on all that stood
/// above it in the history and on the screen, and the viewport shows what it showed, if the
/// terminal knows what that is.
pub proof fn law_inserted_rows_join_the_history(
    t: TerminalView,
    height: u16,
    cells: Seq<CellView>,
    d: Display,
)
    requires
        t.wf(),
        t.is_on_screen(),
        t.is_size_of(d),
        t.viewport_area.width > 0,
        height > 0 ==> t.has_room(),
        cells.len() == height * t.viewport_area.width,
    ensures
        ({
            let u = t.inserted(height, cells);
            let s = d.carried(since(t, u));
            let w = t.viewport_area.width as int;
            &&& u.is_on_screen()
            &&& s.has_size(w, t.last_known_screen_size.height as int)
            &&& above(s, u.viewport_area.y as int) == above(d, t.viewport_area.y as int)
                + told_rows(cells, w, 0, height as int)
            &&& t.knows_top_row(d) ==> u.viewport_rows(s) == t.viewport_rows(d)
        }),
{
    let u = t.inserted(height, cells);
    let s = d.carried(since(t, u));
    let w = t.viewport_area.width as int;
    let h = t.last_known_screen_size.height as int;
    let y = t.viewport_area.y as int;
    let v = t.viewport_area.height as int;
    assert((0 + height) * w == height * w);
    if height == 0 {
        assert(since(t, u) =~= Seq::empty());
        assert(above(s, y) =~= above(d, y) + told_rows(cells, w, 0, height as int));
    } else if v == h {
        assert(since(t, u) =~= terminal::scrolled_out(cells, w, height as int)
            + terminal::draw_rows(t.previous.cells, w, 0, 1, 0));
        lemma_inserted_above_full_screen(t, height, cells, d);
        if t.knows_top_row(d) {
            assert(s.rows =~= d.rows);
        }
        assert(above(s, 0) =~= s.history);
        assert(above(d, 0) =~= d.history);
    } else {
        let k = t.shift(height as int);
        let rest = terminal::scrolled_in(cells, w, k, height - k, y + k);
        assert(k * w <= height * w && 0 <= k * w) by (nonlinear_arith)
            requires
                0 <= k <= height,
                0 < w,
        ;
        assert((k + (height - k)) * w == height * w);
        if k > 0 {
            let first = terminal::scroll_down(y, y + v + k, k) + terminal::draw_rows(
                cells,
                w,
                0,
                k,
                y,
            );
            assert(since(t, u) =~= first + rest);
            display::lemma_carried(d, first, rest);
            lemma_moved_down(d, cells, w, h, y, v, k);
            let b = d.carried(first);
            lemma_scrolled_in(b, cells, w, k, height - k, y + k, h);
            lemma_told_rows(cells, w, 0, k, height as int);
            assert(above(s, y + k) =~= above(d, y) + told_rows(cells, w, 0, height as int));
            assert(s.rows.subrange(y + k, y + k + v) =~= s.rows.subrange(y + k, h).subrange(0, v));
            assert(b.rows.subrange(y + k, y + k + v) =~= b.rows.subrange(y + k, h).subrange(0, v));
        } else {
            assert(since(t, u) =~= rest);
            lemma_scrolled_in(d, cells, w, 0, height as int, y, h);
            assert(s.rows.subrange(y, y + v) =~= s.rows.subrange(y, h).subrange(0, v));
            assert(d.rows.subrange(y, y + v) =~= d.rows.subrange(y, h).subrange(0, v));
        }
    }
}

/// What a terminal is told step by step is told together.
pub proof fn lemma_since(a: TerminalView, b: TerminalView, c: TerminalView)
    requires
        b.output == a.output + since(a, b),
        c.output == b.output + since(b, c),
    ensures
        c.output == a.output + since(a, c),
        since(a, c) == since(a, b) + since(b, c),
{
    assert(since(a, c) =~= since(a, b) + since(b, c));
    assert(c.output =~= a.output + since(a, c));
}

/// Rows that are drawn from the row `drawn` on, for which the whole screen scrolls up, join what
/// stands above them.
proof fn lemma_rolled(
    t: TerminalView,
    d: Display,
    cells: Seq<CellView>,
    from: int,
    n: int,
    drawn: int,
    up: int,
)
    requires
        d.has_size(t.viewport_area.width as int, t.last_known_screen_size.height as int),
        t.viewport_area.width > 0,
        t.last_known_screen_size.height > 0,
        0 <= from,
        0 <= n,
        0 <= up <= drawn,
        drawn - up + n <= t.last_known_screen_size.height,
        drawn <= t.last_known_screen_size.height,
        (from + n) * t.viewport_area.width <= cells.len(),
    ensures
        ({
            let w = t.viewport_area.width as int;
            let u = t.rolled(up).told(terminal::draw_rows(cells, w, from, n, drawn - up));
            let s = d.carried(since(t, u));
            &&& u.output == t.output + since(t, u)
            &&& s.has_size(w, t.last_known_screen_size.height as int)
            &&& above(s, drawn - up + n) == above(d, drawn) + told_rows(cells, w, from, n)
            &&& s.bg == d.bg
        }),
{
    let w = t.viewport_area.width as int;
    let h = t.last_known_screen_size.height as int;
    let put = terminal::draw_rows(cells, w, from, n, drawn - up);
    let r = t.rolled(up);
    let u = r.told(put);
    let s = d.carried(since(t, u));
    let a = d.carried(since(t, r));
    if up > 0 {
        let go = OpOf::MoveTo { x: 0, y: geometry::minus(t.last_known_screen_size.height, 1) };
        let feed = OpOf::AppendLines(up as u16);
        assert(since(t, r) =~= seq![go] + seq![feed]);
        display::lemma_carried(d, seq![go], seq![feed]);
        display::lemma_carried_one(d, go);
        let at_end = d.after(go);
        display::lemma_carried_one(at_end, feed);
        assert(a.history == d.history + d.rows.subrange(0, up));
        assert(a.rows =~= d.rows.subrange(up, h) + d.empty_rows(0, up));
        assert forall|i: int| 0 <= i < h implies (#[trigger] a.rows[i]).len() == w by {
            if i < h - up {
                assert(a.rows[i] == d.rows[up + i]);
            } else {
                assert(d.rows[0].len() == w);
            }
        }
    } else {
        assert(since(t, r) =~= Seq::empty());
        assert(a == d);
    }
    assert(r.output =~= t.output + since(t, r));
    assert(since(r, u) =~= put);
    assert(u.output =~= r.output + since(r, u));
    lemma_since(t, r, u);
    display::lemma_carried(d, since(t, r), put);
    assert(a.rows.subrange(0, drawn - up) =~= d.rows.subrange(up, drawn));
    assert(above(a, drawn - up) =~= above(d, drawn));
    lemma_drawn_rows(a, cells, w, from, n, drawn - up, h);
    assert(above(s, drawn - up + n) =~= above(a, drawn - up) + told_rows(cells, w, from, n));
    if n > 0 {
        display::lemma_carried_one(a, put[0]);
        assert(put =~= seq![put[0]]);
        display::lemma_drawn_look(a, terminal::rows_at(cells, w, from, n, drawn - up));
    } else {
        assert(put =~= Seq::empty());
    }
}

/// Clearing the viewport leaves what stands above it.
pub proof fn lemma_cleared(t: TerminalView, d: Display, w: int, h: int)
    requires
        d.has_size(w, h),
        t.viewport_area.y <= h,
    ensures
        t.cleared().output == t.output + since(t, t.cleared()),
        d.carried(since(t, t.cleared())).has_size(w, h),
        d.carried(since(t, t.cleared())).history == d.history,
        above(d.carried(since(t, t.cleared())), t.viewport_area.y as int) == above(
            d,
            t.viewport_area.y as int,
        ),
{
    let u = t.cleared();
    let s = d.carried(since(t, u));
    if t.viewport_area.spec_is_empty() {
        assert(since(t, u) =~= Seq::empty());
        assert(u.output =~= t.output + since(t, u));
    } else {
        let go = OpOf::MoveTo { x: t.viewport_area.x, y: t.viewport_area.y };
        let clear = OpOf::ClearFromCursorDown;
        assert(since(t, u) =~= seq![go] + seq![clear]);
        assert(u.output =~= t.output + since(t, u));
        display::lemma_carried(d, seq![go], seq![clear]);
        display::lemma_carried_one(d, go);
        display::lemma_carried_one(d.after(go), clear);
        assert(s.rows.subrange(0, t.viewport_area.y as int) =~= d.rows.subrange(
            0,
            t.viewport_area.y as int,
        ));
    }
}

/// Whether the rows of a screen from `y` on show nothing but a background.
pub open spec fn empty_from(d: Display, y: int, bg: TermColor) -> bool {
    forall|r: int, x: int|
        y <= r < d.rows.len() && 0 <= x < d.rows[r].len() ==> #[trigger] d.rows[r][x]
            == display::empty_glyph(bg)
}

/// The last rows that are pasted, with room for the viewport below them, join what stands above
/// them.
proof fn lemma_pasted_end(
    t: TerminalView,
    d: Display,
    cells: Seq<CellView>,
    from: int,
    left: int,
    drawn: int,
)
    requires
        d.has_size(t.viewport_area.width as int, t.last_known_screen_size.height as int),
        t.viewport_area.width > 0,
        t.last_known_screen_size.height > 0,
        0 <= from,
        0 <= left,
        left + t.viewport_area.height <= t.last_known_screen_size.height,
        0 <= drawn <= t.last_known_screen_size.height,
        (from + left) * t.viewport_area.width <= cells.len(),
    ensures
        ({
            let w = t.viewport_area.width as int;
            let u = t.pasted(cells, from, left, drawn);
            let s = d.carried(since(t, u));
            &&& u.output == t.output + since(t, u)
            &&& u.is_on_screen()
            &&& s.has_size(w, t.last_known_screen_size.height as int)
            &&& above(s, u.viewport_area.y as int) == above(d, drawn) + told_rows(
                cells,
                w,
                from,
                left,
            )
            &&& u.viewport_area.y == geometry::least(
                drawn + left,
                t.last_known_screen_size.height - t.viewport_area.height,
            )
            &&& t.viewport_area.height > 0 && t.viewport_area.x == 0 ==> empty_from(
                s,
                u.viewport_area.y as int,
                d.bg,
            )
        }),
{
    let w = t.viewport_area.width as int;
    let h = t.last_known_screen_size.height as int;
    let v = t.viewport_area.height as int;
    let u = t.pasted(cells, from, left, drawn);
    let up = geometry::greatest(0, drawn + left + v - h);
    lemma_rolled(t, d, cells, from, left, drawn, up);
    let m = t.rolled(up).told(terminal::draw_rows(cells, w, from, left, drawn - up));
    let b = d.carried(since(t, m));
    let r = m.resized(Rect { y: (drawn + left - up) as u16, ..t.viewport_area });
    lemma_cleared(r, b, w, h);
    assert(u == r.cleared());
    assert(since(m, u) == since(r, u));
    lemma_since(t, m, u);
    display::lemma_carried(d, since(t, m), since(m, u));
    if v > 0 && t.viewport_area.x == 0 {
        let go = OpOf::MoveTo { x: r.viewport_area.x, y: r.viewport_area.y };
        let clear = OpOf::ClearFromCursorDown;
        assert(since(r, u) =~= seq![go] + seq![clear]);
        display::lemma_carried(b, seq![go], seq![clear]);
        display::lemma_carried_one(b, go);
        display::lemma_carried_one(b.after(go), clear);
    }
}

/// Rows that are pasted from the row `drawn` on join what stands above it.
proof fn lemma_pasted(
    t: TerminalView,
    d: Display,
    cells: Seq<CellView>,
    from: int,
    left: int,
    drawn: int,
)
    requires
        d.has_size(t.viewport_area.width as int, t.last_known_screen_size.height as int),
        t.viewport_area.width > 0,
        t.viewport_area.height <= t.last_known_screen_size.height,
        t.last_known_screen_size.height > 0,
        0 <= from,
        0 <= left,
        0 <= drawn <= t.last_known_screen_size.height,
        (from + left) * t.viewport_area.width <= cells.len(),
    ensures
        ({
            let w = t.viewport_area.width as int;
            let u = t.pasted(cells, from, left, drawn);
            let s = d.carried(since(t, u));
            &&& u.output == t.output + since(t, u)
            &&& u.is_on_screen()
            &&& s.has_size(w, t.last_known_screen_size.height as int)
            &&& above(s, u.viewport_area.y as int) == above(d, drawn) + told_rows(
                cells,
                w,
                from,
                left,
            )
            &&& u.viewport_area.y == geometry::least(
                drawn + left,
                t.last_known_screen_size.height - t.viewport_area.height,
            )
            &&& t.viewport_area.height > 0 && t.viewport_area.x == 0 ==> empty_from(
                s,
                u.viewport_area.y as int,
                d.bg,
            )
        }),
    decreases left,
{
    let w = t.viewport_area.width as int;
    let h = t.last_known_screen_size.height as int;
    let v = t.viewport_area.height as int;
    let u = t.pasted(cells, from, left, drawn);
    let s = d.carried(since(t, u));
    let n = geometry::least(left, h);
    if left + v > h && n > 0 {
        let up = geometry::greatest(0, drawn + n - h);
        assert((from + n) * w <= (from + left) * w) by (nonlinear_arith)
            requires
                n <= left,
                0 < w,
        ;
        lemma_rolled(t, d, cells, from, n, drawn, up);
        let m = t.rolled(up).told(terminal::draw_rows(cells, w, from, n, drawn - up));
        let b = d.carried(since(t, m));
        assert((from + n) + (left - n) == from + left);
        lemma_pasted(m, b, cells, from + n, left - n, drawn + n - up);
        lemma_since(t, m, u);
        display::lemma_carried(d, since(t, m), since(m, u));
        lemma_told_rows(cells, w, from, n, left);
        assert(above(s, u.viewport_area.y as int) =~= above(d, drawn) + told_rows(
            cells,
            w,
            from,
            left,
        ));
    } else {
        lemma_pasted_end(t, d, cells, from, left, drawn);
    }
}

/// Rows that are inserted by scrolling the whole screen follow, in order and complete, on all that
/// stood above the viewport in the history and on the screen. The viewport moves down by as many
/// rows, as far as the screen goes, and shows nothing, like all below it.
pub proof fn law_pasted_rows_join_the_history(
    t: TerminalView,
    height: u16,
    cells: Seq<CellView>,
    d: Display,
)
    requires
        t.wf(),
        t.is_on_screen(),
        t.is_size_of(d),
        t.viewport_area.width > 0,
        t.last_known_screen_size.height > 0,
        cells.len() == height * t.viewport_area.width,
    ensures
        ({
            let u = t.pasted(cells, 0, height as int, t.viewport_area.y as int);
            let s = d.carried(since(t, u));
            let w = t.viewport_area.width as int;
            &&& u.is_on_screen()
            &&& s.has_size(w, t.last_known_screen_size.height as int)
            &&& above(s, u.viewport_area.y as int) == above(d, t.viewport_area.y as int)
                + told_rows(cells, w, 0, height as int)
            &&& u.viewport_area.y == geometry::least(
                t.viewport_area.y + height,
                t.last_known_screen_size.height - t.viewport_area.height,
            )
            &&& t.viewport_area.height > 0 && t.viewport_area.x == 0 ==> empty_from(
                s,
                u.viewport_area.y as int,
                d.bg,
            )
        }),
{
    assert((0 + height as int) * t.viewport_area.width == height * t.viewport_area.width);
    lemma_pasted(t, d, cells, 0, height as int, t.viewport_area.y as int);
}

/// Moving the cursor changes nothing that the screen shows.
pub proof fn lemma_moved(t: TerminalView, position: Position, d: Display)
    ensures
        t.moved(position).output == t.output + since(t, t.moved(position)),
        d.carried(since(t, t.moved(position))).rows == d.rows,
        d.carried(since(t, t.moved(position))).history == d.history,
{
    let op = OpOf::MoveTo { x: position.x, y: position.y };
    assert(since(t, t.moved(position)) =~= seq![op]);
    assert(t.moved(position).output =~= t.output + seq![op]);
    display::lemma_carried_one(d, op);
}

/// Lines of history follow, in order and complete, on all that stood above the viewport in the
/// history and on the screen.
pub proof fn law_history_lines_join_the_history(
    t: TerminalView,
    lines: Seq<LineView>,
    mode: InsertHistoryMode,
    d: Display,
)
    requires
        t.wf(),
        t.is_on_screen(),
        t.is_size_of(d),
        t.viewport_area.width > 0,
        lines.len() > 0,
        t.takes_history(mode),
    ensures
        ({
            let u = t.with_history(lines, mode);
            let s = d.carried(since(t, u));
            let w = t.viewport_area.width as int;
            let rows = history::history_grid(lines, t.viewport_area.width);
            &&& u.is_on_screen()
            &&& u.output == t.output + since(t, u)
            &&& s.has_size(w, t.last_known_screen_size.height as int)
            &&& above(s, u.viewport_area.y as int) == above(d, t.viewport_area.y as int)
                + told_rows(rows.cells, w, 0, rows.area.height as int)
            &&& mode == InsertHistoryMode::Standard && t.knows_top_row(d) ==> u.viewport_rows(s)
                == t.viewport_rows(d)
        }),
{
    let w = t.viewport_area.width as int;
    let grid = history::history_grid(lines, t.viewport_area.width);
    let n = history::inserted_rows(lines, w);
    let empty = Grid::spec_empty(Rect { x: 0, y: 0, width: t.viewport_area.width, height: n });
    history::lemma_rendered(empty, lines, 0, w, 0);
    crate::buffer::lemma_cells(empty.area);
    assert(grid.cells.len() == n * w);
    let m = match mode {
        InsertHistoryMode::Standard => t.inserted(n, grid.cells),
        InsertHistoryMode::Zellij => t.pasted(grid.cells, 0, n as int, t.viewport_area.y as int),
    };
    match mode {
        InsertHistoryMode::Standard => {
            law_inserted_rows_join_the_history(t, n, grid.cells, d);
            lemma_inserted_output(t, n, grid.cells);
        },
        InsertHistoryMode::Zellij => {
            assert((0 + n as int) * w == n * w);
            lemma_pasted(t, d, grid.cells, 0, n as int, t.viewport_area.y as int);
        },
    }
    let b = d.carried(since(t, m));
    lemma_moved(m, t.last_known_cursor_pos, b);
    let moved = m.moved(t.last_known_cursor_pos);
    let u = t.with_history(lines, mode);
    assert(u.output == moved.output);
    lemma_since(t, m, moved);
    assert(since(t, u) == since(t, moved));
    display::lemma_carried(d, since(t, m), since(m, moved));
}

} // verus!
