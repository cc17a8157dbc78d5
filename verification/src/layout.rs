//! Regions that are drawn one below the other, and measured by what is drawn into them.

use vstd::prelude::*;

use crate::buffer;
use crate::buffer::clear_measurement_marks;
use crate::buffer::copy_buffer_rows_to_area;
use crate::buffer::mark_measurement_buffer;
use crate::buffer::touched_height;
use crate::buffer::Buffer;
use crate::buffer::Grid;
use crate::buffer::MEASUREMENT_MARK;
use crate::geometry;
use crate::geometry::max_u16;
use crate::geometry::min_u16;
use crate::geometry::Rect;
use crate::geometry::Size;

verus! {

/// How high an inline region can get where nothing else is said.
pub const DEFAULT_INLINE_MAX_HEIGHT: u16 = 2000;

/// A part of the layout.
#[derive(Debug, Clone, Copy, PartialEq, Eq, Structural)]
pub enum Region {
    /// As high as what is drawn into it, within bounds; its rows scroll into the history.
    Inline { min_height: u16, max_height: u16 },
    /// As high as said, below all inline regions; its rows stay on the screen.
    PinnedBottom { height: u16 },
}

impl Region {
    /// An inline region of any height.
    pub open spec fn spec_inline() -> Region {
        Region::Inline { min_height: 0, max_height: DEFAULT_INLINE_MAX_HEIGHT }
    }

    /// An inline region of at least `min_height` rows.
    pub open spec fn spec_inline_min(min_height: u16) -> Region {
        Region::Inline {
            min_height,
            max_height: geometry::upper(DEFAULT_INLINE_MAX_HEIGHT, min_height),
        }
    }

    /// An inline region of any height.
    pub fn inline() -> (r: Region)
        ensures
            r == (Region::Inline { min_height: 0, max_height: DEFAULT_INLINE_MAX_HEIGHT }),
            r == Region::spec_inline(),
    {
        Region::Inline { min_height: 0, max_height: DEFAULT_INLINE_MAX_HEIGHT }
    }

    /// An inline region of at least `min_height` rows.
    pub fn inline_min(min_height: u16) -> (r: Region)
        ensures
            r == (Region::Inline {
                min_height,
                max_height: geometry::upper(DEFAULT_INLINE_MAX_HEIGHT, min_height),
            }),
            r == Region::spec_inline_min(min_height),
    {
        Region::Inline { min_height, max_height: max_u16(DEFAULT_INLINE_MAX_HEIGHT, min_height) }
    }

    /// An inline region of at most `max_height` rows.
    pub fn inline_max(max_height: u16) -> (r: Region)
        ensures
            r == (Region::Inline { min_height: 0, max_height }),
    {
        Region::Inline { min_height: 0, max_height }
    }

    /// A region of `height` rows that stay at the bottom of the screen.
    pub fn pinned_bottom(height: u16) -> (r: Region)
        ensures
            r == (Region::PinnedBottom { height }),
    {
        Region::PinnedBottom { height }
    }
}

/// Why regions cannot be laid out.
#[derive(Debug, Clone, Copy, PartialEq, Eq, Structural)]
pub enum LayoutError {
    /// Inline regions must come before pinned bottom regions.
    InlineAfterPinned,
}

/// What regions are drawn into.
#[derive(Debug)]
pub struct LayoutFrame {
    areas: Vec<Rect>,
    buffer: Buffer,
}

/// What a layout frame holds.
#[verifier::ext_equal]
pub struct LayoutFrameView {
    pub areas: Seq<Rect>,
    pub grid: Grid,
}

impl View for LayoutFrame {
    type V = LayoutFrameView;

    closed spec fn view(&self) -> LayoutFrameView {
        LayoutFrameView { areas: self.areas@, grid: self.buffer@ }
    }
}

impl LayoutFrame {
    /// Where the regions can be drawn.
    pub fn areas(&self) -> (r: &Vec<Rect>)
        ensures
            r@ == self@.areas,
    {
        &self.areas
    }

    /// Where a region can be drawn.
    pub fn area(&self, index: usize) -> (r: Rect)
        requires
            index < self@.areas.len(),
        ensures
            r == self@.areas[index as int],
    {
        self.areas[index]
    }

    /// The cells to draw into.
    pub fn buffer_mut(&mut self) -> (r: &mut Buffer)
        ensures
            (*r)@ == old(self)@.grid,
            final(self)@ == (LayoutFrameView { grid: (*final(r))@, ..old(self)@ }),
    {
        &mut self.buffer
    }
}

/// Regions as they were drawn: first the rows of the inline ones, then those of the pinned ones.
#[derive(Debug)]
pub struct MeasuredLayout {
    pub buffer: Buffer,
    /// How many rows the inline regions take.
    pub scrollback_height: u16,
    /// How many rows the pinned regions take.
    pub pinned_bottom_height: u16,
}

/// What a measured layout holds.
#[verifier::ext_equal]
pub struct MeasuredView {
    pub grid: Grid,
    pub scrollback_height: u16,
    pub pinned_bottom_height: u16,
}

impl View for MeasuredLayout {
    type V = MeasuredView;

    open spec fn view(&self) -> MeasuredView {
        MeasuredView {
            grid: self.buffer@,
            scrollback_height: self.scrollback_height,
            pinned_bottom_height: self.pinned_bottom_height,
        }
    }
}

/// Whether no inline region comes after a pinned one.
pub open spec fn in_order(regions: Seq<Region>) -> bool {
    forall|i: int, j: int|
        0 <= i < j < regions.len() && regions[i] is PinnedBottom ==> regions[j] is PinnedBottom
}

impl Region {
    /// How many rows can be drawn into the region, if it is an inline one.
    pub open spec fn room(self) -> u16 {
        match self {
            Region::Inline { min_height, max_height } => geometry::upper(max_height, min_height),
            Region::PinnedBottom { .. } => 0,
        }
    }

    /// How many rows are pinned for the region where so many are left, if it is a pinned one.
    pub open spec fn pinned(self, left: u16) -> u16 {
        match self {
            Region::Inline { .. } => 0,
            Region::PinnedBottom { height } => geometry::lower(height, left),
        }
    }
}

/// An inline region takes no fewer rows than were asked for, and can get 2000 rows high, or as high
/// as asked for if that is more.
pub proof fn law_inline_regions_can_grow(min_height: u16)
    ensures
        ({
            let region = Region::spec_inline_min(min_height);
            &&& region is Inline
            &&& region->min_height == min_height
            &&& region->max_height == geometry::greatest(min_height as int, 2000)
            &&& Region::spec_inline() == Region::spec_inline_min(0)
        }),
{
}

/// Regions can be laid out unless an inline one comes somewhere behind a pinned one.
pub proof fn law_regions_are_in_order_unless_inline_comes_late(regions: Seq<Region>)
    ensures
        in_order(regions) <==> !(exists|i: int, j: int|
            0 <= i < j < regions.len() && #[trigger] regions[i] is PinnedBottom
                && #[trigger] regions[j] is Inline),
{
    if in_order(regions) {
        assert forall|i: int, j: int| 0 <= i < j < regions.len() implies !(
        #[trigger] regions[i] is PinnedBottom && #[trigger] regions[j] is Inline) by {
            if regions[i] is PinnedBottom {
                assert(regions[j] is PinnedBottom);
            }
        }
    }
}

/// Regions on a screen of a size.
pub struct Layout {
    pub regions: Seq<Region>,
    pub size: Size,
}

impl Layout {
    /// How many rows the pinned regions among the first `n` take. No more are pinned than the
    /// screen has.
    pub open spec fn pinned_rows(self, n: int) -> u16
        decreases n,
    {
        if n <= 0 {
            0
        } else {
            let used = self.pinned_rows(n - 1);
            geometry::plus(
                used,
                self.regions[n - 1].pinned(geometry::minus(self.size.height, used)),
            )
        }
    }

    /// How many rows can be drawn into the inline regions among the first `n`.
    pub open spec fn probe_rows(self, n: int) -> u16
        decreases n,
    {
        if n <= 0 {
            0
        } else {
            geometry::plus(self.probe_rows(n - 1), self.regions[n - 1].room())
        }
    }

    /// Where the region `n` is drawn: the inline regions each with all the rows they can take, the
    /// pinned ones below them.
    pub open spec fn probe_area(self, n: int) -> Rect {
        match self.regions[n] {
            Region::Inline { .. } => Rect::spec_new(
                0,
                self.probe_rows(n),
                self.size.width,
                self.regions[n].room(),
            ),
            Region::PinnedBottom { .. } => Rect::spec_new(
                0,
                geometry::plus(self.probe_rows(n), self.pinned_rows(n)),
                self.size.width,
                self.regions[n].pinned(geometry::minus(self.size.height, self.pinned_rows(n))),
            ),
        }
    }

    /// Where the regions are drawn.
    pub open spec fn probe_areas(self) -> Seq<Rect> {
        Seq::new(self.regions.len(), |n: int| self.probe_area(n))
    }

    /// The frame that the regions are drawn into.
    pub open spec fn frame(self) -> LayoutFrameView {
        let n = self.regions.len() as int;
        LayoutFrameView {
            areas: self.probe_areas(),
            grid: Grid::spec_empty(
                Rect {
                    x: 0,
                    y: 0,
                    width: self.size.width,
                    height: geometry::plus(self.probe_rows(n), self.pinned_rows(n)),
                },
            ).unmeasured(),
        }
    }

    /// How many rows the region `n` takes, once it is drawn: an inline one down to the last row
    /// that was drawn into, within its bounds.
    pub open spec fn height(self, drawn: Grid, n: int) -> u16 {
        match self.regions[n] {
            Region::Inline { min_height, max_height } => geometry::lower(
                geometry::upper(drawn.touched_height(self.probe_area(n)) as u16, min_height),
                max_height,
            ),
            Region::PinnedBottom { .. } => self.probe_area(n).height,
        }
    }

    /// How many rows the inline regions among the first `n` take, once they are drawn.
    pub open spec fn inline_rows(self, drawn: Grid, n: int) -> u16
        decreases n,
    {
        if n <= 0 {
            0
        } else if self.regions[n - 1] is Inline {
            geometry::plus(self.inline_rows(drawn, n - 1), self.height(drawn, n - 1))
        } else {
            self.inline_rows(drawn, n - 1)
        }
    }

    /// The row behind the pinned regions among the first `n`, which lie below all inline ones.
    pub open spec fn pinned_bottom(self, drawn: Grid, n: int) -> u16
        decreases n,
    {
        if n <= 0 {
            self.inline_rows(drawn, self.regions.len() as int)
        } else if self.regions[n - 1] is Inline {
            self.pinned_bottom(drawn, n - 1)
        } else {
            geometry::plus(self.pinned_bottom(drawn, n - 1), self.height(drawn, n - 1))
        }
    }

    /// Where the region `n` stands once the regions are put together.
    pub open spec fn place(self, drawn: Grid, n: int) -> Rect {
        let y = if self.regions[n] is Inline {
            self.inline_rows(drawn, n)
        } else {
            self.pinned_bottom(drawn, n)
        };
        Rect::spec_new(0, y, self.size.width, self.height(drawn, n))
    }

    /// How many rows all regions take, once they are drawn.
    pub open spec fn total_rows(self, drawn: Grid) -> u16 {
        let n = self.regions.len() as int;
        geometry::plus(self.inline_rows(drawn, n), self.pinned_rows(n))
    }

    /// The rows of the first `n` regions, put together.
    pub open spec fn gathered(self, drawn: Grid, n: int) -> Grid
        decreases n,
    {
        if n <= 0 {
            Grid::spec_empty(
                Rect { x: 0, y: 0, width: self.size.width, height: self.total_rows(drawn) },
            )
        } else {
            self.gathered(drawn, n - 1).copied(
                drawn.unmarked(),
                geometry::minus(self.probe_area(n - 1).y, drawn.area.y),
                self.place(drawn, n - 1),
            )
        }
    }

    /// The regions as they were drawn.
    pub open spec fn measured(self, drawn: Grid) -> MeasuredView {
        let n = self.regions.len() as int;
        MeasuredView {
            grid: self.gathered(drawn, n),
            scrollback_height: self.inline_rows(drawn, n),
            pinned_bottom_height: self.pinned_rows(n),
        }
    }
}

/// What is drawn to measure regions never shows: no cell of a measured layout holds the mark of a
/// cell that nothing has been drawn into.
pub proof fn law_measurement_marks_never_show(layout: Layout, drawn: Grid, n: int, i: int)
    requires
        drawn.wf(),
        0 <= i < layout.gathered(drawn, n).cells.len(),
    ensures
        layout.gathered(drawn, n).cells[i].symbol != buffer::glyph(MEASUREMENT_MARK),
    decreases n,
{
    assert(buffer::glyph(' ')[0] != buffer::glyph(MEASUREMENT_MARK)[0]);
    if n > 0 {
        let before = layout.gathered(drawn, n - 1);
        law_measurement_marks_never_show(layout, drawn, n - 1, i);
        let source = drawn.unmarked();
        let area = layout.place(drawn, n - 1);
        let start = geometry::minus(layout.probe_area(n - 1).y, drawn.area.y);
        let c = before.column(i) - area.x;
        let r = before.row(i) - area.y;
        if source.holds(source.area.x + c, source.area.y + start + r) {
            buffer::lemma_index(source, source.area.x + c, source.area.y + start + r);
        }
    }
}

/// The rows of the inline regions, and of the pinned ones, add up.
proof fn lemma_rows_add_up(layout: Layout, drawn: Grid, n: int, m: int)
    requires
        0 <= n < m,
    ensures
        layout.regions[n] is Inline ==> geometry::plus(
            layout.inline_rows(drawn, n),
            layout.height(drawn, n),
        ) <= layout.inline_rows(drawn, m),
        layout.regions[n] is PinnedBottom ==> geometry::plus(
            layout.pinned_bottom(drawn, n),
            layout.height(drawn, n),
        ) <= layout.pinned_bottom(drawn, m),
        layout.inline_rows(drawn, n) <= layout.inline_rows(drawn, m),
        layout.pinned_bottom(drawn, n) <= layout.pinned_bottom(drawn, m),
    decreases m - n,
{
    if n < m - 1 {
        lemma_rows_add_up(layout, drawn, n, m - 1);
    }
}

/// More regions take more rows.
proof fn lemma_grows(layout: Layout, drawn: Grid, n: int, m: int)
    requires
        0 <= n <= m,
    ensures
        layout.pinned_rows(n) <= layout.pinned_rows(m),
        layout.room_sum(n) <= layout.room_sum(m),
        layout.height_sum(drawn, n) <= layout.height_sum(drawn, m),
    decreases m - n,
{
    if n < m {
        lemma_grows(layout, drawn, n, m - 1);
    }
}

impl Layout {
    /// The rows that can be drawn into the inline regions among the first `n`, all counted.
    pub open spec fn room_sum(self, n: int) -> int
        decreases n,
    {
        if n <= 0 {
            0
        } else {
            self.room_sum(n - 1) + self.regions[n - 1].room()
        }
    }

    /// The rows that the inline regions among the first `n` take once they are drawn, all counted.
    pub open spec fn height_sum(self, drawn: Grid, n: int) -> int
        decreases n,
    {
        if n <= 0 {
            0
        } else if self.regions[n - 1] is Inline {
            self.height_sum(drawn, n - 1) + self.height(drawn, n - 1)
        } else {
            self.height_sum(drawn, n - 1)
        }
    }

    /// The row of the frame that the region `n` is drawn from: behind the rows of the inline
    /// regions before it, or behind those of all inline regions and of the pinned ones before it.
    pub open spec fn drawn_from(self, n: int) -> int {
        if self.regions[n] is Inline {
            self.room_sum(n)
        } else {
            self.room_sum(self.regions.len() as int) + self.pinned_rows(n)
        }
    }

    /// The row of the measured layout that the region `n` stands at.
    pub open spec fn stands_at(self, drawn: Grid, n: int) -> int {
        if self.regions[n] is Inline {
            self.height_sum(drawn, n)
        } else {
            self.height_sum(drawn, self.regions.len() as int) + self.pinned_rows(n)
        }
    }
}

/// The rows of the inline regions, counted in a `u16`.
proof fn lemma_sums(layout: Layout, drawn: Grid, n: int)
    ensures
        layout.probe_rows(n) == geometry::least(layout.room_sum(n), u16::MAX as int),
        layout.inline_rows(drawn, n) == geometry::least(
            layout.height_sum(drawn, n),
            u16::MAX as int,
        ),
        0 <= layout.height_sum(drawn, n) <= layout.room_sum(n),
        layout.pinned_rows(n) <= layout.size.height,
    decreases n,
{
    if n > 0 {
        lemma_sums(layout, drawn, n - 1);
    }
}

/// Behind a pinned region no further rows can be drawn into.
proof fn lemma_room_before_pinned(layout: Layout, n: int, m: int)
    requires
        in_order(layout.regions),
        0 <= n < m <= layout.regions.len(),
        layout.regions[n] is PinnedBottom,
    ensures
        layout.room_sum(n) == layout.room_sum(m),
    decreases m - n,
{
    assert(layout.regions[m - 1] is PinnedBottom);
    if n < m - 1 {
        lemma_room_before_pinned(layout, n, m - 1);
    }
}

/// The pinned regions among the first `n` end where their rows say, if all were drawn in full.
proof fn lemma_pinned_rows(layout: Layout, drawn: Grid, n: int)
    requires
        in_order(layout.regions),
        0 <= n <= layout.regions.len(),
        layout.room_sum(layout.regions.len() as int) + layout.pinned_rows(n) <= u16::MAX,
    ensures
        layout.pinned_bottom(drawn, n) == layout.height_sum(
            drawn,
            layout.regions.len() as int,
        ) + layout.pinned_rows(n),
    decreases n,
{
    let all = layout.regions.len() as int;
    lemma_sums(layout, drawn, all);
    if n > 0 {
        lemma_sums(layout, drawn, n);
        lemma_sums(layout, drawn, n - 1);
        lemma_grows(layout, drawn, n - 1, n);
        lemma_pinned_rows(layout, drawn, n - 1);
        if layout.regions[n - 1] is PinnedBottom {
            lemma_room_before_pinned(layout, n - 1, all);
        }
    }
}

/// Where a region stands, and where it was drawn, in the rows that are counted in a `u16`.
proof fn lemma_region(layout: Layout, drawn: Grid, n: int, r: int)
    requires
        in_order(layout.regions),
        0 <= n < layout.regions.len(),
        0 <= r < layout.height(drawn, n),
        layout.drawn_from(n) + r < u16::MAX,
    ensures
        layout.probe_area(n).y == layout.drawn_from(n),
        layout.place(drawn, n).y == layout.stands_at(drawn, n),
        r < layout.place(drawn, n).height,
        layout.place(drawn, n).width == layout.size.width,
        layout.drawn_from(n) + r < geometry::plus(
            layout.probe_rows(layout.regions.len() as int),
            layout.pinned_rows(layout.regions.len() as int),
        ),
        layout.stands_at(drawn, n) + r < layout.total_rows(drawn),
        layout.regions[n] is Inline ==> layout.stands_at(drawn, n) + r < layout.inline_rows(
            drawn,
            layout.regions.len() as int,
        ),
        layout.regions[n] is PinnedBottom ==> layout.inline_rows(
            drawn,
            layout.regions.len() as int,
        ) <= layout.stands_at(drawn, n) + r < layout.inline_rows(
            drawn,
            layout.regions.len() as int,
        ) + layout.pinned_rows(layout.regions.len() as int),
{
    let all = layout.regions.len() as int;
    lemma_sums(layout, drawn, n);
    lemma_sums(layout, drawn, n + 1);
    lemma_sums(layout, drawn, all);
    lemma_grows(layout, drawn, n, n + 1);
    lemma_grows(layout, drawn, n + 1, all);
    if layout.regions[n] is PinnedBottom {
        lemma_pinned_rows(layout, drawn, n);
        lemma_room_before_pinned(layout, n, all);
    }
}

/// A row of a region, once the rows of the first `k` regions are put together.
proof fn lemma_gathered(layout: Layout, drawn: Grid, k: int, n: int, r: int, c: int)
    requires
        in_order(layout.regions),
        drawn.wf(),
        drawn.area == layout.frame().grid.area,
        0 <= n < k <= layout.regions.len(),
        0 <= r < layout.height(drawn, n),
        0 <= c < layout.size.width,
        layout.drawn_from(n) + r < u16::MAX,
    ensures
        layout.gathered(drawn, k).at(c, layout.stands_at(drawn, n) + r) == drawn.unmarked().at(
            c,
            layout.drawn_from(n) + r,
        ),
    decreases k,
{
    lemma_gathered_wf(layout, drawn, k);
    lemma_gathered_wf(layout, drawn, k - 1);
    lemma_region(layout, drawn, n, r);
    let before = layout.gathered(drawn, k - 1);
    let now = layout.gathered(drawn, k);
    let source = drawn.unmarked();
    let start = geometry::minus(layout.probe_area(k - 1).y, drawn.area.y);
    let area = layout.place(drawn, k - 1);
    let y = layout.stands_at(drawn, n) + r;
    buffer::lemma_index(now, c, y);
    let i = now.index(c, y);
    assert(before.column(i) == c && before.row(i) == y);
    if n == k - 1 {
        assert(source.holds(c, start + r));
    } else {
        lemma_gathered(layout, drawn, k - 1, n, r, c);
        lemma_rows_add_up(layout, drawn, 0, k - 1);
        lemma_rows_add_up(layout, drawn, n, k - 1);
        lemma_rows_add_up(layout, drawn, n, layout.regions.len() as int);
        assert(before.index(c, y) == i);
        assert(!(area.y <= y < area.y + area.height));
    }
}

/// The rows of the first regions, put together, have the area of the layout.
proof fn lemma_gathered_wf(layout: Layout, drawn: Grid, k: int)
    ensures
        layout.gathered(drawn, k).area == (Rect {
            x: 0,
            y: 0,
            width: layout.size.width,
            height: layout.total_rows(drawn),
        }),
        layout.gathered(drawn, k).wf(),
    decreases k,
{
    if k > 0 {
        lemma_gathered_wf(layout, drawn, k - 1);
    }
}

/// A measured layout holds each region as it was drawn: its rows stand together, below those of
/// the regions before it of its kind, and the pinned ones below all inline ones. That holds of each
/// row that the frame has.
pub proof fn law_regions_stand_as_they_were_drawn(
    layout: Layout,
    drawn: Grid,
    n: int,
    r: int,
    c: int,
)
    requires
        in_order(layout.regions),
        drawn.wf(),
        drawn.area == layout.frame().grid.area,
        0 <= n < layout.regions.len(),
        0 <= r < layout.height(drawn, n),
        0 <= c < layout.size.width,
        layout.drawn_from(n) + r < u16::MAX,
    ensures
        layout.probe_areas()[n].y == layout.drawn_from(n),
        layout.measured(drawn).grid.at(c, layout.stands_at(drawn, n) + r) == drawn.unmarked().at(
            c,
            layout.drawn_from(n) + r,
        ),
        layout.regions[n] is Inline ==> layout.stands_at(drawn, n) + r < layout.measured(
            drawn,
        ).scrollback_height,
        layout.regions[n] is PinnedBottom ==> layout.measured(drawn).scrollback_height
            <= layout.stands_at(drawn, n) + r < layout.measured(drawn).scrollback_height
            + layout.measured(drawn).pinned_bottom_height,
{
    lemma_gathered(layout, drawn, layout.regions.len() as int, n, r, c);
    lemma_region(layout, drawn, n, r);
}

/// Whether something was drawn into a cell of a frame.
pub open spec fn is_drawn(drawn: Grid, x: int, y: int) -> bool {
    drawn.holds(x, y) && drawn.at(x, y).symbol != buffer::glyph(MEASUREMENT_MARK)
}

/// The rows of an area down to the last one that something was drawn into hold each drawn cell.
proof fn lemma_touched(drawn: Grid, area: Rect, x: int, y: int)
    requires
        area.x <= x < area.spec_right(),
        area.y <= y < area.spec_bottom(),
        is_drawn(drawn, x, y),
    ensures
        y - area.y < drawn.touched_height(area),
{
    let n = (area.spec_bottom() - area.y) as nat;
    buffer::law_touched_rows_end_at_the_last_drawn_one(drawn, area, n, y - area.y);
    assert(drawn.at(x, y).symbol != buffer::glyph(MEASUREMENT_MARK));
    assert(drawn.row_touched(area, area.y + (y - area.y)));
}

/// What is drawn into an inline region is measured, as far as the region can get that high: the
/// row of each drawn cell is one that the region takes, and the cell stands in the measured layout
/// as it was drawn.
pub proof fn law_drawn_cells_are_measured(layout: Layout, drawn: Grid, n: int, x: int, y: int)
    requires
        in_order(layout.regions),
        drawn.wf(),
        drawn.area == layout.frame().grid.area,
        0 <= n < layout.regions.len(),
        layout.regions[n] matches Region::Inline { max_height, .. } && y
            < layout.frame().areas[n].y + max_height,
        layout.frame().areas[n].x <= x < layout.frame().areas[n].spec_right(),
        layout.frame().areas[n].y <= y < layout.frame().areas[n].spec_bottom(),
        is_drawn(drawn, x, y),
    ensures
        ({
            let r = y - layout.frame().areas[n].y;
            let row = layout.stands_at(drawn, n) + r;
            &&& r < layout.height(drawn, n)
            &&& row < layout.measured(drawn).scrollback_height
            &&& layout.measured(drawn).grid.at(x, row) == drawn.at(x, y)
        }),
{
    let area = layout.frame().areas[n];
    let r = y - area.y;
    lemma_touched(drawn, area, x, y);
    let most = (area.spec_bottom() - area.y) as nat;
    buffer::law_touched_rows_end_at_the_last_drawn_one(drawn, area, most, r);
    assert(r < layout.height(drawn, n));
    lemma_sums(layout, drawn, n);
    assert(layout.drawn_from(n) + r < u16::MAX) by {
        lemma_sums(layout, drawn, layout.regions.len() as int);
        assert(area.y == layout.probe_rows(n));
        assert(y < u16::MAX);
    }
    law_regions_stand_as_they_were_drawn(layout, drawn, n, r, x);
    buffer::lemma_index(drawn, x, y);
}

/// A region takes as many rows as it has to: an inline one no fewer than its minimum and no more
/// than its maximum, and where it takes more than its minimum, something was drawn into the last of
/// them.
pub proof fn law_regions_take_no_more_rows_than_drawn(layout: Layout, drawn: Grid, n: int)
    requires
        drawn.wf(),
        0 <= n < layout.regions.len(),
        layout.regions[n] is Inline,
    ensures
        ({
            let area = layout.frame().areas[n];
            let h = layout.height(drawn, n);
            let least = layout.regions[n]->min_height;
            let most = layout.regions[n]->max_height;
            &&& h <= most
            &&& least <= most ==> least <= h
            &&& least >= most ==> h == most
            &&& h > least && most == h ==> exists|x: int, y: int| #[trigger]
                is_drawn(drawn, x, y) && area.x <= x < area.spec_right() && area.y + h - 1 <= y
                    < area.spec_bottom()
            &&& h > least && most > h ==> exists|x: int| #[trigger]
                is_drawn(drawn, x, area.y + h - 1) && area.x <= x < area.spec_right()
        }),
{
    let area = layout.frame().areas[n];
    let h = layout.height(drawn, n);
    let least = layout.regions[n]->min_height;
    if h > least {
        let all = (area.spec_bottom() - area.y) as nat;
        let t = drawn.touched_height(area) as int;
        buffer::law_touched_rows_end_at_the_last_drawn_one(drawn, area, all, 0);
        assert(t >= h);
        let y = area.y + t - 1;
        let x = choose|x: int|
            #![trigger drawn.at(x, y)]
            area.x <= x < area.spec_right() && drawn.holds(x, y) && drawn.at(x, y).symbol
                != buffer::glyph(MEASUREMENT_MARK);
        assert(is_drawn(drawn, x, y));
    }
}

impl Layout {
    /// The rows that the pinned regions among the first `n` ask for.
    pub open spec fn pinned_sum(self, n: int) -> int
        decreases n,
    {
        if n <= 0 {
            0
        } else if self.regions[n - 1] is PinnedBottom {
            self.pinned_sum(n - 1) + self.regions[n - 1]->height
        } else {
            self.pinned_sum(n - 1)
        }
    }
}

/// The pinned regions take the rows that they ask for, as far as the screen has them.
proof fn lemma_pinned_sum(layout: Layout, n: int)
    ensures
        layout.pinned_rows(n) == geometry::least(
            layout.pinned_sum(n),
            layout.size.height as int,
        ),
        0 <= layout.pinned_sum(n),
    decreases n,
{
    if n > 0 {
        lemma_pinned_sum(layout, n - 1);
    }
}

/// A measured layout has as many rows as its regions take: the inline ones theirs, all counted, and
/// the pinned ones what they ask for, as far as the screen has it.
pub proof fn law_measured_rows_add_up(layout: Layout, drawn: Grid)
    ensures
        ({
            let n = layout.regions.len() as int;
            let measured = layout.measured(drawn);
            let all = measured.scrollback_height + measured.pinned_bottom_height;
            &&& measured.scrollback_height == geometry::least(
                layout.height_sum(drawn, n),
                u16::MAX as int,
            )
            &&& measured.pinned_bottom_height == geometry::least(
                layout.pinned_sum(n),
                layout.size.height as int,
            )
            &&& measured.grid.area.width == layout.size.width
            &&& measured.grid.area.height == geometry::least(all, u16::MAX as int)
            &&& measured.grid.wf()
        }),
{
    let n = layout.regions.len() as int;
    lemma_sums(layout, drawn, n);
    lemma_pinned_sum(layout, n);
    lemma_gathered_wf(layout, drawn, n);
}

/// A measured layout starts at the first column and row.
pub proof fn lemma_gathered_area(layout: Layout, drawn: Grid)
    ensures
        layout.measured(drawn).grid.area.x == 0,
        layout.measured(drawn).grid.area.y == 0,
{
    lemma_gathered_wf(layout, drawn, layout.regions.len() as int);
}

/// Each region is given an area as wide as the screen: an inline one as high as it can get, a
/// pinned one as high as it asks for and as the pinned ones before it leave room for. The areas lie
/// below each other, and the frame ends with the last one, as far as rows can be counted.
pub proof fn law_areas_lie_below_each_other(layout: Layout, n: int)
    requires
        in_order(layout.regions),
        0 <= n < layout.regions.len(),
        layout.drawn_from(n) + layout.regions[n].room() + layout.size.height <= u16::MAX,
    ensures
        ({
            let areas = layout.frame().areas;
            let area = areas[n];
            &&& areas.len() == layout.regions.len()
            &&& area.x == 0
            &&& area.width == layout.size.width
            &&& n == 0 ==> area.y == 0
            &&& n > 0 ==> area.y == areas[n - 1].y + areas[n - 1].height
            &&& n == areas.len() - 1 ==> layout.frame().grid.area == (Rect {
                x: 0,
                y: 0,
                width: layout.size.width,
                height: (area.y + area.height) as u16,
            })
            &&& match layout.regions[n] {
                Region::Inline { min_height, max_height } => area.height == geometry::greatest(
                    min_height as int,
                    max_height as int,
                ),
                Region::PinnedBottom { height } => area.height == geometry::least(
                    height as int,
                    geometry::greatest(layout.size.height - layout.pinned_sum(n), 0),
                ),
            }
        }),
{
    let len = layout.regions.len() as int;
    let drawn = layout.frame().grid;
    lemma_sums(layout, drawn, n);
    lemma_sums(layout, drawn, n + 1);
    lemma_sums(layout, drawn, len);
    lemma_pinned_sum(layout, n);
    lemma_pinned_sum(layout, n + 1);
    lemma_pinned_sum(layout, len);
    if layout.regions[n] is PinnedBottom {
        lemma_room_before_pinned(layout, n, len);
    } else {
        lemma_nothing_pinned(layout, n + 1);
    }
    if n > 0 {
        lemma_sums(layout, drawn, n - 1);
        lemma_pinned_sum(layout, n - 1);
        if layout.regions[n - 1] is PinnedBottom {
            lemma_room_before_pinned(layout, n - 1, len);
        } else {
            lemma_nothing_pinned(layout, n);
        }
    } else {
        assert(layout.room_sum(0) == 0 && layout.pinned_sum(0) == 0);
        assert(layout.probe_rows(0) == 0 && layout.pinned_rows(0) == 0);
    }
}

/// Up to an inline region nothing is pinned.
proof fn lemma_nothing_pinned(layout: Layout, n: int)
    requires
        in_order(layout.regions),
        0 < n <= layout.regions.len(),
        layout.regions[n - 1] is Inline,
    ensures
        layout.pinned_sum(n) == 0,
        layout.pinned_rows(n) == 0,
    decreases n,
{
    if n > 1 {
        assert(layout.regions[n - 2] is Inline) by {
            if layout.regions[n - 2] is PinnedBottom {
                assert(layout.regions[n - 1] is PinnedBottom);
            }
        }
        lemma_nothing_pinned(layout, n - 1);
    } else {
        assert(layout.pinned_sum(0) == 0 && layout.pinned_rows(0) == 0);
    }
}

/// The frame that regions are drawn into tells of each cell that nothing was drawn into it, so that
/// inline regions which are left alone take their minimum.
pub proof fn law_undrawn_regions_take_their_minimum(layout: Layout, n: int, x: int, y: int)
    requires
        0 <= n < layout.regions.len(),
        layout.regions[n] is Inline,
    ensures
        !is_drawn(layout.frame().grid, x, y),
        layout.height(layout.frame().grid, n) == geometry::least(
            layout.regions[n]->min_height as int,
            layout.regions[n]->max_height as int,
        ),
{
    let drawn = layout.frame().grid;
    assert forall|i: int, j: int| !#[trigger] is_drawn(drawn, i, j) by {
        if drawn.holds(i, j) {
            buffer::lemma_index(drawn, i, j);
        }
    }
    assert(drawn.wf());
    law_regions_take_no_more_rows_than_drawn(layout, drawn, n);
}

/// Where regions can be drawn on a screen of a size, and how many rows are pinned; an error where
/// an inline region comes after a pinned one.
fn probe(screen_size: Size, regions: &[Region]) -> (r: Result<(Vec<Rect>, u16, u16), LayoutError>)
    ensures
        r is Ok <==> in_order(regions@),
        r matches Ok((areas, probe_height, pinned_total)) ==> {
            let layout = Layout { regions: regions@, size: screen_size };
            &&& areas@ == layout.probe_areas()
            &&& probe_height == layout.probe_rows(regions@.len() as int)
            &&& pinned_total == layout.pinned_rows(regions@.len() as int)
        },
{
    let ghost layout = Layout { regions: regions@, size: screen_size };
    let mut areas: Vec<Rect> = Vec::new();
    let mut probe_height: u16 = 0;
    let mut pinned_total: u16 = 0;
    let mut saw_pinned_bottom: bool = false;
    let mut i: usize = 0;
    while i < regions.len()
        invariant
            i <= regions@.len(),
            layout == (Layout { regions: regions@, size: screen_size }),
            areas@ == layout.probe_areas().take(i as int),
            probe_height == layout.probe_rows(i as int),
            pinned_total == layout.pinned_rows(i as int),
            saw_pinned_bottom <==> exists|k: int| 0 <= k < i && regions@[k] is PinnedBottom,
            forall|k: int, l: int|
                0 <= k < l < i && regions@[k] is PinnedBottom ==> regions@[l] is PinnedBottom,
        decreases regions@.len() - i,
    {
        match regions[i] {
            Region::Inline { min_height, max_height } => {
                if saw_pinned_bottom {
                    return Err(LayoutError::InlineAfterPinned);
                }
                let height: u16 = max_u16(max_height, min_height);
                areas.push(Rect::new(0, probe_height, screen_size.width, height));
                probe_height = probe_height.saturating_add(height);
            },
            Region::PinnedBottom { height } => {
                saw_pinned_bottom = true;
                let height: u16 = min_u16(height, screen_size.height.saturating_sub(pinned_total));
                areas.push(
                    Rect::new(
                        0,
                        probe_height.saturating_add(pinned_total),
                        screen_size.width,
                        height,
                    ),
                );
                pinned_total = pinned_total.saturating_add(height);
            },
        }
        i += 1;
        assert(areas@ =~= layout.probe_areas().take(i as int));
    }
    assert(layout.probe_areas().take(i as int) =~= layout.probe_areas());
    Ok((areas, probe_height, pinned_total))
}

/// Measures regions that have been drawn, and puts their rows together.
pub fn measured_layout(screen_size: Size, regions: &[Region], drawn: Buffer) -> (r: Result<
    MeasuredLayout,
    LayoutError,
>)
    requires
        drawn@.wf(),
    ensures
        r is Ok <==> in_order(regions@),
        r matches Ok(layout) ==> layout@ == (Layout {
            regions: regions@,
            size: screen_size,
        }).measured(drawn@),
        r matches Ok(layout) ==> layout@.grid.wf(),
{
    let ghost layout = Layout { regions: regions@, size: screen_size };
    let (areas, _, pinned_total): (Vec<Rect>, u16, u16) = match probe(screen_size, regions) {
        Ok(probed) => probed,
        Err(error) => {
            return Err(error);
        },
    };
    let mut drawn = drawn;
    let ghost start = drawn@;
    let mut heights: Vec<u16> = Vec::new();
    let mut inline_total: u16 = 0;
    let mut i: usize = 0;
    while i < regions.len()
        invariant
            i <= regions@.len(),
            layout == (Layout { regions: regions@, size: screen_size }),
            areas@ == layout.probe_areas(),
            drawn@ == start,
            drawn@.wf(),
            heights@.len() == i,
            forall|k: int| 0 <= k < i ==> #[trigger] heights@[k] == layout.height(start, k),
            inline_total == layout.inline_rows(start, i as int),
        decreases regions@.len() - i,
    {
        match regions[i] {
            Region::Inline { min_height, max_height } => {
                let touched: u16 = touched_height(&drawn, areas[i]);
                let height: u16 = min_u16(max_u16(touched, min_height), max_height);
                heights.push(height);
                inline_total = inline_total.saturating_add(height);
            },
            Region::PinnedBottom { .. } => {
                heights.push(areas[i].height);
            },
        }
        i += 1;
    }
    clear_measurement_marks(&mut drawn);
    let mut buffer: Buffer = Buffer::empty(
        Rect::new(0, 0, screen_size.width, inline_total.saturating_add(pinned_total)),
    );
    let mut inline_y: u16 = 0;
    let mut pinned_y: u16 = inline_total;
    let mut n: usize = 0;
    while n < regions.len()
        invariant
            n <= regions@.len(),
            layout == (Layout { regions: regions@, size: screen_size }),
            areas@ == layout.probe_areas(),
            drawn@ == start.unmarked(),
            drawn@.wf(),
            heights@.len() == regions@.len(),
            forall|k: int|
                0 <= k < regions@.len() ==> #[trigger] heights@[k] == layout.height(start, k),
            inline_y == layout.inline_rows(start, n as int),
            pinned_y == layout.pinned_bottom(start, n as int),
            buffer@ == layout.gathered(start, n as int),
            buffer@.wf(),
        decreases regions@.len() - n,
    {
        let height: u16 = heights[n];
        let start_row: u16 = areas[n].y.saturating_sub(drawn.area.y);
        match regions[n] {
            Region::Inline { .. } => {
                let place: Rect = Rect::new(0, inline_y, screen_size.width, height);
                copy_buffer_rows_to_area(&drawn, start_row, place, &mut buffer);
                inline_y = inline_y.saturating_add(height);
            },
            Region::PinnedBottom { .. } => {
                let place: Rect = Rect::new(0, pinned_y, screen_size.width, height);
                copy_buffer_rows_to_area(&drawn, start_row, place, &mut buffer);
                pinned_y = pinned_y.saturating_add(height);
            },
        }
        n += 1;
    }
    Ok(
        MeasuredLayout {
            buffer,
            scrollback_height: inline_total,
            pinned_bottom_height: pinned_total,
        },
    )
}

/// Has regions drawn, if they are in order, measures them, and puts their rows together.
pub fn measure_layout<F: FnOnce(&mut LayoutFrame)>(
    screen_size: Size,
    regions: &[Region],
    render: F,
) -> (r: Result<MeasuredLayout, LayoutError>)
    requires
        in_order(regions@) ==> forall|f: &mut LayoutFrame|
            (*f)@ == (Layout { regions: regions@, size: screen_size }).frame()
                ==> #[trigger] render.requires((f,)),
        forall|f: &mut LayoutFrame, u: ()| #[trigger]
            render.ensures((f,), u) && (*f)@ == (Layout {
                regions: regions@,
                size: screen_size,
            }).frame() ==> (*final(f))@.grid.wf(),
    ensures
        r is Ok <==> in_order(regions@),
        r matches Ok(measured) ==> measured@.grid.wf(),
        r matches Ok(measured) ==> exists|f: &mut LayoutFrame, u: ()| #[trigger]
            render.ensures((f,), u) && (*f)@ == (Layout {
                regions: regions@,
                size: screen_size,
            }).frame() && measured@ == (Layout {
                regions: regions@,
                size: screen_size,
            }).measured((*final(f))@.grid),
{
    let (areas, probe_height, pinned_total): (Vec<Rect>, u16, u16) = match probe(
        screen_size,
        regions,
    ) {
        Ok(probed) => probed,
        Err(error) => {
            return Err(error);
        },
    };
    let mut buffer: Buffer = Buffer::empty(
        Rect::new(0, 0, screen_size.width, probe_height.saturating_add(pinned_total)),
    );
    mark_measurement_buffer(&mut buffer);
    let mut frame = LayoutFrame { areas, buffer };
    render(&mut frame);
    measured_layout(screen_size, regions, frame.buffer)
}

} // verus!
