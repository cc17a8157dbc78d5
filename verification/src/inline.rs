//! A viewport that grows and shrinks at the bottom of what the terminal shows, with history
//! inserted above it.

use vstd::prelude::*;

use crate::buffer::copy_buffer_rows_to_area;
use crate::buffer::Buffer;
use crate::buffer::Grid;
use crate::command;
use crate::command::OpOf;
use crate::command::Placed;
use crate::command::PlacedOf;
use crate::command::PlacedView;
use crate::geometry;
use crate::geometry::min_u16;
use crate::geometry::Position;
use crate::geometry::Rect;
use crate::geometry::Size;
use crate::history;
use crate::history::insert_history_lines;
use crate::history::InsertHistoryMode;
use crate::layout;
use crate::layout::measure_layout;
use crate::layout::Layout;
use crate::layout::LayoutError;
use crate::layout::LayoutFrame;
use crate::layout::MeasuredLayout;
use crate::layout::Region;
use crate::terminal;
use crate::terminal::can_insert_above;
use crate::terminal::Frame;
use crate::terminal::FrameView;
use crate::terminal::Terminal;
use crate::terminal::TerminalView;
use crate::text::Line;
use crate::text::LineView;

verus! {

/// What the terminal says of its screen.
#[derive(Debug, Clone, Copy, PartialEq, Eq, Structural)]
pub struct Screen {
    pub size: Size,
    /// Where the cursor stands, if that could be found.
    pub cursor: Option<Position>,
}

/// How many rows of a growing text have been committed to the history, and how it was last drawn.
#[derive(Debug, Clone, Copy, PartialEq, Eq, Structural)]
pub struct ScrollbackTailState {
    committed_rows: u16,
    width: u16,
    pinned_bottom_height: u16,
    visible_rows: u16,
}

/// What a tail state holds.
pub struct TailView {
    pub committed_rows: u16,
    pub width: u16,
    pub pinned_bottom_height: u16,
    pub visible_rows: u16,
}

impl View for ScrollbackTailState {
    type V = TailView;

    closed spec fn view(&self) -> TailView {
        TailView {
            committed_rows: self.committed_rows,
            width: self.width,
            pinned_bottom_height: self.pinned_bottom_height,
            visible_rows: self.visible_rows,
        }
    }
}

/// The rows of a tail: those that scroll, those that are pinned, and the screen they are drawn on.
pub struct Tail {
    pub scrollback_height: u16,
    pub pinned_bottom_height: u16,
    pub size: Size,
}

impl Tail {
    /// How many pinned rows the screen shows.
    pub open spec fn pinned(self) -> u16 {
        geometry::lower(self.pinned_bottom_height, self.size.height)
    }

    /// How many scrolling rows the screen shows: the last ones, as many as the pinned rows leave
    /// room for.
    pub open spec fn visible(self) -> u16 {
        geometry::lower(self.scrollback_height, geometry::minus(self.size.height, self.pinned()))
    }

    /// How many rows the screen shows.
    pub open spec fn height(self) -> u16 {
        geometry::plus(self.visible(), self.pinned())
    }

    /// How many scrolling rows the screen does not show.
    pub open spec fn overflow(self) -> u16 {
        geometry::minus(self.scrollback_height, self.visible())
    }
}

impl TailView {
    /// Nothing committed, and never drawn.
    pub open spec fn spec_new() -> TailView {
        TailView { committed_rows: 0, width: 0, pinned_bottom_height: 0, visible_rows: 0 }
    }

    /// The state for a tail that is drawn. Where the width changes, the rows that the screen does
    /// not show count as committed.
    pub open spec fn arranged(self, tail: Tail) -> TailView {
        TailView {
            committed_rows: if self.width != tail.size.width && self.width != 0 {
                tail.overflow()
            } else {
                self.committed_rows
            },
            width: tail.size.width,
            pinned_bottom_height: tail.pinned(),
            visible_rows: tail.visible(),
        }
    }

    /// The state once at least so many rows are committed.
    pub open spec fn committed(self, rows: u16) -> TailView {
        TailView { committed_rows: geometry::upper(self.committed_rows, rows), ..self }
    }

    /// The state after a tail has been drawn.
    pub open spec fn drawn(self, tail: Tail) -> TailView {
        self.arranged(tail).committed(tail.overflow())
    }

    /// The state for a tail that ends on a screen of so many columns. Where the width changes, no
    /// more rows count as committed than there are.
    pub open spec fn ending(self, scrollback_height: u16, width: u16) -> TailView {
        TailView {
            committed_rows: if self.width != width && self.width != 0 {
                geometry::lower(self.committed_rows, scrollback_height)
            } else {
                self.committed_rows
            },
            width,
            ..self
        }
    }

    /// How many pinned rows a tail that ends in a viewport of `height` rows keeps.
    pub open spec fn kept(self, pinned_bottom_height: u16, height: u16) -> u16 {
        geometry::lower(
            if pinned_bottom_height == 0 {
                self.pinned_bottom_height
            } else {
                pinned_bottom_height
            },
            height,
        )
    }

    /// How many scrolling rows a tail that ends leaves in `room` rows above its pinned ones.
    pub open spec fn shown(self, scrollback_height: u16, room: u16) -> u16 {
        geometry::lower(
            if self.visible_rows == 0 {
                geometry::minus(scrollback_height, self.committed_rows)
            } else {
                self.visible_rows
            },
            room,
        )
    }
}

impl Default for ScrollbackTailState {
    fn default() -> (r: ScrollbackTailState)
        ensures
            r@ == TailView::spec_new(),
    {
        ScrollbackTailState { committed_rows: 0, width: 0, pinned_bottom_height: 0, visible_rows: 0 }
    }
}

impl ScrollbackTailState {
    /// Nothing committed, and never drawn.
    pub fn new() -> (r: ScrollbackTailState)
        ensures
            r@ == TailView::spec_new(),
    {
        ScrollbackTailState { committed_rows: 0, width: 0, pinned_bottom_height: 0, visible_rows: 0 }
    }

    /// How many rows have been committed to the history.
    pub fn committed_rows(&self) -> (r: u16)
        ensures
            r == self@.committed_rows,
    {
        self.committed_rows
    }

    /// Starts anew.
    pub fn reset(&mut self)
        ensures
            final(self)@ == TailView::spec_new(),
    {
        *self = ScrollbackTailState::new();
    }
}

/// The row that a viewport of `height` rows starts at on a screen of another size, before it is
/// moved up to end on the screen. One that reached the last row and does not grow stays there.
pub open spec fn fit_top(area: Rect, height: u16, size: Size) -> u16 {
    let h = geometry::lower(height, size.height);
    if (area.spec_bottom() >= size.height && h <= area.height) || area.y > size.height {
        geometry::minus(size.height, h)
    } else {
        area.y
    }
}

/// A viewport, given another height, on a screen of a size.
pub open spec fn fit(area: Rect, height: u16, size: Size) -> Rect {
    let h = geometry::lower(height, size.height);
    let top = fit_top(area, height, size);
    Rect {
        x: area.x,
        y: if geometry::plus(top, h) > size.height {
            geometry::minus(size.height, h)
        } else {
            top
        },
        width: size.width,
        height: h,
    }
}

/// Whether a viewport can keep the cells that lie in both places when it changes: it keeps its
/// last row, or grows at its end.
pub open spec fn keeps_cells(old_area: Rect, area: Rect) -> bool {
    area.width == old_area.width && (area.spec_bottom() == old_area.spec_bottom() || (area.y
        == old_area.y && area.height >= old_area.height))
}

/// The cells of a grid, each at its place.
pub open spec fn placed(grid: Grid) -> Seq<PlacedView> {
    Seq::new(
        grid.cells.len(),
        |i: int|
            PlacedOf { x: grid.column(i) as u16, y: grid.row(i) as u16, cell: grid.cells[i] },
    )
}

/// The part of a viewport that its last `pinned` rows take.
pub open spec fn pinned_area(area: Rect, pinned: u16) -> Rect {
    Rect::spec_new(area.x, geometry::minus(area.spec_bottom(), pinned), area.width, pinned)
}

impl TerminalView {
    /// Where the viewport has gone, if the screen has another size and the cursor another row.
    pub open spec fn pending_area(self, screen: Screen) -> Option<Rect> {
        if screen.size != self.last_known_screen_size && screen.cursor is Some
            && screen.cursor->0.y != self.last_known_cursor_pos.y {
            Some(
                self.viewport_area.spec_offset(
                    (screen.cursor->0.y - self.last_known_cursor_pos.y) as i32,
                ),
            )
        } else {
            None
        }
    }

    /// The terminal with its viewport where it has gone, and cleared there.
    pub open spec fn settled(self, screen: Screen) -> TerminalView {
        match self.pending_area(screen) {
            Some(area) => self.resized(area).cleared(),
            None => self,
        }
    }

    /// The terminal with a viewport of so many rows. Where it would end below the screen, the rows
    /// above it scroll up.
    pub open spec fn fitted(self, height: u16, size: Size) -> TerminalView {
        let area = fit(self.viewport_area, height, size);
        let top = fit_top(self.viewport_area, height, size);
        let t = if geometry::plus(top, area.height) > size.height {
            self.told(
                terminal::scroll_up(
                    0,
                    top as int,
                    geometry::plus(top, area.height) - size.height,
                ),
            )
        } else {
            self
        };
        if area == self.viewport_area {
            t
        } else if keeps_cells(self.viewport_area, area) {
            t.remapped(area)
        } else {
            t.cleared().resized(area)
        }
    }

    /// The terminal told to insert `n` rows of `source`, from the row `start` of it on, above the
    /// viewport. The cursor returns to where it was last put.
    pub open spec fn with_rows(self, source: Grid, start: u16, n: u16) -> TerminalView {
        let area = Rect { x: 0, y: 0, width: self.viewport_area.width, height: n };
        if n == 0 || self.viewport_area.width == 0 {
            self
        } else {
            self.inserted(n, Grid::spec_empty(area).copied(source, start, area).cells).moved(
                self.last_known_cursor_pos,
            ).noted(n)
        }
    }

    /// The terminal told to draw the rows of `source` from `start` on in an area of the screen.
    pub open spec fn painted(self, source: Grid, start: u16, area: Rect) -> TerminalView {
        if area.spec_is_empty() || self.viewport_area.width == 0 {
            self
        } else {
            TerminalView {
                last_known_cursor_pos: Position {
                    x: (area.x + area.width - 1) as u16,
                    y: (area.y + area.height - 1) as u16,
                },
                ..self.told(
                    seq![
                        OpOf::DrawCells(placed(Grid::spec_empty(area).copied(source, start, area))),
                    ],
                )
            }
        }
    }

    /// The terminal told to show nothing until it is told all.
    pub open spec fn begun(self) -> TerminalView {
        self.told(seq![OpOf::BeginSynchronizedUpdate])
    }

    /// The terminal told to show all that it was told.
    pub open spec fn ended(self) -> TerminalView {
        self.told(seq![OpOf::EndSynchronizedUpdate, OpOf::FlushWriter])
    }

    /// The cells of the viewport with a tail drawn: the rows of `source` from `start` on, and in
    /// the last `pinned` rows those from `pinned_start` on.
    pub open spec fn composed(
        self,
        source: Grid,
        start: u16,
        pinned_start: u16,
        pinned: u16,
    ) -> Grid {
        let area = self.viewport_area;
        let p = geometry::lower(pinned, area.height);
        let tail_area = Rect::spec_new(
            area.x,
            area.y,
            area.width,
            geometry::minus(area.height, p),
        );
        self.current.copied(source, start, tail_area).copied(
            source,
            pinned_start,
            pinned_area(area, p),
        )
    }
}

impl TerminalView {
    /// The terminal told to draw the last rows of a tail in the viewport, which shrinks to the
    /// pinned ones: `visible` rows of `source` from `start` on, and `pinned` from `pinned_start`
    /// on.
    pub open spec fn with_tail_left(
        self,
        source: Grid,
        start: u16,
        visible: u16,
        pinned_start: u16,
        pinned: u16,
    ) -> TerminalView {
        let area = self.viewport_area;
        let t = self.painted(
            source,
            start,
            Rect::spec_new(area.x, area.y, area.width, visible),
        ).painted(source, pinned_start, pinned_area(area, pinned));
        if pinned < area.height {
            t.remapped(pinned_area(area, pinned))
        } else {
            t
        }
    }
}

/// A terminal whose viewport is drawn inline, and the history that is still to be inserted.
#[derive(Debug)]
pub struct InlineViewport {
    terminal: Terminal,
    pending_history_lines: Vec<Line>,
}

/// What an inline viewport holds.
#[verifier::ext_equal]
pub struct InlineView {
    pub terminal: TerminalView,
    pub pending: Seq<LineView>,
}

impl View for InlineViewport {
    type V = InlineView;

    closed spec fn view(&self) -> InlineView {
        InlineView {
            terminal: self.terminal@,
            pending: history::views(self.pending_history_lines@),
        }
    }
}

impl Clone for InlineViewport {
    fn clone(&self) -> (r: InlineViewport)
        ensures
            self.wf() ==> r.wf() && r@ == self@,
    {
        let mut lines: Vec<Line> = Vec::new();
        let mut i: usize = 0;
        while i < self.pending_history_lines.len()
            invariant
                i <= self.pending_history_lines.len(),
                lines@.len() == i,
                forall|k: int|
                    0 <= k < i ==> (#[trigger] lines@[k])@ == self.pending_history_lines@[k]@,
            decreases self.pending_history_lines.len() - i,
        {
            lines.push(self.pending_history_lines[i].clone());
            i += 1;
        }
        assert(history::views(lines@) =~= history::views(self.pending_history_lines@));
        InlineViewport { terminal: self.terminal.clone(), pending_history_lines: lines }
    }
}

impl InlineView {
    /// The viewport with more lines to be inserted into the history.
    pub open spec fn with_lines(self, lines: Seq<LineView>) -> InlineView {
        InlineView { pending: self.pending + lines, ..self }
    }

    /// Whether the viewport can be drawn on the screen: its columns can be counted, and so can the
    /// row below it.
    pub open spec fn drawable(self, screen: Screen) -> bool {
        &&& self.terminal.settled(screen).viewport_area.x + screen.size.width <= u16::MAX + 1
        &&& screen.size.height < u16::MAX
    }

    /// Whether the viewport can be drawn with so many rows, after what history is pending has been
    /// inserted above it.
    pub open spec fn can_draw(self, screen: Screen, height: u16) -> bool {
        &&& self.drawable(screen)
        &&& self.pending.len() > 0 && screen.size.width > 0 ==> terminal::has_room_on(
            fit(self.terminal.settled(screen).viewport_area, height, screen.size),
            self.terminal.last_known_screen_size,
        )
    }

    /// The terminal with a viewport of so many rows, and the pending history inserted.
    pub open spec fn readied(self, screen: Screen, height: u16) -> TerminalView {
        let t = self.terminal.begun().settled(screen).fitted(height, screen.size).with_history(
            self.pending,
            InsertHistoryMode::Standard,
        );
        if self.pending.len() > 0 {
            t.invalidated()
        } else {
            t
        }
    }

    /// The terminal with the pending history inserted, and a viewport of so many rows. Above a
    /// viewport without columns, such as one that was never drawn, nothing can be inserted: that
    /// one is given its rows and columns first.
    pub open spec fn made_room(self, screen: Screen, height: u16) -> TerminalView {
        let t = self.terminal.begun().settled(screen);
        if t.viewport_area.width == 0 {
            t.fitted(height, screen.size).with_history(self.pending, InsertHistoryMode::Standard)
        } else {
            t.with_history(self.pending, InsertHistoryMode::Standard).fitted(height, screen.size)
        }
    }

    /// Whether the pending history can be inserted above a viewport that is given so many rows.
    pub open spec fn can_make_room(self, screen: Screen, height: u16) -> bool {
        let t = self.terminal.settled(screen);
        self.pending.len() > 0 ==> if t.viewport_area.width == 0 {
            screen.size.width > 0 ==> terminal::has_room_on(
                fit(t.viewport_area, height, screen.size),
                t.last_known_screen_size,
            )
        } else {
            t.has_room()
        }
    }

    /// Whether a tail can be drawn, after what history is pending and the rows that overflow have
    /// been inserted above it.
    pub open spec fn can_draw_tail(self, state: TailView, tail: Tail, screen: Screen) -> bool {
        &&& self.drawable(screen)
        &&& self.can_make_room(screen, tail.height())
        &&& tail.overflow() > state.arranged(tail).committed_rows && screen.size.width > 0
            ==> terminal::has_room_on(
            Rect { x: 0, y: 0, width: screen.size.width, height: screen.size.height },
            self.terminal.last_known_screen_size,
        )
    }

    /// The viewport with a tail drawn: the rows of it that are not yet committed and do not fit on
    /// the screen are inserted above the viewport, which shows the rest.
    pub open spec fn tail_drawn(
        self,
        state: TailView,
        source: Grid,
        tail: Tail,
        screen: Screen,
    ) -> InlineView {
        let committed = state.arranged(tail).committed_rows;
        let t = self.made_room(screen, tail.height()).with_rows(
            source,
            committed,
            geometry::minus(tail.overflow(), committed),
        ).invalidated().on_screen(screen.size);
        let cells = t.composed(
            source,
            state.drawn(tail).committed_rows,
            tail.scrollback_height,
            tail.pinned(),
        );
        InlineView { terminal: t.with_current(cells).presented(None).ended(), pending: Seq::empty() }
    }

    /// The terminal when a tail begins to end. A viewport without columns, such as one that was
    /// never drawn, is given those of the screen and the rows of the tail.
    pub open spec fn opened(self, tail: Tail) -> TerminalView {
        let t = self.terminal.begun();
        if t.viewport_area.width == 0 {
            t.fitted(tail.height(), tail.size)
        } else {
            t
        }
    }

    /// How many scrolling rows of a tail stay in the viewport when it ends.
    pub open spec fn tail_shown(self, state: TailView, tail: Tail) -> u16 {
        let s = state.ending(tail.scrollback_height, tail.size.width);
        let height = self.opened(tail).viewport_area.height;
        s.shown(
            tail.scrollback_height,
            geometry::minus(height, s.kept(tail.pinned_bottom_height, height)),
        )
    }

    /// Whether a tail can end, after what history is pending and the rows that overflow have been
    /// inserted above it.
    pub open spec fn can_finish_tail(self, state: TailView, tail: Tail) -> bool {
        let s = state.ending(tail.scrollback_height, tail.size.width);
        self.pending.len() > 0 || geometry::minus(
            tail.scrollback_height,
            self.tail_shown(state, tail),
        ) > s.committed_rows ==> self.opened(tail).takes_history(InsertHistoryMode::Standard)
    }

    /// The viewport with a tail ended: the rows of it that are not yet committed and do not stay
    /// in the viewport are inserted above it, the rest is drawn, and the viewport shrinks to the
    /// pinned rows.
    pub open spec fn tail_finished(self, state: TailView, source: Grid, tail: Tail) -> InlineView {
        let s = state.ending(tail.scrollback_height, tail.size.width);
        let visible = self.tail_shown(state, tail);
        let target = geometry::minus(tail.scrollback_height, visible);
        let t = self.opened(tail).with_history(
            self.pending,
            InsertHistoryMode::Standard,
        ).with_rows(source, s.committed_rows, geometry::minus(target, s.committed_rows));
        InlineView {
            terminal: t.with_tail_left(
                source,
                geometry::upper(s.committed_rows, target),
                visible,
                tail.scrollback_height,
                s.kept(tail.pinned_bottom_height, self.opened(tail).viewport_area.height),
            ).ended(),
            pending: Seq::empty(),
        }
    }
}

/// Lines wait to be inserted in the order in which they came, each once, and the terminal is told
/// nothing before.
pub proof fn law_lines_wait_in_order(v: InlineView, lines: Seq<LineView>, more: Seq<LineView>, i: int)
    ensures
        v.with_lines(lines).with_lines(more) == v.with_lines(lines + more),
        v.with_lines(lines).terminal == v.terminal,
        v.with_lines(lines).pending.len() == v.pending.len() + lines.len(),
        0 <= i < v.pending.len() ==> v.with_lines(lines).pending[i] == v.pending[i],
        0 <= i < lines.len() ==> v.with_lines(lines).pending[v.pending.len() + i] == lines[i],
{
    assert(v.with_lines(lines).with_lines(more).pending =~= v.with_lines(lines + more).pending);
}

/// Inserting rows keeps the viewport, but for the row it starts at, in the range of `u16`.
proof fn lemma_with_rows(t: TerminalView, source: Grid, start: u16, n: u16)
    requires
        t.viewport_area.fits(),
    ensures
        t.with_rows(source, start, n).viewport_area.fits(),
        t.with_rows(source, start, n).viewport_area.x == t.viewport_area.x,
        t.with_rows(source, start, n).viewport_area.width == t.viewport_area.width,
        t.with_rows(source, start, n).viewport_area.height == t.viewport_area.height,
{
}

/// Inserting history keeps the viewport, but for the row it starts at, in the range of `u16`, and
/// leaves room for more rows.
pub proof fn lemma_with_history(t: TerminalView, lines: Seq<LineView>)
    ensures
        ({
            let u = t.with_history(lines, InsertHistoryMode::Standard);
            &&& t.viewport_area.fits() ==> u.viewport_area.fits()
            &&& u.viewport_area.x == t.viewport_area.x
            &&& u.viewport_area.width == t.viewport_area.width
            &&& u.viewport_area.height == t.viewport_area.height
            &&& u.last_known_screen_size == t.last_known_screen_size
            &&& t.has_room() ==> u.has_room()
        }),
{
}

/// A viewport that is given another height.
pub proof fn lemma_fitted(t: TerminalView, height: u16, size: Size)
    ensures
        t.fitted(height, size).viewport_area == fit(t.viewport_area, height, size),
        t.fitted(height, size).last_known_screen_size == t.last_known_screen_size,
{
}

/// A viewport that is given so many rows, with the pending history inserted above it.
proof fn lemma_made_room(v: InlineView, screen: Screen, height: u16)
    requires
        v.drawable(screen),
    ensures
        ({
            let u = v.made_room(screen, height);
            &&& u.viewport_area.fits()
            &&& u.viewport_area.width == screen.size.width
            &&& u.last_known_screen_size == v.terminal.last_known_screen_size
            &&& height >= screen.size.height && terminal::has_room_on(
                Rect { x: 0, y: 0, width: screen.size.width, height: screen.size.height },
                v.terminal.last_known_screen_size,
            ) ==> u.has_room()
        }),
{
    let t = v.terminal.begun().settled(screen);
    assert(t.viewport_area == v.terminal.settled(screen).viewport_area);
    assert(t.last_known_screen_size == v.terminal.last_known_screen_size);
    if t.viewport_area.width == 0 {
        lemma_fitted(t, height, screen.size);
        lemma_with_history(t.fitted(height, screen.size), v.pending);
    } else {
        let m = t.with_history(v.pending, InsertHistoryMode::Standard);
        lemma_with_history(t, v.pending);
        lemma_fitted(m, height, screen.size);
    }
}

/// Tells the terminal to move the viewport to where it has gone, and to clear it there.
fn settle(terminal: &mut Terminal, screen: Screen)
    requires
        old(terminal).wf(),
    ensures
        final(terminal).wf(),
        final(terminal)@ == old(terminal)@.settled(screen),
{
    if let Some(area) = pending_viewport_area(terminal, screen) {
        terminal.set_viewport_area(area);
        terminal.clear();
    }
}

/// Where the viewport has gone, if the screen has another size and the cursor another row.
pub fn pending_viewport_area(terminal: &Terminal, screen: Screen) -> (r: Option<Rect>)
    ensures
        r == terminal@.pending_area(screen),
{
    if screen.size != terminal.screen_size() {
        if let Some(cursor) = screen.cursor {
            let last: Position = terminal.cursor_pos();
            if cursor.y != last.y {
                return Some(terminal.area().offset(cursor.y as i32 - last.y as i32));
            }
        }
    }
    None
}

/// A viewport, given another height, on a screen of a size.
fn fit_area(area: Rect, height: u16, size: Size) -> (r: Rect)
    ensures
        r == fit(area, height, size),
{
    let h: u16 = min_u16(height, size.height);
    let mut y: u16 = area.y;
    if (area.bottom() >= size.height && h <= area.height) || y > size.height {
        y = size.height.saturating_sub(h);
    }
    if y.saturating_add(h) > size.height {
        y = size.height.saturating_sub(h);
    }
    Rect { x: area.x, y, width: size.width, height: h }
}

/// How many rows of a tail the screen shows.
fn tail_height(scrollback_height: u16, pinned_bottom_height: u16, size: Size) -> (r: u16)
    ensures
        r == (Tail { scrollback_height, pinned_bottom_height, size }).height(),
{
    let pinned: u16 = min_u16(pinned_bottom_height, size.height);
    min_u16(scrollback_height, size.height.saturating_sub(pinned)).saturating_add(pinned)
}

/// Gives the viewport another height, on a screen of a size.
pub fn update_inline_viewport(terminal: &mut Terminal, height: u16, size: Size)
    requires
        old(terminal).wf(),
    ensures
        final(terminal).wf(),
        final(terminal)@ == old(terminal)@.fitted(height, size),
{
    let old_area: Rect = terminal.area();
    let mut area: Rect = old_area;
    area.height = min_u16(height, size.height);
    area.width = size.width;
    if old_area.bottom() >= size.height && area.height <= old_area.height {
        area.y = size.height.saturating_sub(area.height);
    }
    if area.y > size.height {
        area.y = size.height.saturating_sub(area.height);
    }
    if area.bottom() > size.height {
        let scroll_by: u16 = area.bottom() - size.height;
        terminal.scroll_region_up_queued(0, area.y, scroll_by);
        area.y = size.height.saturating_sub(area.height);
    }
    if area != old_area {
        let keeps_bottom_edge: bool = area.width == old_area.width && area.bottom()
            == old_area.bottom();
        let grows_downward_from_same_top: bool = area.width == old_area.width && area.y
            == old_area.y && area.height >= old_area.height;
        if keeps_bottom_edge || grows_downward_from_same_top {
            terminal.set_viewport_area_preserving_overlap(area);
        } else {
            terminal.clear();
            terminal.set_viewport_area(area);
        }
    }
}

/// Tells the terminal to insert rows of a buffer above the viewport.
pub fn insert_buffer_rows(terminal: &mut Terminal, source: &Buffer, start_row: u16, row_count: u16)
    requires
        old(terminal).wf(),
        source@.wf(),
        row_count > 0 && old(terminal)@.viewport_area.width > 0 ==> old(terminal)@.has_room(),
    ensures
        final(terminal).wf(),
        final(terminal)@ == old(terminal)@.with_rows(source@, start_row, row_count),
{
    let width: u16 = terminal.area().width;
    if row_count == 0 || width == 0 {
        return;
    }
    let cursor_position: Position = terminal.cursor_pos();
    let ghost area = Rect { x: 0, y: 0, width, height: row_count };
    let draw_rows = |buffer: &mut Buffer|
        requires
            buffer@ == Grid::spec_empty(area),
        ensures
            final(buffer)@ == Grid::spec_empty(area).copied(source@, start_row, area),
            final(buffer)@.wf(),
        {
            copy_buffer_rows_to_area(source, start_row, buffer.area, buffer);
        };
    terminal.insert_before(row_count, draw_rows);
    terminal.set_cursor_position(cursor_position);
    terminal.note_history_rows_inserted(row_count);
}

/// The cells of a buffer, each at its place.
fn place_cells(buffer: &Buffer) -> (r: Vec<Placed>)
    requires
        buffer@.wf(),
        buffer.area.fits(),
    ensures
        r@.map_values(|c: Placed| c@) == placed(buffer@),
{
    let mut cells: Vec<Placed> = Vec::new();
    let mut i: usize = 0;
    while i < buffer.content.len()
        invariant
            i <= buffer.content.len(),
            buffer@.wf(),
            buffer.area.fits(),
            cells@.len() == i,
            forall|k: int| 0 <= k < i ==> (#[trigger] cells@[k])@ == placed(buffer@)[k],
        decreases buffer.content.len() - i,
    {
        let position: Position = buffer.pos_of(i);
        cells.push(PlacedOf { x: position.x, y: position.y, cell: buffer.content[i].clone() });
        i += 1;
    }
    assert(cells@.map_values(|c: Placed| c@) =~= placed(buffer@));
    cells
}

/// Tells the terminal to draw the rows of a buffer in an area of the screen.
pub fn draw_buffer_rows_to_area(
    terminal: &mut Terminal,
    source: &Buffer,
    start_row: u16,
    target_area: Rect,
)
    requires
        old(terminal).wf(),
        source@.wf(),
        target_area.fits(),
    ensures
        final(terminal).wf(),
        final(terminal)@ == old(terminal)@.painted(source@, start_row, target_area),
{
    if target_area.is_empty() || terminal.area().width == 0 {
        return;
    }
    let mut target: Buffer = Buffer::empty(target_area);
    copy_buffer_rows_to_area(source, start_row, target_area, &mut target);
    let cells: Vec<Placed> = place_cells(&target);
    terminal.tell(OpOf::DrawCells(cells));
    terminal.note_cursor_position(
        Position {
            x: target_area.x + (target_area.width - 1),
            y: target_area.y + (target_area.height - 1),
        },
    );
}

impl InlineViewport {
    /// Whether the terminal's parts belong together.
    pub closed spec fn wf(self) -> bool {
        self.terminal.wf()
    }

    /// A terminal whose viewport is drawn inline, with no history to be inserted.
    pub fn new(terminal: Terminal) -> (r: InlineViewport)
        requires
            terminal.wf(),
        ensures
            r.wf(),
            r@ == (InlineView { terminal: terminal@, pending: Seq::empty() }),
    {
        let viewport = InlineViewport { terminal, pending_history_lines: Vec::new() };
        assert(viewport@.pending =~= Seq::empty());
        viewport
    }

    /// The terminal.
    pub fn terminal(&self) -> (r: &Terminal)
        ensures
            r@ == self@.terminal,
            r.wf() == self.wf(),
    {
        &self.terminal
    }

    /// The terminal.
    pub fn terminal_mut(&mut self) -> (r: &mut Terminal)
        ensures
            (*r)@ == old(self)@.terminal,
            (*r).wf() == old(self).wf(),
            final(self)@ == (InlineView { terminal: (*final(r))@, ..old(self)@ }),
            final(self).wf() == (*final(r)).wf(),
    {
        &mut self.terminal
    }

    /// Has lines inserted into the history when the viewport is next drawn.
    pub fn insert_history_lines(&mut self, lines: Vec<Line>)
        ensures
            final(self)@ == (InlineView {
                pending: old(self)@.pending + history::views(lines@),
                ..old(self)@
            }),
            final(self).wf() == old(self).wf(),
            final(self)@ == old(self)@.with_lines(history::views(lines@)),
    {
        let mut added: Vec<Line> = lines;
        self.pending_history_lines.append(&mut added);
        assert(self@.pending =~= old(self)@.pending + history::views(lines@));
    }

    /// Has lines inserted into the history when the viewport is next drawn.
    pub fn commit(&mut self, lines: Vec<Line>)
        ensures
            final(self)@ == (InlineView {
                pending: old(self)@.pending + history::views(lines@),
                ..old(self)@
            }),
            final(self).wf() == old(self).wf(),
            final(self)@ == old(self)@.with_lines(history::views(lines@)),
    {
        self.insert_history_lines(lines);
    }

    /// Tells the terminal to insert the pending history; says whether there was any.
    fn flush_pending_history_lines(&mut self) -> (r: bool)
        requires
            old(self).wf(),
            old(self)@.pending.len() > 0 ==> old(self)@.terminal.takes_history(
                InsertHistoryMode::Standard,
            ),
        ensures
            final(self).wf(),
            final(self)@ == (InlineView {
                terminal: old(self)@.terminal.with_history(
                    old(self)@.pending,
                    InsertHistoryMode::Standard,
                ),
                pending: Seq::empty(),
            }),
            r == (old(self)@.pending.len() > 0),
    {
        assert(self@.pending.len() == self.pending_history_lines@.len());
        if self.pending_history_lines.len() == 0 {
            assert(self@.pending =~= Seq::empty());
            return false;
        }
        let mut lines: Vec<Line> = Vec::new();
        core::mem::swap(&mut self.pending_history_lines, &mut lines);
        insert_history_lines(&mut self.terminal, lines);
        assert(self@.pending =~= Seq::empty());
        true
    }

    /// Tells the terminal to show nothing until it is told all.
    fn begin(&mut self)
        requires
            old(self).wf(),
        ensures
            final(self).wf(),
            final(self)@ == (InlineView { terminal: old(self)@.terminal.begun(), ..old(self)@ }),
    {
        self.terminal.tell(OpOf::BeginSynchronizedUpdate);
    }

    /// Tells the terminal to show all that it was told.
    fn end(&mut self)
        requires
            old(self).wf(),
        ensures
            final(self).wf(),
            final(self)@ == (InlineView { terminal: old(self)@.terminal.ended(), ..old(self)@ }),
    {
        self.terminal.tell(OpOf::EndSynchronizedUpdate);
        self.terminal.tell(OpOf::FlushWriter);
        assert(self@.terminal.output =~= old(self)@.terminal.ended().output);
    }

    /// Gives the viewport so many rows, and tells the terminal to insert the pending history.
    fn ready(&mut self, screen: Screen, height: u16)
        requires
            old(self).wf(),
            old(self)@.can_draw(screen, height),
        ensures
            final(self).wf(),
            final(self)@ == (InlineView {
                terminal: old(self)@.readied(screen, height),
                pending: Seq::empty(),
            }),
            final(self)@.terminal.viewport_area.fits(),
    {
        self.begin();
        settle(&mut self.terminal, screen);
        update_inline_viewport(&mut self.terminal, height, screen.size);
        let needs_full_repaint: bool = self.flush_pending_history_lines();
        if needs_full_repaint {
            self.terminal.invalidate_viewport();
        }
    }

    /// Has a viewport of so many rows drawn, and tells the terminal to show it below the pending
    /// history.
    pub fn draw<F: FnOnce(&mut Frame)>(&mut self, screen: Screen, height: u16, draw_fn: F)
        requires
            old(self).wf(),
            old(self)@.can_draw(screen, height),
            forall|fr: &mut Frame|
                (*fr)@ == old(self)@.readied(screen, height).frame() ==> #[trigger] draw_fn.requires(
                    (fr,),
                ),
            forall|fr: &mut Frame, u: ()| #[trigger]
                draw_fn.ensures((fr,), u) && (*fr)@ == old(self)@.readied(screen, height).frame()
                    ==> (*final(fr))@.grid.wf() && (*final(fr))@.grid.area == (*fr)@.grid.area,
        ensures
            final(self).wf(),
            final(self)@.pending.len() == 0,
            exists|fr: &mut Frame, u: ()| #[trigger]
                draw_fn.ensures((fr,), u) && (*fr)@ == old(self)@.readied(screen, height).frame()
                    && final(self)@.terminal == old(self)@.readied(screen, height).on_screen(
                    screen.size,
                ).with_current((*final(fr))@.grid).presented(
                    (*final(fr))@.cursor_position,
                ).ended(),
    {
        self.ready(screen, height);
        self.terminal.draw(screen.size, draw_fn);
        self.end();
    }

    /// Has a viewport of so many rows drawn, and tells the terminal to show it below the pending
    /// history if the drawing succeeds.
    pub fn try_draw<F, E>(&mut self, screen: Screen, height: u16, draw_fn: F) -> (r: Result<(), E>)
        where F: FnOnce(&mut Frame) -> Result<(), E>
        requires
            old(self).wf(),
            old(self)@.can_draw(screen, height),
            forall|fr: &mut Frame|
                (*fr)@ == old(self)@.readied(screen, height).frame() ==> #[trigger] draw_fn.requires(
                    (fr,),
                ),
            forall|fr: &mut Frame, cr: Result<(), E>| #[trigger]
                draw_fn.ensures((fr,), cr) && (*fr)@ == old(self)@.readied(screen, height).frame()
                    ==> (*final(fr))@.grid.wf() && (*final(fr))@.grid.area == (*fr)@.grid.area,
        ensures
            final(self).wf(),
            final(self)@.pending.len() == 0,
            exists|fr: &mut Frame, cr: Result<(), E>|
                {
                    let drawn = old(self)@.readied(screen, height).on_screen(
                        screen.size,
                    ).with_current((*final(fr))@.grid);
                    &&& #[trigger] draw_fn.ensures((fr,), cr)
                    &&& (*fr)@ == old(self)@.readied(screen, height).frame()
                    &&& r is Ok <==> cr is Ok
                    &&& r is Ok ==> final(self)@.terminal == drawn.presented(
                        (*final(fr))@.cursor_position,
                    ).ended()
                    &&& r is Err ==> r->Err_0 == cr->Err_0 && final(self)@.terminal == drawn.ended()
                },
    {
        self.ready(screen, height);
        let result: Result<(), E> = self.terminal.try_draw(screen.size, draw_fn);
        self.end();
        result
    }
}

impl ScrollbackTailState {
    /// Notes how a tail is drawn. Where the width changes, the rows that the screen does not show
    /// count as committed.
    fn arrange(&mut self, width: u16, pinned: u16, visible: u16, overflow: u16)
        ensures
            final(self)@ == (TailView {
                committed_rows: if old(self)@.width != width && old(self)@.width != 0 {
                    overflow
                } else {
                    old(self)@.committed_rows
                },
                width,
                pinned_bottom_height: pinned,
                visible_rows: visible,
            }),
    {
        if self.width != width {
            if self.width != 0 {
                self.committed_rows = overflow;
            }
            self.width = width;
        }
        self.pinned_bottom_height = pinned;
        self.visible_rows = visible;
    }

    /// Notes how wide the screen is that a tail ends on. Where the width changes, no more rows
    /// count as committed than there are.
    fn end(&mut self, scrollback_height: u16, width: u16)
        ensures
            final(self)@ == old(self)@.ending(scrollback_height, width),
    {
        if self.width != width {
            if self.width != 0 {
                self.committed_rows = min_u16(self.committed_rows, scrollback_height);
            }
            self.width = width;
        }
    }

    /// How many pinned rows, and how many scrolling ones, a tail that ends in a viewport of
    /// `height` rows leaves in it.
    fn last_rows(&self, scrollback_height: u16, pinned_bottom_height: u16, height: u16) -> (r: (
        u16,
        u16,
    ))
        ensures
            r.0 == self@.kept(pinned_bottom_height, height),
            r.1 == self@.shown(scrollback_height, geometry::minus(height, r.0)),
    {
        let pinned: u16 = min_u16(
            if pinned_bottom_height == 0 {
                self.pinned_bottom_height
            } else {
                pinned_bottom_height
            },
            height,
        );
        let visible: u16 = if self.visible_rows == 0 {
            scrollback_height.saturating_sub(self.committed_rows)
        } else {
            self.visible_rows
        };
        (pinned, min_u16(visible, height.saturating_sub(pinned)))
    }
}

impl InlineViewport {
    /// Tells the terminal to show the rows of a tail from `start` on, and its pinned rows.
    fn show_tail(
        &mut self,
        size: Size,
        full_buffer: &Buffer,
        start: u16,
        scrollback_height: u16,
        pinned: u16,
    )
        requires
            old(self).wf(),
            full_buffer@.wf(),
            old(self)@.terminal.viewport_area.fits(),
        ensures
            final(self).wf(),
            final(self)@ == (InlineView {
                terminal: old(self)@.terminal.on_screen(size).with_current(
                    old(self)@.terminal.composed(full_buffer@, start, scrollback_height, pinned),
                ).presented(None),
                ..old(self)@
            }),
    {
        let ghost t = self.terminal@;
        proof {
            self.terminal.lemma_wf();
        }
        let compose = |frame: &mut Frame|
            requires
                frame@ == t.frame(),
                t.current.wf(),
                full_buffer@.wf(),
            ensures
                final(frame)@ == (FrameView {
                    grid: t.composed(full_buffer@, start, scrollback_height, pinned),
                    ..t.frame()
                }),
                final(frame)@.grid.wf(),
            {
                let area: Rect = frame.area();
                let shown: u16 = min_u16(pinned, area.height);
                let tail_area: Rect = Rect::new(
                    area.x,
                    area.y,
                    area.width,
                    area.height.saturating_sub(shown),
                );
                let pinned_area: Rect = Rect::new(
                    area.x,
                    area.bottom().saturating_sub(shown),
                    area.width,
                    shown,
                );
                copy_buffer_rows_to_area(full_buffer, start, tail_area, frame.buffer_mut());
                copy_buffer_rows_to_area(
                    full_buffer,
                    scrollback_height,
                    pinned_area,
                    frame.buffer_mut(),
                );
            };
        self.terminal.draw(size, compose);
    }

    /// Tells the terminal to insert the pending history, and gives the viewport so many rows.
    fn make_room(&mut self, screen: Screen, height: u16)
        requires
            old(self).wf(),
            old(self)@.drawable(screen),
            old(self)@.can_make_room(screen, height),
        ensures
            final(self).wf(),
            final(self)@ == (InlineView {
                terminal: old(self)@.made_room(screen, height),
                pending: Seq::empty(),
            }),
            final(self)@.terminal.last_known_screen_size
                == old(self)@.terminal.last_known_screen_size,
            final(self)@.terminal.viewport_area.fits(),
            final(self)@.terminal.viewport_area.width == screen.size.width,
            height >= screen.size.height && terminal::has_room_on(
                Rect { x: 0, y: 0, width: screen.size.width, height: screen.size.height },
                old(self)@.terminal.last_known_screen_size,
            ) ==> final(self)@.terminal.has_room(),
    {
        proof {
            lemma_made_room(self@, screen, height);
        }
        self.begin();
        settle(&mut self.terminal, screen);
        if self.terminal.area().width == 0 {
            update_inline_viewport(&mut self.terminal, height, screen.size);
            self.flush_pending_history_lines();
        } else {
            self.flush_pending_history_lines();
            update_inline_viewport(&mut self.terminal, height, screen.size);
        }
    }

    /// Tells the terminal to draw the last rows of a tail, and shrinks the viewport to the pinned
    /// rows.
    fn leave_tail(
        &mut self,
        full_buffer: &Buffer,
        start: u16,
        visible: u16,
        scrollback_height: u16,
        pinned: u16,
    )
        requires
            old(self).wf(),
            full_buffer@.wf(),
        ensures
            final(self).wf(),
            final(self)@ == (InlineView {
                terminal: old(self)@.terminal.with_tail_left(
                    full_buffer@,
                    start,
                    visible,
                    scrollback_height,
                    pinned,
                ),
                ..old(self)@
            }),
    {
        let area: Rect = self.terminal.area();
        let tail_area: Rect = Rect::new(area.x, area.y, area.width, visible);
        let pinned_area: Rect = Rect::new(
            area.x,
            area.bottom().saturating_sub(pinned),
            area.width,
            pinned,
        );
        draw_buffer_rows_to_area(&mut self.terminal, full_buffer, start, tail_area);
        draw_buffer_rows_to_area(&mut self.terminal, full_buffer, scrollback_height, pinned_area);
        if pinned < area.height {
            self.terminal.set_viewport_area_preserving_overlap(pinned_area);
        }
    }

    /// Draws a tail that has been laid out: inserts the rows of it that are not yet committed and
    /// do not fit on the screen into the history, and shows the rest in the viewport.
    pub fn draw_tail_buffer(
        &mut self,
        screen: Screen,
        state: &mut ScrollbackTailState,
        full_buffer: &Buffer,
        scrollback_height: u16,
        pinned_bottom_height: u16,
    )
        requires
            old(self).wf(),
            full_buffer@.wf(),
            old(self)@.can_draw_tail(
                old(state)@,
                (Tail { scrollback_height, pinned_bottom_height, size: screen.size }),
                screen,
            ),
        ensures
            final(self).wf(),
            final(self)@ == old(self)@.tail_drawn(
                old(state)@,
                full_buffer@,
                (Tail { scrollback_height, pinned_bottom_height, size: screen.size }),
                screen,
            ),
            final(state)@ == old(state)@.drawn(
                (Tail { scrollback_height, pinned_bottom_height, size: screen.size }),
            ),
    {
        let ghost tail = Tail { scrollback_height, pinned_bottom_height, size: screen.size };
        let size: Size = screen.size;
        let pinned: u16 = min_u16(pinned_bottom_height, size.height);
        let visible: u16 = min_u16(scrollback_height, size.height.saturating_sub(pinned));
        let overflow: u16 = scrollback_height.saturating_sub(visible);

        self.make_room(screen, visible.saturating_add(pinned));
        state.arrange(size.width, pinned, visible, overflow);
        assert(state@ == old(state)@.arranged(tail));
        let committed: u16 = state.committed_rows;
        let rows: u16 = overflow.saturating_sub(committed);
        proof {
            lemma_with_rows(self.terminal@, full_buffer@, committed, rows);
        }
        insert_buffer_rows(&mut self.terminal, full_buffer, committed, rows);
        if overflow > committed {
            state.committed_rows = overflow;
        }
        self.terminal.invalidate_viewport();
        self.show_tail(size, full_buffer, state.committed_rows, scrollback_height, pinned);
        self.end();
    }

    /// Ends a tail that has been laid out: inserts the rows of it that are not yet committed and do
    /// not stay in the viewport into the history, draws the rest, and shrinks the viewport to the
    /// pinned rows.
    pub fn finish_tail_buffer(
        &mut self,
        screen_size: Size,
        state: &mut ScrollbackTailState,
        full_buffer: &Buffer,
        scrollback_height: u16,
        pinned_bottom_height: u16,
    )
        requires
            old(self).wf(),
            full_buffer@.wf(),
            old(self)@.can_finish_tail(
                old(state)@,
                (Tail { scrollback_height, pinned_bottom_height, size: screen_size }),
            ),
        ensures
            final(self).wf(),
            final(self)@ == old(self)@.tail_finished(
                old(state)@,
                full_buffer@,
                (Tail { scrollback_height, pinned_bottom_height, size: screen_size }),
            ),
            final(state)@ == TailView::spec_new(),
    {
        let ghost tail = Tail { scrollback_height, pinned_bottom_height, size: screen_size };
        self.begin();
        if self.terminal.area().width == 0 {
            update_inline_viewport(
                &mut self.terminal,
                tail_height(scrollback_height, pinned_bottom_height, screen_size),
                screen_size,
            );
        }
        let height: u16 = self.terminal.area().height;
        self.flush_pending_history_lines();
        state.end(scrollback_height, screen_size.width);
        let (pinned, visible): (u16, u16) = state.last_rows(
            scrollback_height,
            pinned_bottom_height,
            height,
        );
        let committed: u16 = state.committed_rows;
        let target: u16 = scrollback_height.saturating_sub(visible);
        insert_buffer_rows(
            &mut self.terminal,
            full_buffer,
            committed,
            target.saturating_sub(committed),
        );
        let start: u16 = if target > committed {
            target
        } else {
            committed
        };
        self.leave_tail(full_buffer, start, visible, scrollback_height, pinned);
        state.reset();
        self.end();
    }

    /// Has the regions of a tail drawn, and draws it as `draw_tail_buffer` does; an error where
    /// the regions are out of order.
    pub fn draw_layout_tail<F: FnOnce(&mut LayoutFrame)>(
        &mut self,
        screen: Screen,
        state: &mut ScrollbackTailState,
        regions: &[Region],
        render: F,
    ) -> (r: Result<(), LayoutError>)
        requires
            old(self).wf(),
            layout::in_order(regions@) ==> forall|f: &mut LayoutFrame|
                (*f)@ == (Layout { regions: regions@, size: screen.size }).frame()
                    ==> #[trigger] render.requires((f,)),
            forall|f: &mut LayoutFrame, u: ()| #[trigger]
                render.ensures((f,), u) && (*f)@ == (Layout {
                    regions: regions@,
                    size: screen.size,
                }).frame() ==> {
                    let measured = (Layout { regions: regions@, size: screen.size }).measured(
                        (*final(f))@.grid,
                    );
                    &&& (*final(f))@.grid.wf()
                    &&& old(self)@.can_draw_tail(
                        old(state)@,
                        Tail {
                            scrollback_height: measured.scrollback_height,
                            pinned_bottom_height: measured.pinned_bottom_height,
                            size: screen.size,
                        },
                        screen,
                    )
                },
        ensures
            final(self).wf(),
            r is Ok <==> layout::in_order(regions@),
            r is Err ==> final(self)@ == old(self)@ && final(state)@ == old(state)@,
            r is Ok ==> exists|f: &mut LayoutFrame, u: ()|
                {
                    let measured = (Layout { regions: regions@, size: screen.size }).measured(
                        (*final(f))@.grid,
                    );
                    let tail = Tail {
                        scrollback_height: measured.scrollback_height,
                        pinned_bottom_height: measured.pinned_bottom_height,
                        size: screen.size,
                    };
                    &&& #[trigger] render.ensures((f,), u)
                    &&& (*f)@ == (Layout { regions: regions@, size: screen.size }).frame()
                    &&& final(self)@ == old(self)@.tail_drawn(
                        old(state)@,
                        measured.grid,
                        tail,
                        screen,
                    )
                    &&& final(state)@ == old(state)@.drawn(tail)
                },
    {
        let measured: MeasuredLayout = match measure_layout(screen.size, regions, render) {
            Ok(measured) => measured,
            Err(error) => {
                return Err(error);
            },
        };
        self.draw_tail_buffer(
            screen,
            state,
            &measured.buffer,
            measured.scrollback_height,
            measured.pinned_bottom_height,
        );
        Ok(())
    }

    /// Has the regions of a tail drawn, and ends it as `finish_tail_buffer` does; an error where
    /// the regions are out of order.
    pub fn finish_layout_tail<F: FnOnce(&mut LayoutFrame)>(
        &mut self,
        screen_size: Size,
        state: &mut ScrollbackTailState,
        regions: &[Region],
        render: F,
    ) -> (r: Result<(), LayoutError>)
        requires
            old(self).wf(),
            layout::in_order(regions@) ==> forall|f: &mut LayoutFrame|
                (*f)@ == (Layout { regions: regions@, size: screen_size }).frame()
                    ==> #[trigger] render.requires((f,)),
            forall|f: &mut LayoutFrame, u: ()| #[trigger]
                render.ensures((f,), u) && (*f)@ == (Layout {
                    regions: regions@,
                    size: screen_size,
                }).frame() ==> {
                    let measured = (Layout { regions: regions@, size: screen_size }).measured(
                        (*final(f))@.grid,
                    );
                    &&& (*final(f))@.grid.wf()
                    &&& old(self)@.can_finish_tail(
                        old(state)@,
                        Tail {
                            scrollback_height: measured.scrollback_height,
                            pinned_bottom_height: measured.pinned_bottom_height,
                            size: screen_size,
                        },
                    )
                },
        ensures
            final(self).wf(),
            r is Ok <==> layout::in_order(regions@),
            r is Err ==> final(self)@ == old(self)@ && final(state)@ == old(state)@,
            r is Ok ==> exists|f: &mut LayoutFrame, u: ()|
                {
                    let measured = (Layout { regions: regions@, size: screen_size }).measured(
                        (*final(f))@.grid,
                    );
                    let tail = Tail {
                        scrollback_height: measured.scrollback_height,
                        pinned_bottom_height: measured.pinned_bottom_height,
                        size: screen_size,
                    };
                    &&& #[trigger] render.ensures((f,), u)
                    &&& (*f)@ == (Layout { regions: regions@, size: screen_size }).frame()
                    &&& final(self)@ == old(self)@.tail_finished(old(state)@, measured.grid, tail)
                    &&& final(state)@ == TailView::spec_new()
                },
    {
        let measured: MeasuredLayout = match measure_layout(screen_size, regions, render) {
            Ok(measured) => measured,
            Err(error) => {
                return Err(error);
            },
        };
        self.finish_tail_buffer(
            screen_size,
            state,
            &measured.buffer,
            measured.scrollback_height,
            measured.pinned_bottom_height,
        );
        Ok(())
    }
}

impl InlineViewport {
    /// The viewport, where it has gone.
    fn settled_area(&self, screen: Screen) -> (r: Rect)
        ensures
            r == self@.terminal.settled(screen).viewport_area,
    {
        match pending_viewport_area(&self.terminal, screen) {
            Some(area) => area,
            None => self.terminal.area(),
        }
    }

    /// Whether the viewport can be drawn on the screen.
    fn is_drawable(&self, screen: Screen) -> (r: bool)
        ensures
            r == self@.drawable(screen),
    {
        self.settled_area(screen).x as u32 + screen.size.width as u32 <= u16::MAX as u32 + 1
            && screen.size.height < u16::MAX
    }

    /// Whether the viewport can be drawn with so many rows.
    pub fn can_draw(&self, screen: Screen, height: u16) -> (r: bool)
        ensures
            r == self@.can_draw(screen, height),
    {
        assert(self@.pending.len() == self.pending_history_lines@.len());
        let area: Rect = fit_area(self.settled_area(screen), height, screen.size);
        self.is_drawable(screen) && (self.pending_history_lines.len() == 0 || screen.size.width == 0
            || can_insert_above(area, self.terminal.screen_size()))
    }

    /// Whether a tail can be drawn.
    pub fn can_draw_tail(
        &self,
        screen: Screen,
        state: &ScrollbackTailState,
        scrollback_height: u16,
        pinned_bottom_height: u16,
    ) -> (r: bool)
        ensures
            r == self@.can_draw_tail(
                state@,
                (Tail { scrollback_height, pinned_bottom_height, size: screen.size }),
                screen,
            ),
    {
        assert(self@.pending.len() == self.pending_history_lines@.len());
        let size: Size = screen.size;
        let pinned: u16 = min_u16(pinned_bottom_height, size.height);
        let visible: u16 = min_u16(scrollback_height, size.height.saturating_sub(pinned));
        let overflow: u16 = scrollback_height.saturating_sub(visible);
        let widened: bool = state.width != size.width && state.width != 0;
        let area: Rect = self.settled_area(screen);
        let history_fits: bool = self.pending_history_lines.len() == 0 || if area.width == 0 {
            size.width == 0 || can_insert_above(
                fit_area(area, visible.saturating_add(pinned), size),
                self.terminal.screen_size(),
            )
        } else {
            can_insert_above(area, self.terminal.screen_size())
        };
        let full: Rect = Rect { x: 0, y: 0, width: size.width, height: size.height };
        let rows_fit: bool = widened || overflow <= state.committed_rows || size.width == 0
            || can_insert_above(full, self.terminal.screen_size());
        self.is_drawable(screen) && history_fits && rows_fit
    }

    /// Whether a tail can end.
    pub fn can_finish_tail(
        &self,
        screen_size: Size,
        state: &ScrollbackTailState,
        scrollback_height: u16,
        pinned_bottom_height: u16,
    ) -> (r: bool)
        ensures
            r == self@.can_finish_tail(
                state@,
                (Tail { scrollback_height, pinned_bottom_height, size: screen_size }),
            ),
    {
        assert(self@.pending.len() == self.pending_history_lines@.len());
        let mut ending: ScrollbackTailState = *state;
        ending.end(scrollback_height, screen_size.width);
        let area: Rect = if self.terminal.area().width == 0 {
            fit_area(
                self.terminal.area(),
                tail_height(scrollback_height, pinned_bottom_height, screen_size),
                screen_size,
            )
        } else {
            self.terminal.area()
        };
        let (_, visible): (u16, u16) = ending.last_rows(
            scrollback_height,
            pinned_bottom_height,
            area.height,
        );
        let inserts: bool = self.pending_history_lines.len() > 0
            || scrollback_height.saturating_sub(visible) > ending.committed_rows;
        !inserts || area.width == 0 || can_insert_above(area, self.terminal.screen_size())
    }
}

} // verus!
