//! The terminal: what it is known to show, and what it is told to show next.

use vstd::prelude::*;

use crate::buffer;
use crate::buffer::mark_buffer_invalid;
use crate::buffer::remap_buffer_to_area;
use crate::buffer::Buffer;
use crate::buffer::Cell;
use crate::buffer::CellView;
use crate::buffer::Grid;
use crate::command;
use crate::command::Op;
use crate::command::OpOf;
use crate::command::OpView;
use crate::command::Placed;
use crate::command::PlacedOf;
use crate::command::PlacedView;
use crate::command::ScrollDownInRegion;
use crate::command::ScrollUpInRegion;
use crate::diff;
use crate::diff::diff_buffers;
use crate::diff::DrawCommand;
use crate::diff::DrawCommandOf;
use crate::diff::DrawCommandView;
use crate::draw;
use crate::geometry;
use crate::geometry::min_u16;
use crate::geometry::Position;
use crate::geometry::Rect;
use crate::geometry::Size;

verus! {

/// What a caller draws into.
#[derive(Debug, Hash)]
pub struct Frame {
    cursor_position: Option<Position>,
    viewport_area: Rect,
    buffer: Buffer,
}

/// What a frame holds.
#[verifier::ext_equal]
pub struct FrameView {
    pub cursor_position: Option<Position>,
    pub area: Rect,
    pub grid: Grid,
}

impl View for Frame {
    type V = FrameView;

    closed spec fn view(&self) -> FrameView {
        FrameView {
            cursor_position: self.cursor_position,
            area: self.viewport_area,
            grid: self.buffer@,
        }
    }
}

impl Frame {
    /// The part of the screen that the frame stands for.
    pub fn area(&self) -> (r: Rect)
        ensures
            r == self@.area,
    {
        self.viewport_area
    }

    /// Shows the cursor at a place once the frame is drawn.
    pub fn set_cursor_position(&mut self, position: Position)
        ensures
            final(self)@ == (FrameView { cursor_position: Some(position), ..old(self)@ }),
    {
        self.cursor_position = Some(position);
    }

    /// The cells to draw into.
    pub fn buffer_mut(&mut self) -> (r: &mut Buffer)
        ensures
            (*r)@ == old(self)@.grid,
            final(self)@ == (FrameView { grid: (*final(r))@, ..old(self)@ }),
    {
        &mut self.buffer
    }
}

/// A terminal whose lower part, the viewport, is drawn by the caller.
#[derive(Debug, PartialEq, Eq, Hash)]
pub struct Terminal {
    buffers: [Buffer; 2],
    current: usize,
    pub hidden_cursor: bool,
    pub viewport_area: Rect,
    pub last_known_screen_size: Size,
    pub last_known_cursor_pos: Position,
    visible_history_rows: u16,
    output: Vec<Op>,
}

/// What a terminal is known to show, and what it is told.
#[verifier::ext_equal]
pub struct TerminalView {
    /// The viewport that is being drawn.
    pub current: Grid,
    /// The viewport that the screen shows.
    pub previous: Grid,
    pub hidden_cursor: bool,
    pub viewport_area: Rect,
    pub last_known_screen_size: Size,
    pub last_known_cursor_pos: Position,
    /// How many of the rows above the viewport hold inserted history.
    pub visible_history_rows: u16,
    /// What the terminal is told.
    pub output: Seq<OpView>,
}

impl View for Terminal {
    type V = TerminalView;

    closed spec fn view(&self) -> TerminalView {
        TerminalView {
            current: self.buffers@[self.current as int]@,
            previous: self.buffers@[1 - self.current]@,
            hidden_cursor: self.hidden_cursor,
            viewport_area: self.viewport_area,
            last_known_screen_size: self.last_known_screen_size,
            last_known_cursor_pos: self.last_known_cursor_pos,
            visible_history_rows: self.visible_history_rows,
            output: command::views(self.output@),
        }
    }
}

impl Default for Terminal {
    /// A terminal on a screen without cells.
    fn default() -> (r: Terminal)
        ensures
            r.wf(),
            r@ == (TerminalView {
                current: Grid::spec_empty(Rect { x: 0, y: 0, width: 0, height: 0 }),
                previous: Grid::spec_empty(Rect { x: 0, y: 0, width: 0, height: 0 }),
                hidden_cursor: false,
                viewport_area: Rect { x: 0, y: 0, width: 0, height: 0 },
                last_known_screen_size: Size { width: 0, height: 0 },
                last_known_cursor_pos: Position { x: 0, y: 0 },
                visible_history_rows: 0,
                output: Seq::empty(),
            }),
    {
        Terminal::with_options(Size { width: 0, height: 0 }, None)
    }
}

impl Clone for Terminal {
    fn clone(&self) -> (r: Terminal)
        ensures
            self.wf() ==> r.wf() && r@ == self@,
    {
        Terminal {
            buffers: [self.buffers[0].clone(), self.buffers[1].clone()],
            current: self.current,
            hidden_cursor: self.hidden_cursor,
            viewport_area: self.viewport_area,
            last_known_screen_size: self.last_known_screen_size,
            last_known_cursor_pos: self.last_known_cursor_pos,
            visible_history_rows: self.visible_history_rows,
            output: command::clone_ops(&self.output),
        }
    }
}

/// The cells `from` on of `cells`, placed as `n` rows of `w` cells that start at the row `y`.
pub open spec fn rows_at(cells: Seq<CellView>, w: int, from: int, n: int, y: int) -> Seq<PlacedView> {
    Seq::new(
        (n * w) as nat,
        |i: int|
            PlacedOf { x: (i % w) as u16, y: (y + i / w) as u16, cell: cells[from * w + i] },
    )
}

/// The drawing of `n` rows of `cells`, from the row `from` of it on, at the row `y` of the screen.
pub open spec fn draw_rows(cells: Seq<CellView>, w: int, from: int, n: int, y: int) -> Seq<OpView> {
    if n > 0 {
        seq![OpOf::DrawCells(rows_at(cells, w, from, n, y))]
    } else {
        Seq::empty()
    }
}

/// Scrolling the rows from `start` to before `end` up by `n`.
pub open spec fn scroll_up(start: int, end: int, n: int) -> Seq<OpView> {
    if n > 0 && start < end {
        seq![
            OpOf::ScrollUp(
                ScrollUpInRegion {
                    first_row: start as u16,
                    last_row: (end - 1) as u16,
                    lines_to_scroll: n as u16,
                },
            ),
        ]
    } else {
        Seq::empty()
    }
}

/// Scrolling the rows from `start` to before `end` down by `n`.
pub open spec fn scroll_down(start: int, end: int, n: int) -> Seq<OpView> {
    if n > 0 && start < end {
        seq![
            OpOf::ScrollDown(
                ScrollDownInRegion {
                    first_row: start as u16,
                    last_row: (end - 1) as u16,
                    lines_to_scroll: n as u16,
                },
            ),
        ]
    } else {
        Seq::empty()
    }
}

/// The first `n` rows of `cells`, each drawn over the top row of the screen and scrolled out of
/// it.
pub open spec fn scrolled_out(cells: Seq<CellView>, w: int, n: int) -> Seq<OpView>
    decreases n,
{
    if n <= 0 {
        Seq::empty()
    } else {
        scrolled_out(cells, w, n - 1) + (draw_rows(cells, w, n - 1, 1, 0) + scroll_up(0, 1, 1))
    }
}

/// The rows of `cells` from `from` on, `n` of them, each as many as there is room for brought in
/// above the row `top` by scrolling what stands there.
pub open spec fn scrolled_in(cells: Seq<CellView>, w: int, from: int, n: int, top: int) -> Seq<OpView>
    decreases n,
{
    if n <= 0 || top <= 0 {
        Seq::empty()
    } else {
        let d = geometry::least(n, top);
        (scroll_up(0, top, d) + draw_rows(cells, w, from, d, top - d)) + scrolled_in(
            cells,
            w,
            from + d,
            n - d,
            top,
        )
    }
}

/// The place that the last shown cell of several changes stands at.
pub open spec fn last_put(commands: Seq<DrawCommandView>) -> Option<Position>
    decreases commands.len(),
{
    if commands.len() == 0 {
        None
    } else if commands.last() is Put {
        Some(draw::place(commands.last()))
    } else {
        last_put(commands.drop_last())
    }
}

/// Whether rows can be inserted above a viewport: it fills the screen, or there is room above or
/// below it.
pub open spec fn has_room_on(area: Rect, screen: Size) -> bool {
    if area.height == screen.height {
        area.height > 0
    } else {
        area.y > 0 || area.spec_bottom() < screen.height
    }
}

impl TerminalView {
    /// A terminal on a screen of a size that was told nothing, with the cursor where it was found.
    /// The viewport is empty and starts in the row of the cursor.
    pub open spec fn spec_start(screen_size: Size, cursor: Option<Position>) -> TerminalView {
        let p = match cursor {
            Some(p) => p,
            None => Position { x: 0, y: 0 },
        };
        let nothing = Grid::spec_empty(Rect { x: 0, y: 0, width: 0, height: 0 });
        TerminalView {
            current: nothing,
            previous: nothing,
            hidden_cursor: false,
            viewport_area: Rect { x: 0, y: p.y, width: 0, height: 0 },
            last_known_screen_size: screen_size,
            last_known_cursor_pos: p,
            visible_history_rows: 0,
            output: Seq::empty(),
        }
    }

    /// Whether both grids have one cell for each place of the viewport, which at the start has
    /// none, wherever it stands.
    pub open spec fn wf(self) -> bool {
        &&& self.current.wf()
        &&& self.previous.wf()
        &&& self.current.area == self.previous.area
        &&& self.fits_viewport(self.current.area)
    }

    /// Whether an area is that of the viewport, or holds nothing as the viewport does at the start.
    pub open spec fn fits_viewport(self, area: Rect) -> bool {
        area == self.viewport_area || (self.viewport_area.width == 0 && self.viewport_area.height
            == 0 && area == Rect { x: 0, y: 0, width: 0, height: 0 })
    }

    /// The terminal told something.
    pub open spec fn told(self, ops: Seq<OpView>) -> TerminalView {
        TerminalView { output: self.output + ops, ..self }
    }

    /// The terminal with its cursor hidden.
    pub open spec fn hidden(self) -> TerminalView {
        TerminalView { hidden_cursor: true, ..self.told(seq![OpOf::Hide]) }
    }

    /// The terminal with its cursor shown.
    pub open spec fn shown(self) -> TerminalView {
        TerminalView { hidden_cursor: false, ..self.told(seq![OpOf::Show]) }
    }

    /// The terminal with its cursor moved.
    pub open spec fn moved(self, position: Position) -> TerminalView {
        TerminalView {
            last_known_cursor_pos: position,
            ..self.told(seq![OpOf::MoveTo { x: position.x, y: position.y }])
        }
    }

    /// The terminal with the screen cleared from the viewport on, where there is a viewport.
    pub open spec fn cleared(self) -> TerminalView {
        if self.viewport_area.spec_is_empty() {
            self
        } else {
            TerminalView {
                previous: self.previous.cleared(),
                ..self.moved(self.viewport_area.spec_as_position()).told(
                    seq![OpOf::ClearFromCursorDown],
                )
            }
        }
    }

    /// The terminal with another viewport, whose cells keep their order.
    pub open spec fn resized(self, area: Rect) -> TerminalView {
        TerminalView {
            current: self.current.resized(area),
            previous: self.previous.resized(area),
            viewport_area: area,
            visible_history_rows: geometry::lower(self.visible_history_rows, area.y),
            ..self
        }
    }

    /// The terminal with another viewport, whose cells keep their places.
    pub open spec fn remapped(self, area: Rect) -> TerminalView {
        TerminalView {
            current: self.current.remapped(area),
            previous: self.previous.remapped(area),
            viewport_area: area,
            visible_history_rows: geometry::lower(self.visible_history_rows, area.y),
            ..self
        }
    }

    /// The terminal whose screen may show anything in the viewport.
    pub open spec fn invalidated(self) -> TerminalView {
        TerminalView { previous: self.previous.invalid(), ..self }
    }

    /// The terminal after so many rows of history have been inserted above the viewport.
    pub open spec fn noted(self, rows: u16) -> TerminalView {
        TerminalView {
            visible_history_rows: geometry::lower(
                geometry::plus(self.visible_history_rows, rows),
                self.viewport_area.y,
            ),
            ..self
        }
    }

    /// The terminal whose screen shows what was drawn, and that is drawn anew.
    pub open spec fn swapped(self) -> TerminalView {
        TerminalView { current: self.previous.cleared(), previous: self.current, ..self }
    }

    /// The terminal of a screen of another size.
    pub open spec fn on_screen(self, size: Size) -> TerminalView {
        TerminalView { last_known_screen_size: size, ..self }
    }

    /// The terminal with other cells drawn.
    pub open spec fn with_current(self, grid: Grid) -> TerminalView {
        TerminalView { current: grid, ..self }
    }

    /// What a caller is given to draw into.
    pub open spec fn frame(self) -> FrameView {
        FrameView { cursor_position: None, area: self.viewport_area, grid: self.current }
    }

    /// What has to change on the screen.
    pub open spec fn updates(self) -> Seq<DrawCommandView> {
        diff::changes(self.previous, self.current.cells)
    }

    /// The terminal told to show what was drawn.
    pub open spec fn flushed(self) -> TerminalView {
        if self.updates().len() == 0 {
            self
        } else {
            TerminalView {
                last_known_cursor_pos: match last_put(self.updates()) {
                    Some(p) => p,
                    None => self.last_known_cursor_pos,
                },
                ..self.told(draw::drawing(self.updates()))
            }
        }
    }

    /// The terminal with its cursor hidden, or shown at a place, as far as it is not so already.
    pub open spec fn pointed(self, cursor: Option<Position>) -> TerminalView {
        match cursor {
            None => if self.hidden_cursor {
                self
            } else {
                self.hidden()
            },
            Some(p) => {
                let t = if self.hidden_cursor {
                    self.shown()
                } else {
                    self
                };
                if p != t.last_known_cursor_pos {
                    t.moved(p)
                } else {
                    t
                }
            },
        }
    }

    /// The terminal told to show what was drawn, with the cursor as asked, and to hand it over if
    /// that told it anything.
    pub open spec fn presented(self, cursor: Option<Position>) -> TerminalView {
        let t = self.flushed().pointed(cursor).swapped();
        if t.output.len() > self.output.len() {
            t.told(seq![OpOf::Flush])
        } else {
            t
        }
    }

    /// By how many rows the viewport moves down when `height` rows are inserted above it.
    pub open spec fn shift(self, height: int) -> int {
        if self.viewport_area.spec_bottom() < self.last_known_screen_size.height {
            geometry::least(
                height,
                self.last_known_screen_size.height - self.viewport_area.spec_bottom(),
            )
        } else {
            0
        }
    }

    /// The viewport, moved down by so many rows.
    pub open spec fn lowered(self, rows: int) -> Rect {
        Rect { y: (self.viewport_area.y + rows) as u16, ..self.viewport_area }
    }

    /// Whether rows can be inserted above the viewport.
    pub open spec fn has_room(self) -> bool {
        has_room_on(self.viewport_area, self.last_known_screen_size)
    }

    /// The terminal told to insert rows of cells above the viewport.
    ///
    /// A viewport that fills the screen stays where it is, and its top row, over which the rows
    /// were drawn, is drawn again. Any other viewport moves down while there is room below it;
    /// further rows scroll what stands above it.
    pub open spec fn inserted(self, height: u16, cells: Seq<CellView>) -> TerminalView {
        let w = self.viewport_area.width as int;
        let top = self.viewport_area.y as int;
        if height == 0 || w == 0 {
            self
        } else if self.viewport_area.height == self.last_known_screen_size.height {
            self.told(
                scrolled_out(cells, w, height as int) + draw_rows(self.previous.cells, w, 0, 1, 0),
            )
        } else {
            let d = self.shift(height as int);
            let t = if d > 0 {
                self.told(
                    scroll_down(top, self.viewport_area.spec_bottom() + d, d) + draw_rows(
                        cells,
                        w,
                        0,
                        d,
                        top,
                    ),
                ).resized(self.lowered(d))
            } else {
                self
            };
            t.told(scrolled_in(cells, w, d, height - d, top + d))
        }
    }

    /// The terminal told to scroll the whole screen up.
    pub open spec fn rolled(self, rows: int) -> TerminalView {
        if rows > 0 {
            self.moved(
                Position { x: 0, y: geometry::minus(self.last_known_screen_size.height, 1) },
            ).told(seq![OpOf::AppendLines(rows as u16)])
        } else {
            self
        }
    }

    /// The terminal told to draw the rows of `cells` from `from` on, `left` of them, from the row
    /// `drawn` of the screen on, and to clear the viewport behind them.
    ///
    /// While the rows and the viewport do not fit on the screen together, as many rows as fit are
    /// drawn. The whole screen scrolls by as much as it takes for the rows to end on it, and in
    /// the end for the viewport to do so too.
    pub open spec fn pasted(
        self,
        cells: Seq<CellView>,
        from: int,
        left: int,
        drawn: int,
    ) -> TerminalView
        decreases left,
    {
        let screen = self.last_known_screen_size.height as int;
        let viewport = self.viewport_area.height as int;
        let w = self.viewport_area.width as int;
        let d = geometry::least(left, screen);
        if left + viewport > screen && d > 0 {
            let up = geometry::greatest(0, drawn + d - screen);
            self.rolled(up).told(draw_rows(cells, w, from, d, drawn - up)).pasted(
                cells,
                from + d,
                left - d,
                drawn + d - up,
            )
        } else {
            let up = geometry::greatest(0, drawn + left + viewport - screen);
            self.rolled(up).told(draw_rows(cells, w, from, left, drawn - up)).resized(
                Rect { y: (drawn + left - up) as u16, ..self.viewport_area },
            ).cleared()
        }
    }

    /// The terminal told to leave the viewport: the cursor goes to the row below it, which a line
    /// feed makes where there is none.
    pub open spec fn left(self, size: Size) -> TerminalView {
        let bottom = self.viewport_area.spec_bottom();
        if self.viewport_area.spec_is_empty() || size.height == 0 {
            self
        } else if bottom < size.height {
            self.moved(Position { x: 0, y: bottom }).told(seq![OpOf::FlushWriter])
        } else {
            let last = Position { x: 0, y: (size.height - 1) as u16 };
            self.moved(last).told(
                seq![OpOf::Print(buffer::glyph('\n')), OpOf::FlushWriter],
            )
        }
    }
}

/// A terminal starts with a viewport that has no cells, in the row of the cursor, which is shown and
/// taken to stand where it was found, on the screen as it was found, with nothing told.
pub proof fn law_terminal_starts_at_the_cursor(screen_size: Size, cursor: Option<Position>)
    ensures
        ({
            let t = TerminalView::spec_start(screen_size, cursor);
            &&& t.wf()
            &&& t.output.len() == 0
            &&& t.viewport_area.spec_is_empty()
            &&& t.viewport_area.x == 0
            &&& t.last_known_screen_size == screen_size
            &&& cursor matches Some(p) ==> t.last_known_cursor_pos == p && t.viewport_area.y == p.y
            &&& cursor is None ==> t.viewport_area.y == 0 && t.last_known_cursor_pos == (Position {
                x: 0,
                y: 0,
            })
            &&& !t.hidden_cursor
            &&& t.visible_history_rows == 0
        }),
{
}

/// Whether rows can be inserted above a viewport on a screen.
pub fn can_insert_above(area: Rect, screen: Size) -> (r: bool)
    ensures
        r == has_room_on(area, screen),
{
    if area.height == screen.height {
        area.height > 0
    } else {
        area.y > 0 || area.bottom() < screen.height
    }
}

impl Terminal {
    /// Whether the terminal's parts belong together.
    pub closed spec fn wf(self) -> bool {
        self.sound() && self@.wf()
    }

    /// Whether one of the two buffers is the current one.
    pub closed spec fn sound(self) -> bool {
        self.current < 2
    }

    /// The parts of a terminal that belong together have one cell for each place of the viewport.
    pub proof fn lemma_wf(self)
        requires
            self.wf(),
        ensures
            self@.wf(),
    {
    }

    /// A terminal on a screen of `screen_size`, of which the cursor was found at `cursor`, or was
    /// not found. The viewport is empty and starts at the cursor.
    pub fn with_options(screen_size: Size, cursor: Option<Position>) -> (r: Terminal)
        ensures
            r.wf(),
            r@ == ({
                let p = if cursor is Some {
                    cursor->0
                } else {
                    Position { x: 0, y: 0 }
                };
                TerminalView {
                    current: Grid::spec_empty(Rect { x: 0, y: 0, width: 0, height: 0 }),
                    previous: Grid::spec_empty(Rect { x: 0, y: 0, width: 0, height: 0 }),
                    hidden_cursor: false,
                    viewport_area: Rect { x: 0, y: p.y, width: 0, height: 0 },
                    last_known_screen_size: screen_size,
                    last_known_cursor_pos: p,
                    visible_history_rows: 0,
                    output: Seq::empty(),
                }
            }),
            r@ == TerminalView::spec_start(screen_size, cursor),
    {
        let cursor_pos: Position = match cursor {
            Some(position) => position,
            None => Position { x: 0, y: 0 },
        };
        let zero: Rect = Rect { x: 0, y: 0, width: 0, height: 0 };
        let terminal = Terminal {
            buffers: [Buffer::empty(zero), Buffer::empty(zero)],
            current: 0,
            hidden_cursor: false,
            viewport_area: Rect { x: 0, y: cursor_pos.y, width: 0, height: 0 },
            last_known_screen_size: screen_size,
            last_known_cursor_pos: cursor_pos,
            visible_history_rows: 0,
            output: Vec::new(),
        };
        assert(terminal@.output =~= Seq::empty());
        terminal
    }

    /// The part of the screen that is drawn.
    pub fn area(&self) -> (r: Rect)
        ensures
            r == self@.viewport_area,
    {
        self.viewport_area
    }

    /// The size of the screen when it was last asked for.
    pub fn screen_size(&self) -> (r: Size)
        ensures
            r == self@.last_known_screen_size,
    {
        self.last_known_screen_size
    }

    /// Where the cursor was last put.
    pub fn cursor_pos(&self) -> (r: Position)
        ensures
            r == self@.last_known_cursor_pos,
    {
        self.last_known_cursor_pos
    }

    /// How many of the rows above the viewport hold inserted history.
    pub fn visible_history_rows(&self) -> (r: u16)
        ensures
            r == self@.visible_history_rows,
    {
        self.visible_history_rows
    }

    /// Takes what the terminal is told, to be carried out in order.
    pub fn take_output(&mut self) -> (r: Vec<Op>)
        requires
            old(self).wf(),
        ensures
            command::views(r@) == old(self)@.output,
            final(self)@ == (TerminalView { output: Seq::empty(), ..old(self)@ }),
            final(self).wf(),
    {
        let mut taken: Vec<Op> = Vec::new();
        core::mem::swap(&mut self.output, &mut taken);
        assert(self@.output =~= Seq::empty());
        taken
    }

    /// Tells the terminal something.
    pub(crate) fn tell(&mut self, op: Op)
        requires
            old(self).wf(),
        ensures
            final(self)@ == old(self)@.told(seq![op@]),
            final(self).wf(),
    {
        command::push(&mut self.output, op);
        assert(self@.output =~= old(self)@.output + seq![op@]);
    }

    /// Hides the cursor.
    pub fn hide_cursor(&mut self)
        requires
            old(self).wf(),
        ensures
            final(self)@ == old(self)@.hidden(),
            final(self).wf(),
    {
        self.tell(OpOf::Hide);
        self.hidden_cursor = true;
    }

    /// Shows the cursor.
    pub fn show_cursor(&mut self)
        requires
            old(self).wf(),
        ensures
            final(self)@ == old(self)@.shown(),
            final(self).wf(),
    {
        self.tell(OpOf::Show);
        self.hidden_cursor = false;
    }

    /// Moves the cursor.
    pub fn set_cursor_position(&mut self, position: Position)
        requires
            old(self).wf(),
        ensures
            final(self)@ == old(self)@.moved(position),
            final(self).wf(),
    {
        self.tell(OpOf::MoveTo { x: position.x, y: position.y });
        self.last_known_cursor_pos = position;
    }

    /// Notes where the cursor stands.
    pub(crate) fn note_cursor_position(&mut self, position: Position)
        requires
            old(self).wf(),
        ensures
            final(self)@ == (TerminalView { last_known_cursor_pos: position, ..old(self)@ }),
            final(self).wf(),
    {
        self.last_known_cursor_pos = position;
    }

    /// Clears the screen from the viewport on, where there is a viewport.
    pub fn clear(&mut self)
        requires
            old(self).wf(),
        ensures
            final(self)@ == old(self)@.cleared(),
            final(self).wf(),
    {
        if self.viewport_area.is_empty() {
            return;
        }
        self.set_cursor_position(self.viewport_area.as_position());
        self.tell(OpOf::ClearFromCursorDown);
        self.buffers[1 - self.current].reset();
    }

    /// Notes that the screen may show anything in the viewport.
    pub fn invalidate_viewport(&mut self)
        requires
            old(self).wf(),
        ensures
            final(self)@ == old(self)@.invalidated(),
            final(self).wf(),
    {
        mark_buffer_invalid(&mut self.buffers[1 - self.current]);
    }

    /// Notes that the screen shows what was drawn, and starts to draw anew.
    pub fn swap_buffers(&mut self)
        requires
            old(self).wf(),
        ensures
            final(self)@ == old(self)@.swapped(),
            final(self).wf(),
    {
        self.buffers[1 - self.current].reset();
        self.current = 1 - self.current;
    }

    /// Notes the size of the screen.
    pub fn resize(&mut self, screen_size: Size)
        requires
            old(self).wf(),
        ensures
            final(self)@ == old(self)@.on_screen(screen_size),
            final(self).wf(),
    {
        self.last_known_screen_size = screen_size;
    }

    /// Notes the size of the screen, if it is another one.
    pub fn autoresize(&mut self, screen_size: Size)
        requires
            old(self).wf(),
        ensures
            final(self)@ == old(self)@.on_screen(screen_size),
            final(self).wf(),
    {
        if screen_size != self.last_known_screen_size {
            self.resize(screen_size);
        }
    }

    /// Draws another part of the screen; the cells keep their order.
    pub fn set_viewport_area(&mut self, area: Rect)
        requires
            old(self).wf(),
        ensures
            final(self)@ == old(self)@.resized(area),
            final(self).wf(),
    {
        self.buffers[self.current].resize(area);
        self.buffers[1 - self.current].resize(area);
        self.viewport_area = area;
        self.visible_history_rows = min_u16(self.visible_history_rows, area.y);
    }

    /// Draws another part of the screen; the cells keep their places.
    pub fn set_viewport_area_preserving_overlap(&mut self, area: Rect)
        requires
            old(self).wf(),
        ensures
            final(self)@ == old(self)@.remapped(area),
            final(self).wf(),
    {
        remap_buffer_to_area(&mut self.buffers[self.current], area);
        remap_buffer_to_area(&mut self.buffers[1 - self.current], area);
        self.viewport_area = area;
        self.visible_history_rows = min_u16(self.visible_history_rows, area.y);
    }

    /// Notes that rows of history have been inserted above the viewport.
    pub fn note_history_rows_inserted(&mut self, inserted_rows: u16)
        requires
            old(self).wf(),
        ensures
            final(self)@ == old(self)@.noted(inserted_rows),
            final(self).wf(),
    {
        self.visible_history_rows = min_u16(
            self.visible_history_rows.saturating_add(inserted_rows),
            self.viewport_area.y,
        );
    }

    /// Tells the terminal to scroll the rows from `start` to before `end` up.
    pub fn scroll_region_up_queued(&mut self, start: u16, end: u16, amount: u16)
        requires
            old(self).wf(),
        ensures
            final(self)@ == old(self)@.told(scroll_up(start as int, end as int, amount as int)),
            final(self).wf(),
    {
        if amount == 0 || start >= end {
            assert(self@.output =~= old(self)@.output + Seq::empty());
            return;
        }
        self.tell(
            OpOf::ScrollUp(
                ScrollUpInRegion {
                    first_row: start,
                    last_row: end.saturating_sub(1),
                    lines_to_scroll: amount,
                },
            ),
        );
    }

    /// Tells the terminal to scroll the rows from `start` to before `end` down.
    pub fn scroll_region_down_queued(&mut self, start: u16, end: u16, amount: u16)
        requires
            old(self).wf(),
        ensures
            final(self)@ == old(self)@.told(scroll_down(start as int, end as int, amount as int)),
            final(self).wf(),
    {
        if amount == 0 || start >= end {
            assert(self@.output =~= old(self)@.output + Seq::empty());
            return;
        }
        self.tell(
            OpOf::ScrollDown(
                ScrollDownInRegion {
                    first_row: start,
                    last_row: end.saturating_sub(1),
                    lines_to_scroll: amount,
                },
            ),
        );
    }

    /// Tells the terminal to leave the viewport, on a screen of the given size.
    pub fn leave_viewport(&mut self, size: Size)
        requires
            old(self).wf(),
        ensures
            final(self)@ == old(self)@.left(size),
            final(self).wf(),
    {
        if self.viewport_area.is_empty() || size.height == 0 {
            return;
        }
        let bottom: u16 = min_u16(self.viewport_area.bottom(), size.height);
        if bottom < size.height {
            self.set_cursor_position(Position { x: 0, y: bottom });
            self.tell(OpOf::FlushWriter);
        } else {
            self.set_cursor_position(Position { x: 0, y: size.height - 1 });
            self.tell(OpOf::Print(buffer::one_char('\n')));
            self.tell(OpOf::FlushWriter);
            assert(self@.output =~= old(self)@.left(size).output);
        }
    }

    /// Tells the terminal to show what was drawn; says whether that told it anything.
    pub fn flush(&mut self) -> (r: bool)
        requires
            old(self).wf(),
            old(self)@.viewport_area.fits(),
        ensures
            final(self)@ == old(self)@.flushed(),
            final(self).wf(),
            r == (old(self)@.updates().len() > 0),
    {
        let updates: Vec<DrawCommand> = diff_buffers(
            &self.buffers[1 - self.current],
            &self.buffers[self.current],
        );
        assert(diff::views(updates@) == old(self)@.updates());
        assert(diff::views(updates@).len() == updates@.len());
        if updates.len() == 0 {
            return false;
        }
        if let Some(position) = last_put_position(&updates) {
            self.last_known_cursor_pos = position;
        }
        draw::draw(&mut self.output, &updates);
        true
    }
}

/// The place that the last shown cell of several changes stands at.
fn last_put_position(updates: &Vec<DrawCommand>) -> (r: Option<Position>)
    ensures
        r == last_put(diff::views(updates@)),
{
    let ghost all = diff::views(updates@);
    let mut n: usize = updates.len();
    assert(all.take(n as int) =~= all);
    while n > 0
        invariant
            n <= updates@.len(),
            all == diff::views(updates@),
            last_put(all) == last_put(all.take(n as int)),
        decreases n,
    {
        assert(all.take(n as int).last() == updates@[n - 1]@);
        assert(all.take(n as int).drop_last() =~= all.take(n - 1));
        if updates[n - 1].is_put() {
            match &updates[n - 1] {
                DrawCommandOf::Put { x, y, .. } => {
                    return Some(Position { x: *x, y: *y });
                },
                DrawCommandOf::ClearToEnd { .. } => {},
            }
        }
        n -= 1;
    }
    None
}

/// Several rows of cells, from the row `from` of `cells` on, placed at the row `y` of the screen.
fn place_rows(cells: &Vec<Cell>, w: usize, from: usize, n: usize, y: u16) -> (r: Vec<Placed>)
    requires
        w <= u16::MAX,
        (from + n) * w <= cells@.len(),
        y + n <= u16::MAX + 1,
    ensures
        r@.map_values(|c: Placed| c@) == rows_at(
            buffer::views(cells@),
            w as int,
            from as int,
            n as int,
            y as int,
        ),
{
    let ghost want = rows_at(buffer::views(cells@), w as int, from as int, n as int, y as int);
    assert((from + n) * w == from * w + n * w) by (nonlinear_arith);
    assert(0 <= n * w && 0 <= from * w) by (nonlinear_arith);
    assert((from + n) * w <= cells.len());
    let count: usize = n * w;
    let start: usize = from * w;
    let mut placed: Vec<Placed> = Vec::new();
    let mut i: usize = 0;
    while i < count
        invariant
            w <= u16::MAX,
            count == n * w,
            start == from * w,
            start + count <= cells.len(),
            y + n <= u16::MAX + 1,
            want == rows_at(buffer::views(cells@), w as int, from as int, n as int, y as int),
            i <= count,
            placed@.len() == i,
            forall|k: int| 0 <= k < i ==> (#[trigger] placed@[k])@ == want[k],
        decreases count - i,
    {
        assert(w > 0 && i / w < n && 0 <= i % w < w) by (nonlinear_arith)
            requires
                0 <= i < n * w,
                0 <= w,
        ;
        placed.push(
            PlacedOf {
                x: (i % w) as u16,
                y: y + (i / w) as u16,
                cell: cells[start + i].clone(),
            },
        );
        assert(buffer::views(cells@)[from * w + i] == cells@[start + i]@);
        i += 1;
    }
    assert(placed@.map_values(|c: Placed| c@) =~= want);
    placed
}

impl Terminal {
    /// Tells the terminal to draw `lines_to_draw` rows of cells, from the row `from` of `cells`
    /// on, at the row `y_offset` of the screen.
    fn draw_lines(&mut self, y_offset: u16, lines_to_draw: u16, cells: &Vec<Cell>, from: u16)
        requires
            old(self).wf(),
            (from + lines_to_draw) * old(self)@.viewport_area.width <= cells@.len(),
            y_offset + lines_to_draw <= u16::MAX + 1,
        ensures
            final(self)@ == old(self)@.told(
                draw_rows(
                    buffer::views(cells@),
                    old(self)@.viewport_area.width as int,
                    from as int,
                    lines_to_draw as int,
                    y_offset as int,
                ),
            ),
            final(self).wf(),
    {
        if lines_to_draw > 0 {
            let placed = place_rows(
                cells,
                self.viewport_area.width as usize,
                from as usize,
                lines_to_draw as usize,
                y_offset,
            );
            self.tell(OpOf::DrawCells(placed));
        } else {
            assert(self@.output =~= old(self)@.output + Seq::empty());
        }
    }

    /// Tells the terminal to insert the rows of a buffer above the viewport, by scrolling parts of
    /// the screen.
    pub fn insert_rows(&mut self, height: u16, rows: &Buffer)
        requires
            old(self).wf(),
            old(self)@.viewport_area.width > 0 && height > 0 ==> old(self)@.has_room(),
            rows.content@.len() == height * old(self)@.viewport_area.width,
        ensures
            final(self)@ == old(self)@.inserted(height, rows@.cells),
            final(self).wf(),
    {
        let w: u16 = self.viewport_area.width;
        if height == 0 || w == 0 {
            return;
        }
        if self.viewport_area.height == self.last_known_screen_size.height {
            self.insert_above_full_screen(height, rows);
        } else {
            let top: u16 = self.viewport_area.y;
            let bottom: u16 = self.viewport_area.bottom();
            let screen_bottom: u16 = self.last_known_screen_size.height;
            let mut drawn: u16 = 0;
            assert(0 <= height * w) by (nonlinear_arith);
            if bottom < screen_bottom {
                drawn = min_u16(height, screen_bottom - bottom);
                assert(drawn * w <= height * w) by (nonlinear_arith)
                    requires
                        drawn <= height,
                ;
                self.scroll_region_down_queued(top, bottom + drawn, drawn);
                self.draw_lines(top, drawn, &rows.content, 0);
                proof {
                    command::lemma_append_twice(
                        old(self)@.output,
                        scroll_down(top as int, bottom + drawn, drawn as int),
                        draw_rows(rows@.cells, w as int, 0, drawn as int, top as int),
                    );
                }
                self.set_viewport_area(
                    Rect {
                        x: self.viewport_area.x,
                        y: top + drawn,
                        width: self.viewport_area.width,
                        height: self.viewport_area.height,
                    },
                );
            }
            self.scroll_in(height - drawn, rows, drawn);
        }
    }

    /// Tells the terminal to insert rows above a viewport that fills the screen.
    fn insert_above_full_screen(&mut self, height: u16, rows: &Buffer)
        requires
            old(self).wf(),
            old(self)@.viewport_area.width > 0,
            old(self)@.viewport_area.height > 0,
            rows.content@.len() == height * old(self)@.viewport_area.width,
        ensures
            final(self)@ == old(self)@.told(
                scrolled_out(
                    rows@.cells,
                    old(self)@.viewport_area.width as int,
                    height as int,
                ) + draw_rows(
                    old(self)@.previous.cells,
                    old(self)@.viewport_area.width as int,
                    0,
                    1,
                    0,
                ),
            ),
            final(self).wf(),
    {
        let w: u16 = self.viewport_area.width;
        let mut n: u16 = 0;
        assert(self@.output =~= old(self)@.output + scrolled_out(rows@.cells, w as int, 0));
        while n < height
            invariant
                self.wf(),
                n <= height,
                w == old(self)@.viewport_area.width,
                rows.content@.len() == height * w,
                self@ == old(self)@.told(scrolled_out(rows@.cells, w as int, n as int)),
            decreases height - n,
        {
            assert((n + 1) * w <= height * w) by (nonlinear_arith)
                requires
                    n + 1 <= height,
                    0 <= w,
            ;
            let ghost before = scrolled_out(rows@.cells, w as int, n as int);
            let ghost drawn = draw_rows(rows@.cells, w as int, n as int, 1, 0);
            self.draw_lines(0, 1, &rows.content, n);
            self.scroll_region_up_queued(0, 1, 1);
            proof {
                command::lemma_append_twice(old(self)@.output + before, drawn, scroll_up(0, 1, 1));
                command::lemma_append_twice(
                    old(self)@.output,
                    before,
                    drawn + scroll_up(0, 1, 1),
                );
            }
            n += 1;
        }
        let ghost before = scrolled_out(rows@.cells, w as int, height as int);
        let ghost first = draw_rows(old(self)@.previous.cells, w as int, 0, 1, 0);
        assert(w <= self@.previous.cells.len()) by (nonlinear_arith)
            requires
                self@.previous.cells.len() == w * self@.viewport_area.height,
                self@.viewport_area.height > 0,
        ;
        let placed = place_rows(
            &self.buffers[1 - self.current].content,
            w as usize,
            0,
            1,
            0,
        );
        self.tell(OpOf::DrawCells(placed));
        proof {
            command::lemma_append_twice(old(self)@.output, before, first);
        }
    }

    /// Tells the terminal to insert `height` rows, from the row `from` of `rows` on, above the
    /// viewport by scrolling what stands there.
    fn scroll_in(&mut self, height: u16, rows: &Buffer, from: u16)
        requires
            old(self).wf(),
            height > 0 ==> old(self)@.viewport_area.y > 0,
            from + height <= u16::MAX,
            (from + height) * old(self)@.viewport_area.width == rows.content@.len(),
        ensures
            final(self)@ == old(self)@.told(
                scrolled_in(
                    rows@.cells,
                    old(self)@.viewport_area.width as int,
                    from as int,
                    height as int,
                    old(self)@.viewport_area.y as int,
                ),
            ),
            final(self).wf(),
    {
        let w: u16 = self.viewport_area.width;
        let top: u16 = self.viewport_area.y;
        let end: u16 = from + height;
        let ghost all = scrolled_in(rows@.cells, w as int, from as int, height as int, top as int);
        let ghost mut done: Seq<OpView> = Seq::empty();
        let mut next: u16 = from;
        assert(self@.output =~= old(self)@.output + done);
        assert(all =~= done + all);
        while next < end
            invariant
                self.wf(),
                from <= next <= end,
                end == from + height,
                w == old(self)@.viewport_area.width,
                top == old(self)@.viewport_area.y,
                next < end ==> top > 0,
                end * w == rows.content@.len(),
                self@ == old(self)@.told(done),
                all == done + scrolled_in(
                    rows@.cells,
                    w as int,
                    next as int,
                    end - next,
                    top as int,
                ),
            decreases end - next,
        {
            let d: u16 = min_u16(end - next, top);
            assert((next + d) * w <= end * w) by (nonlinear_arith)
                requires
                    next + d <= end,
                    0 <= w,
            ;
            self.scroll_region_up_queued(0, top, d);
            self.draw_lines(top - d, d, &rows.content, next);
            proof {
                let up = scroll_up(0, top as int, d as int);
                let drawn = draw_rows(rows@.cells, w as int, next as int, d as int, top - d);
                let rest = scrolled_in(
                    rows@.cells,
                    w as int,
                    next + d,
                    end - next - d,
                    top as int,
                );
                command::lemma_append_twice(old(self)@.output + done, up, drawn);
                command::lemma_append_twice(old(self)@.output, done, up + drawn);
                command::lemma_append_twice(done, up + drawn, rest);
                done = done + (up + drawn);
            }
            next = next + d;
        }
        assert(all =~= done);
    }
}

impl Terminal {
    /// Tells the terminal to scroll the whole screen up.
    fn roll_up(&mut self, rows: u16)
        requires
            old(self).wf(),
        ensures
            final(self)@ == old(self)@.rolled(rows as int),
            final(self).wf(),
    {
        if rows > 0 {
            self.set_cursor_position(
                Position { x: 0, y: self.last_known_screen_size.height.saturating_sub(1) },
            );
            self.tell(OpOf::AppendLines(rows));
        }
    }

    /// Tells the terminal to insert the rows of a buffer above the viewport, by scrolling the
    /// whole screen and clearing the viewport.
    pub fn paste_rows(&mut self, height: u16, rows: &Buffer)
        requires
            old(self).wf(),
            old(self)@.viewport_area.height <= old(self)@.last_known_screen_size.height,
            height > 0 ==> old(self)@.last_known_screen_size.height > 0,
            rows.content@.len() == height * old(self)@.viewport_area.width,
        ensures
            final(self)@ == old(self)@.pasted(
                rows@.cells,
                0,
                height as int,
                old(self)@.viewport_area.y as int,
            ),
            final(self).wf(),
    {
        let w: u16 = self.viewport_area.width;
        let viewport: u16 = self.viewport_area.height;
        let screen: u16 = self.last_known_screen_size.height;
        let mut drawn: u16 = self.viewport_area.y;
        let mut from: u16 = 0;
        while (height - from) as u32 + viewport as u32 > screen as u32
            invariant
                self.wf(),
                from <= height,
                w == self@.viewport_area.width,
                viewport == self@.viewport_area.height,
                screen == self@.last_known_screen_size.height,
                viewport <= screen,
                height > 0 ==> screen > 0,
                rows.content@.len() == height * w,
                old(self)@.pasted(rows@.cells, 0, height as int, old(self)@.viewport_area.y as int)
                    == self@.pasted(rows@.cells, from as int, height - from, drawn as int),
            decreases height - from,
        {
            let d: u16 = min_u16(height - from, screen);
            let reach: u32 = drawn as u32 + d as u32;
            let up: u16 = if reach > screen as u32 {
                (reach - screen as u32) as u16
            } else {
                0
            };
            assert((from + d) * w <= height * w) by (nonlinear_arith)
                requires
                    from + d <= height,
                    0 <= w,
            ;
            self.roll_up(up);
            self.draw_lines(drawn - up, d, &rows.content, from);
            from = from + d;
            drawn = (reach - up as u32) as u16;
        }
        let left: u16 = height - from;
        let reach: u32 = drawn as u32 + left as u32 + viewport as u32;
        let up: u16 = if reach > screen as u32 {
            (reach - screen as u32) as u16
        } else {
            0
        };
        self.roll_up(up);
        self.draw_lines(drawn - up, left, &rows.content, from);
        self.set_viewport_area(
            Rect {
                x: self.viewport_area.x,
                y: drawn - up + left,
                width: self.viewport_area.width,
                height: self.viewport_area.height,
            },
        );
        self.clear();
    }
}

impl Terminal {
    /// The area of the rows that are inserted above the viewport.
    pub open spec fn row_area(self, height: u16) -> Rect {
        Rect { x: 0, y: 0, width: self@.viewport_area.width, height }
    }

    /// Has `height` rows drawn, if there are any and they have columns, and tells the terminal to
    /// insert them above the viewport, by scrolling parts of the screen. The size of the buffer is
    /// not the callback's to change: it has as many cells when the callback returns as before.
    pub fn insert_before<F: FnOnce(&mut Buffer)>(&mut self, height: u16, draw_fn: F)
        requires
            old(self).wf(),
            old(self)@.viewport_area.width > 0 && height > 0 ==> old(self)@.has_room(),
            height > 0 && old(self)@.viewport_area.width > 0 ==> forall|b: &mut Buffer|
                (*b)@ == Grid::spec_empty(old(self).row_area(height)) ==> #[trigger] draw_fn.requires(
                    (b,),
                ),
            forall|b: &mut Buffer, u: ()| #[trigger]
                draw_fn.ensures((b,), u) && (*b)@ == Grid::spec_empty(old(self).row_area(height))
                    ==> (*final(b))@.cells.len() == (*b)@.cells.len(),
        ensures
            final(self).wf(),
            height == 0 || old(self)@.viewport_area.width == 0 ==> final(self)@ == old(self)@,
            height > 0 && old(self)@.viewport_area.width > 0 ==> exists|b: &mut Buffer, u: ()|
                #[trigger] draw_fn.ensures((b,), u) && (*b)@ == Grid::spec_empty(
                    old(self).row_area(height),
                ) && final(self)@ == old(self)@.inserted(height, (*final(b))@.cells),
    {
        if height == 0 || self.viewport_area.width == 0 {
            return;
        }
        let area: Rect = Rect { x: 0, y: 0, width: self.viewport_area.width, height };
        let mut rows: Buffer = Buffer::empty(area);
        draw_fn(&mut rows);
        assert(rows.content@.len() == rows@.cells.len());
        proof {
            buffer::lemma_cells(area);
        }
        self.insert_rows(height, &rows);
    }

    /// Has `height` rows drawn, and tells the terminal to insert them above the viewport, by
    /// scrolling the whole screen and clearing the viewport. The size of the buffer is not the
    /// callback's to change: it has as many cells when the callback returns as before.
    pub fn insert_before_without_scrolling_regions<F: FnOnce(&mut Buffer)>(
        &mut self,
        height: u16,
        draw_fn: F,
    )
        requires
            old(self).wf(),
            old(self)@.viewport_area.height <= old(self)@.last_known_screen_size.height,
            height > 0 ==> old(self)@.last_known_screen_size.height > 0,
            forall|b: &mut Buffer|
                (*b)@ == Grid::spec_empty(old(self).row_area(height)) ==> #[trigger] draw_fn.requires(
                    (b,),
                ),
            forall|b: &mut Buffer, u: ()| #[trigger]
                draw_fn.ensures((b,), u) && (*b)@ == Grid::spec_empty(old(self).row_area(height))
                    ==> (*final(b))@.cells.len() == (*b)@.cells.len(),
        ensures
            final(self).wf(),
            exists|b: &mut Buffer, u: ()| #[trigger]
                draw_fn.ensures((b,), u) && (*b)@ == Grid::spec_empty(old(self).row_area(height))
                    && final(self)@ == old(self)@.pasted(
                    (*final(b))@.cells,
                    0,
                    height as int,
                    old(self)@.viewport_area.y as int,
                ),
    {
        let area: Rect = Rect { x: 0, y: 0, width: self.viewport_area.width, height };
        let mut rows: Buffer = Buffer::empty(area);
        draw_fn(&mut rows);
        assert(rows.content@.len() == rows@.cells.len());
        proof {
            buffer::lemma_cells(area);
        }
        self.paste_rows(height, &rows);
    }
}

impl Terminal {
    /// Takes the cells that are drawn, for a caller to draw into.
    pub fn get_frame(&mut self) -> (r: Frame)
        requires
            old(self).wf(),
        ensures
            r@ == old(self)@.frame(),
            final(self).sound(),
            final(self)@ == old(self)@.with_current(
                Grid::spec_empty(Rect { x: 0, y: 0, width: 0, height: 0 }),
            ),
    {
        let mut taken: Buffer = Buffer::empty(Rect { x: 0, y: 0, width: 0, height: 0 });
        core::mem::swap(&mut self.buffers[self.current], &mut taken);
        Frame { cursor_position: None, viewport_area: self.viewport_area, buffer: taken }
    }

    /// Takes the cells of a frame back, and says where the cursor is asked for.
    pub fn put_frame(&mut self, frame: Frame) -> (r: Option<Position>)
        requires
            old(self).sound(),
        ensures
            r == frame@.cursor_position,
            final(self).sound(),
            final(self)@ == old(self)@.with_current(frame@.grid),
            old(self)@.previous.wf() && frame@.grid.wf() && frame@.grid.area
                == old(self)@.previous.area && old(self)@.fits_viewport(frame@.grid.area)
                ==> final(self).wf(),
    {
        let mut frame = frame;
        core::mem::swap(&mut self.buffers[self.current], &mut frame.buffer);
        frame.cursor_position
    }

    /// Tells the terminal to show what was drawn, with the cursor as asked.
    pub fn present(&mut self, cursor_position: Option<Position>)
        requires
            old(self).wf(),
            old(self)@.viewport_area.fits(),
        ensures
            final(self)@ == old(self)@.presented(cursor_position),
            final(self).wf(),
    {
        let wrote_updates: bool = self.flush();
        let mut wrote_cursor: bool = false;
        match cursor_position {
            None => {
                if !self.hidden_cursor {
                    self.hide_cursor();
                    wrote_cursor = true;
                }
            },
            Some(position) => {
                if self.hidden_cursor {
                    self.show_cursor();
                    wrote_cursor = true;
                }
                if position != self.last_known_cursor_pos {
                    self.set_cursor_position(position);
                    wrote_cursor = true;
                }
            },
        }
        self.swap_buffers();
        if wrote_updates || wrote_cursor {
            self.tell(OpOf::Flush);
        }
    }

    /// Has the viewport drawn on a screen of the given size, and tells the terminal to show it.
    pub fn draw<F: FnOnce(&mut Frame)>(&mut self, screen_size: Size, render_callback: F)
        requires
            old(self).wf(),
            old(self)@.viewport_area.fits(),
            forall|fr: &mut Frame|
                (*fr)@ == old(self)@.frame() ==> #[trigger] render_callback.requires((fr,)),
            forall|fr: &mut Frame, u: ()| #[trigger]
                render_callback.ensures((fr,), u) && (*fr)@ == old(self)@.frame()
                    ==> (*final(fr))@.grid.wf() && (*final(fr))@.grid.area == (*fr)@.grid.area,
        ensures
            final(self).wf(),
            exists|fr: &mut Frame, u: ()| #[trigger]
                render_callback.ensures((fr,), u) && (*fr)@ == old(self)@.frame() && final(self)@
                    == old(self)@.on_screen(screen_size).with_current(
                    (*final(fr))@.grid,
                ).presented((*final(fr))@.cursor_position),
    {
        self.autoresize(screen_size);
        let mut frame: Frame = self.get_frame();
        render_callback(&mut frame);
        let cursor_position: Option<Position> = self.put_frame(frame);
        self.present(cursor_position);
    }

    /// Has the viewport drawn on a screen of the given size, and tells the terminal to show it if
    /// the drawing succeeds.
    pub fn try_draw<F, E>(&mut self, screen_size: Size, render_callback: F) -> (r: Result<(), E>)
        where F: FnOnce(&mut Frame) -> Result<(), E>
        requires
            old(self).wf(),
            old(self)@.viewport_area.fits(),
            forall|fr: &mut Frame|
                (*fr)@ == old(self)@.frame() ==> #[trigger] render_callback.requires((fr,)),
            forall|fr: &mut Frame, cr: Result<(), E>| #[trigger]
                render_callback.ensures((fr,), cr) && (*fr)@ == old(self)@.frame()
                    ==> (*final(fr))@.grid.wf() && (*final(fr))@.grid.area == (*fr)@.grid.area,
        ensures
            final(self).wf(),
            exists|fr: &mut Frame, cr: Result<(), E>|
                {
                    let drawn = old(self)@.on_screen(screen_size).with_current((*final(fr))@.grid);
                    &&& #[trigger] render_callback.ensures((fr,), cr)
                    &&& (*fr)@ == old(self)@.frame()
                    &&& r is Ok <==> cr is Ok
                    &&& r is Ok ==> final(self)@ == drawn.presented((*final(fr))@.cursor_position)
                    &&& r is Err ==> r->Err_0 == cr->Err_0 && final(self)@ == drawn
                },
    {
        self.autoresize(screen_size);
        let mut frame: Frame = self.get_frame();
        let result: Result<(), E> = render_callback(&mut frame);
        let cursor_position: Option<Position> = self.put_frame(frame);
        match result {
            Ok(()) => {
                self.present(cursor_position);
                Ok(())
            },
            Err(error) => Err(error),
        }
    }
}

} // verus!
