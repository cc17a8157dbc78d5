//! What a terminal shows once it has carried out what it was told.

use crossterm::Command;
use lilterm::buffer::Buffer;
use lilterm::buffer::Cell;
use lilterm::buffer::CellOf;
use lilterm::buffer::DiffOption;
use lilterm::buffer::MEASUREMENT_MARK;
use lilterm::command::Attribute;
use lilterm::command::Op;
use lilterm::command::OpOf;
use lilterm::diff::diff_buffers;
use lilterm::diff::DrawCommandOf;
use lilterm::geometry::Position;
use lilterm::geometry::Rect;
use lilterm::geometry::Size;
use lilterm::history::insert_history_lines;
use lilterm::history::insert_history_lines_with_mode;
use lilterm::history::InsertHistoryMode;
use lilterm::inline::InlineViewport;
use lilterm::inline::Screen;
use lilterm::inline::ScrollbackTailState;
use lilterm::layout::measure_layout;
use lilterm::layout::LayoutFrame;
use lilterm::layout::Region;
use lilterm::style::Color;
use lilterm::style::Modifier;
use lilterm::style::TermColor;
use lilterm::terminal::Terminal;
use lilterm::text::Line;
use ratatui::backend::Backend;
use ratatui::backend::CrosstermBackend;
use ratatui::widgets::Paragraph;
use ratatui::widgets::Widget;
use ratatui::widgets::Wrap;

/// A terminal emulator, and all that has been written to it.
struct Tty {
    parser: vt100::Parser,
    bytes: Vec<u8>,
}

impl Tty {
    fn new(width: u16, height: u16) -> Tty {
        crossterm::style::force_color_output(true);
        Tty { parser: vt100::Parser::new(height, width, 100), bytes: Vec::new() }
    }

    fn write(&mut self, bytes: &[u8]) {
        self.bytes.extend_from_slice(bytes);
        self.parser.process(bytes);
    }

    fn command(&mut self, command: impl Command) {
        let mut text = String::new();
        command.write_ansi(&mut text).unwrap();
        self.write(text.as_bytes());
    }

    fn size(&self) -> Size {
        let (rows, columns) = self.parser.screen().size();
        Size { width: columns, height: rows }
    }

    fn screen(&self) -> Screen {
        let (row, column) = self.parser.screen().cursor_position();
        Screen { size: self.size(), cursor: Some(Position { x: column, y: row }) }
    }

    fn terminal(&self) -> Terminal {
        Terminal::with_options(self.size(), self.screen().cursor)
    }

    fn rows(&self) -> Vec<String> {
        let (_, columns) = self.parser.screen().size();
        self.parser.screen().rows(0, columns).collect()
    }

    fn clears(&self) -> usize {
        self.bytes.windows(3).filter(|window| *window == b"\x1b[J").count()
    }

    fn perform(&mut self, ops: Vec<Op>) {
        for op in ops {
            self.perform_one(op);
        }
    }

    fn perform_one(&mut self, op: Op) {
        match op {
            OpOf::MoveTo { x, y } => self.command(crossterm::cursor::MoveTo(x, y)),
            OpOf::Hide => self.command(crossterm::cursor::Hide),
            OpOf::Show => self.command(crossterm::cursor::Show),
            OpOf::ClearFromCursorDown => self.command(crossterm::terminal::Clear(
                crossterm::terminal::ClearType::FromCursorDown,
            )),
            OpOf::ClearUntilNewLine => self.command(crossterm::terminal::Clear(
                crossterm::terminal::ClearType::UntilNewLine,
            )),
            OpOf::Print(text) => self.write(text.as_bytes()),
            OpOf::SetColors { fg, bg } => self.command(crossterm::style::SetColors(
                crossterm::style::Colors::new(term_color(fg), term_color(bg)),
            )),
            OpOf::SetForegroundColor(color) => {
                self.command(crossterm::style::SetForegroundColor(term_color(color)))
            }
            OpOf::SetBackgroundColor(color) => {
                self.command(crossterm::style::SetBackgroundColor(term_color(color)))
            }
            OpOf::SetAttribute(attribute) => {
                self.command(crossterm::style::SetAttribute(term_attribute(attribute)))
            }
            OpOf::ScrollUp(region) => self.write(region.write_ansi().as_bytes()),
            OpOf::ScrollDown(region) => self.write(region.write_ansi().as_bytes()),
            OpOf::AppendLines(n) => {
                let mut bytes: Vec<u8> = Vec::new();
                CrosstermBackend::new(&mut bytes).append_lines(n).unwrap();
                self.write(&bytes);
            }
            OpOf::DrawCells(placed) => {
                let cells: Vec<(u16, u16, ratatui::buffer::Cell)> =
                    placed.iter().map(|p| (p.x, p.y, to_ratatui_cell(&p.cell))).collect();
                let mut bytes: Vec<u8> = Vec::new();
                CrosstermBackend::new(&mut bytes)
                    .draw(cells.iter().map(|(x, y, cell)| (*x, *y, cell)))
                    .unwrap();
                self.write(&bytes);
            }
            OpOf::BeginSynchronizedUpdate => {
                self.command(crossterm::terminal::BeginSynchronizedUpdate)
            }
            OpOf::EndSynchronizedUpdate => {
                self.command(crossterm::terminal::EndSynchronizedUpdate)
            }
            OpOf::Flush | OpOf::FlushWriter => {}
        }
    }
}

fn term_color(color: TermColor) -> crossterm::style::Color {
    match color {
        TermColor::Reset => crossterm::style::Color::Reset,
        TermColor::Black => crossterm::style::Color::Black,
        TermColor::DarkGrey => crossterm::style::Color::DarkGrey,
        TermColor::Red => crossterm::style::Color::Red,
        TermColor::DarkRed => crossterm::style::Color::DarkRed,
        TermColor::Green => crossterm::style::Color::Green,
        TermColor::DarkGreen => crossterm::style::Color::DarkGreen,
        TermColor::Yellow => crossterm::style::Color::Yellow,
        TermColor::DarkYellow => crossterm::style::Color::DarkYellow,
        TermColor::Blue => crossterm::style::Color::Blue,
        TermColor::DarkBlue => crossterm::style::Color::DarkBlue,
        TermColor::Magenta => crossterm::style::Color::Magenta,
        TermColor::DarkMagenta => crossterm::style::Color::DarkMagenta,
        TermColor::Cyan => crossterm::style::Color::Cyan,
        TermColor::DarkCyan => crossterm::style::Color::DarkCyan,
        TermColor::White => crossterm::style::Color::White,
        TermColor::Grey => crossterm::style::Color::Grey,
        TermColor::Rgb { r, g, b } => crossterm::style::Color::Rgb { r, g, b },
        TermColor::AnsiValue(index) => crossterm::style::Color::AnsiValue(index),
    }
}

fn term_attribute(attribute: Attribute) -> crossterm::style::Attribute {
    match attribute {
        Attribute::Reset => crossterm::style::Attribute::Reset,
        Attribute::Bold => crossterm::style::Attribute::Bold,
        Attribute::Dim => crossterm::style::Attribute::Dim,
        Attribute::Italic => crossterm::style::Attribute::Italic,
        Attribute::Underlined => crossterm::style::Attribute::Underlined,
        Attribute::SlowBlink => crossterm::style::Attribute::SlowBlink,
        Attribute::RapidBlink => crossterm::style::Attribute::RapidBlink,
        Attribute::Reverse => crossterm::style::Attribute::Reverse,
        Attribute::CrossedOut => crossterm::style::Attribute::CrossedOut,
        Attribute::NormalIntensity => crossterm::style::Attribute::NormalIntensity,
        Attribute::NoItalic => crossterm::style::Attribute::NoItalic,
        Attribute::NoUnderline => crossterm::style::Attribute::NoUnderline,
        Attribute::NoBlink => crossterm::style::Attribute::NoBlink,
        Attribute::NoReverse => crossterm::style::Attribute::NoReverse,
        Attribute::NotCrossedOut => crossterm::style::Attribute::NotCrossedOut,
    }
}

fn to_ratatui_color(color: Color) -> ratatui::style::Color {
    match color {
        Color::Reset => ratatui::style::Color::Reset,
        Color::Black => ratatui::style::Color::Black,
        Color::Red => ratatui::style::Color::Red,
        Color::Green => ratatui::style::Color::Green,
        Color::Yellow => ratatui::style::Color::Yellow,
        Color::Blue => ratatui::style::Color::Blue,
        Color::Magenta => ratatui::style::Color::Magenta,
        Color::Cyan => ratatui::style::Color::Cyan,
        Color::Gray => ratatui::style::Color::Gray,
        Color::DarkGray => ratatui::style::Color::DarkGray,
        Color::LightRed => ratatui::style::Color::LightRed,
        Color::LightGreen => ratatui::style::Color::LightGreen,
        Color::LightYellow => ratatui::style::Color::LightYellow,
        Color::LightBlue => ratatui::style::Color::LightBlue,
        Color::LightMagenta => ratatui::style::Color::LightMagenta,
        Color::LightCyan => ratatui::style::Color::LightCyan,
        Color::White => ratatui::style::Color::White,
        Color::Rgb(r, g, b) => ratatui::style::Color::Rgb(r, g, b),
        Color::Indexed(index) => ratatui::style::Color::Indexed(index),
    }
}

fn from_ratatui_color(color: ratatui::style::Color) -> Color {
    match color {
        ratatui::style::Color::Reset => Color::Reset,
        ratatui::style::Color::Black => Color::Black,
        ratatui::style::Color::Red => Color::Red,
        ratatui::style::Color::Green => Color::Green,
        ratatui::style::Color::Yellow => Color::Yellow,
        ratatui::style::Color::Blue => Color::Blue,
        ratatui::style::Color::Magenta => Color::Magenta,
        ratatui::style::Color::Cyan => Color::Cyan,
        ratatui::style::Color::Gray => Color::Gray,
        ratatui::style::Color::DarkGray => Color::DarkGray,
        ratatui::style::Color::LightRed => Color::LightRed,
        ratatui::style::Color::LightGreen => Color::LightGreen,
        ratatui::style::Color::LightYellow => Color::LightYellow,
        ratatui::style::Color::LightBlue => Color::LightBlue,
        ratatui::style::Color::LightMagenta => Color::LightMagenta,
        ratatui::style::Color::LightCyan => Color::LightCyan,
        ratatui::style::Color::White => Color::White,
        ratatui::style::Color::Rgb(r, g, b) => Color::Rgb(r, g, b),
        ratatui::style::Color::Indexed(index) => Color::Indexed(index),
    }
}

fn to_ratatui_cell(cell: &Cell) -> ratatui::buffer::Cell {
    let mut out = ratatui::buffer::Cell::default();
    out.set_symbol(&cell.symbol);
    out.fg = to_ratatui_color(cell.fg);
    out.bg = to_ratatui_color(cell.bg);
    out.modifier = ratatui::style::Modifier::from_bits_retain(cell.modifier.bits);
    out
}

fn from_ratatui_cell(cell: &ratatui::buffer::Cell) -> Cell {
    CellOf {
        symbol: cell.symbol().to_string(),
        fg: from_ratatui_color(cell.fg),
        bg: from_ratatui_color(cell.bg),
        underline_color: Color::Reset,
        modifier: Modifier { bits: cell.modifier.bits() },
        diff_option: DiffOption::Plain,
        skip: false,
    }
}

/// Has a buffer drawn into by `ratatui`.
fn draw_with(buffer: &mut Buffer, draw: impl FnOnce(&mut ratatui::buffer::Buffer)) {
    let area = buffer.area;
    let mut canvas = ratatui::buffer::Buffer::empty(to_ratatui_rect(area));
    for (cell, own) in canvas.content.iter_mut().zip(buffer.content.iter()) {
        *cell = to_ratatui_cell(own);
    }
    draw(&mut canvas);
    buffer.content = canvas.content.iter().map(from_ratatui_cell).collect();
}

fn to_ratatui_rect(area: Rect) -> ratatui::layout::Rect {
    ratatui::layout::Rect { x: area.x, y: area.y, width: area.width, height: area.height }
}

fn set_string(buffer: &mut Buffer, x: u16, y: u16, text: &str) {
    draw_with(buffer, |canvas| {
        canvas.set_string(x, y, text, ratatui::style::Style::default());
    });
}

fn render_numbered_rows_count(row_count: u16, area: Rect, buffer: &mut Buffer) {
    draw_with(buffer, |canvas| {
        for y in 0..row_count.min(area.height) {
            canvas.set_string(
                area.x,
                area.y + y,
                format!("row{y}"),
                ratatui::style::Style::default(),
            );
        }
    });
}

fn render_numbered_layout(frame: &mut LayoutFrame, row_count: u16) {
    let area = frame.area(0);
    render_numbered_rows_count(row_count, area, frame.buffer_mut());
    let prompt_area = frame.area(1);
    set_string(frame.buffer_mut(), prompt_area.x, prompt_area.y, "prompt");
}

fn draw_layout_numbered_rows(
    tty: &mut Tty,
    viewport: &mut InlineViewport,
    state: &mut ScrollbackTailState,
    row_count: u16,
    pinned_bottom_height: u16,
) {
    viewport
        .draw_layout_tail(
            tty.screen(),
            state,
            &[Region::inline_min(1), Region::pinned_bottom(pinned_bottom_height)],
            |frame: &mut LayoutFrame| render_numbered_layout(frame, row_count),
        )
        .unwrap();
    tty.perform(viewport.terminal_mut().take_output());
}

fn finish_layout_numbered_rows(
    tty: &mut Tty,
    viewport: &mut InlineViewport,
    state: &mut ScrollbackTailState,
    row_count: u16,
    pinned_bottom_height: u16,
) {
    viewport
        .finish_layout_tail(
            tty.size(),
            state,
            &[Region::inline_min(1), Region::pinned_bottom(pinned_bottom_height)],
            |frame: &mut LayoutFrame| render_numbered_layout(frame, row_count),
        )
        .unwrap();
    tty.perform(viewport.terminal_mut().take_output());
}

fn draw_text(tty: &mut Tty, viewport: &mut InlineViewport, height: u16, text: &str) {
    viewport.draw(tty.screen(), height, |frame| {
        let area = frame.area();
        set_string(frame.buffer_mut(), area.x, area.y, text);
    });
    tty.perform(viewport.terminal_mut().take_output());
}

#[test]
fn vt100_standard_mode_inserts_history_and_updates_viewport() {
    let width: u16 = 32;
    let height: u16 = 8;
    let mut tty = Tty::new(width, height);
    let mut term = tty.terminal();
    term.set_viewport_area(Rect::new(0, 4, width, 2));

    insert_history_lines(&mut term, vec![Line::raw("history row")]);
    tty.perform(term.take_output());

    assert!(tty.rows().iter().any(|row| row.contains("history row")));
    assert_eq!(term.viewport_area, Rect::new(0, 5, width, 2));
    assert_eq!(term.visible_history_rows(), 1);
}

#[test]
fn vt100_zellij_mode_inserts_history_and_updates_viewport() {
    let width: u16 = 32;
    let height: u16 = 8;
    let mut tty = Tty::new(width, height);
    let mut term = tty.terminal();
    term.set_viewport_area(Rect::new(0, 4, width, 2));

    insert_history_lines_with_mode(
        &mut term,
        vec![Line::raw("zellij history")],
        InsertHistoryMode::Zellij,
    );
    tty.perform(term.take_output());

    assert!(tty.rows().iter().any(|row| row.contains("zellij history")));
    assert_eq!(term.viewport_area, Rect::new(0, 5, width, 2));
    assert_eq!(term.visible_history_rows(), 1);
}

#[test]
fn long_line_counts_physical_rows() {
    let width: u16 = 10;
    let height: u16 = 8;
    let mut tty = Tty::new(width, height);
    let mut term = tty.terminal();
    term.set_viewport_area(Rect::new(0, 5, width, 1));

    insert_history_lines(&mut term, vec![Line::raw("abcdefghijklmnop")]);
    tty.perform(term.take_output());

    assert_eq!(term.visible_history_rows(), 2);
    assert!(tty.rows()[5].contains("abcdefghij"));
    assert!(tty.rows()[6].contains("klmnop"));
}

#[test]
fn full_height_viewport_inserts_history_into_scrollback() {
    let width: u16 = 24;
    let height: u16 = 4;
    let mut tty = Tty::new(width, height);
    let mut term = tty.terminal();
    term.set_viewport_area(Rect::new(0, 0, width, height));

    term.draw(tty.size(), |frame| {
        let area = frame.area();
        for y in 0..area.height {
            set_string(frame.buffer_mut(), area.x, area.y + y, &format!("live row {y}"));
        }
    });
    tty.perform(term.take_output());

    insert_history_lines(&mut term, vec![Line::raw("backscroll row")]);
    tty.perform(term.take_output());

    let visible_rows = tty.rows();
    assert!(visible_rows.iter().any(|row| row.contains("live row 0")));
    assert!(!visible_rows.iter().any(|row| row.contains("backscroll row")));

    tty.parser.set_scrollback(1);
    let scrolled_rows = tty.rows();
    assert!(
        scrolled_rows.iter().any(|row| row.contains("backscroll row")),
        "expected inserted row in scrollback, rows: {scrolled_rows:?}"
    );
}

#[test]
fn draw_creates_inline_viewport_without_alt_screen() {
    let width: u16 = 20;
    let height: u16 = 8;
    let mut tty = Tty::new(width, height);
    let mut viewport = InlineViewport::new(tty.terminal());

    draw_text(&mut tty, &mut viewport, 3, "hello");

    assert_eq!(viewport.terminal().viewport_area, Rect::new(0, 0, width, 3));
    assert!(tty.rows().iter().any(|row| row.contains("hello")));
}

#[test]
fn scrollback_tail_inserts_overflow_and_draws_live_tail_above_pinned_bottom() {
    let width: u16 = 10;
    let height: u16 = 5;
    let mut tty = Tty::new(width, height);
    let mut viewport = InlineViewport::new(tty.terminal());
    let mut state = ScrollbackTailState::new();

    draw_layout_numbered_rows(&mut tty, &mut viewport, &mut state, 4, 1);
    draw_layout_numbered_rows(&mut tty, &mut viewport, &mut state, 6, 1);

    let rows = tty.rows();
    assert_eq!(state.committed_rows(), 2);
    assert!(rows.iter().any(|row| row.contains("row2")));
    assert!(rows.iter().any(|row| row.contains("row5")));
    assert!(rows.iter().any(|row| row.contains("prompt")));
    assert!(!rows.iter().any(|row| row.contains("row0")));
}

#[test]
fn layout_tail_measures_rendered_inline_rows_and_inserts_overflow() {
    let width: u16 = 10;
    let height: u16 = 5;
    let mut tty = Tty::new(width, height);
    let mut viewport = InlineViewport::new(tty.terminal());
    let mut state = ScrollbackTailState::new();

    for count in [4u16, 6] {
        viewport
            .draw_layout_tail(
                tty.screen(),
                &mut state,
                &[Region::inline_min(1), Region::pinned_bottom(1)],
                |frame: &mut LayoutFrame| {
                    let area = frame.area(0);
                    for y in 0..count {
                        set_string(frame.buffer_mut(), area.x, area.y + y, &format!("row{y}"));
                    }
                    let prompt_area = frame.area(1);
                    set_string(frame.buffer_mut(), prompt_area.x, prompt_area.y, "prompt");
                },
            )
            .unwrap();
        tty.perform(viewport.terminal_mut().take_output());
    }

    let rows = tty.rows();
    assert_eq!(state.committed_rows(), 2);
    assert!(rows.iter().any(|row| row.contains("row2")));
    assert!(rows.iter().any(|row| row.contains("row5")));
    assert!(rows.iter().any(|row| row.contains("prompt")));
    assert!(!rows.iter().any(|row| row.contains("row0")));
}

#[test]
fn layout_tail_measurement_does_not_leak_marker_styles() {
    let width: u16 = 20;
    let height: u16 = 6;
    let measured = measure_layout(
        Size { width, height },
        &[Region::inline_min(1), Region::pinned_bottom(1)],
        |frame: &mut LayoutFrame| {
            let area = frame.area(0);
            draw_with(frame.buffer_mut(), |canvas| {
                Paragraph::new("hello")
                    .style(ratatui::style::Style::default().fg(ratatui::style::Color::Cyan))
                    .render(to_ratatui_rect(area), canvas);
            });
            let prompt_area = frame.area(1);
            set_string(frame.buffer_mut(), prompt_area.x, prompt_area.y, "prompt");
        },
    )
    .unwrap();

    for cell in &measured.buffer.content {
        assert_ne!(cell.symbol, MEASUREMENT_MARK.to_string());
        assert_eq!(cell.bg, Color::Reset);
    }
}

#[test]
fn scrollback_tail_repaints_spaces_after_overflow() {
    let width: u16 = 36;
    let height: u16 = 8;
    let mut tty = Tty::new(width, height);
    let mut viewport = InlineViewport::new(tty.terminal());
    let mut state = ScrollbackTailState::new();
    let text = "This is a deliberately long streaming assistant message. ".repeat(8);

    for end in [40usize, 80, 120, 180, 240] {
        let current = &text[..end.min(text.len())];
        viewport
            .draw_layout_tail(
                tty.screen(),
                &mut state,
                &[Region::inline_min(1), Region::pinned_bottom(1)],
                |frame: &mut LayoutFrame| {
                    let area = frame.area(0);
                    draw_with(frame.buffer_mut(), |canvas| {
                        Paragraph::new(current)
                            .wrap(Wrap { trim: true })
                            .render(to_ratatui_rect(area), canvas);
                    });
                    let prompt_area = frame.area(1);
                    set_string(frame.buffer_mut(), prompt_area.x, prompt_area.y, "prompt");
                },
            )
            .unwrap();
        tty.perform(viewport.terminal_mut().take_output());
    }

    assert!(tty.rows().iter().any(|row| row.contains("prompt")));
}

#[test]
fn finish_layout_tail_leaves_visible_tail_in_place_when_viewport_is_full_height() {
    let width: u16 = 12;
    let height: u16 = 5;
    let mut tty = Tty::new(width, height);
    let mut viewport = InlineViewport::new(tty.terminal());
    let mut state = ScrollbackTailState::new();

    draw_layout_numbered_rows(&mut tty, &mut viewport, &mut state, 8, 1);

    assert_eq!(viewport.terminal().viewport_area, Rect::new(0, 0, width, height));
    assert_eq!(state.committed_rows(), 4);

    finish_layout_numbered_rows(&mut tty, &mut viewport, &mut state, 8, 1);

    assert_eq!(state, ScrollbackTailState::new());
    assert_eq!(viewport.terminal().viewport_area, Rect::new(0, 4, width, 1));

    draw_text(&mut tty, &mut viewport, 1, "prompt");

    let rows = tty.rows();
    assert!(rows[0].contains("row4"));
    assert!(rows[1].contains("row5"));
    assert!(rows[2].contains("row6"));
    assert!(rows[3].contains("row7"));
    assert!(rows[4].contains("prompt"));
}

#[test]
fn finish_layout_tail_from_unrendered_state_inserts_all_inline_rows() {
    let width: u16 = 12;
    let height: u16 = 5;
    let mut tty = Tty::new(width, height);
    let mut viewport = InlineViewport::new(tty.terminal());
    let mut state = ScrollbackTailState::new();

    draw_text(&mut tty, &mut viewport, 1, "prompt");
    let baseline_clears = tty.clears();

    finish_layout_numbered_rows(&mut tty, &mut viewport, &mut state, 4, 1);

    assert_eq!(state, ScrollbackTailState::new());
    assert_eq!(viewport.terminal().viewport_area, Rect::new(0, 4, width, 1));
    assert_eq!(
        tty.clears(),
        baseline_clears,
        "finishing an unrendered tail should insert history without clearing the screen"
    );

    let rows = tty.rows();
    assert!(rows[0].contains("row0"));
    assert!(rows[1].contains("row1"));
    assert!(rows[2].contains("row2"));
    assert!(rows[3].contains("row3"));
    assert!(rows[4].contains("prompt"));
}

#[test]
fn scrollback_tail_grows_down_from_non_bottom_prompt_without_from_cursor_down_clears() {
    let width: u16 = 12;
    let height: u16 = 6;
    let mut tty = Tty::new(width, height);
    let mut terminal = tty.terminal();
    terminal.set_viewport_area(Rect::new(0, 1, width, 1));
    let mut viewport = InlineViewport::new(terminal);
    let mut state = ScrollbackTailState::new();

    draw_text(&mut tty, &mut viewport, 1, "prompt");
    let baseline_clears = tty.clears();

    for full_height in 1..=3 {
        draw_layout_numbered_rows(&mut tty, &mut viewport, &mut state, full_height, 1);
    }

    assert_eq!(state.committed_rows(), 0);
    assert_eq!(viewport.terminal().viewport_area, Rect::new(0, 1, width, 4));
    assert_eq!(
        tty.clears(),
        baseline_clears,
        "a non-bottom inline viewport should grow downward without clear-from-cursor-down"
    );

    let rows = tty.rows();
    assert!(rows[1].contains("row0"));
    assert!(rows[2].contains("row1"));
    assert!(rows[3].contains("row2"));
    assert!(rows[4].contains("prompt"));
}

#[test]
fn scrollback_tail_flushes_pending_history_before_start_without_full_screen_clear() {
    let width: u16 = 12;
    let height: u16 = 6;
    let mut tty = Tty::new(width, height);
    let mut terminal = tty.terminal();
    terminal.set_viewport_area(Rect::new(0, 1, width, 1));
    let mut viewport = InlineViewport::new(terminal);
    let mut state = ScrollbackTailState::new();

    draw_text(&mut tty, &mut viewport, 1, "prompt");
    let baseline_clears = tty.clears();

    viewport.insert_history_lines(vec![Line::raw("hist0"), Line::raw("hist1")]);
    draw_layout_numbered_rows(&mut tty, &mut viewport, &mut state, 1, 1);

    assert_eq!(state.committed_rows(), 0);
    assert_eq!(viewport.terminal().viewport_area, Rect::new(0, 3, width, 2));
    assert_eq!(
        tty.clears(),
        baseline_clears,
        "starting a scrollback tail after pending history should not clear from cursor down"
    );

    let rows = tty.rows();
    assert!(rows.iter().any(|row| row.contains("hist0")));
    assert!(rows.iter().any(|row| row.contains("hist1")));
    assert!(rows[3].contains("row0"));
    assert!(rows[4].contains("prompt"));
}

#[test]
fn scrollback_tail_lifecycle_preserves_screen_without_from_cursor_down_clears() {
    let width: u16 = 12;
    let height: u16 = 5;
    let mut tty = Tty::new(width, height);
    let mut terminal = tty.terminal();
    terminal.set_viewport_area(Rect::new(0, height.saturating_sub(1), width, 1));
    let mut viewport = InlineViewport::new(terminal);
    let mut state = ScrollbackTailState::new();

    draw_text(&mut tty, &mut viewport, 1, "prompt");
    assert_eq!(viewport.terminal().viewport_area, Rect::new(0, 4, width, 1));
    let baseline_clears = tty.clears();

    for full_height in 1..=8 {
        draw_layout_numbered_rows(&mut tty, &mut viewport, &mut state, full_height, 1);
    }

    assert_eq!(state.committed_rows(), 4);
    assert_eq!(viewport.terminal().viewport_area, Rect::new(0, 0, width, height));
    assert_eq!(
        tty.clears(),
        baseline_clears,
        "streaming a scrollback tail should use scroll regions and diffing, not clear from cursor down"
    );

    finish_layout_numbered_rows(&mut tty, &mut viewport, &mut state, 8, 1);
    assert_eq!(viewport.terminal().viewport_area, Rect::new(0, 4, width, 1));
    assert_eq!(
        tty.clears(),
        baseline_clears,
        "finishing a scrollback tail should not clear the visible screen"
    );

    draw_text(&mut tty, &mut viewport, 1, "prompt");
    assert_eq!(
        tty.clears(),
        baseline_clears,
        "redrawing the pinned prompt after finish should not clear the visible tail"
    );

    let rows = tty.rows();
    assert!(rows[0].contains("row4"));
    assert!(rows[1].contains("row5"));
    assert!(rows[2].contains("row6"));
    assert!(rows[3].contains("row7"));
    assert!(rows[4].contains("prompt"));
}

#[test]
fn newest_rows_of_a_tail_are_seen_above_the_pinned_ones() {
    let mut tty = Tty::new(12, 4);
    let mut terminal = tty.terminal();
    terminal.set_viewport_area(Rect::new(0, 3, 12, 1));
    let mut viewport = InlineViewport::new(terminal);
    let mut state = ScrollbackTailState::new();
    viewport.insert_history_lines(vec![Line::raw("hist0")]);
    draw_layout_numbered_rows(&mut tty, &mut viewport, &mut state, 6, 1);
    assert_eq!(state.committed_rows(), 3);
    assert_eq!(viewport.terminal().viewport_area, Rect::new(0, 0, 12, 4));
    let rows = tty.rows();
    assert_eq!(rows[0].trim_end(), "row3");
    assert_eq!(rows[1].trim_end(), "row4");
    assert_eq!(rows[2].trim_end(), "row5");
    assert!(rows[3].contains("prompt"));
}

#[test]
fn pending_history_is_flushed_before_draw() {
    let width: u16 = 30;
    let height: u16 = 8;
    let mut tty = Tty::new(width, height);
    let mut terminal = tty.terminal();
    terminal.set_viewport_area(Rect::new(0, 4, width, 2));
    let mut viewport = InlineViewport::new(terminal);
    viewport.insert_history_lines(vec![Line::raw("history before draw")]);

    draw_text(&mut tty, &mut viewport, 2, "live");

    let rows = tty.rows();
    assert!(rows.iter().any(|row| row.contains("history before draw")));
    assert!(rows.iter().any(|row| row.contains("live")));
    assert_eq!(viewport.terminal().visible_history_rows(), 1);
}

#[test]
fn diff_buffers_does_not_emit_clear_to_end_for_full_width_row() {
    let area = Rect::new(0, 0, 3, 2);
    let previous = Buffer::empty(area);
    let mut next = Buffer::empty(area);

    next.content[2].set_symbol("X".to_string());

    let commands = diff_buffers(&previous, &next);

    let clear_count = commands
        .iter()
        .filter(|command| matches!(command, DrawCommandOf::ClearToEnd { y, .. } if *y == 0))
        .count();
    assert_eq!(0, clear_count);
    assert!(commands
        .iter()
        .any(|command| matches!(command, DrawCommandOf::Put { x: 2, y: 0, .. })));
}

#[test]
fn diff_buffers_does_not_clear_identical_trailing_blank_cells() {
    let area = Rect::new(0, 0, 10, 1);
    let mut previous = Buffer::empty(area);
    set_string(&mut previous, 0, 0, "hello");
    let next = previous.clone();

    let commands = diff_buffers(&previous, &next);

    assert!(commands.is_empty());
}

#[test]
fn diff_buffers_clears_stale_trailing_cells() {
    let area = Rect::new(0, 0, 10, 1);
    let mut previous = Buffer::empty(area);
    let mut next = Buffer::empty(area);
    set_string(&mut previous, 0, 0, "hello");
    set_string(&mut next, 0, 0, "hi");

    let commands = diff_buffers(&previous, &next);

    assert!(commands
        .iter()
        .any(|command| matches!(command, DrawCommandOf::ClearToEnd { x: 2, y: 0, .. })));
}

#[test]
fn leave_viewport_moves_cursor_below_viewport_without_clearing_when_room() {
    let width: u16 = 12;
    let height: u16 = 6;
    let mut tty = Tty::new(width, height);
    let mut terminal = tty.terminal();
    terminal.set_viewport_area(Rect::new(0, 2, width, 2));

    terminal.draw(tty.size(), |frame| {
        set_string(frame.buffer_mut(), 0, 2, "live row");
    });
    terminal.leave_viewport(tty.size());
    tty.perform(terminal.take_output());

    assert!(tty.rows().iter().any(|row| row.contains("live row")));
    assert_eq!(tty.parser.screen().cursor_position(), (4, 0));
}

#[test]
fn invalidating_viewport_forces_blank_cells_to_be_redrawn_inside_bordered_rows() {
    let area = Rect::new(0, 0, 8, 1);
    let mut previous = Buffer::empty(area);
    let mut next = Buffer::empty(area);
    set_string(&mut next, 0, 0, "|a b  |");

    lilterm::buffer::mark_buffer_invalid(&mut previous);
    let commands = diff_buffers(&previous, &next);

    assert!(commands.iter().any(
        |command| matches!(command, DrawCommandOf::Put { x: 2, y: 0, cell } if cell.symbol == " ")
    ));
    assert!(commands.iter().any(
        |command| matches!(command, DrawCommandOf::Put { x: 5, y: 0, cell } if cell.symbol == " ")
    ));
}

#[test]
fn diff_buffers_clear_to_end_starts_after_wide_char() {
    let area = Rect::new(0, 0, 10, 1);
    let mut previous = Buffer::empty(area);
    let mut next = Buffer::empty(area);

    set_string(&mut previous, 0, 0, "中文");
    set_string(&mut next, 0, 0, "中");

    let commands = diff_buffers(&previous, &next);
    assert!(commands
        .iter()
        .any(|command| matches!(command, DrawCommandOf::ClearToEnd { x: 2, y: 0, .. })));
}

/// A source of numbers that are the same on every run.
struct Numbers(u32);

impl Numbers {
    fn below(&mut self, n: u32) -> u32 {
        self.0 = self.0.wrapping_mul(1664525).wrapping_add(1013904223);
        (self.0 >> 8) % n
    }
}

/// A frame whose rows end in a plain text.
fn random_frame(numbers: &mut Numbers, area: Rect) -> Buffer {
    let mut buffer = Buffer::empty(area);
    let palette = [Color::Reset, Color::Red, Color::LightBlue, Color::Indexed(9)];
    for y in area.y..area.bottom() {
        let end = area.x + numbers.below(u32::from(area.width)) as u16;
        let mut x = area.x;
        while x + 1 < end {
            if numbers.below(3) > 0 {
                let ch = ['a', 'b', ' ', '中', '文'][numbers.below(5) as usize];
                let style = lilterm::style::Style {
                    fg: Some(palette[numbers.below(4) as usize]),
                    bg: Some(palette[numbers.below(4) as usize]),
                    add_modifier: Modifier { bits: [0, 1, 4, 8, 64][numbers.below(5) as usize] },
                    ..lilterm::style::Style::plain()
                };
                buffer.set_char(x, y, ch, style);
                x += if ch < '\u{80}' { 1 } else { 2 };
            } else {
                x += 1;
            }
        }
        buffer.set_char(end, y, 'e', lilterm::style::Style::plain());
    }
    buffer
}

/// The rows of the screen without the spaces at their ends.
fn trimmed_rows(tty: &Tty) -> Vec<String> {
    tty.rows().iter().map(|row| row.trim_end().to_string()).collect()
}

fn vt_color(color: Color) -> vt100::Color {
    match color {
        Color::Reset => vt100::Color::Default,
        Color::Red => vt100::Color::Idx(1),
        Color::LightBlue => vt100::Color::Idx(12),
        Color::Indexed(index) => vt100::Color::Idx(index),
        _ => panic!("a colour of no random frame"),
    }
}

fn assert_shows(tty: &Tty, buffer: &Buffer) {
    let mut covered = false;
    for (i, cell) in buffer.content.iter().enumerate() {
        let position = buffer.pos_of(i);
        let seen = tty.parser.screen().cell(position.y, position.x).unwrap();
        if covered {
            covered = false;
            continue;
        }
        let symbol = if seen.contents().is_empty() { " ".to_string() } else { seen.contents() };
        assert_eq!(symbol, cell.symbol, "at {position:?}");
        assert_eq!(seen.bgcolor(), vt_color(cell.bg), "at {position:?}");
        if symbol != " " {
            assert_eq!(seen.fgcolor(), vt_color(cell.fg), "at {position:?}");
        }
        assert_eq!(seen.bold(), cell.modifier.contains(1), "at {position:?}");
        assert_eq!(seen.italic(), cell.modifier.contains(4), "at {position:?}");
        assert_eq!(seen.underline(), cell.modifier.contains(8), "at {position:?}");
        assert_eq!(seen.inverse(), cell.modifier.contains(64), "at {position:?}");
        covered = seen.is_wide();
    }
}

#[test]
fn screen_shows_each_frame_that_was_drawn() {
    let mut numbers = Numbers(7);
    let area = Rect::new(0, 2, 12, 4);
    let mut tty = Tty::new(12, 8);
    tty.write(b"above\r\n\r\n\r\n\r\n\r\n\r\nbelow");
    let mut terminal = tty.terminal();
    terminal.set_viewport_area(area);
    for _ in 0..60 {
        let frame_cells = random_frame(&mut numbers, area);
        let shown = frame_cells.clone();
        terminal.draw(tty.size(), |frame| {
            *frame.buffer_mut() = frame_cells;
        });
        tty.perform(terminal.take_output());
        assert_shows(&tty, &shown);
        assert!(tty.rows()[0].contains("above"));
        assert!(tty.rows()[6].contains("below"));
    }
}

#[test]
fn inserted_rows_stand_in_order_above_the_viewport() {
    let mut tty = Tty::new(10, 8);
    let mut terminal = tty.terminal();
    terminal.set_viewport_area(Rect::new(0, 3, 10, 2));
    terminal.draw(tty.size(), |frame| {
        set_string(frame.buffer_mut(), 0, 3, "live0");
        set_string(frame.buffer_mut(), 0, 4, "live1");
    });
    tty.perform(terminal.take_output());
    let lines = (0..7).map(|n| Line::raw(&format!("line{n}"))).collect();
    insert_history_lines(&mut terminal, lines);
    tty.perform(terminal.take_output());
    assert_eq!(
        trimmed_rows(&tty),
        vec!["line1", "line2", "line3", "line4", "line5", "line6", "live0", "live1"]
    );
    assert_eq!(terminal.viewport_area, Rect::new(0, 6, 10, 2));
}

#[test]
fn pasted_rows_scroll_into_the_history_in_order() {
    let mut tty = Tty::new(10, 6);
    let mut terminal = tty.terminal();
    terminal.set_viewport_area(Rect::new(0, 1, 10, 2));
    let lines = (0..9).map(|n| Line::raw(&format!("line{n}"))).collect();
    insert_history_lines_with_mode(&mut terminal, lines, InsertHistoryMode::Zellij);
    tty.perform(terminal.take_output());
    assert_eq!(trimmed_rows(&tty), vec!["line5", "line6", "line7", "line8", "", ""]);
    tty.parser.set_scrollback(5);
    assert_eq!(trimmed_rows(&tty), vec!["line0", "line1", "line2", "line3", "line4", "line5"]);
}

#[test]
fn finished_tail_stands_above_the_prompt() {
    let mut tty = Tty::new(12, 6);
    let mut terminal = tty.terminal();
    terminal.set_viewport_area(Rect::new(0, 5, 12, 1));
    let mut viewport = InlineViewport::new(terminal);
    let mut state = ScrollbackTailState::new();
    draw_layout_numbered_rows(&mut tty, &mut viewport, &mut state, 3, 1);
    finish_layout_numbered_rows(&mut tty, &mut viewport, &mut state, 3, 1);
    assert_eq!(trimmed_rows(&tty), vec!["", "", "row0", "row1", "row2", "prompt"]);
    assert_eq!(viewport.terminal().viewport_area, Rect::new(0, 5, 12, 1));
}

#[test]
fn misplaced_region_leaves_the_viewport_as_it_is() {
    let tty = Tty::new(12, 6);
    let mut viewport = InlineViewport::new(tty.terminal());
    let mut state = ScrollbackTailState::new();
    let regions = [Region::pinned_bottom(1), Region::inline()];
    let drawn =
        viewport.draw_layout_tail(tty.screen(), &mut state, &regions, |_: &mut LayoutFrame| {
            panic!("nothing is to be drawn")
        });
    assert!(drawn.is_err());
    let finished =
        viewport.finish_layout_tail(tty.size(), &mut state, &regions, |_: &mut LayoutFrame| {
            panic!("nothing is to be drawn")
        });
    assert!(finished.is_err());
    assert!(viewport.terminal_mut().take_output().is_empty());
    assert_eq!(state, ScrollbackTailState::new());
}

#[test]
fn pending_history_stands_above_a_tail_that_is_drawn_first() {
    let mut tty = Tty::new(12, 6);
    let mut viewport = InlineViewport::new(tty.terminal());
    let mut state = ScrollbackTailState::new();
    viewport.insert_history_lines(vec![Line::raw("hist0")]);
    assert!(viewport.can_draw_tail(tty.screen(), &state, 1, 1));
    draw_layout_numbered_rows(&mut tty, &mut viewport, &mut state, 1, 1);
    assert_eq!(trimmed_rows(&tty), vec!["hist0", "row0", "prompt", "", "", ""]);
    assert_eq!(viewport.terminal().viewport_area, Rect::new(0, 1, 12, 2));
    assert_eq!(viewport.terminal().visible_history_rows(), 1);

    draw_layout_numbered_rows(&mut tty, &mut viewport, &mut state, 1, 1);
    assert_eq!(trimmed_rows(&tty), vec!["hist0", "row0", "prompt", "", "", ""]);
}

#[test]
fn pending_history_scrolls_out_above_a_tail_that_fills_the_screen() {
    let mut tty = Tty::new(12, 6);
    let mut viewport = InlineViewport::new(tty.terminal());
    let mut state = ScrollbackTailState::new();
    viewport.insert_history_lines(vec![Line::raw("hist0"), Line::raw("hist1")]);
    draw_layout_numbered_rows(&mut tty, &mut viewport, &mut state, 7, 1);
    assert_eq!(state.committed_rows(), 2);
    assert_eq!(trimmed_rows(&tty), vec!["row2", "row3", "row4", "row5", "row6", "prompt"]);
    tty.parser.set_scrollback(4);
    assert_eq!(trimmed_rows(&tty)[..4], ["hist0", "hist1", "row0", "row1"]);
}

#[test]
fn undrawn_tail_is_finished_below_the_pending_history() {
    let mut tty = Tty::new(12, 6);
    let mut viewport = InlineViewport::new(tty.terminal());
    let mut state = ScrollbackTailState::new();
    viewport.insert_history_lines(vec![Line::raw("hist0")]);
    assert!(viewport.can_finish_tail(tty.size(), &state, 3, 1));
    finish_layout_numbered_rows(&mut tty, &mut viewport, &mut state, 3, 1);
    assert_eq!(trimmed_rows(&tty), vec!["hist0", "row0", "row1", "row2", "prompt", ""]);
    assert_eq!(viewport.terminal().viewport_area, Rect::new(0, 4, 12, 1));
}

#[test]
fn undrawn_tail_that_overflows_is_finished_in_order() {
    let mut tty = Tty::new(12, 6);
    let mut viewport = InlineViewport::new(tty.terminal());
    let mut state = ScrollbackTailState::new();
    viewport.insert_history_lines(vec![Line::raw("hist0")]);
    finish_layout_numbered_rows(&mut tty, &mut viewport, &mut state, 8, 1);
    assert_eq!(trimmed_rows(&tty), vec!["row3", "row4", "row5", "row6", "row7", "prompt"]);
    tty.parser.set_scrollback(4);
    assert_eq!(trimmed_rows(&tty)[..4], ["hist0", "row0", "row1", "row2"]);
}
