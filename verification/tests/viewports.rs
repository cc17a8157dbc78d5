//! What a terminal is told when its viewport is drawn.

use lilterm::command::Op;
use lilterm::command::OpOf;
use lilterm::command::ScrollDownInRegion;
use lilterm::command::ScrollUpInRegion;
use lilterm::geometry::Position;
use lilterm::geometry::Rect;
use lilterm::geometry::Size;
use lilterm::history::insert_history_lines;
use lilterm::inline::pending_viewport_area;
use lilterm::inline::update_inline_viewport;
use lilterm::inline::InlineViewport;
use lilterm::inline::Screen;
use lilterm::inline::ScrollbackTailState;
use lilterm::style::Style;
use lilterm::style::TermColor;
use lilterm::terminal::can_insert_above;
use lilterm::terminal::Frame;
use lilterm::terminal::Terminal;
use lilterm::text::Line;

const SIZE: Size = Size { width: 10, height: 6 };

fn terminal(area: Rect) -> Terminal {
    let mut terminal = Terminal::with_options(SIZE, None);
    terminal.set_viewport_area(area);
    terminal
}

fn screen(size: Size) -> Screen {
    Screen { size, cursor: None }
}

fn letter(frame: &mut Frame, ch: char) {
    let area = frame.area();
    frame.buffer_mut().set_char(area.x, area.y, ch, Style::plain());
}

/// The kinds of what a terminal is told, in short.
fn kinds(ops: &[Op]) -> Vec<String> {
    ops.iter()
        .map(|op| match op {
            OpOf::MoveTo { x, y } => format!("move {x},{y}"),
            OpOf::Hide => "hide".to_string(),
            OpOf::Show => "show".to_string(),
            OpOf::ClearFromCursorDown => "clear down".to_string(),
            OpOf::ClearUntilNewLine => "clear row".to_string(),
            OpOf::Print(text) => format!("print {text:?}"),
            OpOf::SetColors { .. } => "colors".to_string(),
            OpOf::SetForegroundColor(TermColor::Reset) => "plain text".to_string(),
            OpOf::SetForegroundColor(_) => "text".to_string(),
            OpOf::SetBackgroundColor(TermColor::Reset) => "plain ground".to_string(),
            OpOf::SetBackgroundColor(_) => "ground".to_string(),
            OpOf::SetAttribute(attribute) => format!("{attribute:?}"),
            OpOf::ScrollUp(ScrollUpInRegion { first_row, last_row, lines_to_scroll }) => {
                format!("up {first_row}-{last_row} by {lines_to_scroll}")
            }
            OpOf::ScrollDown(ScrollDownInRegion { first_row, last_row, lines_to_scroll }) => {
                format!("down {first_row}-{last_row} by {lines_to_scroll}")
            }
            OpOf::AppendLines(n) => format!("feed {n}"),
            OpOf::DrawCells(cells) => format!("draw {} at row {}", cells.len(), cells[0].y),
            OpOf::BeginSynchronizedUpdate => "begin".to_string(),
            OpOf::EndSynchronizedUpdate => "end".to_string(),
            OpOf::Flush => "flush".to_string(),
            OpOf::FlushWriter => "hand over".to_string(),
        })
        .collect()
}

#[test]
fn terminal_starts_with_an_empty_viewport_at_the_cursor() {
    let terminal = Terminal::with_options(SIZE, Some(Position { x: 3, y: 2 }));
    assert_eq!(terminal.area(), Rect { x: 0, y: 2, width: 0, height: 0 });
    assert_eq!(terminal.cursor_pos(), Position { x: 3, y: 2 });
    assert_eq!(terminal.screen_size(), SIZE);
    assert_eq!(Terminal::with_options(SIZE, None).cursor_pos(), Position { x: 0, y: 0 });
}

#[test]
fn default_terminal_has_a_screen_without_cells() {
    let size = Size { width: 0, height: 0 };
    assert_eq!(Terminal::default(), Terminal::with_options(size, None));
    assert_ne!(Terminal::default(), Terminal::with_options(SIZE, None));
}

#[test]
fn first_frame_is_drawn_and_the_cursor_hidden() {
    let mut terminal = terminal(Rect::new(0, 4, 10, 2));
    terminal.draw(SIZE, |frame| letter(frame, 'x'));
    assert_eq!(
        kinds(&terminal.take_output()),
        vec!["move 0,4", "print \"x\"", "plain text", "plain ground", "Reset", "hide", "flush"]
    );
    assert!(terminal.take_output().is_empty());
}

#[test]
fn same_frame_tells_nothing() {
    let mut terminal = terminal(Rect::new(0, 4, 10, 2));
    terminal.draw(SIZE, |frame| letter(frame, 'x'));
    terminal.take_output();
    terminal.draw(SIZE, |frame| letter(frame, 'x'));
    assert!(terminal.take_output().is_empty());
    terminal.invalidate_viewport();
    terminal.draw(SIZE, |frame| letter(frame, 'x'));
    assert!(!terminal.take_output().is_empty());
}

#[test]
fn cursor_is_shown_where_the_frame_asks() {
    let mut terminal = terminal(Rect::new(0, 4, 10, 2));
    terminal.draw(SIZE, |_| {});
    assert_eq!(kinds(&terminal.take_output()), vec!["hide", "flush"]);
    terminal.draw(SIZE, |frame| frame.set_cursor_position(Position { x: 2, y: 5 }));
    assert_eq!(kinds(&terminal.take_output()), vec!["show", "move 2,5", "flush"]);
    terminal.draw(SIZE, |frame| frame.set_cursor_position(Position { x: 2, y: 5 }));
    assert!(terminal.take_output().is_empty());
    assert!(!terminal.hidden_cursor);
}

#[test]
fn failed_frame_is_not_shown() {
    let mut terminal = terminal(Rect::new(0, 4, 10, 2));
    let result = terminal.try_draw(SIZE, |frame| {
        letter(frame, 'x');
        Err("no")
    });
    assert_eq!(result, Err("no"));
    assert!(terminal.take_output().is_empty());
    assert_eq!(terminal.try_draw::<_, &str>(SIZE, |_| Ok(())), Ok(()));
    assert!(!terminal.take_output().is_empty());
}

#[test]
fn frame_goes_back_to_its_terminal() {
    let mut terminal = terminal(Rect::new(0, 4, 10, 2));
    let mut frame = terminal.get_frame();
    letter(&mut frame, 'q');
    frame.set_cursor_position(Position { x: 1, y: 4 });
    assert_eq!(terminal.put_frame(frame), Some(Position { x: 1, y: 4 }));
    assert!(terminal.flush());
    terminal.swap_buffers();
    assert_eq!(kinds(&terminal.take_output())[1], "print \"q\"");
}

#[test]
fn rows_move_the_viewport_down_while_there_is_room() {
    let mut terminal = terminal(Rect::new(0, 2, 10, 2));
    terminal.insert_before(3, |rows| {
        rows.set_char(0, 0, 'a', Style::plain());
    });
    assert_eq!(terminal.area(), Rect::new(0, 4, 10, 2));
    assert_eq!(
        kinds(&terminal.take_output()),
        vec!["down 2-5 by 2", "draw 20 at row 2", "up 0-3 by 1", "draw 10 at row 3"]
    );
}

#[test]
fn rows_scroll_out_over_a_viewport_that_fills_the_screen() {
    let mut terminal = terminal(Rect::new(0, 0, 10, 6));
    terminal.insert_before(2, |_| {});
    assert_eq!(terminal.area(), Rect::new(0, 0, 10, 6));
    assert_eq!(
        kinds(&terminal.take_output()),
        vec![
            "draw 10 at row 0",
            "up 0-0 by 1",
            "draw 10 at row 0",
            "up 0-0 by 1",
            "draw 10 at row 0",
        ]
    );
}

#[test]
fn rows_are_pasted_by_scrolling_the_whole_screen() {
    let mut terminal = terminal(Rect::new(0, 4, 10, 2));
    terminal.insert_before_without_scrolling_regions(3, |_| {});
    assert_eq!(terminal.area(), Rect::new(0, 4, 10, 2));
    assert_eq!(
        kinds(&terminal.take_output()),
        vec!["move 0,5", "feed 3", "draw 30 at row 1", "move 0,4", "clear down"]
    );
}

#[test]
fn nothing_is_inserted_for_no_rows() {
    let mut terminal = terminal(Rect::new(0, 4, 10, 2));
    terminal.insert_before(0, |_| panic!("nothing is to be drawn"));
    let mut narrow = Terminal::with_options(SIZE, None);
    narrow.insert_before(3, |_| panic!("nothing is to be drawn"));
    assert!(narrow.take_output().is_empty());
    insert_history_lines(&mut terminal, Vec::new());
    assert!(terminal.take_output().is_empty());
}

#[test]
fn rows_need_room_above_or_below() {
    assert!(can_insert_above(Rect::new(0, 0, 10, 6), SIZE));
    assert!(can_insert_above(Rect::new(0, 0, 10, 5), SIZE));
    assert!(can_insert_above(Rect::new(0, 1, 10, 7), SIZE));
    assert!(!can_insert_above(Rect::new(0, 0, 10, 7), SIZE));
    assert!(!can_insert_above(Rect::new(0, 0, 10, 0), Size { width: 10, height: 0 }));
}

#[test]
fn visible_history_is_counted_up_to_the_viewport() {
    let mut terminal = terminal(Rect::new(0, 2, 10, 4));
    insert_history_lines(&mut terminal, vec![Line::raw("a"), Line::raw("b"), Line::raw("c")]);
    assert_eq!(terminal.visible_history_rows(), 2);
    terminal.set_viewport_area(Rect::new(0, 1, 10, 5));
    assert_eq!(terminal.visible_history_rows(), 1);
}

#[test]
fn cursor_returns_after_history() {
    let mut terminal = terminal(Rect::new(0, 4, 10, 2));
    terminal.set_cursor_position(Position { x: 7, y: 5 });
    terminal.take_output();
    insert_history_lines(&mut terminal, vec![Line::raw("a")]);
    assert_eq!(
        kinds(&terminal.take_output()),
        vec!["up 0-3 by 1", "draw 10 at row 3", "move 7,5"]
    );
}

#[test]
fn viewport_is_left_below_its_last_row() {
    let mut low = terminal(Rect::new(0, 4, 10, 2));
    low.leave_viewport(SIZE);
    assert_eq!(kinds(&low.take_output()), vec!["move 0,5", "print \"\\n\"", "hand over"]);
    let mut high = terminal(Rect::new(0, 1, 10, 2));
    high.leave_viewport(SIZE);
    assert_eq!(kinds(&high.take_output()), vec!["move 0,3", "hand over"]);
    let mut none = Terminal::with_options(SIZE, None);
    none.leave_viewport(SIZE);
    assert!(none.take_output().is_empty());
}

#[test]
fn viewport_grows_up_from_the_last_row() {
    let mut terminal = terminal(Rect::new(0, 4, 10, 2));
    update_inline_viewport(&mut terminal, 4, SIZE);
    assert_eq!(terminal.area(), Rect::new(0, 2, 10, 4));
    assert_eq!(kinds(&terminal.take_output()), vec!["up 0-3 by 2"]);
}

#[test]
fn viewport_shrinks_to_the_last_row() {
    let mut terminal = terminal(Rect::new(0, 2, 10, 4));
    update_inline_viewport(&mut terminal, 1, SIZE);
    assert_eq!(terminal.area(), Rect::new(0, 5, 10, 1));
    assert!(terminal.take_output().is_empty());
}

#[test]
fn viewport_above_the_last_row_shrinks_with_a_clear() {
    let mut terminal = terminal(Rect::new(0, 1, 10, 3));
    update_inline_viewport(&mut terminal, 2, SIZE);
    assert_eq!(terminal.area(), Rect::new(0, 1, 10, 2));
    assert_eq!(kinds(&terminal.take_output()), vec!["move 0,1", "clear down"]);
}

#[test]
fn viewport_is_no_higher_than_the_screen() {
    let mut terminal = terminal(Rect::new(0, 4, 10, 2));
    update_inline_viewport(&mut terminal, 99, SIZE);
    assert_eq!(terminal.area(), Rect::new(0, 0, 10, 6));
    assert_eq!(kinds(&terminal.take_output()), vec!["up 0-3 by 4"]);
}

#[test]
fn viewport_follows_the_cursor_of_a_resized_screen() {
    let mut terminal = terminal(Rect::new(0, 3, 10, 2));
    terminal.set_cursor_position(Position { x: 0, y: 4 });
    let size = Size { width: 10, height: 8 };
    let cursor = Some(Position { x: 0, y: 6 });
    assert_eq!(
        pending_viewport_area(&terminal, Screen { size, cursor }),
        Some(Rect::new(0, 5, 10, 2))
    );
    assert_eq!(pending_viewport_area(&terminal, Screen { size: SIZE, cursor }), None);
    assert_eq!(pending_viewport_area(&terminal, Screen { size, cursor: None }), None);
    let same_row = Some(Position { x: 9, y: 4 });
    assert_eq!(pending_viewport_area(&terminal, Screen { size, cursor: same_row }), None);
}

#[test]
fn drawing_is_one_update() {
    let mut viewport = InlineViewport::new(terminal(Rect::new(0, 4, 10, 2)));
    viewport.draw(screen(SIZE), 2, |frame| letter(frame, 'x'));
    let ops = kinds(&viewport.terminal_mut().take_output());
    assert_eq!(ops.first().map(String::as_str), Some("begin"));
    assert_eq!(ops[ops.len() - 2..], ["end".to_string(), "hand over".to_string()]);
    assert_eq!(ops.iter().filter(|op| *op == "begin" || *op == "end").count(), 2);

    viewport.draw(screen(SIZE), 2, |frame| letter(frame, 'x'));
    assert_eq!(kinds(&viewport.terminal_mut().take_output()), vec!["begin", "end", "hand over"]);
}

#[test]
fn failed_drawing_still_inserts_the_pending_history() {
    let mut viewport = InlineViewport::new(terminal(Rect::new(0, 4, 10, 2)));
    viewport.commit(vec![Line::raw("a")]);
    let result = viewport.try_draw(screen(SIZE), 2, |_| Err("no"));
    assert_eq!(result, Err("no"));
    assert_eq!(
        kinds(&viewport.terminal_mut().take_output()),
        vec!["begin", "up 0-3 by 1", "draw 10 at row 3", "move 0,0", "end", "hand over"]
    );
    assert_eq!(viewport.try_draw::<_, &str>(screen(SIZE), 2, |_| Ok(())), Ok(()));
    let ops = kinds(&viewport.terminal_mut().take_output());
    assert!(!ops.iter().any(|op| op.starts_with("up")));
}

#[test]
fn drawing_needs_room_for_the_pending_history() {
    let mut viewport = InlineViewport::new(terminal(Rect::new(0, 4, 10, 2)));
    let grown = Size { width: 10, height: 8 };
    assert!(viewport.can_draw(screen(grown), 8));
    viewport.insert_history_lines(vec![Line::raw("a")]);
    assert!(viewport.can_draw(screen(SIZE), 6));
    assert!(!viewport.can_draw(screen(grown), 8));
    assert!(!viewport.can_draw(screen(Size { width: 10, height: 65535 }), 2));
}

#[test]
fn tail_needs_room_for_its_overflow() {
    let viewport = InlineViewport::new(terminal(Rect::new(0, 4, 10, 2)));
    let state = ScrollbackTailState::new();
    let grown = Size { width: 10, height: 8 };
    assert!(viewport.can_draw_tail(screen(SIZE), &state, 9, 1));
    assert!(viewport.can_draw_tail(screen(grown), &state, 7, 1));
    assert!(!viewport.can_draw_tail(screen(grown), &state, 9, 1));
    assert!(viewport.can_finish_tail(SIZE, &state, 9, 1));
}

#[test]
fn tail_state_counts_committed_rows() {
    let mut viewport = InlineViewport::new(terminal(Rect::new(0, 4, 10, 2)));
    let mut state = ScrollbackTailState::new();
    assert_eq!(state.committed_rows(), 0);
    assert_eq!(state, ScrollbackTailState::default());
    let source = lilterm::buffer::Buffer::empty(Rect::new(0, 0, 10, 12));
    viewport.draw_tail_buffer(screen(SIZE), &mut state, &source, 9, 1);
    assert_eq!(state.committed_rows(), 4);
    viewport.draw_tail_buffer(screen(SIZE), &mut state, &source, 11, 1);
    assert_eq!(state.committed_rows(), 6);
    viewport.draw_tail_buffer(screen(SIZE), &mut state, &source, 8, 1);
    assert_eq!(state.committed_rows(), 6);
    let narrow = Size { width: 8, height: 6 };
    let narrow_source = lilterm::buffer::Buffer::empty(Rect::new(0, 0, 8, 12));
    viewport.draw_tail_buffer(screen(narrow), &mut state, &narrow_source, 8, 1);
    assert_eq!(state.committed_rows(), 3);
    state.reset();
    assert_eq!(state.committed_rows(), 0);
}

#[test]
fn copies_of_a_viewport_are_told_apart() {
    let mut viewport = InlineViewport::new(terminal(Rect::new(0, 4, 10, 2)));
    viewport.insert_history_lines(vec![Line::raw("a")]);
    let mut copy = viewport.clone();
    copy.draw(screen(SIZE), 2, |frame| letter(frame, 'x'));
    assert!(!copy.terminal_mut().take_output().is_empty());
    assert!(viewport.terminal_mut().take_output().is_empty());
    assert_eq!(viewport.terminal().visible_history_rows(), 0);
    assert_eq!(copy.terminal().visible_history_rows(), 1);
}
