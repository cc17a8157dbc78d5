//! The parts of the library one by one.

use lilterm::buffer::clear_measurement_marks;
use lilterm::buffer::copy_buffer_rows_to_area;
use lilterm::buffer::mark_buffer_invalid;
use lilterm::buffer::mark_measurement_buffer;
use lilterm::buffer::remap_buffer_to_area;
use lilterm::buffer::touched_height;
use lilterm::buffer::Buffer;
use lilterm::buffer::Cell;
use lilterm::buffer::MEASUREMENT_MARK;
use lilterm::command::outcome;
use lilterm::command::resume_at;
use lilterm::command::Attribute;
use lilterm::command::Op;
use lilterm::command::OpOf;
use lilterm::command::ResetScrollRegion;
use lilterm::command::ScrollDownInRegion;
use lilterm::command::ScrollUpInRegion;
use lilterm::command::SetScrollRegion;
use lilterm::diff::diff_buffers;
use lilterm::diff::is_invalidated_cell;
use lilterm::diff::DrawCommand;
use lilterm::diff::DrawCommandOf;
use lilterm::draw::ModifierDiff;
use lilterm::geometry::Position;
use lilterm::geometry::Rect;
use lilterm::geometry::Size;
use lilterm::history::physical_rows;
use lilterm::history::render_lines_to_buffer;
use lilterm::history::InsertHistoryMode;
use lilterm::layout::measure_layout;
use lilterm::layout::measured_layout;
use lilterm::layout::LayoutError;
use lilterm::layout::LayoutFrame;
use lilterm::layout::Region;
use lilterm::layout::DEFAULT_INLINE_MAX_HEIGHT;
use lilterm::session::check_terminals;
use lilterm::session::emergency_restore;
use lilterm::session::restore;
use lilterm::session::set_modes;
use lilterm::session::started;
use lilterm::session::Modes;
use lilterm::session::Session;
use lilterm::session::StartError;
use lilterm::style::color_to_crossterm;
use lilterm::style::Color;
use lilterm::style::Modifier;
use lilterm::style::Style;
use lilterm::style::TermColor;
use lilterm::style::BOLD;
use lilterm::style::DIM;
use lilterm::style::ITALIC;
use lilterm::style::REVERSED;
use lilterm::style::SLOW_BLINK;
use lilterm::style::UNDERLINED;
use lilterm::text::display_width;
use lilterm::text::Line;
use lilterm::text::Span;
use lilterm::trace::configured_path;
use lilterm::trace::enabled;
use lilterm::trace::log;
use lilterm::trace::log_changed;
use lilterm::trace::Trace;

fn text(buffer: &Buffer, y: u16) -> String {
    let w = buffer.area.width as usize;
    let start = (y - buffer.area.y) as usize * w;
    buffer.content[start..start + w].iter().map(|cell| cell.symbol.as_str()).collect()
}

fn write(buffer: &mut Buffer, x: u16, y: u16, chars: &str) {
    let mut x = x;
    for ch in chars.chars() {
        buffer.set_char(x, y, ch, Style::plain());
        x += display_width(&ch.to_string()) as u16;
    }
}

fn puts(commands: &[DrawCommand]) -> Vec<(u16, u16, String)> {
    commands
        .iter()
        .filter_map(|command| match command {
            DrawCommandOf::Put { x, y, cell } => Some((*x, *y, cell.symbol.clone())),
            DrawCommandOf::ClearToEnd { .. } => None,
        })
        .collect()
}

fn clears(commands: &[DrawCommand]) -> Vec<(u16, u16, Color)> {
    commands
        .iter()
        .filter_map(|command| match command {
            DrawCommandOf::Put { .. } => None,
            DrawCommandOf::ClearToEnd { x, y, bg } => Some((*x, *y, *bg)),
        })
        .collect()
}

#[test]
fn rect_is_cut_to_the_range_of_its_coordinates() {
    assert_eq!(Rect::new(65530, 2, 10, 3), Rect { x: 65530, y: 2, width: 5, height: 3 });
    assert_eq!(Rect::new(1, 2, 3, 4).right(), 4);
    assert_eq!(Rect::new(1, 2, 3, 4).bottom(), 6);
    assert!(Rect::new(1, 2, 0, 4).is_empty());
    assert!(!Rect::new(1, 2, 3, 4).is_empty());
    assert_eq!(Rect::new(1, 2, 3, 4).as_position(), Position { x: 1, y: 2 });
}

#[test]
fn rect_moves_no_further_than_its_coordinates_reach() {
    let area = Rect::new(0, 4, 10, 3);
    assert_eq!(area.offset(2).y, 6);
    assert_eq!(area.offset(-9).y, 0);
    assert_eq!(area.offset(70000).y, 65532);
}

#[test]
fn colors_have_their_terminal_names() {
    assert_eq!(color_to_crossterm(Color::Red), TermColor::DarkRed);
    assert_eq!(color_to_crossterm(Color::LightRed), TermColor::Red);
    assert_eq!(color_to_crossterm(Color::Gray), TermColor::Grey);
    assert_eq!(color_to_crossterm(Color::DarkGray), TermColor::DarkGrey);
    assert_eq!(color_to_crossterm(Color::Rgb(1, 2, 3)), TermColor::Rgb { r: 1, g: 2, b: 3 });
    assert_eq!(color_to_crossterm(Color::Indexed(7)), TermColor::AnsiValue(7));
}

#[test]
fn patched_style_takes_what_the_other_gives() {
    let base = Style { fg: Some(Color::Red), add_modifier: Modifier { bits: BOLD }, ..Style::plain() };
    let over = Style {
        bg: Some(Color::Blue),
        sub_modifier: Modifier { bits: BOLD },
        ..Style::plain()
    };
    let patched = base.patch(over);
    assert_eq!(patched.fg, Some(Color::Red));
    assert_eq!(patched.bg, Some(Color::Blue));
    assert_eq!(patched.add_modifier, Modifier { bits: 0 });
    assert_eq!(patched.sub_modifier, Modifier { bits: BOLD });
}

#[test]
fn display_width_counts_columns_and_leaves_links_out() {
    assert_eq!(display_width(""), 0);
    assert_eq!(display_width("abc"), 3);
    assert_eq!(display_width("中文"), 4);
    assert_eq!(display_width("\u{1b}]8;;http://x\u{7}link\u{1b}]8;;\u{7}"), 4);
    assert_eq!(display_width("a\u{1b}]never ends"), 1);
}

#[test]
fn wide_character_covers_two_cells() {
    let mut buffer = Buffer::empty(Rect::new(0, 0, 4, 1));
    write(&mut buffer, 0, 0, "abcd");
    buffer.set_char(1, 0, '中', Style::plain());
    assert_eq!(buffer.content[1].symbol, "中");
    assert_eq!(buffer.content[2].symbol, " ");
    assert_eq!(buffer.content[3].symbol, "d");
    buffer.set_char(3, 0, '文', Style::plain());
    assert_eq!(buffer.content[3].symbol, "d");
}

#[test]
fn styled_character_keeps_what_the_style_does_not_name() {
    let mut buffer = Buffer::empty(Rect::new(0, 0, 1, 1));
    let red = Style { fg: Some(Color::Red), ..Style::plain() };
    buffer.set_char(0, 0, 'x', red);
    buffer.set_char(0, 0, 'y', Style { bg: Some(Color::Blue), ..Style::plain() });
    assert_eq!(buffer.content[0].symbol, "y");
    assert_eq!(buffer.content[0].fg, Color::Red);
    assert_eq!(buffer.content[0].bg, Color::Blue);
}

#[test]
fn remapped_buffer_keeps_the_cells_of_both_places() {
    let mut buffer = Buffer::empty(Rect::new(0, 2, 3, 2));
    write(&mut buffer, 0, 2, "abc");
    write(&mut buffer, 0, 3, "def");
    remap_buffer_to_area(&mut buffer, Rect::new(0, 3, 3, 2));
    assert_eq!(text(&buffer, 3), "def");
    assert_eq!(text(&buffer, 4), "   ");
}

#[test]
fn buffer_that_is_remapped_and_back_is_as_it_was() {
    let mut buffer = Buffer::empty(Rect::new(1, 2, 3, 2));
    write(&mut buffer, 1, 2, "abc");
    write(&mut buffer, 1, 3, "def");
    let before = buffer.clone();
    remap_buffer_to_area(&mut buffer, Rect::new(0, 0, 7, 9));
    assert_eq!(text(&buffer, 3), " def   ");
    remap_buffer_to_area(&mut buffer, Rect::new(1, 2, 3, 2));
    assert_eq!(buffer, before);
}

#[test]
fn resized_buffer_keeps_the_order_of_its_cells() {
    let mut buffer = Buffer::empty(Rect::new(0, 0, 3, 2));
    write(&mut buffer, 0, 0, "abc");
    write(&mut buffer, 0, 1, "def");
    buffer.resize(Rect::new(0, 5, 2, 2));
    assert_eq!(text(&buffer, 5), "ab");
    assert_eq!(text(&buffer, 6), "cd");
    buffer.resize(Rect::new(0, 5, 2, 3));
    assert_eq!(text(&buffer, 7), "  ");
}

#[test]
fn copied_rows_end_where_the_source_or_the_area_ends() {
    let mut source = Buffer::empty(Rect::new(0, 0, 2, 3));
    write(&mut source, 0, 0, "ab");
    write(&mut source, 0, 1, "cd");
    write(&mut source, 0, 2, "ef");
    let mut target = Buffer::empty(Rect::new(0, 10, 3, 4));
    copy_buffer_rows_to_area(&source, 1, Rect::new(1, 11, 2, 3), &mut target);
    assert_eq!(text(&target, 10), "   ");
    assert_eq!(text(&target, 11), " cd");
    assert_eq!(text(&target, 12), " ef");
    assert_eq!(text(&target, 13), "   ");
}

#[test]
fn touched_height_ends_at_the_last_drawn_row() {
    let area = Rect::new(0, 0, 4, 5);
    let mut buffer = Buffer::empty(area);
    mark_measurement_buffer(&mut buffer);
    assert_eq!(touched_height(&buffer, area), 0);
    buffer.set_char(2, 3, ' ', Style::plain());
    assert_eq!(touched_height(&buffer, area), 4);
    assert_eq!(touched_height(&buffer, Rect::new(0, 0, 2, 5)), 0);
    assert_eq!(touched_height(&buffer, Rect::new(0, 2, 4, 3)), 2);
    clear_measurement_marks(&mut buffer);
    assert!(buffer.content.iter().all(|cell| cell.symbol != MEASUREMENT_MARK.to_string()));
}

#[test]
fn places_and_cells_of_a_buffer() {
    let mut buffer = Buffer::empty(Rect::new(3, 4, 2, 2));
    buffer.set_char(4, 5, 'z', Style::plain());
    assert_eq!(buffer.pos_of(3), Position { x: 4, y: 5 });
    assert_eq!(buffer.cell(Position { x: 4, y: 5 }).map(|cell| cell.symbol.clone()), Some("z".to_string()));
    assert!(buffer.cell(Position { x: 5, y: 5 }).is_none());
    let copy = buffer.clone();
    assert!(copy.content[3].same(&buffer.content[3]));
    buffer.reset();
    assert!(!copy.content[3].same(&buffer.content[3]));
}

#[test]
fn scrolling_commands_have_their_control_sequences() {
    let up = ScrollUpInRegion { first_row: 0, last_row: 9, lines_to_scroll: 12 };
    assert_eq!(up.write_ansi(), "\u{1b}[1;10r\u{1b}[12S\u{1b}[r");
    let down = ScrollDownInRegion { first_row: 4, last_row: 6, lines_to_scroll: 1 };
    assert_eq!(down.write_ansi(), "\u{1b}[5;7r\u{1b}[1T\u{1b}[r");
    let none = ScrollDownInRegion { first_row: 4, last_row: 6, lines_to_scroll: 0 };
    assert_eq!(none.write_ansi(), "");
    assert_eq!(SetScrollRegion(3..65535).write_ansi(), "\u{1b}[3;65535r");
    assert_eq!(ResetScrollRegion.write_ansi(), "\u{1b}[r");
}

#[test]
fn failed_operation_still_ends_its_update() {
    let ops: Vec<Op> = vec![
        OpOf::Hide,
        OpOf::BeginSynchronizedUpdate,
        OpOf::Show,
        OpOf::Hide,
        OpOf::EndSynchronizedUpdate,
        OpOf::FlushWriter,
    ];
    assert_eq!(resume_at(&ops, 0), 6);
    assert_eq!(resume_at(&ops, 1), 6);
    assert_eq!(resume_at(&ops, 2), 4);
    assert_eq!(resume_at(&ops, 3), 4);
    assert_eq!(resume_at(&ops, 4), 6);
    assert_eq!(resume_at(&ops, 5), 6);
}

#[test]
fn first_error_counts() {
    assert_eq!(outcome::<&str>(Ok(()), Ok(()), Ok(())), Ok(()));
    assert_eq!(outcome(Ok(()), Err("b"), Err("c")), Err("b"));
    assert_eq!(outcome(Err("a"), Err("b"), Ok(())), Err("a"));
    assert_eq!(outcome(Ok(()), Ok(()), Err("c")), Err("c"));
}

#[test]
fn changed_cells_are_put_and_stale_ends_cleared() {
    let area = Rect::new(0, 3, 6, 2);
    let mut previous = Buffer::empty(area);
    let mut next = Buffer::empty(area);
    write(&mut previous, 0, 3, "abcdef");
    write(&mut next, 0, 3, "axc");
    write(&mut next, 0, 4, "new");
    let commands = diff_buffers(&previous, &next);
    assert_eq!(clears(&commands), vec![(3, 3, Color::Reset)]);
    assert_eq!(
        puts(&commands),
        vec![
            (1, 3, "x".to_string()),
            (0, 4, "n".to_string()),
            (1, 4, "e".to_string()),
            (2, 4, "w".to_string()),
        ]
    );
    assert!(commands[0].is_put() == false);
}

#[test]
fn narrow_text_over_a_wide_one_is_put_behind_it_too() {
    let area = Rect::new(0, 0, 6, 1);
    let mut previous = Buffer::empty(area);
    let mut next = Buffer::empty(area);
    write(&mut previous, 0, 0, "中xy");
    write(&mut next, 0, 0, "a xy");
    let commands = diff_buffers(&previous, &next);
    assert_eq!(puts(&commands), vec![(0, 0, "a".to_string()), (1, 0, " ".to_string())]);
}

#[test]
fn shown_buffer_needs_no_change() {
    let area = Rect::new(0, 2, 8, 3);
    let mut buffer = Buffer::empty(area);
    write(&mut buffer, 0, 2, "a中b");
    write(&mut buffer, 3, 4, "文");
    assert!(diff_buffers(&buffer, &buffer).is_empty());
    let mut invalid = buffer.clone();
    mark_buffer_invalid(&mut invalid);
    assert!(invalid.content.iter().all(|cell| is_invalidated_cell(cell)));
    assert!(!diff_buffers(&invalid, &buffer).is_empty());
}

#[test]
fn shown_buffer_with_styles_behind_wide_texts_needs_no_change() {
    let mut buffer = Buffer::empty(Rect::new(0, 0, 6, 1));
    write(&mut buffer, 0, 0, "中文a");
    for cell in buffer.content.iter_mut() {
        cell.bg = Color::Red;
        cell.modifier = Modifier { bits: BOLD };
    }
    buffer.content[5].set_symbol(String::new());
    buffer.content[4].skip = true;
    assert!(diff_buffers(&buffer, &buffer).is_empty());
}

#[test]
fn row_ends_in_its_last_background() {
    let area = Rect::new(0, 0, 5, 1);
    let previous = Buffer::empty(area);
    let mut next = Buffer::empty(area);
    for cell in next.content.iter_mut() {
        cell.bg = Color::Blue;
    }
    next.content[0].set_symbol("x".to_string());
    let commands = diff_buffers(&previous, &next);
    assert_eq!(clears(&commands), vec![(1, 0, Color::Blue)]);
    assert_eq!(puts(&commands), vec![(0, 0, "x".to_string())]);
}

fn attributes(from: u16, to: u16) -> Vec<Attribute> {
    let mut ops: Vec<Op> = Vec::new();
    ModifierDiff { from: Modifier { bits: from }, to: Modifier { bits: to } }.queue(&mut ops);
    ops.iter()
        .map(|op| match op {
            OpOf::SetAttribute(attribute) => *attribute,
            _ => panic!("only attributes are switched"),
        })
        .collect()
}

#[test]
fn modifiers_are_ended_and_started() {
    assert_eq!(attributes(0, BOLD | REVERSED), vec![Attribute::Reverse, Attribute::Bold]);
    assert_eq!(attributes(ITALIC | UNDERLINED, UNDERLINED), vec![Attribute::NoItalic]);
    assert_eq!(
        attributes(BOLD | DIM, DIM),
        vec![Attribute::NormalIntensity, Attribute::Dim]
    );
    assert_eq!(attributes(SLOW_BLINK, 0), vec![Attribute::NoBlink]);
    assert_eq!(attributes(BOLD, BOLD), vec![]);
}

#[test]
fn history_modes_for_multiplexers() {
    assert_eq!(InsertHistoryMode::new(true), InsertHistoryMode::Zellij);
    assert_eq!(InsertHistoryMode::new(false), InsertHistoryMode::Standard);
}

#[test]
fn lines_take_the_rows_that_their_columns_fill() {
    let lines = vec![Line::raw(""), Line::raw("abcde"), Line::raw("中中中"), Line::raw("abcdef")];
    assert_eq!(physical_rows(&lines, 5), 1 + 1 + 2 + 2);
    assert_eq!(physical_rows(&lines, 0), 1 + 5 + 6 + 6);
    assert_eq!(physical_rows(&Vec::new(), 5), 0);
}

#[test]
fn lines_are_written_one_below_the_other() {
    let mut buffer = Buffer::empty(Rect::new(0, 0, 4, 5));
    let lines = vec![Line::raw("abcdef"), Line::raw("x"), Line::raw("中中中")];
    render_lines_to_buffer(&mut buffer, &lines, 4);
    assert_eq!(text(&buffer, 0), "abcd");
    assert_eq!(text(&buffer, 1), "ef  ");
    assert_eq!(text(&buffer, 2), "x   ");
    assert_eq!(text(&buffer, 3), "中 中 ");
    assert_eq!(text(&buffer, 4), "中   ");
}

#[test]
fn line_feed_starts_a_row_within_the_rows_of_its_line() {
    let mut buffer = Buffer::empty(Rect::new(0, 0, 3, 4));
    let lines = vec![Line::raw("ab\ncd\ref"), Line::raw("z")];
    render_lines_to_buffer(&mut buffer, &lines, 3);
    assert_eq!(text(&buffer, 0), "ab ");
    assert_eq!(text(&buffer, 1), "cd ");
    assert_eq!(text(&buffer, 2), "ef ");
    assert_eq!(text(&buffer, 3), "z  ");
}

#[test]
fn characters_without_columns_are_left_out() {
    let mut buffer = Buffer::empty(Rect::new(0, 0, 4, 1));
    render_lines_to_buffer(&mut buffer, &vec![Line::raw("a\u{300}\tb")], 4);
    assert_eq!(text(&buffer, 0), "ab  ");
}

#[test]
fn spans_lie_on_the_style_of_their_line() {
    let mut buffer = Buffer::empty(Rect::new(0, 0, 2, 1));
    let line = Line {
        spans: vec![
            Span { content: "a".to_string(), style: Style::plain() },
            Span {
                content: "b".to_string(),
                style: Style { fg: Some(Color::Green), ..Style::plain() },
            },
        ],
        style: Style { fg: Some(Color::Red), bg: Some(Color::Blue), ..Style::plain() },
    };
    render_lines_to_buffer(&mut buffer, &vec![line.clone()], 2);
    assert_eq!(buffer.content[0].fg, Color::Red);
    assert_eq!(buffer.content[1].fg, Color::Green);
    assert_eq!(buffer.content[1].bg, Color::Blue);
}

#[test]
fn lines_below_the_buffer_are_left_out() {
    let mut buffer = Buffer::empty(Rect::new(0, 0, 2, 1));
    render_lines_to_buffer(&mut buffer, &vec![Line::raw("abcd"), Line::raw("ef")], 2);
    assert_eq!(text(&buffer, 0), "ab");
}

#[test]
fn lines_fill_the_first_columns_of_a_buffer_and_nothing_else() {
    let mut buffer = Buffer::empty(Rect::new(3, 2, 5, 4));
    for cell in buffer.content.iter_mut() {
        cell.set_symbol(".".to_string());
    }
    render_lines_to_buffer(&mut buffer, &vec![Line::raw("abcdefg"), Line::raw("hi")], 3);
    assert_eq!(text(&buffer, 2), "abc..");
    assert_eq!(text(&buffer, 3), "def..");
    assert_eq!(text(&buffer, 4), "g....");
    assert_eq!(text(&buffer, 5), "hi...");
    let mut short = Buffer::empty(Rect::new(3, 2, 5, 2));
    render_lines_to_buffer(&mut short, &vec![Line::raw("abcdefg"), Line::raw("hi")], 3);
    assert_eq!(text(&short, 2), "abc  ");
    assert_eq!(text(&short, 3), "def  ");
}

#[test]
fn regions_that_fill_all_rows_that_can_be_counted_are_measured() {
    let size = Size { width: 1, height: 10 };
    let regions = [Region::inline_max(65533), Region::pinned_bottom(2)];
    let measured = measure_layout(size, &regions, |frame: &mut LayoutFrame| {
        let first = frame.area(0);
        let last = frame.area(1);
        assert_eq!((first.y, first.height, last.y, last.height), (0, 65533, 65533, 2));
        frame.buffer_mut().content[1].set_symbol("a".to_string());
        frame.buffer_mut().content[65533].set_symbol("b".to_string());
    })
    .unwrap();
    assert_eq!((measured.scrollback_height, measured.pinned_bottom_height), (2, 2));
    assert_eq!(text(&measured.buffer, 1), "a");
    assert_eq!(text(&measured.buffer, 2), "b");
}

#[test]
fn regions_are_bounded_as_said() {
    assert_eq!(
        Region::inline(),
        Region::Inline { min_height: 0, max_height: DEFAULT_INLINE_MAX_HEIGHT }
    );
    assert_eq!(Region::inline_min(1), Region::Inline { min_height: 1, max_height: 2000 });
    assert_eq!(Region::inline_min(3000), Region::Inline { min_height: 3000, max_height: 3000 });
    assert_eq!(Region::inline_max(7), Region::Inline { min_height: 0, max_height: 7 });
    assert_eq!(Region::pinned_bottom(2), Region::PinnedBottom { height: 2 });
}

#[test]
fn regions_are_measured_by_what_is_drawn() {
    let size = Size { width: 4, height: 10 };
    let regions =
        [Region::inline(), Region::inline_min(2), Region::inline_max(1), Region::pinned_bottom(3)];
    let measured = measure_layout(size, &regions, |frame: &mut LayoutFrame| {
        assert_eq!(frame.areas().len(), 4);
        for (index, rows) in [(0usize, 3u16), (1, 1), (2, 1), (3, 2)] {
            let area = frame.area(index);
            for y in 0..rows {
                let ch = (b'a' + index as u8) as char;
                frame.buffer_mut().set_char(area.x + y, area.y + y, ch, Style::plain());
            }
        }
    })
    .unwrap();
    assert_eq!(measured.scrollback_height, 3 + 2 + 1);
    assert_eq!(measured.pinned_bottom_height, 3);
    let rows: Vec<String> = (0..9).map(|y| text(&measured.buffer, y)).collect();
    assert_eq!(
        rows,
        vec!["a   ", " a  ", "  a ", "b   ", "    ", "c   ", "d   ", " d  ", "    "]
    );
}

#[test]
fn pinned_rows_are_no_more_than_the_screen_has() {
    let size = Size { width: 2, height: 4 };
    let regions = [Region::pinned_bottom(3), Region::pinned_bottom(3)];
    let measured = measure_layout(size, &regions, |frame: &mut LayoutFrame| {
        assert_eq!(frame.area(0), Rect::new(0, 0, 2, 3));
        assert_eq!(frame.area(1), Rect::new(0, 3, 2, 1));
    })
    .unwrap();
    assert_eq!(measured.pinned_bottom_height, 4);
    assert_eq!(measured.scrollback_height, 0);
}

#[test]
fn inline_region_behind_a_pinned_one_is_refused() {
    let size = Size { width: 2, height: 4 };
    let regions = [Region::pinned_bottom(1), Region::inline()];
    let mut drawn = false;
    let result = measure_layout(size, &regions, |_: &mut LayoutFrame| drawn = true);
    assert_eq!(result.map(|_| ()), Err(LayoutError::InlineAfterPinned));
    assert!(!drawn);
    let empty = Buffer::empty(Rect::new(0, 0, 2, 1));
    assert!(measured_layout(size, &regions, empty).is_err());
}

#[test]
fn modes_are_restored_once() {
    let mut modes = Modes { needs_restore: true };
    assert_eq!(restore(&mut modes, || Err("busy")), Err("busy"));
    assert!(modes.needs_restore);
    assert_eq!(restore::<_, &str>(&mut modes, || Ok(())), Ok(()));
    assert!(!modes.needs_restore);
    assert_eq!(restore::<_, &str>(&mut modes, || panic!("nothing is owed")), Ok(()));
    assert!(!modes.needs_restore);
}

#[test]
fn modes_that_cannot_be_set_are_restored_at_once() {
    let mut modes = Modes { needs_restore: false };
    let kept = set_modes::<_, _, &str>(&mut modes, || Ok(()), || panic!("the modes are set"));
    assert_eq!(kept, Ok(()));
    assert!(modes.needs_restore);
    assert_eq!(set_modes(&mut modes, || Err("no raw mode"), || Ok(())), Err("no raw mode"));
    assert!(!modes.needs_restore);
    assert_eq!(set_modes(&mut modes, || Err("enter"), || Err("restore")), Err("enter"));
    assert!(modes.needs_restore);
    emergency_restore::<_, &str>(&mut modes, || Ok(()));
    assert!(!modes.needs_restore);
    emergency_restore::<_, &str>(&mut modes, || panic!("nothing is owed"));
    assert!(!modes.needs_restore);
}

#[test]
fn session_starts_on_terminals_only() {
    assert_eq!(check_terminals(true, true), Ok(()));
    assert_eq!(check_terminals(false, false), Err(StartError::StdinNotTerminal));
    assert_eq!(check_terminals(true, false), Err(StartError::StdoutNotTerminal));
    assert_eq!(StartError::StdinNotTerminal.message(), "stdin is not a terminal");
    assert_eq!(StartError::StdoutNotTerminal.message(), "stdout is not a terminal");
}

#[test]
fn session_without_a_viewport_has_its_modes_restored() {
    let mut modes = Modes { needs_restore: true };
    let session = started::<u8, _, &str>(&mut modes, Ok(7), || panic!("the session goes on"));
    assert_eq!(session.map(|session| *session.viewport()).ok(), Some(7));
    assert!(modes.needs_restore);
    let failed = started::<u8, _, &str>(&mut modes, Err("no terminal"), || Err("busy"));
    assert_eq!(failed.map(|_| ()), Err("no terminal"));
    assert!(modes.needs_restore);
    let failed = started::<u8, _, &str>(&mut modes, Err("no terminal"), || Ok(()));
    assert_eq!(failed.map(|_| ()), Err("no terminal"));
    assert!(!modes.needs_restore);
    let failed =
        started::<u8, _, &str>(&mut modes, Err("no terminal"), || panic!("nothing is owed"));
    assert_eq!(failed.map(|_| ()), Err("no terminal"));
}

#[test]
fn finished_session_restores_nothing_more() {
    let mut session = Session::start(7u8);
    *session.viewport_mut() += 1;
    assert_eq!(*session.viewport(), 8);
    assert!(session.restores_on_drop());
    assert_eq!(session.finish(Ok(()), Err("restore")), Err("restore"));
    assert!(session.restores_on_drop());
    assert_eq!(session.finish(Err("leave"), Ok(())), Err("leave"));
    assert!(!session.restores_on_drop());
}

#[test]
fn environment_names_the_trace() {
    assert_eq!(configured_path(None), None);
    assert_eq!(configured_path(Some("")), None);
    assert_eq!(configured_path(Some(" \t")), None);
    assert_eq!(configured_path(Some("0")), None);
    assert_eq!(configured_path(Some("FALSE")), None);
    let fixed = Some("/tmp/lilterm-trace.log".to_string());
    assert_eq!(configured_path(Some("1")), fixed);
    assert_eq!(configured_path(Some("\u{3000}True\n")), fixed);
    assert_eq!(configured_path(Some(" /var/log/x y ")), Some("/var/log/x y".to_string()));
}

#[test]
fn trace_line_has_its_time_and_process() {
    let trace = Trace::new(Some("trace.log"));
    assert!(enabled(&trace));
    assert_eq!(trace.path(), Some("trace.log"));
    assert_eq!(log(&trace, 1700000000123, 42, "hello"), Some("1700000000123 pid=42 hello\n".to_string()));
    let silent = Trace::new(None);
    assert!(!enabled(&silent));
    assert_eq!(log(&silent, 1, 2, "hello"), None);
}

#[test]
fn repeated_message_is_written_once() {
    let mut trace = Trace::new(Some("trace.log"));
    assert_eq!(log_changed(&mut trace, "a", "one", 5, 6), Some("5 pid=6 a one\n".to_string()));
    assert_eq!(log_changed(&mut trace, "a", "one", 5, 6), None);
    assert_eq!(log_changed(&mut trace, "b", "one", 5, 6), Some("5 pid=6 b one\n".to_string()));
    assert_eq!(log_changed(&mut trace, "a", "two", 5, 6), Some("5 pid=6 a two\n".to_string()));
    assert_eq!(log_changed(&mut trace, "a", "one", 5, 6), Some("5 pid=6 a one\n".to_string()));
    let mut silent = Trace::new(Some("false"));
    assert_eq!(log_changed(&mut silent, "a", "one", 5, 6), None);
}

#[test]
fn empty_cell_is_a_space() {
    let cell = Cell::empty();
    assert!(cell.shows(' '));
    assert_eq!(cell.fg, Color::Reset);
    assert_eq!(cell.modifier, Modifier { bits: 0 });
}
