use nyannix::surface::DrawCommand;
use nyannix::ui::commands::{
    lookup, CommandError, CommandKind, Outcome, DIRECTORY_COLOR, ERROR_COLOR,
};
use nyannix::ui::model::{decode_key, Key, Mode};
use nyannix::ui::terminal::Terminal;

fn terminal() -> Terminal {
    Terminal::new(50, 50, 700, 500)
}

fn lines(t: &Terminal) -> Vec<(String, u32)> {
    let b = t.buffer();
    (0..b.len()).map(|i| (b.line(i).text.clone(), b.line(i).color)).collect()
}

fn texts(t: &Terminal) -> Vec<String> {
    lines(t).into_iter().map(|l| l.0).collect()
}

fn type_text(t: &mut Terminal, text: &str) {
    for c in text.chars() {
        t.handle_key(c);
    }
}

fn run(t: &mut Terminal, command: &str) {
    type_text(t, command);
    t.handle_key('\n');
}

fn count(t: &Terminal, text: &str) -> usize {
    texts(t).iter().filter(|l| l.as_str() == text).count()
}

#[test]
fn new_terminal_is_empty_and_has_a_home() {
    let mut t = terminal();
    assert!(lines(&t).is_empty());
    assert_eq!(t.buffer().len(), 0);
    assert_eq!(t.buffer().scroll_offset(), 0);
    assert_eq!(t.copy_selection(), "");
    assert_eq!(t.current_command(), "");
    assert_eq!(t.current_color(), 0);
    assert_eq!(t.mode(), Mode::Normal);
    assert_eq!(t.history_index(), -1);
    assert!(t.command_history().is_empty());
    assert!(t.file_system().current_path().is_empty());
    let listed = t.file_system().list_contents();
    assert_eq!(listed.len(), 1);
    assert_eq!(listed[0].name, "home");
    assert!(listed[0].is_directory);
    assert_eq!(t.buffer().visible_rows(), 19);
    let limited = Terminal::with_capacity(50, 50, 700, 500, 10);
    assert_eq!(limited.buffer().len(), 0);
    assert_eq!(limited.file_system().list_contents().len(), 1);
}

#[test]
fn lookup_knows_the_built_in_commands() {
    assert_eq!(lookup("cd"), Some(CommandKind::Cd));
    assert_eq!(lookup("ls"), Some(CommandKind::Ls));
    assert_eq!(lookup("mkdir"), Some(CommandKind::Mkdir));
    assert_eq!(lookup("touch"), Some(CommandKind::Touch));
    assert_eq!(lookup("cat"), Some(CommandKind::Cat));
    assert_eq!(lookup("echo"), Some(CommandKind::Echo));
    assert_eq!(lookup("color"), Some(CommandKind::Color));
    assert_eq!(lookup("clear"), Some(CommandKind::Clear));
    assert_eq!(lookup("help"), Some(CommandKind::Help));
    assert_eq!(lookup("version"), Some(CommandKind::Version));
    assert_eq!(lookup("LS"), None);
    assert_eq!(lookup("foobar"), None);
    assert_eq!(lookup(""), None);
    assert_eq!(lookup("ls "), None);
}

#[test]
fn decode_key_reads_control_characters() {
    assert_eq!(decode_key('\n'), Key::Enter);
    assert_eq!(decode_key('\r'), Key::Enter);
    assert_eq!(decode_key('\u{08}'), Key::Backspace);
    assert_eq!(decode_key('\u{7f}'), Key::Backspace);
    assert_eq!(decode_key('\u{10}'), Key::Up);
    assert_eq!(decode_key('\u{0e}'), Key::Down);
    assert_eq!(decode_key('\u{01}'), Key::Ignored);
    assert_eq!(decode_key('\t'), Key::Ignored);
    assert_eq!(decode_key(' '), Key::Char(' '));
    assert_eq!(decode_key('a'), Key::Char('a'));
    assert_eq!(decode_key('é'), Key::Char('é'));
}

#[test]
fn nested_file_is_not_listed_in_the_parent() {
    let mut t = terminal();
    run(&mut t, "mkdir docs");
    run(&mut t, "cd docs");
    run(&mut t, "touch notes.txt");
    run(&mut t, "cd ..");
    let before = t.buffer().len();
    run(&mut t, "ls");
    let shown: Vec<(String, u32)> = lines(&t)[before..].to_vec();
    assert_eq!(
        shown,
        vec![
            (String::from("docs/"), DIRECTORY_COLOR),
            (String::from("home/"), DIRECTORY_COLOR),
            (String::from("$ "), 0),
        ]
    );
    assert_eq!(count(&t, "notes.txt"), 0);
    run(&mut t, "cd docs");
    let before = t.buffer().len();
    run(&mut t, "ls");
    assert_eq!(
        lines(&t)[before..].to_vec(),
        vec![(String::from("notes.txt"), 0), (String::from("$ "), 0)]
    );
}

#[test]
fn echo_appends_exactly_one_line() {
    let mut t = terminal();
    let before = texts(&t);
    assert_eq!(t.dispatch("echo hello world"), Outcome::Done);
    let mut expected = before.clone();
    expected.push(String::from("hello world"));
    assert_eq!(texts(&t), expected);
}

#[test]
fn echo_typed_in_appends_its_line_and_a_prompt() {
    let mut t = terminal();
    run(&mut t, "echo hello world");
    assert_eq!(texts(&t), vec!["echo hello world", "hello world", "$ "]);
    run(&mut t, "echo   spaced    out  ");
    assert_eq!(texts(&t)[3..].to_vec(), vec!["spaced out", "$ "]);
    run(&mut t, "echo");
    assert_eq!(texts(&t)[5..].to_vec(), vec!["", "$ "]);
}

#[test]
fn color_changes_the_colour_of_later_output() {
    let mut t = terminal();
    run(&mut t, "color 00ff00");
    assert_eq!(t.current_color(), 0x00FF00);
    run(&mut t, "echo ok");
    let all = lines(&t);
    assert_eq!(all[all.len() - 2], (String::from("ok"), 0x00FF00));
    assert_eq!(all[1], (String::from("Color changed"), 0x00FF00));
}

#[test]
fn color_with_a_bad_argument_prints_an_error_and_keeps_the_colour() {
    let mut t = terminal();
    run(&mut t, "color 00ff00");
    let before = t.buffer().len();
    run(&mut t, "color zz");
    assert_eq!(t.current_color(), 0x00FF00);
    assert_eq!(
        lines(&t)[before..].to_vec(),
        vec![
            (String::from("Invalid color format. Use hex (e.g., 0xFF0000)"), ERROR_COLOR),
            (String::from("$ "), 0x00FF00),
        ]
    );
    let before = t.buffer().len();
    run(&mut t, "color");
    assert_eq!(t.current_color(), 0x00FF00);
    assert_eq!(lines(&t)[before], (String::from("Usage: color <hex>"), ERROR_COLOR));
}

#[test]
fn unknown_command_is_reported_once() {
    let mut t = terminal();
    run(&mut t, "foobar");
    assert_eq!(count(&t, "Unknown command: foobar"), 1);
    assert_eq!(
        lines(&t),
        vec![
            (String::from("foobar"), 0),
            (String::from("Unknown command: foobar"), ERROR_COLOR),
            (String::from("$ "), 0),
        ]
    );
}

#[test]
fn unknown_command_shows_the_line_without_outer_spaces() {
    let mut t = terminal();
    assert_eq!(t.dispatch("  foo  bar  "), Outcome::Failed(CommandError::UnknownCommand));
    assert_eq!(texts(&t), vec!["Unknown command: foo  bar"]);
}

#[test]
fn empty_input_only_gives_a_new_prompt() {
    let mut t = terminal();
    run(&mut t, "");
    assert_eq!(texts(&t), vec!["$ "]);
    run(&mut t, "   ");
    assert_eq!(texts(&t), vec!["$    ", "$ "]);
    assert!(t.command_history().is_empty());
    assert_eq!(t.current_command(), "");
    assert_eq!(t.dispatch(" \t "), Outcome::Empty);
}

#[test]
fn cd_parent_at_the_root_is_silent() {
    let mut t = terminal();
    run(&mut t, "cd ..");
    assert!(t.file_system().current_path().is_empty());
    assert_eq!(texts(&t), vec!["cd ..", "$ "]);
}

#[test]
fn cd_to_a_missing_directory_prints_an_error_and_stays() {
    let mut t = terminal();
    run(&mut t, "cd home");
    assert_eq!(t.file_system().current_path().clone(), vec![String::from("home")]);
    let before = t.buffer().len();
    run(&mut t, "cd x");
    assert_eq!(t.file_system().current_path().clone(), vec![String::from("home")]);
    assert_eq!(
        lines(&t)[before..].to_vec(),
        vec![(String::from("Directory not found: x"), ERROR_COLOR), (String::from("$ "), 0)]
    );
    assert_eq!(t.get_current_directory().ok().map(|d| String::from(d.name())), Some(String::from("home")));
}

#[test]
fn commands_without_their_argument_print_a_usage_line() {
    for (command, usage) in [
        ("cd", "Usage: cd <directory>"),
        ("mkdir", "Usage: mkdir <directory>"),
        ("touch", "Usage: touch <filename>"),
        ("cat", "Usage: cat [file]"),
        ("color", "Usage: color <hex>"),
    ] {
        let mut t = terminal();
        t.dispatch(command);
        assert_eq!(lines(&t), vec![(String::from(usage), ERROR_COLOR)], "{}", command);
    }
}

#[test]
fn cat_prints_the_content_or_an_error() {
    let mut t = terminal();
    t.dispatch("touch empty");
    t.dispatch("cat empty");
    assert!(texts(&t).is_empty());
    t.dispatch("cat missing");
    assert_eq!(lines(&t)[0], (String::from("File not found"), ERROR_COLOR));
    t.dispatch("cat home");
    assert_eq!(lines(&t)[1], (String::from("File not found"), ERROR_COLOR));
    assert_eq!(t.buffer().len(), 2);
}

#[test]
fn touch_makes_an_empty_file_and_mkdir_an_empty_directory() {
    let mut t = terminal();
    t.dispatch("touch a.txt");
    t.dispatch("mkdir work");
    assert_eq!(t.file_system().read_file("a.txt"), Some(String::new()));
    let names: Vec<(String, bool)> =
        t.file_system().list_contents().into_iter().map(|e| (e.name, e.is_directory)).collect();
    assert_eq!(
        names,
        vec![
            (String::from("home"), true),
            (String::from("work"), true),
            (String::from("a.txt"), false)
        ]
    );
    assert!(texts(&t).is_empty());
}

#[test]
fn clear_empties_the_buffer_and_the_selection() {
    let mut t = terminal();
    run(&mut t, "echo one");
    run(&mut t, "echo two");
    t.start_selection(60, 80);
    t.scroll(1);
    run(&mut t, "clear");
    assert_eq!(texts(&t), vec!["$ "]);
    assert_eq!(t.buffer().scroll_offset(), 0);
    assert_eq!(t.copy_selection(), "");
}

#[test]
fn help_and_version_print_their_texts() {
    let mut t = terminal();
    t.dispatch("version");
    assert_eq!(texts(&t), vec!["NyanNix Terminal v0.1.0"]);
    t.dispatch("help");
    let all = texts(&t);
    assert_eq!(all[1], "Available commands:");
    assert_eq!(all.len(), 1 + 11);
    for name in ["cd", "ls", "mkdir", "touch", "cat", "echo", "color", "clear", "help", "version"] {
        assert!(all[2..].iter().any(|l| l.starts_with(name)), "{}", name);
    }
}

#[test]
fn commands_are_case_sensitive() {
    let mut t = terminal();
    t.dispatch("ECHO hi");
    assert_eq!(lines(&t), vec![(String::from("Unknown command: ECHO hi"), ERROR_COLOR)]);
}

#[test]
fn typed_characters_are_echoed_and_backspace_takes_them_back() {
    let mut t = terminal();
    type_text(&mut t, "lsx");
    assert_eq!(t.current_command(), "lsx");
    assert_eq!(texts(&t), vec!["lsx"]);
    t.handle_key('\u{08}');
    assert_eq!(t.current_command(), "ls");
    assert_eq!(texts(&t), vec!["ls"]);
    t.handle_key('\u{7f}');
    t.handle_key('\u{08}');
    assert_eq!(t.current_command(), "");
    assert_eq!(texts(&t), vec![""]);
    t.handle_key('\u{08}');
    assert_eq!(t.current_command(), "");
    assert_eq!(texts(&t), vec![""]);
    t.handle_key('\u{01}');
    assert_eq!(texts(&t), vec![""]);
    t.handle_key('\n');
    type_text(&mut t, "ab");
    t.handle_key('\u{08}');
    t.handle_key('\u{08}');
    t.handle_key('\u{08}');
    assert_eq!(texts(&t), vec!["", "$ "]);
}

#[test]
fn execute_records_the_command_and_resets_the_line() {
    let mut t = terminal();
    run(&mut t, "echo a");
    run(&mut t, "bogus");
    assert_eq!(t.command_history().clone(), vec![String::from("echo a"), String::from("bogus")]);
    assert_eq!(t.history_index(), -1);
    assert_eq!(t.current_command(), "");
    assert_eq!(t.mode(), Mode::Normal);
}

#[test]
fn arrows_browse_the_history() {
    let mut t = terminal();
    run(&mut t, "echo a");
    run(&mut t, "echo b");
    run(&mut t, "echo c");
    t.handle_key('\u{10}');
    assert_eq!(t.mode(), Mode::BrowsingHistory);
    assert_eq!(t.history_index(), 2);
    assert_eq!(t.current_command(), "echo c");
    assert_eq!(texts(&t).last().unwrap(), "$ echo c");
    t.handle_key('\u{10}');
    assert_eq!(t.current_command(), "echo b");
    t.handle_key('\u{10}');
    t.handle_key('\u{10}');
    assert_eq!(t.history_index(), 0);
    assert_eq!(t.current_command(), "echo a");
    t.handle_key('\u{0e}');
    assert_eq!(t.history_index(), 1);
    t.handle_key('\u{0e}');
    t.handle_key('\u{0e}');
    assert_eq!(t.history_index(), 2);
    assert_eq!(t.current_command(), "echo c");
    assert_eq!(texts(&t).last().unwrap(), "$ echo c");
}

#[test]
fn arrows_do_nothing_without_history() {
    let mut t = terminal();
    t.handle_key('\u{10}');
    t.handle_key('\u{0e}');
    assert_eq!(t.mode(), Mode::Normal);
    assert_eq!(t.history_index(), -1);
    assert!(texts(&t).is_empty());
}

#[test]
fn typing_while_browsing_resumes_editing_the_loaded_line() {
    let mut t = terminal();
    run(&mut t, "echo a");
    t.handle_key('\u{10}');
    t.handle_key('b');
    assert_eq!(t.mode(), Mode::Normal);
    assert_eq!(t.history_index(), -1);
    assert_eq!(t.current_command(), "echo ab");
    t.handle_key('\n');
    let all = texts(&t);
    assert_eq!(all[all.len() - 3..].to_vec(), vec!["$ echo ab", "ab", "$ "]);
    assert_eq!(t.command_history().len(), 2);
}

#[test]
fn enter_while_browsing_runs_the_loaded_line() {
    let mut t = terminal();
    run(&mut t, "echo again");
    t.handle_key('\u{10}');
    t.handle_key('\n');
    assert_eq!(t.mode(), Mode::Normal);
    assert_eq!(count(&t, "again"), 2);
}

#[test]
fn pointer_drag_selects_text() {
    let mut t = terminal();
    run(&mut t, "echo hello world");
    // Line 1 holds "hello world"; its cells start at x = 55, y = 75 + 24.
    t.handle_mouse(55, 75 + 24, 1);
    assert_eq!(t.mode(), Mode::Dragging);
    t.handle_mouse(55 + 5 * 8, 75 + 24, 1);
    assert_eq!(t.copy_selection(), "hello");
    t.handle_mouse(55 + 5 * 8, 75 + 24, 0);
    assert_eq!(t.mode(), Mode::Normal);
    assert_eq!(t.copy_selection(), "hello");
    t.handle_mouse(300, 300, 0);
    assert_eq!(t.copy_selection(), "hello");
}

#[test]
fn pointer_drag_backwards_selects_the_same_text() {
    let mut t = terminal();
    run(&mut t, "echo hello world");
    t.handle_mouse(55 + 5 * 8, 75 + 24, 1);
    t.handle_mouse(55, 75 + 24, 1);
    t.handle_mouse(55, 75 + 24, 0);
    assert_eq!(t.copy_selection(), "hello");
}

#[test]
fn keys_are_not_taken_while_dragging() {
    let mut t = terminal();
    t.handle_mouse(60, 80, 1);
    type_text(&mut t, "abc\n");
    assert_eq!(t.current_command(), "");
    assert!(texts(&t).is_empty());
    t.handle_mouse(60, 80, 0);
    type_text(&mut t, "abc");
    assert_eq!(t.current_command(), "abc");
}

#[test]
fn pointer_above_the_text_selects_nothing() {
    let mut t = terminal();
    t.start_selection(60, 60);
    assert_eq!(t.cell_at(60, 60), None);
    assert_eq!(t.copy_selection(), "");
    assert_eq!(t.cell_at(-500, 80).map(|a| (a.column, a.line)), Some((0, 0)));
    assert_eq!(t.cell_at(55 + 17, 75 + 50).map(|a| (a.column, a.line)), Some((2, 2)));
}

#[test]
fn selection_across_lines_joins_them_with_line_breaks() {
    let mut t = terminal();
    run(&mut t, "echo one");
    t.start_selection(55 + 2 * 8, 75);
    t.update_selection(55 + 2 * 8, 75 + 24);
    assert_eq!(t.copy_selection(), "ho one\non");
}

#[test]
fn pressing_the_button_while_browsing_ends_the_browsing() {
    let mut t = terminal();
    run(&mut t, "echo a");
    t.handle_key('\u{10}');
    t.handle_mouse(60, 80, 1);
    assert_eq!(t.mode(), Mode::Dragging);
    assert_eq!(t.history_index(), -1);
    assert_eq!(t.current_command(), "echo a");
}

#[test]
fn paste_types_and_runs_lines() {
    let mut t = terminal();
    t.paste_clipboard("mkdir a\ncd a\ntouch f");
    assert_eq!(t.current_command(), "touch f");
    assert_eq!(t.file_system().current_path().clone(), vec![String::from("a")]);
    assert_eq!(texts(&t), vec!["mkdir a", "$ cd a", "$ touch f"]);
    t.paste_clipboard("\n");
    assert_eq!(t.file_system().read_file("f"), Some(String::new()));
}

#[test]
fn print_appends_lines_in_a_colour() {
    let mut t = terminal();
    t.print("alpha\nbeta\n", 0xABCDEF);
    assert_eq!(
        lines(&t),
        vec![(String::from("alpha"), 0xABCDEF), (String::from("beta"), 0xABCDEF)]
    );
}

#[test]
fn scroll_is_held_within_the_buffer() {
    let mut t = Terminal::new(0, 0, 100, 25 + 24 * 2);
    assert_eq!(t.buffer().visible_rows(), 2);
    for i in 0..5 {
        t.print(&format!("l{}", i), 0);
    }
    t.scroll(2);
    assert_eq!(t.buffer().scroll_offset(), 2);
    t.scroll(100);
    assert_eq!(t.buffer().scroll_offset(), 3);
    t.scroll(100);
    assert_eq!(t.buffer().scroll_offset(), 3);
    t.scroll(-100);
    t.scroll(-100);
    assert_eq!(t.buffer().scroll_offset(), 0);
}

#[test]
fn take_dirty_reports_and_resets() {
    let mut t = terminal();
    assert!(t.take_dirty());
    assert!(!t.take_dirty());
    t.handle_key('a');
    assert!(t.take_dirty());
    t.handle_mouse(60, 80, 1);
    assert!(t.take_dirty());
    assert!(!t.take_dirty());
}

#[test]
fn draw_paints_background_lines_and_presents() {
    let mut t = terminal();
    run(&mut t, "echo hi");
    let frame = t.draw();
    assert_eq!(frame.len(), 1 + 3 + 1);
    match &frame[0] {
        DrawCommand::FillRect { x, y, width, height, color } => {
            assert_eq!((*x, *y, *width, *height, *color), (50, 50, 700, 500, 0x00FF_FFFF));
        },
        _ => panic!("the frame starts with the background"),
    }
    let expected = ["echo hi", "hi", "$ "];
    for (row, text) in expected.iter().enumerate() {
        match &frame[1 + row] {
            DrawCommand::Text { x, y, text: shown, color } => {
                assert_eq!(*x, 55);
                assert_eq!(*y, 75 + 24 * row as u32);
                assert_eq!(shown, text);
                assert_eq!(*color, 0);
            },
            _ => panic!("a line of text is expected"),
        }
    }
    assert!(matches!(frame[4], DrawCommand::Present));
}

#[test]
fn draw_lays_the_selection_over_the_text() {
    let mut t = terminal();
    run(&mut t, "echo hello");
    t.start_selection(55 + 2 * 8, 75);
    t.update_selection(55 + 3 * 8, 75 + 24);
    let frame = t.draw();
    assert_eq!(frame.len(), 1 + 3 + 2 + 1);
    match &frame[4] {
        DrawCommand::FillRect { x, y, width, height, color } => {
            // "echo hello" from column 2 to its end at column 10.
            assert_eq!((*x, *y, *width, *height), (55 + 16, 75, 8 * 8, 16));
            assert_eq!(*color, 0x4000_00FF);
        },
        _ => panic!("a highlight is expected"),
    }
    match &frame[5] {
        DrawCommand::FillRect { x, y, width, height, .. } => {
            assert_eq!((*x, *y, *width, *height), (55, 75 + 24, 3 * 8, 16));
        },
        _ => panic!("a highlight is expected"),
    }
}

#[test]
fn draw_shows_the_window_at_the_scroll_offset() {
    let mut t = Terminal::new(0, 0, 100, 25 + 24 * 2);
    for i in 0..5 {
        t.print(&format!("l{}", i), 0);
    }
    t.scroll(3);
    let frame = t.draw();
    assert_eq!(frame.len(), 4);
    match (&frame[1], &frame[2]) {
        (DrawCommand::Text { text: a, y: ya, .. }, DrawCommand::Text { text: b, y: yb, .. }) => {
            assert_eq!((a.as_str(), b.as_str()), ("l3", "l4"));
            assert_eq!((*ya, *yb), (25, 49));
        },
        _ => panic!("two lines of text are expected"),
    }
}

#[test]
fn draw_of_a_terminal_too_small_for_text_is_only_background() {
    let t = Terminal::new(u32::MAX - 4, u32::MAX - 10, 4, 10);
    let frame = t.draw();
    assert_eq!(frame.len(), 2);
    let narrow = Terminal::new(u32::MAX - 4, 0, 4, 500);
    assert_eq!(narrow.draw().len(), 2);
}

#[test]
fn dispatch_says_what_became_of_the_line() {
    let mut t = terminal();
    assert_eq!(t.dispatch(""), Outcome::Empty);
    assert_eq!(t.dispatch("mkdir docs"), Outcome::Done);
    assert_eq!(t.dispatch("cd docs"), Outcome::Done);
    assert_eq!(t.dispatch("cd .."), Outcome::Done);
    assert_eq!(t.dispatch("cd .."), Outcome::Done);
    assert_eq!(t.dispatch("touch f"), Outcome::Done);
    assert_eq!(t.dispatch("cat f"), Outcome::Done);
    assert_eq!(t.dispatch("ls"), Outcome::Done);
    assert_eq!(t.dispatch("echo"), Outcome::Done);
    assert_eq!(t.dispatch("color ff"), Outcome::Done);
    assert_eq!(t.dispatch("help"), Outcome::Done);
    assert_eq!(t.dispatch("version"), Outcome::Done);
    assert_eq!(t.dispatch("clear"), Outcome::Done);
}

#[test]
fn each_failure_has_its_kind_and_its_line() {
    let cases = [
        ("cd nowhere", CommandError::NotFound, "Directory not found: nowhere"),
        ("cat nothing", CommandError::NotFound, "File not found"),
        ("cd", CommandError::InvalidArgument, "Usage: cd <directory>"),
        ("mkdir", CommandError::InvalidArgument, "Usage: mkdir <directory>"),
        ("touch", CommandError::InvalidArgument, "Usage: touch <filename>"),
        ("cat", CommandError::InvalidArgument, "Usage: cat [file]"),
        ("color", CommandError::InvalidArgument, "Usage: color <hex>"),
        (
            "color zz",
            CommandError::InvalidArgument,
            "Invalid color format. Use hex (e.g., 0xFF0000)",
        ),
        ("foobar", CommandError::UnknownCommand, "Unknown command: foobar"),
    ];
    for (line, kind, shown) in cases {
        let mut t = terminal();
        assert_eq!(t.dispatch(line), Outcome::Failed(kind), "{}", line);
        assert_eq!(lines(&t), vec![(String::from(shown), ERROR_COLOR)], "{}", line);
        assert_eq!(t.current_color(), 0);
        assert!(t.file_system().current_path().is_empty());
        assert_eq!(t.file_system().list_contents().len(), 1);
    }
}

#[test]
fn scrollback_limit_keeps_the_newest_lines() {
    let mut t = Terminal::with_capacity(50, 50, 700, 500, 3);
    run(&mut t, "echo one");
    run(&mut t, "echo two");
    assert_eq!(texts(&t), vec!["$ echo two", "two", "$ "]);
    let unlimited = terminal();
    assert_eq!(unlimited.buffer().len(), 0);
}

#[test]
fn get_current_directory_walks_the_path() {
    let mut t = terminal();
    assert_eq!(t.get_current_directory().ok().map(|d| String::from(d.name())), Some(String::from("root")));
    t.dispatch("cd home");
    t.dispatch("touch here");
    let dir = t.get_current_directory().ok().expect("the path resolves");
    assert_eq!(dir.name(), "home");
    assert_eq!(dir.file_content("here"), Some(""));
}

#[test]
fn copy_selection_leaves_the_terminal_as_it_is() {
    let mut t = terminal();
    run(&mut t, "echo hello");
    t.start_selection(55, 75 + 24);
    t.update_selection(55 + 4 * 8, 75 + 24);
    let before = lines(&t);
    assert_eq!(t.copy_selection(), "hell");
    assert_eq!(t.copy_selection(), "hell");
    assert_eq!(lines(&t), before);
    run(&mut t, "echo more");
    assert_eq!(texts(&t).last().unwrap(), "$ ");
}
