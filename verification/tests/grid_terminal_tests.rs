use nyannix::surface::DrawCommand;
use nyannix::terminal::Terminal;

fn row(t: &Terminal, y: u32) -> String {
    let text: String = (0..80).map(|x| t.cell(x, y)).collect();
    String::from(text.trim_end())
}

fn type_line(t: &mut Terminal, text: &str) {
    for c in text.chars() {
        t.handle_input(c);
    }
    t.handle_input('\n');
}

#[test]
fn new_grid_is_blank() {
    let t = Terminal::new();
    assert_eq!(t.cursor(), (0, 0));
    for y in 0..25 {
        for x in 0..80 {
            assert_eq!(t.cell(x, y), ' ');
        }
    }
    assert_eq!(t.input(), "");
}

#[test]
fn write_char_fills_the_cell_and_moves_on() {
    let mut t = Terminal::new();
    t.write_char('a');
    t.write_char('b');
    assert_eq!(t.cell(0, 0), 'a');
    assert_eq!(t.cell(1, 0), 'b');
    assert_eq!(t.cursor(), (2, 0));
}

#[test]
fn control_characters_move_the_cursor() {
    let mut t = Terminal::new();
    t.write_string("abc");
    t.write_char('\u{08}');
    assert_eq!(t.cursor(), (2, 0));
    assert_eq!(t.cell(2, 0), 'c');
    t.write_char('\r');
    assert_eq!(t.cursor(), (0, 0));
    t.write_char('\u{08}');
    assert_eq!(t.cursor(), (0, 0));
    t.write_char('\n');
    assert_eq!(t.cursor(), (0, 1));
    t.write_string("xy\nz");
    assert_eq!(row(&t, 1), "xy");
    assert_eq!(row(&t, 2), "z");
    assert_eq!(t.cursor(), (1, 2));
}

#[test]
fn writing_past_the_last_column_wraps() {
    let mut t = Terminal::new();
    let long: String = std::iter::repeat('x').take(80).collect();
    t.write_string(&long);
    assert_eq!(t.cursor(), (0, 1));
    assert_eq!(row(&t, 0), long);
    t.write_char('y');
    assert_eq!(t.cell(0, 1), 'y');
    assert_eq!(t.cursor(), (1, 1));
}

#[test]
fn new_line_on_the_last_row_scrolls() {
    let mut t = Terminal::new();
    for i in 0..25 {
        t.write_string(&format!("row {}", i));
        if i < 24 {
            t.write_char('\n');
        }
    }
    assert_eq!(t.cursor(), (6, 24));
    assert_eq!(row(&t, 0), "row 0");
    assert_eq!(row(&t, 24), "row 24");
    t.write_char('\n');
    assert_eq!(t.cursor(), (0, 24));
    assert_eq!(row(&t, 0), "row 1");
    assert_eq!(row(&t, 23), "row 24");
    assert_eq!(row(&t, 24), "");
}

#[test]
fn scroll_up_moves_every_row() {
    let mut t = Terminal::new();
    t.write_string("top\nmiddle\nbottom");
    t.scroll_up();
    assert_eq!(row(&t, 0), "middle");
    assert_eq!(row(&t, 1), "bottom");
    assert_eq!(row(&t, 2), "");
    assert_eq!(t.cursor(), (6, 2));
}

#[test]
fn backspace_blanks_the_cell_before_the_cursor() {
    let mut t = Terminal::new();
    t.write_string("ab");
    t.backspace();
    assert_eq!(t.cursor(), (1, 0));
    assert_eq!(row(&t, 0), "a");
    t.backspace();
    t.backspace();
    assert_eq!(t.cursor(), (0, 0));
    assert_eq!(row(&t, 0), "");
}

#[test]
fn clear_blanks_the_grid() {
    let mut t = Terminal::new();
    t.write_string("some\ntext");
    t.clear();
    assert_eq!(t.cursor(), (0, 0));
    for y in 0..25 {
        assert_eq!(row(&t, y), "");
    }
}

#[test]
fn input_is_collected_and_echoed() {
    let mut t = Terminal::new();
    for c in "help".chars() {
        t.handle_input(c);
    }
    assert_eq!(t.input(), "help");
    assert_eq!(row(&t, 0), "help");
    t.handle_input('\u{08}');
    assert_eq!(t.input(), "hel");
    assert_eq!(row(&t, 0), "hel");
    assert_eq!(t.cursor(), (3, 0));
    t.handle_input('é');
    assert_eq!(t.input(), "hel");
}

#[test]
fn input_stops_at_its_limit() {
    let mut t = Terminal::new();
    for _ in 0..100 {
        t.handle_input('x');
    }
    assert_eq!(t.input().len(), 79);
    assert_eq!(t.cursor(), (79, 0));
}

#[test]
fn backspace_on_an_empty_input_does_nothing() {
    let mut t = Terminal::new();
    t.write_string("$ ");
    t.handle_input('\u{08}');
    assert_eq!(row(&t, 0), "$");
    assert_eq!(t.cursor(), (2, 0));
}

#[test]
fn version_command_prints_the_version() {
    let mut t = Terminal::new();
    type_line(&mut t, "version");
    assert_eq!(row(&t, 0), "version");
    assert_eq!(row(&t, 1), "");
    assert_eq!(row(&t, 2), "NyanNix v1.0.0");
    assert_eq!(row(&t, 3), "$");
    assert_eq!(t.cursor(), (2, 3));
    assert_eq!(t.input(), "");
}

#[test]
fn help_and_ls_and_nyan_print_their_texts() {
    let mut t = Terminal::new();
    type_line(&mut t, "  help  ");
    assert_eq!(row(&t, 2), "Available commands:");
    assert_eq!(row(&t, 3), "  help     - Show this help message");
    assert_eq!(row(&t, 7), "  version  - Show NyanNix version");
    assert_eq!(row(&t, 8), "$");
    type_line(&mut t, "ls");
    assert_eq!(row(&t, 10), "NyanNix File System:");
    assert_eq!(row(&t, 11), "  boot/");
    assert_eq!(row(&t, 13), "  nya/");
    type_line(&mut t, "nyan");
    assert_eq!(row(&t, 16), "  /\\___/\\  ~");
    assert_eq!(row(&t, 19), "   ~~~~~");
    assert_eq!(row(&t, 20), "$");
}

#[test]
fn unknown_command_is_reported() {
    let mut t = Terminal::new();
    type_line(&mut t, "foobar");
    assert_eq!(row(&t, 0), "foobar");
    assert_eq!(row(&t, 1), "");
    assert_eq!(row(&t, 2), "Unknown command: foobar");
    assert_eq!(row(&t, 3), "$");
}

#[test]
fn empty_command_only_prints_a_prompt() {
    let mut t = Terminal::new();
    type_line(&mut t, "");
    assert_eq!(row(&t, 0), "");
    assert_eq!(row(&t, 1), "$");
    type_line(&mut t, "   ");
    assert_eq!(row(&t, 2), "$");
    assert_eq!(t.cursor(), (2, 2));
}

#[test]
fn clear_command_blanks_the_grid_and_prints_a_prompt() {
    let mut t = Terminal::new();
    type_line(&mut t, "version");
    type_line(&mut t, "clear");
    assert_eq!(row(&t, 0), "$");
    for y in 1..25 {
        assert_eq!(row(&t, y), "");
    }
    assert_eq!(t.cursor(), (2, 0));
}

#[test]
fn carriage_return_runs_the_command_too() {
    let mut t = Terminal::new();
    for c in "version".chars() {
        t.handle_input(c);
    }
    t.handle_input('\r');
    assert_eq!(row(&t, 2), "NyanNix v1.0.0");
}

#[test]
fn redraw_paints_one_glyph_per_filled_cell() {
    let mut t = Terminal::new();
    t.write_string("a b\nc");
    let frame = t.redraw();
    assert_eq!(frame.len(), 1 + 3 + 1);
    match &frame[0] {
        DrawCommand::FillRect { x, y, width, height, color } => {
            assert_eq!((*x, *y, *width, *height, *color), (20, 40, 960, 400, 0));
        },
        _ => panic!("the frame starts with the background"),
    }
    let expected = [(20 + 2, 40 + 2), (20 + 24 + 2, 40 + 2), (20 + 2, 40 + 16 + 2)];
    for (k, at) in expected.iter().enumerate() {
        match &frame[1 + k] {
            DrawCommand::FillRect { x, y, width, height, color } => {
                assert_eq!((*x, *y), *at);
                assert_eq!((*width, *height, *color), (8, 12, 0xFF69B4));
            },
            _ => panic!("a glyph is expected"),
        }
    }
    assert!(matches!(frame[4], DrawCommand::Present));
}

#[test]
fn draw_char_paints_one_cell() {
    let mut t = Terminal::new();
    t.write_string("ab");
    let filled = t.draw_char(1, 0);
    assert_eq!(filled.len(), 3);
    match &filled[0] {
        DrawCommand::FillRect { x, y, width, height, color } => {
            assert_eq!((*x, *y, *width, *height, *color), (32, 40, 12, 16, 0));
        },
        _ => panic!("the cell's background is expected"),
    }
    match &filled[1] {
        DrawCommand::FillRect { x, y, .. } => assert_eq!((*x, *y), (34, 42)),
        _ => panic!("a glyph is expected"),
    }
    let blank = t.draw_char(79, 24);
    assert_eq!(blank.len(), 2);
    match &blank[0] {
        DrawCommand::FillRect { x, y, .. } => assert_eq!((*x, *y), (20 + 79 * 12, 40 + 24 * 16)),
        _ => panic!("the cell's background is expected"),
    }
}

#[test]
fn init_paints_the_whole_surface_first() {
    let t = Terminal::new();
    let frame = t.init();
    assert_eq!(frame.len(), 3);
    match &frame[0] {
        DrawCommand::FillRect { x, y, width, height, color } => {
            assert_eq!((*x, *y, *width, *height, *color), (0, 0, 800, 600, 0));
        },
        _ => panic!("the surface's background is expected"),
    }
    assert!(matches!(frame[2], DrawCommand::Present));
}

#[test]
fn unknown_command_is_answered_once() {
    let mut t = Terminal::new();
    for c in "foobar".chars() {
        t.handle_input(c);
    }
    t.write_char('\n');
    t.process_command();
    let mut seen = 0;
    for y in 0..25 {
        if row(&t, y) == "Unknown command: foobar" {
            seen += 1;
        }
    }
    assert_eq!(seen, 1);
    assert_eq!(row(&t, 3), "$");
    assert_eq!(t.input(), "");
}
