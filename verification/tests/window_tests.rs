use nyannix::gui::{Window as RetroWindow, RESET, RETRO_CYAN, RETRO_GREEN};
use nyannix::window::Window;

#[test]
fn plain_window_keeps_its_fields() {
    let w = Window::new(3, 4, 10, 5, "Title");
    assert_eq!((w.x, w.y, w.width, w.height, w.title), (3, 4, 10, 5, "Title"));
}

#[test]
fn plain_window_moves_the_cursor_relative_to_its_corner() {
    let w = Window::new(60, 1, 19, 10, "System Status");
    assert_eq!(w.move_cursor(0, 0), "\x1B[2;61H");
    assert_eq!(w.move_cursor(2, 3), "\x1B[5;63H");
    let far = Window::new(65535, 65535, 1, 1, "");
    assert_eq!(far.move_cursor(65535, 65535), "\x1B[131071;131071H");
}

#[test]
fn plain_window_draws_its_frame() {
    let w = Window::new(0, 0, 6, 4, "T");
    let expected = String::new()
        + "\x1B[1;1H╔════╗\n"
        + "\x1B[1;3H T "
        + "\x1B[2;1H║    ║\n"
        + "\x1B[3;1H║    ║\n"
        + "\x1B[4;1H╚════╝\n";
    assert_eq!(w.draw(), expected);
}

#[test]
fn plain_window_without_room_draws_only_borders() {
    let w = Window::new(0, 0, 2, 2, "");
    let expected =
        String::new() + "\x1B[1;1H╔╗\n" + "\x1B[1;3H  " + "\x1B[2;1H╚╝\n";
    assert_eq!(w.draw(), expected);
    let tiny = Window::new(0, 0, 0, 0, "");
    let expected =
        String::new() + "\x1B[1;1H╔╗\n" + "\x1B[1;3H  " + "\x1B[1;1H╚╝\n";
    assert_eq!(tiny.draw(), expected);
}

#[test]
fn plain_window_writes_at_a_cell() {
    let w = Window::new(10, 20, 30, 10, "T");
    assert_eq!(w.write_at(1, 2, "hello"), "\x1B[23;12Hhello");
}

#[test]
fn retro_window_draws_its_frame() {
    let w = RetroWindow::new(0, 0, 8, 4, "T", RETRO_CYAN, RETRO_GREEN);
    let expected = String::new()
        + RETRO_CYAN
        + "\x1B[1;1H╔════╗"
        + "\x1B[1;3H"
        + RETRO_GREEN
        + "[ T ]"
        + RETRO_CYAN
        + "\x1B[2;1H║      ║"
        + "\x1B[3;1H║·    ·║"
        + "\x1B[4;1H╚════╝"
        + RESET;
    assert_eq!(w.draw(), expected);
}

#[test]
fn retro_window_writes_only_above_the_bottom_border() {
    let w = RetroWindow::new(5, 5, 20, 6, "T", RETRO_CYAN, RETRO_GREEN);
    assert_eq!(w.write_at(2, 1, "hi"), "\x1B[7;8Hhi");
    assert_eq!(w.write_at(2, 4, "hi"), "\x1B[10;8Hhi");
    assert_eq!(w.write_at(2, 5, "hi"), "");
    assert_eq!(w.write_at(2, 9, "hi"), "");
    let flat = RetroWindow::new(0, 0, 20, 0, "T", RETRO_CYAN, RETRO_GREEN);
    assert_eq!(flat.write_at(0, 0, "hi"), "");
}

#[test]
fn retro_window_blanks_its_inside() {
    let w = RetroWindow::new(0, 0, 6, 4, "T", RETRO_CYAN, RETRO_GREEN);
    let expected = String::new() + "\x1B[2;2H    " + "\x1B[3;2H    ";
    assert_eq!(w.clear_content(), expected);
    let small = RetroWindow::new(0, 0, 1, 2, "T", RETRO_CYAN, RETRO_GREEN);
    assert_eq!(small.clear_content(), "");
}

#[test]
fn retro_window_moves_the_cursor_relative_to_its_corner() {
    let w = RetroWindow::new(60, 0, 20, 20, "SYSTEM", RETRO_CYAN, RETRO_GREEN);
    assert_eq!(w.move_cursor(1, 1), "\x1B[2;62H");
}
