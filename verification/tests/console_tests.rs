use nyannix::console::{clear_screen, cursor_to, move_cursor, push_decimal, push_repeated};
use nyannix::surface::clip;

#[test]
fn push_decimal_writes_the_number() {
    for n in [0u32, 1, 9, 10, 11, 20, 21, 99, 100, 101, 4096, 65535, 65536, u32::MAX] {
        let mut out = String::from(">");
        push_decimal(&mut out, n);
        assert_eq!(out, format!(">{}", n));
    }
}

#[test]
fn push_repeated_writes_the_piece_that_often() {
    let mut out = String::from("[");
    push_repeated(&mut out, "ab", 3);
    push_repeated(&mut out, "x", 0);
    push_repeated(&mut out, "═", 2);
    assert_eq!(out, "[ababab══");
}

#[test]
fn move_cursor_gives_row_then_column() {
    assert_eq!(move_cursor(1, 1), "\x1B[1;1H");
    assert_eq!(move_cursor(10, 5), "\x1B[5;10H");
    assert_eq!(move_cursor(80, 24), "\x1B[24;80H");
    assert_eq!(move_cursor(0, 65535), "\x1B[65535;0H");
    assert_eq!(cursor_to(65536, 70000), "\x1B[70000;65536H");
}

#[test]
fn clear_screen_blanks_and_homes() {
    assert_eq!(clear_screen(), "\x1B[2J\x1B[H");
}

#[test]
fn clip_cuts_a_span_at_the_edge() {
    assert_eq!(clip(10, 20, 800), 30);
    assert_eq!(clip(790, 20, 800), 800);
    assert_eq!(clip(790, 10, 800), 800);
    assert_eq!(clip(790, 9, 800), 799);
    assert_eq!(clip(900, 5, 800), 800);
    assert_eq!(clip(u32::MAX, u32::MAX, 800), 800);
    assert_eq!(clip(0, 0, 0), 0);
}
