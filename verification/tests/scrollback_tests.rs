use nyannix::scrollback::{ColoredLine, ScrollbackBuffer};

fn texts(lines: &[ColoredLine]) -> Vec<String> {
    lines.iter().map(|l| l.text.clone()).collect()
}

fn all_texts(buffer: &ScrollbackBuffer) -> Vec<String> {
    (0..buffer.len()).map(|i| buffer.line(i).text.clone()).collect()
}

fn filled(rows: usize, count: usize) -> ScrollbackBuffer {
    let mut buffer = ScrollbackBuffer::new(rows);
    for i in 0..count {
        buffer.append_line(&format!("line {}", i), 7);
    }
    buffer
}

#[test]
fn new_buffer_is_empty_and_dirty() {
    let buffer = ScrollbackBuffer::new(10);
    assert_eq!(buffer.len(), 0);
    assert_eq!(buffer.scroll_offset(), 0);
    assert_eq!(buffer.visible_rows(), 10);
    assert!(buffer.is_dirty());
    assert!(buffer.visible_slice(10).is_empty());
}

#[test]
fn append_line_splits_at_line_breaks_and_keeps_the_colour() {
    let mut buffer = ScrollbackBuffer::new(10);
    buffer.mark_clean();
    buffer.append_line("one\ntwo\nthree\n", 0x00FF00);
    assert_eq!(all_texts(&buffer), vec!["one", "two", "three"]);
    for i in 0..3 {
        assert_eq!(buffer.line(i).color, 0x00FF00);
    }
    assert!(buffer.is_dirty());
    buffer.append_line("four", 1);
    assert_eq!(buffer.len(), 4);
    assert_eq!(buffer.line(3).text, "four");
    assert_eq!(buffer.line(3).color, 1);
    buffer.append_line("", 2);
    assert_eq!(buffer.len(), 4);
    buffer.append_line("\n", 2);
    assert_eq!(buffer.len(), 5);
    assert_eq!(buffer.line(4).text, "");
}

#[test]
fn scroll_moves_within_the_bounds() {
    let mut buffer = filled(4, 10);
    assert_eq!(buffer.scroll_offset(), 0);
    buffer.scroll(3);
    assert_eq!(buffer.scroll_offset(), 3);
    buffer.scroll(-1);
    assert_eq!(buffer.scroll_offset(), 2);
    buffer.scroll(100);
    assert_eq!(buffer.scroll_offset(), 6);
    buffer.scroll(-100);
    assert_eq!(buffer.scroll_offset(), 0);
}

#[test]
fn scroll_past_an_end_stays_there() {
    let mut buffer = filled(4, 10);
    for _ in 0..5 {
        buffer.scroll(7);
        assert_eq!(buffer.scroll_offset(), 6);
    }
    for _ in 0..5 {
        buffer.scroll(-7);
        assert_eq!(buffer.scroll_offset(), 0);
    }
    buffer.scroll(isize::MAX);
    assert_eq!(buffer.scroll_offset(), 6);
    buffer.scroll(isize::MAX);
    assert_eq!(buffer.scroll_offset(), 6);
    buffer.scroll(isize::MIN);
    assert_eq!(buffer.scroll_offset(), 0);
    buffer.scroll(isize::MIN);
    assert_eq!(buffer.scroll_offset(), 0);
}

#[test]
fn scroll_does_nothing_while_everything_fits() {
    let mut buffer = filled(10, 3);
    buffer.scroll(5);
    assert_eq!(buffer.scroll_offset(), 0);
    buffer.scroll(-5);
    assert_eq!(buffer.scroll_offset(), 0);
}

#[test]
fn scroll_marks_dirty_only_when_the_view_moves() {
    let mut buffer = filled(4, 10);
    buffer.mark_clean();
    buffer.scroll(-1);
    assert!(!buffer.is_dirty());
    buffer.scroll(2);
    assert!(buffer.is_dirty());
}

#[test]
fn visible_slice_is_the_window_at_the_offset() {
    let mut buffer = filled(4, 10);
    assert_eq!(texts(buffer.visible_slice(4)), vec!["line 0", "line 1", "line 2", "line 3"]);
    buffer.scroll(6);
    assert_eq!(texts(buffer.visible_slice(4)), vec!["line 6", "line 7", "line 8", "line 9"]);
    assert_eq!(texts(buffer.visible_slice(2)), vec!["line 6", "line 7"]);
    assert_eq!(texts(buffer.visible_slice(0)), Vec::<String>::new());
}

#[test]
fn visible_slice_is_cut_at_the_end_of_the_buffer() {
    let mut buffer = filled(4, 10);
    buffer.scroll(6);
    assert_eq!(
        texts(buffer.visible_slice(100)),
        vec!["line 6", "line 7", "line 8", "line 9"]
    );
    assert_eq!(texts(buffer.visible_slice(usize::MAX)).len(), 4);
    let short = filled(4, 2);
    assert_eq!(texts(short.visible_slice(4)), vec!["line 0", "line 1"]);
}

#[test]
fn capacity_drops_the_oldest_lines() {
    let mut buffer = ScrollbackBuffer::with_capacity(2, 3);
    buffer.append_line("a\nb\n", 0);
    assert_eq!(all_texts(&buffer), vec!["a", "b"]);
    buffer.append_line("c\nd\ne\n", 0);
    assert_eq!(all_texts(&buffer), vec!["c", "d", "e"]);
    buffer.append_line("1\n2\n3\n4\n5\n", 0);
    assert_eq!(all_texts(&buffer), vec!["3", "4", "5"]);
}

#[test]
fn capacity_brings_the_offset_back_in_bounds() {
    let mut buffer = ScrollbackBuffer::with_capacity(2, 5);
    buffer.append_line("a\nb\nc\nd\ne\n", 0);
    buffer.scroll(3);
    assert_eq!(buffer.scroll_offset(), 3);
    buffer.append_line("f", 0);
    assert_eq!(buffer.len(), 5);
    assert_eq!(buffer.scroll_offset(), 3);
    let mut none = ScrollbackBuffer::with_capacity(2, 0);
    none.append_line("a\nb\n", 0);
    assert_eq!(none.len(), 0);
    assert_eq!(none.scroll_offset(), 0);
}

#[test]
fn without_capacity_every_line_is_kept() {
    let buffer = filled(3, 1000);
    assert_eq!(buffer.len(), 1000);
    assert_eq!(buffer.line(0).text, "line 0");
    assert_eq!(buffer.line(999).text, "line 999");
}

#[test]
fn clear_forgets_the_lines_and_the_offset() {
    let mut buffer = filled(4, 10);
    buffer.scroll(5);
    buffer.mark_clean();
    buffer.clear();
    assert_eq!(buffer.len(), 0);
    assert_eq!(buffer.scroll_offset(), 0);
    assert!(buffer.is_dirty());
    assert_eq!(buffer.visible_rows(), 4);
}

#[test]
fn echo_and_erase_edit_the_last_line() {
    let mut buffer = ScrollbackBuffer::new(4);
    buffer.echo('a', 9);
    assert_eq!(all_texts(&buffer), vec!["a"]);
    assert_eq!(buffer.line(0).color, 9);
    buffer.append_line("$ ", 3);
    buffer.echo('l', 9);
    buffer.echo('s', 9);
    assert_eq!(all_texts(&buffer), vec!["a", "$ ls"]);
    assert_eq!(buffer.line(1).color, 3);
    buffer.erase();
    assert_eq!(all_texts(&buffer), vec!["a", "$ l"]);
    buffer.erase();
    buffer.erase();
    buffer.erase();
    assert_eq!(all_texts(&buffer), vec!["a", ""]);
    buffer.erase();
    assert_eq!(all_texts(&buffer), vec!["a", ""]);
}

#[test]
fn erase_on_an_empty_buffer_does_nothing() {
    let mut buffer = ScrollbackBuffer::new(4);
    buffer.mark_clean();
    buffer.erase();
    assert_eq!(buffer.len(), 0);
    assert!(!buffer.is_dirty());
}

#[test]
fn retype_replaces_the_last_line() {
    let mut buffer = ScrollbackBuffer::new(4);
    buffer.retype("$ first", 1);
    assert_eq!(all_texts(&buffer), vec!["$ first"]);
    buffer.append_line("out", 2);
    buffer.retype("$ second", 5);
    assert_eq!(all_texts(&buffer), vec!["$ first", "$ second"]);
    assert_eq!(buffer.line(1).color, 5);
}

#[test]
fn cloned_line_is_the_same_line() {
    let line = ColoredLine { text: String::from("hello"), color: 42 };
    let copy = line.clone();
    assert_eq!(copy.text, "hello");
    assert_eq!(copy.color, 42);
}
