use nyannix::scrollback::ScrollbackBuffer;
use nyannix::selection::{Anchor, SelectionRange};

fn buffer() -> ScrollbackBuffer {
    let mut b = ScrollbackBuffer::new(10);
    b.append_line("first line\nsecond\n\nfourth line here\n", 0);
    b
}

fn drag(from: (usize, usize), to: (usize, usize), len: usize) -> SelectionRange {
    let mut s = SelectionRange::new();
    s.begin(from.0, from.1, len);
    s.extend(to.0, to.1, len);
    s
}

fn anchor(column: usize, line: usize) -> Anchor {
    Anchor { column, line }
}

#[test]
fn new_selection_is_empty() {
    let s = SelectionRange::new();
    assert!(!s.is_active());
    assert_eq!(s.normalized(), None);
    assert_eq!(s.extract_text(&buffer()), "");
}

#[test]
fn begin_sets_both_anchors() {
    let mut s = SelectionRange::new();
    s.begin(3, 1, 4);
    assert!(s.is_active());
    assert_eq!(s.normalized(), Some((anchor(3, 1), anchor(3, 1))));
}

#[test]
fn begin_outside_the_buffer_does_nothing() {
    let mut s = SelectionRange::new();
    s.begin(3, 4, 4);
    assert!(!s.is_active());
    s.begin(1, 2, 4);
    s.begin(0, 9, 4);
    assert_eq!(s.normalized(), Some((anchor(1, 2), anchor(1, 2))));
}

#[test]
fn extend_moves_the_end_only() {
    let mut s = SelectionRange::new();
    s.begin(3, 1, 4);
    s.extend(5, 2, 4);
    assert_eq!(s.normalized(), Some((anchor(3, 1), anchor(5, 2))));
    s.extend(0, 0, 4);
    assert_eq!(s.normalized(), Some((anchor(0, 0), anchor(3, 1))));
    s.extend(7, 4, 4);
    assert_eq!(s.normalized(), Some((anchor(0, 0), anchor(3, 1))));
}

#[test]
fn extend_without_begin_does_nothing() {
    let mut s = SelectionRange::new();
    s.extend(2, 1, 4);
    assert!(!s.is_active());
}

#[test]
fn normalized_orders_by_line_then_column() {
    assert_eq!(drag((5, 2), (1, 0), 4).normalized(), Some((anchor(1, 0), anchor(5, 2))));
    assert_eq!(drag((5, 1), (1, 1), 4).normalized(), Some((anchor(1, 1), anchor(5, 1))));
    assert_eq!(drag((0, 1), (9, 0), 4).normalized(), Some((anchor(9, 0), anchor(0, 1))));
}

#[test]
fn clear_drops_the_anchors() {
    let mut s = drag((0, 0), (3, 1), 4);
    s.clear();
    assert!(!s.is_active());
    assert_eq!(s.extract_text(&buffer()), "");
}

#[test]
fn extract_within_one_line() {
    let b = buffer();
    assert_eq!(drag((0, 0), (5, 0), 4).extract_text(&b), "first");
    assert_eq!(drag((6, 0), (10, 0), 4).extract_text(&b), "line");
    assert_eq!(drag((2, 1), (2, 1), 4).extract_text(&b), "");
}

#[test]
fn extract_over_several_lines() {
    let b = buffer();
    assert_eq!(drag((6, 0), (3, 1), 4).extract_text(&b), "line\nsec");
    assert_eq!(drag((6, 0), (6, 3), 4).extract_text(&b), "line\nsecond\n\nfourth");
    assert_eq!(drag((0, 1), (0, 3), 4).extract_text(&b), "second\n\n");
    assert_eq!(drag((0, 2), (0, 2), 4).extract_text(&b), "");
}

#[test]
fn extract_is_the_same_in_either_direction() {
    let b = buffer();
    let points = [(0, 0), (6, 0), (3, 1), (99, 1), (0, 2), (4, 3), (16, 3), (40, 3)];
    for a in points.iter() {
        for c in points.iter() {
            assert_eq!(
                drag(*a, *c, 4).extract_text(&b),
                drag(*c, *a, 4).extract_text(&b),
                "{:?} {:?}",
                a,
                c
            );
        }
    }
}

#[test]
fn extract_is_the_same_in_either_direction_outside_the_buffer() {
    let b = buffer();
    assert_eq!(
        drag((2, 1), (3, 9), 4).extract_text(&b),
        drag((3, 9), (2, 1), 4).extract_text(&b)
    );
    assert_eq!(drag((2, 1), (3, 9), 4).extract_text(&b), "");
}

#[test]
fn columns_beyond_a_line_count_as_its_end() {
    let b = buffer();
    assert_eq!(drag((3, 1), (50, 1), 4).extract_text(&b), "ond");
    assert_eq!(drag((50, 1), (80, 1), 4).extract_text(&b), "");
    assert_eq!(drag((50, 0), (50, 1), 4).extract_text(&b), "\nsecond");
    assert_eq!(drag((usize::MAX, 0), (usize::MAX, 3), 4).extract_text(&b), "\nsecond\n\nfourth line here");
}

#[test]
fn lines_that_are_gone_give_nothing() {
    let b = buffer();
    let s = drag((0, 1), (3, 3), 4);
    let mut shorter = ScrollbackBuffer::new(10);
    shorter.append_line("first line\nsecond\n", 0);
    assert_eq!(s.extract_text(&shorter), "second");
    let empty = ScrollbackBuffer::new(10);
    assert_eq!(s.extract_text(&empty), "");
    assert_eq!(s.extract_text(&b), "second\n\nfou");
}

#[test]
fn columns_count_characters_not_bytes() {
    let mut b = ScrollbackBuffer::new(10);
    b.append_line("héllo wörld", 0);
    assert_eq!(drag((1, 0), (4, 0), 1).extract_text(&b), "éll");
    assert_eq!(drag((6, 0), (11, 0), 1).extract_text(&b), "wörld");
}
