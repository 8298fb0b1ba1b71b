use text_editor::{GapBuffer, GapBufferError, END_MARKER};

/// The document without its end marker.
fn document(b: &GapBuffer) -> String {
    let mut text = b.to_string();
    assert_eq!(text.pop(), Some(END_MARKER));
    text
}

fn type_str(b: &mut GapBuffer, s: &str) {
    for c in s.chars() {
        b.insert(c);
    }
}

#[test]
fn new_with_zero_capacity_is_rejected() {
    assert!(matches!(GapBuffer::new(0), Err(GapBufferError::InvalidCapacity)));
}

#[test]
fn new_buffer_is_empty() {
    let b = GapBuffer::new(4).unwrap();
    assert_eq!(b.length(), 1);
    assert_eq!(b.get_cursor(), 0);
    assert_eq!(b.to_string(), END_MARKER.to_string());
    assert_eq!(b.get_cursor_position(), (0, 0));
}

#[test]
fn capacity_one_grows_on_first_insert() {
    let mut b = GapBuffer::new(1).unwrap();
    b.insert('x');
    assert_eq!(document(&b), "x");
    assert_eq!(b.get_cursor(), 1);
}

#[test]
fn insert_move_to_start_insert() {
    let mut b = GapBuffer::new(4).unwrap();
    b.insert('a');
    b.insert('b');
    b.move_cursor(0);
    b.insert('c');
    assert_eq!(document(&b), "cab");
    assert_eq!(b.get_cursor(), 1);
}

#[test]
fn cursor_row_column_after_line_feed() {
    let mut b = GapBuffer::new(4).unwrap();
    type_str(&mut b, "ab\ncd");
    assert_eq!(b.get_cursor(), 5);
    assert_eq!(b.get_cursor_position(), (1, 2));
}

#[test]
fn cursor_row_column_in_the_middle() {
    let mut b = GapBuffer::new(8).unwrap();
    type_str(&mut b, "one\ntwo\nthree");
    b.move_cursor(4);
    assert_eq!(b.get_cursor_position(), (1, 0));
    b.move_cursor(3);
    assert_eq!(b.get_cursor_position(), (0, 3));
    b.move_cursor(10);
    assert_eq!(b.get_cursor_position(), (2, 2));
    b.move_cursor(0);
    assert_eq!(b.get_cursor_position(), (0, 0));
}

#[test]
fn remove_at_start_returns_nothing() {
    let mut b = GapBuffer::new(4).unwrap();
    assert_eq!(b.remove(), None);
    assert_eq!(b.length() - 1, 0);
    assert_eq!(b.get_cursor(), 0);
    assert_eq!(document(&b), "");
}

#[test]
fn remove_at_start_of_nonempty_document_changes_nothing() {
    let mut b = GapBuffer::new(4).unwrap();
    type_str(&mut b, "xyz");
    b.move_cursor(0);
    assert_eq!(b.remove(), None);
    assert_eq!(document(&b), "xyz");
    assert_eq!(b.get_cursor(), 0);
}

#[test]
fn remove_deletes_character_before_cursor() {
    let mut b = GapBuffer::new(4).unwrap();
    type_str(&mut b, "abcd");
    b.move_cursor(2);
    assert_eq!(b.remove(), Some('b'));
    assert_eq!(document(&b), "acd");
    assert_eq!(b.get_cursor(), 1);
    assert_eq!(b.remove(), Some('a'));
    assert_eq!(b.remove(), None);
    assert_eq!(document(&b), "cd");
}

#[test]
fn length_counts_inserts_minus_removals() {
    let mut b = GapBuffer::new(3).unwrap();
    type_str(&mut b, "hello");
    assert_eq!(b.length(), 6);
    assert_eq!(b.to_string().chars().count(), 6);
    b.remove();
    b.remove();
    assert_eq!(b.length(), 4);
    assert_eq!(b.to_string().chars().count(), 4);
    b.move_cursor(0);
    b.remove();
    assert_eq!(b.length(), 4);
}

#[test]
fn clear_then_insert_round_trips() {
    let mut b = GapBuffer::new(4).unwrap();
    type_str(&mut b, "old text");
    b.clear();
    assert_eq!(document(&b), "");
    assert_eq!(b.get_cursor(), 0);
    type_str(&mut b, "fresh\nstart");
    assert_eq!(document(&b), "fresh\nstart");
}

#[test]
fn load_replaces_document() {
    let mut b = GapBuffer::new(2).unwrap();
    type_str(&mut b, "abc");
    b.move_cursor(1);
    b.load("line one\nline two\n");
    assert_eq!(document(&b), "line one\nline two\n");
    assert_eq!(b.get_cursor(), 18);
    assert_eq!(b.get_cursor_position(), (2, 0));
    b.load("");
    assert_eq!(document(&b), "");
    assert_eq!(b.get_cursor(), 0);
}

#[test]
fn move_to_current_cursor_changes_nothing() {
    let mut b = GapBuffer::new(4).unwrap();
    type_str(&mut b, "abcdef");
    b.move_cursor(3);
    let before = b.to_string();
    b.move_cursor(b.get_cursor());
    assert_eq!(b.to_string(), before);
    assert_eq!(b.get_cursor(), 3);
}

#[test]
fn move_past_end_is_ignored() {
    let mut b = GapBuffer::new(4).unwrap();
    type_str(&mut b, "abc");
    b.move_cursor(1);
    b.move_cursor(4);
    assert_eq!(b.get_cursor(), 1);
    b.move_cursor(3);
    assert_eq!(b.get_cursor(), 3);
    assert_eq!(document(&b), "abc");
}

#[test]
fn moves_left_and_right_keep_document() {
    let mut b = GapBuffer::new(4).unwrap();
    type_str(&mut b, "0123456789");
    b.move_cursor(7);
    b.insert('x');
    b.move_cursor(2);
    b.insert('y');
    b.move_cursor(11);
    b.insert('z');
    assert_eq!(document(&b), "01y23456x78z9");
    assert_eq!(b.get_cursor(), 12);
}

#[test]
fn growth_keeps_existing_content() {
    let mut b = GapBuffer::new(2).unwrap();
    let mut expected = String::new();
    for c in "growing past the first store".chars() {
        let before = document(&b);
        b.insert(c);
        expected.push(c);
        let mut appended = before.clone();
        appended.push(c);
        assert_eq!(document(&b), appended);
    }
    assert_eq!(document(&b), expected);
}

#[test]
fn growth_in_the_middle_keeps_order() {
    let mut b = GapBuffer::new(4).unwrap();
    type_str(&mut b, "abc");
    b.move_cursor(1);
    type_str(&mut b, "XYZ");
    assert_eq!(document(&b), "aXYZbc");
    assert_eq!(b.get_cursor(), 4);
}

#[test]
fn text_ends_with_marker() {
    let mut b = GapBuffer::new(4).unwrap();
    type_str(&mut b, "hi");
    b.move_cursor(1);
    let text = b.to_string();
    assert_eq!(text.chars().last(), Some(END_MARKER));
    assert_eq!(text, format!("hi{}", END_MARKER));
}

#[test]
fn multibyte_characters_are_single_positions() {
    let mut b = GapBuffer::new(2).unwrap();
    type_str(&mut b, "é\nü");
    assert_eq!(b.get_cursor(), 3);
    assert_eq!(b.get_cursor_position(), (1, 1));
    assert_eq!(b.remove(), Some('ü'));
    assert_eq!(document(&b), "é\n");
}
