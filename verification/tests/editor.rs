use element::editor::buffer::{time_date_string, TextBuffer};
use element::editor::find::FindState;

#[test]
fn new_buffer_is_empty_and_clean() {
    let b = TextBuffer::new();
    assert_eq!(b.text, "");
    assert_eq!(b.cursor_offset, 0);
    assert_eq!((b.cursor_line, b.cursor_col), (1, 1));
    assert!(!b.is_dirty());
    assert_eq!(b.file_name(), "Untitled");
    assert_eq!(b.error(), "");
}

#[test]
fn typing_moves_cursor_and_dirties() {
    let mut b = TextBuffer::from_string("ab".to_string());
    assert!(!b.is_dirty());
    b.set_cursor(2);
    b.insert_char('c');
    assert_eq!(b.text, "abc");
    assert_eq!(b.cursor_offset, 3);
    assert_eq!((b.cursor_line, b.cursor_col), (1, 4));
    assert!(b.is_dirty());
    b.insert_newline();
    b.insert_str("xy");
    assert_eq!(b.text, "abc\nxy");
    assert_eq!((b.cursor_line, b.cursor_col), (2, 3));
}

#[test]
fn insert_then_delete_backward_restores() {
    let mut b = TextBuffer::from_string("hello".to_string());
    b.set_cursor(3);
    b.insert_char('X');
    assert_eq!(b.text, "helXlo");
    assert!(b.delete_backward());
    assert_eq!(b.text, "hello");
    assert_eq!(b.cursor_offset, 3);
}

#[test]
fn delete_at_edges_does_nothing() {
    let mut b = TextBuffer::from_string("ab".to_string());
    assert!(!b.delete_backward());
    b.set_cursor(2);
    assert!(!b.delete_forward());
    assert_eq!(b.text, "ab");
    b.set_cursor(0);
    assert!(b.delete_forward());
    assert_eq!(b.text, "b");
}

#[test]
fn delete_forward_removes_whole_character() {
    let mut b = TextBuffer::from_string("é!".to_string());
    assert!(b.delete_forward());
    assert_eq!(b.text, "!");
}

#[test]
fn home_and_end_follow_the_line() {
    let mut b = TextBuffer::from_string("one\ntwo three\nfour".to_string());
    b.set_cursor(6);
    b.home();
    assert_eq!(b.cursor_offset, 4);
    assert_eq!((b.cursor_line, b.cursor_col), (2, 1));
    b.end();
    assert_eq!(b.cursor_offset, 13);
    assert_eq!((b.cursor_line, b.cursor_col), (2, 10));
}

#[test]
fn cursor_up_and_down_keep_column() {
    let mut b = TextBuffer::from_string("abcd\nefgh\nij".to_string());
    b.set_cursor(7);
    assert_eq!((b.cursor_line, b.cursor_col), (2, 3));
    b.cursor_up();
    assert_eq!(b.cursor_offset, 2);
    b.cursor_down();
    assert_eq!(b.cursor_offset, 7);
    b.cursor_down();
    // the last line is shorter: the cursor goes to its end
    assert_eq!(b.cursor_offset, 12);
    b.set_cursor(1);
    b.cursor_up();
    assert_eq!(b.cursor_offset, 0);
}

#[test]
fn cursor_left_right_step_over_characters() {
    let mut b = TextBuffer::from_string("ab".to_string());
    b.cursor_right();
    assert_eq!(b.cursor_offset, 1);
    b.cursor_right();
    b.cursor_right();
    assert_eq!(b.cursor_offset, 2);
    b.cursor_left();
    assert_eq!(b.cursor_offset, 1);
    b.cursor_left();
    b.cursor_left();
    assert_eq!(b.cursor_offset, 0);
}

#[test]
fn set_cursor_clamps_to_end() {
    let mut b = TextBuffer::from_string("abc".to_string());
    b.set_cursor(99);
    assert_eq!(b.cursor_offset, 3);
}

#[test]
fn new_file_and_saving_reset_state() {
    let mut b = TextBuffer::from_loaded("notes/todo.txt".to_string(), "x".to_string());
    assert_eq!(b.file_name(), "todo.txt");
    b.insert_char('y');
    assert!(b.is_dirty());
    b.set_error("Error saving: denied".to_string());
    assert_eq!(b.error(), "Error saving: denied");
    b.clear_error();
    assert_eq!(b.error(), "");
    b.mark_saved("notes/todo.txt".to_string());
    assert!(!b.is_dirty());
    b.new_file();
    assert_eq!(b.text, "");
    assert!(b.file_path.is_none());
}

#[test]
fn time_date_text_is_zero_padded() {
    // 1 day, 2 h, 3 min, 4 s after the epoch
    let s = time_date_string(86400 + 2 * 3600 + 3 * 60 + 4);
    assert_eq!(s, "02:03:04 02/01/2026");
    let mut b = TextBuffer::new();
    b.insert_time_date_at(0);
    assert_eq!(b.text, "00:00:00 01/01/2026");
    assert_eq!(b.cursor_offset, 19);
}

#[test]
fn find_next_moves_to_matches_and_wraps() {
    let mut b = TextBuffer::from_string("cat dog cat".to_string());
    let mut f = FindState::default();
    f.query = "cat".to_string();
    f.find_next(&mut b);
    assert_eq!(b.cursor_offset, 0);
    assert_eq!(f.match_count, 2);
    f.find_next(&mut b);
    assert_eq!(b.cursor_offset, 8);
    f.find_next(&mut b);
    assert_eq!(b.cursor_offset, 0);
}

#[test]
fn find_next_without_match_resets() {
    let mut b = TextBuffer::from_string("abc".to_string());
    let mut f = FindState::default();
    f.query = "zz".to_string();
    f.find_next(&mut b);
    assert_eq!(f.match_count, 0);
    assert_eq!(f.last_pos, None);
    f.query = String::new();
    f.match_count = 5;
    f.find_next(&mut b);
    assert_eq!(f.match_count, 0);
    f.match_count = 3;
    f.reset();
    assert_eq!(f.match_count, 0);
    assert_eq!(f.last_pos, None);
}

#[test]
fn right_then_left_restores_the_offset() {
    let mut b = TextBuffer::from_string("abc".to_string());
    b.set_cursor(1);
    b.cursor_right();
    b.cursor_left();
    assert_eq!(b.cursor_offset, 1);
    // two-byte characters on both sides of the cursor
    let mut b = TextBuffer::from_string("ééé".to_string());
    b.set_cursor(2);
    b.cursor_right();
    assert_eq!(b.cursor_offset, 4);
    b.cursor_left();
    assert_eq!(b.cursor_offset, 2);
    assert_eq!(b.text, "ééé");
}

#[test]
fn editing_back_to_the_saved_text_is_clean() {
    let mut b = TextBuffer::from_string("note".to_string());
    assert!(!b.is_dirty());
    b.set_cursor(4);
    b.insert_char('x');
    assert!(b.is_dirty());
    assert!(b.delete_backward());
    assert!(!b.is_dirty());
}
