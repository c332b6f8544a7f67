use caliber::cursor::CursorBuffer;

#[test]
fn test_new_places_cursor_at_end() {
    let buf = CursorBuffer::new("hello".to_string());
    assert_eq!(buf.cursor_char_pos(), 5);
    assert_eq!(buf.content(), "hello");
}

#[test]
fn test_empty_buffer() {
    let buf = CursorBuffer::empty();
    assert_eq!(buf.cursor_char_pos(), 0);
    assert!(buf.is_empty());
    assert_eq!(buf.content(), "");
}

#[test]
fn test_insert_char_ascii() {
    let mut buf = CursorBuffer::empty();
    buf.insert_char('a');
    buf.insert_char('b');
    buf.insert_char('c');
    assert_eq!(buf.content(), "abc");
    assert_eq!(buf.cursor_char_pos(), 3);
}

#[test]
fn test_insert_char_middle() {
    let mut buf = CursorBuffer::new("ac".to_string());
    buf.move_left();
    buf.insert_char('b');
    assert_eq!(buf.content(), "abc");
}

#[test]
fn test_delete_char_before() {
    let mut buf = CursorBuffer::new("abc".to_string());
    assert!(buf.delete_char_before());
    assert_eq!(buf.content(), "ab");
    assert!(buf.delete_char_before());
    assert_eq!(buf.content(), "a");
    assert!(buf.delete_char_before());
    assert_eq!(buf.content(), "");
    assert!(!buf.delete_char_before());
}

#[test]
fn test_delete_at_start_returns_false() {
    let mut buf = CursorBuffer::new("hello".to_string());
    for _ in 0..5 {
        buf.move_left();
    }
    assert_eq!(buf.cursor_char_pos(), 0);
    assert!(!buf.delete_char_before());
    assert_eq!(buf.content(), "hello");
}

#[test]
fn test_move_left_right() {
    let mut buf = CursorBuffer::new("abc".to_string());
    assert_eq!(buf.cursor_char_pos(), 3);

    buf.move_left();
    assert_eq!(buf.cursor_char_pos(), 2);

    buf.move_left();
    buf.move_left();
    assert_eq!(buf.cursor_char_pos(), 0);

    buf.move_left();
    assert_eq!(buf.cursor_char_pos(), 0);

    buf.move_right();
    assert_eq!(buf.cursor_char_pos(), 1);
}

#[test]
fn test_move_right_boundary() {
    let mut buf = CursorBuffer::new("ab".to_string());
    assert_eq!(buf.cursor_char_pos(), 2);

    buf.move_right();
    assert_eq!(buf.cursor_char_pos(), 2);
}

#[test]
fn test_multibyte_emoji() {
    let mut buf = CursorBuffer::new("a🎉b".to_string());
    assert_eq!(buf.cursor_char_pos(), 3);

    buf.move_left();
    assert_eq!(buf.cursor_char_pos(), 2);

    buf.move_left();
    assert_eq!(buf.cursor_char_pos(), 1);

    buf.move_left();
    assert_eq!(buf.cursor_char_pos(), 0);
}

#[test]
fn test_insert_emoji() {
    let mut buf = CursorBuffer::empty();
    buf.insert_char('👍');
    buf.insert_char('🚀');
    assert_eq!(buf.content(), "👍🚀");
    assert_eq!(buf.cursor_char_pos(), 2);
}

#[test]
fn test_delete_emoji() {
    let mut buf = CursorBuffer::new("a🎉b".to_string());
    buf.move_left();
    buf.delete_char_before();
    assert_eq!(buf.content(), "ab");
}

#[test]
fn test_non_ascii_characters() {
    let mut buf = CursorBuffer::new("café".to_string());
    assert_eq!(buf.cursor_char_pos(), 4);

    buf.delete_char_before();
    assert_eq!(buf.content(), "caf");
    assert_eq!(buf.cursor_char_pos(), 3);
}

#[test]
fn test_japanese_characters() {
    let mut buf = CursorBuffer::new("日本語".to_string());
    assert_eq!(buf.cursor_char_pos(), 3);

    buf.move_left();
    assert_eq!(buf.cursor_char_pos(), 2);

    buf.insert_char('!');
    assert_eq!(buf.content(), "日本!語");
}

#[test]
fn test_cursor_byte_pos_with_multibyte() {
    let buf = CursorBuffer::new("a🎉".to_string());
    assert_eq!(buf.cursor_byte_pos(), 5);

    let mut buf2 = CursorBuffer::new("a🎉".to_string());
    buf2.move_left();
    assert_eq!(buf2.cursor_byte_pos(), 1);

    buf2.move_left();
    assert_eq!(buf2.cursor_byte_pos(), 0);
}

#[test]
fn test_into_content() {
    let buf = CursorBuffer::new("test".to_string());
    let content = buf.into_content();
    assert_eq!(content, "test");
}

#[test]
fn test_move_to_start() {
    let mut buf = CursorBuffer::new("hello".to_string());
    assert_eq!(buf.cursor_char_pos(), 5);
    buf.move_to_start();
    assert_eq!(buf.cursor_char_pos(), 0);
}

#[test]
fn test_move_to_end() {
    let mut buf = CursorBuffer::new("hello".to_string());
    buf.move_to_start();
    assert_eq!(buf.cursor_char_pos(), 0);
    buf.move_to_end();
    assert_eq!(buf.cursor_char_pos(), 5);
}

#[test]
fn test_move_word_left() {
    let mut buf = CursorBuffer::new("hello world test".to_string());
    buf.move_word_left();
    assert_eq!(buf.cursor_char_pos(), 12);

    buf.move_word_left();
    assert_eq!(buf.cursor_char_pos(), 6);

    buf.move_word_left();
    assert_eq!(buf.cursor_char_pos(), 0);

    buf.move_word_left();
    assert_eq!(buf.cursor_char_pos(), 0);
}

#[test]
fn test_move_word_left_with_multiple_spaces() {
    let mut buf = CursorBuffer::new("hello   world".to_string());
    buf.move_word_left();
    assert_eq!(buf.cursor_char_pos(), 8);

    buf.move_word_left();
    assert_eq!(buf.cursor_char_pos(), 0);
}

#[test]
fn test_move_word_right() {
    let mut buf = CursorBuffer::new("hello world test".to_string());
    buf.move_to_start();

    buf.move_word_right();
    assert_eq!(buf.cursor_char_pos(), 6);

    buf.move_word_right();
    assert_eq!(buf.cursor_char_pos(), 12);

    buf.move_word_right();
    assert_eq!(buf.cursor_char_pos(), 16);

    buf.move_word_right();
    assert_eq!(buf.cursor_char_pos(), 16);
}

#[test]
fn test_move_word_right_with_multiple_spaces() {
    let mut buf = CursorBuffer::new("hello   world".to_string());
    buf.move_to_start();

    buf.move_word_right();
    assert_eq!(buf.cursor_char_pos(), 8);
}

#[test]
fn test_delete_char_after() {
    let mut buf = CursorBuffer::new("abc".to_string());
    buf.move_to_start();

    assert!(buf.delete_char_after());
    assert_eq!(buf.content(), "bc");
    assert_eq!(buf.cursor_char_pos(), 0);

    assert!(buf.delete_char_after());
    assert_eq!(buf.content(), "c");

    assert!(buf.delete_char_after());
    assert_eq!(buf.content(), "");

    assert!(!buf.delete_char_after());
}

#[test]
fn test_delete_char_after_at_end() {
    let mut buf = CursorBuffer::new("abc".to_string());
    assert!(!buf.delete_char_after());
    assert_eq!(buf.content(), "abc");
}

#[test]
fn test_delete_word_before() {
    let mut buf = CursorBuffer::new("hello world".to_string());
    buf.delete_word_before();
    assert_eq!(buf.content(), "hello ");
    assert_eq!(buf.cursor_char_pos(), 6);

    buf.delete_word_before();
    assert_eq!(buf.content(), "");
    assert_eq!(buf.cursor_char_pos(), 0);
}

#[test]
fn test_delete_word_before_mid_word() {
    let mut buf = CursorBuffer::new("hello world".to_string());
    buf.move_left();
    buf.move_left();
    buf.delete_word_before();
    assert_eq!(buf.content(), "hello ld");
}

#[test]
fn test_delete_word_after() {
    let mut buf = CursorBuffer::new("hello world test".to_string());
    buf.move_to_start();

    buf.delete_word_after();
    assert_eq!(buf.content(), "world test");
    assert_eq!(buf.cursor_char_pos(), 0);

    buf.delete_word_after();
    assert_eq!(buf.content(), "test");

    buf.delete_word_after();
    assert_eq!(buf.content(), "");
}

#[test]
fn test_delete_to_start() {
    let mut buf = CursorBuffer::new("hello world".to_string());
    buf.move_left();
    buf.move_left();
    buf.move_left();
    buf.move_left();
    buf.move_left();

    buf.delete_to_start();
    assert_eq!(buf.content(), "world");
    assert_eq!(buf.cursor_char_pos(), 0);
}

#[test]
fn test_delete_to_start_at_start() {
    let mut buf = CursorBuffer::new("hello".to_string());
    buf.move_to_start();
    buf.delete_to_start();
    assert_eq!(buf.content(), "hello");
}

#[test]
fn test_delete_to_end() {
    let mut buf = CursorBuffer::new("hello world".to_string());
    buf.move_to_start();
    buf.move_right();
    buf.move_right();
    buf.move_right();
    buf.move_right();
    buf.move_right();
    buf.move_right();

    buf.delete_to_end();
    assert_eq!(buf.content(), "hello ");
    assert_eq!(buf.cursor_char_pos(), 6);
}

#[test]
fn test_delete_to_end_at_end() {
    let mut buf = CursorBuffer::new("hello".to_string());
    buf.delete_to_end();
    assert_eq!(buf.content(), "hello");
}

#[test]
fn test_clear() {
    let mut buf = CursorBuffer::new("hello".to_string());
    buf.clear();
    assert_eq!(buf.content(), "");
    assert_eq!(buf.cursor_char_pos(), 0);
    assert!(buf.is_empty());
}

#[test]
fn test_set_content() {
    let mut buf = CursorBuffer::new("hello".to_string());
    buf.set_content("world");
    assert_eq!(buf.content(), "world");
    assert_eq!(buf.cursor_char_pos(), 5);
}

#[test]
fn test_push() {
    let mut buf = CursorBuffer::empty();
    buf.push('a');
    buf.push('b');
    buf.push('c');
    assert_eq!(buf.content(), "abc");
    assert_eq!(buf.cursor_char_pos(), 3);
}

#[test]
fn test_pop() {
    let mut buf = CursorBuffer::new("abc".to_string());
    assert_eq!(buf.pop(), Some('c'));
    assert_eq!(buf.content(), "ab");
    assert_eq!(buf.cursor_char_pos(), 2);

    assert_eq!(buf.pop(), Some('b'));
    assert_eq!(buf.pop(), Some('a'));
    assert_eq!(buf.pop(), None);
    assert!(buf.is_empty());
}

#[test]
fn test_push_pop_with_cursor_in_middle() {
    let mut buf = CursorBuffer::new("abc".to_string());
    buf.move_left();

    buf.push('d');
    assert_eq!(buf.content(), "abcd");
    assert_eq!(buf.cursor_char_pos(), 4);

    buf.move_to_start();
    buf.pop();
    assert_eq!(buf.content(), "abc");
    assert_eq!(buf.cursor_char_pos(), 3);
}

#[test]
fn test_cursor_display_pos_wide_chars() {
    let mut buf = CursorBuffer::new("a日b".to_string());
    assert_eq!(buf.cursor_display_pos(), 4);
    buf.move_left();
    assert_eq!(buf.cursor_display_pos(), 3);
    buf.move_left();
    assert_eq!(buf.cursor_display_pos(), 1);
    buf.move_left();
    assert_eq!(buf.cursor_display_pos(), 0);
}
