use stratuscode::editor::{backspace, insert_char, move_left, move_right};
use stratuscode::IMAGE_MARKER;

#[test]
fn test_cursor_ascii() {
    let mut input = String::new();
    let mut cursor = 0usize;

    insert_char(&mut input, &mut cursor, 'H');
    insert_char(&mut input, &mut cursor, 'i');

    assert_eq!(input, "Hi");
    assert_eq!(cursor, 2);
    assert!(input.is_char_boundary(cursor));
}

#[test]
fn test_backspace_ascii() {
    let mut input = String::from("Hello");
    let mut cursor = 5;

    let removed = backspace(&mut input, &mut cursor);
    assert_eq!(removed, Some('o'));
    assert_eq!(input, "Hell");
    assert_eq!(cursor, 4);
    assert!(input.is_char_boundary(cursor));
}

#[test]
fn test_cursor_emoji() {
    let mut input = String::new();
    let mut cursor = 0usize;

    insert_char(&mut input, &mut cursor, '\u{1F389}');
    assert_eq!(cursor, 4);
    assert!(input.is_char_boundary(cursor));

    insert_char(&mut input, &mut cursor, '!');
    assert_eq!(input, "\u{1F389}!");
    assert_eq!(cursor, 5);
    assert!(input.is_char_boundary(cursor));
}

#[test]
fn test_backspace_emoji() {
    let mut input = String::new();
    let mut cursor = 0usize;

    insert_char(&mut input, &mut cursor, 'T');
    insert_char(&mut input, &mut cursor, 'e');
    insert_char(&mut input, &mut cursor, 's');
    insert_char(&mut input, &mut cursor, 't');
    insert_char(&mut input, &mut cursor, '\u{1F389}');

    assert_eq!(input, "Test\u{1F389}");
    assert_eq!(cursor, 8);

    let removed = backspace(&mut input, &mut cursor);
    assert_eq!(removed, Some('\u{1F389}'));
    assert_eq!(input, "Test");
    assert_eq!(cursor, 4);
    assert!(input.is_char_boundary(cursor));
}

#[test]
fn test_cursor_cjk() {
    let mut input = String::new();
    let mut cursor = 0usize;

    insert_char(&mut input, &mut cursor, '\u{4E16}');
    assert_eq!(cursor, 3);
    assert!(input.is_char_boundary(cursor));

    insert_char(&mut input, &mut cursor, '\u{754C}');
    assert_eq!(input, "\u{4E16}\u{754C}");
    assert_eq!(cursor, 6);
    assert!(input.is_char_boundary(cursor));
}

#[test]
fn test_backspace_cjk() {
    let mut input = String::new();
    let mut cursor = 0usize;

    insert_char(&mut input, &mut cursor, '\u{4E16}');
    insert_char(&mut input, &mut cursor, '\u{754C}');

    let removed = backspace(&mut input, &mut cursor);
    assert_eq!(removed, Some('\u{754C}'));
    assert_eq!(input, "\u{4E16}");
    assert_eq!(cursor, 3);
    assert!(input.is_char_boundary(cursor));
}

#[test]
fn test_cursor_mixed_ascii_emoji_cjk() {
    let mut input = String::new();
    let mut cursor = 0usize;

    insert_char(&mut input, &mut cursor, 'H');
    insert_char(&mut input, &mut cursor, '\u{1F389}');
    insert_char(&mut input, &mut cursor, '\u{4E16}');
    insert_char(&mut input, &mut cursor, '!');

    assert_eq!(input, "H\u{1F389}\u{4E16}!");
    assert_eq!(cursor, 9);
    assert!(input.is_char_boundary(cursor));
}

#[test]
fn test_backspace_mixed_content() {
    let mut input = String::new();
    let mut cursor = 0usize;

    insert_char(&mut input, &mut cursor, 'a');
    insert_char(&mut input, &mut cursor, '\u{1F389}');
    insert_char(&mut input, &mut cursor, 'b');

    backspace(&mut input, &mut cursor);
    assert_eq!(input, "a\u{1F389}");
    assert!(input.is_char_boundary(cursor));

    backspace(&mut input, &mut cursor);
    assert_eq!(input, "a");
    assert_eq!(cursor, 1);
    assert!(input.is_char_boundary(cursor));

    backspace(&mut input, &mut cursor);
    assert_eq!(input, "");
    assert_eq!(cursor, 0);
}

#[test]
fn test_left_right_with_unicode() {
    let mut input = String::new();
    let mut cursor = 0usize;

    insert_char(&mut input, &mut cursor, 'a');
    insert_char(&mut input, &mut cursor, '\u{1F389}');
    insert_char(&mut input, &mut cursor, '\u{4E16}');

    move_left(&input, &mut cursor);
    assert_eq!(cursor, 5);
    assert!(input.is_char_boundary(cursor));

    move_left(&input, &mut cursor);
    assert_eq!(cursor, 1);
    assert!(input.is_char_boundary(cursor));

    move_right(&input, &mut cursor);
    assert_eq!(cursor, 5);
    assert!(input.is_char_boundary(cursor));
}

#[test]
fn test_backspace_empty() {
    let mut input = String::new();
    let mut cursor = 0usize;

    let removed = backspace(&mut input, &mut cursor);
    assert_eq!(removed, None);
    assert_eq!(cursor, 0);
}

#[test]
fn test_insert_delete_reinsert() {
    let mut input = String::new();
    let mut cursor = 0usize;

    insert_char(&mut input, &mut cursor, '\u{1F389}');
    backspace(&mut input, &mut cursor);
    insert_char(&mut input, &mut cursor, 'a');

    assert_eq!(input, "a");
    assert_eq!(cursor, 1);
    assert!(input.is_char_boundary(cursor));
}

#[test]
fn test_image_marker_cursor() {
    let mut input = String::new();
    let mut cursor = 0usize;

    insert_char(&mut input, &mut cursor, IMAGE_MARKER);
    assert_eq!(cursor, IMAGE_MARKER.len_utf8());
    assert!(input.is_char_boundary(cursor));

    let removed = backspace(&mut input, &mut cursor);
    assert_eq!(removed, Some(IMAGE_MARKER));
    assert_eq!(cursor, 0);
    assert!(input.is_empty());
}

#[test]
fn test_paste_unicode_cursor() {
    let mut input = String::new();
    let mut cursor = 0usize;

    let text = "Hello \u{1F30D}!";
    input.insert_str(cursor, text);
    cursor += text.len();

    assert_eq!(cursor, 11);
    assert!(input.is_char_boundary(cursor));
}

#[test]
fn test_left_at_boundary_zero() {
    let input = String::from("abc");
    let mut cursor = 0usize;

    move_left(&input, &mut cursor);
    assert_eq!(cursor, 0);
}

#[test]
fn test_right_at_end() {
    let input = String::from("abc");
    let mut cursor = 3usize;

    move_right(&input, &mut cursor);
    assert_eq!(cursor, 3);
}
