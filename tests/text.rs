use zeta::text::{blank, white_space, word_left_in, word_right_in, TextBuffer};

fn buffer(text: &str) -> TextBuffer {
    let mut b = TextBuffer::new();
    for ch in text.chars() {
        b.insert_char(ch);
    }
    b
}

#[test]
fn insert_and_read() {
    let b = buffer("hi there");
    assert_eq!(b.as_str(), "hi there");
    assert_eq!(b.get_cursor_index(), 8);
}

#[test]
fn char_moves_stay_in_bounds() {
    let mut b = buffer("ab");
    b.move_right_char();
    assert_eq!(b.get_cursor_index(), 2);
    b.move_left_char();
    b.move_left_char();
    b.move_left_char();
    assert_eq!(b.get_cursor_index(), 0);
    b.move_to_end();
    assert_eq!(b.get_cursor_index(), 2);
    b.move_to_start();
    assert_eq!(b.get_cursor_index(), 0);
}

#[test]
fn word_moves_over_clusters() {
    let mut b = buffer("one two  three");
    b.move_to_start();
    b.move_right_word();
    assert_eq!(b.get_cursor_index(), 3);
    b.move_right_word();
    assert_eq!(b.get_cursor_index(), 7);
    b.move_right_word();
    assert_eq!(b.get_cursor_index(), 14);
    b.move_left_word();
    assert_eq!(b.get_cursor_index(), 9);
    b.move_left_word();
    assert_eq!(b.get_cursor_index(), 4);
    b.move_left_word();
    assert_eq!(b.get_cursor_index(), 0);
    b.move_left_word();
    assert_eq!(b.get_cursor_index(), 0);
}

#[test]
fn deletions() {
    let mut b = buffer("one two");
    b.delete_char();
    assert_eq!(b.as_str(), "one tw");
    assert_eq!(b.get_cursor_index(), 6);
    b.delete_word();
    assert_eq!(b.as_str(), "one ");
    assert_eq!(b.get_cursor_index(), 4);
    b.insert_char('x');
    b.move_left_char();
    b.delete_to_start();
    assert_eq!(b.as_str(), "x");
    assert_eq!(b.get_cursor_index(), 0);
    b.delete_char();
    assert_eq!(b.as_str(), "x");
}

#[test]
fn delete_stops_at_end() {
    let mut b = buffer("abcdef");
    b.delete(2, 2);
    assert_eq!(b.as_str(), "abef");
    b.delete(1, usize::MAX);
    assert_eq!(b.as_str(), "a");
}

#[test]
fn word_search_on_cluster_lists() {
    let gs: Vec<String> = ["a", "b", " ", "c"].iter().map(|s| s.to_string()).collect();
    assert_eq!(word_right_in(&gs, 0), 2);
    assert_eq!(word_right_in(&gs, 2), 4);
    assert_eq!(word_right_in(&gs, 9), 4);
    assert_eq!(word_left_in(&gs, 4), 3);
    assert_eq!(word_left_in(&gs, 3), 0);
    assert_eq!(word_left_in(&gs, 0), 0);
}

#[test]
fn white_space_matches_std() {
    for c in ['a', ' ', '\t', '\n', '\u{a0}', '\u{2003}', '\u{3000}', '\u{200b}', 'é'] {
        assert_eq!(white_space(c), c.is_whitespace());
    }
    assert!(blank(" \t"));
    assert!(blank(""));
    assert!(!blank(" x "));
}
