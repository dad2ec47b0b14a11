use zeta::offsets::{
    byte_to_utf16, next_boundary_in, next_grapheme_boundary, next_word_boundary,
    previous_boundary_in, previous_grapheme_boundary, previous_word_boundary, utf16_to_byte,
    word_byte,
};

// "a" is 1 byte, "é" 2, "😀" 4 (two UTF-16 units), "b" 1.
const MIXED: &str = "aé😀b";

#[test]
fn byte_to_utf16_counts_code_units() {
    assert_eq!(byte_to_utf16(MIXED, 0), 0);
    assert_eq!(byte_to_utf16(MIXED, 1), 1);
    assert_eq!(byte_to_utf16(MIXED, 3), 2);
    assert_eq!(byte_to_utf16(MIXED, 7), 4);
    assert_eq!(byte_to_utf16(MIXED, 8), 5);
    assert_eq!(byte_to_utf16(MIXED, 100), 5);
}

#[test]
fn byte_to_utf16_inside_a_character_counts_it() {
    assert_eq!(byte_to_utf16(MIXED, 2), 2);
}

#[test]
fn utf16_to_byte_counts_bytes() {
    assert_eq!(utf16_to_byte(MIXED, 0), 0);
    assert_eq!(utf16_to_byte(MIXED, 1), 1);
    assert_eq!(utf16_to_byte(MIXED, 2), 3);
    assert_eq!(utf16_to_byte(MIXED, 4), 7);
    assert_eq!(utf16_to_byte(MIXED, 5), 8);
}

#[test]
fn utf16_to_byte_snaps_and_clamps() {
    // Inside the surrogate pair of the emoji: the end of that character.
    assert_eq!(utf16_to_byte(MIXED, 3), 7);
    // Past the end: the byte length.
    assert_eq!(utf16_to_byte(MIXED, 6), 8);
    assert_eq!(utf16_to_byte(MIXED, 1000), 8);
    assert_eq!(utf16_to_byte("", 3), 0);
}

#[test]
fn utf16_round_trip_on_every_boundary() {
    for b in [0usize, 1, 3, 7, 8] {
        assert_eq!(utf16_to_byte(MIXED, byte_to_utf16(MIXED, b)), b);
    }
}

#[test]
fn grapheme_boundaries_keep_combining_marks() {
    // "e" followed by a combining acute accent forms one cluster of 3 bytes.
    let text = "e\u{301}x";
    assert_eq!(next_grapheme_boundary(text, 0), 3);
    assert_eq!(next_grapheme_boundary(text, 3), 4);
    assert_eq!(next_grapheme_boundary(text, 4), 4);
    assert_eq!(previous_grapheme_boundary(text, 4), 3);
    assert_eq!(previous_grapheme_boundary(text, 3), 0);
    assert_eq!(previous_grapheme_boundary(text, 0), 0);
}

#[test]
fn grapheme_step_back_returns_to_boundary() {
    let text = "ae\u{301}😀";
    for b in [0usize, 1, 4] {
        assert_eq!(previous_grapheme_boundary(text, next_grapheme_boundary(text, b)), b);
    }
}

#[test]
fn boundary_search_in_a_list() {
    let starts = vec![0usize, 2, 5];
    assert_eq!(next_boundary_in(&starts, 0, 9), 2);
    assert_eq!(next_boundary_in(&starts, 2, 9), 5);
    assert_eq!(next_boundary_in(&starts, 5, 9), 9);
    assert_eq!(previous_boundary_in(&starts, 5), 2);
    assert_eq!(previous_boundary_in(&starts, 3), 2);
    assert_eq!(previous_boundary_in(&starts, 0), 0);
}

#[test]
fn word_boundaries_hello_world() {
    assert_eq!(next_word_boundary("hello world", 0), 5);
    assert_eq!(next_word_boundary("hello world", 5), 11);
    assert_eq!(next_word_boundary("hello world", 11), 11);
    assert_eq!(previous_word_boundary("hello world", 11), 6);
    assert_eq!(previous_word_boundary("hello world", 6), 0);
    assert_eq!(previous_word_boundary("hello world", 5), 0);
    assert_eq!(previous_word_boundary("hello world", 0), 0);
}

#[test]
fn word_boundaries_treat_non_ascii_as_separators() {
    // "é" is two non-word bytes.
    assert_eq!(next_word_boundary("é ab", 0), 5);
    assert_eq!(previous_word_boundary("abé", 4), 0);
    assert_eq!(previous_word_boundary("ab é", 5), 0);
}

#[test]
fn word_bytes_are_ascii_alphanumeric() {
    for b in 0u8..=255 {
        assert_eq!(word_byte(b), b.is_ascii_alphanumeric());
    }
}
