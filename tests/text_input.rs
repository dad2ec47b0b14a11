use zeta::text_input::{check_text_range, single_line, EditError, TextInput};

fn field(text: &str) -> TextInput {
    let mut t = TextInput::new(String::from("Type here..."));
    t.replace_range(None, text).unwrap();
    t
}

#[test]
fn new_field_is_empty() {
    let t = TextInput::new(String::from("Type here..."));
    assert_eq!(t.content, "");
    assert_eq!(t.placeholder, "Type here...");
    assert_eq!(t.selected_range, 0..0);
    assert!(!t.selection_reversed);
    assert_eq!(t.marked_range, None);
    assert_eq!(t.cursor_offset(), 0);
}

#[test]
fn move_to_collapses_selection() {
    let mut t = field("hello");
    assert_eq!(t.move_to(2), Ok(()));
    assert_eq!(t.selected_range, 2..2);
    assert_eq!(t.move_to(9), Err(EditError::InvalidRange));
    assert_eq!(t.selected_range, 2..2);
}

#[test]
fn select_to_flips_when_crossing_anchor() {
    let mut t = field("hello world");
    t.move_to(5).unwrap();
    t.select_to(11).unwrap();
    assert_eq!(t.selected_range, 5..11);
    assert!(!t.selection_reversed);
    t.select_to(0).unwrap();
    assert_eq!(t.selected_range, 0..5);
    assert!(t.selection_reversed);
    assert_eq!(t.cursor_offset(), 0);
    assert_eq!(t.select_to(12), Err(EditError::InvalidRange));
}

#[test]
fn selection_stays_ordered_over_moves() {
    let mut t = field("hello world");
    for (extend, offset) in [(false, 3), (true, 8), (true, 1), (true, 11), (false, 0), (true, 6)] {
        if extend {
            t.select_to(offset).unwrap();
        } else {
            t.move_to(offset).unwrap();
        }
        assert!(t.selected_range.start <= t.selected_range.end);
    }
}

#[test]
fn backspace_at_caret_removes_previous_grapheme() {
    let mut t = field("ab");
    assert_eq!(t.selected_range, 2..2);
    assert_eq!(t.backspace(), Ok(()));
    assert_eq!(t.content, "a");
    assert_eq!(t.selected_range, 1..1);
}

#[test]
fn backspace_removes_whole_cluster() {
    let mut t = field("xe\u{301}");
    t.backspace().unwrap();
    assert_eq!(t.content, "x");
    assert_eq!(t.cursor_offset(), 1);
}

#[test]
fn delete_removes_next_grapheme_or_selection() {
    let mut t = field("abc");
    t.move_to(0).unwrap();
    t.delete().unwrap();
    assert_eq!(t.content, "bc");
    t.move_to(0).unwrap();
    t.select_to(2).unwrap();
    t.delete().unwrap();
    assert_eq!(t.content, "");
    assert_eq!(t.selected_range, 0..0);
}

#[test]
fn replace_range_then_read_back() {
    let mut t = field("hello world");
    assert_eq!(t.replace_range(Some(0..5), "hi"), Ok(()));
    assert_eq!(t.content, "hi world");
    assert_eq!(t.selected_range, 2..2);
    assert_eq!(t.text_in_range(0..2), Ok(String::from("hi")));
}

#[test]
fn replace_range_clears_marked_range() {
    let mut t = field("abc");
    t.replace_and_mark_range(Some(1..2), "xy", None).unwrap();
    assert_eq!(t.marked_range, Some(1..3));
    t.replace_range(Some(0..0), "z").unwrap();
    assert_eq!(t.marked_range, None);
    assert_eq!(t.content, "zaxyc");
}

#[test]
fn replace_range_errors_leave_state() {
    let mut t = field("é");
    assert_eq!(t.replace_range(Some(1..2), "x"), Err(EditError::MisalignedOffset));
    assert_eq!(t.replace_range(Some(2..1), "x"), Err(EditError::InvalidRange));
    assert_eq!(t.replace_range(Some(0..3), "x"), Err(EditError::InvalidRange));
    assert_eq!(t.content, "é");
    assert_eq!(t.selected_range, 2..2);
    assert_eq!(t.text_in_range(0..1), Err(EditError::MisalignedOffset));
}

#[test]
fn composition_marks_then_commits() {
    let mut t = TextInput::new(String::from(""));
    assert_eq!(t.replace_and_mark_range(None, "é", None), Ok(()));
    assert_eq!(t.content, "é");
    assert_eq!(t.marked_range, Some(0.."é".len()));
    assert_eq!(t.selected_range, 2..2);
    assert_eq!(t.replace_range(None, "é"), Ok(()));
    assert_eq!(t.content, "é");
    assert_eq!(t.marked_range, None);
    assert_eq!(t.selected_range, 2..2);
}

#[test]
fn composition_with_empty_text_cancels() {
    let mut t = field("ab");
    t.replace_and_mark_range(None, "xyz", Some(1..2)).unwrap();
    assert_eq!(t.content, "abxyz");
    assert_eq!(t.marked_range, Some(2..5));
    assert_eq!(t.selected_range, 3..4);
    t.replace_and_mark_range(None, "", None).unwrap();
    assert_eq!(t.content, "ab");
    assert_eq!(t.marked_range, None);
    assert_eq!(
        t.replace_and_mark_range(None, "q", Some(0..2)),
        Err(EditError::InvalidRange)
    );
    assert_eq!(t.content, "ab");
}

#[test]
fn utf16_edits_translate_offsets() {
    let mut t = field("a😀b");
    // UTF-16: a=0, emoji=1..3, b=3..4.
    assert_eq!(t.replace_text_in_range(Some(3..4), "c"), Ok(()));
    assert_eq!(t.content, "a😀c");
    assert_eq!(t.selected_range, 6..6);
    assert_eq!(t.selected_text_range(), (4..4, false));
    assert_eq!(t.replace_text_in_range(Some(3..1), "c"), Err(EditError::InvalidRange));
}

#[test]
fn utf16_marking_selects_within_new_text() {
    let mut t = field("a");
    t.replace_and_mark_text_in_range(None, "😀x", Some(2..3)).unwrap();
    assert_eq!(t.content, "a😀x");
    assert_eq!(t.marked_range, Some(1..6));
    assert_eq!(t.marked_text_range(), Some(1..4));
    assert_eq!(t.selected_range, 5..6);
    t.unmark_text();
    assert_eq!(t.marked_range, None);
    assert_eq!(t.content, "a😀x");
}

#[test]
fn text_for_range_reports_actual_range() {
    let t = field("a😀b");
    assert_eq!(t.text_for_range(1..3), Ok((String::from("😀"), 1..3)));
    // Inside the surrogate pair: snaps to the end of the emoji.
    assert_eq!(t.text_for_range(2..4), Ok((String::from("b"), 3..4)));
    assert_eq!(t.text_for_range(0..99), Ok((String::from("a😀b"), 0..4)));
    assert_eq!(t.text_for_range(3..1), Err(EditError::InvalidRange));
}

#[test]
fn utf16_conversions_on_field() {
    let t = field("é😀");
    assert_eq!(t.offset_to_utf16(2), 1);
    assert_eq!(t.offset_from_utf16(1), 2);
    assert_eq!(t.range_to_utf16(&(0..6)), 0..3);
    assert_eq!(t.range_from_utf16(&(1..3)), 2..6);
}

#[test]
fn arrows_move_by_grapheme_and_collapse() {
    let mut t = field("ae\u{301}b");
    t.left();
    assert_eq!(t.selected_range, 4..4);
    t.left();
    assert_eq!(t.selected_range, 1..1);
    t.right();
    assert_eq!(t.selected_range, 4..4);
    t.select_to(0).unwrap();
    t.right();
    assert_eq!(t.selected_range, 4..4);
    t.select_to(0).unwrap();
    t.left();
    assert_eq!(t.selected_range, 0..0);
}

#[test]
fn word_and_line_moves() {
    let mut t = field("hello world");
    t.alt_left();
    assert_eq!(t.selected_range, 6..6);
    t.alt_left();
    assert_eq!(t.selected_range, 0..0);
    t.alt_right();
    assert_eq!(t.selected_range, 5..5);
    t.cmd_right();
    assert_eq!(t.selected_range, 11..11);
    t.cmd_left();
    assert_eq!(t.selected_range, 0..0);
    t.end();
    assert_eq!(t.selected_range, 11..11);
    t.home();
    assert_eq!(t.selected_range, 0..0);
}

#[test]
fn selection_actions() {
    let mut t = field("hello world");
    t.select_left();
    assert_eq!(t.selected_range, 10..11);
    assert!(t.selection_reversed);
    t.select_word_left();
    assert_eq!(t.selected_range, 6..11);
    t.select_start();
    assert_eq!(t.selected_range, 0..11);
    t.select_right();
    assert_eq!(t.selected_range, 1..11);
    t.select_word_right();
    assert_eq!(t.selected_range, 5..11);
    t.select_end();
    assert_eq!(t.selected_range, 11..11);
    t.select_all();
    assert_eq!(t.selected_range, 0..11);
    assert!(!t.selection_reversed);
}

#[test]
fn copy_cut_paste() {
    let mut t = field("hello world");
    assert_eq!(t.copy(), None);
    assert_eq!(t.cut(), Ok(None));
    t.move_to(0).unwrap();
    t.select_to(5).unwrap();
    assert_eq!(t.copy(), Some(String::from("hello")));
    assert_eq!(t.cut(), Ok(Some(String::from("hello"))));
    assert_eq!(t.content, " world");
    assert_eq!(t.selected_range, 0..0);
    assert_eq!(t.paste("a\nb\n"), Ok(()));
    assert_eq!(t.content, "a b  world");
    assert_eq!(t.selected_range, 4..4);
}

#[test]
fn mouse_drag_selects() {
    let mut t = field("hello");
    assert_eq!(t.on_mouse_down(1, false), Ok(()));
    assert!(t.is_selecting);
    assert_eq!(t.selected_range, 1..1);
    assert_eq!(t.on_mouse_move(4), Ok(()));
    assert_eq!(t.selected_range, 1..4);
    t.on_mouse_up();
    assert!(!t.is_selecting);
    assert_eq!(t.on_mouse_move(0), Ok(()));
    assert_eq!(t.selected_range, 1..4);
    assert_eq!(t.on_mouse_down(3, true), Ok(()));
    assert_eq!(t.selected_range, 1..3);
    assert_eq!(t.on_mouse_down(9, false), Err(EditError::InvalidRange));
}

#[test]
fn content_len_is_bytes() {
    let t = field("é😀");
    assert_eq!(t.content_len(), 6);
}

#[test]
fn sub_selection_inside_a_character_is_refused() {
    let mut t = field("ab");
    assert_eq!(
        t.replace_and_mark_range(None, "é", Some(0..1)),
        Err(EditError::MisalignedOffset)
    );
    assert_eq!(t.content, "ab");
    assert_eq!(t.marked_range, None);
    assert_eq!(t.replace_and_mark_range(None, "é", Some(0..2)), Ok(()));
    assert_eq!(t.selected_range, 2..4);
}

#[test]
fn refused_backspace_changes_nothing() {
    let mut t = field("éa");
    t.marked_range = Some(1..2);
    assert_eq!(t.backspace(), Err(EditError::MisalignedOffset));
    assert_eq!(t.content, "éa");
    assert_eq!(t.selected_range, 3..3);
    assert!(!t.selection_reversed);
    assert_eq!(t.marked_range, Some(1..2));
    assert_eq!(t.delete(), Err(EditError::MisalignedOffset));
    assert_eq!(t.selected_range, 3..3);
}

#[test]
fn single_line_turns_line_feeds_into_spaces() {
    assert_eq!(single_line("a\nb"), "a b");
    assert_eq!(single_line("\né\n"), " é ");
    assert_eq!(single_line(""), "");
    assert_eq!(single_line("plain"), "plain");
}

#[test]
fn text_ranges_are_checked_on_any_text() {
    assert_eq!(check_text_range("é", &(0..2)), Ok(()));
    assert_eq!(check_text_range("é", &(0..1)), Err(EditError::MisalignedOffset));
    assert_eq!(check_text_range("é", &(0..3)), Err(EditError::InvalidRange));
}

#[test]
fn utf16_replace_then_read_back() {
    let mut t = field("a😀b");
    t.replace_text_in_range(Some(1..3), "xy").unwrap();
    assert_eq!(t.content, "axyb");
    let covered = t.range_to_utf16(&(1..3));
    assert_eq!(t.text_for_range(covered).unwrap().0, "xy");
}
