use zeta::text_input::EditorAction;
use zeta::zeta::Zeta;

#[test]
fn root_starts_with_empty_field() {
    let z = Zeta::new();
    assert_eq!(z.text_input.content, "");
    assert_eq!(z.text_input.placeholder, "Type here...");
    assert_eq!(z.text_input.selected_range, 0..0);
    assert_eq!(z.text_input.marked_range, None);
}

#[test]
fn bindings_cover_the_editing_keys() {
    let b = Zeta::register();
    assert_eq!(b.len(), 21);
    assert_eq!(b[0], ("backspace", EditorAction::Backspace));
    assert!(b.contains(&("cmd-a", EditorAction::SelectAll)));
    assert!(b.contains(&("alt-shift-left", EditorAction::SelectWordLeft)));
    assert_eq!(b[20], ("ctrl-cmd-space", EditorAction::ShowCharacterPalette));
}
