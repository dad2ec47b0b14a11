use zeta::input::{is_key, TerminalInput};

#[test]
fn typing_and_arrows() {
    let mut t = TerminalInput::new();
    assert_eq!(t.render_content(), "|");
    assert!(t.on_key_down("h", false));
    assert!(t.on_key_down("i", false));
    assert!(t.on_key_down("space", false));
    assert!(t.on_key_down("you", false));
    assert_eq!(t.render_content(), "hi y|");
    assert!(t.on_key_down("left", false));
    assert_eq!(t.render_content(), "hi |y");
    assert!(t.on_key_down("left", true));
    assert_eq!(t.render_content(), "|hi y");
    assert!(t.on_key_down("right", true));
    assert_eq!(t.render_content(), "hi| y");
    assert!(t.on_key_down("right", false));
    assert_eq!(t.render_content(), "hi |y");
    assert!(t.on_key_down("backspace", false));
    assert_eq!(t.render_content(), "hi|y");
    assert!(!t.on_key_down("", false));
    assert_eq!(t.render_content(), "hi|y");
}

#[test]
fn caret_bar_counts_characters() {
    let mut t = TerminalInput::new();
    t.on_key_down("é", false);
    t.on_key_down("b", false);
    t.on_key_down("left", false);
    assert_eq!(t.render_content(), "é|b");
}

#[test]
fn key_names_compare_exactly() {
    assert!(is_key("left", "left"));
    assert!(!is_key("left", "lef"));
    assert!(!is_key("Left", "left"));
}
