//! The window's root: one text field, and the keys bound to its operations.
use crate::text_input::{EditorAction, TextInput};
use std::ops::Range;
use vstd::prelude::*;

verus! {

/// The keys of the text field and the operations they trigger.
pub open spec fn bindings() -> Seq<(&'static str, EditorAction)> {
    seq![
        ("backspace", EditorAction::Backspace),
        ("delete", EditorAction::Delete),
        ("left", EditorAction::Left),
        ("alt-left", EditorAction::AltLeft),
        ("cmd-left", EditorAction::CmdLeft),
        ("right", EditorAction::Right),
        ("alt-right", EditorAction::AltRight),
        ("cmd-right", EditorAction::CmdRight),
        ("shift-left", EditorAction::SelectLeft),
        ("alt-shift-left", EditorAction::SelectWordLeft),
        ("cmd-shift-left", EditorAction::SelectStart),
        ("shift-right", EditorAction::SelectRight),
        ("alt-shift-right", EditorAction::SelectWordRight),
        ("cmd-shift-right", EditorAction::SelectEnd),
        ("cmd-a", EditorAction::SelectAll),
        ("cmd-v", EditorAction::Paste),
        ("cmd-c", EditorAction::Copy),
        ("cmd-x", EditorAction::Cut),
        ("home", EditorAction::Home),
        ("end", EditorAction::End),
        ("ctrl-cmd-space", EditorAction::ShowCharacterPalette),
    ]
}

/// The root view: a text field with a placeholder.
pub struct Zeta {
    pub text_input: TextInput,
}

impl Zeta {
    pub fn new() -> (r: Self)
        ensures
            r.text_input.wf(),
            r.text_input.content@ == Seq::<char>::empty(),
            r.text_input.placeholder@ == "Type here..."@,
            r.text_input.selected_range == (Range { start: 0usize, end: 0usize }),
            !r.text_input.selection_reversed,
            r.text_input.marked_range is None,
            !r.text_input.is_selecting,
    {
        Self { text_input: TextInput::new("Type here...".to_owned()) }
    }

    /// The key bindings of the text field, in the order they are registered.
    pub fn register() -> (r: Vec<(&'static str, EditorAction)>)
        ensures
            r@ == bindings(),
    {
        let r = vec![
            ("backspace", EditorAction::Backspace),
            ("delete", EditorAction::Delete),
            ("left", EditorAction::Left),
            ("alt-left", EditorAction::AltLeft),
            ("cmd-left", EditorAction::CmdLeft),
            ("right", EditorAction::Right),
            ("alt-right", EditorAction::AltRight),
            ("cmd-right", EditorAction::CmdRight),
            ("shift-left", EditorAction::SelectLeft),
            ("alt-shift-left", EditorAction::SelectWordLeft),
            ("cmd-shift-left", EditorAction::SelectStart),
            ("shift-right", EditorAction::SelectRight),
            ("alt-shift-right", EditorAction::SelectWordRight),
            ("cmd-shift-right", EditorAction::SelectEnd),
            ("cmd-a", EditorAction::SelectAll),
            ("cmd-v", EditorAction::Paste),
            ("cmd-c", EditorAction::Copy),
            ("cmd-x", EditorAction::Cut),
            ("home", EditorAction::Home),
            ("end", EditorAction::End),
            ("ctrl-cmd-space", EditorAction::ShowCharacterPalette),
        ];
        assert(r@ =~= bindings());
        r
    }
}

} // verus!
