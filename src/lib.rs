//! A single-line text editing engine: byte, grapheme and UTF-16 offsets,
//! a selection with a direction, and an input-method composition range.
pub mod cursor;
pub mod input;
pub mod offsets;
pub mod text;
pub mod text_input;
pub mod zeta;
