//! Key handling of a terminal-style input line over a `TextBuffer`.
use crate::offsets::{
    char_utf8_width, chars_of, lemma_encode_injective,
    lemma_prefix_is_char_boundary, lemma_split_bytes, lemma_utf8_len_prefix_le,
    lemma_utf8_len_push, utf8_len,
};
use crate::text::{graphemes_of, word_left, word_right, TextBuffer};
use vstd::prelude::*;
use vstd::string::StringExecFns;

verus! {

/// Whether `key` names the key `name`.
pub fn is_key(key: &str, name: &str) -> (r: bool)
    ensures
        r == (key@ == name@),
{
    key.to_owned() == name.to_owned()
}

/// `post` is `pre` after the key `key` went down, with `alt` held: arrows
/// move by character, or by word with `alt`; "space" types a space;
/// "backspace" deletes back; any other key types its first character.
pub open spec fn key_effect(pre: TextBuffer, post: TextBuffer, key: Seq<char>, alt: bool) -> bool {
    let c = pre.chars();
    let k = pre.caret();
    if key == "left"@ {
        post.chars() == c && post.caret() == if alt {
            word_left(graphemes_of(c), k as int)
        } else if k > 0 {
            k - 1
        } else {
            0int
        }
    } else if key == "right"@ {
        post.chars() == c && post.caret() == if alt {
            word_right(graphemes_of(c), k as int)
        } else if k < c.len() {
            k + 1int
        } else {
            k as int
        }
    } else if key == "space"@ {
        post.chars() == c.insert(k as int, ' ') && post.caret() == k + 1
    } else if key == "backspace"@ {
        if k > 0 {
            post.chars() == c.remove(k - 1) && post.caret() == k - 1
        } else {
            post == pre
        }
    } else if key.len() > 0 {
        post.chars() == c.insert(k as int, key[0]) && post.caret() == k + 1
    } else {
        post == pre
    }
}

/// A single input line driven by key presses.
pub struct TerminalInput {
    input_buffer: TextBuffer,
}

impl TerminalInput {
    /// The buffer behind the line.
    pub closed spec fn buffer(&self) -> TextBuffer {
        self.input_buffer
    }

    pub open spec fn wf(&self) -> bool {
        self.buffer().wf()
    }

    pub fn new() -> (r: Self)
        ensures
            r.wf(),
            r.buffer().chars() == Seq::<char>::empty(),
            r.buffer().caret() == 0,
    {
        Self { input_buffer: TextBuffer::new() }
    }

    /// Applies the key `key` pressed with `alt`; returns whether the line
    /// should be drawn again, which is every time but for an empty key name.
    pub fn on_key_down(&mut self, key: &str, alt: bool) -> (r: bool)
        requires
            old(self).wf(),
        ensures
            final(self).wf(),
            key_effect(old(self).buffer(), final(self).buffer(), key@, alt),
            r == (key@ == "left"@ || key@ == "right"@ || key@ == "space"@ || key@
                == "backspace"@ || key@.len() > 0),
    {
        if is_key(key, "left") {
            if alt {
                self.input_buffer.move_left_word();
            } else {
                self.input_buffer.move_left_char();
            }
            true
        } else if is_key(key, "right") {
            if alt {
                self.input_buffer.move_right_word();
            } else {
                self.input_buffer.move_right_char();
            }
            true
        } else if is_key(key, "space") {
            self.input_buffer.insert_char(' ');
            true
        } else if is_key(key, "backspace") {
            self.input_buffer.delete_char();
            true
        } else {
            let chars = chars_of(key);
            if chars.len() > 0 {
                self.input_buffer.insert_char(chars[0]);
                true
            } else {
                false
            }
        }
    }

    /// The line with a bar at the caret.
    pub fn render_content(&self) -> (r: String)
        requires
            self.wf(),
            utf8_len(self.buffer().chars()) <= usize::MAX,
        ensures
            r@ == self.buffer().chars().take(self.buffer().caret() as int) + "|"@
                + self.buffer().chars().skip(self.buffer().caret() as int),
    {
        let cursor_col = self.input_buffer.get_cursor_index();
        let content = self.input_buffer.as_str();
        let chars = chars_of(content.as_str());
        let ghost c = content@;
        proof {
            lemma_utf8_len_prefix_le(c, cursor_col as int);
        }
        let mut split: usize = 0;
        let mut i: usize = 0;
        while i < cursor_col
            invariant
                chars@ == c,
                cursor_col <= c.len(),
                i <= cursor_col,
                split == utf8_len(c.take(i as int)),
                utf8_len(c) <= usize::MAX,
            decreases cursor_col - i,
        {
            proof {
                lemma_utf8_len_push(c, i as int);
                lemma_utf8_len_prefix_le(c, i + 1);
            }
            split += char_utf8_width(chars[i]);
            i += 1;
        }
        proof {
            lemma_prefix_is_char_boundary(c, cursor_col as int);
            lemma_split_bytes(c, cursor_col as int);
        }
        let (before, after) = content.as_str().split_at(split);
        proof {
            lemma_encode_injective(before@, c.take(cursor_col as int));
            lemma_encode_injective(after@, c.skip(cursor_col as int));
        }
        let mut r = before.to_owned();
        r.append("|");
        r.append(after);
        r
    }
}

} // verus!
