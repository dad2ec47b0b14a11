//! A text buffer held in a rope, with a caret counted in characters.
use crate::cursor::Cursor;
use crate::offsets::chars_of;
use ropey::Rope;
use unicode_segmentation::UnicodeSegmentation;
use vstd::prelude::*;

verus! {

#[verifier::external_type_specification]
#[verifier::external_body]
pub struct ExRope(Rope);

/// The characters that a rope holds.
pub uninterp spec fn rope_chars(r: Rope) -> Seq<char>;

/// The extended grapheme clusters of a text, in order.
pub uninterp spec fn graphemes_of(s: Seq<char>) -> Seq<Seq<char>>;

/// Relies on ropey's `Rope::new`: an empty rope.
pub assume_specification[ Rope::new ]() -> (r: Rope)
    ensures
        rope_chars(r) == Seq::<char>::empty(),
;

/// Relies on ropey's `Rope::len_chars`: the number of characters held.
pub assume_specification[ Rope::len_chars ](r: &Rope) -> (n: usize)
    ensures
        n == rope_chars(*r).len(),
;

/// Relies on ropey's `Rope::insert_char`, which panics past the end.
pub assume_specification[ Rope::insert_char ](r: &mut Rope, char_idx: usize, ch: char)
    requires
        char_idx <= rope_chars(*old(r)).len(),
    ensures
        rope_chars(*final(r)) == rope_chars(*old(r)).insert(char_idx as int, ch),
;

/// Relies on ropey's `Rope::remove` on the character range `start..end`; it
/// panics unless `start <= end <= len_chars()`.
#[verifier::external_body]
fn rope_remove(r: &mut Rope, start: usize, end: usize)
    requires
        start <= end <= rope_chars(*old(r)).len(),
    ensures
        rope_chars(*final(r)) == rope_chars(*old(r)).take(start as int) + rope_chars(
            *old(r),
        ).skip(end as int),
{
    r.remove(start..end)
}

/// Relies on ropey's `From<&Rope> for String`: the rope's text.
#[verifier::external_body]
fn rope_text(r: &Rope) -> (s: String)
    ensures
        s@ == rope_chars(*r),
{
    String::from(r)
}

/// Relies on unicode_segmentation's `graphemes(true)`: the extended grapheme
/// clusters of `s`, in order. Each cluster holds at least one character, so
/// there are no more clusters than characters.
#[verifier::external_body]
fn graphemes(s: &str) -> (r: Vec<String>)
    ensures
        r.deep_view() == graphemes_of(s@),
        r@.len() <= s@.len(),
{
    s.graphemes(true).map(|g| g.to_string()).collect()
}

/// Unicode White_Space, which `char::is_whitespace` tests.
pub open spec fn is_white_space(c: char) -> bool {
    let v = c as u32;
    (0x09 <= v <= 0x0d) || v == 0x20 || v == 0x85 || v == 0xa0 || v == 0x1680 || (0x2000 <= v
        <= 0x200a) || v == 0x2028 || v == 0x2029 || v == 0x202f || v == 0x205f || v == 0x3000
}

/// A cluster that holds only white space, so that trimming leaves nothing.
pub open spec fn is_blank(g: Seq<char>) -> bool {
    forall|i: int| 0 <= i < g.len() ==> is_white_space(#[trigger] g[i])
}

/// Whether `c` is Unicode white space.
pub fn white_space(c: char) -> (r: bool)
    ensures
        r == is_white_space(c),
{
    let v = c as u32;
    (0x09 <= v && v <= 0x0d) || v == 0x20 || v == 0x85 || v == 0xa0 || v == 0x1680 || (0x2000
        <= v && v <= 0x200a) || v == 0x2028 || v == 0x2029 || v == 0x202f || v == 0x205f || v
        == 0x3000
}

/// Whether `g` holds only white space.
pub fn blank(g: &str) -> (r: bool)
    ensures
        r == is_blank(g@),
{
    let chars = chars_of(g);
    let mut i: usize = 0;
    while i < chars.len()
        invariant
            chars@ == g@,
            i <= chars.len(),
            forall|j: int| 0 <= j < i ==> is_white_space(#[trigger] g@[j]),
        decreases chars.len() - i,
    {
        if !white_space(chars[i]) {
            return false;
        }
        i += 1;
    }
    true
}

/// From cluster `i`, the first cluster whose blankness is not `blank`.
pub open spec fn skip_clusters_forward(gs: Seq<Seq<char>>, i: int, blank: bool) -> int
    decreases gs.len() - i,
{
    if 0 <= i < gs.len() && is_blank(gs[i]) == blank {
        skip_clusters_forward(gs, i + 1, blank)
    } else {
        i
    }
}

/// From cluster `i`, going back while cluster `i` has blankness `blank` and
/// `i` is above 0.
pub open spec fn skip_clusters_backward(gs: Seq<Seq<char>>, i: int, blank: bool) -> int
    decreases i,
{
    if 0 < i < gs.len() && is_blank(gs[i]) == blank {
        skip_clusters_backward(gs, i - 1, blank)
    } else {
        i
    }
}

/// The cluster index after the word at or after cluster `i`: blank clusters
/// are skipped, then the others, and the result is at most the count.
pub open spec fn word_right(gs: Seq<Seq<char>>, i: int) -> int {
    let j = skip_clusters_forward(gs, skip_clusters_forward(gs, i, true), false);
    if j < gs.len() {
        j
    } else {
        gs.len() as int
    }
}

/// The cluster index at the start of the word before cluster `i`, counting
/// from `min(i, count)`.
pub open spec fn word_left(gs: Seq<Seq<char>>, i: int) -> int {
    let from = if i < gs.len() {
        i
    } else {
        gs.len() as int
    };
    if from == 0 {
        from
    } else {
        let j = skip_clusters_backward(gs, skip_clusters_backward(gs, from - 1, true), false);
        if is_blank(gs[j]) && j < i {
            j + 1
        } else {
            j
        }
    }
}

/// The cluster index after the word at or after cluster `index` of `gs`.
pub fn word_right_in(gs: &Vec<String>, index: usize) -> (r: usize)
    ensures
        r == word_right(gs.deep_view(), index as int),
        r <= gs.len(),
{
    let ghost v = gs.deep_view();
    let mut i = index;
    while i < gs.len() && blank(gs[i].as_str())
        invariant
            v == gs.deep_view(),
            index <= i,
            skip_clusters_forward(v, index as int, true) == skip_clusters_forward(v, i as int, true),
        decreases gs.len() - i,
    {
        i += 1;
    }
    let ghost mid = i;
    while i < gs.len() && !blank(gs[i].as_str())
        invariant
            v == gs.deep_view(),
            mid <= i,
            skip_clusters_forward(v, mid as int, false) == skip_clusters_forward(v, i as int, false),
        decreases gs.len() - i,
    {
        i += 1;
    }
    if i < gs.len() {
        i
    } else {
        gs.len()
    }
}

/// The cluster index at the start of the word before cluster `index` of `gs`.
pub fn word_left_in(gs: &Vec<String>, index: usize) -> (r: usize)
    ensures
        r == word_left(gs.deep_view(), index as int),
        r <= index,
        r <= gs.len(),
{
    let ghost v = gs.deep_view();
    let from = if index < gs.len() {
        index
    } else {
        gs.len()
    };
    if from == 0 {
        return from;
    }
    let mut i = from - 1;
    while i > 0 && blank(gs[i].as_str())
        invariant
            v == gs.deep_view(),
            i < from <= gs.len(),
            skip_clusters_backward(v, (from - 1) as int, true) == skip_clusters_backward(
                v,
                i as int,
                true,
            ),
        decreases i,
    {
        i -= 1;
    }
    let ghost mid = i;
    while i > 0 && !blank(gs[i].as_str())
        invariant
            v == gs.deep_view(),
            i <= mid < from <= gs.len(),
            skip_clusters_backward(v, mid as int, false) == skip_clusters_backward(v, i as int, false),
        decreases i,
    {
        i -= 1;
    }
    if blank(gs[i].as_str()) && i < index {
        i + 1
    } else {
        i
    }
}

/// A rope of text with a caret.
pub struct TextBuffer {
    text: Rope,
    cursor: Cursor,
}

impl TextBuffer {
    /// The characters of the buffer.
    pub closed spec fn chars(&self) -> Seq<char> {
        rope_chars(self.text)
    }

    /// The caret, in characters.
    pub closed spec fn caret(&self) -> nat {
        self.cursor.index as nat
    }

    /// The caret stands within the text.
    pub open spec fn wf(&self) -> bool {
        self.caret() <= self.chars().len()
    }

    pub fn new() -> (r: Self)
        ensures
            r.wf(),
            r.chars() == Seq::<char>::empty(),
            r.caret() == 0,
    {
        Self { text: Rope::new(), cursor: Cursor::new() }
    }

    pub fn move_to_start(&mut self)
        ensures
            final(self).chars() == old(self).chars(),
            final(self).caret() == 0,
    {
        self.cursor.index = 0;
    }

    pub fn move_to_end(&mut self)
        ensures
            final(self).chars() == old(self).chars(),
            final(self).caret() == old(self).chars().len(),
    {
        self.cursor.index = self.text.len_chars();
    }

    /// Moves the caret, read as a cluster index, past the next word.
    pub fn move_right_word(&mut self)
        requires
            old(self).wf(),
        ensures
            final(self).wf(),
            final(self).chars() == old(self).chars(),
            final(self).caret() == word_right(graphemes_of(old(self).chars()), old(self).caret() as int),
    {
        let content = rope_text(&self.text);
        let gs = graphemes(content.as_str());
        self.cursor.index = word_right_in(&gs, self.cursor.index);
    }

    /// Moves the caret, read as a cluster index, to the start of the previous
    /// word.
    pub fn move_left_word(&mut self)
        requires
            old(self).wf(),
        ensures
            final(self).wf(),
            final(self).chars() == old(self).chars(),
            final(self).caret() == word_left(graphemes_of(old(self).chars()), old(self).caret() as int),
            final(self).caret() <= old(self).caret(),
    {
        let content = rope_text(&self.text);
        let gs = graphemes(content.as_str());
        self.cursor.index = word_left_in(&gs, self.cursor.index);
    }

    pub fn move_right_char(&mut self)
        requires
            old(self).wf(),
        ensures
            final(self).wf(),
            final(self).chars() == old(self).chars(),
            final(self).caret() == if old(self).caret() < old(self).chars().len() {
                old(self).caret() + 1
            } else {
                old(self).caret()
            },
    {
        let max = self.text.len_chars();
        self.cursor.move_right(max);
    }

    pub fn move_left_char(&mut self)
        requires
            old(self).wf(),
        ensures
            final(self).wf(),
            final(self).chars() == old(self).chars(),
            final(self).caret() == if old(self).caret() > 0 {
                (old(self).caret() - 1) as nat
            } else {
                0
            },
    {
        self.cursor.move_left();
    }

    /// Removes up to `len` characters from `index`, stopping at the end.
    pub fn delete(&mut self, index: usize, len: usize)
        requires
            index <= old(self).chars().len(),
        ensures
            final(self).caret() == old(self).caret(),
            final(self).chars() == old(self).chars().take(index as int) + old(self).chars().skip(
                if len <= old(self).chars().len() - index {
                    index + len
                } else {
                    old(self).chars().len() as int
                },
            ),
    {
        let total = self.text.len_chars();
        let end = if len <= total - index {
            index + len
        } else {
            total
        };
        rope_remove(&mut self.text, index, end);
    }

    /// Removes the character before the caret, which moves back onto it.
    pub fn delete_char(&mut self)
        requires
            old(self).wf(),
        ensures
            final(self).wf(),
            old(self).caret() == 0 ==> *final(self) == *old(self),
            old(self).caret() > 0 ==> final(self).caret() == old(self).caret() - 1
                && final(self).chars() == old(self).chars().remove(old(self).caret() - 1),
    {
        if self.cursor.index > 0 {
            self.cursor.move_left();
            self.delete(self.cursor.index, 1);
            proof {
                let c = old(self).chars();
                let k = old(self).caret() - 1;
                assert(c.take(k) + c.skip(k + 1) =~= c.remove(k));
            }
        }
    }

    /// Removes from the start of the previous word up to the caret, which
    /// moves there.
    pub fn delete_word(&mut self)
        requires
            old(self).wf(),
        ensures
            final(self).wf(),
            ({
                let k = word_left(graphemes_of(old(self).chars()), old(self).caret() as int);
                &&& final(self).caret() == k
                &&& final(self).chars() == old(self).chars().take(k) + old(self).chars().skip(
                    old(self).caret() as int,
                )
            }),
    {
        let caret_before = self.cursor.index;
        self.move_left_word();
        let new_index = self.cursor.index;
        self.delete(new_index, caret_before - new_index);
    }

    /// Removes everything before the caret, which moves to the start.
    pub fn delete_to_start(&mut self)
        requires
            old(self).wf(),
        ensures
            final(self).wf(),
            final(self).caret() == 0,
            final(self).chars() == old(self).chars().skip(old(self).caret() as int),
    {
        let caret_before = self.cursor.index;
        self.move_to_start();
        let new_index = self.cursor.index;
        self.delete(new_index, caret_before - new_index);
        proof {
            assert(old(self).chars().take(0) + old(self).chars().skip(old(self).caret() as int)
                =~= old(self).chars().skip(old(self).caret() as int));
        }
    }

    /// Inserts `ch` at the caret and moves the caret past it.
    pub fn insert_char(&mut self, ch: char)
        requires
            old(self).wf(),
        ensures
            final(self).wf(),
            final(self).chars() == old(self).chars().insert(old(self).caret() as int, ch),
            final(self).caret() == old(self).caret() + 1,
    {
        self.text.insert_char(self.cursor.index, ch);
        let max = self.text.len_chars();
        self.cursor.move_right(max);
    }

    pub fn get_cursor_index(&self) -> (r: usize)
        ensures
            r == self.caret(),
    {
        self.cursor.index
    }

    /// The text of the buffer.
    pub fn as_str(&self) -> (r: String)
        ensures
            r@ == self.chars(),
    {
        rope_text(&self.text)
    }
}

} // verus!
