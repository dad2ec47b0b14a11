//! The editing engine of a single-line field: content, a selection with a
//! direction, and the range that an input method is composing.
use crate::offsets::{
    byte_to_utf16, chars_before_byte, chars_before_utf16, chars_of, first_after, grapheme_starts,
    is_char_offset, is_segmentation, last_before, lemma_char_boundary_is_offset,
    lemma_chars_before_byte_le, lemma_chars_before_utf16_le, lemma_encode_concat,
    lemma_encode_injective, lemma_one_line_len, lemma_prefix_is_char_boundary, lemma_split_bytes,
    lemma_utf16_le_utf8, lemma_utf16_round_trip, lemma_utf8_len_increasing,
    lemma_utf8_len_prefix_le, next_grapheme_boundary, next_word_boundary, one_line,
    previous_grapheme_boundary, previous_word_boundary, utf16_len, utf16_to_byte, utf8_len,
    word_end, word_start,
};
use std::ops::Range;
use vstd::prelude::*;
use vstd::string::{StrSliceExecFns, StringExecFns};
use vstd::utf8::*;

verus! {

/// Why an edit was refused.
#[derive(Clone, Copy, Debug, PartialEq, Eq, Structural)]
pub enum EditError {
    /// A range that starts after its end or ends past the content.
    InvalidRange,
    /// An offset that falls inside the encoding of a character.
    MisalignedOffset,
}

/// The named operations of a text field that keys are bound to.
#[derive(Clone, Copy, Debug, PartialEq, Eq, Structural)]
pub enum EditorAction {
    Backspace,
    Delete,
    Left,
    AltLeft,
    CmdLeft,
    Right,
    AltRight,
    CmdRight,
    SelectLeft,
    SelectWordLeft,
    SelectStart,
    SelectRight,
    SelectWordRight,
    SelectEnd,
    SelectAll,
    Home,
    End,
    ShowCharacterPalette,
    Paste,
    Cut,
    Copy,
    Quit,
}

/// A single-line text field: all offsets are byte offsets into `content`
/// unless a method says it takes UTF-16 offsets.
pub struct TextInput {
    pub content: String,
    pub placeholder: String,
    pub selected_range: Range<usize>,
    pub selection_reversed: bool,
    pub marked_range: Option<Range<usize>>,
    pub is_selecting: bool,
}

/// A range that lies within a text of `len` bytes.
pub open spec fn range_within(r: Range<usize>, len: nat) -> bool {
    r.start <= r.end && r.end <= len
}

/// The selection and its direction after moving its active edge to `offset`:
/// the edges swap, and the direction flips, when the active edge crosses the
/// anchor.
pub open spec fn extend_to(r: Range<usize>, reversed: bool, offset: usize) -> (Range<usize>, bool) {
    let (start, end) = if reversed {
        (offset, r.end)
    } else {
        (r.start, offset)
    };
    if end < start {
        (Range { start: end, end: start }, !reversed)
    } else {
        (Range { start, end }, reversed)
    }
}

/// The range an edit applies to: the given one, else the marked range, else
/// the selection.
pub open spec fn effective_range(
    range: Option<Range<usize>>,
    marked: Option<Range<usize>>,
    selected: Range<usize>,
) -> Range<usize> {
    match range {
        Some(r) => r,
        None => match marked {
            Some(m) => m,
            None => selected,
        },
    }
}

/// `bytes` with the span `[start, end)` replaced by `new_bytes`.
pub open spec fn splice_bytes(bytes: Seq<u8>, start: int, end: int, new_bytes: Seq<u8>) -> Seq<
    u8,
> {
    bytes.subrange(0, start) + new_bytes + bytes.subrange(end, bytes.len() as int)
}

/// What an edit of the span `r` is refused for, if anything.
pub open spec fn range_error(content: Seq<char>, r: Range<usize>) -> Option<EditError> {
    if !range_within(r, utf8_len(content)) {
        Some(EditError::InvalidRange)
    } else if !is_char_offset(content, r.start as int) || !is_char_offset(content, r.end as int) {
        Some(EditError::MisalignedOffset)
    } else {
        None
    }
}

/// `post` is `pre` after replacing `range` (or the marked range, or the
/// selection) with `text`, with `r` as the outcome: refused edits change
/// nothing; others leave a caret after the new text and no marked range.
pub open spec fn replaced(
    pre: TextInput,
    post: TextInput,
    range: Option<Range<usize>>,
    text: Seq<char>,
    r: Result<(), EditError>,
) -> bool {
    let e = effective_range(range, pre.marked_range, pre.selected_range);
    let caret = e.start + utf8_len(text);
    match range_error(pre.content@, e) {
        Some(err) => r == Err::<(), EditError>(err) && post == pre,
        None => {
            &&& r is Ok
            &&& post.bytes() == splice_bytes(
                pre.bytes(),
                e.start as int,
                e.end as int,
                encode_utf8(text),
            )
            &&& post.selected_range == (Range { start: caret as usize, end: caret as usize })
            &&& post.marked_range is None
            &&& post.selection_reversed == pre.selection_reversed
            &&& post.placeholder == pre.placeholder
            &&& post.is_selecting == pre.is_selecting
        },
    }
}

/// Byte range of the UTF-16 range `r` of `text`.
pub open spec fn utf16_range_to_bytes(text: Seq<char>, r: Range<usize>) -> Range<usize> {
    Range {
        start: utf8_len(text.take(chars_before_utf16(text, r.start as int) as int)) as usize,
        end: utf8_len(text.take(chars_before_utf16(text, r.end as int) as int)) as usize,
    }
}

/// UTF-16 range of the byte range `r` of `text`.
pub open spec fn byte_range_to_utf16(text: Seq<char>, r: Range<usize>) -> Range<usize> {
    Range {
        start: utf16_len(text.take(chars_before_byte(text, r.start as int) as int)) as usize,
        end: utf16_len(text.take(chars_before_byte(text, r.end as int) as int)) as usize,
    }
}

/// What a selection `sel` within the new text `text` is refused for, if
/// anything.
pub open spec fn selection_error(text: Seq<char>, sel: Option<Range<usize>>) -> Option<EditError> {
    match sel {
        Some(s) => range_error(text, s),
        None => None,
    }
}

/// `post` is `pre` after a deletion that first moved the selection to give
/// `mid`, then replaced the marked range or the selection of `mid` with
/// nothing. A refused deletion changes nothing at all.
pub open spec fn deleted(pre: TextInput, mid: TextInput, post: TextInput, r: Result<(), EditError>) -> bool {
    let e = effective_range(None, mid.marked_range, mid.selected_range);
    match range_error(mid.content@, e) {
        Some(err) => r == Err::<(), EditError>(err) && post == pre,
        None => replaced(mid, post, None, Seq::<char>::empty(), r),
    }
}

/// `post` is `pre` after replacing `range` (or the marked range, or the
/// selection) with `text` under composition, with `r` as the outcome. The
/// new text becomes the marked range unless it is empty, and `sel`, relative
/// to the start of the new text, becomes the selection; without `sel` a caret
/// follows the new text.
pub open spec fn marked(
    pre: TextInput,
    post: TextInput,
    range: Option<Range<usize>>,
    text: Seq<char>,
    sel: Option<Range<usize>>,
    r: Result<(), EditError>,
) -> bool {
    let e = effective_range(range, pre.marked_range, pre.selected_range);
    let n = utf8_len(text);
    match range_error(pre.content@, e) {
        Some(err) => r == Err::<(), EditError>(err) && post == pre,
        None => if selection_error(text, sel) is Some {
            r == Err::<(), EditError>(selection_error(text, sel)->0) && post == pre
        } else {
            &&& r is Ok
            &&& post.bytes() == splice_bytes(
                pre.bytes(),
                e.start as int,
                e.end as int,
                encode_utf8(text),
            )
            &&& post.marked_range == if n > 0 {
                Some(Range { start: e.start, end: (e.start + n) as usize })
            } else {
                None
            }
            &&& post.selected_range == match sel {
                Some(s) => Range {
                    start: (e.start + s.start) as usize,
                    end: (e.start + s.end) as usize,
                },
                None => Range { start: (e.start + n) as usize, end: (e.start + n) as usize },
            }
            &&& post.selection_reversed == pre.selection_reversed
            &&& post.placeholder == pre.placeholder
            &&& post.is_selecting == pre.is_selecting
        },
    }
}

/// Checks that `r` lies on character offsets of `text`, start before end.
pub fn check_text_range(text: &str, r: &Range<usize>) -> (res: Result<(), EditError>)
    requires
        utf8_len(text@) <= usize::MAX,
    ensures
        res is Ok <==> range_error(text@, *r) is None,
        res matches Err(e) ==> range_error(text@, *r) == Some(e),
{
    if r.start > r.end || r.end > text.len() {
        return Err(EditError::InvalidRange);
    }
    if !text.is_char_boundary(r.start) || !text.is_char_boundary(r.end) {
        proof {
            if is_char_offset(text@, r.start as int) {
                let i = choose|i: int| 0 <= i <= text@.len() && utf8_len(#[trigger] text@.take(i)) == r.start;
                lemma_prefix_is_char_boundary(text@, i);
            }
            if is_char_offset(text@, r.end as int) {
                let i = choose|i: int| 0 <= i <= text@.len() && utf8_len(#[trigger] text@.take(i)) == r.end;
                lemma_prefix_is_char_boundary(text@, i);
            }
        }
        return Err(EditError::MisalignedOffset);
    }
    proof {
        lemma_char_boundary_is_offset(text@, r.start as int);
        lemma_char_boundary_is_offset(text@, r.end as int);
    }
    Ok(())
}

/// `text` with each line feed turned into a space.
pub fn single_line(text: &str) -> (r: String)
    ensures
        r@ == one_line(text@),
{
    let chars = chars_of(text);
    let mut r = String::new();
    let mut start: usize = 0;
    let mut i: usize = 0;
    proof {
        reveal_strlit(" ");
        assert(text@.take(0) =~= Seq::<char>::empty());
        assert(one_line(Seq::<char>::empty()) =~= Seq::<char>::empty());
    }
    while i < chars.len()
        invariant
            chars@ == text@,
            start <= i <= chars.len(),
            r@ == one_line(text@.take(start as int)),
            forall|j: int| start <= j < i ==> text@[j] != '\n',
            " "@ == seq![' '],
        decreases chars.len() - i,
    {
        if chars[i] == '\n' {
            let piece = text.substring_char(start, i);
            let ghost prev = r@;
            r.append(piece);
            r.append(" ");
            proof {
                assert(one_line(piece@) =~= piece@);
                assert(text@.take(i + 1) =~= text@.take(start as int) + piece@ + seq!['\n']);
                assert(one_line(text@.take(i + 1)) =~= one_line(text@.take(start as int)) + one_line(
                    piece@,
                ) + seq![' ']);
            }
            start = i + 1;
        }
        i += 1;
    }
    let piece = text.substring_char(start, chars.len());
    r.append(piece);
    proof {
        assert(one_line(piece@) =~= piece@);
        assert(text@ =~= text@.take(start as int) + piece@);
        assert(one_line(text@) =~= one_line(text@.take(start as int)) + one_line(piece@));
    }
    r
}

impl TextInput {
    /// The bytes of the content.
    pub open spec fn bytes(&self) -> Seq<u8> {
        encode_utf8(self.content@)
    }

    /// Length of the content in bytes.
    pub open spec fn len(&self) -> nat {
        utf8_len(self.content@)
    }

    /// The selection and the marked range lie within the content, whose
    /// length fits a `usize`.
    pub open spec fn wf(&self) -> bool {
        &&& self.len() <= usize::MAX
        &&& range_within(self.selected_range, self.len())
        &&& self.marked_range matches Some(m) ==> range_within(m, self.len())
    }

    /// The edge of the selection that moves: its start when reversed, else
    /// its end.
    pub open spec fn cursor(&self) -> usize {
        if self.selection_reversed {
            self.selected_range.start
        } else {
            self.selected_range.end
        }
    }

    /// The field with its selection collapsed to a caret at `offset`.
    pub open spec fn with_caret(&self, offset: usize) -> Self {
        TextInput { selected_range: Range { start: offset, end: offset }, ..*self }
    }

    /// The field with the active edge of its selection moved to `offset`.
    pub open spec fn with_extended(&self, offset: usize) -> Self {
        let (r, reversed) = extend_to(self.selected_range, self.selection_reversed, offset);
        TextInput { selected_range: r, selection_reversed: reversed, ..*self }
    }

    /// The grapheme boundary before `offset`, or 0.
    pub open spec fn prev_grapheme(&self, offset: usize) -> usize {
        last_before(grapheme_starts(self.content@), offset as int) as usize
    }

    /// The grapheme boundary after `offset`, or the end.
    pub open spec fn next_grapheme(&self, offset: usize) -> usize {
        first_after(grapheme_starts(self.content@), offset as int, self.len() as int) as usize
    }

    /// The start of the word before `offset`.
    pub open spec fn prev_word(&self, offset: usize) -> usize {
        word_start(self.bytes(), offset as int) as usize
    }

    /// The end of the word after `offset`.
    pub open spec fn next_word(&self, offset: usize) -> usize {
        word_end(self.bytes(), offset as int) as usize
    }

    /// An empty field with the given placeholder.
    pub fn new(placeholder: String) -> (r: Self)
        ensures
            r.wf(),
            r.content@ == Seq::<char>::empty(),
            r.placeholder == placeholder,
            r.selected_range == (Range { start: 0usize, end: 0usize }),
            !r.selection_reversed,
            r.marked_range is None,
            !r.is_selecting,
    {
        let r = TextInput {
            content: String::new(),
            placeholder,
            selected_range: 0..0,
            selection_reversed: false,
            marked_range: None,
            is_selecting: false,
        };
        assert(encode_utf8(r.content@) =~= Seq::<u8>::empty());
        r
    }

    /// Length of the content in bytes.
    pub fn content_len(&self) -> (r: usize)
        requires
            self.wf(),
        ensures
            r == self.len(),
    {
        self.content.as_str().len()
    }

    pub fn cursor_offset(&self) -> (r: usize)
        ensures
            r == self.cursor(),
    {
        if self.selection_reversed {
            self.selected_range.start
        } else {
            self.selected_range.end
        }
    }

    /// Collapses the selection to a caret at `offset`.
    pub fn move_to(&mut self, offset: usize) -> (r: Result<(), EditError>)
        requires
            old(self).wf(),
        ensures
            final(self).wf(),
            r is Ok <==> offset <= old(self).len(),
            r is Err ==> r == Err::<(), EditError>(EditError::InvalidRange) && *final(self) == *old(
                self,
            ),
            r is Ok ==> *final(self) == old(self).with_caret(offset),
    {
        if offset > self.content_len() {
            return Err(EditError::InvalidRange);
        }
        self.selected_range = offset..offset;
        Ok(())
    }

    /// Moves the active edge of the selection to `offset`, flipping the
    /// selection when that edge crosses the anchor.
    pub fn select_to(&mut self, offset: usize) -> (r: Result<(), EditError>)
        requires
            old(self).wf(),
        ensures
            final(self).wf(),
            r is Ok <==> offset <= old(self).len(),
            r is Err ==> r == Err::<(), EditError>(EditError::InvalidRange) && *final(self) == *old(
                self,
            ),
            r is Ok ==> *final(self) == old(self).with_extended(offset),
    {
        if offset > self.content_len() {
            return Err(EditError::InvalidRange);
        }
        if self.selection_reversed {
            self.selected_range.start = offset;
        } else {
            self.selected_range.end = offset;
        }
        if self.selected_range.end < self.selected_range.start {
            self.selection_reversed = !self.selection_reversed;
            self.selected_range = self.selected_range.end..self.selected_range.start;
        }
        Ok(())
    }

    /// Checks that `r` can be edited or read.
    fn check_range(&self, r: &Range<usize>) -> (res: Result<(), EditError>)
        requires
            self.wf(),
        ensures
            res is Ok <==> range_error(self.content@, *r) is None,
            res matches Err(e) ==> range_error(self.content@, *r) == Some(e),
    {
        check_text_range(self.content.as_str(), r)
    }

    /// Replaces the bytes `[start, end)` of the content with `new_text`.
    fn splice(&mut self, start: usize, end: usize, new_text: &str)
        requires
            old(self).wf(),
            range_error(old(self).content@, start..end) is None,
            old(self).len() + utf8_len(new_text@) <= usize::MAX,
        ensures
            final(self).bytes() == splice_bytes(
                old(self).bytes(),
                start as int,
                end as int,
                encode_utf8(new_text@),
            ),
            final(self).len() == old(self).len() - (end - start) + utf8_len(new_text@),
            final(self).placeholder == old(self).placeholder,
            final(self).selected_range == old(self).selected_range,
            final(self).selection_reversed == old(self).selection_reversed,
            final(self).marked_range == old(self).marked_range,
            final(self).is_selecting == old(self).is_selecting,
    {
        let ghost c = self.content@;
        proof {
            let i = choose|i: int| 0 <= i <= c.len() && utf8_len(#[trigger] c.take(i)) == start;
            lemma_prefix_is_char_boundary(c, i);
            let j = choose|j: int| 0 <= j <= c.len() && utf8_len(#[trigger] c.take(j)) == end;
            lemma_prefix_is_char_boundary(c, j);
        }
        let (left, _) = self.content.as_str().split_at(start);
        let (_, right) = self.content.as_str().split_at(end);
        let mut joined = left.to_owned();
        joined.append(new_text);
        joined.append(right);
        proof {
            lemma_encode_concat(left@, new_text@);
            lemma_encode_concat(left@ + new_text@, right@);
            assert(joined@ == left@ + new_text@ + right@);
        }
        self.content = joined;
        proof {
            assert(self.bytes() =~= splice_bytes(
                encode_utf8(c),
                start as int,
                end as int,
                encode_utf8(new_text@),
            ));
        }
    }

    /// Replaces the given byte range, else the marked range, else the
    /// selection, with `new_text`; leaves a caret after the inserted text and
    /// ends any composition.
    pub fn replace_range(&mut self, range: Option<Range<usize>>, new_text: &str) -> (r: Result<
        (),
        EditError,
    >)
        requires
            old(self).wf(),
            old(self).len() + utf8_len(new_text@) <= usize::MAX,
        ensures
            final(self).wf(),
            replaced(*old(self), *final(self), range, new_text@, r),
    {
        let e = match range {
            Some(r) => r,
            None => match &self.marked_range {
                Some(m) => m.start..m.end,
                None => self.selected_range.start..self.selected_range.end,
            },
        };
        match self.check_range(&e) {
            Err(err) => {
                return Err(err);
            },
            Ok(()) => {},
        }
        self.splice(e.start, e.end, new_text);
        let caret = e.start + new_text.len();
        self.selected_range = caret..caret;
        self.marked_range = None;
        Ok(())
    }

    /// Caret one grapheme left, or to the start of a non-empty selection.
    pub fn left(&mut self)
        requires
            old(self).wf(),
        ensures
            final(self).wf(),
            *final(self) == old(self).with_caret(
                if old(self).selected_range.start == old(self).selected_range.end {
                    old(self).prev_grapheme(old(self).cursor())
                } else {
                    old(self).selected_range.start
                },
            ),
            old(self).selected_range.start == old(self).selected_range.end ==> {
                &&& is_segmentation(grapheme_starts(old(self).content@), old(self).len() as int)
                &&& is_char_offset(old(self).content@, old(self).prev_grapheme(old(self).cursor()) as int)
            },
    {
        let target = if self.selected_range.start == self.selected_range.end {
            previous_grapheme_boundary(self.content.as_str(), self.cursor_offset())
        } else {
            self.selected_range.start
        };
        let _ = self.move_to(target);
    }

    /// Caret one grapheme right, or to the end of a non-empty selection.
    pub fn right(&mut self)
        requires
            old(self).wf(),
        ensures
            final(self).wf(),
            *final(self) == old(self).with_caret(
                if old(self).selected_range.start == old(self).selected_range.end {
                    old(self).next_grapheme(old(self).selected_range.end)
                } else {
                    old(self).selected_range.end
                },
            ),
            old(self).selected_range.start == old(self).selected_range.end ==> {
                &&& is_segmentation(grapheme_starts(old(self).content@), old(self).len() as int)
                &&& is_char_offset(old(self).content@, old(self).next_grapheme(old(self).selected_range.end) as int)
            },
    {
        let target = if self.selected_range.start == self.selected_range.end {
            next_grapheme_boundary(self.content.as_str(), self.selected_range.end)
        } else {
            self.selected_range.end
        };
        let _ = self.move_to(target);
    }

    /// Caret to the start of the word before the selection.
    pub fn alt_left(&mut self)
        requires
            old(self).wf(),
        ensures
            final(self).wf(),
            *final(self) == old(self).with_caret(
                old(self).prev_word(old(self).selected_range.start),
            ),
    {
        let target = previous_word_boundary(self.content.as_str(), self.selected_range.start);
        let _ = self.move_to(target);
    }

    /// Caret to the end of the word after the selection.
    pub fn alt_right(&mut self)
        requires
            old(self).wf(),
        ensures
            final(self).wf(),
            *final(self) == old(self).with_caret(old(self).next_word(old(self).selected_range.end)),
    {
        let target = next_word_boundary(self.content.as_str(), self.selected_range.end);
        let _ = self.move_to(target);
    }

    /// Caret to the start of the content.
    pub fn cmd_left(&mut self)
        requires
            old(self).wf(),
        ensures
            final(self).wf(),
            *final(self) == old(self).with_caret(0),
    {
        let _ = self.move_to(0);
    }

    /// Caret to the end of the content.
    pub fn cmd_right(&mut self)
        requires
            old(self).wf(),
        ensures
            final(self).wf(),
            *final(self) == old(self).with_caret(old(self).len() as usize),
    {
        let end = self.content_len();
        let _ = self.move_to(end);
    }

    /// Caret to the start of the content.
    pub fn home(&mut self)
        requires
            old(self).wf(),
        ensures
            final(self).wf(),
            *final(self) == old(self).with_caret(0),
    {
        let _ = self.move_to(0);
    }

    /// Caret to the end of the content.
    pub fn end(&mut self)
        requires
            old(self).wf(),
        ensures
            final(self).wf(),
            *final(self) == old(self).with_caret(old(self).len() as usize),
    {
        let end = self.content_len();
        let _ = self.move_to(end);
    }

    /// Extends the selection one grapheme left.
    pub fn select_left(&mut self)
        requires
            old(self).wf(),
        ensures
            final(self).wf(),
            *final(self) == old(self).with_extended(old(self).prev_grapheme(old(self).cursor())),
            is_segmentation(grapheme_starts(old(self).content@), old(self).len() as int),
            is_char_offset(old(self).content@, old(self).prev_grapheme(old(self).cursor()) as int),
    {
        let target = previous_grapheme_boundary(self.content.as_str(), self.cursor_offset());
        let _ = self.select_to(target);
    }

    /// Extends the selection one grapheme right.
    pub fn select_right(&mut self)
        requires
            old(self).wf(),
        ensures
            final(self).wf(),
            *final(self) == old(self).with_extended(old(self).next_grapheme(old(self).cursor())),
            is_segmentation(grapheme_starts(old(self).content@), old(self).len() as int),
            is_char_offset(old(self).content@, old(self).next_grapheme(old(self).cursor()) as int),
    {
        let target = next_grapheme_boundary(self.content.as_str(), self.cursor_offset());
        let _ = self.select_to(target);
    }

    /// Extends the selection to the start of the word before the cursor.
    pub fn select_word_left(&mut self)
        requires
            old(self).wf(),
        ensures
            final(self).wf(),
            *final(self) == old(self).with_extended(old(self).prev_word(old(self).cursor())),
    {
        let target = previous_word_boundary(self.content.as_str(), self.cursor_offset());
        let _ = self.select_to(target);
    }

    /// Extends the selection to the end of the word after the cursor.
    pub fn select_word_right(&mut self)
        requires
            old(self).wf(),
        ensures
            final(self).wf(),
            *final(self) == old(self).with_extended(old(self).next_word(old(self).cursor())),
    {
        let target = next_word_boundary(self.content.as_str(), self.cursor_offset());
        let _ = self.select_to(target);
    }

    /// Extends the selection to the start of the content.
    pub fn select_start(&mut self)
        requires
            old(self).wf(),
        ensures
            final(self).wf(),
            *final(self) == old(self).with_extended(0),
    {
        let _ = self.select_to(0);
    }

    /// Extends the selection to the end of the content.
    pub fn select_end(&mut self)
        requires
            old(self).wf(),
        ensures
            final(self).wf(),
            *final(self) == old(self).with_extended(old(self).len() as usize),
    {
        let end = self.content_len();
        let _ = self.select_to(end);
    }

    /// Selects the whole content: a caret at 0, then the active edge moved
    /// to the end.
    pub fn select_all(&mut self)
        requires
            old(self).wf(),
        ensures
            final(self).wf(),
            *final(self) == old(self).with_caret(0).with_extended(old(self).len() as usize),
    {
        let _ = self.move_to(0);
        let end = self.content_len();
        let _ = self.select_to(end);
    }

    /// Deletes the selection, or the grapheme before a caret. A refused
    /// deletion changes nothing.
    pub fn backspace(&mut self) -> (r: Result<(), EditError>)
        requires
            old(self).wf(),
        ensures
            final(self).wf(),
            deleted(
                *old(self),
                if old(self).selected_range.start == old(self).selected_range.end {
                    old(self).with_extended(old(self).prev_grapheme(old(self).cursor()))
                } else {
                    *old(self)
                },
                *final(self),
                r,
            ),
            old(self).selected_range.start == old(self).selected_range.end ==> {
                &&& is_segmentation(grapheme_starts(old(self).content@), old(self).len() as int)
                &&& is_char_offset(old(self).content@, old(self).prev_grapheme(old(self).cursor()) as int)
            },
    {
        let saved = self.selected_range.start..self.selected_range.end;
        let saved_reversed = self.selection_reversed;
        if self.selected_range.start == self.selected_range.end {
            let target = previous_grapheme_boundary(self.content.as_str(), self.cursor_offset());
            let _ = self.select_to(target);
        }
        proof {
            reveal_strlit("");
            assert(""@ =~= Seq::<char>::empty());
            assert(encode_utf8(Seq::<char>::empty()) =~= Seq::<u8>::empty());
        }
        let r = self.replace_range(None, "");
        if let Err(_) = r {
            self.selected_range = saved;
            self.selection_reversed = saved_reversed;
        }
        r
    }

    /// Deletes the selection, or the grapheme after a caret. A refused
    /// deletion changes nothing.
    pub fn delete(&mut self) -> (r: Result<(), EditError>)
        requires
            old(self).wf(),
        ensures
            final(self).wf(),
            deleted(
                *old(self),
                if old(self).selected_range.start == old(self).selected_range.end {
                    old(self).with_extended(old(self).next_grapheme(old(self).cursor()))
                } else {
                    *old(self)
                },
                *final(self),
                r,
            ),
            old(self).selected_range.start == old(self).selected_range.end ==> {
                &&& is_segmentation(grapheme_starts(old(self).content@), old(self).len() as int)
                &&& is_char_offset(old(self).content@, old(self).next_grapheme(old(self).cursor()) as int)
            },
    {
        let saved = self.selected_range.start..self.selected_range.end;
        let saved_reversed = self.selection_reversed;
        if self.selected_range.start == self.selected_range.end {
            let target = next_grapheme_boundary(self.content.as_str(), self.cursor_offset());
            let _ = self.select_to(target);
        }
        proof {
            reveal_strlit("");
            assert(""@ =~= Seq::<char>::empty());
            assert(encode_utf8(Seq::<char>::empty()) =~= Seq::<u8>::empty());
        }
        let r = self.replace_range(None, "");
        if let Err(_) = r {
            self.selected_range = saved;
            self.selection_reversed = saved_reversed;
        }
        r
    }

    /// The text of the byte range `range`.
    pub fn text_in_range(&self, range: Range<usize>) -> (r: Result<String, EditError>)
        requires
            self.wf(),
        ensures
            match range_error(self.content@, range) {
                Some(e) => r == Err::<String, EditError>(e),
                None => r matches Ok(t) && encode_utf8(t@) == self.bytes().subrange(
                    range.start as int,
                    range.end as int,
                ),
            },
    {
        match self.check_range(&range) {
            Err(e) => {
                return Err(e);
            },
            Ok(()) => {},
        }
        let ghost c = self.content@;
        let ghost i = choose|i: int| 0 <= i <= c.len() && utf8_len(#[trigger] c.take(i)) == range.start;
        let ghost j = choose|j: int| 0 <= j <= c.len() && utf8_len(#[trigger] c.take(j)) == range.end;
        proof {
            lemma_prefix_is_char_boundary(c, j);
            if j < i {
                lemma_utf8_len_increasing(c, j, i);
            }
            assert(c.take(j).take(i) =~= c.take(i));
            lemma_prefix_is_char_boundary(c.take(j), i);
        }
        let (left, _) = self.content.as_str().split_at(range.end);
        proof {
            lemma_split_bytes(c, j);
            lemma_encode_injective(left@, c.take(j));
        }
        let (_, piece) = left.split_at(range.start);
        proof {
            assert(encode_utf8(piece@) =~= self.bytes().subrange(range.start as int, range.end as int));
        }
        Ok(piece.to_owned())
    }

    /// Replaces the given byte range, else the marked range, else the
    /// selection, with `new_text`, which becomes the marked range; `new_selected`
    /// is relative to the start of the new text.
    pub fn replace_and_mark_range(
        &mut self,
        range: Option<Range<usize>>,
        new_text: &str,
        new_selected: Option<Range<usize>>,
    ) -> (r: Result<(), EditError>)
        requires
            old(self).wf(),
            old(self).len() + utf8_len(new_text@) <= usize::MAX,
        ensures
            final(self).wf(),
            marked(*old(self), *final(self), range, new_text@, new_selected, r),
    {
        let e = match range {
            Some(r) => r,
            None => match &self.marked_range {
                Some(m) => m.start..m.end,
                None => self.selected_range.start..self.selected_range.end,
            },
        };
        match self.check_range(&e) {
            Err(err) => {
                return Err(err);
            },
            Ok(()) => {},
        }
        let n = new_text.len();
        if let Some(s) = &new_selected {
            match check_text_range(new_text, s) {
                Err(err) => {
                    return Err(err);
                },
                Ok(()) => {},
            }
        }
        self.splice(e.start, e.end, new_text);
        if n > 0 {
            self.marked_range = Some(e.start..e.start + n);
        } else {
            self.marked_range = None;
        }
        self.selected_range = match new_selected {
            Some(s) => e.start + s.start..e.start + s.end,
            None => e.start + n..e.start + n,
        };
        Ok(())
    }

    /// Byte offset of the UTF-16 offset `offset` of the content.
    pub fn offset_from_utf16(&self, offset: usize) -> (r: usize)
        requires
            self.wf(),
        ensures
            r == utf16_range_to_bytes(self.content@, offset..offset).start,
            r <= self.len(),
            is_char_offset(self.content@, r as int),
    {
        proof {
            lemma_chars_before_utf16_le(self.content@, offset as int);
            lemma_utf8_len_prefix_le(self.content@, chars_before_utf16(self.content@, offset as int) as int);
        }
        utf16_to_byte(self.content.as_str(), offset)
    }

    /// UTF-16 offset of the byte offset `offset` of the content.
    pub fn offset_to_utf16(&self, offset: usize) -> (r: usize)
        requires
            self.wf(),
        ensures
            r == byte_range_to_utf16(self.content@, offset..offset).start,
    {
        byte_to_utf16(self.content.as_str(), offset)
    }

    /// Byte range of the UTF-16 range `range_utf16` of the content.
    pub fn range_from_utf16(&self, range_utf16: &Range<usize>) -> (r: Range<usize>)
        requires
            self.wf(),
        ensures
            r == utf16_range_to_bytes(self.content@, *range_utf16),
            range_error(self.content@, r) is None || range_error(self.content@, r) == Some(
                EditError::InvalidRange,
            ),
            r.start > r.end <==> range_error(self.content@, r) is Some,
    {
        let start = self.offset_from_utf16(range_utf16.start);
        let end = self.offset_from_utf16(range_utf16.end);
        start..end
    }

    /// UTF-16 range of the byte range `range` of the content.
    pub fn range_to_utf16(&self, range: &Range<usize>) -> (r: Range<usize>)
        requires
            self.wf(),
        ensures
            r == byte_range_to_utf16(self.content@, *range),
    {
        self.offset_to_utf16(range.start)..self.offset_to_utf16(range.end)
    }

    /// `replace_range` on a UTF-16 range. Offsets inside a surrogate pair move
    /// to the end of its character; offsets past the end, to the end.
    pub fn replace_text_in_range(&mut self, range_utf16: Option<Range<usize>>, new_text: &str) -> (r:
        Result<(), EditError>)
        requires
            old(self).wf(),
            old(self).len() + utf8_len(new_text@) <= usize::MAX,
        ensures
            final(self).wf(),
            replaced(
                *old(self),
                *final(self),
                match range_utf16 {
                    Some(u) => Some(utf16_range_to_bytes(old(self).content@, u)),
                    None => None,
                },
                new_text@,
                r,
            ),
    {
        let range = match &range_utf16 {
            Some(u) => Some(self.range_from_utf16(u)),
            None => None,
        };
        self.replace_range(range, new_text)
    }

    /// `replace_and_mark_range` on UTF-16 ranges: `range_utf16` of the
    /// content, `new_selected_utf16` of the new text.
    pub fn replace_and_mark_text_in_range(
        &mut self,
        range_utf16: Option<Range<usize>>,
        new_text: &str,
        new_selected_utf16: Option<Range<usize>>,
    ) -> (r: Result<(), EditError>)
        requires
            old(self).wf(),
            old(self).len() + utf8_len(new_text@) <= usize::MAX,
        ensures
            final(self).wf(),
            marked(
                *old(self),
                *final(self),
                match range_utf16 {
                    Some(u) => Some(utf16_range_to_bytes(old(self).content@, u)),
                    None => None,
                },
                new_text@,
                match new_selected_utf16 {
                    Some(u) => Some(utf16_range_to_bytes(new_text@, u)),
                    None => None,
                },
                r,
            ),
    {
        let range = match &range_utf16 {
            Some(u) => Some(self.range_from_utf16(u)),
            None => None,
        };
        let selected = match &new_selected_utf16 {
            Some(u) => Some(
                utf16_to_byte(new_text, u.start)..utf16_to_byte(new_text, u.end),
            ),
            None => None,
        };
        self.replace_and_mark_range(range, new_text, selected)
    }

    /// The text of the UTF-16 range `range_utf16`, with the UTF-16 range that
    /// was actually read.
    pub fn text_for_range(&self, range_utf16: Range<usize>) -> (r: Result<
        (String, Range<usize>),
        EditError,
    >)
        requires
            self.wf(),
        ensures
            ({
                let b = utf16_range_to_bytes(self.content@, range_utf16);
                if b.start > b.end {
                    r == Err::<(String, Range<usize>), EditError>(EditError::InvalidRange)
                } else {
                    r matches Ok((t, actual)) && encode_utf8(t@) == self.bytes().subrange(
                        b.start as int,
                        b.end as int,
                    ) && actual == byte_range_to_utf16(self.content@, b)
                }
            }),
    {
        let range = self.range_from_utf16(&range_utf16);
        let actual = self.range_to_utf16(&range);
        match self.text_in_range(range) {
            Ok(t) => Ok((t, actual)),
            Err(e) => Err(e),
        }
    }

    /// The selection in UTF-16 offsets, with its direction.
    pub fn selected_text_range(&self) -> (r: (Range<usize>, bool))
        requires
            self.wf(),
        ensures
            r == (byte_range_to_utf16(self.content@, self.selected_range), self.selection_reversed),
    {
        (self.range_to_utf16(&self.selected_range), self.selection_reversed)
    }

    /// The marked range in UTF-16 offsets.
    pub fn marked_text_range(&self) -> (r: Option<Range<usize>>)
        requires
            self.wf(),
        ensures
            r == match self.marked_range {
                Some(m) => Some(byte_range_to_utf16(self.content@, m)),
                None => None,
            },
    {
        match &self.marked_range {
            Some(m) => Some(self.range_to_utf16(m)),
            None => None,
        }
    }

    /// Ends the composition, keeping its text.
    pub fn unmark_text(&mut self)
        requires
            old(self).wf(),
        ensures
            final(self).wf(),
            *final(self) == (TextInput { marked_range: None, ..*old(self) }),
    {
        self.marked_range = None;
    }

    /// The selected text, if the selection is not empty.
    pub fn copy(&self) -> (r: Option<String>)
        requires
            self.wf(),
        ensures
            match r {
                None => self.selected_range.start == self.selected_range.end || range_error(
                    self.content@,
                    self.selected_range,
                ) is Some,
                Some(t) => self.selected_range.start != self.selected_range.end && range_error(
                    self.content@,
                    self.selected_range,
                ) is None && encode_utf8(t@) == self.bytes().subrange(
                    self.selected_range.start as int,
                    self.selected_range.end as int,
                ),
            },
    {
        if self.selected_range.start == self.selected_range.end {
            return None;
        }
        match self.text_in_range(self.selected_range.start..self.selected_range.end) {
            Ok(t) => Some(t),
            Err(_) => None,
        }
    }

    /// Takes out the selected text, if the selection is not empty; the edit
    /// goes through `replace_range(None, "")`.
    pub fn cut(&mut self) -> (r: Result<Option<String>, EditError>)
        requires
            old(self).wf(),
        ensures
            final(self).wf(),
            old(self).selected_range.start == old(self).selected_range.end ==> r == Ok::<
                Option<String>,
                EditError,
            >(None) && *final(self) == *old(self),
            old(self).selected_range.start != old(self).selected_range.end ==> match range_error(
                old(self).content@,
                old(self).selected_range,
            ) {
                Some(e) => r == Err::<Option<String>, EditError>(e) && *final(self) == *old(self),
                None => match r {
                    Ok(Some(t)) => encode_utf8(t@) == old(self).bytes().subrange(
                        old(self).selected_range.start as int,
                        old(self).selected_range.end as int,
                    ) && replaced(
                        *old(self),
                        *final(self),
                        None,
                        Seq::<char>::empty(),
                        Ok(()),
                    ),
                    Ok(None) => false,
                    Err(e) => replaced(
                        *old(self),
                        *final(self),
                        None,
                        Seq::<char>::empty(),
                        Err(e),
                    ),
                },
            },
    {
        if self.selected_range.start == self.selected_range.end {
            return Ok(None);
        }
        let t = match self.text_in_range(self.selected_range.start..self.selected_range.end) {
            Ok(t) => t,
            Err(e) => {
                return Err(e);
            },
        };
        proof {
            reveal_strlit("");
            assert(""@ =~= Seq::<char>::empty());
            assert(encode_utf8(Seq::<char>::empty()) =~= Seq::<u8>::empty());
        }
        match self.replace_range(None, "") {
            Ok(()) => Ok(Some(t)),
            Err(e) => Err(e),
        }
    }

    /// Inserts `text` in place of the marked range or the selection, with
    /// each line feed turned into a space.
    pub fn paste(&mut self, text: &str) -> (r: Result<(), EditError>)
        requires
            old(self).wf(),
            old(self).len() + utf8_len(text@) <= usize::MAX,
        ensures
            final(self).wf(),
            replaced(*old(self), *final(self), None, one_line(text@), r),
    {
        let line = single_line(text);
        proof {
            lemma_one_line_len(text@);
        }
        self.replace_range(None, line.as_str())
    }

    /// A press of the mouse at byte offset `index`: starts a drag, and moves
    /// the caret there, or with `shift` extends the selection there.
    pub fn on_mouse_down(&mut self, index: usize, shift: bool) -> (r: Result<(), EditError>)
        requires
            old(self).wf(),
        ensures
            final(self).wf(),
            r is Ok <==> index <= old(self).len(),
            r is Err ==> r == Err::<(), EditError>(EditError::InvalidRange) && *final(self) == *old(
                self,
            ),
            r is Ok ==> *final(self) == if shift {
                (TextInput { is_selecting: true, ..*old(self) }).with_extended(index)
            } else {
                (TextInput { is_selecting: true, ..*old(self) }).with_caret(index)
            },
    {
        if index > self.content_len() {
            return Err(EditError::InvalidRange);
        }
        self.is_selecting = true;
        if shift {
            self.select_to(index)
        } else {
            self.move_to(index)
        }
    }

    /// A release of the mouse: ends the drag.
    pub fn on_mouse_up(&mut self)
        requires
            old(self).wf(),
        ensures
            final(self).wf(),
            *final(self) == (TextInput { is_selecting: false, ..*old(self) }),
    {
        self.is_selecting = false;
    }

    /// A move of the mouse to byte offset `index`: during a drag, extends the
    /// selection there.
    pub fn on_mouse_move(&mut self, index: usize) -> (r: Result<(), EditError>)
        requires
            old(self).wf(),
        ensures
            final(self).wf(),
            !old(self).is_selecting ==> r is Ok && *final(self) == *old(self),
            old(self).is_selecting ==> (r is Ok <==> index <= old(self).len()),
            old(self).is_selecting && r is Err ==> *final(self) == *old(self),
            old(self).is_selecting && r is Ok ==> *final(self) == old(self).with_extended(index),
    {
        if self.is_selecting {
            self.select_to(index)
        } else {
            Ok(())
        }
    }
}

/// Reading back the span that a successful `replace_range` filled gives the
/// new text: the span lies on character boundaries within the new content,
/// and its bytes are exactly those of the text.
pub proof fn lemma_replace_then_read(
    pre: TextInput,
    post: TextInput,
    range: Range<usize>,
    text: Seq<char>,
)
    requires
        post.wf(),
        replaced(pre, post, Some(range), text, Ok(())),
    ensures
        range_error(
            post.content@,
            Range { start: range.start, end: (range.start + utf8_len(text)) as usize },
        ) is None,
        post.bytes().subrange(range.start as int, range.start + utf8_len(text)) == encode_utf8(
            text,
        ),
        forall|t: Seq<char>|
            encode_utf8(t) == post.bytes().subrange(range.start as int, range.start + utf8_len(text))
                ==> t == text,
{
    let c = pre.content@;
    let i = choose|i: int| 0 <= i <= c.len() && utf8_len(#[trigger] c.take(i)) == range.start;
    let j = choose|j: int| 0 <= j <= c.len() && utf8_len(#[trigger] c.take(j)) == range.end;
    lemma_split_bytes(c, i);
    lemma_split_bytes(c, j);
    let n = c.take(i) + text + c.skip(j);
    lemma_encode_concat(c.take(i), text);
    lemma_encode_concat(c.take(i) + text, c.skip(j));
    assert(post.bytes() =~= encode_utf8(n));
    lemma_encode_injective(post.content@, n);
    assert(n.take(i) =~= c.take(i));
    let k = i + text.len();
    assert(n.take(k) =~= c.take(i) + text);
    lemma_utf8_len_prefix_le(n, k);
    assert(utf8_len(n.take(k)) == range.start + utf8_len(text));
    assert(utf8_len(post.content@.take(i)) == range.start);
    assert(utf8_len(post.content@.take(k)) == range.start + utf8_len(text));
    assert(post.bytes().subrange(range.start as int, range.start + utf8_len(text)) =~= encode_utf8(
        text,
    ));
    assert forall|t: Seq<char>|
        encode_utf8(t) == post.bytes().subrange(
            range.start as int,
            range.start + utf8_len(text),
        ) implies t == text by {
        lemma_encode_injective(t, text);
    }
}

/// An accepted replacement always ends the composition, whatever was marked
/// before.
pub proof fn lemma_replace_clears_marked(
    pre: TextInput,
    post: TextInput,
    range: Option<Range<usize>>,
    text: Seq<char>,
    r: Result<(), EditError>,
)
    requires
        replaced(pre, post, range, text, r),
        r is Ok,
    ensures
        post.marked_range is None,
{
}

/// After a successful `replace_text_in_range` on the UTF-16 range `r16`, the
/// UTF-16 range that covers the new text converts back to exactly the bytes
/// the text was written to, and those bytes are the text: reading that range
/// with `text_for_range` gives the text back.
pub proof fn lemma_replace_then_read_utf16(
    pre: TextInput,
    post: TextInput,
    r16: Range<usize>,
    text: Seq<char>,
)
    requires
        post.wf(),
        replaced(pre, post, Some(utf16_range_to_bytes(pre.content@, r16)), text, Ok(())),
    ensures
        ({
            let a = utf16_range_to_bytes(pre.content@, r16).start;
            let written = Range { start: a, end: (a + utf8_len(text)) as usize };
            &&& utf16_range_to_bytes(post.content@, byte_range_to_utf16(post.content@, written))
                == written
            &&& post.bytes().subrange(written.start as int, written.end as int) == encode_utf8(text)
            &&& forall|t: Seq<char>|
                encode_utf8(t) == post.bytes().subrange(written.start as int, written.end as int)
                    ==> t == text
        }),
{
    let rb = utf16_range_to_bytes(pre.content@, r16);
    lemma_replace_then_read(pre, post, rb, text);
    let c = post.content@;
    let a = rb.start;
    let e = (a + utf8_len(text)) as usize;
    lemma_utf16_round_trip(c, a as int);
    lemma_utf16_round_trip(c, e as int);
    let ka = chars_before_byte(c, a as int) as int;
    let ke = chars_before_byte(c, e as int) as int;
    lemma_chars_before_byte_le(c, a as int);
    lemma_chars_before_byte_le(c, e as int);
    lemma_utf16_le_utf8(c.take(ka));
    lemma_utf16_le_utf8(c.take(ke));
    lemma_utf8_len_prefix_le(c, ka);
    lemma_utf8_len_prefix_le(c, ke);
}

} // verus!
