//! Conversions between byte offsets, UTF-16 offsets and boundaries of a text.
use vstd::prelude::*;
use unicode_segmentation::UnicodeSegmentation;
use vstd::utf8::*;

verus! {

broadcast use vstd::string::group_string_axioms;

/// Number of UTF-8 bytes that encode `c`.
pub open spec fn utf8_width(c: char) -> nat {
    if c as u32 <= 0x7f {
        1
    } else if c as u32 <= 0x7ff {
        2
    } else if c as u32 <= 0xffff {
        3
    } else {
        4
    }
}

/// Number of UTF-16 code units that encode `c`.
pub open spec fn utf16_width(c: char) -> nat {
    if c as u32 <= 0xffff {
        1
    } else {
        2
    }
}

/// Length in bytes of the UTF-8 encoding of `s`.
pub open spec fn utf8_len(s: Seq<char>) -> nat {
    encode_utf8(s).len()
}

/// Length in code units of the UTF-16 encoding of `s`.
pub open spec fn utf16_len(s: Seq<char>) -> nat
    decreases s.len(),
{
    if s.len() == 0 {
        0
    } else {
        utf16_len(s.drop_last()) + utf16_width(s.last())
    }
}

/// Number of characters of `s` whose encoding starts before byte `b`.
pub open spec fn chars_before_byte(s: Seq<char>, b: int) -> nat
    decreases s.len(),
{
    if s.len() == 0 {
        0
    } else if utf8_len(s.drop_last()) < b {
        s.len()
    } else {
        chars_before_byte(s.drop_last(), b)
    }
}

/// Number of characters of `s` whose encoding starts before UTF-16 unit `u`.
pub open spec fn chars_before_utf16(s: Seq<char>, u: int) -> nat
    decreases s.len(),
{
    if s.len() == 0 {
        0
    } else if utf16_len(s.drop_last()) < u {
        s.len()
    } else {
        chars_before_utf16(s.drop_last(), u)
    }
}

/// `b` is the byte offset at which some character of `s` starts, or the end.
pub open spec fn is_char_offset(s: Seq<char>, b: int) -> bool {
    exists|i: int| 0 <= i <= s.len() && utf8_len(#[trigger] s.take(i)) == b
}

/// The encoding of a concatenation is the concatenation of the encodings.
pub proof fn lemma_encode_concat(a: Seq<char>, b: Seq<char>)
    ensures
        encode_utf8(a + b) == encode_utf8(a) + encode_utf8(b),
    decreases a.len(),
{
    if a.len() == 0 {
        assert(a + b =~= b);
        assert(encode_utf8(a) =~= Seq::<u8>::empty());
        assert(encode_utf8(a) + encode_utf8(b) =~= encode_utf8(b));
    } else {
        assert((a + b).drop_first() =~= a.drop_first() + b);
        lemma_encode_concat(a.drop_first(), b);
        assert((a + b)[0] == a[0]);
        assert(encode_utf8(a + b) =~= encode_scalar(a[0] as u32) + (encode_utf8(a.drop_first())
            + encode_utf8(b)));
    }
}

/// A single character encodes to `utf8_width` bytes.
pub proof fn lemma_encode_char_len(c: char)
    ensures
        encode_utf8(seq![c]).len() == utf8_width(c),
{
    char_is_scalar(c);
    assert(seq![c].drop_first() =~= Seq::<char>::empty());
    assert(encode_utf8(Seq::<char>::empty()) =~= Seq::<u8>::empty());
}

/// The byte length of a prefix grows by the width of the next character.
pub proof fn lemma_utf8_len_push(s: Seq<char>, i: int)
    requires
        0 <= i < s.len(),
    ensures
        utf8_len(s.take(i + 1)) == utf8_len(s.take(i)) + utf8_width(s[i]),
{
    assert(s.take(i + 1) =~= s.take(i) + seq![s[i]]);
    lemma_encode_concat(s.take(i), seq![s[i]]);
    lemma_encode_char_len(s[i]);
}

/// The UTF-16 length of a prefix grows by the width of the next character.
pub proof fn lemma_utf16_len_push(s: Seq<char>, i: int)
    requires
        0 <= i < s.len(),
    ensures
        utf16_len(s.take(i + 1)) == utf16_len(s.take(i)) + utf16_width(s[i]),
{
    assert(s.take(i + 1).drop_last() =~= s.take(i));
}

/// A prefix is never longer in bytes than the whole text.
pub proof fn lemma_utf8_len_prefix_le(s: Seq<char>, i: int)
    requires
        0 <= i <= s.len(),
    ensures
        utf8_len(s.take(i)) <= utf8_len(s),
{
    assert(s =~= s.take(i) + s.skip(i));
    lemma_encode_concat(s.take(i), s.skip(i));
}

/// A text never takes more UTF-16 code units than UTF-8 bytes.
pub proof fn lemma_utf16_le_utf8(s: Seq<char>)
    ensures
        utf16_len(s) <= utf8_len(s),
    decreases s.len(),
{
    if s.len() > 0 {
        lemma_utf16_le_utf8(s.drop_last());
        lemma_utf8_len_push(s, s.len() - 1);
        assert(s.take(s.len() - 1) =~= s.drop_last());
        assert(s.take(s.len() as int) =~= s);
    }
}

/// Number of UTF-8 bytes that encode `c`.
pub fn char_utf8_width(c: char) -> (r: usize)
    ensures
        r == utf8_width(c),
{
    let v = c as u32;
    if v <= 0x7f {
        1
    } else if v <= 0x7ff {
        2
    } else if v <= 0xffff {
        3
    } else {
        4
    }
}

/// Number of UTF-16 code units that encode `c`.
pub fn char_utf16_width(c: char) -> (r: usize)
    ensures
        r == utf16_width(c),
{
    if c as u32 <= 0xffff {
        1
    } else {
        2
    }
}

/// The byte offset of each character is a character boundary of the encoding.
pub proof fn lemma_prefix_is_char_boundary(s: Seq<char>, i: int)
    requires
        0 <= i <= s.len(),
    ensures
        is_char_boundary(encode_utf8(s), utf8_len(s.take(i)) as int),
    decreases s.len(),
{
    encode_utf8_valid_utf8(s);
    if i == 0 {
        assert(s.take(0) =~= Seq::<char>::empty());
        assert(encode_utf8(Seq::<char>::empty()) =~= Seq::<u8>::empty());
    } else {
        let bytes = encode_utf8(s);
        let t = s.drop_first();
        encode_utf8_first_scalar(s);
        assert(pop_first_scalar(bytes) =~= encode_utf8(t));
        assert(s.take(i) =~= seq![s[0]] + t.take(i - 1));
        lemma_encode_concat(seq![s[0]], t.take(i - 1));
        lemma_encode_char_len(s[0]);
        assert(encode_utf8(seq![s[0]]) =~= encode_scalar(s[0] as u32)) by {
            assert(seq![s[0]].drop_first() =~= Seq::<char>::empty());
            assert(encode_utf8(Seq::<char>::empty()) =~= Seq::<u8>::empty());
        }
        lemma_utf8_len_prefix_le(s, i);
        lemma_prefix_is_char_boundary(t, i - 1);
    }
}

/// Every character boundary of the encoding is the byte offset of a character.
pub proof fn lemma_char_boundary_is_offset(s: Seq<char>, b: int)
    requires
        is_char_boundary(encode_utf8(s), b),
    ensures
        is_char_offset(s, b),
    decreases s.len(),
{
    encode_utf8_valid_utf8(s);
    if b == 0 {
        assert(s.take(0) =~= Seq::<char>::empty());
        assert(encode_utf8(Seq::<char>::empty()) =~= Seq::<u8>::empty());
        assert(utf8_len(s.take(0)) == 0);
    } else {
        let bytes = encode_utf8(s);
        if s.len() == 0 {
            assert(bytes =~= Seq::<u8>::empty());
        } else {
            let t = s.drop_first();
            encode_utf8_first_scalar(s);
            assert(pop_first_scalar(bytes) =~= encode_utf8(t));
            lemma_encode_char_len(s[0]);
            assert(encode_utf8(seq![s[0]]) =~= encode_scalar(s[0] as u32)) by {
                assert(seq![s[0]].drop_first() =~= Seq::<char>::empty());
                assert(encode_utf8(Seq::<char>::empty()) =~= Seq::<u8>::empty());
            }
            let w = utf8_width(s[0]) as int;
            lemma_char_boundary_is_offset(t, b - w);
            let k = choose|k: int| 0 <= k <= t.len() && utf8_len(#[trigger] t.take(k)) == b - w;
            assert(s.take(k + 1) =~= seq![s[0]] + t.take(k));
            lemma_encode_concat(seq![s[0]], t.take(k));
            assert(utf8_len(s.take(k + 1)) == b);
        }
    }
}

/// Splitting a text at a character gives the encodings of the two parts.
pub proof fn lemma_split_bytes(s: Seq<char>, i: int)
    requires
        0 <= i <= s.len(),
    ensures
        encode_utf8(s).subrange(0, utf8_len(s.take(i)) as int) == encode_utf8(s.take(i)),
        encode_utf8(s).subrange(utf8_len(s.take(i)) as int, utf8_len(s) as int) == encode_utf8(
            s.skip(i),
        ),
{
    assert(s =~= s.take(i) + s.skip(i));
    lemma_encode_concat(s.take(i), s.skip(i));
    assert(encode_utf8(s).subrange(0, utf8_len(s.take(i)) as int) =~= encode_utf8(s.take(i)));
    assert(encode_utf8(s).subrange(utf8_len(s.take(i)) as int, utf8_len(s) as int) =~= encode_utf8(
        s.skip(i),
    ));
}

/// Texts with the same encoding are equal.
pub proof fn lemma_encode_injective(a: Seq<char>, b: Seq<char>)
    requires
        encode_utf8(a) == encode_utf8(b),
    ensures
        a == b,
{
    encode_utf8_decode_utf8(a);
    encode_utf8_decode_utf8(b);
}

/// The byte length of prefixes grows strictly with their length.
pub proof fn lemma_utf8_len_increasing(s: Seq<char>, i: int, j: int)
    requires
        0 <= i < j <= s.len(),
    ensures
        utf8_len(s.take(i)) < utf8_len(s.take(j)),
    decreases j - i,
{
    lemma_utf8_len_push(s, j - 1);
    if i < j - 1 {
        lemma_utf8_len_increasing(s, i, j - 1);
    }
}

/// `chars_before_byte` is the first `i` whose prefix reaches the offset.
pub proof fn lemma_chars_before_byte_exact(s: Seq<char>, b: int, i: int)
    requires
        0 <= i <= s.len(),
        forall|j: int| 0 <= j < i ==> utf8_len(#[trigger] s.take(j)) < b,
        i == s.len() || utf8_len(s.take(i)) >= b,
    ensures
        chars_before_byte(s, b) == i,
    decreases s.len(),
{
    if s.len() > 0 {
        let t = s.drop_last();
        assert(s.take(s.len() - 1) =~= t);
        if i == s.len() {
            assert(utf8_len(s.take(s.len() - 1)) < b);
        } else {
            assert(t.take(i) =~= s.take(i));
            assert forall|j: int| 0 <= j < i implies utf8_len(#[trigger] t.take(j)) < b by {
                assert(t.take(j) =~= s.take(j));
            }
            if i < s.len() - 1 {
                lemma_utf8_len_increasing(s, i, s.len() - 1);
            }
            lemma_chars_before_byte_exact(t, b, i);
        }
    }
}

/// The characters of `text`, in order.
pub fn chars_of(text: &str) -> (r: Vec<char>)
    ensures
        r@ == text@,
{
    let mut r: Vec<char> = Vec::new();
    for ch in it: text.chars()
        invariant
            it.seq() == text@,
            r@ == text@.take(it.index()),
    {
        r.push(ch);
        assert(r@ =~= text@.take(it.index() + 1));
    }
    assert(r@ =~= text@);
    r
}

/// UTF-16 position of byte offset `offset`: the code units of every character
/// that starts before it.
pub fn byte_to_utf16(text: &str, offset: usize) -> (r: usize)
    requires
        utf8_len(text@) <= usize::MAX,
    ensures
        r == utf16_len(text@.take(chars_before_byte(text@, offset as int) as int)),
{
    let chars = chars_of(text);
    let mut utf16_offset: usize = 0;
    let mut utf8_count: usize = 0;
    let mut i: usize = 0;
    while i < chars.len() && utf8_count < offset
        invariant
            chars@ == text@,
            0 <= i <= chars.len(),
            utf8_len(text@) <= usize::MAX,
            utf8_count == utf8_len(text@.take(i as int)),
            utf16_offset == utf16_len(text@.take(i as int)),
            forall|j: int| 0 <= j < i ==> utf8_len(#[trigger] text@.take(j)) < offset,
        decreases chars.len() - i,
    {
        proof {
            lemma_utf8_len_push(text@, i as int);
            lemma_utf8_len_prefix_le(text@, i + 1);
            lemma_utf16_len_push(text@, i as int);
            lemma_utf16_le_utf8(text@.take(i + 1));
        }
        utf8_count += char_utf8_width(chars[i]);
        utf16_offset += char_utf16_width(chars[i]);
        i += 1;
    }
    proof {
        lemma_chars_before_byte_exact(text@, offset as int, i as int);
    }
    utf16_offset
}

/// The UTF-16 length of prefixes grows strictly with their length.
pub proof fn lemma_utf16_len_increasing(s: Seq<char>, i: int, j: int)
    requires
        0 <= i < j <= s.len(),
    ensures
        utf16_len(s.take(i)) < utf16_len(s.take(j)),
    decreases j - i,
{
    lemma_utf16_len_push(s, j - 1);
    if i < j - 1 {
        lemma_utf16_len_increasing(s, i, j - 1);
    }
}

/// `chars_before_utf16` is the first `i` whose prefix reaches the offset.
pub proof fn lemma_chars_before_utf16_exact(s: Seq<char>, u: int, i: int)
    requires
        0 <= i <= s.len(),
        forall|j: int| 0 <= j < i ==> utf16_len(#[trigger] s.take(j)) < u,
        i == s.len() || utf16_len(s.take(i)) >= u,
    ensures
        chars_before_utf16(s, u) == i,
    decreases s.len(),
{
    if s.len() > 0 {
        let t = s.drop_last();
        assert(s.take(s.len() - 1) =~= t);
        if i == s.len() {
            assert(utf16_len(s.take(s.len() - 1)) < u);
        } else {
            assert(t.take(i) =~= s.take(i));
            assert forall|j: int| 0 <= j < i implies utf16_len(#[trigger] t.take(j)) < u by {
                assert(t.take(j) =~= s.take(j));
            }
            if i < s.len() - 1 {
                lemma_utf16_len_increasing(s, i, s.len() - 1);
            }
            lemma_chars_before_utf16_exact(t, u, i);
        }
    }
}

/// Byte offset of UTF-16 position `offset`: the bytes of every character
/// that starts before it. An offset inside a surrogate pair moves to the end
/// of that character; one past the end gives the text's byte length.
pub fn utf16_to_byte(text: &str, offset: usize) -> (r: usize)
    requires
        utf8_len(text@) <= usize::MAX,
    ensures
        r == utf8_len(text@.take(chars_before_utf16(text@, offset as int) as int)),
{
    let chars = chars_of(text);
    let mut utf8_offset: usize = 0;
    let mut utf16_count: usize = 0;
    let mut i: usize = 0;
    while i < chars.len() && utf16_count < offset
        invariant
            chars@ == text@,
            0 <= i <= chars.len(),
            utf8_len(text@) <= usize::MAX,
            utf8_offset == utf8_len(text@.take(i as int)),
            utf16_count == utf16_len(text@.take(i as int)),
            forall|j: int| 0 <= j < i ==> utf16_len(#[trigger] text@.take(j)) < offset,
        decreases chars.len() - i,
    {
        proof {
            lemma_utf8_len_push(text@, i as int);
            lemma_utf8_len_prefix_le(text@, i + 1);
            lemma_utf16_len_push(text@, i as int);
            lemma_utf16_le_utf8(text@.take(i + 1));
        }
        utf16_count += char_utf16_width(chars[i]);
        utf8_offset += char_utf8_width(chars[i]);
        i += 1;
    }
    proof {
        lemma_chars_before_utf16_exact(text@, offset as int, i as int);
    }
    utf8_offset
}

/// Converting a character's byte offset to UTF-16 and back gives it again.
pub proof fn lemma_utf16_round_trip(text: Seq<char>, b: int)
    requires
        is_char_offset(text, b),
    ensures
        utf8_len(
            text.take(
                chars_before_utf16(
                    text,
                    utf16_len(text.take(chars_before_byte(text, b) as int)) as int,
                ) as int,
            ),
        ) == b,
{
    let i = choose|i: int| 0 <= i <= text.len() && utf8_len(#[trigger] text.take(i)) == b;
    assert forall|j: int| 0 <= j < i implies utf8_len(#[trigger] text.take(j)) < b by {
        lemma_utf8_len_increasing(text, j, i);
    }
    lemma_chars_before_byte_exact(text, b, i);
    let u = utf16_len(text.take(i));
    assert forall|j: int| 0 <= j < i implies utf16_len(#[trigger] text.take(j)) < u by {
        lemma_utf16_len_increasing(text, j, i);
    }
    lemma_chars_before_utf16_exact(text, u as int, i);
}

/// Byte offsets at which the extended grapheme clusters of a text start.
pub uninterp spec fn grapheme_starts(s: Seq<char>) -> Seq<usize>;

/// `starts` lists cluster starts of a text of `end` bytes: strictly
/// increasing, each before the end.
pub open spec fn is_segmentation(starts: Seq<usize>, end: int) -> bool {
    &&& forall|i: int, j: int| 0 <= i < j < starts.len() ==> starts[i] < starts[j]
    &&& forall|i: int| 0 <= i < starts.len() ==> starts[i] < end
}

/// Relies on unicode_segmentation's `grapheme_indices(true)`: the byte offset
/// of each extended grapheme cluster, in text order. The clusters are
/// non-empty and follow one another from the start of the text, so the
/// offsets increase, the first is 0, each lies before the end, and each is
/// the offset of a character.
#[verifier::external_body]
fn grapheme_offsets(text: &str) -> (r: Vec<usize>)
    ensures
        r@ == grapheme_starts(text@),
        is_segmentation(r@, utf8_len(text@) as int),
        forall|i: int| 0 <= i < r@.len() ==> is_char_offset(text@, #[trigger] r@[i] as int),
        text@.len() > 0 ==> r@.len() > 0 && r@[0] == 0,
{
    text.grapheme_indices(true).map(|(i, _)| i).collect()
}

/// The first entry of `starts` after `b`, or `end` if there is none.
pub open spec fn first_after(starts: Seq<usize>, b: int, end: int) -> int
    decreases starts.len(),
{
    if starts.len() == 0 {
        end
    } else if starts[0] > b {
        starts[0] as int
    } else {
        first_after(starts.drop_first(), b, end)
    }
}

/// The last entry of `starts` before `b`, or 0 if there is none.
pub open spec fn last_before(starts: Seq<usize>, b: int) -> int
    decreases starts.len(),
{
    if starts.len() == 0 {
        0
    } else if starts.last() < b {
        starts.last() as int
    } else {
        last_before(starts.drop_last(), b)
    }
}

/// A search forward never passes `end` when every entry lies before it.
proof fn lemma_first_after_bound(starts: Seq<usize>, b: int, end: int)
    requires
        forall|i: int| 0 <= i < starts.len() ==> starts[i] < end,
    ensures
        first_after(starts, b, end) <= end,
    decreases starts.len(),
{
    if starts.len() > 0 {
        lemma_first_after_bound(starts.drop_first(), b, end);
    }
}

/// A search backward never passes its starting offset.
proof fn lemma_last_before_bound(starts: Seq<usize>, b: int)
    requires
        0 <= b,
    ensures
        last_before(starts, b) <= b,
    decreases starts.len(),
{
    if starts.len() > 0 {
        lemma_last_before_bound(starts.drop_last(), b);
    }
}

/// The first boundary in `starts` after `offset`, or `end`.
pub fn next_boundary_in(starts: &Vec<usize>, offset: usize, end: usize) -> (r: usize)
    ensures
        r == first_after(starts@, offset as int, end as int),
{
    let mut i: usize = 0;
    assert(starts@.skip(0) =~= starts@);
    while i < starts.len()
        invariant
            0 <= i <= starts.len(),
            first_after(starts@, offset as int, end as int) == first_after(
                starts@.skip(i as int),
                offset as int,
                end as int,
            ),
        decreases starts.len() - i,
    {
        assert(starts@.skip(i as int).drop_first() =~= starts@.skip(i + 1));
        if starts[i] > offset {
            return starts[i];
        }
        i += 1;
    }
    end
}

/// The last boundary in `starts` before `offset`, or 0.
pub fn previous_boundary_in(starts: &Vec<usize>, offset: usize) -> (r: usize)
    ensures
        r == last_before(starts@, offset as int),
{
    let mut i: usize = starts.len();
    assert(starts@.take(i as int) =~= starts@);
    while i > 0
        invariant
            0 <= i <= starts.len(),
            last_before(starts@, offset as int) == last_before(
                starts@.take(i as int),
                offset as int,
            ),
        decreases i,
    {
        assert(starts@.take(i as int).drop_last() =~= starts@.take(i - 1));
        if starts[i - 1] < offset {
            return starts[i - 1];
        }
        i -= 1;
    }
    0
}

/// The search forward lands on a character offset when every entry is one.
proof fn lemma_first_after_char_offset(text: Seq<char>, starts: Seq<usize>, b: int)
    requires
        forall|i: int| 0 <= i < starts.len() ==> is_char_offset(text, #[trigger] starts[i] as int),
    ensures
        is_char_offset(text, first_after(starts, b, utf8_len(text) as int)),
    decreases starts.len(),
{
    if starts.len() == 0 {
        assert(text.take(text.len() as int) =~= text);
    } else if starts[0] <= b {
        let t = starts.drop_first();
        assert forall|i: int| 0 <= i < t.len() implies is_char_offset(text, #[trigger] t[i] as int) by {
            assert(t[i] == starts[i + 1]);
        }
        lemma_first_after_char_offset(text, t, b);
    } else {
        assert(is_char_offset(text, starts[0] as int));
    }
}

/// The search backward lands on a character offset when every entry is one.
proof fn lemma_last_before_char_offset(text: Seq<char>, starts: Seq<usize>, b: int)
    requires
        forall|i: int| 0 <= i < starts.len() ==> is_char_offset(text, #[trigger] starts[i] as int),
    ensures
        is_char_offset(text, last_before(starts, b)),
    decreases starts.len(),
{
    if starts.len() == 0 {
        assert(text.take(0) =~= Seq::<char>::empty());
        assert(encode_utf8(Seq::<char>::empty()) =~= Seq::<u8>::empty());
        assert(utf8_len(text.take(0)) == 0);
    } else if starts.last() < b {
        assert(is_char_offset(text, starts[starts.len() - 1] as int));
    } else {
        let t = starts.drop_last();
        assert forall|i: int| 0 <= i < t.len() implies is_char_offset(text, #[trigger] t[i] as int) by {
            assert(t[i] == starts[i]);
        }
        lemma_last_before_char_offset(text, t, b);
    }
}

/// The smallest grapheme boundary after `offset`, or the text's byte length.
pub fn next_grapheme_boundary(text: &str, offset: usize) -> (r: usize)
    requires
        utf8_len(text@) <= usize::MAX,
    ensures
        r == first_after(grapheme_starts(text@), offset as int, utf8_len(text@) as int),
        r <= utf8_len(text@),
        is_segmentation(grapheme_starts(text@), utf8_len(text@) as int),
        is_char_offset(text@, r as int),
{
    let starts = grapheme_offsets(text);
    proof {
        lemma_first_after_bound(starts@, offset as int, utf8_len(text@) as int);
        lemma_first_after_char_offset(text@, starts@, offset as int);
    }
    next_boundary_in(&starts, offset, text.len())
}

/// The largest grapheme boundary before `offset`, or 0.
pub fn previous_grapheme_boundary(text: &str, offset: usize) -> (r: usize)
    ensures
        r == last_before(grapheme_starts(text@), offset as int),
        r <= offset,
        is_segmentation(grapheme_starts(text@), utf8_len(text@) as int),
        is_char_offset(text@, r as int),
{
    let starts = grapheme_offsets(text);
    proof {
        lemma_last_before_bound(starts@, offset as int);
        lemma_last_before_char_offset(text@, starts@, offset as int);
    }
    previous_boundary_in(&starts, offset)
}

/// From an entry, the search forward finds the next entry, or `end`.
proof fn lemma_first_after_found(starts: Seq<usize>, end: int, k: int)
    requires
        is_segmentation(starts, end),
        0 <= k < starts.len(),
    ensures
        first_after(starts, starts[k] as int, end) == if k + 1 < starts.len() {
            starts[k + 1] as int
        } else {
            end
        },
    decreases starts.len(),
{
    if k > 0 {
        assert(starts[0] < starts[k]);
        let t = starts.drop_first();
        assert(is_segmentation(t, end)) by {
            assert forall|i: int, j: int| 0 <= i < j < t.len() implies t[i] < t[j] by {
                assert(t[i] == starts[i + 1] && t[j] == starts[j + 1]);
            }
        }
        assert(t[k - 1] == starts[k]);
        if k + 1 < starts.len() {
            assert(t[k] == starts[k + 1]);
        }
        lemma_first_after_found(t, end, k - 1);
    } else if starts.len() > 1 {
        assert(starts[0] < starts[1]);
        assert(starts.drop_first()[0] == starts[1]);
        assert(first_after(starts.drop_first(), starts[0] as int, end) == starts[1]);
    } else {
        assert(starts.drop_first().len() == 0);
        assert(first_after(starts.drop_first(), starts[0] as int, end) == end);
    }
}

/// Below the next entry, the search backward finds entry `k`.
proof fn lemma_last_before_found(starts: Seq<usize>, end: int, k: int, b: int)
    requires
        is_segmentation(starts, end),
        0 <= k < starts.len(),
        starts[k] < b,
        k + 1 < starts.len() ==> b <= starts[k + 1],
    ensures
        last_before(starts, b) == starts[k],
    decreases starts.len(),
{
    if k + 1 < starts.len() {
        let t = starts.drop_last();
        assert(starts.last() >= starts[k + 1]);
        assert(is_segmentation(t, end));
        lemma_last_before_found(t, end, k, b);
    }
}

/// The search forward finds the nearest entry above `b`, or `end` when there
/// is none; the search backward finds the nearest entry below `b`, or 0.
pub proof fn lemma_boundary_search_nearest(starts: Seq<usize>, b: int, end: int)
    requires
        is_segmentation(starts, end),
    ensures
        first_after(starts, b, end) == end || (b < first_after(starts, b, end) && exists|k: int|
            0 <= k < starts.len() && starts[k] == first_after(starts, b, end)),
        forall|k: int|
            0 <= k < starts.len() && b < #[trigger] starts[k] ==> first_after(starts, b, end)
                <= starts[k],
        (forall|k: int| 0 <= k < starts.len() ==> #[trigger] starts[k] <= b) ==> first_after(
            starts,
            b,
            end,
        ) == end,
        last_before(starts, b) == 0 || (last_before(starts, b) < b && exists|k: int|
            0 <= k < starts.len() && starts[k] == last_before(starts, b)),
        forall|k: int|
            0 <= k < starts.len() && #[trigger] starts[k] < b ==> starts[k] <= last_before(
                starts,
                b,
            ),
    decreases starts.len(),
{
    if starts.len() > 0 {
        let t = starts.drop_first();
        let u = starts.drop_last();
        assert(is_segmentation(t, end)) by {
            assert forall|i: int, j: int| 0 <= i < j < t.len() implies t[i] < t[j] by {
                assert(t[i] == starts[i + 1] && t[j] == starts[j + 1]);
            }
        }
        assert(is_segmentation(u, end));
        lemma_boundary_search_nearest(t, b, end);
        lemma_boundary_search_nearest(u, b, end);
        if starts[0] <= b {
            assert forall|k: int|
                0 <= k < starts.len() && b < #[trigger] starts[k] implies first_after(
                    starts,
                    b,
                    end,
                ) <= starts[k] by {
                assert(t[k - 1] == starts[k]);
            }
            if first_after(starts, b, end) != end {
                let k = choose|k: int| 0 <= k < t.len() && t[k] == first_after(t, b, end);
                assert(starts[k + 1] == t[k]);
            }
            if forall|k: int| 0 <= k < starts.len() ==> #[trigger] starts[k] <= b {
                assert forall|k: int| 0 <= k < t.len() implies #[trigger] t[k] <= b by {
                    assert(t[k] == starts[k + 1]);
                }
            }
        } else {
            assert forall|k: int|
                0 <= k < starts.len() && b < #[trigger] starts[k] implies first_after(
                    starts,
                    b,
                    end,
                ) <= starts[k] by {
                if k > 0 {
                    assert(starts[0] < starts[k]);
                }
            }
        }
        if starts.last() >= b {
            if last_before(starts, b) != 0 {
                let k = choose|k: int| 0 <= k < u.len() && u[k] == last_before(u, b);
                assert(starts[k] == u[k]);
            }
            assert forall|k: int|
                0 <= k < starts.len() && #[trigger] starts[k] < b implies starts[k] <= last_before(
                    starts,
                    b,
                ) by {
                assert(k < starts.len() - 1);
                assert(u[k] == starts[k]);
            }
        } else {
            assert forall|k: int|
                0 <= k < starts.len() && #[trigger] starts[k] < b implies starts[k] <= last_before(
                    starts,
                    b,
                ) by {
                if k < starts.len() - 1 {
                    assert(starts[k] < starts[starts.len() - 1]);
                }
            }
        }
    }
}

/// Stepping to the next cluster boundary and back returns to the starting
/// boundary, for any segmentation with the properties `grapheme_offsets`
/// promises, such as `grapheme_starts` of a text.
pub proof fn lemma_grapheme_step_back(starts: Seq<usize>, end: int, b: int)
    requires
        is_segmentation(starts, end),
        exists|k: int| 0 <= k < starts.len() && starts[k] == b,
    ensures
        last_before(starts, first_after(starts, b, end)) == b,
{
    let k = choose|k: int| 0 <= k < starts.len() && starts[k] == b;
    lemma_first_after_found(starts, end, k);
    if k + 1 < starts.len() {
        assert(starts[k] < starts[k + 1]);
    }
    lemma_last_before_found(starts, end, k, first_after(starts, b, end));
}

/// An ASCII letter or digit.
pub open spec fn is_word_byte(b: u8) -> bool {
    (0x30 <= b <= 0x39) || (0x41 <= b <= 0x5a) || (0x61 <= b <= 0x7a)
}

/// Whether `b` is an ASCII letter or digit.
pub fn word_byte(b: u8) -> (r: bool)
    ensures
        r == is_word_byte(b),
{
    (0x30 <= b && b <= 0x39) || (0x41 <= b && b <= 0x5a) || (0x61 <= b && b <= 0x7a)
}

/// From `i`, the first offset whose byte is not of the kind `word`.
pub open spec fn skip_forward(bytes: Seq<u8>, i: int, word: bool) -> int
    decreases bytes.len() - i,
{
    if 0 <= i < bytes.len() && is_word_byte(bytes[i]) == word {
        skip_forward(bytes, i + 1, word)
    } else {
        i
    }
}

/// From `i`, the last offset whose preceding byte is not of the kind `word`.
pub open spec fn skip_backward(bytes: Seq<u8>, i: int, word: bool) -> int
    decreases i,
{
    if 0 < i <= bytes.len() && is_word_byte(bytes[i - 1]) == word {
        skip_backward(bytes, i - 1, word)
    } else {
        i
    }
}

/// End of the word at or after `i`: skip non-word bytes, then word bytes.
pub open spec fn word_end(bytes: Seq<u8>, i: int) -> int {
    skip_forward(bytes, skip_forward(bytes, i, false), true)
}

/// Start of the word at or before `i`: skip non-word bytes, then word bytes,
/// going back.
pub open spec fn word_start(bytes: Seq<u8>, i: int) -> int {
    skip_backward(bytes, skip_backward(bytes, i, false), true)
}

fn skip_bytes_forward(bytes: &[u8], i: usize, word: bool) -> (r: usize)
    ensures
        r == skip_forward(bytes@, i as int, word),
        i <= bytes@.len() ==> r <= bytes@.len(),
{
    let mut idx = i;
    while idx < bytes.len() && word_byte(bytes[idx]) == word
        invariant
            i <= idx,
            i <= bytes@.len() ==> idx <= bytes@.len(),
            skip_forward(bytes@, i as int, word) == skip_forward(bytes@, idx as int, word),
        decreases bytes.len() - idx,
    {
        idx += 1;
    }
    idx
}

fn skip_bytes_backward(bytes: &[u8], i: usize, word: bool) -> (r: usize)
    requires
        i <= bytes@.len(),
    ensures
        r == skip_backward(bytes@, i as int, word),
        r <= i,
{
    let mut idx = i;
    while idx > 0 && word_byte(bytes[idx - 1]) == word
        invariant
            idx <= i <= bytes@.len(),
            skip_backward(bytes@, i as int, word) == skip_backward(bytes@, idx as int, word),
        decreases idx,
    {
        idx -= 1;
    }
    idx
}

/// The end of the next word: skips the non-word bytes from `offset`, then the
/// word bytes after them. Word bytes are ASCII letters and digits.
pub fn next_word_boundary(text: &str, offset: usize) -> (r: usize)
    ensures
        r == word_end(encode_utf8(text@), offset as int),
        offset <= utf8_len(text@) ==> r <= utf8_len(text@),
{
    let bytes = text.as_bytes();
    let idx = skip_bytes_forward(bytes, offset, false);
    skip_bytes_forward(bytes, idx, true)
}

/// The start of the previous word: skips the non-word bytes before `offset`,
/// then the word bytes before them.
pub fn previous_word_boundary(text: &str, offset: usize) -> (r: usize)
    requires
        offset <= utf8_len(text@),
    ensures
        r == word_start(encode_utf8(text@), offset as int),
        r <= offset,
{
    let bytes = text.as_bytes();
    let idx = skip_bytes_backward(bytes, offset, false);
    skip_bytes_backward(bytes, idx, true)
}

/// No more characters start before a byte offset than the text holds.
pub proof fn lemma_chars_before_byte_le(s: Seq<char>, b: int)
    ensures
        chars_before_byte(s, b) <= s.len(),
    decreases s.len(),
{
    if s.len() > 0 {
        lemma_chars_before_byte_le(s.drop_last(), b);
    }
}

/// No more characters start before an offset than the text holds.
pub proof fn lemma_chars_before_utf16_le(s: Seq<char>, u: int)
    ensures
        chars_before_utf16(s, u) <= s.len(),
    decreases s.len(),
{
    if s.len() > 0 {
        lemma_chars_before_utf16_le(s.drop_last(), u);
    }
}

/// `s` with each line feed turned into a space.
pub open spec fn one_line(s: Seq<char>) -> Seq<char> {
    s.map_values(|c: char| if c == '\n' { ' ' } else { c })
}

/// Turning line feeds into spaces keeps the byte length.
pub proof fn lemma_one_line_len(s: Seq<char>)
    ensures
        utf8_len(one_line(s)) == utf8_len(s),
    decreases s.len(),
{
    if s.len() > 0 {
        let n = s.len() - 1;
        lemma_one_line_len(s.drop_last());
        assert(one_line(s).drop_last() =~= one_line(s.drop_last()));
        lemma_utf8_len_push(s, n);
        lemma_utf8_len_push(one_line(s), n);
        assert(s.take(n) =~= s.drop_last());
        assert(s.take(n + 1) =~= s);
        assert(one_line(s).take(n) =~= one_line(s.drop_last()));
        assert(one_line(s).take(n + 1) =~= one_line(s));
    }
}

} // verus!
