//! Characters and byte offsets of a source text.
use vstd::prelude::*;
use vstd::utf8::{encode_scalar, encode_utf8};
use unicode_segmentation::UnicodeSegmentation;

verus! {

/// An ASCII lowercase letter: what a subroutine name starts with.
pub open spec fn is_lowercase(c: char) -> bool {
    'a' <= c <= 'z'
}

/// An ASCII letter or digit, or `_`: what a subroutine name is made of.
pub open spec fn is_identifier_char(c: char) -> bool {
    ('a' <= c <= 'z') || ('A' <= c <= 'Z') || ('0' <= c <= '9') || c == '_'
}

/// Whether a character has the Unicode property `White_Space`, as
/// `char::is_whitespace` of the standard library decides it.
pub uninterp spec fn unicode_white_space(c: char) -> bool;

/// White space around a subroutine name. In ASCII these are the space and the
/// five controls from tab to carriage return; beyond ASCII, the characters
/// with the Unicode property `White_Space`.
pub open spec fn is_space(c: char) -> bool {
    if c <= '\x7f' {
        c == ' ' || ('\t' <= c <= '\r')
    } else {
        unicode_white_space(c)
    }
}

/// Number of bytes of the UTF-8 encoding of a character.
pub open spec fn utf8_width(c: char) -> nat {
    encode_scalar(c as u32).len()
}

/// Number of bytes that precede the character at index `i` in the UTF-8
/// encoding of `src`; for `i == src.len()`, the length of the encoding.
pub open spec fn byte_offset(src: Seq<char>, i: int) -> nat {
    encode_utf8(src.take(i)).len()
}

/// The number of extended grapheme clusters of a text, as the crate
/// `unicode-segmentation` counts them.
pub uninterp spec fn grapheme_count(s: Seq<char>) -> nat;

/// The encoding of a concatenation is the concatenation of the encodings.
pub proof fn lemma_encode_utf8_concat(a: Seq<char>, b: Seq<char>)
    ensures
        encode_utf8(a + b) == encode_utf8(a) + encode_utf8(b),
    decreases a.len(),
{
    if a.len() == 0 {
        assert(a + b =~= b);
        assert(encode_utf8(a) =~= Seq::<u8>::empty());
        assert(encode_utf8(a) + encode_utf8(b) =~= encode_utf8(b));
    } else {
        assert((a + b).drop_first() =~= a.drop_first() + b);
        assert((a + b)[0] == a[0]);
        lemma_encode_utf8_concat(a.drop_first(), b);
        assert(encode_utf8(a + b) =~= encode_utf8(a) + encode_utf8(b));
    }
}

/// A single character encodes to between one and four bytes.
pub proof fn lemma_utf8_width_bounds(c: char)
    ensures
        1 <= utf8_width(c) <= 4,
        encode_utf8(seq![c]) == encode_scalar(c as u32),
{
    let s = seq![c];
    assert(s.drop_first() =~= Seq::<char>::empty());
    assert(encode_utf8(s.drop_first()) =~= Seq::<u8>::empty());
    assert(encode_utf8(s) =~= encode_scalar(c as u32));
}

/// The offset of a character and its width give the offset of the next one.
pub proof fn lemma_byte_offset_step(src: Seq<char>, i: int)
    requires
        0 <= i < src.len(),
    ensures
        byte_offset(src, i + 1) == byte_offset(src, i) + utf8_width(src[i]),
        byte_offset(src, 0) == 0,
{
    assert(src.take(i + 1) =~= src.take(i) + seq![src[i]]);
    lemma_encode_utf8_concat(src.take(i), seq![src[i]]);
    lemma_utf8_width_bounds(src[i]);
    assert(src.take(0) =~= Seq::<char>::empty());
}

/// Offsets grow with the index, and strictly so.
pub proof fn lemma_byte_offset_monotonic(src: Seq<char>, i: int, j: int)
    requires
        0 <= i <= j <= src.len(),
    ensures
        byte_offset(src, i) + (j - i) <= byte_offset(src, j),
    decreases j - i,
{
    if i < j {
        lemma_byte_offset_step(src, i);
        lemma_utf8_width_bounds(src[i]);
        lemma_byte_offset_monotonic(src, i + 1, j);
    }
}

/// No offset exceeds the length of the encoding, which is the offset of the end.
pub proof fn lemma_byte_offset_bound(src: Seq<char>, i: int)
    requires
        0 <= i <= src.len(),
    ensures
        byte_offset(src, i) <= encode_utf8(src).len(),
        byte_offset(src, src.len() as int) == encode_utf8(src).len(),
{
    assert(src.take(src.len() as int) =~= src);
    lemma_byte_offset_monotonic(src, i, src.len() as int);
}

/// Cutting the encoding of a text at the offsets of two characters gives the
/// encoding of the characters between them.
pub proof fn lemma_encoding_of_range(src: Seq<char>, i: int, j: int)
    requires
        0 <= i <= j <= src.len(),
    ensures
        byte_offset(src, i) <= byte_offset(src, j) <= encode_utf8(src).len(),
        encode_utf8(src).subrange(byte_offset(src, i) as int, byte_offset(src, j) as int)
            == encode_utf8(src.subrange(i, j)),
{
    lemma_byte_offset_monotonic(src, i, j);
    lemma_byte_offset_bound(src, j);
    let head = src.take(i);
    let mid = src.subrange(i, j);
    let tail = src.skip(j);
    assert(src.take(j) =~= head + mid);
    assert(src =~= src.take(j) + tail);
    lemma_encode_utf8_concat(head, mid);
    lemma_encode_utf8_concat(src.take(j), tail);
    assert(encode_utf8(src).subrange(byte_offset(src, i) as int, byte_offset(src, j) as int)
        =~= encode_utf8(mid));
}

/// `String::push` of the standard library appends the given character to the
/// end of the string.
pub assume_specification[ String::push ](s: &mut String, c: char)
    ensures
        final(s)@ == old(s)@.push(c),
;

/// Calls `char::is_whitespace` of the standard library, which reports the
/// Unicode property `White_Space` of a character.
#[verifier::external_body]
fn has_white_space_property(c: char) -> (b: bool)
    ensures
        b == unicode_white_space(c),
{
    c.is_whitespace()
}

/// Calls `UnicodeSegmentation::graphemes` of the crate `unicode-segmentation`
/// for extended grapheme clusters and counts what it yields. The iterator
/// yields nothing exactly when the text is empty.
#[verifier::external_body]
pub(crate) fn count_graphemes(s: &str) -> (n: usize)
    ensures
        n == grapheme_count(s@),
        s@.len() == 0 ==> n == 0,
{
    UnicodeSegmentation::graphemes(s, true).count()
}

/// Whether `c` can start a subroutine name.
pub fn char_is_lowercase(c: char) -> (b: bool)
    ensures
        b == is_lowercase(c),
{
    'a' <= c && c <= 'z'
}

/// Whether a subroutine name can hold `c`.
pub fn char_is_identifier(c: char) -> (b: bool)
    ensures
        b == is_identifier_char(c),
{
    ('a' <= c && c <= 'z') || ('A' <= c && c <= 'Z') || ('0' <= c && c <= '9') || c == '_'
}

/// Whether `c` is white space around a subroutine name.
pub fn char_is_space(c: char) -> (b: bool)
    ensures
        b == is_space(c),
{
    if c <= '\x7f' {
        c == ' ' || ('\t' <= c && c <= '\r')
    } else {
        has_white_space_property(c)
    }
}

/// Number of bytes that the character takes in UTF-8.
pub fn char_width(c: char) -> (w: usize)
    ensures
        w == utf8_width(c),
        1 <= w <= 4,
{
    let code: u32 = c as u32;
    if code < 0x80 {
        1
    } else if code < 0x800 {
        2
    } else if code < 0x10000 {
        3
    } else {
        4
    }
}

/// The characters of a text, in order.
pub fn chars_of(s: &str) -> (chars: Vec<char>)
    ensures
        chars@ == s@,
{
    let mut chars: Vec<char> = Vec::new();
    for c in it: s.chars()
        invariant
            chars@ == it.seq().take(it.index() as int),
            it.seq() == s@,
    {
        chars.push(c);
    }
    chars
}

/// The byte offset of every character of a text, and after the last of them
/// the length of the text in bytes.
pub fn byte_offsets(chars: &Vec<char>) -> (offsets: Vec<usize>)
    requires
        encode_utf8(chars@).len() <= usize::MAX,
    ensures
        offsets@.len() == chars@.len() + 1,
        forall|i: int| 0 <= i <= chars@.len() ==> #[trigger] offsets@[i] == byte_offset(chars@, i),
{
    let mut offsets: Vec<usize> = Vec::new();
    let mut pos: usize = 0;
    let mut i: usize = 0;
    proof {
        assert(chars@.take(0) =~= Seq::<char>::empty());
    }
    while i < chars.len()
        invariant
            0 <= i <= chars@.len(),
            encode_utf8(chars@).len() <= usize::MAX,
            pos == byte_offset(chars@, i as int),
            offsets@.len() == i,
            forall|k: int| 0 <= k < i ==> #[trigger] offsets@[k] == byte_offset(chars@, k),
        decreases chars@.len() - i,
    {
        offsets.push(pos);
        proof {
            lemma_byte_offset_step(chars@, i as int);
            lemma_byte_offset_bound(chars@, i as int + 1);
        }
        pos = pos + char_width(chars[i]);
        i = i + 1;
    }
    offsets.push(pos);
    offsets
}

} // verus!
