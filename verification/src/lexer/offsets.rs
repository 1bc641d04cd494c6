//! Byte offsets in UTF-8 text.
//!
//! The scanner reads a `&str` by byte offset and speaks of it as a sequence of
//! characters. This module relates the two: where each character starts, and
//! what the bytes between two such places decode to.

use vstd::prelude::*;
use vstd::string::*;
use vstd::utf8::*;

verus! {

/// The number of bytes that `c` takes in UTF-8.
pub open spec fn utf8_width(c: char) -> int {
    if c as u32 <= 0x7f {
        1
    } else if c as u32 <= 0x7ff {
        2
    } else if c as u32 <= 0xffff {
        3
    } else {
        4
    }
}

/// The byte offset at which character `index` of `text` starts: the number of
/// bytes that the characters before it take in UTF-8. For `index` equal to
/// the length of `text`, the length of its encoding.
pub open spec fn byte_offset(text: Seq<char>, index: int) -> int {
    encode_utf8(text.take(index)).len() as int
}

/// The width of a character is the length of its encoding.
pub proof fn lemma_width_is_encoded_length(c: char)
    ensures
        utf8_width(c) == encode_scalar(c as u32).len(),
        1 <= utf8_width(c) <= 4,
{
    char_is_scalar(c);
}

/// Encoding distributes over concatenation.
pub proof fn lemma_encode_concat(a: Seq<char>, b: Seq<char>)
    ensures
        encode_utf8(a + b) == encode_utf8(a) + encode_utf8(b),
    decreases a.len(),
{
    if a.len() == 0 {
        assert(a + b =~= b);
        assert(encode_utf8(a) + encode_utf8(b) =~= encode_utf8(b));
    } else {
        assert((a + b).drop_first() =~= a.drop_first() + b);
        lemma_encode_concat(a.drop_first(), b);
        assert(encode_utf8(a + b) =~= encode_utf8(a) + encode_utf8(b));
    }
}

/// The encoding of a single character.
pub proof fn lemma_encode_single(c: char)
    ensures
        encode_utf8(seq![c]) == encode_scalar(c as u32),
{
    reveal_with_fuel(encode_utf8, 2);
    assert(seq![c].drop_first() =~= Seq::<char>::empty());
    assert(encode_utf8(seq![c]) =~= encode_scalar(c as u32));
}

/// Offsets start at zero and end at the length of the encoding.
pub proof fn lemma_offset_ends(text: Seq<char>)
    ensures
        byte_offset(text, 0) == 0,
        byte_offset(text, text.len() as int) == encode_utf8(text).len(),
{
    assert(text.take(text.len() as int) =~= text);
}

/// Each character moves the offset forward by its width.
pub proof fn lemma_offset_step(text: Seq<char>, index: int)
    requires
        0 <= index < text.len(),
    ensures
        byte_offset(text, index + 1) == byte_offset(text, index) + utf8_width(text[index]),
{
    assert(text.take(index + 1) =~= text.take(index) + seq![text[index]]);
    lemma_encode_concat(text.take(index), seq![text[index]]);
    lemma_encode_single(text[index]);
    lemma_width_is_encoded_length(text[index]);
}

/// Offsets grow with the index, and strictly so.
pub proof fn lemma_offset_monotone(text: Seq<char>, i: int, j: int)
    requires
        0 <= i <= j <= text.len(),
    ensures
        byte_offset(text, i) + (j - i) <= byte_offset(text, j),
    decreases j - i,
{
    if i < j {
        lemma_offset_monotone(text, i, j - 1);
        lemma_offset_step(text, j - 1);
    }
}

/// The bytes between two character starts are the encoding of the characters
/// between them.
pub proof fn lemma_encoded_subrange(text: Seq<char>, i: int, j: int)
    requires
        0 <= i <= j <= text.len(),
    ensures
        byte_offset(text, i) <= byte_offset(text, j) <= encode_utf8(text).len(),
        encode_utf8(text).subrange(byte_offset(text, i), byte_offset(text, j)) == encode_utf8(
            text.subrange(i, j),
        ),
{
    let head = text.take(i);
    let mid = text.subrange(i, j);
    let tail = text.skip(j);
    assert(text =~= head + mid + tail);
    assert(text.take(j) =~= head + mid);
    lemma_encode_concat(head, mid);
    lemma_encode_concat(head + mid, tail);
    let bytes = encode_utf8(head) + encode_utf8(mid) + encode_utf8(tail);
    let from = encode_utf8(head).len() as int;
    let to = from + encode_utf8(mid).len();
    assert(bytes.subrange(from, to) =~= encode_utf8(mid));
}

/// Every character start is a character boundary of the encoding.
pub proof fn lemma_offset_is_boundary(text: Seq<char>, index: int)
    requires
        0 <= index <= text.len(),
    ensures
        is_char_boundary(encode_utf8(text), byte_offset(text, index)),
    decreases index,
{
    let bytes = encode_utf8(text);
    encode_utf8_valid_utf8(text);
    if index == 0 {
        lemma_offset_ends(text);
    } else {
        let rest = text.drop_first();
        encode_utf8_first_scalar(text);
        assert(pop_first_scalar(bytes) =~= encode_utf8(rest));
        lemma_offset_is_boundary(rest, index - 1);
        assert(text.take(index) =~= seq![text[0]] + rest.take(index - 1));
        lemma_encode_concat(seq![text[0]], rest.take(index - 1));
        lemma_encode_single(text[0]);
        lemma_encoded_subrange(text, 0, index);
    }
}

/// Two texts with the same encoding are the same text.
pub proof fn lemma_encode_injective(a: Seq<char>, b: Seq<char>)
    requires
        encode_utf8(a) == encode_utf8(b),
    ensures
        a == b,
{
    encode_utf8_decode_utf8(a);
    encode_utf8_decode_utf8(b);
}

/// The number of bytes that `c` takes in UTF-8.
pub(crate) fn char_width(c: char) -> (width: usize)
    ensures
        width == utf8_width(c),
{
    let code: u32 = c as u32;
    if code <= 0x7f {
        1
    } else if code <= 0x7ff {
        2
    } else if code <= 0xffff {
        3
    } else {
        4
    }
}

/// The character of `s` whose encoding starts at byte offset `byte`.
///
/// `byte` must be the place where a character starts: inside the text, and
/// not in the middle of an encoding.
pub fn char_at(s: &str, byte: usize) -> (c: char)
    requires
        byte < s.spec_bytes().len(),
        is_char_boundary(s.spec_bytes(), byte as int),
    ensures
        c as u32 == decode_first_scalar(s.spec_bytes().skip(byte as int)),
        forall|k: int| 0 <= k < s@.len() && #[trigger] byte_offset(s@, k) == byte ==> c == s@[k],
{
    broadcast use {axiom_spec_iter, next_postcondition};

    let (_, tail) = s.split_at(byte);
    let mut rest = tail.chars();
    let first = rest.next();
    proof {
        let bytes = s.spec_bytes();
        assert(tail.spec_bytes() == bytes.skip(byte as int));
        assert(tail@.len() > 0);
        encode_utf8_first_scalar(tail@);
        assert(first == Some(tail@[0]));
        assert forall|k: int|
            0 <= k < s@.len() && #[trigger] byte_offset(s@, k) == byte implies tail@[0] == s@[k] by {
            lemma_offset_ends(s@);
            lemma_encoded_subrange(s@, k, s@.len() as int);
            lemma_encode_injective(tail@, s@.subrange(k, s@.len() as int));
        }
    }
    first.unwrap()
}

/// The part of `s` between the byte offsets `from` and `to`, both of which
/// must be places where a character starts (or the end of the text).
pub(crate) fn slice_between<'a>(s: &'a str, from: usize, to: usize) -> (part: &'a str)
    requires
        from <= to <= s.spec_bytes().len(),
        is_char_boundary(s.spec_bytes(), from as int),
        is_char_boundary(s.spec_bytes(), to as int),
    ensures
        part.spec_bytes() == s.spec_bytes().subrange(from as int, to as int),
        forall|i: int, j: int|
            0 <= i <= j <= s@.len() && #[trigger] byte_offset(s@, i) == from
                && #[trigger] byte_offset(s@, j) == to ==> part@ == s@.subrange(i, j),
{
    let (head, _) = s.split_at(to);
    proof {
        let bytes = s.spec_bytes();
        encode_utf8_valid_utf8(s@);
        valid_utf8_split(bytes, to as int);
        if from < to {
            is_char_boundary_iff_not_is_continuation_byte(bytes, from as int);
            is_char_boundary_iff_not_is_continuation_byte(head.spec_bytes(), from as int);
        } else {
            is_char_boundary_start_end_of_seq(head.spec_bytes());
        }
    }
    let (_, part) = head.split_at(from);
    proof {
        assert(part.spec_bytes() =~= s.spec_bytes().subrange(from as int, to as int));
        assert forall|i: int, j: int|
            0 <= i <= j <= s@.len() && #[trigger] byte_offset(s@, i) == from
                && #[trigger] byte_offset(s@, j) == to implies part@ == s@.subrange(i, j) by {
            lemma_encoded_subrange(s@, i, j);
            lemma_encode_injective(part@, s@.subrange(i, j));
        }
    }
    part
}

/// Whether two texts hold the same characters.
pub(crate) fn str_eq(a: &str, b: &str) -> (same: bool)
    ensures
        same == (a@ == b@),
{
    let x = a.as_bytes();
    let y = b.as_bytes();
    if x.len() != y.len() {
        return false;
    }
    let mut i: usize = 0;
    while i < x.len()
        invariant
            i <= x.len(),
            x.len() == y.len(),
            x@ == encode_utf8(a@),
            y@ == encode_utf8(b@),
            forall|k: int| 0 <= k < i ==> x@[k] == y@[k],
        decreases x.len() - i,
    {
        if x[i] != y[i] {
            return false;
        }
        i += 1;
    }
    proof {
        assert(x@ =~= y@);
        lemma_encode_injective(a@, b@);
    }
    true
}

} // verus!
