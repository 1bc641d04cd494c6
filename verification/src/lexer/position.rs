//! Lines and columns, derived from a byte offset when a diagnostic wants
//! them.

use super::offsets::{
    byte_offset, char_at, char_width, lemma_offset_ends, lemma_offset_is_boundary,
    lemma_offset_monotone, lemma_offset_step,
};
use vstd::prelude::*;
use vstd::string::*;

verus! {

/// The first character, not before character `from`, that starts at byte
/// offset `offset` or after it; the length of the text if there is none.
/// With `from` zero this is the number of characters that start before the
/// offset.
pub open spec fn characters_before(text: Seq<char>, offset: int, from: int) -> int
    decreases text.len() - from,
{
    if 0 <= from < text.len() && byte_offset(text, from) < offset {
        characters_before(text, offset, from + 1)
    } else {
        from
    }
}

/// The number of line feeds among the first `index` characters: the line
/// that character `index` is on, counted from zero.
pub open spec fn line_of(text: Seq<char>, index: int) -> int
    decreases index,
{
    if index <= 0 {
        0
    } else if text[index - 1] == '\n' {
        line_of(text, index - 1) + 1
    } else {
        line_of(text, index - 1)
    }
}

/// The number of characters between the last line feed before character
/// `index` and that character: its column, counted from zero.
pub open spec fn column_of(text: Seq<char>, index: int) -> int
    decreases index,
{
    if index <= 0 {
        0
    } else if text[index - 1] == '\n' {
        0
    } else {
        column_of(text, index - 1) + 1
    }
}

/// Lines and columns stay within the number of characters passed.
pub proof fn lemma_line_column_bound(text: Seq<char>, index: int)
    requires
        0 <= index,
    ensures
        0 <= line_of(text, index),
        0 <= column_of(text, index),
        line_of(text, index) + column_of(text, index) <= index,
    decreases index,
{
    if index > 0 {
        lemma_line_column_bound(text, index - 1);
    }
}

/// The characters before the offset at which character `index` starts are
/// the characters before `index`.
pub proof fn lemma_characters_before_start(text: Seq<char>, index: int, from: int)
    requires
        0 <= from <= index <= text.len(),
    ensures
        characters_before(text, byte_offset(text, index), from) == index,
    decreases index - from,
{
    if from < index {
        lemma_offset_monotone(text, from, index);
        lemma_characters_before_start(text, index, from + 1);
    }
}

/// The line and the column of the character that starts at byte offset
/// `offset` of `s`, both counted from zero, and the column in characters.
/// An offset inside a character counts as the start of the next one, an
/// offset beyond the text as its end.
pub fn line_column(s: &str, offset: usize) -> (place: (usize, usize))
    ensures
        place.0 == line_of(s@, characters_before(s@, offset as int, 0)),
        place.1 == column_of(s@, characters_before(s@, offset as int, 0)),
        forall|index: int|
            0 <= index <= s@.len() && #[trigger] byte_offset(s@, index) == offset ==> place.0
                == line_of(s@, index) && place.1 == column_of(s@, index),
{
    let bytes = s.as_bytes();
    let total = bytes.len();
    let mut pos: usize = 0;
    let mut line: usize = 0;
    let mut column: usize = 0;
    let ghost mut index: int = 0;
    proof {
        lemma_offset_ends(s@);
    }
    while pos < offset && pos < total
        invariant
            total == s.spec_bytes().len(),
            0 <= index <= s@.len(),
            pos == byte_offset(s@, index),
            line == line_of(s@, index),
            column == column_of(s@, index),
            characters_before(s@, offset as int, 0) == characters_before(s@, offset as int, index),
        decreases s@.len() - index,
    {
        proof {
            lemma_offset_ends(s@);
            lemma_offset_monotone(s@, index, s@.len() as int);
            lemma_offset_is_boundary(s@, index);
            lemma_offset_step(s@, index);
            lemma_offset_monotone(s@, index + 1, s@.len() as int);
            lemma_offset_monotone(s@, 0, index + 1);
            lemma_line_column_bound(s@, index + 1);
        }
        let c = char_at(s, pos);
        pos += char_width(c);
        if c == '\n' {
            line += 1;
            column = 0;
        } else {
            column += 1;
        }
        proof {
            index = index + 1;
        }
    }
    proof {
        lemma_offset_ends(s@);
        lemma_offset_monotone(s@, index, s@.len() as int);
        assert forall|at: int|
            0 <= at <= s@.len() && #[trigger] byte_offset(s@, at) == offset implies index == at by {
            lemma_characters_before_start(s@, at, 0);
        }
    }
    (line, column)
}

} // verus!
