//! What the scanner produces, as mathematics.
//!
//! The source is a sequence of characters, a place in it an index into that
//! sequence. [`step`] says which token stands at a place and where the next
//! one is to be looked for; [`tokens`] strings the steps together.

use super::classes::{continues_identifier, is_blank, is_decimal_digit, starts_identifier};
use super::offsets::byte_offset;
use super::token::{DelimToken, Keyword, LexError, LiteralView, TokenView};
use vstd::prelude::*;

verus! {

/// The character at `index`, if the text reaches that far.
pub open spec fn peek(text: Seq<char>, index: int) -> Option<char> {
    if 0 <= index < text.len() {
        Some(text[index])
    } else {
        None
    }
}

/// The token that is written with the one character `a`.
pub open spec fn symbol1(a: char) -> Option<TokenView> {
    if a == '(' {
        Some(TokenView::OpenDelim(DelimToken::Paren))
    } else if a == ')' {
        Some(TokenView::CloseDelim(DelimToken::Paren))
    } else if a == '{' {
        Some(TokenView::OpenDelim(DelimToken::Brace))
    } else if a == '}' {
        Some(TokenView::CloseDelim(DelimToken::Brace))
    } else if a == '[' {
        Some(TokenView::OpenDelim(DelimToken::Bracket))
    } else if a == ']' {
        Some(TokenView::CloseDelim(DelimToken::Bracket))
    } else if a == ',' {
        Some(TokenView::Comma)
    } else if a == ';' {
        Some(TokenView::Semicolon)
    } else if a == '.' {
        Some(TokenView::Dot)
    } else if a == ':' {
        Some(TokenView::Colon)
    } else if a == '+' {
        Some(TokenView::Plus)
    } else if a == '-' {
        Some(TokenView::Minus)
    } else if a == '*' {
        Some(TokenView::Star)
    } else if a == '/' {
        Some(TokenView::Slash)
    } else if a == '<' {
        Some(TokenView::LessThan)
    } else if a == '>' {
        Some(TokenView::GreaterThan)
    } else if a == '|' {
        Some(TokenView::Pipe)
    } else if a == '&' {
        Some(TokenView::And)
    } else if a == '!' {
        Some(TokenView::Not)
    } else if a == '^' {
        Some(TokenView::Caret)
    } else if a == '%' {
        Some(TokenView::Percent)
    } else {
        None
    }
}

/// The token that is written with the two characters `a` and `b`.
pub open spec fn symbol2(a: char, b: char) -> Option<TokenView> {
    if a == ':' && b == '=' {
        Some(TokenView::ColonAssign)
    } else if a == '+' && b == '=' {
        Some(TokenView::PlusAssign)
    } else if a == '+' && b == '+' {
        Some(TokenView::Increment)
    } else if a == '-' && b == '=' {
        Some(TokenView::MinusAssign)
    } else if a == '-' && b == '-' {
        Some(TokenView::Decrement)
    } else if a == '*' && b == '=' {
        Some(TokenView::StarAssign)
    } else if a == '/' && b == '=' {
        Some(TokenView::SlashAssign)
    } else if a == '<' && b == '<' {
        Some(TokenView::Lshift)
    } else if a == '>' && b == '>' {
        Some(TokenView::Rshift)
    } else if a == '<' && b == '=' {
        Some(TokenView::LessThanOrEqual)
    } else if a == '<' && b == '-' {
        Some(TokenView::ChanReceive)
    } else if a == '>' && b == '=' {
        Some(TokenView::GreaterThanOrEqual)
    } else if a == '|' && b == '=' {
        Some(TokenView::PipeAssign)
    } else if a == '|' && b == '|' {
        Some(TokenView::PipePipe)
    } else if a == '&' && b == '=' {
        Some(TokenView::AndAssign)
    } else if a == '&' && b == '&' {
        Some(TokenView::AndAnd)
    } else if a == '&' && b == '^' {
        Some(TokenView::BitClear)
    } else if a == '!' && b == '=' {
        Some(TokenView::NotEqual)
    } else if a == '^' && b == '=' {
        Some(TokenView::CaretAssign)
    } else if a == '%' && b == '=' {
        Some(TokenView::PercentAssign)
    } else {
        None
    }
}

/// The token that is written with the three characters `a`, `b` and `c`.
pub open spec fn symbol3(a: char, b: char, c: char) -> Option<TokenView> {
    if a == '.' && b == '.' && c == '.' {
        Some(TokenView::Ellipsis)
    } else if a == '<' && b == '<' && c == '=' {
        Some(TokenView::LshiftAssign)
    } else if a == '>' && b == '>' && c == '=' {
        Some(TokenView::RshiftAssign)
    } else if a == '&' && b == '^' && c == '=' {
        Some(TokenView::BitClearAssign)
    } else {
        None
    }
}

/// The longest delimiter, punctuation mark or operator that the text holds
/// at `index`, together with its length; `None` where none starts there.
pub open spec fn longest_symbol(text: Seq<char>, index: int) -> Option<(TokenView, int)> {
    if 0 <= index && index + 3 <= text.len() && symbol3(
        text[index],
        text[index + 1],
        text[index + 2],
    ) is Some {
        Some((symbol3(text[index], text[index + 1], text[index + 2])->0, 3))
    } else if 0 <= index && index + 2 <= text.len() && symbol2(text[index], text[index + 1])
        is Some {
        Some((symbol2(text[index], text[index + 1])->0, 2))
    } else if 0 <= index && index + 1 <= text.len() && symbol1(text[index]) is Some {
        Some((symbol1(text[index])->0, 1))
    } else {
        None
    }
}

/// The reserved word that `word` spells, if it spells one.
pub open spec fn keyword(word: Seq<char>) -> Option<Keyword> {
    if word == "break"@ {
        Some(Keyword::Break)
    } else if word == "case"@ {
        Some(Keyword::Case)
    } else if word == "chan"@ {
        Some(Keyword::Chan)
    } else if word == "const"@ {
        Some(Keyword::Const)
    } else if word == "continue"@ {
        Some(Keyword::Continue)
    } else if word == "default"@ {
        Some(Keyword::Default)
    } else if word == "defer"@ {
        Some(Keyword::Defer)
    } else if word == "else"@ {
        Some(Keyword::Else)
    } else if word == "fallthrough"@ {
        Some(Keyword::Fallthrough)
    } else if word == "for"@ {
        Some(Keyword::For)
    } else if word == "func"@ {
        Some(Keyword::Func)
    } else if word == "go"@ {
        Some(Keyword::Go)
    } else if word == "goto"@ {
        Some(Keyword::Goto)
    } else if word == "if"@ {
        Some(Keyword::If)
    } else if word == "import"@ {
        Some(Keyword::Import)
    } else if word == "interface"@ {
        Some(Keyword::Interface)
    } else if word == "map"@ {
        Some(Keyword::MapType)
    } else if word == "package"@ {
        Some(Keyword::Package)
    } else if word == "range"@ {
        Some(Keyword::Range)
    } else if word == "return"@ {
        Some(Keyword::Return)
    } else if word == "select"@ {
        Some(Keyword::Select)
    } else if word == "struct"@ {
        Some(Keyword::Struct)
    } else if word == "switch"@ {
        Some(Keyword::Switch)
    } else if word == "type"@ {
        Some(Keyword::Type)
    } else if word == "var"@ {
        Some(Keyword::Var)
    } else {
        None
    }
}

/// The first place at or after `index` whose character satisfies `stop`, or
/// the end of the text where no character does.
pub open spec fn find(text: Seq<char>, index: int, stop: spec_fn(char) -> bool) -> int
    decreases text.len() - index,
{
    if 0 <= index < text.len() && !stop(text[index]) {
        find(text, index + 1, stop)
    } else {
        index
    }
}

/// The end of the line that `index` is on: the place of the next line feed,
/// or the end of the text.
pub open spec fn line_end(text: Seq<char>, index: int) -> int {
    find(text, index, |c: char| c == '\n')
}

/// The place of the next double quote at or after `index`, or the end of the
/// text.
pub open spec fn quote(text: Seq<char>, index: int) -> int {
    find(text, index, |c: char| c == '"')
}

/// The end of the run of decimal digits that starts at `index`.
pub open spec fn digits_end(text: Seq<char>, index: int) -> int {
    find(text, index, |c: char| !is_decimal_digit(c))
}

/// The end of the run of identifier characters that starts at `index`.
pub open spec fn identifier_end(text: Seq<char>, index: int) -> int {
    find(text, index, |c: char| !continues_identifier(c))
}

/// The place of the first `*/` at or after `index`, if there is one.
pub open spec fn comment_close(text: Seq<char>, index: int) -> Option<int>
    decreases text.len() - index,
{
    if 0 <= index && index + 1 < text.len() {
        if text[index] == '*' && text[index + 1] == '/' {
            Some(index)
        } else {
            comment_close(text, index + 1)
        }
    } else {
        None
    }
}

/// Whether a line feed stands at or after `from` and before `to`.
pub open spec fn holds_newline(text: Seq<char>, from: int, to: int) -> bool {
    line_end(text, from) < to
}

/// What skipping whitespace and comments comes to.
pub enum Trivia {
    /// Skipping stops at `end`, the first place that neither holds whitespace
    /// nor starts a comment; `newline` says whether a line feed was skipped.
    Skipped { end: int, newline: bool },
    /// The block comment that opens at `start` is never closed.
    Unterminated { start: int },
}

/// The outcome `rest` of skipping, after a part before it in which a line
/// feed was skipped or not, as `newline` says.
pub open spec fn seen(rest: Trivia, newline: bool) -> Trivia {
    match rest {
        Trivia::Skipped { end, newline: later } => Trivia::Skipped {
            end,
            newline: newline || later,
        },
        Trivia::Unterminated { start } => Trivia::Unterminated { start },
    }
}

/// Skips the whitespace and the comments that stand at `index`.
///
/// A line comment runs from `//` up to the line feed, which is then skipped
/// as whitespace. A block comment runs from `/*` to the first `*/` after it;
/// comments do not nest, and a line feed inside a block comment counts as
/// skipped like any other.
pub open spec fn trivia(text: Seq<char>, index: int) -> Trivia
    decreases text.len() - index,
{
    if !(0 <= index < text.len()) {
        Trivia::Skipped { end: index, newline: false }
    } else if text[index] == '/' && peek(text, index + 1) == Some('*') {
        match comment_close(text, index + 2) {
            Some(star) => {
                proof {
                    lemma_comment_close(text, index + 2);
                }
                seen(trivia(text, star + 2), holds_newline(text, index + 2, star))
            },
            None => Trivia::Unterminated { start: index },
        }
    } else if text[index] == '/' && peek(text, index + 1) == Some('/') {
        proof {
            lemma_find(text, index + 2, |c: char| c == '\n');
        }
        trivia(text, line_end(text, index + 2))
    } else if is_blank(text[index]) {
        seen(trivia(text, index + 1), text[index] == '\n')
    } else {
        Trivia::Skipped { end: index, newline: false }
    }
}

/// What one step of the scanner comes to.
pub enum Step {
    /// The text holds no further token.
    End,
    /// The next token, and the place where the step after it starts.
    Emit { token: TokenView, next: int },
    /// The text cannot be scanned any further.
    Fail { error: LexError },
}

/// The token that starts at `index`, a place that holds a character which is
/// neither whitespace nor the start of a comment.
///
/// Of the delimiters, punctuation marks and operators the longest that fits
/// is taken; a run of decimal digits is an integer literal; a run of
/// identifier characters that starts with an alphabetic one is a reserved
/// word or an identifier; a double quote opens a string literal, which runs
/// to the next double quote whatever stands before that.
pub open spec fn scan(text: Seq<char>, index: int) -> Step {
    let first = text[index];
    match longest_symbol(text, index) {
        Some((token, length)) => Step::Emit { token, next: index + length },
        None => if is_decimal_digit(first) {
            let end = digits_end(text, index);
            Step::Emit {
                token: TokenView::Literal(LiteralView::Integer(text.subrange(index, end))),
                next: end,
            }
        } else if starts_identifier(first) {
            let end = identifier_end(text, index);
            let word = text.subrange(index, end);
            Step::Emit {
                token: match keyword(word) {
                    Some(reserved) => TokenView::Keyword(reserved),
                    None => TokenView::Ident(word),
                },
                next: end,
            }
        } else if first == '"' {
            let close = quote(text, index + 1);
            if close < text.len() {
                Step::Emit {
                    token: TokenView::Literal(LiteralView::Str(text.subrange(index + 1, close))),
                    next: close + 1,
                }
            } else {
                Step::Fail {
                    error: LexError::UnterminatedString {
                        offset: byte_offset(text, index) as usize,
                    },
                }
            }
        } else {
            Step::Fail {
                error: LexError::UnexpectedChar {
                    ch: first,
                    offset: byte_offset(text, index) as usize,
                },
            }
        },
    }
}

/// One step of the scanner from `index`: skip whitespace and comments; if a
/// line feed was skipped, that is a `Whitespace` token, however many line
/// feeds there were; otherwise the token that starts where skipping stopped,
/// or the end of the text.
pub open spec fn step(text: Seq<char>, index: int) -> Step {
    match trivia(text, index) {
        Trivia::Unterminated { start } => Step::Fail {
            error: LexError::UnterminatedComment { offset: byte_offset(text, start) as usize },
        },
        Trivia::Skipped { end, newline } => if newline {
            Step::Emit { token: TokenView::Whitespace, next: end }
        } else if end >= text.len() {
            Step::End
        } else {
            scan(text, end)
        },
    }
}

/// All the tokens of the text from `index` on, or the first error met.
pub open spec fn tokens(text: Seq<char>, index: int) -> Result<Seq<TokenView>, LexError>
    recommends
        0 <= index <= text.len(),
    decreases text.len() - index,
    when 0 <= index <= text.len()
{
    match step(text, index) {
        Step::End => Ok(Seq::empty()),
        Step::Fail { error } => Err(error),
        Step::Emit { token, next } => {
            proof {
                lemma_step_advances(text, index);
            }
            match tokens(text, next) {
                Ok(rest) => Ok(seq![token] + rest),
                Err(error) => Err(error),
            }
        },
    }
}

/// Where [`find`] stops: not before `index`, not beyond the end of the text,
/// at a character that satisfies `stop` unless it is the end, and past none
/// that does.
pub proof fn lemma_find(text: Seq<char>, index: int, stop: spec_fn(char) -> bool)
    requires
        0 <= index <= text.len(),
    ensures
        index <= find(text, index, stop) <= text.len(),
        find(text, index, stop) < text.len() ==> stop(text[find(text, index, stop)]),
        forall|k: int| index <= k < find(text, index, stop) ==> !stop(#[trigger] text[k]),
    decreases text.len() - index,
{
    if index < text.len() && !stop(text[index]) {
        lemma_find(text, index + 1, stop);
    }
}

/// [`find`] stops at `end` where no character before `end` satisfies `stop`
/// and the one at `end` does, or the text ends there.
pub proof fn lemma_find_exact(text: Seq<char>, index: int, end: int, stop: spec_fn(char) -> bool)
    requires
        0 <= index <= end <= text.len(),
        forall|k: int| index <= k < end ==> !stop(#[trigger] text[k]),
        end < text.len() ==> stop(text[end]),
    ensures
        find(text, index, stop) == end,
    decreases end - index,
{
    if index < end {
        lemma_find_exact(text, index + 1, end, stop);
    }
}

/// Going one character further, a line feed is held if one was held before
/// or the character passed is one.
pub proof fn lemma_holds_newline_step(text: Seq<char>, from: int, to: int)
    requires
        0 <= from <= to < text.len(),
    ensures
        holds_newline(text, from, to + 1) == (holds_newline(text, from, to) || text[to] == '\n'),
        !holds_newline(text, from, from),
{
    lemma_find(text, from, |c: char| c == '\n');
}

/// Where [`comment_close`] finds the end of a comment: at the first `*/` that
/// is not before `index`.
pub proof fn lemma_comment_close(text: Seq<char>, index: int)
    requires
        0 <= index,
    ensures
        match comment_close(text, index) {
            Some(star) => {
                &&& index <= star
                &&& star + 1 < text.len()
                &&& text[star] == '*'
                &&& text[star + 1] == '/'
                &&& forall|k: int|
                    index <= k < star ==> !(#[trigger] text[k] == '*' && text[k + 1] == '/')
            },
            None => forall|k: int|
                index <= k && k + 1 < text.len() ==> !(#[trigger] text[k] == '*' && text[k + 1]
                    == '/'),
        },
    decreases text.len() - index,
{
    if index + 1 < text.len() && !(text[index] == '*' && text[index + 1] == '/') {
        lemma_comment_close(text, index + 1);
    }
}

/// Skipping never goes backwards nor beyond the end of the text, and where
/// it reports a line feed it has moved.
pub proof fn lemma_trivia_bounds(text: Seq<char>, index: int)
    requires
        0 <= index <= text.len(),
    ensures
        match trivia(text, index) {
            Trivia::Skipped { end, newline } => index <= end <= text.len() && (newline ==> index
                < end),
            Trivia::Unterminated { start } => index <= start < text.len(),
        },
    decreases text.len() - index,
{
    if index < text.len() {
        if text[index] == '/' && peek(text, index + 1) == Some('*') {
            lemma_comment_close(text, index + 2);
            match comment_close(text, index + 2) {
                Some(star) => lemma_trivia_bounds(text, star + 2),
                None => {},
            }
        } else if text[index] == '/' && peek(text, index + 1) == Some('/') {
            lemma_find(text, index + 2, |c: char| c == '\n');
            lemma_trivia_bounds(text, line_end(text, index + 2));
        } else if is_blank(text[index]) {
            lemma_trivia_bounds(text, index + 1);
        }
    }
}

/// Every step that yields a token moves forward, and none moves beyond the
/// end of the text.
pub proof fn lemma_step_advances(text: Seq<char>, index: int)
    requires
        0 <= index <= text.len(),
    ensures
        step(text, index) matches Step::Emit { next, .. } ==> index < next <= text.len(),
{
    lemma_trivia_bounds(text, index);
    if let Trivia::Skipped { end, newline } = trivia(text, index) {
        if !newline && end < text.len() {
            lemma_find(text, end, |c: char| !is_decimal_digit(c));
            lemma_find(text, end, |c: char| !continues_identifier(c));
            lemma_find(text, end + 1, |c: char| c == '"');
        }
    }
}

} // verus!
