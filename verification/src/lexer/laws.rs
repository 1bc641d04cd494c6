//! What holds of every source text: the laws of the scanner, proved over the
//! model in [`super::grammar`]. [`super::tokenize`] and [`super::Lexer::next`]
//! return what that model says, so each law holds of them.

use super::classes::{continues_identifier, is_blank, is_decimal_digit, starts_identifier};
use super::grammar::{
    comment_close, find, identifier_end, keyword, lemma_comment_close, lemma_find,
    lemma_find_exact, lemma_trivia_bounds, longest_symbol, peek, quote, scan, step, symbol1,
    symbol2, symbol3, tokens, trivia, Step, Trivia,
};
use super::offsets::{
    byte_offset, lemma_encoded_subrange, lemma_offset_ends, lemma_offset_monotone,
};
use super::token::{DelimToken, Keyword, LexError, LiteralView, TokenView};
use vstd::prelude::*;
use vstd::utf8::encode_utf8;

verus! {

/// The token of a delimiter character: round, curly and square brackets,
/// each opening or closing.
pub open spec fn delimiter(c: char) -> Option<TokenView> {
    if c == '(' {
        Some(TokenView::OpenDelim(DelimToken::Paren))
    } else if c == ')' {
        Some(TokenView::CloseDelim(DelimToken::Paren))
    } else if c == '{' {
        Some(TokenView::OpenDelim(DelimToken::Brace))
    } else if c == '}' {
        Some(TokenView::CloseDelim(DelimToken::Brace))
    } else if c == '[' {
        Some(TokenView::OpenDelim(DelimToken::Bracket))
    } else if c == ']' {
        Some(TokenView::CloseDelim(DelimToken::Bracket))
    } else {
        None
    }
}

/// The delimiter, punctuation mark or operator that is written with exactly
/// the characters `written`, if there is one.
pub open spec fn symbol(written: Seq<char>) -> Option<TokenView> {
    if written.len() == 1 {
        symbol1(written[0])
    } else if written.len() == 2 {
        symbol2(written[0], written[1])
    } else if written.len() == 3 {
        symbol3(written[0], written[1], written[2])
    } else {
        None
    }
}

/// The text with which a reserved word is written.
pub open spec fn keyword_text(reserved: Keyword) -> Seq<char> {
    match reserved {
        Keyword::Break => "break"@,
        Keyword::Case => "case"@,
        Keyword::Chan => "chan"@,
        Keyword::Const => "const"@,
        Keyword::Continue => "continue"@,
        Keyword::Default => "default"@,
        Keyword::Defer => "defer"@,
        Keyword::Else => "else"@,
        Keyword::Fallthrough => "fallthrough"@,
        Keyword::For => "for"@,
        Keyword::Func => "func"@,
        Keyword::Go => "go"@,
        Keyword::Goto => "goto"@,
        Keyword::If => "if"@,
        Keyword::Import => "import"@,
        Keyword::Interface => "interface"@,
        Keyword::MapType => "map"@,
        Keyword::Package => "package"@,
        Keyword::Range => "range"@,
        Keyword::Return => "return"@,
        Keyword::Select => "select"@,
        Keyword::Struct => "struct"@,
        Keyword::Switch => "switch"@,
        Keyword::Type => "type"@,
        Keyword::Var => "var"@,
    }
}

/// The text with which a token is written. `Whitespace` has none.
pub open spec fn text_of(token: TokenView) -> Seq<char> {
    match token {
        TokenView::OpenDelim(DelimToken::Paren) => seq!['('],
        TokenView::CloseDelim(DelimToken::Paren) => seq![')'],
        TokenView::OpenDelim(DelimToken::Brace) => seq!['{'],
        TokenView::CloseDelim(DelimToken::Brace) => seq!['}'],
        TokenView::OpenDelim(DelimToken::Bracket) => seq!['['],
        TokenView::CloseDelim(DelimToken::Bracket) => seq![']'],
        TokenView::Comma => seq![','],
        TokenView::Semicolon => seq![';'],
        TokenView::Dot => seq!['.'],
        TokenView::Ellipsis => seq!['.', '.', '.'],
        TokenView::Colon => seq![':'],
        TokenView::ColonAssign => seq![':', '='],
        TokenView::Plus => seq!['+'],
        TokenView::PlusAssign => seq!['+', '='],
        TokenView::Increment => seq!['+', '+'],
        TokenView::Minus => seq!['-'],
        TokenView::MinusAssign => seq!['-', '='],
        TokenView::Decrement => seq!['-', '-'],
        TokenView::Star => seq!['*'],
        TokenView::StarAssign => seq!['*', '='],
        TokenView::Slash => seq!['/'],
        TokenView::SlashAssign => seq!['/', '='],
        TokenView::Lshift => seq!['<', '<'],
        TokenView::LshiftAssign => seq!['<', '<', '='],
        TokenView::Rshift => seq!['>', '>'],
        TokenView::RshiftAssign => seq!['>', '>', '='],
        TokenView::LessThan => seq!['<'],
        TokenView::LessThanOrEqual => seq!['<', '='],
        TokenView::ChanReceive => seq!['<', '-'],
        TokenView::GreaterThan => seq!['>'],
        TokenView::GreaterThanOrEqual => seq!['>', '='],
        TokenView::Pipe => seq!['|'],
        TokenView::PipeAssign => seq!['|', '='],
        TokenView::PipePipe => seq!['|', '|'],
        TokenView::And => seq!['&'],
        TokenView::AndAssign => seq!['&', '='],
        TokenView::AndAnd => seq!['&', '&'],
        TokenView::BitClear => seq!['&', '^'],
        TokenView::BitClearAssign => seq!['&', '^', '='],
        TokenView::Not => seq!['!'],
        TokenView::NotEqual => seq!['!', '='],
        TokenView::Caret => seq!['^'],
        TokenView::CaretAssign => seq!['^', '='],
        TokenView::Percent => seq!['%'],
        TokenView::PercentAssign => seq!['%', '='],
        TokenView::Keyword(reserved) => keyword_text(reserved),
        TokenView::Ident(name) => name,
        TokenView::Literal(LiteralView::Integer(digits)) => digits,
        TokenView::Literal(LiteralView::Str(body)) => seq!['"'] + body + seq!['"'],
        TokenView::Whitespace => Seq::empty(),
    }
}

/// Whether a token is one that has a text of its own from which the scanner
/// reads it back: an identifier is spelled like one and is no reserved word,
/// an integer literal is a run of at least one decimal digit, the body of a
/// string literal holds no double quote. `Whitespace` has no text.
pub open spec fn is_written(token: TokenView) -> bool {
    match token {
        TokenView::Ident(name) => {
            &&& name.len() > 0
            &&& starts_identifier(name[0])
            &&& forall|k: int| 0 <= k < name.len() ==> continues_identifier(#[trigger] name[k])
            &&& keyword(name) is None
        },
        TokenView::Literal(LiteralView::Integer(digits)) => {
            &&& digits.len() > 0
            &&& forall|k: int| 0 <= k < digits.len() ==> is_decimal_digit(#[trigger] digits[k])
        },
        TokenView::Literal(LiteralView::Str(body)) => forall|k: int|
            0 <= k < body.len() ==> #[trigger] body[k] != '"',
        TokenView::Whitespace => false,
        _ => true,
    }
}

/// Every delimiter character, standing alone, is read as exactly one token:
/// the one of its shape and direction.
pub proof fn law_delimiters(c: char)
    requires
        delimiter(c) is Some,
    ensures
        tokens(seq![c], 0) == Ok::<Seq<TokenView>, LexError>(seq![delimiter(c)->0]),
{
    let text = seq![c];
    let token = delimiter(c)->0;
    assert(trivia(text, 1) == Trivia::Skipped { end: 1, newline: false });
    assert(step(text, 1) == Step::End);
    assert(tokens(text, 1) == Ok::<Seq<TokenView>, LexError>(Seq::empty()));
    assert(trivia(text, 0) == Trivia::Skipped { end: 0, newline: false });
    assert(step(text, 0) == Step::Emit { token, next: 1 });
    assert(seq![token] + Seq::<TokenView>::empty() =~= seq![token]);
}

/// Longest match: where a token was read, no delimiter, punctuation mark or
/// operator is written that reaches further than the token does.
pub proof fn law_longest_match(text: Seq<char>, index: int, longer: int)
    requires
        0 <= index <= text.len(),
    ensures
        step(text, index) matches Step::Emit { token, next } ==> {
            &&& trivia(text, index) matches Trivia::Skipped { end, .. }
            &&& token != TokenView::Whitespace && next < longer <= text.len() ==> symbol(
                text.subrange(end, longer),
            ) is None
        },
{
    lemma_trivia_bounds(text, index);
    if let Trivia::Skipped { end, newline } = trivia(text, index) {
        if !newline && end < text.len() {
            lemma_find(text, end, |c: char| !is_decimal_digit(c));
            lemma_find(text, end, |c: char| !continues_identifier(c));
            lemma_find(text, end + 1, |c: char| c == '"');
        }
    }
}

/// Maximal munch: an identifier, a reserved word or an integer literal is
/// never cut short. What follows it in the source could not have gone on
/// with it.
pub proof fn law_maximal_munch(text: Seq<char>, index: int)
    requires
        0 <= index <= text.len(),
    ensures
        match step(text, index) {
            Step::Emit { token: TokenView::Ident(_), next } => next < text.len()
                ==> !continues_identifier(text[next]),
            Step::Emit { token: TokenView::Keyword(_), next } => next < text.len()
                ==> !continues_identifier(text[next]),
            Step::Emit { token: TokenView::Literal(LiteralView::Integer(_)), next } => next
                < text.len() ==> !is_decimal_digit(text[next]),
            _ => true,
        },
{
    lemma_trivia_bounds(text, index);
    if let Trivia::Skipped { end, newline } = trivia(text, index) {
        if !newline && end < text.len() {
            lemma_find(text, end, |c: char| !is_decimal_digit(c));
            lemma_find(text, end, |c: char| !continues_identifier(c));
        }
    }
}

/// Blank characters without a line feed among them leave no trace: the step
/// from before them is the step from after them.
pub proof fn law_blanks_leave_no_token(text: Seq<char>, from: int, to: int)
    requires
        0 <= from <= to <= text.len(),
        forall|k: int| from <= k < to ==> is_blank(#[trigger] text[k]) && text[k] != '\n',
    ensures
        step(text, from) == step(text, to),
    decreases to - from,
{
    if from < to {
        law_blanks_leave_no_token(text, from + 1, to);
        assert(is_blank(text[from]) && text[from] != '\n');
        assert(trivia(text, from) == trivia(text, from + 1));
    }
}

/// After a `Whitespace` token the next token is never `Whitespace`: a run
/// of whitespace and comments gives one such token at most.
pub proof fn law_whitespace_is_single(text: Seq<char>, index: int)
    requires
        0 <= index <= text.len(),
    ensures
        step(text, index) matches Step::Emit { token: TokenView::Whitespace, next } ==> !(step(
            text,
            next,
        ) matches Step::Emit { token: TokenView::Whitespace, .. }),
{
    lemma_trivia_stops(text, index);
    lemma_trivia_bounds(text, index);
    if let Trivia::Skipped { end, newline } = trivia(text, index) {
        if !newline && end < text.len() {
            lemma_scan_no_whitespace(text, end);
        }
    }
}

/// However many blank lines stand between two identifiers, exactly one
/// `Whitespace` token stands between them.
pub proof fn law_blank_lines_collapse(first: Seq<char>, gap: Seq<char>, second: Seq<char>)
    requires
        is_written(TokenView::Ident(first)),
        is_written(TokenView::Ident(second)),
        forall|k: int| 0 <= k < gap.len() ==> is_blank(#[trigger] gap[k]),
        gap.contains('\n'),
    ensures
        tokens(first + gap + second, 0) == Ok::<Seq<TokenView>, LexError>(
            seq![TokenView::Ident(first), TokenView::Whitespace, TokenView::Ident(second)],
        ),
{
    law_blank_gap_separates(TokenView::Ident(first), gap, TokenView::Ident(second));
}

/// A string literal that is never closed is an error, whatever its body
/// holds.
pub proof fn law_unterminated_string(body: Seq<char>)
    requires
        forall|k: int| 0 <= k < body.len() ==> #[trigger] body[k] != '"',
    ensures
        tokens(seq!['"'] + body, 0) == Err::<Seq<TokenView>, LexError>(
            LexError::UnterminatedString { offset: 0 },
        ),
{
    let text = seq!['"'] + body;
    assert(text[0] == '"');
    assert forall|k: int| 1 <= k < text.len() implies !(|c: char| c == '"')(#[trigger] text[k]) by {
        assert(text[k] == body[k - 1]);
    }
    lemma_find_exact(text, 1, text.len() as int, |c: char| c == '"');
    lemma_offset_ends(text);
}

/// A block comment that is never closed is an error, whatever its body
/// holds.
pub proof fn law_unterminated_comment(body: Seq<char>)
    requires
        forall|k: int|
            0 <= k && k + 1 < body.len() ==> !(#[trigger] body[k] == '*' && body[k + 1] == '/'),
    ensures
        tokens(seq!['/', '*'] + body, 0) == Err::<Seq<TokenView>, LexError>(
            LexError::UnterminatedComment { offset: 0 },
        ),
{
    let text = seq!['/', '*'] + body;
    assert(text[0] == '/' && text[1] == '*');
    lemma_comment_close(text, 2);
    if let Some(star) = comment_close(text, 2) {
        assert(text[star] == body[star - 2] && text[star + 1] == body[star - 2 + 1]);
    }
    lemma_offset_ends(text);
}

/// Every token but `Whitespace` is written in the source, right where
/// skipping stopped and up to where the next step starts: tokens come in
/// the order of the source, and each has a range of characters, and so of
/// bytes, that is not empty and overlaps no other.
pub proof fn law_tokens_are_written(text: Seq<char>, index: int)
    requires
        0 <= index <= text.len(),
    ensures
        step(text, index) matches Step::Emit { token, next } ==> {
            &&& trivia(text, index) matches Trivia::Skipped { end, newline }
            &&& index <= end <= next <= text.len()
            &&& if newline {
                token == TokenView::Whitespace && next == end
            } else {
                &&& is_written(token)
                &&& text.subrange(end, next) == text_of(token)
                &&& byte_offset(text, end) < byte_offset(text, next)
                &&& encode_utf8(text).subrange(byte_offset(text, end), byte_offset(text, next))
                    == encode_utf8(text_of(token))
            }
        },
{
    lemma_trivia_bounds(text, index);
    if let Trivia::Skipped { end, newline } = trivia(text, index) {
        if !newline && end < text.len() {
            lemma_scan_is_written(text, end);
            if let Step::Emit { token, next } = scan(text, end) {
                lemma_encoded_subrange(text, end, next);
                lemma_offset_monotone(text, end, next);
            }
        }
    }
}

/// Two written tokens with nothing but blank characters between them are
/// read back as themselves, whatever they are. Between them stands one
/// `Whitespace` if a line feed is among the blank characters, however many
/// there are, and nothing if none is.
pub proof fn law_blank_gap_separates(first: TokenView, gap: Seq<char>, second: TokenView)
    requires
        is_written(first),
        is_written(second),
        gap.len() > 0,
        forall|k: int| 0 <= k < gap.len() ==> is_blank(#[trigger] gap[k]),
    ensures
        tokens(text_of(first) + gap + text_of(second), 0) == Ok::<Seq<TokenView>, LexError>(
            if gap.contains('\n') {
                seq![first, TokenView::Whitespace, second]
            } else {
                seq![first, second]
            },
        ),
{
    let text = text_of(first) + gap + text_of(second);
    let n = text_of(first).len() as int;
    let g = gap.len() as int;
    let m = text_of(second).len() as int;
    let end = n + g + m;
    assert(text.len() == end);

    assert forall|k: int| 0 <= k < n implies text[0 + k] == #[trigger] text_of(first)[k] by {}
    assert(text[n] == gap[0]);
    lemma_token_at(text, 0, first);

    assert forall|k: int| 0 <= k < m implies text[n + g + k] == #[trigger] text_of(second)[k] by {}
    lemma_token_at(text, n + g, second);

    assert forall|k: int| n <= k < n + g implies is_blank(#[trigger] text[k]) by {
        assert(text[k] == gap[k - n]);
    }
    lemma_blank_gap(text, n, n + g);
    let newline = exists|k: int| n <= k < n + g && #[trigger] text[k] == '\n';
    assert(newline == gap.contains('\n')) by {
        if gap.contains('\n') {
            let j = choose|j: int| 0 <= j < gap.len() && gap[j] == '\n';
            assert(text[n + j] == '\n');
        }
        if newline {
            let k = choose|k: int| n <= k < n + g && #[trigger] text[k] == '\n';
            assert(gap[k - n] == '\n');
        }
    }

    let none = Seq::<TokenView>::empty();
    assert(step(text, end) == Step::End);
    assert(tokens(text, end) == Ok::<Seq<TokenView>, LexError>(none));
    assert(tokens(text, n + g) == Ok::<Seq<TokenView>, LexError>(seq![second])) by {
        assert(seq![second] + none =~= seq![second]);
    }
    if newline {
        assert(step(text, n) == Step::Emit { token: TokenView::Whitespace, next: n + g });
        assert(tokens(text, n) == Ok::<Seq<TokenView>, LexError>(
            seq![TokenView::Whitespace, second],
        )) by {
            assert(seq![TokenView::Whitespace] + seq![second] =~= seq![
                TokenView::Whitespace,
                second,
            ]);
        }
        assert(seq![first] + seq![TokenView::Whitespace, second] =~= seq![
            first,
            TokenView::Whitespace,
            second,
        ]);
    } else {
        assert(step(text, n) == step(text, n + g));
        assert(tokens(text, n) == Ok::<Seq<TokenView>, LexError>(seq![second])) by {
            assert(seq![second] + none =~= seq![second]);
        }
        assert(seq![first] + seq![second] =~= seq![first, second]);
    }
}

/// Two written tokens with one space between them are read back as exactly
/// those two tokens.
pub proof fn law_space_separates(first: TokenView, second: TokenView)
    requires
        is_written(first),
        is_written(second),
    ensures
        tokens(text_of(first) + seq![' '] + text_of(second), 0) == Ok::<Seq<TokenView>, LexError>(
            seq![first, second],
        ),
{
    let gap = seq![' '];
    assert(!gap.contains('\n'));
    law_blank_gap_separates(first, gap, second);
}

/// Where skipping stops there is nothing left to skip.
proof fn lemma_trivia_stops(text: Seq<char>, index: int)
    requires
        0 <= index <= text.len(),
    ensures
        trivia(text, index) matches Trivia::Skipped { end, .. } ==> trivia(text, end) == (
        Trivia::Skipped { end, newline: false }),
    decreases text.len() - index,
{
    if index < text.len() {
        if text[index] == '/' && peek(text, index + 1) == Some('*') {
            lemma_comment_close(text, index + 2);
            match comment_close(text, index + 2) {
                Some(star) => lemma_trivia_stops(text, star + 2),
                None => {},
            }
        } else if text[index] == '/' && peek(text, index + 1) == Some('/') {
            lemma_find(text, index + 2, |c: char| c == '\n');
            lemma_trivia_stops(text, find(text, index + 2, |c: char| c == '\n'));
        } else if is_blank(text[index]) {
            lemma_trivia_stops(text, index + 1);
        }
    }
}

/// Skipping over blank characters stops where they stop, if no comment
/// starts there, and reports a line feed if one of them is one.
proof fn lemma_blank_gap(text: Seq<char>, from: int, to: int)
    requires
        0 <= from <= to <= text.len(),
        forall|k: int| from <= k < to ==> is_blank(#[trigger] text[k]),
        trivia(text, to) == (Trivia::Skipped { end: to, newline: false }),
    ensures
        trivia(text, from) == (Trivia::Skipped {
            end: to,
            newline: exists|k: int| from <= k < to && #[trigger] text[k] == '\n',
        }),
    decreases to - from,
{
    if from < to {
        lemma_blank_gap(text, from + 1, to);
        assert(is_blank(text[from]));
        let later = exists|k: int| from + 1 <= k < to && #[trigger] text[k] == '\n';
        let whole = exists|k: int| from <= k < to && #[trigger] text[k] == '\n';
        assert(whole == (later || text[from] == '\n'));
    }
}

/// A reserved word is written with lower-case Latin letters, at least two of
/// them, and is read back as itself.
proof fn lemma_keyword_text(reserved: Keyword)
    ensures
        keyword_text(reserved).len() >= 2,
        forall|k: int|
            0 <= k < keyword_text(reserved).len() ==> 'a' <= #[trigger] keyword_text(reserved)[k]
                <= 'z',
        keyword(keyword_text(reserved)) == Some(reserved),
{
    reveal_strlit("break");
    assert("break"@.len() == 5 && "break"@[0] == 'b' && "break"@[1] == 'r');
    reveal_strlit("case");
    assert("case"@.len() == 4 && "case"@[0] == 'c' && "case"@[1] == 'a');
    reveal_strlit("chan");
    assert("chan"@.len() == 4 && "chan"@[0] == 'c' && "chan"@[1] == 'h');
    reveal_strlit("const");
    assert("const"@.len() == 5 && "const"@[0] == 'c' && "const"@[1] == 'o');
    reveal_strlit("continue");
    assert("continue"@.len() == 8 && "continue"@[0] == 'c' && "continue"@[1] == 'o');
    reveal_strlit("default");
    assert("default"@.len() == 7 && "default"@[0] == 'd' && "default"@[1] == 'e');
    reveal_strlit("defer");
    assert("defer"@.len() == 5 && "defer"@[0] == 'd' && "defer"@[1] == 'e');
    reveal_strlit("else");
    assert("else"@.len() == 4 && "else"@[0] == 'e' && "else"@[1] == 'l');
    reveal_strlit("fallthrough");
    assert("fallthrough"@.len() == 11 && "fallthrough"@[0] == 'f' && "fallthrough"@[1] == 'a');
    reveal_strlit("for");
    assert("for"@.len() == 3 && "for"@[0] == 'f' && "for"@[1] == 'o');
    reveal_strlit("func");
    assert("func"@.len() == 4 && "func"@[0] == 'f' && "func"@[1] == 'u');
    reveal_strlit("go");
    assert("go"@.len() == 2 && "go"@[0] == 'g' && "go"@[1] == 'o');
    reveal_strlit("goto");
    assert("goto"@.len() == 4 && "goto"@[0] == 'g' && "goto"@[1] == 'o');
    reveal_strlit("if");
    assert("if"@.len() == 2 && "if"@[0] == 'i' && "if"@[1] == 'f');
    reveal_strlit("import");
    assert("import"@.len() == 6 && "import"@[0] == 'i' && "import"@[1] == 'm');
    reveal_strlit("interface");
    assert("interface"@.len() == 9 && "interface"@[0] == 'i' && "interface"@[1] == 'n');
    reveal_strlit("map");
    assert("map"@.len() == 3 && "map"@[0] == 'm' && "map"@[1] == 'a');
    reveal_strlit("package");
    assert("package"@.len() == 7 && "package"@[0] == 'p' && "package"@[1] == 'a');
    reveal_strlit("range");
    assert("range"@.len() == 5 && "range"@[0] == 'r' && "range"@[1] == 'a');
    reveal_strlit("return");
    assert("return"@.len() == 6 && "return"@[0] == 'r' && "return"@[1] == 'e');
    reveal_strlit("select");
    assert("select"@.len() == 6 && "select"@[0] == 's' && "select"@[1] == 'e');
    reveal_strlit("struct");
    assert("struct"@.len() == 6 && "struct"@[0] == 's' && "struct"@[1] == 't');
    reveal_strlit("switch");
    assert("switch"@.len() == 6 && "switch"@[0] == 's' && "switch"@[1] == 'w');
    reveal_strlit("type");
    assert("type"@.len() == 4 && "type"@[0] == 't' && "type"@[1] == 'y');
    reveal_strlit("var");
    assert("var"@.len() == 3 && "var"@[0] == 'v' && "var"@[1] == 'a');
    match reserved {
        Keyword::Break => assert(keyword("break"@) == Some(Keyword::Break)),
        Keyword::Case => assert(keyword("case"@) == Some(Keyword::Case)),
        Keyword::Chan => assert(keyword("chan"@) == Some(Keyword::Chan)),
        Keyword::Const => assert(keyword("const"@) == Some(Keyword::Const)),
        Keyword::Continue => assert(keyword("continue"@) == Some(Keyword::Continue)),
        Keyword::Default => assert(keyword("default"@) == Some(Keyword::Default)),
        Keyword::Defer => assert(keyword("defer"@) == Some(Keyword::Defer)),
        Keyword::Else => assert(keyword("else"@) == Some(Keyword::Else)),
        Keyword::Fallthrough => assert(keyword("fallthrough"@) == Some(Keyword::Fallthrough)),
        Keyword::For => assert(keyword("for"@) == Some(Keyword::For)),
        Keyword::Func => assert(keyword("func"@) == Some(Keyword::Func)),
        Keyword::Go => assert(keyword("go"@) == Some(Keyword::Go)),
        Keyword::Goto => assert(keyword("goto"@) == Some(Keyword::Goto)),
        Keyword::If => assert(keyword("if"@) == Some(Keyword::If)),
        Keyword::Import => assert(keyword("import"@) == Some(Keyword::Import)),
        Keyword::Interface => assert(keyword("interface"@) == Some(Keyword::Interface)),
        Keyword::MapType => assert(keyword("map"@) == Some(Keyword::MapType)),
        Keyword::Package => assert(keyword("package"@) == Some(Keyword::Package)),
        Keyword::Range => assert(keyword("range"@) == Some(Keyword::Range)),
        Keyword::Return => assert(keyword("return"@) == Some(Keyword::Return)),
        Keyword::Select => assert(keyword("select"@) == Some(Keyword::Select)),
        Keyword::Struct => assert(keyword("struct"@) == Some(Keyword::Struct)),
        Keyword::Switch => assert(keyword("switch"@) == Some(Keyword::Switch)),
        Keyword::Type => assert(keyword("type"@) == Some(Keyword::Type)),
        Keyword::Var => assert(keyword("var"@) == Some(Keyword::Var)),
    }
}

/// A written token is read back from its text, wherever the text stands,
/// provided that a blank character or the end of the source follows it.
proof fn lemma_token_at(text: Seq<char>, at: int, token: TokenView)
    requires
        is_written(token),
        0 <= at,
        at + text_of(token).len() <= text.len(),
        forall|k: int|
            0 <= k < text_of(token).len() ==> text[at + k] == #[trigger] text_of(token)[k],
        at + text_of(token).len() < text.len() ==> is_blank(text[at + text_of(token).len()]),
    ensures
        text_of(token).len() > 0,
        trivia(text, at) == (Trivia::Skipped { end: at, newline: false }),
        step(text, at) == (Step::Emit { token, next: at + text_of(token).len() }),
{
    let written = text_of(token);
    let n = written.len() as int;
    match token {
        TokenView::Keyword(reserved) => {
            lemma_keyword_text(reserved);
            assert(starts_identifier(written[0]));
            assert forall|k: int| at <= k < at + n implies !(|c: char| !continues_identifier(c))(
                #[trigger] text[k],
            ) by {
                assert(text[k] == written[k - at]);
            }
            lemma_find_exact(text, at, at + n, |c: char| !continues_identifier(c));
            assert(text.subrange(at, at + n) =~= written);
            assert(text[at] == written[0]);
        },
        TokenView::Ident(name) => {
            assert forall|k: int| at <= k < at + n implies !(|c: char| !continues_identifier(c))(
                #[trigger] text[k],
            ) by {
                assert(text[k] == written[k - at]);
            }
            lemma_find_exact(text, at, at + n, |c: char| !continues_identifier(c));
            assert(text.subrange(at, at + n) =~= written);
            assert(text[at] == written[0]);
        },
        TokenView::Literal(LiteralView::Integer(digits)) => {
            assert forall|k: int| at <= k < at + n implies !(|c: char| !is_decimal_digit(c))(
                #[trigger] text[k],
            ) by {
                assert(text[k] == written[k - at]);
            }
            lemma_find_exact(text, at, at + n, |c: char| !is_decimal_digit(c));
            assert(text.subrange(at, at + n) =~= written);
            assert(text[at] == written[0]);
        },
        TokenView::Literal(LiteralView::Str(body)) => {
            assert(text[at] == written[0]);
            assert(text[at + n - 1] == written[n - 1]);
            assert forall|k: int| at + 1 <= k < at + n - 1 implies !(|c: char| c == '"')(
                #[trigger] text[k],
            ) by {
                assert(text[k] == written[k - at]);
                assert(written[k - at] == body[k - at - 1]);
            }
            lemma_find_exact(text, at + 1, at + n - 1, |c: char| c == '"');
            assert forall|j: int| 0 <= j < body.len() implies text[at + 1 + j] == body[j] by {
                assert(text[at + (1 + j)] == written[1 + j]);
            }
            assert(text.subrange(at + 1, at + n - 1) =~= body);
        },
        _ => {
            assert(text[at] == written[0]);
            if n >= 2 {
                assert(text[at + 1] == written[1]);
            }
            if n >= 3 {
                assert(text[at + 2] == written[2]);
            }
        },
    }
}

/// No token that starts with a character of its own is `Whitespace`.
proof fn lemma_scan_no_whitespace(text: Seq<char>, index: int)
    requires
        0 <= index < text.len(),
    ensures
        !(scan(text, index) matches Step::Emit { token: TokenView::Whitespace, .. }),
{
}

/// The token that starts at a place is written there.
proof fn lemma_scan_is_written(text: Seq<char>, at: int)
    requires
        0 <= at < text.len(),
    ensures
        scan(text, at) matches Step::Emit { token, next } ==> {
            &&& at < next <= text.len()
            &&& is_written(token)
            &&& text.subrange(at, next) == text_of(token)
        },
{
    let first = text[at];
    match longest_symbol(text, at) {
        Some((token, length)) => {
            if length == 3 {
                assert(text.subrange(at, at + 3) =~= seq![text[at], text[at + 1], text[at + 2]]);
            } else if length == 2 {
                assert(text.subrange(at, at + 2) =~= seq![text[at], text[at + 1]]);
            } else {
                assert(text.subrange(at, at + 1) =~= seq![text[at]]);
            }
            assert(text.subrange(at, at + length) =~= text_of(token));
        },
        None => {
            if is_decimal_digit(first) {
                lemma_find(text, at, |c: char| !is_decimal_digit(c));
            } else if starts_identifier(first) {
                lemma_find(text, at, |c: char| !continues_identifier(c));
                let end = identifier_end(text, at);
                let word = text.subrange(at, end);
                assert(word[0] == first);
                match keyword(word) {
                    Some(reserved) => {
                        assert(keyword_text(reserved) == word);
                    },
                    None => {},
                }
            } else if first == '"' {
                lemma_find(text, at + 1, |c: char| c == '"');
                let close = quote(text, at + 1);
                if close < text.len() {
                    let body = text.subrange(at + 1, close);
                    assert(text.subrange(at, close + 1) =~= seq!['"'] + body + seq!['"']);
                }
            }
        },
    }
}

} // verus!
