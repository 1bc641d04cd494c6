//! The scanner, and everything it is stated over.
//!
//! A [`Lexer`] walks a source text and hands out one [`Token`] at a time;
//! [`tokenize`] collects them all. What they hand out is what
//! [`grammar::step`] and [`grammar::tokens`] say.

use vstd::prelude::*;
use vstd::string::*;

pub mod classes;
pub mod grammar;
pub mod laws;
pub mod offsets;
pub mod position;
pub mod token;

pub use self::offsets::char_at;
pub use self::position::line_column;
pub use self::token::{DelimToken, Keyword, LexError, Literal, LiteralView, Token, TokenView};

use self::classes::{can_continue_identifier, can_start_identifier, is_digit, is_space};
use self::grammar::{holds_newline, peek, seen, Step, Trivia};
use self::offsets::{byte_offset, char_width, slice_between, str_eq};

verus! {

/// What a [`Lexer`] is in contracts: a text and a place in it.
pub struct Cursor {
    /// The text that is being scanned.
    pub source: Seq<char>,
    /// The place the scanner is at: the number of characters it has passed.
    pub position: int,
}

/// A scanner at some place in a source text.
pub struct Lexer<'src> {
    /// Byte offset from the start.
    pos: usize,
    /// The source string.
    src: &'src str,
    /// The character that starts at `pos`, if the text reaches that far.
    current_char: Option<char>,
    /// The number of characters that stand before `pos`.
    index: Ghost<int>,
}

impl<'src> View for Lexer<'src> {
    type V = Cursor;

    closed spec fn view(&self) -> Cursor {
        Cursor { source: self.src@, position: self.index@ }
    }
}

impl<'src> Lexer<'src> {
    /// The byte offset and the character held are those of the place the
    /// scanner is at.
    #[verifier::type_invariant]
    spec fn inv(self) -> bool {
        &&& 0 <= self.index@ <= self.src@.len()
        &&& self.src.spec_bytes().len() <= usize::MAX
        &&& self.pos == byte_offset(self.src@, self.index@)
        &&& self.current_char == peek(self.src@, self.index@)
    }

    /// Create a new Lexer from the given source string.
    pub fn new(s: &'src str) -> (lexer: Lexer<'src>)
        ensures
            lexer@ == (Cursor { source: s@, position: 0 }),
    {
        broadcast use {axiom_spec_iter, next_postcondition};

        // Initialize the lexer with the first character of the source string.
        let mut chars = s.chars();
        let first_char = chars.next();
        let bytes = s.as_bytes();
        proof {
            vstd::slice::axiom_spec_len(bytes);
            offsets::lemma_offset_ends(s@);
        }
        Lexer { src: s, pos: 0, current_char: first_char, index: Ghost(0) }
    }

    /// 'eat' one character.
    fn bump(&mut self)
        ensures
            final(self).src == old(self).src,
            final(self).index@ == if old(self).index@ < old(self).src@.len() {
                old(self).index@ + 1
            } else {
                old(self).index@
            },
            final(self).current_char == peek(final(self).src@, final(self).index@),
    {
        proof {
            use_type_invariant(&*self);
        }
        if let Some(c) = self.current_char {
            let next = self.next_char();
            proof {
                offsets::lemma_offset_step(self.src@, self.index@);
                offsets::lemma_offset_monotone(self.src@, self.index@ + 1, self.src@.len() as int);
                offsets::lemma_offset_ends(self.src@);
            }
            *self = Lexer {
                src: self.src,
                pos: self.pos + char_width(c),
                current_char: next,
                index: Ghost(self.index@ + 1),
            };
        }
    }

    /// Return the next character **without** bumping.
    /// Useful for lookahead.
    fn next_char(&self) -> (next: Option<char>)
        ensures
            next == peek(self.src@, self.index@ + 1),
    {
        proof {
            use_type_invariant(self);
        }
        match self.current_char {
            None => None,
            Some(c) => {
                proof {
                    offsets::lemma_offset_step(self.src@, self.index@);
                    offsets::lemma_offset_monotone(
                        self.src@,
                        self.index@ + 1,
                        self.src@.len() as int,
                    );
                    offsets::lemma_offset_ends(self.src@);
                    offsets::lemma_offset_is_boundary(self.src@, self.index@ + 1);
                }
                let next_pos = self.pos + char_width(c);
                if next_pos < self.src.len() {
                    Some(char_at(self.src, next_pos))
                } else {
                    None
                }
            },
        }
    }

    /// Scan a number literal: the run of decimal digits at the place the
    /// scanner is at, kept as text.
    fn scan_number(&mut self) -> (literal: Literal)
        ensures
            final(self).src == old(self).src,
            final(self).index@ == grammar::digits_end(old(self).src@, old(self).index@),
            final(self).current_char == peek(final(self).src@, final(self).index@),
            literal@ == LiteralView::Integer(
                old(self).src@.subrange(old(self).index@, final(self).index@),
            ),
    {
        proof {
            use_type_invariant(&*self);
            offsets::lemma_offset_is_boundary(self.src@, self.index@);
        }
        let start = self.pos;
        let ghost first = self.index@;

        loop
            invariant
                self.src == old(self).src,
                first <= self.index@ <= self.src@.len(),
                self.current_char == peek(self.src@, self.index@),
                grammar::digits_end(self.src@, first) == grammar::digits_end(
                    self.src@,
                    self.index@,
                ),
            ensures
                grammar::digits_end(self.src@, first) == self.index@,
            decreases self.src@.len() - self.index@,
        {
            match self.current_char {
                Some(c) => {
                    // Base 10.
                    if is_digit(c) {
                        self.bump();
                    } else {
                        break;
                    }
                },
                None => {
                    break;
                },
            }
        }

        proof {
            use_type_invariant(&*self);
            offsets::lemma_offset_is_boundary(self.src@, self.index@);
            offsets::lemma_offset_monotone(self.src@, first, self.index@);
            offsets::lemma_offset_monotone(self.src@, self.index@, self.src@.len() as int);
            offsets::lemma_offset_ends(self.src@);
        }
        let s = slice_between(self.src, start, self.pos);

        Literal::Integer(s.to_owned())
    }

    /// Scan an identifier or a reserved word: the run of identifier
    /// characters at the place the scanner is at.
    fn scan_identifier(&mut self) -> (token: Token)
        ensures
            final(self).src == old(self).src,
            final(self).index@ == grammar::identifier_end(old(self).src@, old(self).index@),
            final(self).current_char == peek(final(self).src@, final(self).index@),
            token@ == match grammar::keyword(
                old(self).src@.subrange(old(self).index@, final(self).index@),
            ) {
                Some(reserved) => TokenView::Keyword(reserved),
                None => TokenView::Ident(
                    old(self).src@.subrange(old(self).index@, final(self).index@),
                ),
            },
    {
        proof {
            use_type_invariant(&*self);
            offsets::lemma_offset_is_boundary(self.src@, self.index@);
        }
        let start = self.pos;
        let ghost first = self.index@;

        loop
            invariant
                self.src == old(self).src,
                first <= self.index@ <= self.src@.len(),
                self.current_char == peek(self.src@, self.index@),
                grammar::identifier_end(self.src@, first) == grammar::identifier_end(
                    self.src@,
                    self.index@,
                ),
            ensures
                grammar::identifier_end(self.src@, first) == self.index@,
            decreases self.src@.len() - self.index@,
        {
            match self.current_char {
                Some(c) => {
                    if can_continue_identifier(c) {
                        self.bump();
                    } else {
                        break;
                    }
                },
                None => {
                    break;
                },
            }
        }

        proof {
            use_type_invariant(&*self);
            offsets::lemma_offset_is_boundary(self.src@, self.index@);
            offsets::lemma_offset_monotone(self.src@, first, self.index@);
            offsets::lemma_offset_monotone(self.src@, self.index@, self.src@.len() as int);
            offsets::lemma_offset_ends(self.src@);
        }
        let ident = slice_between(self.src, start, self.pos);

        match keyword_of(ident) {
            Some(reserved) => Token::Keyword(reserved),
            // `ident` is not a keyword.
            None => Token::Ident(ident.to_owned()),
        }
    }

    /// Scan a string literal. The scanner is at its opening quote; the
    /// literal runs to the next double quote, and its body is kept as it
    /// stands.
    fn scan_string(&mut self) -> (result: Result<Token, LexError>)
        requires
            old(self).current_char == Some('"'),
        ensures
            final(self).src == old(self).src,
            final(self).current_char == peek(final(self).src@, final(self).index@),
            ({
                let text = old(self).src@;
                let open = old(self).index@;
                let close = grammar::quote(text, open + 1);
                if close < text.len() {
                    &&& result matches Ok(token)
                    &&& token@ == TokenView::Literal(
                        LiteralView::Str(text.subrange(open + 1, close)),
                    )
                    &&& final(self).index@ == close + 1
                } else {
                    &&& result == Err::<Token, LexError>(
                        LexError::UnterminatedString { offset: byte_offset(text, open) as usize },
                    )
                    &&& final(self).index@ == text.len()
                }
            }),
    {
        proof {
            use_type_invariant(&*self);
        }
        let opened_at = self.pos;
        self.bump();
        proof {
            use_type_invariant(&*self);
            offsets::lemma_offset_is_boundary(self.src@, self.index@);
        }
        let start = self.pos;
        let ghost first = self.index@;

        loop
            invariant
                self.src == old(self).src,
                first <= self.index@ <= self.src@.len(),
                self.current_char == peek(self.src@, self.index@),
                grammar::quote(self.src@, first) == grammar::quote(self.src@, self.index@),
            ensures
                grammar::quote(self.src@, first) == self.index@,
            decreases self.src@.len() - self.index@,
        {
            match self.current_char {
                Some(c) => {
                    if c != '"' {
                        self.bump();
                    } else {
                        break;
                    }
                },
                None => {
                    break;
                },
            }
        }

        if self.current_char.is_none() {
            return Err(LexError::UnterminatedString { offset: opened_at });
        }
        proof {
            use_type_invariant(&*self);
            offsets::lemma_offset_is_boundary(self.src@, self.index@);
            offsets::lemma_offset_monotone(self.src@, first, self.index@);
            offsets::lemma_offset_monotone(self.src@, self.index@, self.src@.len() as int);
            offsets::lemma_offset_ends(self.src@);
        }
        let s = slice_between(self.src, start, self.pos);

        // Skip the quote _after_ slicing so that it isn't included
        // in the slice.
        self.bump();
        Ok(Token::Literal(Literal::Str(s.to_owned())))
    }

    /// Skip whitespace and comments, and tell whether a line feed was
    /// skipped. A block comment that is never closed is an error, and ends
    /// the scan.
    fn skip_trivia(&mut self) -> (result: Result<bool, LexError>)
        ensures
            final(self).src == old(self).src,
            final(self).current_char == peek(final(self).src@, final(self).index@),
            match grammar::trivia(old(self).src@, old(self).index@) {
                Trivia::Skipped { end, newline } => {
                    &&& result == Ok::<bool, LexError>(newline)
                    &&& final(self).index@ == end
                },
                Trivia::Unterminated { start } => {
                    &&& result == Err::<bool, LexError>(
                        LexError::UnterminatedComment {
                            offset: byte_offset(old(self).src@, start) as usize,
                        },
                    )
                    &&& final(self).index@ == old(self).src@.len()
                },
            },
    {
        proof {
            use_type_invariant(&*self);
        }
        let mut contains_newline = false;
        let ghost first = self.index@;

        loop
            invariant
                self.src == old(self).src,
                first == old(self).index@,
                0 <= self.index@ <= self.src@.len(),
                self.current_char == peek(self.src@, self.index@),
                grammar::trivia(self.src@, first) == seen(
                    grammar::trivia(self.src@, self.index@),
                    contains_newline,
                ),
            ensures
                grammar::trivia(self.src@, first) == (Trivia::Skipped {
                    end: self.index@,
                    newline: contains_newline,
                }),
            decreases self.src@.len() - self.index@,
        {
            let c = match self.current_char {
                Some(c) => c,
                None => {
                    break;
                },
            };

            // Are we at the start of a general comment (`/* ... */`)?
            if c == '/' && self.next_char() == Some('*') {
                proof {
                    use_type_invariant(&*self);
                    grammar::lemma_comment_close(self.src@, self.index@ + 2);
                }
                let opened_at = self.pos;
                let ghost body = self.index@ + 2;
                let ghost before = contains_newline;
                // Skip the '/*'.
                self.bump();
                self.bump();
                proof {
                    grammar::lemma_find(self.src@, body, |c: char| c == '\n');
                }

                // Skip the comment body.
                loop
                    invariant
                        self.src == old(self).src,
                        first == old(self).index@,
                        2 <= body <= self.index@ <= self.src@.len(),
                        self.current_char == peek(self.src@, self.index@),
                        grammar::comment_close(self.src@, body) == grammar::comment_close(
                            self.src@,
                            self.index@,
                        ),
                        self.src@[body - 2] == '/',
                        self.src@[body - 1] == '*',
                        opened_at == byte_offset(self.src@, body - 2),
                        contains_newline == (before || holds_newline(
                            self.src@,
                            body,
                            self.index@,
                        )),
                        grammar::trivia(self.src@, first) == seen(
                            grammar::trivia(self.src@, body - 2),
                            before,
                        ),
                    ensures
                        grammar::comment_close(self.src@, body) == Some(self.index@),
                        self.index@ + 1 < self.src@.len(),
                    decreases self.src@.len() - self.index@,
                {
                    match self.current_char {
                        Some(c) => {
                            if c == '*' && self.next_char() == Some('/') {
                                break;
                            } else {
                                proof {
                                    grammar::lemma_holds_newline_step(
                                        self.src@,
                                        body,
                                        self.index@,
                                    );
                                }
                                if c == '\n' {
                                    contains_newline = true;
                                }
                                self.bump();
                            }
                        },
                        None => {
                            return Err(LexError::UnterminatedComment { offset: opened_at });
                        },
                    }
                }

                // Skip the '*/'.
                self.bump();
                self.bump();
            } else if c == '/' && self.next_char() == Some('/') {
                // Otherwise, are we at the start of a line comment (`// ...`)?
                proof {
                    grammar::lemma_find(self.src@, self.index@ + 2, |c: char| c == '\n');
                }
                let ghost body = self.index@ + 2;
                self.bump();
                self.bump();

                // Since we do not bump past the newline character,
                // the next iteration of the outer loop will catch it.
                loop
                    invariant
                        self.src == old(self).src,
                        body <= self.index@ <= self.src@.len(),
                        self.current_char == peek(self.src@, self.index@),
                        grammar::line_end(self.src@, body) == grammar::line_end(
                            self.src@,
                            self.index@,
                        ),
                    ensures
                        grammar::line_end(self.src@, body) == self.index@,
                    decreases self.src@.len() - self.index@,
                {
                    match self.current_char {
                        Some(c) => {
                            if c == '\n' {
                                break;
                            } else {
                                self.bump();
                            }
                        },
                        None => {
                            break;
                        },
                    }
                }
            } else if is_space(c) {
                if c == '\n' {
                    contains_newline = true;
                }
                self.bump();
            } else {
                break;
            }
        }

        Ok(contains_newline)
    }

    /// Return the next token, if any.
    ///
    /// A fundamental property of this function is that **the next token does
    /// not depend on the previous one**. This means many syntactically
    /// incorrect inputs, such as `, , ,` or `;+m/^`, can pass tokenization,
    /// even though they would fail parsing.
    ///
    /// What is returned is what [`grammar::step`] says of the place the
    /// scanner is at: `None` at the end of the text, else the token and the
    /// scanner moved past it, or the error and the scanner moved to the end
    /// of the text, so that it hands out nothing after an error. A token
    /// always moves the scanner forward.
    pub fn next(&mut self) -> (result: Option<Result<Token, LexError>>)
        ensures
            final(self)@.source == old(self)@.source,
            old(self)@.position <= final(self)@.position <= old(self)@.source.len(),
            match grammar::step(old(self)@.source, old(self)@.position) {
                Step::End => {
                    &&& result is None
                    &&& final(self)@.position == old(self)@.source.len()
                },
                Step::Emit { token, next } => {
                    &&& result matches Some(Ok(found))
                    &&& found@ == token
                    &&& final(self)@.position == next
                    &&& old(self)@.position < next
                },
                Step::Fail { error } => {
                    &&& result == Some(Err::<Token, LexError>(error))
                    &&& final(self)@.position == old(self)@.source.len()
                },
            },
    {
        proof {
            use_type_invariant(&*self);
            grammar::lemma_trivia_bounds(self.src@, self.index@);
            grammar::lemma_step_advances(self.src@, self.index@);
        }
        // Whitespace and comment handling.
        let contains_newline = match self.skip_trivia() {
            Ok(contains_newline) => contains_newline,
            Err(error) => {
                return Some(Err(error));
            },
        };

        // If a body of whitespace contains one or more newlines, it is considered significant
        // and must therefore be tokenized.
        if contains_newline {
            return Some(Ok(Token::Whitespace));
        }
        // Check for EOF after whitespace handling.

        let c = match self.current_char {
            Some(c) => c,
            None => {
                return None;
            },
        };

        let tok = match c {
            // Single-character tokens.
            '(' => {
                self.bump();
                Token::OpenDelim(DelimToken::Paren)
            },
            ')' => {
                self.bump();
                Token::CloseDelim(DelimToken::Paren)
            },
            '{' => {
                self.bump();
                Token::OpenDelim(DelimToken::Brace)
            },
            '}' => {
                self.bump();
                Token::CloseDelim(DelimToken::Brace)
            },
            '[' => {
                self.bump();
                Token::OpenDelim(DelimToken::Bracket)
            },
            ']' => {
                self.bump();
                Token::CloseDelim(DelimToken::Bracket)
            },
            ',' => {
                self.bump();
                Token::Comma
            },
            ';' => {
                self.bump();
                Token::Semicolon
            },
            // More complex tokens.
            '.' => {
                self.bump();

                // Look for an ellipsis ('...').
                if self.current_char == Some('.') && self.next_char() == Some('.') {
                    self.bump();
                    self.bump();
                    Token::Ellipsis
                } else {
                    Token::Dot
                }
            },
            ':' => {
                self.bump();

                if self.current_char == Some('=') {
                    self.bump();
                    Token::ColonAssign
                } else {
                    Token::Colon
                }
            },
            '+' => {
                self.bump();

                match self.current_char {
                    Some('+') => {
                        self.bump();
                        Token::Increment
                    },
                    Some('=') => {
                        self.bump();
                        Token::PlusAssign
                    },
                    _ => Token::Plus,
                }
            },
            '-' => {
                self.bump();

                match self.current_char {
                    Some('-') => {
                        self.bump();
                        Token::Decrement
                    },
                    Some('=') => {
                        self.bump();
                        Token::MinusAssign
                    },
                    _ => Token::Minus,
                }
            },
            '*' => {
                self.bump();

                match self.current_char {
                    Some('=') => {
                        self.bump();
                        Token::StarAssign
                    },
                    _ => Token::Star,
                }
            },
            '/' => {
                self.bump();

                match self.current_char {
                    Some('=') => {
                        self.bump();
                        Token::SlashAssign
                    },
                    _ => Token::Slash,
                }
            },
            '<' => {
                self.bump();

                match self.current_char {
                    Some('<') => {
                        self.bump();
                        match self.current_char {
                            Some('=') => {
                                self.bump();
                                Token::LshiftAssign
                            },
                            _ => Token::Lshift,
                        }
                    },
                    Some('=') => {
                        self.bump();
                        Token::LessThanOrEqual
                    },
                    Some('-') => {
                        self.bump();
                        Token::ChanReceive
                    },
                    _ => Token::LessThan,
                }
            },
            '>' => {
                self.bump();

                match self.current_char {
                    Some('>') => {
                        self.bump();
                        match self.current_char {
                            Some('=') => {
                                self.bump();
                                Token::RshiftAssign
                            },
                            _ => Token::Rshift,
                        }
                    },
                    Some('=') => {
                        self.bump();
                        Token::GreaterThanOrEqual
                    },
                    _ => Token::GreaterThan,
                }
            },
            '|' => {
                self.bump();

                match self.current_char {
                    Some('|') => {
                        self.bump();
                        Token::PipePipe
                    },
                    Some('=') => {
                        self.bump();
                        Token::PipeAssign
                    },
                    _ => Token::Pipe,
                }
            },
            '&' => {
                self.bump();

                match self.current_char {
                    Some('&') => {
                        self.bump();
                        Token::AndAnd
                    },
                    Some('=') => {
                        self.bump();
                        Token::AndAssign
                    },
                    Some('^') => {
                        self.bump();
                        match self.current_char {
                            Some('=') => {
                                self.bump();
                                Token::BitClearAssign
                            },
                            _ => Token::BitClear,
                        }
                    },
                    _ => Token::And,
                }
            },
            '!' => {
                self.bump();

                match self.current_char {
                    Some('=') => {
                        self.bump();
                        Token::NotEqual
                    },
                    _ => Token::Not,
                }
            },
            '^' => {
                self.bump();

                match self.current_char {
                    Some('=') => {
                        self.bump();
                        Token::CaretAssign
                    },
                    _ => Token::Caret,
                }
            },
            '%' => {
                self.bump();

                match self.current_char {
                    Some('=') => {
                        self.bump();
                        Token::PercentAssign
                    },
                    _ => Token::Percent,
                }
            },
            _ => {
                if is_digit(c) {
                    // Scan integer.
                    Token::Literal(self.scan_number())
                } else if can_start_identifier(c) {
                    self.scan_identifier()
                } else if c == '"' {
                    match self.scan_string() {
                        Ok(token) => token,
                        Err(error) => {
                            return Some(Err(error));
                        },
                    }
                } else {
                    proof {
                        use_type_invariant(&*self);
                    }
                    let error = LexError::UnexpectedChar { ch: c, offset: self.pos };
                    self.halt();
                    return Some(Err(error));
                }
            },
        };

        Some(Ok(tok))
    }

    /// Give up scanning: go to the end of the text.
    fn halt(&mut self)
        ensures
            final(self).src == old(self).src,
            final(self).index@ == old(self).src@.len(),
            final(self).current_char == None::<char>,
    {
        proof {
            use_type_invariant(&*self);
            offsets::lemma_offset_ends(self.src@);
        }
        *self = Lexer {
            src: self.src,
            pos: self.src.len(),
            current_char: None,
            index: Ghost(self.src@.len() as int),
        };
    }
}

/// Convenience function to collect all the tokens from a string.
///
/// Returns what [`grammar::tokens`] says of the whole text: every token in
/// the order of the source, or the first error met, in which case no token is
/// returned.
pub fn tokenize(s: &str) -> (result: Result<Vec<Token>, LexError>)
    ensures
        match grammar::tokens(s@, 0) {
            Ok(all) => result matches Ok(found) && found.deep_view() == all,
            Err(error) => result == Err::<Vec<Token>, LexError>(error),
        },
{
    let mut lexer = Lexer::new(s);
    let mut tokens: Vec<Token> = Vec::new();

    loop
        invariant
            lexer@.source == s@,
            0 <= lexer@.position <= s@.len(),
            grammar::tokens(s@, 0) == after(
                tokens.deep_view(),
                grammar::tokens(s@, lexer@.position),
            ),
        decreases s@.len() - lexer@.position,
    {
        let ghost before = tokens.deep_view();
        match lexer.next() {
            None => {
                proof {
                    assert(before + Seq::<TokenView>::empty() =~= before);
                }
                return Ok(tokens);
            },
            Some(Err(error)) => {
                return Err(error);
            },
            Some(Ok(token)) => {
                let ghost found = token@;
                tokens.push(token);
                proof {
                    assert(tokens.deep_view() =~= before.push(found));
                    assert forall|rest: Seq<TokenView>|
                        before + (seq![found] + rest) == #[trigger] (before.push(found) + rest) by {
                        assert(before + (seq![found] + rest) =~= before.push(found) + rest);
                    }
                }
            },
        }
    }
}

/// The outcome `rest` of scanning on, after the tokens `found` before it.
spec fn after(found: Seq<TokenView>, rest: Result<Seq<TokenView>, LexError>) -> Result<
    Seq<TokenView>,
    LexError,
> {
    match rest {
        Ok(more) => Ok(found + more),
        Err(error) => Err(error),
    }
}

/// The reserved word that `word` spells, if it spells one.
fn keyword_of(word: &str) -> (reserved: Option<Keyword>)
    ensures
        reserved == grammar::keyword(word@),
{
    if str_eq(word, "break") {
        Some(Keyword::Break)
    } else if str_eq(word, "case") {
        Some(Keyword::Case)
    } else if str_eq(word, "chan") {
        Some(Keyword::Chan)
    } else if str_eq(word, "const") {
        Some(Keyword::Const)
    } else if str_eq(word, "continue") {
        Some(Keyword::Continue)
    } else if str_eq(word, "default") {
        Some(Keyword::Default)
    } else if str_eq(word, "defer") {
        Some(Keyword::Defer)
    } else if str_eq(word, "else") {
        Some(Keyword::Else)
    } else if str_eq(word, "fallthrough") {
        Some(Keyword::Fallthrough)
    } else if str_eq(word, "for") {
        Some(Keyword::For)
    } else if str_eq(word, "func") {
        Some(Keyword::Func)
    } else if str_eq(word, "go") {
        Some(Keyword::Go)
    } else if str_eq(word, "goto") {
        Some(Keyword::Goto)
    } else if str_eq(word, "if") {
        Some(Keyword::If)
    } else if str_eq(word, "import") {
        Some(Keyword::Import)
    } else if str_eq(word, "interface") {
        Some(Keyword::Interface)
    } else if str_eq(word, "map") {
        Some(Keyword::MapType)
    } else if str_eq(word, "package") {
        Some(Keyword::Package)
    } else if str_eq(word, "range") {
        Some(Keyword::Range)
    } else if str_eq(word, "return") {
        Some(Keyword::Return)
    } else if str_eq(word, "select") {
        Some(Keyword::Select)
    } else if str_eq(word, "struct") {
        Some(Keyword::Struct)
    } else if str_eq(word, "switch") {
        Some(Keyword::Switch)
    } else if str_eq(word, "type") {
        Some(Keyword::Type)
    } else if str_eq(word, "var") {
        Some(Keyword::Var)
    } else {
        None
    }
}

} // verus!
