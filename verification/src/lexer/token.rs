//! The tokens the scanner produces, their mathematical views, and the errors
//! it reports.

use vstd::prelude::*;

verus! {

/// The three bracket shapes; the direction is given by the token around it.
#[derive(Clone, Copy, Debug, PartialEq, Eq, Structural)]
pub enum DelimToken {
    /// `(` or `)`
    Paren,
    /// `{` or `}`
    Brace,
    /// `[` or `]`
    Bracket,
}

/// The reserved words of the language.
#[derive(Clone, Copy, Debug, PartialEq, Eq, Structural)]
pub enum Keyword {
    Break,
    Case,
    Chan,
    Const,
    Continue,
    Default,
    Defer,
    Else,
    Fallthrough,
    For,
    Func,
    Go,
    Goto,
    If,
    Import,
    Interface,
    /// `map`. Not named after the word alone, which is vstd's type of maps.
    MapType,
    Package,
    Range,
    Return,
    Select,
    Struct,
    Switch,
    Type,
    Var,
}

/// A literal, carrying its text exactly as it stands in the source.
#[derive(Clone, Debug, PartialEq, Eq)]
pub enum Literal {
    /// A run of decimal digits, not yet converted to a number.
    Integer(String),
    /// The characters between two double quotes, with no escape decoded.
    Str(String),
}

/// One lexical token.
#[derive(Clone, Debug, PartialEq, Eq)]
pub enum Token {
    /// `(`, `{` or `[`
    OpenDelim(DelimToken),
    /// `)`, `}` or `]`
    CloseDelim(DelimToken),
    /// `,`
    Comma,
    /// `;`
    Semicolon,
    /// `.`
    Dot,
    /// `...`
    Ellipsis,
    /// `:`
    Colon,
    /// `:=`
    ColonAssign,
    /// `+`
    Plus,
    /// `+=`
    PlusAssign,
    /// `++`
    Increment,
    /// `-`
    Minus,
    /// `-=`
    MinusAssign,
    /// `--`
    Decrement,
    /// `*`
    Star,
    /// `*=`
    StarAssign,
    /// `/`
    Slash,
    /// `/=`
    SlashAssign,
    /// `<<`
    Lshift,
    /// `<<=`
    LshiftAssign,
    /// `>>`
    Rshift,
    /// `>>=`
    RshiftAssign,
    /// `<`
    LessThan,
    /// `<=`
    LessThanOrEqual,
    /// `<-`
    ChanReceive,
    /// `>`
    GreaterThan,
    /// `>=`
    GreaterThanOrEqual,
    /// `|`
    Pipe,
    /// `|=`
    PipeAssign,
    /// `||`
    PipePipe,
    /// `&`
    And,
    /// `&=`
    AndAssign,
    /// `&&`
    AndAnd,
    /// `&^`
    BitClear,
    /// `&^=`
    BitClearAssign,
    /// `!`
    Not,
    /// `!=`
    NotEqual,
    /// `^`
    Caret,
    /// `^=`
    CaretAssign,
    /// `%`
    Percent,
    /// `%=`
    PercentAssign,
    /// A reserved word.
    Keyword(Keyword),
    /// An identifier that is no reserved word.
    Ident(String),
    /// An integer or string literal.
    Literal(Literal),
    /// The skipped whitespace and comments before the next token held a line
    /// break. The token carries no text.
    Whitespace,
}

/// What a [`Literal`] is in contracts: the same, over character sequences.
pub enum LiteralView {
    Integer(Seq<char>),
    Str(Seq<char>),
}

/// What a [`Token`] is in contracts: the same, over character sequences.
pub enum TokenView {
    OpenDelim(DelimToken),
    CloseDelim(DelimToken),
    Comma,
    Semicolon,
    Dot,
    Ellipsis,
    Colon,
    ColonAssign,
    Plus,
    PlusAssign,
    Increment,
    Minus,
    MinusAssign,
    Decrement,
    Star,
    StarAssign,
    Slash,
    SlashAssign,
    Lshift,
    LshiftAssign,
    Rshift,
    RshiftAssign,
    LessThan,
    LessThanOrEqual,
    ChanReceive,
    GreaterThan,
    GreaterThanOrEqual,
    Pipe,
    PipeAssign,
    PipePipe,
    And,
    AndAssign,
    AndAnd,
    BitClear,
    BitClearAssign,
    Not,
    NotEqual,
    Caret,
    CaretAssign,
    Percent,
    PercentAssign,
    Keyword(Keyword),
    Ident(Seq<char>),
    Literal(LiteralView),
    Whitespace,
}

impl View for Literal {
    type V = LiteralView;

    open spec fn view(&self) -> LiteralView {
        match *self {
            Literal::Integer(digits) => LiteralView::Integer(digits@),
            Literal::Str(body) => LiteralView::Str(body@),
        }
    }
}

impl View for Token {
    type V = TokenView;

    open spec fn view(&self) -> TokenView {
        match *self {
            Token::OpenDelim(d) => TokenView::OpenDelim(d),
            Token::CloseDelim(d) => TokenView::CloseDelim(d),
            Token::Comma => TokenView::Comma,
            Token::Semicolon => TokenView::Semicolon,
            Token::Dot => TokenView::Dot,
            Token::Ellipsis => TokenView::Ellipsis,
            Token::Colon => TokenView::Colon,
            Token::ColonAssign => TokenView::ColonAssign,
            Token::Plus => TokenView::Plus,
            Token::PlusAssign => TokenView::PlusAssign,
            Token::Increment => TokenView::Increment,
            Token::Minus => TokenView::Minus,
            Token::MinusAssign => TokenView::MinusAssign,
            Token::Decrement => TokenView::Decrement,
            Token::Star => TokenView::Star,
            Token::StarAssign => TokenView::StarAssign,
            Token::Slash => TokenView::Slash,
            Token::SlashAssign => TokenView::SlashAssign,
            Token::Lshift => TokenView::Lshift,
            Token::LshiftAssign => TokenView::LshiftAssign,
            Token::Rshift => TokenView::Rshift,
            Token::RshiftAssign => TokenView::RshiftAssign,
            Token::LessThan => TokenView::LessThan,
            Token::LessThanOrEqual => TokenView::LessThanOrEqual,
            Token::ChanReceive => TokenView::ChanReceive,
            Token::GreaterThan => TokenView::GreaterThan,
            Token::GreaterThanOrEqual => TokenView::GreaterThanOrEqual,
            Token::Pipe => TokenView::Pipe,
            Token::PipeAssign => TokenView::PipeAssign,
            Token::PipePipe => TokenView::PipePipe,
            Token::And => TokenView::And,
            Token::AndAssign => TokenView::AndAssign,
            Token::AndAnd => TokenView::AndAnd,
            Token::BitClear => TokenView::BitClear,
            Token::BitClearAssign => TokenView::BitClearAssign,
            Token::Not => TokenView::Not,
            Token::NotEqual => TokenView::NotEqual,
            Token::Caret => TokenView::Caret,
            Token::CaretAssign => TokenView::CaretAssign,
            Token::Percent => TokenView::Percent,
            Token::PercentAssign => TokenView::PercentAssign,
            Token::Keyword(k) => TokenView::Keyword(k),
            Token::Ident(name) => TokenView::Ident(name@),
            Token::Literal(lit) => TokenView::Literal(lit@),
            Token::Whitespace => TokenView::Whitespace,
        }
    }
}

impl DeepView for Token {
    type V = TokenView;

    open spec fn deep_view(&self) -> TokenView {
        self@
    }
}

/// Why scanning stopped. Every offset is a byte position in the source.
#[derive(Clone, Copy, Debug, PartialEq, Eq, Structural)]
pub enum LexError {
    /// No token starts with the character `ch`, which stands at `offset`.
    UnexpectedChar { ch: char, offset: usize },
    /// The block comment that opens at `offset` is never closed.
    UnterminatedComment { offset: usize },
    /// The string literal that opens at `offset` is never closed.
    UnterminatedString { offset: usize },
}

impl LexError {
    /// The byte offset that the error points at.
    pub fn offset(&self) -> (offset: usize)
        ensures
            offset == match *self {
                LexError::UnexpectedChar { offset, .. } => offset,
                LexError::UnterminatedComment { offset } => offset,
                LexError::UnterminatedString { offset } => offset,
            },
    {
        match *self {
            LexError::UnexpectedChar { offset, .. } => offset,
            LexError::UnterminatedComment { offset } => offset,
            LexError::UnterminatedString { offset } => offset,
        }
    }
}

} // verus!
