use rgo::lexer::{char_at, tokenize, DelimToken, Keyword, LexError, Lexer, Literal, Token};

fn ident(name: &str) -> Token {
    Token::Ident(name.to_owned())
}

fn integer(digits: &str) -> Token {
    Token::Literal(Literal::Integer(digits.to_owned()))
}

fn string(body: &str) -> Token {
    Token::Literal(Literal::Str(body.to_owned()))
}

#[test]
fn tokenize_parens() {
    assert_eq!(
        tokenize("()"),
        Ok(vec![Token::OpenDelim(DelimToken::Paren), Token::CloseDelim(DelimToken::Paren)])
    );
}

#[test]
fn tokenize_empty_source() {
    assert_eq!(tokenize(""), Ok(vec![]));
}

#[test]
fn tokenize_each_delimiter() {
    assert_eq!(tokenize("("), Ok(vec![Token::OpenDelim(DelimToken::Paren)]));
    assert_eq!(tokenize(")"), Ok(vec![Token::CloseDelim(DelimToken::Paren)]));
    assert_eq!(tokenize("{"), Ok(vec![Token::OpenDelim(DelimToken::Brace)]));
    assert_eq!(tokenize("}"), Ok(vec![Token::CloseDelim(DelimToken::Brace)]));
    assert_eq!(tokenize("["), Ok(vec![Token::OpenDelim(DelimToken::Bracket)]));
    assert_eq!(tokenize("]"), Ok(vec![Token::CloseDelim(DelimToken::Bracket)]));
}

#[test]
fn tokenize_punctuation() {
    assert_eq!(tokenize(","), Ok(vec![Token::Comma]));
    assert_eq!(tokenize(";"), Ok(vec![Token::Semicolon]));
    assert_eq!(tokenize("."), Ok(vec![Token::Dot]));
    assert_eq!(tokenize("..."), Ok(vec![Token::Ellipsis]));
    assert_eq!(tokenize(":"), Ok(vec![Token::Colon]));
    assert_eq!(tokenize(":="), Ok(vec![Token::ColonAssign]));
}

#[test]
fn two_dots_are_two_dots() {
    assert_eq!(tokenize(".."), Ok(vec![Token::Dot, Token::Dot]));
    assert_eq!(tokenize("...."), Ok(vec![Token::Ellipsis, Token::Dot]));
}

#[test]
fn longest_match_shift_left() {
    assert_eq!(tokenize("<<="), Ok(vec![Token::LshiftAssign]));
    assert_eq!(tokenize("<<"), Ok(vec![Token::Lshift]));
    assert_eq!(tokenize("<"), Ok(vec![Token::LessThan]));
    assert_eq!(tokenize("<="), Ok(vec![Token::LessThanOrEqual]));
    assert_eq!(tokenize("<-"), Ok(vec![Token::ChanReceive]));
}

#[test]
fn longest_match_shift_right() {
    assert_eq!(tokenize(">>="), Ok(vec![Token::RshiftAssign]));
    assert_eq!(tokenize(">>"), Ok(vec![Token::Rshift]));
    assert_eq!(tokenize(">"), Ok(vec![Token::GreaterThan]));
    assert_eq!(tokenize(">="), Ok(vec![Token::GreaterThanOrEqual]));
}

#[test]
fn longest_match_and() {
    assert_eq!(tokenize("&"), Ok(vec![Token::And]));
    assert_eq!(tokenize("&^"), Ok(vec![Token::BitClear]));
    assert_eq!(tokenize("&^="), Ok(vec![Token::BitClearAssign]));
    assert_eq!(tokenize("&&"), Ok(vec![Token::AndAnd]));
    assert_eq!(tokenize("&="), Ok(vec![Token::AndAssign]));
}

#[test]
fn arithmetic_operators() {
    assert_eq!(tokenize("+"), Ok(vec![Token::Plus]));
    assert_eq!(tokenize("+="), Ok(vec![Token::PlusAssign]));
    assert_eq!(tokenize("++"), Ok(vec![Token::Increment]));
    assert_eq!(tokenize("-"), Ok(vec![Token::Minus]));
    assert_eq!(tokenize("-="), Ok(vec![Token::MinusAssign]));
    assert_eq!(tokenize("--"), Ok(vec![Token::Decrement]));
    assert_eq!(tokenize("*"), Ok(vec![Token::Star]));
    assert_eq!(tokenize("*="), Ok(vec![Token::StarAssign]));
    assert_eq!(tokenize("/"), Ok(vec![Token::Slash]));
    assert_eq!(tokenize("/="), Ok(vec![Token::SlashAssign]));
    assert_eq!(tokenize("%"), Ok(vec![Token::Percent]));
    assert_eq!(tokenize("%="), Ok(vec![Token::PercentAssign]));
}

#[test]
fn logical_operators() {
    assert_eq!(tokenize("|"), Ok(vec![Token::Pipe]));
    assert_eq!(tokenize("|="), Ok(vec![Token::PipeAssign]));
    assert_eq!(tokenize("||"), Ok(vec![Token::PipePipe]));
    assert_eq!(tokenize("!"), Ok(vec![Token::Not]));
    assert_eq!(tokenize("!="), Ok(vec![Token::NotEqual]));
    assert_eq!(tokenize("^"), Ok(vec![Token::Caret]));
    assert_eq!(tokenize("^="), Ok(vec![Token::CaretAssign]));
}

#[test]
fn package_clause() {
    let expected = vec![Token::Keyword(Keyword::Package), ident("main")];
    assert_eq!(tokenize("package main"), Ok(expected.clone()));
    assert_eq!(tokenize(" package main"), Ok(expected));
}

#[test]
fn blank_lines_collapse_into_one_whitespace() {
    assert_eq!(
        tokenize("first\n\n\n\n\nsecond"),
        Ok(vec![ident("first"), Token::Whitespace, ident("second")])
    );
    assert_eq!(
        tokenize("first \r\n\t\n  \n second"),
        Ok(vec![ident("first"), Token::Whitespace, ident("second")])
    );
}

#[test]
fn line_comment_is_elided() {
    assert_eq!(tokenize("// c\nfoo"), Ok(vec![Token::Whitespace, ident("foo")]));
}

#[test]
fn line_comment_at_end_of_input() {
    assert_eq!(tokenize("foo // trailing"), Ok(vec![ident("foo")]));
}

#[test]
fn block_comment_without_line_break() {
    assert_eq!(tokenize("a/* no break */b"), Ok(vec![ident("a"), ident("b")]));
}

#[test]
fn block_comment_with_line_break() {
    assert_eq!(
        tokenize("a/* one\n two */b"),
        Ok(vec![ident("a"), Token::Whitespace, ident("b")])
    );
}

#[test]
fn block_comments_do_not_nest() {
    assert_eq!(
        tokenize("/* a /* b */ c */"),
        Ok(vec![ident("c"), Token::Star, Token::Slash])
    );
}

#[test]
fn slash_star_slash_opens_a_comment() {
    assert_eq!(tokenize("/*/"), Err(LexError::UnterminatedComment { offset: 0 }));
    assert_eq!(tokenize("/**/"), Ok(vec![]));
}

#[test]
fn comments_and_blank_lines_give_one_whitespace() {
    assert_eq!(
        tokenize("a // one\n\n/* two */\n// three\nb"),
        Ok(vec![ident("a"), Token::Whitespace, ident("b")])
    );
}

#[test]
fn trailing_line_break() {
    assert_eq!(tokenize("foo\n"), Ok(vec![ident("foo"), Token::Whitespace]));
}

#[test]
fn unterminated_string() {
    assert_eq!(tokenize("\"abc"), Err(LexError::UnterminatedString { offset: 0 }));
    assert_eq!(tokenize("x = \"abc"), Err(LexError::UnexpectedChar { ch: '=', offset: 2 }));
    assert_eq!(tokenize("x \"abc"), Err(LexError::UnterminatedString { offset: 2 }));
}

#[test]
fn unterminated_block_comment() {
    assert_eq!(tokenize("/* never closed"), Err(LexError::UnterminatedComment { offset: 0 }));
    assert_eq!(tokenize("x\n /* y *"), Err(LexError::UnterminatedComment { offset: 3 }));
}

#[test]
fn unexpected_character() {
    assert_eq!(tokenize("a # b"), Err(LexError::UnexpectedChar { ch: '#', offset: 2 }));
    assert_eq!(tokenize("="), Err(LexError::UnexpectedChar { ch: '=', offset: 0 }));
    assert_eq!(tokenize("\u{c}"), Err(LexError::UnexpectedChar { ch: '\u{c}', offset: 0 }));
}

#[test]
fn offsets_count_bytes() {
    assert_eq!(tokenize("日本 #"), Err(LexError::UnexpectedChar { ch: '#', offset: 7 }));
    assert_eq!(tokenize("é\"x"), Err(LexError::UnterminatedString { offset: 2 }));
    assert_eq!(tokenize("𝒳 /*"), Err(LexError::UnterminatedComment { offset: 5 }));
    assert_eq!(tokenize("a €"), Err(LexError::UnexpectedChar { ch: '€', offset: 2 }));
}

#[test]
fn maximal_munch_of_identifiers() {
    assert_eq!(tokenize("func1"), Ok(vec![ident("func1")]));
    assert_eq!(tokenize("func"), Ok(vec![Token::Keyword(Keyword::Func)]));
    assert_eq!(tokenize("gofunc"), Ok(vec![ident("gofunc")]));
    assert_eq!(tokenize("Func"), Ok(vec![ident("Func")]));
}

#[test]
fn every_keyword() {
    let table = [
        ("break", Keyword::Break),
        ("case", Keyword::Case),
        ("chan", Keyword::Chan),
        ("const", Keyword::Const),
        ("continue", Keyword::Continue),
        ("default", Keyword::Default),
        ("defer", Keyword::Defer),
        ("else", Keyword::Else),
        ("fallthrough", Keyword::Fallthrough),
        ("for", Keyword::For),
        ("func", Keyword::Func),
        ("go", Keyword::Go),
        ("goto", Keyword::Goto),
        ("if", Keyword::If),
        ("import", Keyword::Import),
        ("interface", Keyword::Interface),
        ("map", Keyword::MapType),
        ("package", Keyword::Package),
        ("range", Keyword::Range),
        ("return", Keyword::Return),
        ("select", Keyword::Select),
        ("struct", Keyword::Struct),
        ("switch", Keyword::Switch),
        ("type", Keyword::Type),
        ("var", Keyword::Var),
    ];
    for (text, keyword) in table {
        assert_eq!(tokenize(text), Ok(vec![Token::Keyword(keyword)]));
    }
}

#[test]
fn identifiers_beyond_ascii() {
    assert_eq!(tokenize("héllo"), Ok(vec![ident("héllo")]));
    assert_eq!(tokenize("京都 x٣"), Ok(vec![ident("京都"), ident("x٣")]));
}

#[test]
fn underscore_starts_no_token() {
    assert_eq!(tokenize("_x"), Err(LexError::UnexpectedChar { ch: '_', offset: 0 }));
}

#[test]
fn integer_literals() {
    assert_eq!(tokenize("0"), Ok(vec![integer("0")]));
    assert_eq!(tokenize("0123456789"), Ok(vec![integer("0123456789")]));
    assert_eq!(tokenize("123abc"), Ok(vec![integer("123"), ident("abc")]));
    assert_eq!(
        tokenize("99999999999999999999999999"),
        Ok(vec![integer("99999999999999999999999999")])
    );
}

#[test]
fn digits_beyond_ascii_start_no_literal() {
    assert_eq!(tokenize("٣"), Err(LexError::UnexpectedChar { ch: '٣', offset: 0 }));
}

#[test]
fn string_literals() {
    assert_eq!(tokenize("\"\""), Ok(vec![string("")]));
    assert_eq!(tokenize("\"Hello, rgo\""), Ok(vec![string("Hello, rgo")]));
    assert_eq!(tokenize("\"// no comment\""), Ok(vec![string("// no comment")]));
    assert_eq!(tokenize("\"two\nlines\""), Ok(vec![string("two\nlines")]));
    assert_eq!(tokenize("\"日本語\"x"), Ok(vec![string("日本語"), ident("x")]));
}

#[test]
fn backslash_does_not_escape_a_quote() {
    assert_eq!(
        tokenize("\"a\\\"b\""),
        Err(LexError::UnterminatedString { offset: 5 })
    );
    assert_eq!(tokenize("\"a\\\"b"), Ok(vec![string("a\\"), ident("b")]));
}

#[test]
fn space_keeps_tokens_apart() {
    assert_eq!(tokenize("+ +"), Ok(vec![Token::Plus, Token::Plus]));
    assert_eq!(tokenize("< <="), Ok(vec![Token::LessThan, Token::LessThanOrEqual]));
    assert_eq!(tokenize("go to"), Ok(vec![Token::Keyword(Keyword::Go), ident("to")]));
    assert_eq!(tokenize("1 2"), Ok(vec![integer("1"), integer("2")]));
    assert_eq!(tokenize("\"a\" \"b\""), Ok(vec![string("a"), string("b")]));
    assert_eq!(tokenize("/ /"), Ok(vec![Token::Slash, Token::Slash]));
}

#[test]
fn without_space_tokens_may_fuse() {
    assert_eq!(tokenize("++"), Ok(vec![Token::Increment]));
    assert_eq!(tokenize("<<="), Ok(vec![Token::LshiftAssign]));
    assert_eq!(tokenize("goto"), Ok(vec![Token::Keyword(Keyword::Goto)]));
    assert_eq!(tokenize("12"), Ok(vec![integer("12")]));
    assert_eq!(tokenize("+++"), Ok(vec![Token::Increment, Token::Plus]));
}

#[test]
fn a_small_program() {
    let source =
        "package main\n\nimport \"fmt\"\n\nfunc main() {\n\tfmt.Println(\"Hello, rgo\")\n}\n";
    assert_eq!(
        tokenize(source),
        Ok(vec![
            Token::Keyword(Keyword::Package),
            ident("main"),
            Token::Whitespace,
            Token::Keyword(Keyword::Import),
            string("fmt"),
            Token::Whitespace,
            Token::Keyword(Keyword::Func),
            ident("main"),
            Token::OpenDelim(DelimToken::Paren),
            Token::CloseDelim(DelimToken::Paren),
            Token::OpenDelim(DelimToken::Brace),
            Token::Whitespace,
            ident("fmt"),
            Token::Dot,
            ident("Println"),
            Token::OpenDelim(DelimToken::Paren),
            string("Hello, rgo"),
            Token::CloseDelim(DelimToken::Paren),
            Token::Whitespace,
            Token::CloseDelim(DelimToken::Brace),
            Token::Whitespace,
        ])
    );
}

#[test]
fn tokens_need_no_context() {
    assert_eq!(tokenize(", , ,"), Ok(vec![Token::Comma, Token::Comma, Token::Comma]));
    assert_eq!(
        tokenize(";+m/^"),
        Ok(vec![Token::Semicolon, Token::Plus, ident("m"), Token::Slash, Token::Caret])
    );
}

#[test]
fn lexer_steps_one_token_at_a_time() {
    let mut lexer = Lexer::new(")");
    assert_eq!(lexer.next(), Some(Ok(Token::CloseDelim(DelimToken::Paren))));
    assert_eq!(lexer.next(), None);
    assert_eq!(lexer.next(), None);
}

#[test]
fn lexer_stops_after_an_error() {
    let mut lexer = Lexer::new("a # b");
    assert_eq!(lexer.next(), Some(Ok(ident("a"))));
    assert_eq!(lexer.next(), Some(Err(LexError::UnexpectedChar { ch: '#', offset: 2 })));
    assert_eq!(lexer.next(), None);
}

#[test]
fn lexer_whitespace_then_end() {
    let mut lexer = Lexer::new("x \n ");
    assert_eq!(lexer.next(), Some(Ok(ident("x"))));
    assert_eq!(lexer.next(), Some(Ok(Token::Whitespace)));
    assert_eq!(lexer.next(), None);
}

#[test]
fn same_source_same_tokens() {
    let source = "a := b <- c // send\n";
    assert_eq!(tokenize(source), tokenize(source));
    assert_eq!(
        tokenize(source),
        Ok(vec![
            ident("a"),
            Token::ColonAssign,
            ident("b"),
            Token::ChanReceive,
            ident("c"),
            Token::Whitespace,
        ])
    );
}

#[test]
fn char_at_byte_offsets() {
    assert_eq!(char_at("hello", 0), 'h');
    assert_eq!(char_at("hello", 4), 'o');
    assert_eq!(char_at("héllo", 1), 'é');
    assert_eq!(char_at("héllo", 3), 'l');
    assert_eq!(char_at("a€𝒳z", 1), '€');
    assert_eq!(char_at("a€𝒳z", 4), '𝒳');
    assert_eq!(char_at("a€𝒳z", 8), 'z');
}

#[test]
fn blank_gap_between_any_two_tokens() {
    let written = [
        ("<<=", Token::LshiftAssign),
        ("/", Token::Slash),
        ("func", Token::Keyword(Keyword::Func)),
        ("func1", ident("func1")),
        ("42", integer("42")),
        ("\"a b\"", string("a b")),
        ("...", Token::Ellipsis),
        ("&^", Token::BitClear),
    ];
    for (first_text, first) in &written {
        for (second_text, second) in &written {
            let spaced = format!("{} {}", first_text, second_text);
            assert_eq!(tokenize(&spaced), Ok(vec![first.clone(), second.clone()]));
            let tabbed = format!("{}\t \r{}", first_text, second_text);
            assert_eq!(tokenize(&tabbed), Ok(vec![first.clone(), second.clone()]));
            let broken = format!("{} \n\n \n{}", first_text, second_text);
            assert_eq!(
                tokenize(&broken),
                Ok(vec![first.clone(), Token::Whitespace, second.clone()])
            );
        }
    }
}

#[test]
fn whitespace_token_never_repeats() {
    let tokens = match tokenize("a\n// one\n\n/* two\n */\n\nb\n\n") {
        Ok(tokens) => tokens,
        Err(error) => panic!("unexpected error: {:?}", error),
    };
    assert_eq!(tokens, vec![ident("a"), Token::Whitespace, ident("b"), Token::Whitespace]);
    for pair in tokens.windows(2) {
        assert!(!(pair[0] == Token::Whitespace && pair[1] == Token::Whitespace));
    }
}

#[test]
fn runs_are_not_cut_short() {
    assert_eq!(tokenize("abc123def"), Ok(vec![ident("abc123def")]));
    assert_eq!(tokenize("returns"), Ok(vec![ident("returns")]));
    assert_eq!(tokenize("007"), Ok(vec![integer("007")]));
    assert_eq!(tokenize("if0"), Ok(vec![ident("if0")]));
}

#[test]
fn unterminated_whatever_the_body() {
    assert_eq!(tokenize("\""), Err(LexError::UnterminatedString { offset: 0 }));
    assert_eq!(tokenize("\"a\nb /* c */ // d"), Err(LexError::UnterminatedString { offset: 0 }));
    assert_eq!(tokenize("/*"), Err(LexError::UnterminatedComment { offset: 0 }));
    assert_eq!(tokenize("/* a \" b * / c *"), Err(LexError::UnterminatedComment { offset: 0 }));
}

#[test]
fn only_decimal_integers_are_literals() {
    assert_eq!(tokenize("0x1F"), Ok(vec![integer("0"), ident("x1F")]));
    assert_eq!(tokenize("1.5"), Ok(vec![integer("1"), Token::Dot, integer("5")]));
    assert_eq!(tokenize("017"), Ok(vec![integer("017")]));
}

#[test]
fn leading_blanks_leave_no_token() {
    assert_eq!(tokenize(" \t\r x"), Ok(vec![ident("x")]));
    assert_eq!(tokenize("x \t\r "), Ok(vec![ident("x")]));
    assert_eq!(tokenize(" \t\r "), Ok(vec![]));
    assert_eq!(tokenize("\n"), Ok(vec![Token::Whitespace]));
}

#[test]
fn long_source() {
    let mut source = String::new();
    let mut expected = Vec::new();
    for line in 0..20000 {
        source.push_str("x1 += \"é\" /* c */ // d\n");
        expected.push(ident("x1"));
        expected.push(Token::PlusAssign);
        expected.push(string("é"));
        expected.push(Token::Whitespace);
        if line == 19999 {
            source.push_str("end");
            expected.push(ident("end"));
        }
    }
    assert_eq!(tokenize(&source), Ok(expected));
}
