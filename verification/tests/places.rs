use rgo::lexer::{line_column, tokenize, LexError};

#[test]
fn error_offsets() {
    assert_eq!(LexError::UnexpectedChar { ch: '#', offset: 7 }.offset(), 7);
    assert_eq!(LexError::UnterminatedComment { offset: 3 }.offset(), 3);
    assert_eq!(LexError::UnterminatedString { offset: 0 }.offset(), 0);
}

#[test]
fn line_and_column_of_the_start() {
    assert_eq!(line_column("", 0), (0, 0));
    assert_eq!(line_column("abc", 0), (0, 0));
}

#[test]
fn line_and_column_on_one_line() {
    assert_eq!(line_column("abc", 1), (0, 1));
    assert_eq!(line_column("abc", 3), (0, 3));
}

#[test]
fn line_and_column_after_line_feeds() {
    let source = "ab\ncd\n\nef";
    assert_eq!(line_column(source, 2), (0, 2));
    assert_eq!(line_column(source, 3), (1, 0));
    assert_eq!(line_column(source, 5), (1, 2));
    assert_eq!(line_column(source, 6), (2, 0));
    assert_eq!(line_column(source, 7), (3, 0));
    assert_eq!(line_column(source, 9), (3, 2));
}

#[test]
fn columns_count_characters() {
    let source = "é€𝒳#";
    assert_eq!(line_column(source, 0), (0, 0));
    assert_eq!(line_column(source, 2), (0, 1));
    assert_eq!(line_column(source, 5), (0, 2));
    assert_eq!(line_column(source, 9), (0, 3));
}

#[test]
fn offset_inside_a_character_or_beyond_the_text() {
    assert_eq!(line_column("é€", 1), (0, 1));
    assert_eq!(line_column("é€", 3), (0, 2));
    assert_eq!(line_column("ab\ncd", 100), (1, 2));
}

#[test]
fn place_of_an_error() {
    let source = "package main\n\nfunc main() {\n\tx := 日本 # y\n}\n";
    let error = match tokenize(source) {
        Err(error) => error,
        Ok(_) => panic!("the source holds a character that starts no token"),
    };
    assert_eq!(error, LexError::UnexpectedChar { ch: '#', offset: 41 });
    assert_eq!(line_column(source, error.offset()), (3, 9));
}
