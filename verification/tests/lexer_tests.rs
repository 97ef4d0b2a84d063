use lsymc::lexer::{LexError, Lexer, Token};

#[test]
fn test_string() {
    let input: &str = "(def name \"Marwan\" \"\")";
    let lexer = Lexer::lex(input).unwrap();

    assert_eq!(
        lexer,
        vec![
            Token::LParen,
            Token::Def,
            Token::Ident("name".to_owned()),
            Token::String("Marwan".to_owned()),
            Token::String("".to_owned()),
            Token::RParen,
        ]
    )
}

#[test]
fn test_int() {
    let input: &str = "(def x 10)";
    let lexer = Lexer::lex(input).unwrap();

    assert_eq!(
        lexer,
        vec![
            Token::LParen,
            Token::Def,
            Token::Ident("x".to_owned()),
            Token::Int(10),
            Token::RParen,
        ]
    )
}

#[test]
fn test_float() {
    let input: &str = "(def y 4.123 + / * < >)";

    let lexer = Lexer::lex(input).unwrap();
    assert_eq!(
        lexer,
        vec![
            Token::LParen,
            Token::Def,
            Token::Ident("y".to_owned()),
            Token::Float("4.123".to_owned()),
            Token::Plus,
            Token::Slash,
            Token::Astrisk,
            Token::LT,
            Token::GT,
            Token::RParen,
        ]
    )
}

#[test]
fn test_function() {
    let input: &str = "(defn add (x y) (x + y))";
    let lexer = Lexer::lex(input).unwrap();

    assert_eq!(
        lexer,
        vec![
            Token::LParen,
            Token::Defn,
            Token::Ident("add".to_owned()),
            Token::LParen,
            Token::Ident("x".to_owned()),
            Token::Ident("y".to_owned()),
            Token::RParen,
            Token::LParen,
            Token::Ident("x".to_owned()),
            Token::Plus,
            Token::Ident("y".to_owned()),
            Token::RParen,
            Token::RParen,
        ]
    )
}

#[test]
fn test_unicode_ident() {
    // is_alphabetic reaches beyond ASCII, so an accented identifier holds
    // together as one token.
    let lexer = Lexer::lex("(héllo)").unwrap();
    assert_eq!(
        lexer,
        vec![
            Token::LParen,
            Token::Ident("héllo".to_owned()),
            Token::RParen,
        ]
    )
}

#[test]
fn test_malformed_two_dots() {
    assert_eq!(Lexer::lex("(1..2)"), Err(LexError::MalformedNumber));
}

#[test]
fn test_malformed_unicode_digit() {
    // is_numeric accepts it, so it opens a numeric literal; it is not a
    // decimal digit, so the literal is malformed.
    assert_eq!(Lexer::lex("٣"), Err(LexError::MalformedNumber));
}

#[test]
fn test_int_too_large() {
    assert_eq!(
        Lexer::lex("99999999999999999999"),
        Err(LexError::MalformedNumber)
    );
}

#[test]
fn test_int_boundary() {
    assert_eq!(
        Lexer::lex("9223372036854775807").unwrap(),
        vec![Token::Int(i64::MAX)]
    );
    assert_eq!(
        Lexer::lex("9223372036854775808"),
        Err(LexError::MalformedNumber)
    );
}

#[test]
fn test_unterminated_string() {
    // The content of an unterminated string literal runs to the end of the
    // text.
    let lexer = Lexer::lex("\"abc").unwrap();
    assert_eq!(lexer, vec![Token::String("abc".to_owned())]);
}

#[test]
fn test_scan_stops_at_unknown() {
    // A character no rule covers ends the scan quietly.
    let lexer = Lexer::lex("( #true").unwrap();
    assert_eq!(lexer, vec![Token::LParen]);
}

#[test]
fn test_trailing_dot_float() {
    let lexer = Lexer::lex("4.").unwrap();
    assert_eq!(lexer, vec![Token::Float("4.".to_owned())]);
}
