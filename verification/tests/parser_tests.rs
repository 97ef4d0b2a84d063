use lsymc::lexer::Lexer;
use lsymc::lsymc::Lsymc;
use lsymc::parser::{parse, ParserError};

#[test]
fn test_parser() {
    let input = "(def x (+ 10 21))";

    let lexer = Lexer::lex(input).unwrap();
    let prog = parse(lexer).unwrap();
    assert_eq!(
        prog,
        Lsymc::List(vec![
            Lsymc::Def,
            Lsymc::Ident("x".to_owned()),
            Lsymc::List(vec![Lsymc::Plus, Lsymc::Int(10), Lsymc::Int(21)]),
        ])
    );
}

#[test]
fn test_multiple_expressions() {
    let input: &str = r#"
            (defn add (x y) ( + x y ))
        "#;
    let lexer = Lexer::lex(input).unwrap();
    let prog = parse(lexer).unwrap();

    assert_eq!(
        prog,
        Lsymc::List(vec![
            Lsymc::Defn,
            Lsymc::Ident("add".to_owned()),
            Lsymc::List(vec![
                Lsymc::Ident("x".to_owned()),
                Lsymc::Ident("y".to_owned()),
            ]),
            Lsymc::List(vec![
                Lsymc::Plus,
                Lsymc::Ident("x".to_owned()),
                Lsymc::Ident("y".to_owned()),
            ]),
        ])
    );
}

#[test]
fn test_not_a_list() {
    let input: &str = "def x 10";
    let lexer = Lexer::lex(input).unwrap();
    let prog = parse(lexer).err().unwrap();
    assert_eq!(prog, ParserError::NotList);
}

#[test]
#[should_panic]
fn not_balanced() {
    let input: &str = "(def name \"Marwan\" ";
    let lexer = Lexer::lex(input).unwrap();
    let _prog = parse(lexer).unwrap();
}

#[test]
fn test_unbalanced_is_short_list() {
    let input: &str = "(def name \"Marwan\" ";
    let lexer = Lexer::lex(input).unwrap();
    assert_eq!(parse(lexer), Err(ParserError::ShortList));
}

#[test]
fn test_empty_input_not_list() {
    assert_eq!(parse(vec![]), Err(ParserError::NotList));
}

#[test]
fn test_nested_empty_lists() {
    let lexer = Lexer::lex("(() ())").unwrap();
    let prog = parse(lexer).unwrap();
    assert_eq!(
        prog,
        Lsymc::List(vec![Lsymc::List(vec![]), Lsymc::List(vec![])])
    );
}

#[test]
fn test_floats_and_strings_in_tree() {
    let lexer = Lexer::lex("(1.5 \"hi\")").unwrap();
    let prog = parse(lexer).unwrap();
    assert_eq!(
        prog,
        Lsymc::List(vec![
            Lsymc::Float("1.5".to_owned()),
            Lsymc::String("hi".to_owned()),
        ])
    );
}
