use toylang::error::CompileError;
use toylang::lexer::{is_ident_continue, is_ident_start, lex, Token};

fn ident(s: &str) -> Token {
    Token::Ident(s.to_string())
}

#[test]
fn lexes_declaration_with_arithmetic() {
    let tokens = lex("var x = 2 + 3 * 4;").unwrap();
    assert_eq!(
        tokens,
        vec![
            Token::Var,
            ident("x"),
            Token::Eq,
            Token::Number(2),
            Token::Plus,
            Token::Number(3),
            Token::Star,
            Token::Number(4),
            Token::Semicolon,
            Token::EOF,
        ]
    );
}

#[test]
fn empty_text_gives_only_the_end_marker() {
    assert_eq!(lex("").unwrap(), vec![Token::EOF]);
    assert_eq!(lex(" \t\r\n").unwrap(), vec![Token::EOF]);
}

#[test]
fn two_character_operators_win_over_one() {
    let tokens = lex("< <= > >= = == !=").unwrap();
    assert_eq!(
        tokens,
        vec![
            Token::Lt,
            Token::Le,
            Token::Gt,
            Token::Ge,
            Token::Eq,
            Token::EqEq,
            Token::Ne,
            Token::EOF,
        ]
    );
    assert_eq!(lex("<==").unwrap(), vec![Token::Le, Token::Eq, Token::EOF]);
}

#[test]
fn lone_bang_is_an_error() {
    assert_eq!(lex("a ! b"), Err(CompileError::Lex("Unexpected '!'".to_string())));
    assert_eq!(lex("!"), Err(CompileError::Lex("Unexpected '!'".to_string())));
}

#[test]
fn reserved_words_match_exactly() {
    let tokens = lex("fn let var if else while return print true false").unwrap();
    assert_eq!(
        tokens,
        vec![
            Token::Fn,
            Token::Let,
            Token::Var,
            Token::If,
            Token::Else,
            Token::While,
            Token::Return,
            Token::Print,
            Token::BoolLiteral(true),
            Token::BoolLiteral(false),
            Token::EOF,
        ]
    );
    let tokens = lex("fnx iff _if print1 length").unwrap();
    assert_eq!(
        tokens,
        vec![ident("fnx"), ident("iff"), ident("_if"), ident("print1"), ident("length"), Token::EOF]
    );
}

#[test]
fn delimiters_and_dot() {
    let tokens = lex("(){}[],;.+-*/%").unwrap();
    assert_eq!(
        tokens,
        vec![
            Token::LParen,
            Token::RParen,
            Token::LBrace,
            Token::RBrace,
            Token::LBracket,
            Token::RBracket,
            Token::Comma,
            Token::Semicolon,
            Token::Dot,
            Token::Plus,
            Token::Minus,
            Token::Star,
            Token::Slash,
            Token::Percent,
            Token::EOF,
        ]
    );
}

#[test]
fn string_literal_is_copied_verbatim() {
    let tokens = lex("print \"hi there\\n\";").unwrap();
    assert_eq!(
        tokens,
        vec![
            Token::Print,
            Token::StrLiteral("hi there\\n".to_string()),
            Token::Semicolon,
            Token::EOF,
        ]
    );
}

#[test]
fn unterminated_string_is_closed_at_the_end() {
    assert_eq!(lex("\"abc").unwrap(), vec![Token::StrLiteral("abc".to_string()), Token::EOF]);
    assert_eq!(lex("\"").unwrap(), vec![Token::StrLiteral(String::new()), Token::EOF]);
}

#[test]
fn largest_number_fits() {
    assert_eq!(
        lex("9223372036854775807").unwrap(),
        vec![Token::Number(i64::MAX), Token::EOF]
    );
    assert_eq!(lex("007").unwrap(), vec![Token::Number(7), Token::EOF]);
}

#[test]
fn number_overflow_is_an_error() {
    assert_eq!(
        lex("9223372036854775808"),
        Err(CompileError::Lex("Integer literal too large".to_string()))
    );
    assert_eq!(
        lex("x = 99999999999999999999999;"),
        Err(CompileError::Lex("Integer literal too large".to_string()))
    );
}

#[test]
fn number_followed_by_letters_splits() {
    assert_eq!(lex("12ab").unwrap(), vec![Token::Number(12), ident("ab"), Token::EOF]);
}

#[test]
fn unknown_character_is_named() {
    assert_eq!(
        lex("a # b"),
        Err(CompileError::Lex("Unexpected character '#'".to_string()))
    );
    assert_eq!(
        lex("\u{00e9}"),
        Err(CompileError::Lex("Unexpected character '\u{00e9}'".to_string()))
    );
}

#[test]
fn identifier_character_classes() {
    assert!(is_ident_start('a'));
    assert!(is_ident_start('Z'));
    assert!(is_ident_start('_'));
    assert!(!is_ident_start('0'));
    assert!(!is_ident_start('-'));
    assert!(is_ident_continue('0'));
    assert!(is_ident_continue('_'));
    assert!(is_ident_continue('q'));
    assert!(!is_ident_continue(' '));
    assert!(!is_ident_continue('\u{00e9}'));
}

#[test]
fn error_rendering_names_the_stage() {
    assert_eq!(CompileError::Io("x".to_string()).render(), "IO error: x");
    assert_eq!(CompileError::Lex("x".to_string()).render(), "Lexical error: x");
    assert_eq!(CompileError::Parse("x".to_string()).render(), "Parse error: x");
    assert_eq!(CompileError::Codegen("x".to_string()).render(), "Codegen error: x");
    assert_eq!(CompileError::Codegen("boom".to_string()).message(), "boom");
}
