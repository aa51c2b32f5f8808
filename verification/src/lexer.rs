//! Lexical analysis: source text to tokens.
//!
//! The grammar is free-form: spaces, tabs, carriage returns and newlines
//! separate tokens and mean nothing else. A string literal that is not
//! closed before the end of the text is closed there.

use crate::error::{CompileError, CompileErrorView};
use crate::text::{chars_of, decimal, decimal_text, join3, text_between};
use vstd::prelude::*;
use vstd::string::*;

verus! {

/// One token of the source text.
#[derive(Debug, Clone, PartialEq, Eq)]
pub enum Token {
    // Keywords
    Fn,
    Let,
    Var,
    If,
    Else,
    While,
    Return,
    Print,
    // Identifiers and literals
    Ident(String),
    Number(i64),
    StrLiteral(String),
    BoolLiteral(bool),
    // Operators
    Plus,
    Minus,
    Star,
    Slash,
    Percent,
    Lt,
    Le,
    Gt,
    Ge,
    EqEq,
    Ne,
    Eq,
    // Delimiters
    LParen,
    RParen,
    LBrace,
    RBrace,
    LBracket,
    RBracket,
    Comma,
    Semicolon,
    // Special
    Dot,
    EOF,
}

/// Model of a [`Token`]: names and literal text as characters.
pub enum TokenView {
    Fn,
    Let,
    Var,
    If,
    Else,
    While,
    Return,
    Print,
    Ident(Seq<char>),
    Number(i64),
    StrLiteral(Seq<char>),
    BoolLiteral(bool),
    Plus,
    Minus,
    Star,
    Slash,
    Percent,
    Lt,
    Le,
    Gt,
    Ge,
    EqEq,
    Ne,
    Eq,
    LParen,
    RParen,
    LBrace,
    RBrace,
    LBracket,
    RBracket,
    Comma,
    Semicolon,
    Dot,
    EOF,
}

impl View for Token {
    type V = TokenView;

    open spec fn view(&self) -> TokenView {
        match self {
            Token::Fn => TokenView::Fn,
            Token::Let => TokenView::Let,
            Token::Var => TokenView::Var,
            Token::If => TokenView::If,
            Token::Else => TokenView::Else,
            Token::While => TokenView::While,
            Token::Return => TokenView::Return,
            Token::Print => TokenView::Print,
            Token::Ident(s) => TokenView::Ident(s@),
            Token::Number(n) => TokenView::Number(*n),
            Token::StrLiteral(s) => TokenView::StrLiteral(s@),
            Token::BoolLiteral(b) => TokenView::BoolLiteral(*b),
            Token::Plus => TokenView::Plus,
            Token::Minus => TokenView::Minus,
            Token::Star => TokenView::Star,
            Token::Slash => TokenView::Slash,
            Token::Percent => TokenView::Percent,
            Token::Lt => TokenView::Lt,
            Token::Le => TokenView::Le,
            Token::Gt => TokenView::Gt,
            Token::Ge => TokenView::Ge,
            Token::EqEq => TokenView::EqEq,
            Token::Ne => TokenView::Ne,
            Token::Eq => TokenView::Eq,
            Token::LParen => TokenView::LParen,
            Token::RParen => TokenView::RParen,
            Token::LBrace => TokenView::LBrace,
            Token::RBrace => TokenView::RBrace,
            Token::LBracket => TokenView::LBracket,
            Token::RBracket => TokenView::RBracket,
            Token::Comma => TokenView::Comma,
            Token::Semicolon => TokenView::Semicolon,
            Token::Dot => TokenView::Dot,
            Token::EOF => TokenView::EOF,
        }
    }
}

/// Model of a sequence of tokens, element by element.
pub open spec fn tokens_view(v: Seq<Token>) -> Seq<TokenView> {
    Seq::new(v.len(), |i: int| v[i]@)
}

/// The name under which a token appears in messages: its kind, and for
/// an identifier or a literal what it holds.
pub open spec fn token_text(t: TokenView) -> Seq<char> {
    match t {
        TokenView::Fn => "Fn"@,
        TokenView::Let => "Let"@,
        TokenView::Var => "Var"@,
        TokenView::If => "If"@,
        TokenView::Else => "Else"@,
        TokenView::While => "While"@,
        TokenView::Return => "Return"@,
        TokenView::Print => "Print"@,
        TokenView::Ident(s) => "Ident(\""@ + s + "\")"@,
        TokenView::Number(n) => "Number("@ + decimal(n as int) + ")"@,
        TokenView::StrLiteral(s) => "StrLiteral(\""@ + s + "\")"@,
        TokenView::BoolLiteral(b) => if b {
            "BoolLiteral(true)"@
        } else {
            "BoolLiteral(false)"@
        },
        TokenView::Plus => "Plus"@,
        TokenView::Minus => "Minus"@,
        TokenView::Star => "Star"@,
        TokenView::Slash => "Slash"@,
        TokenView::Percent => "Percent"@,
        TokenView::Lt => "Lt"@,
        TokenView::Le => "Le"@,
        TokenView::Gt => "Gt"@,
        TokenView::Ge => "Ge"@,
        TokenView::EqEq => "EqEq"@,
        TokenView::Ne => "Ne"@,
        TokenView::Eq => "Eq"@,
        TokenView::LParen => "LParen"@,
        TokenView::RParen => "RParen"@,
        TokenView::LBrace => "LBrace"@,
        TokenView::RBrace => "RBrace"@,
        TokenView::LBracket => "LBracket"@,
        TokenView::RBracket => "RBracket"@,
        TokenView::Comma => "Comma"@,
        TokenView::Semicolon => "Semicolon"@,
        TokenView::Dot => "Dot"@,
        TokenView::EOF => "EOF"@,
    }
}

impl Token {
    /// The name under which the token appears in messages.
    pub fn describe(&self) -> (s: String)
        ensures
            s@ == token_text(self@),
    {
        match self {
            Token::Fn => String::from_str("Fn"),
            Token::Let => String::from_str("Let"),
            Token::Var => String::from_str("Var"),
            Token::If => String::from_str("If"),
            Token::Else => String::from_str("Else"),
            Token::While => String::from_str("While"),
            Token::Return => String::from_str("Return"),
            Token::Print => String::from_str("Print"),
            Token::Ident(s) => join3("Ident(\"", s.as_str(), "\")"),
            Token::Number(n) => join3("Number(", decimal_text(*n).as_str(), ")"),
            Token::StrLiteral(s) => join3("StrLiteral(\"", s.as_str(), "\")"),
            Token::BoolLiteral(b) => if *b {
                String::from_str("BoolLiteral(true)")
            } else {
                String::from_str("BoolLiteral(false)")
            },
            Token::Plus => String::from_str("Plus"),
            Token::Minus => String::from_str("Minus"),
            Token::Star => String::from_str("Star"),
            Token::Slash => String::from_str("Slash"),
            Token::Percent => String::from_str("Percent"),
            Token::Lt => String::from_str("Lt"),
            Token::Le => String::from_str("Le"),
            Token::Gt => String::from_str("Gt"),
            Token::Ge => String::from_str("Ge"),
            Token::EqEq => String::from_str("EqEq"),
            Token::Ne => String::from_str("Ne"),
            Token::Eq => String::from_str("Eq"),
            Token::LParen => String::from_str("LParen"),
            Token::RParen => String::from_str("RParen"),
            Token::LBrace => String::from_str("LBrace"),
            Token::RBrace => String::from_str("RBrace"),
            Token::LBracket => String::from_str("LBracket"),
            Token::RBracket => String::from_str("RBracket"),
            Token::Comma => String::from_str("Comma"),
            Token::Semicolon => String::from_str("Semicolon"),
            Token::Dot => String::from_str("Dot"),
            Token::EOF => String::from_str("EOF"),
        }
    }

    /// Whether two tokens are the same, in kind and in what they hold.
    pub fn same(&self, other: &Token) -> (r: bool)
        ensures
            r == (self@ == other@),
    {
        match (self, other) {
            (Token::Fn, Token::Fn) => true,
            (Token::Let, Token::Let) => true,
            (Token::Var, Token::Var) => true,
            (Token::If, Token::If) => true,
            (Token::Else, Token::Else) => true,
            (Token::While, Token::While) => true,
            (Token::Return, Token::Return) => true,
            (Token::Print, Token::Print) => true,
            (Token::Ident(a), Token::Ident(b)) => *a == *b,
            (Token::Number(a), Token::Number(b)) => *a == *b,
            (Token::StrLiteral(a), Token::StrLiteral(b)) => *a == *b,
            (Token::BoolLiteral(a), Token::BoolLiteral(b)) => *a == *b,
            (Token::Plus, Token::Plus) => true,
            (Token::Minus, Token::Minus) => true,
            (Token::Star, Token::Star) => true,
            (Token::Slash, Token::Slash) => true,
            (Token::Percent, Token::Percent) => true,
            (Token::Lt, Token::Lt) => true,
            (Token::Le, Token::Le) => true,
            (Token::Gt, Token::Gt) => true,
            (Token::Ge, Token::Ge) => true,
            (Token::EqEq, Token::EqEq) => true,
            (Token::Ne, Token::Ne) => true,
            (Token::Eq, Token::Eq) => true,
            (Token::LParen, Token::LParen) => true,
            (Token::RParen, Token::RParen) => true,
            (Token::LBrace, Token::LBrace) => true,
            (Token::RBrace, Token::RBrace) => true,
            (Token::LBracket, Token::LBracket) => true,
            (Token::RBracket, Token::RBracket) => true,
            (Token::Comma, Token::Comma) => true,
            (Token::Semicolon, Token::Semicolon) => true,
            (Token::Dot, Token::Dot) => true,
            (Token::EOF, Token::EOF) => true,
            _ => false,
        }
    }
}

/// Whether `c` separates tokens.
pub open spec fn is_space(c: char) -> bool {
    c == ' ' || c == '\t' || c == '\r' || c == '\n'
}

/// Whether `c` is a decimal digit.
pub open spec fn is_digit(c: char) -> bool {
    '0' <= c <= '9'
}

/// Whether `c` may start an identifier: a letter or an underscore.
pub open spec fn ident_start(c: char) -> bool {
    ('a' <= c <= 'z') || ('A' <= c <= 'Z') || c == '_'
}

/// Whether `c` may continue an identifier: a letter, a digit or an underscore.
pub open spec fn ident_continue(c: char) -> bool {
    ident_start(c) || is_digit(c)
}

/// The first position at or after `i` whose character does not continue an
/// identifier, or the end of the text.
pub open spec fn ident_end(s: Seq<char>, i: int) -> int
    decreases s.len() - i,
{
    if 0 <= i < s.len() && ident_continue(s[i]) {
        ident_end(s, i + 1)
    } else {
        i
    }
}

/// The first position at or after `i` whose character is not a digit, or
/// the end of the text.
pub open spec fn digits_end(s: Seq<char>, i: int) -> int
    decreases s.len() - i,
{
    if 0 <= i < s.len() && is_digit(s[i]) {
        digits_end(s, i + 1)
    } else {
        i
    }
}

/// The first position at or after `i` that holds a double quote, or the end
/// of the text.
pub open spec fn quote_pos(s: Seq<char>, i: int) -> int
    decreases s.len() - i,
{
    if 0 <= i < s.len() && s[i] != '"' {
        quote_pos(s, i + 1)
    } else {
        i
    }
}

/// The number that a run of decimal digits writes.
pub open spec fn digits_value(s: Seq<char>) -> nat
    decreases s.len(),
{
    if s.len() == 0 {
        0
    } else {
        (digits_value(s.drop_last()) * 10 + (s.last() as int - '0' as int)) as nat
    }
}

/// The token that a scanned word stands for: a reserved word, a boolean
/// literal, or else an identifier.
pub open spec fn word_token(w: Seq<char>) -> TokenView {
    if w == "fn"@ {
        TokenView::Fn
    } else if w == "var"@ {
        TokenView::Var
    } else if w == "let"@ {
        TokenView::Let
    } else if w == "if"@ {
        TokenView::If
    } else if w == "else"@ {
        TokenView::Else
    } else if w == "while"@ {
        TokenView::While
    } else if w == "return"@ {
        TokenView::Return
    } else if w == "print"@ {
        TokenView::Print
    } else if w == "true"@ {
        TokenView::BoolLiteral(true)
    } else if w == "false"@ {
        TokenView::BoolLiteral(false)
    } else {
        TokenView::Ident(w)
    }
}

/// What stands at one position of the text.
pub enum Scan {
    /// White space: nothing is produced, scanning goes on at the position.
    Skip(int),
    /// A token, and the position after it.
    Token(TokenView, int),
    /// A lexical error with its message.
    Fail(Seq<char>),
}

/// The token of one or two characters that starts with `c`, given whether
/// an equals sign follows, and its length; `None` where `c` starts no such
/// token.
pub open spec fn punct(c: char, eq_follows: bool) -> Option<(TokenView, int)> {
    if c == '<' {
        Some(if eq_follows { (TokenView::Le, 2int) } else { (TokenView::Lt, 1int) })
    } else if c == '>' {
        Some(if eq_follows { (TokenView::Ge, 2int) } else { (TokenView::Gt, 1int) })
    } else if c == '=' {
        Some(if eq_follows { (TokenView::EqEq, 2int) } else { (TokenView::Eq, 1int) })
    } else if c == '!' && eq_follows {
        Some((TokenView::Ne, 2int))
    } else if c == '+' {
        Some((TokenView::Plus, 1int))
    } else if c == '-' {
        Some((TokenView::Minus, 1int))
    } else if c == '*' {
        Some((TokenView::Star, 1int))
    } else if c == '/' {
        Some((TokenView::Slash, 1int))
    } else if c == '%' {
        Some((TokenView::Percent, 1int))
    } else if c == '(' {
        Some((TokenView::LParen, 1int))
    } else if c == ')' {
        Some((TokenView::RParen, 1int))
    } else if c == '{' {
        Some((TokenView::LBrace, 1int))
    } else if c == '}' {
        Some((TokenView::RBrace, 1int))
    } else if c == '[' {
        Some((TokenView::LBracket, 1int))
    } else if c == ']' {
        Some((TokenView::RBracket, 1int))
    } else if c == ',' {
        Some((TokenView::Comma, 1int))
    } else if c == ';' {
        Some((TokenView::Semicolon, 1int))
    } else if c == '.' {
        Some((TokenView::Dot, 1int))
    } else {
        None
    }
}

/// What stands at position `i` of `s`, for `0 <= i < s.len()`.
pub open spec fn scan(s: Seq<char>, i: int) -> Scan {
    let c = s[i];
    let eq_follows = i + 1 < s.len() && s[i + 1] == '=';
    if is_space(c) {
        Scan::Skip(i + 1)
    } else if let Some((t, width)) = punct(c, eq_follows) {
        Scan::Token(t, i + width)
    } else if c == '!' {
        Scan::Fail("Unexpected '!'"@)
    } else if c == '"' {
        let close = quote_pos(s, i + 1);
        Scan::Token(
            TokenView::StrLiteral(s.subrange(i + 1, close)),
            if close < s.len() { close + 1 } else { close },
        )
    } else if is_digit(c) {
        let end = digits_end(s, i);
        let value = digits_value(s.subrange(i, end));
        if value <= i64::MAX {
            Scan::Token(TokenView::Number(value as i64), end)
        } else {
            Scan::Fail("Integer literal too large"@)
        }
    } else if ident_start(c) {
        let end = ident_end(s, i + 1);
        Scan::Token(word_token(s.subrange(i, end)), end)
    } else {
        Scan::Fail("Unexpected character '"@ + seq![c] + "'"@)
    }
}

/// The tokens of `s` from position `i` on, after the tokens `acc` of what
/// comes before: scanning goes on until the end of the text, where the end
/// marker is added, or until the first error.
pub open spec fn lex_from(s: Seq<char>, i: int, acc: Seq<TokenView>) -> Result<
    Seq<TokenView>,
    CompileErrorView,
>
    decreases s.len() - i,
{
    if 0 <= i < s.len() {
        proof {
            lemma_scan_advances(s, i);
        }
        match scan(s, i) {
            Scan::Skip(next) => lex_from(s, next, acc),
            Scan::Token(t, next) => lex_from(s, next, acc.push(t)),
            Scan::Fail(msg) => Err(CompileErrorView::Lex(msg)),
        }
    } else {
        Ok(acc.push(TokenView::EOF))
    }
}

/// The tokens of a source text, or its first lexical error.
pub open spec fn lex_spec(s: Seq<char>) -> Result<Seq<TokenView>, CompileErrorView> {
    lex_from(s, 0, Seq::empty())
}

/// Every scan moves forward and stays inside the text.
pub proof fn lemma_scan_advances(s: Seq<char>, i: int)
    requires
        0 <= i < s.len(),
    ensures
        match scan(s, i) {
            Scan::Skip(next) => i < next <= s.len(),
            Scan::Token(_, next) => i < next <= s.len(),
            Scan::Fail(_) => true,
        },
{
    lemma_ends_bounds(s, i);
    lemma_ends_bounds(s, i + 1);
}

/// The three scanning positions lie between their start and the end.
pub proof fn lemma_ends_bounds(s: Seq<char>, i: int)
    requires
        0 <= i <= s.len(),
    ensures
        i <= ident_end(s, i) <= s.len(),
        i <= digits_end(s, i) <= s.len(),
        i <= quote_pos(s, i) <= s.len(),
        i < s.len() && is_digit(s[i]) ==> i < digits_end(s, i),
    decreases s.len() - i,
{
    if i < s.len() {
        lemma_ends_bounds(s, i + 1);
    }
}

/// Model of the result of lexing.
pub open spec fn lexed_view(r: Result<Vec<Token>, CompileError>) -> Result<
    Seq<TokenView>,
    CompileErrorView,
> {
    match r {
        Ok(v) => Ok(tokens_view(v@)),
        Err(e) => Err(e@),
    }
}

/// A successful lexing ends with the end marker, which stands nowhere else
/// in its result.
pub proof fn lemma_lex_ends_with_eof(s: Seq<char>)
    ensures
        match lex_spec(s) {
            Ok(tokens) => tokens.len() > 0 && tokens.last() == TokenView::EOF && forall|k: int|
                0 <= k < tokens.len() - 1 ==> tokens[k] != TokenView::EOF,
            Err(_) => true,
        },
{
    lemma_lex_from_eof(s, 0, Seq::empty());
}

proof fn lemma_lex_from_eof(s: Seq<char>, i: int, acc: Seq<TokenView>)
    requires
        0 <= i,
        forall|k: int| 0 <= k < acc.len() ==> acc[k] != TokenView::EOF,
    ensures
        match lex_from(s, i, acc) {
            Ok(tokens) => tokens.len() > 0 && tokens.last() == TokenView::EOF && forall|k: int|
                0 <= k < tokens.len() - 1 ==> tokens[k] != TokenView::EOF,
            Err(_) => true,
        },
    decreases s.len() - i,
{
    if i < s.len() {
        lemma_scan_advances(s, i);
        match scan(s, i) {
            Scan::Skip(next) => lemma_lex_from_eof(s, next, acc),
            Scan::Token(t, next) => {
                assert(t != TokenView::EOF);
                lemma_lex_from_eof(s, next, acc.push(t));
            },
            Scan::Fail(msg) => {},
        }
    }
}

/// Lexing fails only with a lexical error.
proof fn lemma_lex_fails_lexically(s: Seq<char>, i: int, acc: Seq<TokenView>)
    requires
        0 <= i,
    ensures
        match lex_from(s, i, acc) {
            Ok(_) => true,
            Err(e) => e is Lex,
        },
    decreases s.len() - i,
{
    if i < s.len() {
        lemma_scan_advances(s, i);
        match scan(s, i) {
            Scan::Skip(next) => lemma_lex_fails_lexically(s, next, acc),
            Scan::Token(t, next) => lemma_lex_fails_lexically(s, next, acc.push(t)),
            Scan::Fail(msg) => {},
        }
    }
}

fn is_space_char(c: char) -> (r: bool)
    ensures
        r == is_space(c),
{
    c == ' ' || c == '\t' || c == '\r' || c == '\n'
}

fn is_digit_char(c: char) -> (r: bool)
    ensures
        r == is_digit(c),
{
    c >= '0' && c <= '9'
}

pub fn is_ident_start(c: char) -> (r: bool)
    ensures
        r == ident_start(c),
{
    (c >= 'a' && c <= 'z') || (c >= 'A' && c <= 'Z') || c == '_'
}

pub fn is_ident_continue(c: char) -> (r: bool)
    ensures
        r == ident_continue(c),
{
    is_ident_start(c) || (c >= '0' && c <= '9')
}

/// The token of a scanned word.
fn word_to_token(w: String) -> (t: Token)
    ensures
        t@ == word_token(w@),
{
    if w == String::from_str("fn") {
        Token::Fn
    } else if w == String::from_str("var") {
        Token::Var
    } else if w == String::from_str("let") {
        Token::Let
    } else if w == String::from_str("if") {
        Token::If
    } else if w == String::from_str("else") {
        Token::Else
    } else if w == String::from_str("while") {
        Token::While
    } else if w == String::from_str("return") {
        Token::Return
    } else if w == String::from_str("print") {
        Token::Print
    } else if w == String::from_str("true") {
        Token::BoolLiteral(true)
    } else if w == String::from_str("false") {
        Token::BoolLiteral(false)
    } else {
        Token::Ident(w)
    }
}

/// The operator or delimiter that starts with `c`, and its length.
fn punct_token(c: char, eq_follows: bool) -> (r: Option<(Token, usize)>)
    ensures
        match r {
            Some((t, w)) => punct(c, eq_follows) == Some((t@, w as int)),
            None => punct(c, eq_follows) is None,
        },
{
    if c == '<' {
        Some(if eq_follows { (Token::Le, 2) } else { (Token::Lt, 1) })
    } else if c == '>' {
        Some(if eq_follows { (Token::Ge, 2) } else { (Token::Gt, 1) })
    } else if c == '=' {
        Some(if eq_follows { (Token::EqEq, 2) } else { (Token::Eq, 1) })
    } else if c == '!' && eq_follows {
        Some((Token::Ne, 2))
    } else if c == '+' {
        Some((Token::Plus, 1))
    } else if c == '-' {
        Some((Token::Minus, 1))
    } else if c == '*' {
        Some((Token::Star, 1))
    } else if c == '/' {
        Some((Token::Slash, 1))
    } else if c == '%' {
        Some((Token::Percent, 1))
    } else if c == '(' {
        Some((Token::LParen, 1))
    } else if c == ')' {
        Some((Token::RParen, 1))
    } else if c == '{' {
        Some((Token::LBrace, 1))
    } else if c == '}' {
        Some((Token::RBrace, 1))
    } else if c == '[' {
        Some((Token::LBracket, 1))
    } else if c == ']' {
        Some((Token::RBracket, 1))
    } else if c == ',' {
        Some((Token::Comma, 1))
    } else if c == ';' {
        Some((Token::Semicolon, 1))
    } else if c == '.' {
        Some((Token::Dot, 1))
    } else {
        None
    }
}

/// Scans the number that starts at `i`.
#[verifier::rlimit(50)]
fn scan_number(chars: &Vec<char>, i: usize) -> (r: Result<(Token, usize), CompileError>)
    requires
        i < chars@.len(),
        is_digit(chars@[i as int]),
    ensures
        match r {
            Ok((t, next)) => {
                &&& next == digits_end(chars@, i as int)
                &&& digits_value(chars@.subrange(i as int, next as int)) <= i64::MAX
                &&& t@ == TokenView::Number(
                    digits_value(chars@.subrange(i as int, next as int)) as i64,
                )
            },
            Err(e) => {
                &&& digits_value(chars@.subrange(i as int, digits_end(chars@, i as int)))
                    > i64::MAX
                &&& e@ == CompileErrorView::Lex("Integer literal too large"@)
            },
        },
{
    let n = chars.len();
    let mut j: usize = i;
    let mut val: i64 = 0;
    while j < n && is_digit_char(chars[j])
        invariant
            i <= j <= n == chars@.len(),
            digits_end(chars@, i as int) == digits_end(chars@, j as int),
            val == digits_value(chars@.subrange(i as int, j as int)),
        decreases n - j,
    {
        let d: i64 = (chars[j] as u32 - '0' as u32) as i64;
        proof {
            let run = chars@.subrange(i as int, j + 1);
            assert(run.drop_last() =~= chars@.subrange(i as int, j as int));
            assert(run.last() == chars@[j as int]);
            assert(digits_value(run) == val * 10 + d);
        }
        if val > (i64::MAX - d) / 10 {
            proof {
                let end = digits_end(chars@, i as int);
                lemma_ends_bounds(chars@, j + 1);
                lemma_digits_run(chars@, i as int);
                let whole = chars@.subrange(i as int, end);
                assert forall|m: int| 0 <= m < whole.len() implies is_digit(
                    #[trigger] whole[m],
                ) by {
                    assert(whole[m] == chars@[i + m]);
                }
                lemma_digits_value_monotone(whole, j + 1 - i);
                assert(whole.take(j + 1 - i) =~= chars@.subrange(i as int, j + 1));
            }
            return Err(CompileError::Lex(String::from_str("Integer literal too large")));
        }
        val = val * 10 + d;
        j += 1;
    }
    Ok((Token::Number(val), j))
}

/// A run of digits writes at least what each of its prefixes writes.
proof fn lemma_digits_value_monotone(s: Seq<char>, k: int)
    requires
        0 <= k <= s.len(),
        forall|m: int| 0 <= m < s.len() ==> is_digit(#[trigger] s[m]),
    ensures
        digits_value(s.take(k)) <= digits_value(s),
    decreases s.len(),
{
    if k < s.len() {
        lemma_digits_value_monotone(s.drop_last(), k);
        assert(s.drop_last().take(k) =~= s.take(k));
    } else {
        assert(s.take(k) =~= s);
    }
}

/// Only digits stand between a position and the end of its run of digits.
proof fn lemma_digits_run(s: Seq<char>, i: int)
    requires
        0 <= i <= s.len(),
    ensures
        forall|m: int| i <= m < digits_end(s, i) ==> is_digit(#[trigger] s[m]),
    decreases s.len() - i,
{
    if i < s.len() && is_digit(s[i]) {
        lemma_digits_run(s, i + 1);
    }
}

/// Scans the string literal whose opening quote stands at `i`.
fn scan_string(chars: &Vec<char>, i: usize) -> (r: (Token, usize))
    requires
        i < chars@.len(),
    ensures
        r.0@ == TokenView::StrLiteral(
            chars@.subrange(i + 1, quote_pos(chars@, i + 1)),
        ),
        r.1 == if quote_pos(chars@, i + 1) < chars@.len() {
            quote_pos(chars@, i + 1) + 1
        } else {
            quote_pos(chars@, i + 1)
        },
{
    let n = chars.len();
    let mut j: usize = i + 1;
    while j < n && chars[j] != '"'
        invariant
            i < j <= n == chars@.len(),
            quote_pos(chars@, i + 1) == quote_pos(chars@, j as int),
        decreases n - j,
    {
        j += 1;
    }
    let text = text_between(chars, i + 1, j);
    if j < n {
        (Token::StrLiteral(text), j + 1)
    } else {
        (Token::StrLiteral(text), j)
    }
}

/// Scans the word that starts at `i`.
fn scan_word(chars: &Vec<char>, i: usize) -> (r: (Token, usize))
    requires
        i < chars@.len(),
    ensures
        r.1 == ident_end(chars@, i + 1),
        r.0@ == word_token(chars@.subrange(i as int, r.1 as int)),
{
    let n = chars.len();
    let mut j: usize = i + 1;
    while j < n && is_ident_continue(chars[j])
        invariant
            i < j <= n == chars@.len(),
            ident_end(chars@, i + 1) == ident_end(chars@, j as int),
        decreases n - j,
    {
        j += 1;
    }
    (word_to_token(text_between(chars, i, j)), j)
}

/// The message for a character that starts no token.
fn unexpected_character(c: char) -> (e: CompileError)
    ensures
        e@ == CompileErrorView::Lex("Unexpected character '"@ + seq![c] + "'"@),
{
    let mut msg = String::from_str("Unexpected character '");
    msg.push(c);
    msg.append("'");
    assert(msg@ =~= "Unexpected character '"@ + seq![c] + "'"@);
    CompileError::Lex(msg)
}

/// Scans what stands at position `i`: white space (no token), a token, or
/// an error; with the position after it.
#[verifier::rlimit(50)]
fn scan_at(chars: &Vec<char>, i: usize) -> (r: Result<(Option<Token>, usize), CompileError>)
    requires
        i < chars@.len(),
    ensures
        match r {
            Ok((None, next)) => scan(chars@, i as int) == Scan::Skip(next as int),
            Ok((Some(t), next)) => scan(chars@, i as int) == Scan::Token(t@, next as int),
            Err(e) => e@ is Lex && scan(chars@, i as int) == Scan::Fail(e@.message()),
        },
{
    let n = chars.len();
    let c = chars[i];
    let eq_follows = i + 1 < n && chars[i + 1] == '=';
    if is_space_char(c) {
        return Ok((None, i + 1));
    }
    if let Some((t, width)) = punct_token(c, eq_follows) {
        return Ok((Some(t), i + width));
    }
    if c == '!' {
        Err(CompileError::Lex(String::from_str("Unexpected '!'")))
    } else if c == '"' {
        let (t, next) = scan_string(chars, i);
        Ok((Some(t), next))
    } else if is_digit_char(c) {
        let (t, next) = scan_number(chars, i)?;
        Ok((Some(t), next))
    } else if is_ident_start(c) {
        let (t, next) = scan_word(chars, i);
        Ok((Some(t), next))
    } else {
        Err(unexpected_character(c))
    }
}

/// Turns a source text into its tokens, the end marker last, or fails at
/// the first character that starts no token and at a number that does not
/// fit in 64 bits.
#[verifier::rlimit(50)]
pub fn lex(input: &str) -> (r: Result<Vec<Token>, CompileError>)
    ensures
        lexed_view(r) == lex_spec(input@),
        match r {
            Ok(tokens) => tokens@.len() > 0 && tokens@.last()@ == TokenView::EOF,
            Err(e) => e@ is Lex,
        },
{
    proof {
        lemma_lex_ends_with_eof(input@);
        lemma_lex_fails_lexically(input@, 0, Seq::empty());
    }
    let chars = chars_of(input);
    let n = chars.len();
    let mut tokens: Vec<Token> = Vec::new();
    let mut i: usize = 0;
    assert(tokens_view(tokens@) =~= Seq::empty());
    while i < n
        invariant
            i <= n == chars@.len(),
            chars@ == input@,
            lex_from(chars@, i as int, tokens_view(tokens@)) == lex_spec(input@),
        decreases n - i,
    {
        proof {
            lemma_scan_advances(chars@, i as int);
        }
        match scan_at(&chars, i) {
            Ok((None, next)) => {
                i = next;
            },
            Ok((Some(t), next)) => {
                proof {
                    assert(tokens_view(tokens@.push(t)) =~= tokens_view(tokens@).push(t@));
                }
                tokens.push(t);
                i = next;
            },
            Err(e) => {
                return Err(e);
            },
        }
    }
    proof {
        assert(tokens_view(tokens@.push(Token::EOF)) =~= tokens_view(tokens@).push(
            TokenView::EOF,
        ));
    }
    tokens.push(Token::EOF);
    Ok(tokens)
}

} // verus!
