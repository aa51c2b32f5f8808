use toylang::ast::{BinOp, Expr, Function, Program, Statement, UnOp};
use toylang::error::CompileError;
use toylang::lexer::{lex, Token};
use toylang::parser::Parser;

fn parse_text(src: &str) -> Result<Program, CompileError> {
    let tokens = lex(src)?;
    Parser::new(tokens).parse_program()
}

fn parse_error(src: &str) -> String {
    match parse_text(src) {
        Err(CompileError::Parse(m)) => m,
        other => panic!("expected a parse error, got {:?}", other),
    }
}

fn num(n: i64) -> Expr {
    Expr::Number(n)
}

fn var(name: &str) -> Expr {
    Expr::Variable(name.to_string())
}

fn bin(op: BinOp, l: Expr, r: Expr) -> Expr {
    Expr::Binary { op, left: Box::new(l), right: Box::new(r) }
}

fn only_statement(src: &str) -> Statement {
    let mut p = parse_text(src).unwrap();
    assert!(p.functions.is_empty());
    assert_eq!(p.statements.len(), 1);
    p.statements.remove(0)
}

fn expr_of(src: &str) -> Expr {
    match only_statement(src) {
        Statement::ExprStmt(e) => e,
        other => panic!("expected an expression statement, got {:?}", other),
    }
}

#[test]
fn multiplication_binds_tighter_than_addition() {
    let p = parse_text("var x = 2 + 3 * 4; print x;").unwrap();
    assert_eq!(
        p,
        Program {
            functions: vec![],
            statements: vec![
                Statement::VarDecl {
                    name: "x".to_string(),
                    expr: bin(BinOp::Add, num(2), bin(BinOp::Mul, num(3), num(4))),
                },
                Statement::Print { expr: var("x") },
            ],
        }
    );
}

#[test]
fn binary_operators_associate_to_the_left() {
    assert_eq!(expr_of("1 - 2 - 3"), bin(BinOp::Sub, bin(BinOp::Sub, num(1), num(2)), num(3)));
    assert_eq!(expr_of("8 / 4 % 3"), bin(BinOp::Rem, bin(BinOp::Div, num(8), num(4)), num(3)));
    assert_eq!(expr_of("1 < 2 < 3"), bin(BinOp::Lt, bin(BinOp::Lt, num(1), num(2)), num(3)));
    assert_eq!(expr_of("1 == 2 != 3"), bin(BinOp::Ne, bin(BinOp::Eq, num(1), num(2)), num(3)));
}

#[test]
fn precedence_from_equality_down_to_unary() {
    // a == b < c + d * -e
    let e = expr_of("a == b < c + d * -e");
    let unary = Expr::Unary { op: UnOp::Neg, expr: Box::new(var("e")) };
    let product = bin(BinOp::Mul, var("d"), unary);
    let sum = bin(BinOp::Add, var("c"), product);
    let less = bin(BinOp::Lt, var("b"), sum);
    assert_eq!(e, bin(BinOp::Eq, var("a"), less));
    assert_eq!(expr_of("a >= b"), bin(BinOp::Ge, var("a"), var("b")));
    assert_eq!(expr_of("a <= b"), bin(BinOp::Le, var("a"), var("b")));
    assert_eq!(expr_of("a > b"), bin(BinOp::Gt, var("a"), var("b")));
}

#[test]
fn unary_binds_tighter_than_any_binary() {
    let e = expr_of("-a * +b");
    assert_eq!(
        e,
        bin(
            BinOp::Mul,
            Expr::Unary { op: UnOp::Neg, expr: Box::new(var("a")) },
            Expr::Unary { op: UnOp::Pos, expr: Box::new(var("b")) },
        )
    );
    assert_eq!(
        expr_of("--1"),
        Expr::Unary {
            op: UnOp::Neg,
            expr: Box::new(Expr::Unary { op: UnOp::Neg, expr: Box::new(num(1)) }),
        }
    );
}

#[test]
fn parentheses_group() {
    assert_eq!(expr_of("(1 + 2) * 3"), bin(BinOp::Mul, bin(BinOp::Add, num(1), num(2)), num(3)));
}

#[test]
fn literals_and_variables() {
    assert_eq!(expr_of("true"), Expr::Bool(true));
    assert_eq!(expr_of("false"), Expr::Bool(false));
    assert_eq!(expr_of("\"hi\""), Expr::StrLiteral("hi".to_string()));
    assert_eq!(expr_of("x1"), var("x1"));
}

#[test]
fn calls_with_and_without_arguments() {
    assert_eq!(expr_of("f()"), Expr::Call { name: "f".to_string(), args: vec![] });
    assert_eq!(
        expr_of("f(1, x + 2, g(3))"),
        Expr::Call {
            name: "f".to_string(),
            args: vec![
                num(1),
                bin(BinOp::Add, var("x"), num(2)),
                Expr::Call { name: "g".to_string(), args: vec![num(3)] },
            ],
        }
    );
}

#[test]
fn array_literal_index_and_length() {
    assert_eq!(expr_of("[1, 2, 3]"), Expr::ArrayLiteral(vec![num(1), num(2), num(3)]));
    assert_eq!(expr_of("[]"), Expr::ArrayLiteral(vec![]));
    assert_eq!(
        expr_of("(a[i + 1])"),
        Expr::Index {
            array: Box::new(var("a")),
            index: Box::new(bin(BinOp::Add, var("i"), num(1))),
        }
    );
    assert_eq!(expr_of("length(a)"), Expr::Length { array: Box::new(var("a")) });
    assert_eq!(
        only_statement("print a[1];"),
        Statement::Print {
            expr: Expr::Index { array: Box::new(var("a")), index: Box::new(num(1)) },
        }
    );
}

#[test]
fn declarations_and_assignments() {
    assert_eq!(
        only_statement("let a = [1, 2];"),
        Statement::LetDecl {
            name: "a".to_string(),
            expr: Expr::ArrayLiteral(vec![num(1), num(2)]),
        }
    );
    assert_eq!(
        only_statement("x = x + 1;"),
        Statement::Assign { name: "x".to_string(), expr: bin(BinOp::Add, var("x"), num(1)) }
    );
    assert_eq!(
        only_statement("a[0] = 5;"),
        Statement::IndexedAssign { array: var("a"), index: num(0), expr: num(5) }
    );
    assert_eq!(only_statement("return 1"), Statement::Return { expr: num(1) });
}

#[test]
fn if_with_and_without_else() {
    assert_eq!(
        only_statement("if (x) { print 1; }"),
        Statement::If {
            cond: var("x"),
            then_branch: vec![Statement::Print { expr: num(1) }],
            else_branch: None,
        }
    );
    assert_eq!(
        only_statement("if (x < 1) { } else { y = 2; }"),
        Statement::If {
            cond: bin(BinOp::Lt, var("x"), num(1)),
            then_branch: vec![],
            else_branch: Some(vec![Statement::Assign { name: "y".to_string(), expr: num(2) }]),
        }
    );
}

#[test]
fn while_loop() {
    assert_eq!(
        only_statement("while (i < 3) { i = i + 1; }"),
        Statement::While {
            cond: bin(BinOp::Lt, var("i"), num(3)),
            body: vec![Statement::Assign {
                name: "i".to_string(),
                expr: bin(BinOp::Add, var("i"), num(1)),
            }],
        }
    );
}

#[test]
fn function_declaration() {
    let p = parse_text("fn abs(n) { if (n < 0) { return 0 - n; } return n; } print abs(5);")
        .unwrap();
    assert_eq!(
        p.functions,
        vec![Function {
            name: "abs".to_string(),
            params: vec!["n".to_string()],
            body: vec![
                Statement::If {
                    cond: bin(BinOp::Lt, var("n"), num(0)),
                    then_branch: vec![Statement::Return {
                        expr: bin(BinOp::Sub, num(0), var("n")),
                    }],
                    else_branch: None,
                },
                Statement::Return { expr: var("n") },
            ],
        }]
    );
    assert_eq!(
        p.statements,
        vec![Statement::Print { expr: Expr::Call { name: "abs".to_string(), args: vec![num(5)] } }]
    );
}

#[test]
fn function_with_several_and_with_no_parameters() {
    let p = parse_text("fn f(a, b, c) { } fn g() { }").unwrap();
    assert_eq!(p.functions.len(), 2);
    assert_eq!(p.functions[0].params, vec!["a".to_string(), "b".to_string(), "c".to_string()]);
    assert!(p.functions[1].params.is_empty());
    assert!(p.statements.is_empty());
}

#[test]
fn empty_program_is_valid() {
    assert_eq!(parse_text("").unwrap(), Program { functions: vec![], statements: vec![] });
}

#[test]
fn top_level_semicolon_is_optional() {
    let p = parse_text("print 1 print 2; print 3").unwrap();
    assert_eq!(p.statements.len(), 3);
}

#[test]
fn block_statements_need_a_semicolon() {
    assert_eq!(parse_error("if (x) { print 1 }"), "Expected Semicolon, found RBrace");
    assert_eq!(parse_error("fn f() { return 1 }"), "Expected Semicolon, found RBrace");
    assert_eq!(parse_error("while (x) { x = x - 1 }"), "Expected Semicolon, found RBrace");
    assert_eq!(parse_error("fn f() { var a = 1 let b = 2; }"), "Expected Semicolon, found Let");
    assert_eq!(parse_error("fn f(a) { a[0] = 1 }"), "Expected Semicolon, found RBrace");
    assert_eq!(parse_error("fn f(a) { g(a) }"), "Expected Semicolon, found RBrace");
    let mut p = Parser::new(lex("{ x = x - 1 }").unwrap());
    assert_eq!(
        p.parse_block(),
        Err(CompileError::Parse("Expected Semicolon, found RBrace".to_string()))
    );
    let mut p = Parser::new(lex("{ x = x - 1; }").unwrap());
    assert_eq!(
        p.parse_block(),
        Ok(vec![Statement::Assign {
            name: "x".to_string(),
            expr: bin(BinOp::Sub, var("x"), num(1)),
        }])
    );
}

#[test]
fn semicolon_is_optional_after_a_conditional_or_a_loop() {
    let with = parse_text(
        "fn f(n) { if (n < 0) { return 0 - n; }; while (n) { n = n - 1; }; return n; }",
    )
    .unwrap();
    let without = parse_text(
        "fn f(n) { if (n < 0) { return 0 - n; } while (n) { n = n - 1; } return n; }",
    )
    .unwrap();
    assert_eq!(with, without);
    assert_eq!(with.functions[0].body.len(), 3);
    assert_eq!(parse_error("fn f() { ; }"), "Unexpected token in factor: Semicolon");
    assert_eq!(parse_error("fn f() { print 1;; }"), "Unexpected token in factor: Semicolon");
}

#[test]
fn unclosed_block_fails_at_the_end() {
    assert_eq!(parse_error("if (x) { print 1;"), "Unexpected token in factor: EOF");
    assert_eq!(parse_error("fn f() {"), "Unexpected token in factor: EOF");
}

#[test]
fn errors_name_expected_and_found() {
    assert_eq!(parse_error("var = 1;"), "Expected var name");
    assert_eq!(parse_error("let 5 = 1;"), "Expected let name");
    assert_eq!(parse_error("var x 1;"), "Expected Eq, found Number(1)");
    assert_eq!(parse_error("if x { }"), "Expected LParen, found Ident(\"x\")");
    assert_eq!(parse_error("while (x { }"), "Expected RParen, found LBrace");
    assert_eq!(parse_error("if (x) print 1;"), "Expected LBrace, found Print");
    assert_eq!(parse_error("fn (a) { }"), "Expected function name");
    assert_eq!(parse_error("fn f(a, ) { }"), "Expected parameter name");
    assert_eq!(parse_error("fn f(a b) { }"), "Expected RParen, found Ident(\"b\")");
    assert_eq!(parse_error("fn f a) { }"), "Expected LParen, found Ident(\"a\")");
    assert_eq!(parse_error("f(1 2)"), "Expected RParen, found Number(2)");
    assert_eq!(parse_error("[1, 2"), "Expected RBracket, found EOF");
    assert_eq!(parse_error("a[1 = 2;"), "Expected RBracket, found Eq");
    assert_eq!(parse_error("a[1];"), "Expected Eq, found Semicolon");
    assert_eq!(parse_error("(1 + 2"), "Expected RParen, found EOF");
    assert_eq!(parse_error("length(a"), "Expected RParen, found EOF");
    assert_eq!(parse_error("x = (true \"s\")"), "Expected RParen, found StrLiteral(\"s\")");
    assert_eq!(parse_error("x = (1 true)"), "Expected RParen, found BoolLiteral(true)");
}

#[test]
fn tokens_that_start_no_expression() {
    assert_eq!(parse_error("print ;"), "Unexpected token in factor: Semicolon");
    assert_eq!(parse_error("1 + "), "Unexpected token in factor: EOF");
    assert_eq!(parse_error("print ."), "Unexpected token in factor: Dot");
    assert_eq!(parse_error("return else"), "Unexpected token in factor: Else");
    assert_eq!(parse_error("x = -9 * )"), "Unexpected token in factor: RParen");
    assert_eq!(parse_error("f(true, false, )"), "Unexpected token in factor: RParen");
}

#[test]
fn first_error_aborts() {
    assert_eq!(parse_error("var x = ; let = 3;"), "Unexpected token in factor: Semicolon");
}

#[test]
fn parsing_is_deterministic() {
    let src = "fn f(x) { return length(x); } let a = [1,2,3]; print f(a); while (a[0] < 3) { a[0] = a[0] + 1; }";
    let first = parse_text(src).unwrap();
    let second = parse_text(src).unwrap();
    assert_eq!(first, second);
    let tokens = lex(src).unwrap();
    let third = Parser::new(tokens.clone()).parse_program().unwrap();
    let fourth = Parser::new(tokens).parse_program().unwrap();
    assert_eq!(third, fourth);
    assert_eq!(first, third);
}

#[test]
fn tokens_without_end_marker_end_at_the_last_token() {
    let tokens = vec![Token::Print, Token::Number(1), Token::Semicolon];
    let p = Parser::new(tokens).parse_program().unwrap();
    assert_eq!(p.statements, vec![Statement::Print { expr: num(1) }]);
    let p = Parser::new(vec![]).parse_program().unwrap();
    assert_eq!(p, Program { functions: vec![], statements: vec![] });
}

#[test]
fn parsing_stops_at_the_first_end_marker() {
    let tokens = vec![Token::Print, Token::Number(1), Token::EOF, Token::Print, Token::EOF];
    let p = Parser::new(tokens).parse_program().unwrap();
    assert_eq!(p.statements.len(), 1);
}

#[test]
fn expression_parsers_can_be_called_alone() {
    let tokens = lex("1 + 2 * 3 == 7").unwrap();
    let mut p = Parser::new(tokens);
    let e = p.parse_expr().unwrap();
    assert_eq!(
        e,
        bin(BinOp::Eq, bin(BinOp::Add, num(1), bin(BinOp::Mul, num(2), num(3))), num(7))
    );
    assert_eq!(*p.peek(), Token::EOF);

    let mut p = Parser::new(lex("1 + 2 * 3 == 7").unwrap());
    assert_eq!(p.parse_term().unwrap(), num(1));
    assert_eq!(*p.peek(), Token::Plus);
    p.eat();
    assert_eq!(p.parse_addition().unwrap(), bin(BinOp::Mul, num(2), num(3)));
    assert!(p.expect(Token::EqEq).is_ok());
    assert_eq!(p.parse_factor().unwrap(), num(7));
    assert_eq!(
        p.expect(Token::Semicolon),
        Err(CompileError::Parse("Expected Semicolon, found EOF".to_string()))
    );
}

#[test]
fn token_descriptions() {
    assert_eq!(Token::Ident("ab".to_string()).describe(), "Ident(\"ab\")");
    assert_eq!(Token::Number(-12).describe(), "Number(-12)");
    assert_eq!(Token::Number(0).describe(), "Number(0)");
    assert_eq!(Token::Number(i64::MIN).describe(), "Number(-9223372036854775808)");
    assert_eq!(Token::Number(i64::MAX).describe(), "Number(9223372036854775807)");
    assert_eq!(Token::BoolLiteral(true).describe(), "BoolLiteral(true)");
    assert_eq!(Token::StrLiteral("s".to_string()).describe(), "StrLiteral(\"s\")");
    assert_eq!(Token::EOF.describe(), "EOF");
    assert!(Token::Ident("a".to_string()).same(&Token::Ident("a".to_string())));
    assert!(!Token::Ident("a".to_string()).same(&Token::Ident("b".to_string())));
    assert!(!Token::Ident("a".to_string()).same(&Token::StrLiteral("a".to_string())));
    assert!(Token::Comma.same(&Token::Comma));
    assert!(!Token::Comma.same(&Token::Semicolon));
}

#[test]
fn array_literal_knows_its_length() {
    assert_eq!(expr_of("[1, 2, 3]").array_len(), Some(3));
    assert_eq!(expr_of("[]").array_len(), Some(0));
    assert_eq!(expr_of("[[1, 2]]").array_len(), Some(1));
    assert_eq!(expr_of("x").array_len(), None);
    assert_eq!(expr_of("length(x)").array_len(), None);
}
