//! Recursive-descent parsing: tokens to a syntax tree.
//!
//! In a block every statement is followed by a semicolon; only after a
//! conditional or a loop, which ends in a block of its own, may it be
//! left out. At the top level the semicolon after a statement may always
//! be left out.
//!
//! The grammar is given as specification functions over a sequence of
//! tokens and a position; each returns the tree it reads and the position
//! after it, or the first error. Beyond the end of the sequence every
//! position holds the end marker. The parser computes exactly these
//! functions.

use crate::ast::{
    exprs_view, functions_view, lemma_exprs_view_push, lemma_stmts_view_push, names_view,
    stmts_view, BinOp, Expr, ExprView, Function, FunctionView, Program, ProgramView, Statement,
    StatementView, UnOp,
};
use crate::error::{CompileError, CompileErrorView};
use crate::lexer::{token_text, tokens_view, Token, TokenView};
use crate::text::{join2, join3};
use vstd::prelude::*;
use vstd::string::*;

verus! {

/// The token at a position; the end marker beyond the end.
pub open spec fn tok_at(ts: Seq<TokenView>, pos: int) -> TokenView {
    if 0 <= pos < ts.len() {
        ts[pos]
    } else {
        TokenView::EOF
    }
}

/// How many tokens stand at or after a position.
pub open spec fn remaining(ts: Seq<TokenView>, pos: int) -> nat {
    if 0 <= pos < ts.len() {
        (ts.len() - pos) as nat
    } else {
        0
    }
}

/// Whether reading from `from` to `to` consumed at least one token.
pub open spec fn advanced(ts: Seq<TokenView>, from: int, to: int) -> bool {
    0 <= from < to && from < ts.len()
}

/// The error of a grammar function that returned without consuming a token.
/// No grammar function does: see [`lemma_grammar_never_stalls`].
pub open spec fn stalled() -> CompileErrorView {
    CompileErrorView::Parse("no progress"@)
}

/// The error for a token other than the one the grammar asks for.
pub open spec fn expected_error(want: TokenView, found: TokenView) -> CompileErrorView {
    CompileErrorView::Parse("Expected "@ + token_text(want) + ", found "@ + token_text(found))
}

/// The error for a token that starts no expression.
pub open spec fn factor_error(found: TokenView) -> CompileErrorView {
    CompileErrorView::Parse("Unexpected token in factor: "@ + token_text(found))
}

/// The binary operator that a token writes at one level of precedence:
/// 0 equality, 1 relational, 2 additive, 3 multiplicative.
pub open spec fn binop_at(level: nat, t: TokenView) -> Option<BinOp> {
    if level == 0 {
        match t {
            TokenView::EqEq => Some(BinOp::Eq),
            TokenView::Ne => Some(BinOp::Ne),
            _ => None,
        }
    } else if level == 1 {
        match t {
            TokenView::Lt => Some(BinOp::Lt),
            TokenView::Le => Some(BinOp::Le),
            TokenView::Gt => Some(BinOp::Gt),
            TokenView::Ge => Some(BinOp::Ge),
            _ => None,
        }
    } else if level == 2 {
        match t {
            TokenView::Plus => Some(BinOp::Add),
            TokenView::Minus => Some(BinOp::Sub),
            _ => None,
        }
    } else if level == 3 {
        match t {
            TokenView::Star => Some(BinOp::Mul),
            TokenView::Slash => Some(BinOp::Div),
            TokenView::Percent => Some(BinOp::Rem),
            _ => None,
        }
    } else {
        None
    }
}

/// The order of a precedence level among the grammar functions, for their
/// termination.
pub open spec fn level_rank(level: nat) -> nat {
    if level < 4 {
        (10 - level) as nat
    } else {
        6
    }
}

/// An expression: the lowest level of precedence.
pub open spec fn expr(ts: Seq<TokenView>, pos: int) -> Result<(ExprView, int), CompileErrorView>
    decreases remaining(ts, pos), 11nat,
{
    binary(ts, pos, 0)
}

/// An expression of one level of precedence: operands of the next level,
/// joined from the left by the operators of this one. Beyond the
/// multiplicative level stands the factor.
pub open spec fn binary(ts: Seq<TokenView>, pos: int, level: nat) -> Result<
    (ExprView, int),
    CompileErrorView,
>
    decreases remaining(ts, pos), level_rank(level),
{
    if level >= 4 {
        factor(ts, pos)
    } else {
        match binary(ts, pos, level + 1) {
            Ok((lhs, p)) => if advanced(ts, pos, p) {
                binary_rest(ts, p, level, lhs)
            } else {
                Err(stalled())
            },
            Err(e) => Err(e),
        }
    }
}

/// What follows a left operand at one level: while an operator of the level
/// stands at the position, a right operand joins what was read.
pub open spec fn binary_rest(ts: Seq<TokenView>, pos: int, level: nat, lhs: ExprView) -> Result<
    (ExprView, int),
    CompileErrorView,
>
    decreases remaining(ts, pos), 0nat,
{
    match binop_at(level, tok_at(ts, pos)) {
        Some(op) => match binary(ts, pos + 1, level + 1) {
            Ok((rhs, p)) => if advanced(ts, pos, p) {
                binary_rest(
                    ts,
                    p,
                    level,
                    ExprView::Binary { op, left: Box::new(lhs), right: Box::new(rhs) },
                )
            } else {
                Err(stalled())
            },
            Err(e) => Err(e),
        },
        None => Ok((lhs, pos)),
    }
}

/// A factor: a signed factor, a literal, a variable, a call, an index, a
/// length, a parenthesized expression or an array literal.
pub open spec fn factor(ts: Seq<TokenView>, pos: int) -> Result<(ExprView, int), CompileErrorView>
    decreases remaining(ts, pos), 5nat,
{
    match tok_at(ts, pos) {
        TokenView::Plus => match factor(ts, pos + 1) {
            Ok((e, p)) => Ok((ExprView::Unary { op: UnOp::Pos, expr: Box::new(e) }, p)),
            Err(e) => Err(e),
        },
        TokenView::Minus => match factor(ts, pos + 1) {
            Ok((e, p)) => Ok((ExprView::Unary { op: UnOp::Neg, expr: Box::new(e) }, p)),
            Err(e) => Err(e),
        },
        TokenView::Number(n) => Ok((ExprView::Number(n), pos + 1)),
        TokenView::BoolLiteral(b) => Ok((ExprView::Bool(b), pos + 1)),
        TokenView::StrLiteral(s) => Ok((ExprView::StrLiteral(s), pos + 1)),
        TokenView::Ident(name) => match tok_at(ts, pos + 1) {
            TokenView::LParen => if name == "length"@ {
                match expr(ts, pos + 2) {
                    Ok((e, p)) => if tok_at(ts, p) == TokenView::RParen {
                        Ok((ExprView::Length { array: Box::new(e) }, p + 1))
                    } else {
                        Err(expected_error(TokenView::RParen, tok_at(ts, p)))
                    },
                    Err(e) => Err(e),
                }
            } else {
                match expr_list(ts, pos + 2, TokenView::RParen) {
                    Ok((args, p)) => Ok((ExprView::Call { name, args }, p)),
                    Err(e) => Err(e),
                }
            },
            TokenView::LBracket => match expr(ts, pos + 2) {
                Ok((e, p)) => if tok_at(ts, p) == TokenView::RBracket {
                    Ok(
                        (
                            ExprView::Index {
                                array: Box::new(ExprView::Variable(name)),
                                index: Box::new(e),
                            },
                            p + 1,
                        ),
                    )
                } else {
                    Err(expected_error(TokenView::RBracket, tok_at(ts, p)))
                },
                Err(e) => Err(e),
            },
            _ => Ok((ExprView::Variable(name), pos + 1)),
        },
        TokenView::LParen => match expr(ts, pos + 1) {
            Ok((e, p)) => if tok_at(ts, p) == TokenView::RParen {
                Ok((e, p + 1))
            } else {
                Err(expected_error(TokenView::RParen, tok_at(ts, p)))
            },
            Err(e) => Err(e),
        },
        TokenView::LBracket => match expr_list(ts, pos + 1, TokenView::RBracket) {
            Ok((elems, p)) => Ok((ExprView::ArrayLiteral(elems), p)),
            Err(e) => Err(e),
        },
        other => Err(factor_error(other)),
    }
}

/// A list of expressions separated by commas, up to and with the closing
/// token; the list may be empty.
pub open spec fn expr_list(ts: Seq<TokenView>, pos: int, close: TokenView) -> Result<
    (Seq<ExprView>, int),
    CompileErrorView,
>
    decreases remaining(ts, pos), 13nat,
{
    if tok_at(ts, pos) == close {
        Ok((Seq::empty(), pos + 1))
    } else {
        expr_list_rest(ts, pos, close, Seq::empty())
    }
}

/// The rest of a list of expressions after the elements `acc`: one
/// expression, then a comma and more, or the closing token.
pub open spec fn expr_list_rest(
    ts: Seq<TokenView>,
    pos: int,
    close: TokenView,
    acc: Seq<ExprView>,
) -> Result<(Seq<ExprView>, int), CompileErrorView>
    decreases remaining(ts, pos), 12nat,
{
    match expr(ts, pos) {
        Ok((e, p)) => if !advanced(ts, pos, p) {
            Err(stalled())
        } else if tok_at(ts, p) == TokenView::Comma {
            expr_list_rest(ts, p + 1, close, acc.push(e))
        } else if tok_at(ts, p) == close {
            Ok((acc.push(e), p + 1))
        } else {
            Err(expected_error(close, tok_at(ts, p)))
        },
        Err(e) => Err(e),
    }
}

/// The name and the value of a declaration or assignment whose name is
/// expected at `pos`: an identifier, an equals sign, an expression.
pub open spec fn binding(ts: Seq<TokenView>, pos: int, what: Seq<char>) -> Result<
    ((Seq<char>, ExprView), int),
    CompileErrorView,
>
    decreases remaining(ts, pos), 18nat,
{
    match tok_at(ts, pos) {
        TokenView::Ident(name) => if tok_at(ts, pos + 1) == TokenView::Eq {
            match expr(ts, pos + 2) {
                Ok((e, p)) => Ok(((name, e), p)),
                Err(e) => Err(e),
            }
        } else {
            Err(expected_error(TokenView::Eq, tok_at(ts, pos + 1)))
        },
        _ => Err(CompileErrorView::Parse("Expected "@ + what + " name"@)),
    }
}

/// A condition in parentheses and the block it governs, where the opening
/// parenthesis is expected at `pos`.
pub open spec fn guarded_block(ts: Seq<TokenView>, pos: int) -> Result<
    ((ExprView, Seq<StatementView>), int),
    CompileErrorView,
>
    decreases remaining(ts, pos), 18nat,
{
    if tok_at(ts, pos) != TokenView::LParen {
        Err(expected_error(TokenView::LParen, tok_at(ts, pos)))
    } else {
        match expr(ts, pos + 1) {
            Ok((cond, p)) => if !advanced(ts, pos, p) {
                Err(stalled())
            } else if tok_at(ts, p) != TokenView::RParen {
                Err(expected_error(TokenView::RParen, tok_at(ts, p)))
            } else {
                match block(ts, p + 1) {
                    Ok((body, p2)) => Ok(((cond, body), p2)),
                    Err(e) => Err(e),
                }
            },
            Err(e) => Err(e),
        }
    }
}

/// A statement, chosen by its leading token.
pub open spec fn statement(ts: Seq<TokenView>, pos: int) -> Result<
    (StatementView, int),
    CompileErrorView,
>
    decreases remaining(ts, pos), 19nat,
{
    match tok_at(ts, pos) {
        TokenView::Var => match binding(ts, pos + 1, "var"@) {
            Ok(((name, expr), p)) => Ok((StatementView::VarDecl { name, expr }, p)),
            Err(e) => Err(e),
        },
        TokenView::Let => match binding(ts, pos + 1, "let"@) {
            Ok(((name, expr), p)) => Ok((StatementView::LetDecl { name, expr }, p)),
            Err(e) => Err(e),
        },
        TokenView::If => match guarded_block(ts, pos + 1) {
            Ok(((cond, then_branch), p)) => if tok_at(ts, p) == TokenView::Else {
                if advanced(ts, pos, p) {
                    match block(ts, p + 1) {
                        Ok((els, p2)) => Ok(
                            (
                                StatementView::If { cond, then_branch, else_branch: Some(els) },
                                p2,
                            ),
                        ),
                        Err(e) => Err(e),
                    }
                } else {
                    Err(stalled())
                }
            } else {
                Ok((StatementView::If { cond, then_branch, else_branch: None }, p))
            },
            Err(e) => Err(e),
        },
        TokenView::While => match guarded_block(ts, pos + 1) {
            Ok(((cond, body), p)) => Ok((StatementView::While { cond, body }, p)),
            Err(e) => Err(e),
        },
        TokenView::Return => match expr(ts, pos + 1) {
            Ok((expr, p)) => Ok((StatementView::Return { expr }, p)),
            Err(e) => Err(e),
        },
        TokenView::Print => match expr(ts, pos + 1) {
            Ok((expr, p)) => Ok((StatementView::Print { expr }, p)),
            Err(e) => Err(e),
        },
        TokenView::Ident(name) => match tok_at(ts, pos + 1) {
            TokenView::Eq => match expr(ts, pos + 2) {
                Ok((expr, p)) => Ok((StatementView::Assign { name, expr }, p)),
                Err(e) => Err(e),
            },
            TokenView::LBracket => match expr(ts, pos + 2) {
                Ok((index, p)) => if !advanced(ts, pos, p) {
                    Err(stalled())
                } else if tok_at(ts, p) != TokenView::RBracket {
                    Err(expected_error(TokenView::RBracket, tok_at(ts, p)))
                } else if tok_at(ts, p + 1) != TokenView::Eq {
                    Err(expected_error(TokenView::Eq, tok_at(ts, p + 1)))
                } else {
                    match expr(ts, p + 2) {
                        Ok((expr, p2)) => Ok(
                            (
                                StatementView::IndexedAssign {
                                    array: ExprView::Variable(name),
                                    index,
                                    expr,
                                },
                                p2,
                            ),
                        ),
                        Err(e) => Err(e),
                    }
                },
                Err(e) => Err(e),
            },
            _ => match expr(ts, pos) {
                Ok((e, p)) => Ok((StatementView::ExprStmt(e), p)),
                Err(e) => Err(e),
            },
        },
        _ => match expr(ts, pos) {
            Ok((e, p)) => Ok((StatementView::ExprStmt(e), p)),
            Err(e) => Err(e),
        },
    }
}

/// A block: statements in braces, each followed by its semicolon.
pub open spec fn block(ts: Seq<TokenView>, pos: int) -> Result<
    (Seq<StatementView>, int),
    CompileErrorView,
>
    decreases remaining(ts, pos), 17nat,
{
    if tok_at(ts, pos) == TokenView::LBrace {
        block_rest(ts, pos + 1, Seq::empty())
    } else {
        Err(expected_error(TokenView::LBrace, tok_at(ts, pos)))
    }
}

/// Whether a statement ends in a block of its own: a conditional or a
/// loop.
pub open spec fn ends_in_block(s: StatementView) -> bool {
    s is If || s is While
}

/// The rest of a block after the statements `acc`: the closing brace, or a
/// statement, its semicolon and more. The semicolon may be left out only
/// after a statement that ends in a block of its own.
pub open spec fn block_rest(ts: Seq<TokenView>, pos: int, acc: Seq<StatementView>) -> Result<
    (Seq<StatementView>, int),
    CompileErrorView,
>
    decreases remaining(ts, pos), 20nat,
{
    if tok_at(ts, pos) == TokenView::RBrace {
        Ok((acc, pos + 1))
    } else {
        match statement(ts, pos) {
            Ok((s, p)) => if !advanced(ts, pos, p) {
                Err(stalled())
            } else if tok_at(ts, p) == TokenView::Semicolon {
                block_rest(ts, p + 1, acc.push(s))
            } else if ends_in_block(s) {
                block_rest(ts, p, acc.push(s))
            } else {
                Err(expected_error(TokenView::Semicolon, tok_at(ts, p)))
            },
            Err(e) => Err(e),
        }
    }
}

/// The parameter names of a function after the names `acc`: a name, then
/// a comma and more, or the end of the list.
pub open spec fn params_rest(ts: Seq<TokenView>, pos: int, acc: Seq<Seq<char>>) -> Result<
    (Seq<Seq<char>>, int),
    CompileErrorView,
>
    decreases remaining(ts, pos),
{
    match tok_at(ts, pos) {
        TokenView::Ident(name) => if tok_at(ts, pos + 1) == TokenView::Comma {
            params_rest(ts, pos + 2, acc.push(name))
        } else {
            Ok((acc.push(name), pos + 1))
        },
        _ => Err(CompileErrorView::Parse("Expected parameter name"@)),
    }
}

/// A function declaration: `fn`, a name, the parameter names in
/// parentheses, and a block.
pub open spec fn function(ts: Seq<TokenView>, pos: int) -> Result<
    (FunctionView, int),
    CompileErrorView,
> {
    if tok_at(ts, pos) != TokenView::Fn {
        Err(expected_error(TokenView::Fn, tok_at(ts, pos)))
    } else {
        match tok_at(ts, pos + 1) {
            TokenView::Ident(name) => if tok_at(ts, pos + 2) != TokenView::LParen {
                Err(expected_error(TokenView::LParen, tok_at(ts, pos + 2)))
            } else {
                let params = if tok_at(ts, pos + 3) == TokenView::RParen {
                    Ok((Seq::empty(), pos + 3))
                } else {
                    params_rest(ts, pos + 3, Seq::empty())
                };
                match params {
                    Ok((params, p)) => if tok_at(ts, p) != TokenView::RParen {
                        Err(expected_error(TokenView::RParen, tok_at(ts, p)))
                    } else {
                        match block(ts, p + 1) {
                            Ok((body, p2)) => Ok((FunctionView { name, params, body }, p2)),
                            Err(e) => Err(e),
                        }
                    },
                    Err(e) => Err(e),
                }
            },
            _ => Err(CompileErrorView::Parse("Expected function name"@)),
        }
    }
}

/// The rest of a program after the functions and statements read so far:
/// the end marker, a function, or a statement with an optional semicolon.
pub open spec fn program_rest(
    ts: Seq<TokenView>,
    pos: int,
    functions: Seq<FunctionView>,
    statements: Seq<StatementView>,
) -> Result<(ProgramView, int), CompileErrorView>
    decreases remaining(ts, pos),
{
    if tok_at(ts, pos) == TokenView::EOF {
        Ok((ProgramView { functions, statements }, pos))
    } else if tok_at(ts, pos) == TokenView::Fn {
        match function(ts, pos) {
            Ok((f, p)) => if advanced(ts, pos, p) {
                program_rest(ts, p, functions.push(f), statements)
            } else {
                Err(stalled())
            },
            Err(e) => Err(e),
        }
    } else {
        match statement(ts, pos) {
            Ok((s, p)) => if advanced(ts, pos, p) {
                program_rest(
                    ts,
                    if tok_at(ts, p) == TokenView::Semicolon {
                        p + 1
                    } else {
                        p
                    },
                    functions,
                    statements.push(s),
                )
            } else {
                Err(stalled())
            },
            Err(e) => Err(e),
        }
    }
}

/// A whole program, read from a position on.
pub open spec fn program(ts: Seq<TokenView>, pos: int) -> Result<
    (ProgramView, int),
    CompileErrorView,
> {
    program_rest(ts, pos, Seq::empty(), Seq::empty())
}

/// Whether an error is one that the grammar reports for its input: its
/// message starts with a capital letter, which that of [`stalled`] does
/// not.
pub open spec fn reported(e: CompileErrorView) -> bool {
    e is Parse && e->Parse_0.len() > 0 && e->Parse_0[0] != 'n'
}

/// Whether a result of a grammar function read from `pos` shows
/// progress: a success consumed a token, and a failure is an error that
/// the grammar reports.
pub open spec fn progressed<T>(
    r: Result<(T, int), CompileErrorView>,
    ts: Seq<TokenView>,
    pos: int,
) -> bool {
    match r {
        Ok((_, p)) => advanced(ts, pos, p),
        Err(e) => reported(e),
    }
}

/// The errors that the grammar reports are not the error of a stall.
pub proof fn lemma_errors_are_reported()
    ensures
        !reported(stalled()),
        forall|want: TokenView, found: TokenView| reported(#[trigger] expected_error(want, found)),
        forall|found: TokenView| reported(#[trigger] factor_error(found)),
        forall|what: Seq<char>|
            reported(CompileErrorView::Parse(#[trigger] ("Expected "@ + what + " name"@))),
        reported(CompileErrorView::Parse("Expected parameter name"@)),
        reported(CompileErrorView::Parse("Expected function name"@)),
{
    reveal_strlit("no progress");
    reveal_strlit("Expected ");
    reveal_strlit("Unexpected token in factor: ");
    reveal_strlit("Expected parameter name");
    reveal_strlit("Expected function name");
    assert forall|want: TokenView, found: TokenView| reported(
        #[trigger] expected_error(want, found),
    ) by {
        let m = "Expected "@ + token_text(want) + ", found "@ + token_text(found);
        assert(m[0] == "Expected "@[0]);
    }
    assert forall|found: TokenView| reported(#[trigger] factor_error(found)) by {
        let m = "Unexpected token in factor: "@ + token_text(found);
        assert(m[0] == "Unexpected token in factor: "@[0]);
    }
    assert forall|what: Seq<char>|
        reported(CompileErrorView::Parse(#[trigger] ("Expected "@ + what + " name"@))) by {
        let m = "Expected "@ + what + " name"@;
        assert(m[0] == "Expected "@[0]);
    }
}

/// An expression of one level of precedence shows progress.
pub proof fn lemma_binary_advances(ts: Seq<TokenView>, pos: int, level: nat)
    ensures
        progressed(binary(ts, pos, level), ts, pos),
    decreases remaining(ts, pos), level_rank(level),
{
    lemma_errors_are_reported();
    if level >= 4 {
        lemma_factor_advances(ts, pos);
    } else {
        lemma_binary_advances(ts, pos, level + 1);
        match binary(ts, pos, level + 1) {
            Ok((lhs, p)) => {
                lemma_binary_rest_advances(ts, p, level, lhs);
            },
            Err(_) => {},
        }
    }
}

/// What follows a left operand does not go back, and fails only with an
/// error that the grammar reports.
pub proof fn lemma_binary_rest_advances(ts: Seq<TokenView>, pos: int, level: nat, lhs: ExprView)
    ensures
        match binary_rest(ts, pos, level, lhs) {
            Ok((_, p)) => p >= pos,
            Err(e) => reported(e),
        },
    decreases remaining(ts, pos), 0nat,
{
    lemma_errors_are_reported();
    match binop_at(level, tok_at(ts, pos)) {
        Some(op) => {
            lemma_binary_advances(ts, pos + 1, level + 1);
            match binary(ts, pos + 1, level + 1) {
                Ok((rhs, p)) => {
                    lemma_binary_rest_advances(
                        ts,
                        p,
                        level,
                        ExprView::Binary { op, left: Box::new(lhs), right: Box::new(rhs) },
                    );
                },
                Err(_) => {},
            }
        },
        None => {},
    }
}

/// An expression shows progress.
pub proof fn lemma_expr_advances(ts: Seq<TokenView>, pos: int)
    ensures
        progressed(expr(ts, pos), ts, pos),
    decreases remaining(ts, pos), 11nat,
{
    lemma_binary_advances(ts, pos, 0);
}

/// A factor shows progress.
pub proof fn lemma_factor_advances(ts: Seq<TokenView>, pos: int)
    ensures
        progressed(factor(ts, pos), ts, pos),
    decreases remaining(ts, pos), 5nat,
{
    lemma_errors_are_reported();
    match tok_at(ts, pos) {
        TokenView::Plus => {
            lemma_factor_advances(ts, pos + 1);
        },
        TokenView::Minus => {
            lemma_factor_advances(ts, pos + 1);
        },
        TokenView::Ident(name) => {
            match tok_at(ts, pos + 1) {
                TokenView::LParen => {
                    if name == "length"@ {
                        lemma_expr_advances(ts, pos + 2);
                    } else {
                        lemma_expr_list_advances(ts, pos + 2, TokenView::RParen);
                    }
                },
                TokenView::LBracket => {
                    lemma_expr_advances(ts, pos + 2);
                },
                _ => {},
            }
        },
        TokenView::LParen => {
            lemma_expr_advances(ts, pos + 1);
        },
        TokenView::LBracket => {
            lemma_expr_list_advances(ts, pos + 1, TokenView::RBracket);
        },
        _ => {},
    }
}

/// A list of expressions up to a closing token shows progress.
pub proof fn lemma_expr_list_advances(ts: Seq<TokenView>, pos: int, close: TokenView)
    requires
        close != TokenView::EOF,
    ensures
        progressed(expr_list(ts, pos, close), ts, pos),
    decreases remaining(ts, pos), 13nat,
{
    if tok_at(ts, pos) != close {
        lemma_expr_list_rest_advances(ts, pos, close, Seq::empty());
    }
}

/// The rest of a list of expressions shows progress.
pub proof fn lemma_expr_list_rest_advances(
    ts: Seq<TokenView>,
    pos: int,
    close: TokenView,
    acc: Seq<ExprView>,
)
    ensures
        progressed(expr_list_rest(ts, pos, close, acc), ts, pos),
    decreases remaining(ts, pos), 12nat,
{
    lemma_errors_are_reported();
    lemma_expr_advances(ts, pos);
    match expr(ts, pos) {
        Ok((e, p)) => {
            if tok_at(ts, p) == TokenView::Comma {
                lemma_expr_list_rest_advances(ts, p + 1, close, acc.push(e));
            }
        },
        Err(_) => {},
    }
}

/// A declaration after its keyword shows progress.
pub proof fn lemma_binding_advances(ts: Seq<TokenView>, pos: int, what: Seq<char>)
    ensures
        progressed(binding(ts, pos, what), ts, pos),
    decreases remaining(ts, pos), 18nat,
{
    lemma_errors_are_reported();
    lemma_expr_advances(ts, pos + 2);
}

/// A condition and its block show progress.
pub proof fn lemma_guarded_block_advances(ts: Seq<TokenView>, pos: int)
    ensures
        progressed(guarded_block(ts, pos), ts, pos),
    decreases remaining(ts, pos), 18nat,
{
    lemma_errors_are_reported();
    if tok_at(ts, pos) == TokenView::LParen {
        lemma_expr_advances(ts, pos + 1);
        match expr(ts, pos + 1) {
            Ok((cond, p)) => {
                if tok_at(ts, p) == TokenView::RParen {
                    lemma_block_advances(ts, p + 1);
                }
            },
            Err(_) => {},
        }
    }
}

/// A statement shows progress.
pub proof fn lemma_statement_advances(ts: Seq<TokenView>, pos: int)
    ensures
        progressed(statement(ts, pos), ts, pos),
    decreases remaining(ts, pos), 19nat,
{
    lemma_errors_are_reported();
    match tok_at(ts, pos) {
        TokenView::Var => {
            lemma_binding_advances(ts, pos + 1, "var"@);
        },
        TokenView::Let => {
            lemma_binding_advances(ts, pos + 1, "let"@);
        },
        TokenView::If => {
            lemma_guarded_block_advances(ts, pos + 1);
            match guarded_block(ts, pos + 1) {
                Ok(((cond, then_branch), p)) => {
                    if tok_at(ts, p) == TokenView::Else {
                        lemma_block_advances(ts, p + 1);
                    }
                },
                Err(_) => {},
            }
        },
        TokenView::While => {
            lemma_guarded_block_advances(ts, pos + 1);
        },
        TokenView::Return => {
            lemma_expr_advances(ts, pos + 1);
        },
        TokenView::Print => {
            lemma_expr_advances(ts, pos + 1);
        },
        TokenView::Ident(name) => {
            match tok_at(ts, pos + 1) {
                TokenView::Eq => {
                    lemma_expr_advances(ts, pos + 2);
                },
                TokenView::LBracket => {
                    lemma_expr_advances(ts, pos + 2);
                    match expr(ts, pos + 2) {
                        Ok((index, p)) => {
                            if tok_at(ts, p) == TokenView::RBracket && tok_at(ts, p + 1)
                                == TokenView::Eq {
                                lemma_expr_advances(ts, p + 2);
                            }
                        },
                        Err(_) => {},
                    }
                },
                _ => {
                    lemma_expr_advances(ts, pos);
                },
            }
        },
        _ => {
            lemma_expr_advances(ts, pos);
        },
    }
}

/// A block shows progress.
pub proof fn lemma_block_advances(ts: Seq<TokenView>, pos: int)
    ensures
        progressed(block(ts, pos), ts, pos),
    decreases remaining(ts, pos), 17nat,
{
    lemma_errors_are_reported();
    if tok_at(ts, pos) == TokenView::LBrace {
        lemma_block_rest_advances(ts, pos + 1, Seq::empty());
    }
}

/// The rest of a block shows progress.
pub proof fn lemma_block_rest_advances(ts: Seq<TokenView>, pos: int, acc: Seq<StatementView>)
    ensures
        progressed(block_rest(ts, pos, acc), ts, pos),
    decreases remaining(ts, pos), 20nat,
{
    if tok_at(ts, pos) != TokenView::RBrace {
        lemma_statement_advances(ts, pos);
        match statement(ts, pos) {
            Ok((s, p)) => {
                if tok_at(ts, p) == TokenView::Semicolon {
                    lemma_block_rest_advances(ts, p + 1, acc.push(s));
                } else if ends_in_block(s) {
                    lemma_block_rest_advances(ts, p, acc.push(s));
                } else {
                    lemma_errors_are_reported();
                }
            },
            Err(_) => {},
        }
    }
}

/// The parameter names of a function fail only with an error that the
/// grammar reports, and do not go back.
pub proof fn lemma_params_advance(ts: Seq<TokenView>, pos: int, acc: Seq<Seq<char>>)
    ensures
        progressed(params_rest(ts, pos, acc), ts, pos),
    decreases remaining(ts, pos),
{
    lemma_errors_are_reported();
    match tok_at(ts, pos) {
        TokenView::Ident(name) => {
            if tok_at(ts, pos + 1) == TokenView::Comma {
                lemma_params_advance(ts, pos + 2, acc.push(name));
            }
        },
        _ => {},
    }
}

/// A function declaration shows progress.
pub proof fn lemma_function_advances(ts: Seq<TokenView>, pos: int)
    ensures
        progressed(function(ts, pos), ts, pos),
{
    lemma_errors_are_reported();
    if tok_at(ts, pos) == TokenView::Fn {
        match tok_at(ts, pos + 1) {
            TokenView::Ident(name) => {
                if tok_at(ts, pos + 2) == TokenView::LParen {
                    if tok_at(ts, pos + 3) != TokenView::RParen {
                        lemma_params_advance(ts, pos + 3, Seq::empty());
                    }
                    let params = if tok_at(ts, pos + 3) == TokenView::RParen {
                        Ok((Seq::empty(), pos + 3))
                    } else {
                        params_rest(ts, pos + 3, Seq::empty())
                    };
                    match params {
                        Ok((names, p)) => {
                            if tok_at(ts, p) == TokenView::RParen {
                                lemma_block_advances(ts, p + 1);
                            }
                        },
                        Err(_) => {},
                    }
                }
            },
            _ => {},
        }
    }
}

/// The rest of a program fails only with an error that the grammar
/// reports.
pub proof fn lemma_program_rest_reports(
    ts: Seq<TokenView>,
    pos: int,
    functions: Seq<FunctionView>,
    statements: Seq<StatementView>,
)
    ensures
        match program_rest(ts, pos, functions, statements) {
            Ok((_, p)) => p >= pos && tok_at(ts, p) == TokenView::EOF,
            Err(e) => reported(e),
        },
    decreases remaining(ts, pos),
{
    if tok_at(ts, pos) == TokenView::EOF {
    } else if tok_at(ts, pos) == TokenView::Fn {
        lemma_function_advances(ts, pos);
        match function(ts, pos) {
            Ok((f, p)) => {
                lemma_program_rest_reports(ts, p, functions.push(f), statements);
            },
            Err(_) => {},
        }
    } else {
        lemma_statement_advances(ts, pos);
        match statement(ts, pos) {
            Ok((s, p)) => {
                lemma_program_rest_reports(
                    ts,
                    if tok_at(ts, p) == TokenView::Semicolon {
                        p + 1
                    } else {
                        p
                    },
                    functions,
                    statements.push(s),
                );
            },
            Err(_) => {},
        }
    }
}

/// The grammar never stalls: whatever the tokens, a program is read up to
/// an end marker, or an error is reported that names what was expected or
/// found.
pub proof fn lemma_grammar_never_stalls(ts: Seq<TokenView>, pos: int)
    ensures
        match program(ts, pos) {
            Ok((_, p)) => tok_at(ts, p) == TokenView::EOF,
            Err(e) => reported(e) && e != stalled(),
        },
{
    lemma_errors_are_reported();
    lemma_program_rest_reports(ts, pos, Seq::empty(), Seq::empty());
}

/// A parser over a sequence of tokens: the tokens and the position of the
/// next one to read.
pub struct Parser {
    tokens: Vec<Token>,
    pos: usize,
}

/// Model of an expression or an error.
pub open spec fn expr_result(r: Result<Expr, CompileError>) -> Result<ExprView, CompileErrorView> {
    match r {
        Ok(e) => Ok(e@),
        Err(e) => Err(e@),
    }
}

/// Model of a list of expressions or an error.
pub open spec fn exprs_result(r: Result<Vec<Expr>, CompileError>) -> Result<
    Seq<ExprView>,
    CompileErrorView,
> {
    match r {
        Ok(v) => Ok(exprs_view(v@)),
        Err(e) => Err(e@),
    }
}

/// Model of a statement or an error.
pub open spec fn stmt_result(r: Result<Statement, CompileError>) -> Result<
    StatementView,
    CompileErrorView,
> {
    match r {
        Ok(s) => Ok(s@),
        Err(e) => Err(e@),
    }
}

/// Model of a block or an error.
pub open spec fn stmts_result(r: Result<Vec<Statement>, CompileError>) -> Result<
    Seq<StatementView>,
    CompileErrorView,
> {
    match r {
        Ok(v) => Ok(stmts_view(v@)),
        Err(e) => Err(e@),
    }
}

/// Model of a function or an error.
pub open spec fn function_result(r: Result<Function, CompileError>) -> Result<
    FunctionView,
    CompileErrorView,
> {
    match r {
        Ok(f) => Ok(f@),
        Err(e) => Err(e@),
    }
}

/// Model of a program or an error.
pub open spec fn program_result(r: Result<Program, CompileError>) -> Result<
    ProgramView,
    CompileErrorView,
> {
    match r {
        Ok(p) => Ok(p@),
        Err(e) => Err(e@),
    }
}

/// Whether a parser that stood at `from` and returned `got`, standing at
/// `to`, did what the grammar function's result `want` says: on success
/// the same tree and position, at least one token further; on failure the
/// same error.
pub open spec fn reads<T>(
    want: Result<(T, int), CompileErrorView>,
    got: Result<T, CompileErrorView>,
    ts: Seq<TokenView>,
    from: int,
    to: int,
) -> bool {
    match got {
        Ok(v) => want == Ok::<(T, int), CompileErrorView>((v, to)) && advanced(ts, from, to),
        Err(e) => want == Err::<(T, int), CompileErrorView>(e),
    }
}

/// Whether a parser that stood at `from` and returned `got`, standing at
/// `to`, read a whole program as the grammar says: on success the
/// program of the grammar, up to the end marker at `to`; on failure the
/// grammar's error.
pub open spec fn parses(
    ts: Seq<TokenView>,
    from: int,
    got: Result<Program, CompileError>,
    to: int,
) -> bool {
    match got {
        Ok(p) => program(ts, from) == Ok::<(ProgramView, int), CompileErrorView>((p@, to)),
        Err(e) => program(ts, from) == Err::<(ProgramView, int), CompileErrorView>(e@),
    }
}

/// Parsing is deterministic: whatever two runs of the parser return for
/// the same tokens from the same position, they return the same: trees
/// with the same model and the same end, or the same error.
pub proof fn lemma_parsing_is_deterministic(
    ts: Seq<TokenView>,
    from: int,
    first: Result<Program, CompileError>,
    first_end: int,
    second: Result<Program, CompileError>,
    second_end: int,
)
    requires
        parses(ts, from, first, first_end),
        parses(ts, from, second, second_end),
    ensures
        program_result(first) == program_result(second),
        first is Ok ==> first_end == second_end,
{
}

/// The error for a token other than the one the grammar asks for.
fn unexpected(want: &Token, found: &Token) -> (e: CompileError)
    ensures
        e@ == expected_error(want@, found@),
{
    let mut msg = join2("Expected ", want.describe().as_str());
    msg.append(", found ");
    msg.append(found.describe().as_str());
    CompileError::Parse(msg)
}

/// The binary operator that a token writes at one level of precedence.
fn binop_of(level: u8, t: &Token) -> (r: Option<BinOp>)
    ensures
        r == binop_at(level as nat, t@),
{
    if level == 0 {
        match t {
            Token::EqEq => Some(BinOp::Eq),
            Token::Ne => Some(BinOp::Ne),
            _ => None,
        }
    } else if level == 1 {
        match t {
            Token::Lt => Some(BinOp::Lt),
            Token::Le => Some(BinOp::Le),
            Token::Gt => Some(BinOp::Gt),
            Token::Ge => Some(BinOp::Ge),
            _ => None,
        }
    } else if level == 2 {
        match t {
            Token::Plus => Some(BinOp::Add),
            Token::Minus => Some(BinOp::Sub),
            _ => None,
        }
    } else if level == 3 {
        match t {
            Token::Star => Some(BinOp::Mul),
            Token::Slash => Some(BinOp::Div),
            Token::Percent => Some(BinOp::Rem),
            _ => None,
        }
    } else {
        None
    }
}

impl Parser {
    /// The tokens that the parser reads.
    pub closed spec fn tokens(&self) -> Seq<TokenView> {
        tokens_view(self.tokens@)
    }

    /// The position of the next token to read.
    pub closed spec fn position(&self) -> int {
        self.pos as int
    }

    /// A parser at the start of `tokens`.
    pub fn new(tokens: Vec<Token>) -> (p: Parser)
        ensures
            p.tokens() == tokens_view(tokens@),
            p.position() == 0,
    {
        Parser { tokens, pos: 0 }
    }

    /// The token at the position; the end marker beyond the end.
    pub fn peek(&self) -> (t: &Token)
        ensures
            t@ == tok_at(self.tokens(), self.position()),
    {
        if self.pos < self.tokens.len() {
            &self.tokens[self.pos]
        } else {
            &Token::EOF
        }
    }

    /// The token `k` places after the position; the end marker beyond the
    /// end.
    fn peek_ahead(&self, k: usize) -> (t: &Token)
        requires
            k <= 2,
        ensures
            t@ == tok_at(self.tokens(), self.position() + k),
    {
        let n = self.tokens.len();
        if self.pos < n && k < n - self.pos {
            &self.tokens[self.pos + k]
        } else {
            &Token::EOF
        }
    }

    /// Moves past the token at the position, if there is one.
    pub fn eat(&mut self)
        ensures
            final(self).tokens() == old(self).tokens(),
            final(self).position() == if old(self).position() < old(self).tokens().len() {
                old(self).position() + 1
            } else {
                old(self).position()
            },
    {
        if self.pos < self.tokens.len() {
            self.pos += 1
        }
    }

    /// Moves past the token at the position if it is `expected`, and fails
    /// otherwise, naming both.
    pub fn expect(&mut self, expected: Token) -> (r: Result<(), CompileError>)
        ensures
            final(self).tokens() == old(self).tokens(),
            match r {
                Ok(_) => {
                    &&& tok_at(old(self).tokens(), old(self).position()) == expected@
                    &&& final(self).position() == if old(self).position() < old(
                        self,
                    ).tokens().len() {
                        old(self).position() + 1
                    } else {
                        old(self).position()
                    }
                },
                Err(e) => {
                    &&& tok_at(old(self).tokens(), old(self).position()) != expected@
                    &&& e@ == expected_error(
                        expected@,
                        tok_at(old(self).tokens(), old(self).position()),
                    )
                    &&& final(self).position() == old(self).position()
                },
            },
    {
        if self.peek().same(&expected) {
            self.eat();
            Ok(())
        } else {
            Err(unexpected(&expected, self.peek()))
        }
    }

    /// Parses a whole program: functions and top-level statements up to the
    /// end marker.
    #[verifier::rlimit(50)]
    pub fn parse_program(&mut self) -> (r: Result<Program, CompileError>)
        ensures
            final(self).tokens() == old(self).tokens(),
            parses(old(self).tokens(), old(self).position(), r, final(self).position()),
            match r {
                Ok(_) => tok_at(final(self).tokens(), final(self).position()) == TokenView::EOF,
                Err(e) => reported(e@),
            },
    {
        proof {
            lemma_grammar_never_stalls(self.tokens(), self.position());
        }
        let ghost ts = self.tokens();
        let ghost start = self.position();
        let mut funcs: Vec<Function> = Vec::new();
        let mut stmts: Vec<Statement> = Vec::new();
        proof {
            assert(functions_view(funcs@) =~= Seq::empty());
            assert(stmts_view(stmts@) =~= Seq::empty());
        }
        loop
            invariant
                self.tokens() == ts,
                ts == old(self).tokens(),
                start == old(self).position(),
                match program(ts, start) {
                    Ok((_, p)) => tok_at(ts, p) == TokenView::EOF,
                    Err(e) => reported(e),
                },
                program(ts, start) == program_rest(
                    ts,
                    self.position(),
                    functions_view(funcs@),
                    stmts_view(stmts@),
                ),
            decreases remaining(ts, self.position()),
        {
            if matches!(self.peek(), Token::EOF) {
                return Ok(Program { functions: funcs, statements: stmts });
            }
            if matches!(self.peek(), Token::Fn) {
                let f = self.parse_function()?;
                proof {
                    assert(functions_view(funcs@.push(f)) =~= functions_view(funcs@).push(f@));
                }
                funcs.push(f);
            } else {
                let stmt = self.parse_statement()?;
                proof {
                    lemma_stmts_view_push(stmts@, stmt);
                }
                stmts.push(stmt);
                if matches!(self.peek(), Token::Semicolon) {
                    self.eat();
                }
            }
        }
    }

    /// Parses `fn name(p1, p2, ...) { ... }`.
    #[verifier::rlimit(50)]
    pub fn parse_function(&mut self) -> (r: Result<Function, CompileError>)
        ensures
            final(self).tokens() == old(self).tokens(),
            reads(
                function(old(self).tokens(), old(self).position()),
                function_result(r),
                old(self).tokens(),
                old(self).position(),
                final(self).position(),
            ),
    {
        let ghost ts = self.tokens();
        let ghost start = self.position();
        self.expect(Token::Fn)?;
        let name = match self.peek() {
            Token::Ident(n) => n.clone(),
            _ => {
                return Err(CompileError::Parse(String::from_str("Expected function name")));
            },
        };
        self.eat();
        self.expect(Token::LParen)?;
        let params = if matches!(self.peek(), Token::RParen) {
            let none: Vec<String> = Vec::new();
            proof {
                assert(names_view(none@) =~= Seq::empty());
            }
            none
        } else {
            self.parse_params()?
        };
        self.expect(Token::RParen)?;
        let body = self.parse_block()?;
        Ok(Function { name, params, body })
    }

    /// Parses the parameter names of a function, separated by commas.
    fn parse_params(&mut self) -> (r: Result<Vec<String>, CompileError>)
        ensures
            final(self).tokens() == old(self).tokens(),
            match r {
                Ok(names) => params_rest(old(self).tokens(), old(self).position(), Seq::empty())
                    == Ok::<(Seq<Seq<char>>, int), CompileErrorView>(
                    (names_view(names@), final(self).position()),
                ) && advanced(old(self).tokens(), old(self).position(), final(self).position()),
                Err(e) => params_rest(old(self).tokens(), old(self).position(), Seq::empty())
                    == Err::<(Seq<Seq<char>>, int), CompileErrorView>(e@),
            },
    {
        let ghost ts = self.tokens();
        let ghost start = self.position();
        let mut params: Vec<String> = Vec::new();
        proof {
            assert(names_view(params@) =~= Seq::empty());
        }
        loop
            invariant
                self.tokens() == ts,
                ts == old(self).tokens(),
                start == old(self).position(),
                0 <= start <= self.position(),
                params_rest(ts, start, Seq::empty()) == params_rest(
                    ts,
                    self.position(),
                    names_view(params@),
                ),
            decreases remaining(ts, self.position()),
        {
            match self.peek() {
                Token::Ident(n) => {
                    let n = n.clone();
                    proof {
                        assert(names_view(params@.push(n)) =~= names_view(params@).push(n@));
                    }
                    params.push(n);
                    self.eat();
                },
                _ => {
                    return Err(CompileError::Parse(String::from_str("Expected parameter name")));
                },
            }
            if matches!(self.peek(), Token::Comma) {
                self.eat();
            } else {
                return Ok(params);
            }
        }
    }

    /// Parses a block `{ stmt; stmt; ... }`. Every statement needs its
    /// semicolon, but a conditional or a loop, after which it may be left
    /// out.
    #[verifier::rlimit(50)]
    pub fn parse_block(&mut self) -> (r: Result<Vec<Statement>, CompileError>)
        ensures
            final(self).tokens() == old(self).tokens(),
            reads(
                block(old(self).tokens(), old(self).position()),
                stmts_result(r),
                old(self).tokens(),
                old(self).position(),
                final(self).position(),
            ),
        decreases remaining(old(self).tokens(), old(self).position()), 27nat,
    {
        let ghost ts = self.tokens();
        let ghost start = self.position();
        self.expect(Token::LBrace)?;
        let mut v: Vec<Statement> = Vec::new();
        proof {
            assert(stmts_view(v@) =~= Seq::empty());
        }
        while !matches!(self.peek(), Token::RBrace)
            invariant
                self.tokens() == ts,
                ts == old(self).tokens(),
                start == old(self).position(),
                advanced(ts, start, self.position()),
                block(ts, start) == block_rest(ts, self.position(), stmts_view(v@)),
            decreases remaining(ts, self.position()),
        {
            let stmt = self.parse_statement()?;
            if matches!(stmt, Statement::If { .. } | Statement::While { .. }) {
                if matches!(self.peek(), Token::Semicolon) {
                    self.eat();
                }
            } else {
                self.expect(Token::Semicolon)?;
            }
            proof {
                lemma_stmts_view_push(v@, stmt);
            }
            v.push(stmt);
        }
        self.expect(Token::RBrace)?;
        Ok(v)
    }

    /// Parses the name, the equals sign and the value of a declaration.
    fn parse_binding(&mut self, what: &str) -> (r: Result<(String, Expr), CompileError>)
        ensures
            final(self).tokens() == old(self).tokens(),
            match r {
                Ok((name, e)) => binding(old(self).tokens(), old(self).position(), what@) == Ok::<
                    ((Seq<char>, ExprView), int),
                    CompileErrorView,
                >(((name@, e@), final(self).position())) && advanced(
                    old(self).tokens(),
                    old(self).position(),
                    final(self).position(),
                ),
                Err(e) => binding(old(self).tokens(), old(self).position(), what@) == Err::<
                    ((Seq<char>, ExprView), int),
                    CompileErrorView,
                >(e@),
            },
        decreases remaining(old(self).tokens(), old(self).position()), 28nat,
    {
        let name = match self.peek() {
            Token::Ident(n) => n.clone(),
            _ => {
                return Err(CompileError::Parse(join3("Expected ", what, " name")));
            },
        };
        self.eat();
        self.expect(Token::Eq)?;
        let e = self.parse_expr()?;
        Ok((name, e))
    }

    /// Parses a condition in parentheses and the block that it governs.
    fn parse_guarded_block(&mut self) -> (r: Result<(Expr, Vec<Statement>), CompileError>)
        ensures
            final(self).tokens() == old(self).tokens(),
            match r {
                Ok((cond, body)) => guarded_block(old(self).tokens(), old(self).position()) == Ok::<
                    ((ExprView, Seq<StatementView>), int),
                    CompileErrorView,
                >(((cond@, stmts_view(body@)), final(self).position())) && advanced(
                    old(self).tokens(),
                    old(self).position(),
                    final(self).position(),
                ),
                Err(e) => guarded_block(old(self).tokens(), old(self).position()) == Err::<
                    ((ExprView, Seq<StatementView>), int),
                    CompileErrorView,
                >(e@),
            },
        decreases remaining(old(self).tokens(), old(self).position()), 28nat,
    {
        self.expect(Token::LParen)?;
        let cond = self.parse_expr()?;
        self.expect(Token::RParen)?;
        let body = self.parse_block()?;
        Ok((cond, body))
    }

    /// Parses one statement, chosen by its leading token.
    #[verifier::rlimit(50)]
    pub fn parse_statement(&mut self) -> (r: Result<Statement, CompileError>)
        ensures
            final(self).tokens() == old(self).tokens(),
            reads(
                statement(old(self).tokens(), old(self).position()),
                stmt_result(r),
                old(self).tokens(),
                old(self).position(),
                final(self).position(),
            ),
        decreases remaining(old(self).tokens(), old(self).position()), 29nat,
    {
        let ghost ts = self.tokens();
        let ghost start = self.position();
        match self.peek() {
            Token::Var => {
                self.eat();
                let (name, expr) = self.parse_binding("var")?;
                Ok(Statement::VarDecl { name, expr })
            },
            Token::Let => {
                self.eat();
                let (name, expr) = self.parse_binding("let")?;
                Ok(Statement::LetDecl { name, expr })
            },
            Token::If => {
                self.eat();
                let (cond, then_branch) = self.parse_guarded_block()?;
                let else_branch = if matches!(self.peek(), Token::Else) {
                    self.eat();
                    Some(self.parse_block()?)
                } else {
                    None
                };
                Ok(Statement::If { cond, then_branch, else_branch })
            },
            Token::While => {
                self.eat();
                let (cond, body) = self.parse_guarded_block()?;
                Ok(Statement::While { cond, body })
            },
            Token::Return => {
                self.eat();
                let expr = self.parse_expr()?;
                Ok(Statement::Return { expr })
            },
            Token::Print => {
                self.eat();
                let expr = self.parse_expr()?;
                Ok(Statement::Print { expr })
            },
            Token::Ident(name) => {
                if matches!(self.peek_ahead(1), Token::Eq) {
                    let name = name.clone();
                    self.eat();
                    self.eat();
                    let expr = self.parse_expr()?;
                    Ok(Statement::Assign { name, expr })
                } else if matches!(self.peek_ahead(1), Token::LBracket) {
                    let name = name.clone();
                    self.eat();
                    self.eat();
                    let index = self.parse_expr()?;
                    self.expect(Token::RBracket)?;
                    self.expect(Token::Eq)?;
                    let expr = self.parse_expr()?;
                    Ok(Statement::IndexedAssign { array: Expr::Variable(name), index, expr })
                } else {
                    let expr = self.parse_expr()?;
                    Ok(Statement::ExprStmt(expr))
                }
            },
            _ => {
                let expr = self.parse_expr()?;
                Ok(Statement::ExprStmt(expr))
            },
        }
    }

    /// Parses an expression.
    pub fn parse_expr(&mut self) -> (r: Result<Expr, CompileError>)
        ensures
            final(self).tokens() == old(self).tokens(),
            reads(
                expr(old(self).tokens(), old(self).position()),
                expr_result(r),
                old(self).tokens(),
                old(self).position(),
                final(self).position(),
            ),
        decreases remaining(old(self).tokens(), old(self).position()), 21nat,
    {
        self.parse_equality()
    }

    /// Parses operands joined by `==` and `!=`.
    pub fn parse_equality(&mut self) -> (r: Result<Expr, CompileError>)
        ensures
            final(self).tokens() == old(self).tokens(),
            reads(
                binary(old(self).tokens(), old(self).position(), 0),
                expr_result(r),
                old(self).tokens(),
                old(self).position(),
                final(self).position(),
            ),
        decreases remaining(old(self).tokens(), old(self).position()), 20nat,
    {
        self.parse_binary(0)
    }

    /// Parses operands joined by `<`, `<=`, `>` and `>=`.
    pub fn parse_comparison(&mut self) -> (r: Result<Expr, CompileError>)
        ensures
            final(self).tokens() == old(self).tokens(),
            reads(
                binary(old(self).tokens(), old(self).position(), 1),
                expr_result(r),
                old(self).tokens(),
                old(self).position(),
                final(self).position(),
            ),
        decreases remaining(old(self).tokens(), old(self).position()), 17nat,
    {
        self.parse_binary(1)
    }

    /// Parses operands joined by `+` and `-`.
    pub fn parse_addition(&mut self) -> (r: Result<Expr, CompileError>)
        ensures
            final(self).tokens() == old(self).tokens(),
            reads(
                binary(old(self).tokens(), old(self).position(), 2),
                expr_result(r),
                old(self).tokens(),
                old(self).position(),
                final(self).position(),
            ),
        decreases remaining(old(self).tokens(), old(self).position()), 14nat,
    {
        self.parse_binary(2)
    }

    /// Parses operands joined by `*`, `/` and `%`.
    pub fn parse_term(&mut self) -> (r: Result<Expr, CompileError>)
        ensures
            final(self).tokens() == old(self).tokens(),
            reads(
                binary(old(self).tokens(), old(self).position(), 3),
                expr_result(r),
                old(self).tokens(),
                old(self).position(),
                final(self).position(),
            ),
        decreases remaining(old(self).tokens(), old(self).position()), 11nat,
    {
        self.parse_binary(3)
    }

    /// Parses the operand of one level of precedence.
    fn parse_operand(&mut self, level: u8) -> (r: Result<Expr, CompileError>)
        requires
            level < 4,
        ensures
            final(self).tokens() == old(self).tokens(),
            reads(
                binary(old(self).tokens(), old(self).position(), level as nat + 1),
                expr_result(r),
                old(self).tokens(),
                old(self).position(),
                final(self).position(),
            ),
        decreases remaining(old(self).tokens(), old(self).position()), (18 - 3 * level) as nat,
    {
        if level == 0 {
            self.parse_comparison()
        } else if level == 1 {
            self.parse_addition()
        } else if level == 2 {
            self.parse_term()
        } else {
            self.parse_factor()
        }
    }

    /// Parses one level of precedence: operands of the next level, joined
    /// from the left by the operators of this one.
    #[verifier::rlimit(50)]
    fn parse_binary(&mut self, level: u8) -> (r: Result<Expr, CompileError>)
        requires
            level < 4,
        ensures
            final(self).tokens() == old(self).tokens(),
            reads(
                binary(old(self).tokens(), old(self).position(), level as nat),
                expr_result(r),
                old(self).tokens(),
                old(self).position(),
                final(self).position(),
            ),
        decreases remaining(old(self).tokens(), old(self).position()), (19 - 3 * level) as nat,
    {
        let ghost ts = self.tokens();
        let ghost start = self.position();
        let mut lhs = self.parse_operand(level)?;
        loop
            invariant
                level < 4,
                self.tokens() == ts,
                ts == old(self).tokens(),
                start == old(self).position(),
                advanced(ts, start, self.position()),
                binary(ts, start, level as nat) == binary_rest(
                    ts,
                    self.position(),
                    level as nat,
                    lhs@,
                ),
            decreases remaining(ts, self.position()),
        {
            let op = match binop_of(level, self.peek()) {
                Some(op) => op,
                None => {
                    return Ok(lhs);
                },
            };
            self.eat();
            let rhs = self.parse_operand(level)?;
            lhs = Expr::Binary { op, left: Box::new(lhs), right: Box::new(rhs) };
        }
    }

    /// Parses expressions separated by commas, up to and with the closing
    /// token.
    #[verifier::rlimit(50)]
    fn parse_expr_list(&mut self, close: Token) -> (r: Result<Vec<Expr>, CompileError>)
        requires
            close@ != TokenView::EOF,
        ensures
            final(self).tokens() == old(self).tokens(),
            reads(
                expr_list(old(self).tokens(), old(self).position(), close@),
                exprs_result(r),
                old(self).tokens(),
                old(self).position(),
                final(self).position(),
            ),
        decreases remaining(old(self).tokens(), old(self).position()), 23nat,
    {
        let ghost ts = self.tokens();
        let ghost start = self.position();
        let mut items: Vec<Expr> = Vec::new();
        proof {
            lemma_exprs_view_push(items@, Expr::Bool(false));
        }
        if self.peek().same(&close) {
            self.eat();
            return Ok(items);
        }
        loop
            invariant
                close@ != TokenView::EOF,
                self.tokens() == ts,
                ts == old(self).tokens(),
                start == old(self).position(),
                0 <= start <= self.position(),
                expr_list(ts, start, close@) == expr_list_rest(
                    ts,
                    self.position(),
                    close@,
                    exprs_view(items@),
                ),
            decreases remaining(ts, self.position()),
        {
            let e = self.parse_expr()?;
            proof {
                lemma_exprs_view_push(items@, e);
            }
            items.push(e);
            if matches!(self.peek(), Token::Comma) {
                self.eat();
            } else if self.peek().same(&close) {
                self.eat();
                return Ok(items);
            } else {
                return Err(unexpected(&close, self.peek()));
            }
        }
    }

    /// Parses a factor: a signed factor, a literal, a variable, a call, an
    /// index, a length, a parenthesized expression or an array literal.
    #[verifier::rlimit(50)]
    pub fn parse_factor(&mut self) -> (r: Result<Expr, CompileError>)
        ensures
            final(self).tokens() == old(self).tokens(),
            reads(
                factor(old(self).tokens(), old(self).position()),
                expr_result(r),
                old(self).tokens(),
                old(self).position(),
                final(self).position(),
            ),
        decreases remaining(old(self).tokens(), old(self).position()), 5nat,
    {
        match self.peek() {
            Token::Plus => {
                self.eat();
                let e = self.parse_factor()?;
                Ok(Expr::Unary { op: UnOp::Pos, expr: Box::new(e) })
            },
            Token::Minus => {
                self.eat();
                let e = self.parse_factor()?;
                Ok(Expr::Unary { op: UnOp::Neg, expr: Box::new(e) })
            },
            Token::Number(n) => {
                let v = *n;
                self.eat();
                Ok(Expr::Number(v))
            },
            Token::BoolLiteral(b) => {
                let v = *b;
                self.eat();
                Ok(Expr::Bool(v))
            },
            Token::StrLiteral(s) => {
                let v = s.clone();
                self.eat();
                Ok(Expr::StrLiteral(v))
            },
            Token::Ident(name) => {
                let name = name.clone();
                self.eat();
                if matches!(self.peek(), Token::LParen) {
                    self.eat();
                    if name == String::from_str("length") {
                        let e = self.parse_expr()?;
                        self.expect(Token::RParen)?;
                        Ok(Expr::Length { array: Box::new(e) })
                    } else {
                        let args = self.parse_expr_list(Token::RParen)?;
                        Ok(Expr::Call { name, args })
                    }
                } else if matches!(self.peek(), Token::LBracket) {
                    self.eat();
                    let e = self.parse_expr()?;
                    self.expect(Token::RBracket)?;
                    let array = Expr::Variable(name);
                    assert(array@ == ExprView::Variable(name@));
                    Ok(Expr::Index { array: Box::new(array), index: Box::new(e) })
                } else {
                    Ok(Expr::Variable(name))
                }
            },
            Token::LParen => {
                self.eat();
                let e = self.parse_expr()?;
                self.expect(Token::RParen)?;
                Ok(e)
            },
            Token::LBracket => {
                self.eat();
                let elems = self.parse_expr_list(Token::RBracket)?;
                Ok(Expr::ArrayLiteral(elems))
            },
            other => Err(CompileError::Parse(
                join2("Unexpected token in factor: ", other.describe().as_str()),
            )),
        }
    }
}

} // verus!
