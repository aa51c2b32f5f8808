//! Signature analysis: which parameters and results are arrays.
//!
//! The language declares no types. One scan of the whole program decides,
//! for each function, whether each parameter and the result is a word or
//! an array: the result is an array where some `return` of the body gives
//! an array literal; a parameter is an array where some call of the
//! function passes an array literal or a variable known to hold an array
//! at that place, or where the body takes the parameter's `length`.
//!
//! A variable is known to hold an array from its declaration or
//! assignment with an array literal on, or as a `let` alias of such a
//! variable, or as an array parameter of a function whose signature was
//! inferred before. An array parameter that no call and no `length`
//! shows to be one is inferred to be a word. Each declaration gets a
//! signature of its own, also where two functions share a name.

use crate::ast::{
    exprs_view, names_view, stmts_view, Expr, ExprView, Function, FunctionView, Program,
    ProgramView, Statement, StatementView,
};
use crate::error::{CompileError, CompileErrorView};
use crate::text::join2;
use vstd::hash_map::StringHashMap;
use vstd::prelude::*;
use vstd::string::*;

verus! {

/// The calling convention of one function: for each parameter whether it
/// is an array, and whether the result is one.
#[derive(Debug, Clone, PartialEq, Eq)]
pub struct Signature {
    pub params: Vec<bool>,
    pub returns_array: bool,
}

/// Model of a [`Signature`].
pub struct SignatureView {
    pub params: Seq<bool>,
    pub returns_array: bool,
}

impl View for Signature {
    type V = SignatureView;

    open spec fn view(&self) -> SignatureView {
        SignatureView { params: self.params@, returns_array: self.returns_array }
    }
}

/// Model of a sequence of signatures.
pub open spec fn signatures_view(v: Seq<Signature>) -> Seq<SignatureView> {
    Seq::new(v.len(), |i: int| v[i]@)
}

/// The error for a call with more arguments than the function has
/// parameters.
pub open spec fn too_many_arguments(target: Seq<char>) -> CompileErrorView {
    CompileErrorView::Codegen("Too many arguments for function "@ + target)
}

/// Whether an argument is array-shaped: an array literal, or a variable
/// known to hold an array.
pub open spec fn array_shaped(e: ExprView, arrays: Set<Seq<char>>) -> bool {
    match e {
        ExprView::ArrayLiteral(_) => true,
        ExprView::Variable(name) => arrays.contains(name),
        _ => false,
    }
}

/// The flags after the arguments of one call of the function, from
/// argument `i` on: each array-shaped argument marks its parameter, and an
/// argument beyond the parameters is an error.
pub open spec fn mark_args(
    args: Seq<ExprView>,
    i: int,
    target: Seq<char>,
    arrays: Set<Seq<char>>,
    flags: Seq<bool>,
) -> Result<Seq<bool>, CompileErrorView>
    decreases args.len() - i,
{
    if 0 <= i < args.len() {
        if i >= flags.len() {
            Err(too_many_arguments(target))
        } else if array_shaped(args[i], arrays) {
            mark_args(args, i + 1, target, arrays, flags.update(i, true))
        } else {
            mark_args(args, i + 1, target, arrays, flags)
        }
    } else {
        Ok(flags)
    }
}

/// The flags after the calls of `target` in an expression.
pub open spec fn scan_expr(
    e: ExprView,
    target: Seq<char>,
    arrays: Set<Seq<char>>,
    flags: Seq<bool>,
) -> Result<Seq<bool>, CompileErrorView>
    decreases e, 0nat,
{
    match e {
        ExprView::Call { name, args } => match scan_exprs(args, 0, target, arrays, flags) {
            Ok(flags) => if name == target {
                mark_args(args, 0, target, arrays, flags)
            } else {
                Ok(flags)
            },
            Err(e) => Err(e),
        },
        ExprView::ArrayLiteral(elems) => scan_exprs(elems, 0, target, arrays, flags),
        ExprView::Unary { op, expr } => scan_expr(*expr, target, arrays, flags),
        ExprView::Binary { op, left, right } => match scan_expr(*left, target, arrays, flags) {
            Ok(flags) => scan_expr(*right, target, arrays, flags),
            Err(e) => Err(e),
        },
        ExprView::Index { array, index } => match scan_expr(*array, target, arrays, flags) {
            Ok(flags) => scan_expr(*index, target, arrays, flags),
            Err(e) => Err(e),
        },
        ExprView::Length { array } => scan_expr(*array, target, arrays, flags),
        _ => Ok(flags),
    }
}

/// The flags after the calls of `target` in the expressions from `i` on.
pub open spec fn scan_exprs(
    es: Seq<ExprView>,
    i: int,
    target: Seq<char>,
    arrays: Set<Seq<char>>,
    flags: Seq<bool>,
) -> Result<Seq<bool>, CompileErrorView>
    decreases es, es.len() - i,
{
    if 0 <= i < es.len() {
        match scan_expr(es[i], target, arrays, flags) {
            Ok(flags) => scan_exprs(es, i + 1, target, arrays, flags),
            Err(e) => Err(e),
        }
    } else {
        Ok(flags)
    }
}

/// The variables known to hold an array after a declaration of `name`
/// with the value `e`; `alias` says whether the declaration may alias an
/// array variable.
pub open spec fn after_declaration(
    arrays: Set<Seq<char>>,
    name: Seq<char>,
    e: ExprView,
    alias: bool,
) -> Set<Seq<char>> {
    match e {
        ExprView::ArrayLiteral(_) => arrays.insert(name),
        ExprView::Variable(v) => if alias && arrays.contains(v) {
            arrays.insert(name)
        } else {
            arrays.remove(name)
        },
        _ => arrays.remove(name),
    }
}

/// The known array variables and the flags after one statement.
pub open spec fn scan_stmt(
    s: StatementView,
    target: Seq<char>,
    arrays: Set<Seq<char>>,
    flags: Seq<bool>,
) -> Result<(Set<Seq<char>>, Seq<bool>), CompileErrorView>
    decreases s, 0nat,
{
    match s {
        StatementView::VarDecl { name, expr } => match scan_expr(expr, target, arrays, flags) {
            Ok(flags) => Ok((after_declaration(arrays, name, expr, false), flags)),
            Err(e) => Err(e),
        },
        StatementView::LetDecl { name, expr } => match scan_expr(expr, target, arrays, flags) {
            Ok(flags) => Ok((after_declaration(arrays, name, expr, true), flags)),
            Err(e) => Err(e),
        },
        StatementView::Assign { name, expr } => match scan_expr(expr, target, arrays, flags) {
            Ok(flags) => Ok(
                (
                    if expr is ArrayLiteral {
                        arrays.insert(name)
                    } else {
                        arrays
                    },
                    flags,
                ),
            ),
            Err(e) => Err(e),
        },
        StatementView::IndexedAssign { array, index, expr } => match scan_expr(
            array,
            target,
            arrays,
            flags,
        ) {
            Ok(flags) => match scan_expr(index, target, arrays, flags) {
                Ok(flags) => match scan_expr(expr, target, arrays, flags) {
                    Ok(flags) => Ok((arrays, flags)),
                    Err(e) => Err(e),
                },
                Err(e) => Err(e),
            },
            Err(e) => Err(e),
        },
        StatementView::Return { expr } => match scan_expr(expr, target, arrays, flags) {
            Ok(flags) => Ok((arrays, flags)),
            Err(e) => Err(e),
        },
        StatementView::Print { expr } => match scan_expr(expr, target, arrays, flags) {
            Ok(flags) => Ok((arrays, flags)),
            Err(e) => Err(e),
        },
        StatementView::ExprStmt(expr) => match scan_expr(expr, target, arrays, flags) {
            Ok(flags) => Ok((arrays, flags)),
            Err(e) => Err(e),
        },
        StatementView::If { cond, then_branch, else_branch } => match scan_expr(
            cond,
            target,
            arrays,
            flags,
        ) {
            Ok(flags) => match scan_stmts(then_branch, 0, target, arrays, flags) {
                Ok((arrays, flags)) => match else_branch {
                    Some(els) => scan_stmts(els, 0, target, arrays, flags),
                    None => Ok((arrays, flags)),
                },
                Err(e) => Err(e),
            },
            Err(e) => Err(e),
        },
        StatementView::While { cond, body } => match scan_expr(cond, target, arrays, flags) {
            Ok(flags) => scan_stmts(body, 0, target, arrays, flags),
            Err(e) => Err(e),
        },
    }
}

/// The known array variables and the flags after the statements from `i`
/// on, in order.
pub open spec fn scan_stmts(
    stmts: Seq<StatementView>,
    i: int,
    target: Seq<char>,
    arrays: Set<Seq<char>>,
    flags: Seq<bool>,
) -> Result<(Set<Seq<char>>, Seq<bool>), CompileErrorView>
    decreases stmts, stmts.len() - i,
{
    if 0 <= i < stmts.len() {
        match scan_stmt(stmts[i], target, arrays, flags) {
            Ok((arrays, flags)) => scan_stmts(stmts, i + 1, target, arrays, flags),
            Err(e) => Err(e),
        }
    } else {
        Ok((arrays, flags))
    }
}

/// The first place of `name` among `params`, from `i` on.
pub open spec fn param_index(params: Seq<Seq<char>>, name: Seq<char>, i: int) -> Option<int>
    decreases params.len() - i,
{
    if 0 <= i < params.len() {
        if params[i] == name {
            Some(i)
        } else {
            param_index(params, name, i + 1)
        }
    } else {
        None
    }
}

/// The flags after the uses of `length` on a parameter in an expression.
pub open spec fn hint_expr(e: ExprView, params: Seq<Seq<char>>, flags: Seq<bool>) -> Seq<bool>
    decreases e, 0nat,
{
    match e {
        ExprView::Length { array } => match *array {
            ExprView::Variable(name) => match param_index(params, name, 0) {
                Some(i) => if i < flags.len() {
                    flags.update(i, true)
                } else {
                    flags
                },
                None => flags,
            },
            other => hint_expr(other, params, flags),
        },
        ExprView::Call { name, args } => hint_exprs(args, 0, params, flags),
        ExprView::ArrayLiteral(elems) => hint_exprs(elems, 0, params, flags),
        ExprView::Unary { op, expr } => hint_expr(*expr, params, flags),
        ExprView::Binary { op, left, right } => hint_expr(
            *right,
            params,
            hint_expr(*left, params, flags),
        ),
        ExprView::Index { array, index } => hint_expr(
            *index,
            params,
            hint_expr(*array, params, flags),
        ),
        _ => flags,
    }
}

/// The flags after the uses of `length` on a parameter in the expressions
/// from `i` on.
pub open spec fn hint_exprs(es: Seq<ExprView>, i: int, params: Seq<Seq<char>>, flags: Seq<bool>) -> Seq<
    bool,
>
    decreases es, es.len() - i,
{
    if 0 <= i < es.len() {
        hint_exprs(es, i + 1, params, hint_expr(es[i], params, flags))
    } else {
        flags
    }
}

/// The flags after the uses of `length` on a parameter in a statement.
pub open spec fn hint_stmt(s: StatementView, params: Seq<Seq<char>>, flags: Seq<bool>) -> Seq<bool>
    decreases s, 0nat,
{
    match s {
        StatementView::VarDecl { name, expr } => hint_expr(expr, params, flags),
        StatementView::LetDecl { name, expr } => hint_expr(expr, params, flags),
        StatementView::Assign { name, expr } => hint_expr(expr, params, flags),
        StatementView::IndexedAssign { array, index, expr } => hint_expr(
            expr,
            params,
            hint_expr(index, params, hint_expr(array, params, flags)),
        ),
        StatementView::Return { expr } => hint_expr(expr, params, flags),
        StatementView::Print { expr } => hint_expr(expr, params, flags),
        StatementView::ExprStmt(expr) => hint_expr(expr, params, flags),
        StatementView::If { cond, then_branch, else_branch } => {
            let flags = hint_stmts(then_branch, 0, params, hint_expr(cond, params, flags));
            match else_branch {
                Some(els) => hint_stmts(els, 0, params, flags),
                None => flags,
            }
        },
        StatementView::While { cond, body } => hint_stmts(
            body,
            0,
            params,
            hint_expr(cond, params, flags),
        ),
    }
}

/// The flags after the uses of `length` on a parameter in the statements
/// from `i` on.
pub open spec fn hint_stmts(
    stmts: Seq<StatementView>,
    i: int,
    params: Seq<Seq<char>>,
    flags: Seq<bool>,
) -> Seq<bool>
    decreases stmts, stmts.len() - i,
{
    if 0 <= i < stmts.len() {
        hint_stmts(stmts, i + 1, params, hint_stmt(stmts[i], params, flags))
    } else {
        flags
    }
}

/// Whether a statement, or one nested in it, returns an array literal.
pub open spec fn returns_literal(s: StatementView) -> bool
    decreases s, 0nat,
{
    match s {
        StatementView::Return { expr } => expr is ArrayLiteral,
        StatementView::If { cond, then_branch, else_branch } => any_returns_literal(
            then_branch,
            0,
        ) || match else_branch {
            Some(els) => any_returns_literal(els, 0),
            None => false,
        },
        StatementView::While { cond, body } => any_returns_literal(body, 0),
        _ => false,
    }
}

/// Whether one of the statements from `i` on returns an array literal.
pub open spec fn any_returns_literal(stmts: Seq<StatementView>, i: int) -> bool
    decreases stmts, stmts.len() - i,
{
    if 0 <= i < stmts.len() {
        returns_literal(stmts[i]) || any_returns_literal(stmts, i + 1)
    } else {
        false
    }
}

/// The parameters of a function that its signature marks as arrays: the
/// variables known to hold an array where its body starts. A function
/// whose signature is not known yet has none.
pub open spec fn array_params(f: FunctionView, known: Seq<SignatureView>, j: int, i: int) -> Set<
    Seq<char>,
>
    decreases f.params.len() - i,
{
    if 0 <= i < f.params.len() {
        let rest = array_params(f, known, j, i + 1);
        if 0 <= j < known.len() && i < known[j].params.len() && known[j].params[i] {
            rest.insert(f.params[i])
        } else {
            rest
        }
    } else {
        Set::empty()
    }
}

/// The flags after the calls of `target` in the bodies of the functions
/// from `j` on.
pub open spec fn scan_bodies(
    functions: Seq<FunctionView>,
    j: int,
    target: Seq<char>,
    known: Seq<SignatureView>,
    flags: Seq<bool>,
) -> Result<Seq<bool>, CompileErrorView>
    decreases functions.len() - j,
{
    if 0 <= j < functions.len() {
        match scan_stmts(
            functions[j].body,
            0,
            target,
            array_params(functions[j], known, j, 0),
            flags,
        ) {
            Ok((_, flags)) => scan_bodies(functions, j + 1, target, known, flags),
            Err(e) => Err(e),
        }
    } else {
        Ok(flags)
    }
}

/// So many flags, none of them set.
pub open spec fn no_flags(n: nat) -> Seq<bool> {
    Seq::new(n, |i: int| false)
}

/// The signature of function `k` of a program, given the signatures of
/// the functions before it.
pub open spec fn infer(p: ProgramView, k: int, known: Seq<SignatureView>) -> Result<
    SignatureView,
    CompileErrorView,
> {
    let f = p.functions[k];
    match scan_bodies(p.functions, 0, f.name, known, no_flags(f.params.len())) {
        Ok(flags) => match scan_stmts(p.statements, 0, f.name, Set::empty(), flags) {
            Ok((_, flags)) => Ok(
                SignatureView {
                    params: hint_stmts(f.body, 0, f.params, flags),
                    returns_array: any_returns_literal(f.body, 0),
                },
            ),
            Err(e) => Err(e),
        },
        Err(e) => Err(e),
    }
}

/// The signatures of the functions of a program after those in `known`,
/// in the order of declaration.
pub open spec fn analyze_from(p: ProgramView, known: Seq<SignatureView>) -> Result<
    Seq<SignatureView>,
    CompileErrorView,
>
    decreases p.functions.len() - known.len(),
{
    if known.len() < p.functions.len() {
        match infer(p, known.len() as int, known) {
            Ok(sig) => analyze_from(p, known.push(sig)),
            Err(e) => Err(e),
        }
    } else {
        Ok(known)
    }
}

/// The signatures of all functions of a program, in the order of
/// declaration, or the first error.
pub open spec fn analyze(p: ProgramView) -> Result<Seq<SignatureView>, CompileErrorView> {
    analyze_from(p, Seq::empty())
}

/// Marking the arguments of a call keeps the number of flags.
pub proof fn lemma_mark_args_len(
    args: Seq<ExprView>,
    i: int,
    target: Seq<char>,
    arrays: Set<Seq<char>>,
    flags: Seq<bool>,
)
    ensures
        match mark_args(args, i, target, arrays, flags) {
            Ok(f2) => f2.len() == flags.len(),
            Err(_) => true,
        },
    decreases args.len() - i,
{
    if 0 <= i < args.len() && i < flags.len() {
        if array_shaped(args[i], arrays) {
            lemma_mark_args_len(args, i + 1, target, arrays, flags.update(i, true));
        } else {
            lemma_mark_args_len(args, i + 1, target, arrays, flags);
        }
    }
}

/// Scanning an expression keeps the number of flags.
pub proof fn lemma_scan_expr_len(
    e: ExprView,
    target: Seq<char>,
    arrays: Set<Seq<char>>,
    flags: Seq<bool>,
)
    ensures
        match scan_expr(e, target, arrays, flags) {
            Ok(f2) => f2.len() == flags.len(),
            Err(_) => true,
        },
    decreases e, 0nat,
{
    match e {
        ExprView::Call { name, args } => {
            lemma_scan_exprs_len(args, 0, target, arrays, flags);
            match scan_exprs(args, 0, target, arrays, flags) {
                Ok(f1) => {
                    lemma_mark_args_len(args, 0, target, arrays, f1);
                },
                Err(_) => {},
            }
        },
        ExprView::ArrayLiteral(elems) => {
            lemma_scan_exprs_len(elems, 0, target, arrays, flags);
        },
        ExprView::Unary { op, expr } => {
            lemma_scan_expr_len(*expr, target, arrays, flags);
        },
        ExprView::Binary { op, left, right } => {
            lemma_scan_expr_len(*left, target, arrays, flags);
            match scan_expr(*left, target, arrays, flags) {
                Ok(f1) => {
                    lemma_scan_expr_len(*right, target, arrays, f1);
                },
                Err(_) => {},
            }
        },
        ExprView::Index { array, index } => {
            lemma_scan_expr_len(*array, target, arrays, flags);
            match scan_expr(*array, target, arrays, flags) {
                Ok(f1) => {
                    lemma_scan_expr_len(*index, target, arrays, f1);
                },
                Err(_) => {},
            }
        },
        ExprView::Length { array } => {
            lemma_scan_expr_len(*array, target, arrays, flags);
        },
        _ => {},
    }
}

/// Scanning expressions keeps the number of flags.
pub proof fn lemma_scan_exprs_len(
    es: Seq<ExprView>,
    i: int,
    target: Seq<char>,
    arrays: Set<Seq<char>>,
    flags: Seq<bool>,
)
    ensures
        match scan_exprs(es, i, target, arrays, flags) {
            Ok(f2) => f2.len() == flags.len(),
            Err(_) => true,
        },
    decreases es, es.len() - i,
{
    if 0 <= i < es.len() {
        lemma_scan_expr_len(es[i], target, arrays, flags);
        match scan_expr(es[i], target, arrays, flags) {
            Ok(f1) => {
                lemma_scan_exprs_len(es, i + 1, target, arrays, f1);
            },
            Err(_) => {},
        }
    }
}

/// Scanning a statement keeps the number of flags.
pub proof fn lemma_scan_stmt_len(
    s: StatementView,
    target: Seq<char>,
    arrays: Set<Seq<char>>,
    flags: Seq<bool>,
)
    ensures
        match scan_stmt(s, target, arrays, flags) {
            Ok((_, f2)) => f2.len() == flags.len(),
            Err(_) => true,
        },
    decreases s, 0nat,
{
    match s {
        StatementView::VarDecl { name, expr } => {
            lemma_scan_expr_len(expr, target, arrays, flags);
        },
        StatementView::LetDecl { name, expr } => {
            lemma_scan_expr_len(expr, target, arrays, flags);
        },
        StatementView::Assign { name, expr } => {
            lemma_scan_expr_len(expr, target, arrays, flags);
        },
        StatementView::IndexedAssign { array, index, expr } => {
            lemma_scan_expr_len(array, target, arrays, flags);
            match scan_expr(array, target, arrays, flags) {
                Ok(f1) => {
                    lemma_scan_expr_len(index, target, arrays, f1);
                    match scan_expr(index, target, arrays, f1) {
                        Ok(f2) => {
                            lemma_scan_expr_len(expr, target, arrays, f2);
                        },
                        Err(_) => {},
                    }
                },
                Err(_) => {},
            }
        },
        StatementView::Return { expr } => {
            lemma_scan_expr_len(expr, target, arrays, flags);
        },
        StatementView::Print { expr } => {
            lemma_scan_expr_len(expr, target, arrays, flags);
        },
        StatementView::ExprStmt(expr) => {
            lemma_scan_expr_len(expr, target, arrays, flags);
        },
        StatementView::If { cond, then_branch, else_branch } => {
            lemma_scan_expr_len(cond, target, arrays, flags);
            match scan_expr(cond, target, arrays, flags) {
                Ok(f1) => {
                    lemma_scan_stmts_len(then_branch, 0, target, arrays, f1);
                    match scan_stmts(then_branch, 0, target, arrays, f1) {
                        Ok((a2, f2)) => {
                            match else_branch {
                                Some(els) => {
                                    lemma_scan_stmts_len(els, 0, target, a2, f2);
                                },
                                None => {},
                            }
                        },
                        Err(_) => {},
                    }
                },
                Err(_) => {},
            }
        },
        StatementView::While { cond, body } => {
            lemma_scan_expr_len(cond, target, arrays, flags);
            match scan_expr(cond, target, arrays, flags) {
                Ok(f1) => {
                    lemma_scan_stmts_len(body, 0, target, arrays, f1);
                },
                Err(_) => {},
            }
        },
    }
}

/// Scanning statements keeps the number of flags.
pub proof fn lemma_scan_stmts_len(
    stmts: Seq<StatementView>,
    i: int,
    target: Seq<char>,
    arrays: Set<Seq<char>>,
    flags: Seq<bool>,
)
    ensures
        match scan_stmts(stmts, i, target, arrays, flags) {
            Ok((_, f2)) => f2.len() == flags.len(),
            Err(_) => true,
        },
    decreases stmts, stmts.len() - i,
{
    if 0 <= i < stmts.len() {
        lemma_scan_stmt_len(stmts[i], target, arrays, flags);
        match scan_stmt(stmts[i], target, arrays, flags) {
            Ok((a1, f1)) => {
                lemma_scan_stmts_len(stmts, i + 1, target, a1, f1);
            },
            Err(_) => {},
        }
    }
}

/// Scanning the bodies of functions keeps the number of flags.
pub proof fn lemma_scan_bodies_len(
    functions: Seq<FunctionView>,
    j: int,
    target: Seq<char>,
    known: Seq<SignatureView>,
    flags: Seq<bool>,
)
    ensures
        match scan_bodies(functions, j, target, known, flags) {
            Ok(f2) => f2.len() == flags.len(),
            Err(_) => true,
        },
    decreases functions.len() - j,
{
    if 0 <= j < functions.len() {
        let arrays = array_params(functions[j], known, j, 0);
        lemma_scan_stmts_len(functions[j].body, 0, target, arrays, flags);
        match scan_stmts(functions[j].body, 0, target, arrays, flags) {
            Ok((_, f1)) => {
                lemma_scan_bodies_len(functions, j + 1, target, known, f1);
            },
            Err(_) => {},
        }
    }
}

/// The place of a name among the parameters is a place among them, not
/// before where the search started.
pub proof fn lemma_param_index_bounds(params: Seq<Seq<char>>, name: Seq<char>, i: int)
    requires
        0 <= i,
    ensures
        match param_index(params, name, i) {
            Some(k) => i <= k < params.len() && params[k] == name,
            None => true,
        },
    decreases params.len() - i,
{
    if i < params.len() && params[i] != name {
        lemma_param_index_bounds(params, name, i + 1);
    }
}

/// The hints of an expression keep the number of flags.
pub proof fn lemma_hint_expr_len(e: ExprView, params: Seq<Seq<char>>, flags: Seq<bool>)
    ensures
        hint_expr(e, params, flags).len() == flags.len(),
    decreases e, 0nat,
{
    match e {
        ExprView::Length { array } => match *array {
            ExprView::Variable(name) => {
                lemma_param_index_bounds(params, name, 0);
            },
            other => {
                lemma_hint_expr_len(other, params, flags);
            },
        },
        ExprView::Call { name, args } => {
            lemma_hint_exprs_len(args, 0, params, flags);
        },
        ExprView::ArrayLiteral(elems) => {
            lemma_hint_exprs_len(elems, 0, params, flags);
        },
        ExprView::Unary { op, expr } => {
            lemma_hint_expr_len(*expr, params, flags);
        },
        ExprView::Binary { op, left, right } => {
            lemma_hint_expr_len(*left, params, flags);
            lemma_hint_expr_len(*right, params, hint_expr(*left, params, flags));
        },
        ExprView::Index { array, index } => {
            lemma_hint_expr_len(*array, params, flags);
            lemma_hint_expr_len(*index, params, hint_expr(*array, params, flags));
        },
        _ => {},
    }
}

/// The hints of expressions keep the number of flags.
pub proof fn lemma_hint_exprs_len(
    es: Seq<ExprView>,
    i: int,
    params: Seq<Seq<char>>,
    flags: Seq<bool>,
)
    ensures
        hint_exprs(es, i, params, flags).len() == flags.len(),
    decreases es, es.len() - i,
{
    if 0 <= i < es.len() {
        lemma_hint_expr_len(es[i], params, flags);
        lemma_hint_exprs_len(es, i + 1, params, hint_expr(es[i], params, flags));
    }
}

/// The hints of a statement keep the number of flags.
pub proof fn lemma_hint_stmt_len(s: StatementView, params: Seq<Seq<char>>, flags: Seq<bool>)
    ensures
        hint_stmt(s, params, flags).len() == flags.len(),
    decreases s, 0nat,
{
    match s {
        StatementView::VarDecl { name, expr } => {
            lemma_hint_expr_len(expr, params, flags);
        },
        StatementView::LetDecl { name, expr } => {
            lemma_hint_expr_len(expr, params, flags);
        },
        StatementView::Assign { name, expr } => {
            lemma_hint_expr_len(expr, params, flags);
        },
        StatementView::IndexedAssign { array, index, expr } => {
            lemma_hint_expr_len(array, params, flags);
            let f1 = hint_expr(array, params, flags);
            lemma_hint_expr_len(index, params, f1);
            lemma_hint_expr_len(expr, params, hint_expr(index, params, f1));
        },
        StatementView::Return { expr } => {
            lemma_hint_expr_len(expr, params, flags);
        },
        StatementView::Print { expr } => {
            lemma_hint_expr_len(expr, params, flags);
        },
        StatementView::ExprStmt(expr) => {
            lemma_hint_expr_len(expr, params, flags);
        },
        StatementView::If { cond, then_branch, else_branch } => {
            lemma_hint_expr_len(cond, params, flags);
            let f1 = hint_expr(cond, params, flags);
            lemma_hint_stmts_len(then_branch, 0, params, f1);
            match else_branch {
                Some(els) => {
                    lemma_hint_stmts_len(els, 0, params, hint_stmts(then_branch, 0, params, f1));
                },
                None => {},
            }
        },
        StatementView::While { cond, body } => {
            lemma_hint_expr_len(cond, params, flags);
            lemma_hint_stmts_len(body, 0, params, hint_expr(cond, params, flags));
        },
    }
}

/// The hints of statements keep the number of flags.
pub proof fn lemma_hint_stmts_len(
    stmts: Seq<StatementView>,
    i: int,
    params: Seq<Seq<char>>,
    flags: Seq<bool>,
)
    ensures
        hint_stmts(stmts, i, params, flags).len() == flags.len(),
    decreases stmts, stmts.len() - i,
{
    if 0 <= i < stmts.len() {
        lemma_hint_stmt_len(stmts[i], params, flags);
        lemma_hint_stmts_len(stmts, i + 1, params, hint_stmt(stmts[i], params, flags));
    }
}

/// Whether an expression takes the length of the variable `name`.
pub open spec fn takes_length(e: ExprView, name: Seq<char>) -> bool
    decreases e, 0nat,
{
    match e {
        ExprView::Length { array } => match *array {
            ExprView::Variable(n) => n == name,
            other => takes_length(other, name),
        },
        ExprView::Call { name: _, args } => any_takes_length(args, 0, name),
        ExprView::ArrayLiteral(elems) => any_takes_length(elems, 0, name),
        ExprView::Unary { op, expr } => takes_length(*expr, name),
        ExprView::Binary { op, left, right } => takes_length(*left, name) || takes_length(
            *right,
            name,
        ),
        ExprView::Index { array, index } => takes_length(*array, name) || takes_length(
            *index,
            name,
        ),
        _ => false,
    }
}

/// Whether one of the expressions from `i` on takes the length of the
/// variable `name`.
pub open spec fn any_takes_length(es: Seq<ExprView>, i: int, name: Seq<char>) -> bool
    decreases es, es.len() - i,
{
    if 0 <= i < es.len() {
        takes_length(es[i], name) || any_takes_length(es, i + 1, name)
    } else {
        false
    }
}

/// Whether a statement, or one nested in it, takes the length of the
/// variable `name`.
pub open spec fn stmt_takes_length(s: StatementView, name: Seq<char>) -> bool
    decreases s, 0nat,
{
    match s {
        StatementView::VarDecl { name: _, expr } => takes_length(expr, name),
        StatementView::LetDecl { name: _, expr } => takes_length(expr, name),
        StatementView::Assign { name: _, expr } => takes_length(expr, name),
        StatementView::IndexedAssign { array, index, expr } => takes_length(array, name)
            || takes_length(index, name) || takes_length(expr, name),
        StatementView::Return { expr } => takes_length(expr, name),
        StatementView::Print { expr } => takes_length(expr, name),
        StatementView::ExprStmt(expr) => takes_length(expr, name),
        StatementView::If { cond, then_branch, else_branch } => takes_length(cond, name)
            || stmts_take_length(then_branch, 0, name) || match else_branch {
            Some(els) => stmts_take_length(els, 0, name),
            None => false,
        },
        StatementView::While { cond, body } => takes_length(cond, name) || stmts_take_length(
            body,
            0,
            name,
        ),
    }
}

/// Whether one of the statements from `i` on takes the length of the
/// variable `name`.
pub open spec fn stmts_take_length(stmts: Seq<StatementView>, i: int, name: Seq<char>) -> bool
    decreases stmts, stmts.len() - i,
{
    if 0 <= i < stmts.len() {
        stmt_takes_length(stmts[i], name) || stmts_take_length(stmts, i + 1, name)
    } else {
        false
    }
}

/// Whether flags hold all that other flags hold.
pub open spec fn flags_kept(a: Seq<bool>, b: Seq<bool>) -> bool {
    &&& b.len() == a.len()
    &&& forall|i: int| 0 <= i < a.len() && a[i] ==> #[trigger] b[i]
}

/// The hints of an expression keep the flags that are set, and set the
/// flag of the parameter whose length the expression takes.
pub proof fn lemma_hint_expr_marks(
    e: ExprView,
    params: Seq<Seq<char>>,
    flags: Seq<bool>,
    name: Seq<char>,
)
    ensures
        flags_kept(flags, hint_expr(e, params, flags)),
        takes_length(e, name) ==> match param_index(params, name, 0) {
            Some(k) => k < flags.len() ==> hint_expr(e, params, flags)[k],
            None => true,
        },
    decreases e, 0nat,
{
    lemma_param_index_bounds(params, name, 0);
    match e {
        ExprView::Length { array } => match *array {
            ExprView::Variable(n) => {
                lemma_param_index_bounds(params, n, 0);
            },
            other => {
                lemma_hint_expr_marks(other, params, flags, name);
            },
        },
        ExprView::Call { name: _, args } => {
            lemma_hint_exprs_mark(args, 0, params, flags, name);
        },
        ExprView::ArrayLiteral(elems) => {
            lemma_hint_exprs_mark(elems, 0, params, flags, name);
        },
        ExprView::Unary { op, expr } => {
            lemma_hint_expr_marks(*expr, params, flags, name);
        },
        ExprView::Binary { op, left, right } => {
            let f1 = hint_expr(*left, params, flags);
            lemma_hint_expr_marks(*left, params, flags, name);
            lemma_hint_expr_marks(*right, params, f1, name);
            lemma_flags_kept_trans(flags, f1, hint_expr(*right, params, f1));
        },
        ExprView::Index { array, index } => {
            let f1 = hint_expr(*array, params, flags);
            lemma_hint_expr_marks(*array, params, flags, name);
            lemma_hint_expr_marks(*index, params, f1, name);
            lemma_flags_kept_trans(flags, f1, hint_expr(*index, params, f1));
        },
        _ => {},
    }
}

/// Flags that hold all of flags that hold all of others hold those
/// others.
pub proof fn lemma_flags_kept_trans(a: Seq<bool>, b: Seq<bool>, c: Seq<bool>)
    requires
        flags_kept(a, b),
        flags_kept(b, c),
    ensures
        flags_kept(a, c),
{
    assert forall|i: int| 0 <= i < a.len() && a[i] implies #[trigger] c[i] by {
        assert(b[i]);
    }
}

/// The hints of expressions keep the flags that are set, and set the
/// flag of the parameter whose length one of them takes.
pub proof fn lemma_hint_exprs_mark(
    es: Seq<ExprView>,
    i: int,
    params: Seq<Seq<char>>,
    flags: Seq<bool>,
    name: Seq<char>,
)
    ensures
        flags_kept(flags, hint_exprs(es, i, params, flags)),
        any_takes_length(es, i, name) ==> match param_index(params, name, 0) {
            Some(k) => k < flags.len() ==> hint_exprs(es, i, params, flags)[k],
            None => true,
        },
    decreases es, es.len() - i,
{
    lemma_param_index_bounds(params, name, 0);
    if 0 <= i < es.len() {
        let f1 = hint_expr(es[i], params, flags);
        lemma_hint_expr_marks(es[i], params, flags, name);
        lemma_hint_exprs_mark(es, i + 1, params, f1, name);
        lemma_flags_kept_trans(flags, f1, hint_exprs(es, i + 1, params, f1));
    }
}

/// The hints of a statement keep the flags that are set, and set the
/// flag of the parameter whose length the statement takes.
pub proof fn lemma_hint_stmt_marks(
    s: StatementView,
    params: Seq<Seq<char>>,
    flags: Seq<bool>,
    name: Seq<char>,
)
    ensures
        flags_kept(flags, hint_stmt(s, params, flags)),
        stmt_takes_length(s, name) ==> match param_index(params, name, 0) {
            Some(k) => k < flags.len() ==> hint_stmt(s, params, flags)[k],
            None => true,
        },
    decreases s, 0nat,
{
    lemma_param_index_bounds(params, name, 0);
    match s {
        StatementView::VarDecl { name: _, expr } => {
            lemma_hint_expr_marks(expr, params, flags, name);
        },
        StatementView::LetDecl { name: _, expr } => {
            lemma_hint_expr_marks(expr, params, flags, name);
        },
        StatementView::Assign { name: _, expr } => {
            lemma_hint_expr_marks(expr, params, flags, name);
        },
        StatementView::IndexedAssign { array, index, expr } => {
            let f1 = hint_expr(array, params, flags);
            let f2 = hint_expr(index, params, f1);
            let f3 = hint_expr(expr, params, f2);
            lemma_hint_expr_marks(array, params, flags, name);
            lemma_hint_expr_marks(index, params, f1, name);
            lemma_hint_expr_marks(expr, params, f2, name);
            lemma_flags_kept_trans(f1, f2, f3);
            lemma_flags_kept_trans(flags, f1, f3);
        },
        StatementView::Return { expr } => {
            lemma_hint_expr_marks(expr, params, flags, name);
        },
        StatementView::Print { expr } => {
            lemma_hint_expr_marks(expr, params, flags, name);
        },
        StatementView::ExprStmt(expr) => {
            lemma_hint_expr_marks(expr, params, flags, name);
        },
        StatementView::If { cond, then_branch, else_branch } => {
            let f1 = hint_expr(cond, params, flags);
            let f2 = hint_stmts(then_branch, 0, params, f1);
            lemma_hint_expr_marks(cond, params, flags, name);
            lemma_hint_stmts_mark(then_branch, 0, params, f1, name);
            lemma_flags_kept_trans(flags, f1, f2);
            match else_branch {
                Some(els) => {
                    lemma_hint_stmts_mark(els, 0, params, f2, name);
                    let f3 = hint_stmts(els, 0, params, f2);
                    lemma_flags_kept_trans(f1, f2, f3);
                    lemma_flags_kept_trans(flags, f2, f3);
                },
                None => {},
            }
        },
        StatementView::While { cond, body } => {
            let f1 = hint_expr(cond, params, flags);
            lemma_hint_expr_marks(cond, params, flags, name);
            lemma_hint_stmts_mark(body, 0, params, f1, name);
            lemma_flags_kept_trans(flags, f1, hint_stmts(body, 0, params, f1));
        },
    }
}

/// The hints of statements keep the flags that are set, and set the flag
/// of the parameter whose length one of them takes.
pub proof fn lemma_hint_stmts_mark(
    stmts: Seq<StatementView>,
    i: int,
    params: Seq<Seq<char>>,
    flags: Seq<bool>,
    name: Seq<char>,
)
    ensures
        flags_kept(flags, hint_stmts(stmts, i, params, flags)),
        stmts_take_length(stmts, i, name) ==> match param_index(params, name, 0) {
            Some(k) => k < flags.len() ==> hint_stmts(stmts, i, params, flags)[k],
            None => true,
        },
    decreases stmts, stmts.len() - i,
{
    lemma_param_index_bounds(params, name, 0);
    if 0 <= i < stmts.len() {
        let f1 = hint_stmt(stmts[i], params, flags);
        lemma_hint_stmt_marks(stmts[i], params, flags, name);
        lemma_hint_stmts_mark(stmts, i + 1, params, f1, name);
        lemma_flags_kept_trans(flags, f1, hint_stmts(stmts, i + 1, params, f1));
    }
}

/// A parameter whose length the body of its function takes is an array
/// parameter, whatever the calls of the function pass: where the
/// analysis succeeds, the flag of the first parameter of that name is
/// set.
pub proof fn lemma_length_marks_parameter(
    p: ProgramView,
    k: int,
    known: Seq<SignatureView>,
    name: Seq<char>,
)
    requires
        0 <= k < p.functions.len(),
        stmts_take_length(p.functions[k].body, 0, name),
        param_index(p.functions[k].params, name, 0) is Some,
    ensures
        match infer(p, k, known) {
            Ok(sig) => sig.params[param_index(p.functions[k].params, name, 0)->Some_0],
            Err(_) => true,
        },
{
    let f = p.functions[k];
    let none = no_flags(f.params.len());
    lemma_param_index_bounds(f.params, name, 0);
    lemma_scan_bodies_len(p.functions, 0, f.name, known, none);
    match scan_bodies(p.functions, 0, f.name, known, none) {
        Ok(f1) => {
            lemma_scan_stmts_len(p.statements, 0, f.name, Set::empty(), f1);
            match scan_stmts(p.statements, 0, f.name, Set::empty(), f1) {
                Ok((_, f2)) => {
                    lemma_hint_stmts_mark(f.body, 0, f.params, f2, name);
                },
                Err(_) => {},
            }
        },
        Err(_) => {},
    }
}

/// Whether there is one signature for each of the first functions of a
/// program, with one flag for each parameter.
pub open spec fn signatures_fit(p: ProgramView, sigs: Seq<SignatureView>) -> bool {
    &&& sigs.len() <= p.functions.len()
    &&& forall|k: int|
        0 <= k < sigs.len() ==> (#[trigger] sigs[k]).params.len() == p.functions[k].params.len()
}

/// The signatures after those known fit the program, where the known
/// ones do.
pub proof fn lemma_analyze_from_fits(p: ProgramView, known: Seq<SignatureView>)
    requires
        signatures_fit(p, known),
    ensures
        match analyze_from(p, known) {
            Ok(sigs) => sigs.len() == p.functions.len() && signatures_fit(p, sigs),
            Err(_) => true,
        },
    decreases p.functions.len() - known.len(),
{
    if known.len() < p.functions.len() {
        let k = known.len() as int;
        let f = p.functions[k];
        let none = no_flags(f.params.len());
        lemma_scan_bodies_len(p.functions, 0, f.name, known, none);
        match scan_bodies(p.functions, 0, f.name, known, none) {
            Ok(f1) => {
                lemma_scan_stmts_len(p.statements, 0, f.name, Set::empty(), f1);
                match scan_stmts(p.statements, 0, f.name, Set::empty(), f1) {
                    Ok((_, f2)) => {
                        lemma_hint_stmts_len(f.body, 0, f.params, f2);
                    },
                    Err(_) => {},
                }
            },
            Err(_) => {},
        }
        match infer(p, k, known) {
            Ok(sig) => {
                lemma_analyze_from_fits(p, known.push(sig));
            },
            Err(_) => {},
        }
    }
}

/// The analysis gives one signature for each function of the program,
/// with one flag for each of its parameters.
pub proof fn lemma_signatures_fit(p: ProgramView)
    ensures
        match analyze(p) {
            Ok(sigs) => sigs.len() == p.functions.len() && signatures_fit(p, sigs),
            Err(_) => true,
        },
{
    lemma_analyze_from_fits(p, Seq::empty());
}

/// Whether an argument is array-shaped.
fn is_array_shaped(e: &Expr, arrays: &StringHashMap<bool>) -> (r: bool)
    ensures
        r == array_shaped(e@, arrays@.dom()),
{
    match e {
        Expr::ArrayLiteral(_) => true,
        Expr::Variable(name) => arrays.contains_key(name.as_str()),
        _ => false,
    }
}

/// Marks the parameters that one call of `target` passes an array to.
fn mark_call_args(
    args: &Vec<Expr>,
    target: &String,
    arrays: &StringHashMap<bool>,
    flags: &mut Vec<bool>,
) -> (r: Result<(), CompileError>)
    ensures
        match r {
            Ok(_) => mark_args(exprs_view(args@), 0, target@, arrays@.dom(), old(flags)@) == Ok::<
                Seq<bool>,
                CompileErrorView,
            >(final(flags)@),
            Err(e) => mark_args(exprs_view(args@), 0, target@, arrays@.dom(), old(flags)@)
                == Err::<Seq<bool>, CompileErrorView>(e@),
        },
{
    let mut i: usize = 0;
    while i < args.len()
        invariant
            i <= args@.len(),
            mark_args(exprs_view(args@), 0, target@, arrays@.dom(), old(flags)@) == mark_args(
                exprs_view(args@),
                i as int,
                target@,
                arrays@.dom(),
                flags@,
            ),
        decreases args@.len() - i,
    {
        if i >= flags.len() {
            return Err(CompileError::Codegen(join2("Too many arguments for function ", target.as_str())));
        }
        if is_array_shaped(&args[i], arrays) {
            flags.set(i, true);
        }
        i += 1;
    }
    Ok(())
}

/// Marks the parameters of `target` that the calls in an expression pass
/// an array to.
#[verifier::rlimit(50)]
fn analyze_expr_for_calls(
    e: &Expr,
    target: &String,
    arrays: &StringHashMap<bool>,
    flags: &mut Vec<bool>,
) -> (r: Result<(), CompileError>)
    ensures
        match r {
            Ok(_) => scan_expr(e@, target@, arrays@.dom(), old(flags)@) == Ok::<
                Seq<bool>,
                CompileErrorView,
            >(final(flags)@),
            Err(err) => scan_expr(e@, target@, arrays@.dom(), old(flags)@) == Err::<
                Seq<bool>,
                CompileErrorView,
            >(err@),
        },
    decreases e,
{
    match e {
        Expr::Call { name, args } => {
            analyze_exprs_for_calls(args, target, arrays, flags)?;
            if *name == *target {
                mark_call_args(args, target, arrays, flags)
            } else {
                Ok(())
            }
        },
        Expr::ArrayLiteral(elems) => analyze_exprs_for_calls(elems, target, arrays, flags),
        Expr::Unary { op, expr } => analyze_expr_for_calls(expr, target, arrays, flags),
        Expr::Binary { op, left, right } => {
            analyze_expr_for_calls(left, target, arrays, flags)?;
            analyze_expr_for_calls(right, target, arrays, flags)
        },
        Expr::Index { array, index } => {
            analyze_expr_for_calls(array, target, arrays, flags)?;
            analyze_expr_for_calls(index, target, arrays, flags)
        },
        Expr::Length { array } => analyze_expr_for_calls(array, target, arrays, flags),
        _ => Ok(()),
    }
}

/// Marks the parameters of `target` that the calls in some expressions
/// pass an array to.
fn analyze_exprs_for_calls(
    es: &Vec<Expr>,
    target: &String,
    arrays: &StringHashMap<bool>,
    flags: &mut Vec<bool>,
) -> (r: Result<(), CompileError>)
    ensures
        match r {
            Ok(_) => scan_exprs(exprs_view(es@), 0, target@, arrays@.dom(), old(flags)@) == Ok::<
                Seq<bool>,
                CompileErrorView,
            >(final(flags)@),
            Err(err) => scan_exprs(exprs_view(es@), 0, target@, arrays@.dom(), old(flags)@)
                == Err::<Seq<bool>, CompileErrorView>(err@),
        },
    decreases es,
{
    let mut i: usize = 0;
    while i < es.len()
        invariant
            i <= es@.len(),
            scan_exprs(exprs_view(es@), 0, target@, arrays@.dom(), old(flags)@) == scan_exprs(
                exprs_view(es@),
                i as int,
                target@,
                arrays@.dom(),
                flags@,
            ),
        decreases es@.len() - i,
    {
        analyze_expr_for_calls(&es[i], target, arrays, flags)?;
        i += 1;
    }
    Ok(())
}

/// Records a declaration of `name` with the value `e` among the known
/// array variables.
fn note_declaration(arrays: &mut StringHashMap<bool>, name: &String, e: &Expr, alias: bool)
    ensures
        final(arrays)@.dom() == after_declaration(old(arrays)@.dom(), name@, e@, alias),
{
    let is_array = match e {
        Expr::ArrayLiteral(_) => true,
        Expr::Variable(v) => alias && arrays.contains_key(v.as_str()),
        _ => false,
    };
    if is_array {
        arrays.insert(name.clone(), true);
        assert(arrays@.dom() =~= old(arrays)@.dom().insert(name@));
    } else {
        arrays.remove(name.as_str());
        assert(arrays@.dom() =~= old(arrays)@.dom().remove(name@));
    }
}

/// Marks the parameters of `target` that the calls in a statement pass an
/// array to, and follows which variables hold an array.
#[verifier::rlimit(50)]
fn analyze_stmt_for_calls(
    s: &Statement,
    target: &String,
    arrays: &mut StringHashMap<bool>,
    flags: &mut Vec<bool>,
) -> (r: Result<(), CompileError>)
    ensures
        match r {
            Ok(_) => scan_stmt(s@, target@, old(arrays)@.dom(), old(flags)@) == Ok::<
                (Set<Seq<char>>, Seq<bool>),
                CompileErrorView,
            >((final(arrays)@.dom(), final(flags)@)),
            Err(err) => scan_stmt(s@, target@, old(arrays)@.dom(), old(flags)@) == Err::<
                (Set<Seq<char>>, Seq<bool>),
                CompileErrorView,
            >(err@),
        },
    decreases s,
{
    match s {
        Statement::VarDecl { name, expr } => {
            analyze_expr_for_calls(expr, target, arrays, flags)?;
            note_declaration(arrays, name, expr, false);
            Ok(())
        },
        Statement::LetDecl { name, expr } => {
            analyze_expr_for_calls(expr, target, arrays, flags)?;
            note_declaration(arrays, name, expr, true);
            Ok(())
        },
        Statement::Assign { name, expr } => {
            analyze_expr_for_calls(expr, target, arrays, flags)?;
            if matches!(expr, Expr::ArrayLiteral(_)) {
                arrays.insert(name.clone(), true);
                assert(arrays@.dom() =~= old(arrays)@.dom().insert(name@));
            }
            Ok(())
        },
        Statement::IndexedAssign { array, index, expr } => {
            analyze_expr_for_calls(array, target, arrays, flags)?;
            analyze_expr_for_calls(index, target, arrays, flags)?;
            analyze_expr_for_calls(expr, target, arrays, flags)
        },
        Statement::Return { expr } => analyze_expr_for_calls(expr, target, arrays, flags),
        Statement::Print { expr } => analyze_expr_for_calls(expr, target, arrays, flags),
        Statement::ExprStmt(expr) => analyze_expr_for_calls(expr, target, arrays, flags),
        Statement::If { cond, then_branch, else_branch } => {
            analyze_expr_for_calls(cond, target, arrays, flags)?;
            analyze_stmts_for_calls(then_branch, target, arrays, flags)?;
            match else_branch {
                Some(els) => analyze_stmts_for_calls(els, target, arrays, flags),
                None => Ok(()),
            }
        },
        Statement::While { cond, body } => {
            analyze_expr_for_calls(cond, target, arrays, flags)?;
            analyze_stmts_for_calls(body, target, arrays, flags)
        },
    }
}

/// Marks the parameters of `target` that the calls in some statements
/// pass an array to, in order.
fn analyze_stmts_for_calls(
    stmts: &Vec<Statement>,
    target: &String,
    arrays: &mut StringHashMap<bool>,
    flags: &mut Vec<bool>,
) -> (r: Result<(), CompileError>)
    ensures
        match r {
            Ok(_) => scan_stmts(stmts_view(stmts@), 0, target@, old(arrays)@.dom(), old(flags)@)
                == Ok::<(Set<Seq<char>>, Seq<bool>), CompileErrorView>(
                (final(arrays)@.dom(), final(flags)@),
            ),
            Err(err) => scan_stmts(
                stmts_view(stmts@),
                0,
                target@,
                old(arrays)@.dom(),
                old(flags)@,
            ) == Err::<(Set<Seq<char>>, Seq<bool>), CompileErrorView>(err@),
        },
    decreases stmts,
{
    let mut i: usize = 0;
    while i < stmts.len()
        invariant
            i <= stmts@.len(),
            scan_stmts(stmts_view(stmts@), 0, target@, old(arrays)@.dom(), old(flags)@)
                == scan_stmts(stmts_view(stmts@), i as int, target@, arrays@.dom(), flags@),
        decreases stmts@.len() - i,
    {
        analyze_stmt_for_calls(&stmts[i], target, arrays, flags)?;
        i += 1;
    }
    Ok(())
}

/// The first place of `name` among `params`.
fn find_param(params: &Vec<String>, name: &String) -> (r: Option<usize>)
    ensures
        match r {
            Some(i) => param_index(names_view(params@), name@, 0) == Some(i as int) && i
                < params@.len(),
            None => param_index(names_view(params@), name@, 0) is None,
        },
{
    let mut i: usize = 0;
    while i < params.len()
        invariant
            i <= params@.len(),
            param_index(names_view(params@), name@, 0) == param_index(
                names_view(params@),
                name@,
                i as int,
            ),
        decreases params@.len() - i,
    {
        if params[i] == *name {
            return Some(i);
        }
        i += 1;
    }
    None
}

/// Marks the parameters whose `length` an expression takes.
fn hint_from_expr(e: &Expr, params: &Vec<String>, flags: &mut Vec<bool>)
    ensures
        final(flags)@ == hint_expr(e@, names_view(params@), old(flags)@),
    decreases e,
{
    proof {
        reveal_with_fuel(crate::ast::expr_view, 2);
    }
    match e {
        Expr::Length { array } => {
            match &**array {
                Expr::Variable(name) => {
                    if let Some(i) = find_param(params, name) {
                        if i < flags.len() {
                            flags.set(i, true);
                        }
                    }
                },
                other => hint_from_expr(other, params, flags),
            }
        },
        Expr::Call { name, args } => hint_from_exprs(args, params, flags),
        Expr::ArrayLiteral(elems) => hint_from_exprs(elems, params, flags),
        Expr::Unary { op, expr } => hint_from_expr(expr, params, flags),
        Expr::Binary { op, left, right } => {
            hint_from_expr(left, params, flags);
            hint_from_expr(right, params, flags);
        },
        Expr::Index { array, index } => {
            hint_from_expr(array, params, flags);
            hint_from_expr(index, params, flags);
        },
        _ => {},
    }
}

/// Marks the parameters whose `length` some expressions take.
fn hint_from_exprs(es: &Vec<Expr>, params: &Vec<String>, flags: &mut Vec<bool>)
    ensures
        final(flags)@ == hint_exprs(exprs_view(es@), 0, names_view(params@), old(flags)@),
    decreases es,
{
    let mut i: usize = 0;
    while i < es.len()
        invariant
            i <= es@.len(),
            hint_exprs(exprs_view(es@), 0, names_view(params@), old(flags)@) == hint_exprs(
                exprs_view(es@),
                i as int,
                names_view(params@),
                flags@,
            ),
        decreases es@.len() - i,
    {
        hint_from_expr(&es[i], params, flags);
        i += 1;
    }
}

/// Marks the parameters whose `length` a statement takes.
fn hint_from_stmt(s: &Statement, params: &Vec<String>, flags: &mut Vec<bool>)
    ensures
        final(flags)@ == hint_stmt(s@, names_view(params@), old(flags)@),
    decreases s,
{
    match s {
        Statement::VarDecl { name, expr } => hint_from_expr(expr, params, flags),
        Statement::LetDecl { name, expr } => hint_from_expr(expr, params, flags),
        Statement::Assign { name, expr } => hint_from_expr(expr, params, flags),
        Statement::IndexedAssign { array, index, expr } => {
            hint_from_expr(array, params, flags);
            hint_from_expr(index, params, flags);
            hint_from_expr(expr, params, flags);
        },
        Statement::Return { expr } => hint_from_expr(expr, params, flags),
        Statement::Print { expr } => hint_from_expr(expr, params, flags),
        Statement::ExprStmt(expr) => hint_from_expr(expr, params, flags),
        Statement::If { cond, then_branch, else_branch } => {
            hint_from_expr(cond, params, flags);
            hint_from_stmts(then_branch, params, flags);
            match else_branch {
                Some(els) => hint_from_stmts(els, params, flags),
                None => {},
            }
        },
        Statement::While { cond, body } => {
            hint_from_expr(cond, params, flags);
            hint_from_stmts(body, params, flags);
        },
    }
}

/// Marks the parameters whose `length` some statements take.
fn hint_from_stmts(stmts: &Vec<Statement>, params: &Vec<String>, flags: &mut Vec<bool>)
    ensures
        final(flags)@ == hint_stmts(stmts_view(stmts@), 0, names_view(params@), old(flags)@),
    decreases stmts,
{
    let mut i: usize = 0;
    while i < stmts.len()
        invariant
            i <= stmts@.len(),
            hint_stmts(stmts_view(stmts@), 0, names_view(params@), old(flags)@) == hint_stmts(
                stmts_view(stmts@),
                i as int,
                names_view(params@),
                flags@,
            ),
        decreases stmts@.len() - i,
    {
        hint_from_stmt(&stmts[i], params, flags);
        i += 1;
    }
}

/// Whether a statement, or one nested in it, returns an array literal.
fn stmt_returns_literal(s: &Statement) -> (r: bool)
    ensures
        r == returns_literal(s@),
    decreases s,
{
    match s {
        Statement::Return { expr } => matches!(expr, Expr::ArrayLiteral(_)),
        Statement::If { cond, then_branch, else_branch } => {
            if stmts_return_literal(then_branch) {
                true
            } else {
                match else_branch {
                    Some(els) => stmts_return_literal(els),
                    None => false,
                }
            }
        },
        Statement::While { cond, body } => stmts_return_literal(body),
        _ => false,
    }
}

/// Whether one of the statements returns an array literal.
fn stmts_return_literal(stmts: &Vec<Statement>) -> (r: bool)
    ensures
        r == any_returns_literal(stmts_view(stmts@), 0),
    decreases stmts,
{
    let mut i: usize = 0;
    while i < stmts.len()
        invariant
            i <= stmts@.len(),
            any_returns_literal(stmts_view(stmts@), 0) == any_returns_literal(
                stmts_view(stmts@),
                i as int,
            ),
        decreases stmts@.len() - i,
    {
        if stmt_returns_literal(&stmts[i]) {
            return true;
        }
        i += 1;
    }
    false
}

/// The parameters of function `j` that its signature, where known, marks
/// as arrays.
fn known_array_params(f: &Function, known: &Vec<Signature>, j: usize) -> (arrays: StringHashMap<
    bool,
>)
    ensures
        arrays@.dom() == array_params(f@, signatures_view(known@), j as int, 0),
{
    let mut arrays: StringHashMap<bool> = StringHashMap::new();
    let mut i: usize = f.params.len();
    assert(arrays@.dom() =~= Set::<Seq<char>>::empty());
    while i > 0
        invariant
            i <= f.params@.len(),
            arrays@.dom() == array_params(f@, signatures_view(known@), j as int, i as int),
        decreases i,
    {
        i -= 1;
        if j < known.len() && i < known[j].params.len() && known[j].params[i] {
            arrays.insert(f.params[i].clone(), true);
            assert(arrays@.dom() =~= array_params(f@, signatures_view(known@), j as int, i as int));
        }
    }
    arrays
}

/// The signature of function `k`, given the signatures of the functions
/// before it.
#[verifier::rlimit(50)]
fn infer_signature(prog: &Program, k: usize, known: &Vec<Signature>) -> (r: Result<
    Signature,
    CompileError,
>)
    requires
        k < prog.functions@.len(),
    ensures
        match r {
            Ok(sig) => infer(prog@, k as int, signatures_view(known@)) == Ok::<
                SignatureView,
                CompileErrorView,
            >(sig@),
            Err(e) => infer(prog@, k as int, signatures_view(known@)) == Err::<
                SignatureView,
                CompileErrorView,
            >(e@),
        },
{
    let f = &prog.functions[k];
    let mut flags: Vec<bool> = Vec::new();
    let mut i: usize = 0;
    while i < f.params.len()
        invariant
            i <= f.params@.len(),
            flags@ == no_flags(i as nat),
        decreases f.params@.len() - i,
    {
        flags.push(false);
        i += 1;
        assert(flags@ =~= no_flags(i as nat));
    }
    assert(f@.params.len() == f.params@.len());
    let ghost none = flags@;
    let mut j: usize = 0;
    while j < prog.functions.len()
        invariant
            j <= prog.functions@.len(),
            f == prog.functions@[k as int],
            k < prog.functions@.len(),
            none == no_flags(f@.params.len()),
            scan_bodies(prog@.functions, 0, f@.name, signatures_view(known@), none)
                == scan_bodies(prog@.functions, j as int, f@.name, signatures_view(known@), flags@),
        decreases prog.functions@.len() - j,
    {
        let g = &prog.functions[j];
        let mut arrays = known_array_params(g, known, j);
        assert(prog@.functions[j as int] == g@);
        analyze_stmts_for_calls(&g.body, &f.name, &mut arrays, &mut flags)?;
        j += 1;
    }
    let mut arrays: StringHashMap<bool> = StringHashMap::new();
    assert(arrays@.dom() =~= Set::<Seq<char>>::empty());
    analyze_stmts_for_calls(&prog.statements, &f.name, &mut arrays, &mut flags)?;
    hint_from_stmts(&f.body, &f.params, &mut flags);
    let returns_array = stmts_return_literal(&f.body);
    Ok(Signature { params: flags, returns_array })
}

/// Infers the signature of every function of a program, in the order of
/// declaration, with one flag for each parameter. Fails where a call
/// passes more arguments than the function has parameters.
pub fn analyze_function_types(prog: &Program) -> (r: Result<Vec<Signature>, CompileError>)
    ensures
        match r {
            Ok(sigs) => {
                &&& sigs@.len() == prog.functions@.len()
                &&& analyze(prog@) == Ok::<Seq<SignatureView>, CompileErrorView>(
                    signatures_view(sigs@),
                )
                &&& signatures_fit(prog@, signatures_view(sigs@))
            },
            Err(e) => analyze(prog@) == Err::<Seq<SignatureView>, CompileErrorView>(e@),
        },
{
    proof {
        lemma_signatures_fit(prog@);
    }
    let mut sigs: Vec<Signature> = Vec::new();
    assert(signatures_view(sigs@) =~= Seq::empty());
    while sigs.len() < prog.functions.len()
        invariant
            sigs@.len() <= prog.functions@.len(),
            analyze(prog@) == analyze_from(prog@, signatures_view(sigs@)),
            match analyze(prog@) {
                Ok(all) => signatures_fit(prog@, all),
                Err(_) => true,
            },
        decreases prog.functions@.len() - sigs@.len(),
    {
        let sig = infer_signature(prog, sigs.len(), &sigs)?;
        assert(signatures_view(sigs@.push(sig)) =~= signatures_view(sigs@).push(sig@));
        sigs.push(sig);
    }
    Ok(sigs)
}

} // verus!
