//! The abstract syntax tree of the language, and its mathematical model.
//!
//! Every tree type has a view that replaces strings by sequences of
//! characters and vectors by sequences, so that specifications can build and
//! compare trees.

use vstd::prelude::*;

verus! {

/// Unary operators: `+` and `-`.
#[derive(Debug, Clone, Copy, PartialEq, Eq, Structural)]
pub enum UnOp {
    Pos,
    Neg,
}

/// Binary operators, arithmetic and comparison.
#[derive(Debug, Clone, Copy, PartialEq, Eq, Structural)]
pub enum BinOp {
    Add,
    Sub,
    Mul,
    Div,
    Rem,
    Lt,
    Le,
    Gt,
    Ge,
    Eq,
    Ne,
}

/// All the expression forms of the language.
#[derive(Debug, PartialEq, Eq)]
pub enum Expr {
    Number(i64),
    Bool(bool),
    StrLiteral(String),
    Variable(String),
    Unary { op: UnOp, expr: Box<Expr> },
    Binary { op: BinOp, left: Box<Expr>, right: Box<Expr> },
    Call { name: String, args: Vec<Expr> },
    ArrayLiteral(Vec<Expr>),
    Index { array: Box<Expr>, index: Box<Expr> },
    Length { array: Box<Expr> },
}

/// All the statement forms of the language.
#[derive(Debug, PartialEq, Eq)]
pub enum Statement {
    VarDecl { name: String, expr: Expr },
    LetDecl { name: String, expr: Expr },
    Assign { name: String, expr: Expr },
    IndexedAssign { array: Expr, index: Expr, expr: Expr },
    Return { expr: Expr },
    Print { expr: Expr },
    If { cond: Expr, then_branch: Vec<Statement>, else_branch: Option<Vec<Statement>> },
    While { cond: Expr, body: Vec<Statement> },
    ExprStmt(Expr),
}

/// A function declaration: name, parameter names, and a body of statements.
#[derive(Debug, PartialEq, Eq)]
pub struct Function {
    pub name: String,
    pub params: Vec<String>,
    pub body: Vec<Statement>,
}

/// A whole program: functions, and the top-level statements that form the
/// implicit entry routine.
#[derive(Debug, PartialEq, Eq)]
pub struct Program {
    pub functions: Vec<Function>,
    pub statements: Vec<Statement>,
}

/// Model of an [`Expr`].
pub enum ExprView {
    Number(i64),
    Bool(bool),
    StrLiteral(Seq<char>),
    Variable(Seq<char>),
    Unary { op: UnOp, expr: Box<ExprView> },
    Binary { op: BinOp, left: Box<ExprView>, right: Box<ExprView> },
    Call { name: Seq<char>, args: Seq<ExprView> },
    ArrayLiteral(Seq<ExprView>),
    Index { array: Box<ExprView>, index: Box<ExprView> },
    Length { array: Box<ExprView> },
}

/// Model of a [`Statement`].
pub enum StatementView {
    VarDecl { name: Seq<char>, expr: ExprView },
    LetDecl { name: Seq<char>, expr: ExprView },
    Assign { name: Seq<char>, expr: ExprView },
    IndexedAssign { array: ExprView, index: ExprView, expr: ExprView },
    Return { expr: ExprView },
    Print { expr: ExprView },
    If { cond: ExprView, then_branch: Seq<StatementView>, else_branch: Option<Seq<StatementView>> },
    While { cond: ExprView, body: Seq<StatementView> },
    ExprStmt(ExprView),
}

/// Model of a [`Function`].
pub struct FunctionView {
    pub name: Seq<char>,
    pub params: Seq<Seq<char>>,
    pub body: Seq<StatementView>,
}

/// Model of a [`Program`].
pub struct ProgramView {
    pub functions: Seq<FunctionView>,
    pub statements: Seq<StatementView>,
}

/// The model of an expression, by recursion over the tree.
pub open spec fn expr_view(e: Expr) -> ExprView
    decreases e, 0nat,
{
    match e {
        Expr::Number(n) => ExprView::Number(n),
        Expr::Bool(b) => ExprView::Bool(b),
        Expr::StrLiteral(s) => ExprView::StrLiteral(s@),
        Expr::Variable(s) => ExprView::Variable(s@),
        Expr::Unary { op, expr } => ExprView::Unary { op, expr: Box::new(expr_view(*expr)) },
        Expr::Binary { op, left, right } => ExprView::Binary {
            op,
            left: Box::new(expr_view(*left)),
            right: Box::new(expr_view(*right)),
        },
        Expr::Call { name, args } => ExprView::Call { name: name@, args: exprs_view(args@) },
        Expr::ArrayLiteral(elems) => ExprView::ArrayLiteral(exprs_view(elems@)),
        Expr::Index { array, index } => ExprView::Index {
            array: Box::new(expr_view(*array)),
            index: Box::new(expr_view(*index)),
        },
        Expr::Length { array } => ExprView::Length { array: Box::new(expr_view(*array)) },
    }
}

/// The model of a sequence of expressions, element by element.
pub open spec fn exprs_view(v: Seq<Expr>) -> Seq<ExprView>
    decreases v, 1nat,
{
    Seq::new(
        v.len(),
        |i: int| if 0 <= i < v.len() { expr_view(v[i]) } else { ExprView::Bool(false) },
    )
}

impl View for Expr {
    type V = ExprView;

    open spec fn view(&self) -> ExprView {
        expr_view(*self)
    }
}

/// The model of a statement, by recursion over the tree.
pub open spec fn stmt_view(s: Statement) -> StatementView
    decreases s, 0nat,
{
    match s {
        Statement::VarDecl { name, expr } => StatementView::VarDecl {
            name: name@,
            expr: expr_view(expr),
        },
        Statement::LetDecl { name, expr } => StatementView::LetDecl {
            name: name@,
            expr: expr_view(expr),
        },
        Statement::Assign { name, expr } => StatementView::Assign {
            name: name@,
            expr: expr_view(expr),
        },
        Statement::IndexedAssign { array, index, expr } => StatementView::IndexedAssign {
            array: expr_view(array),
            index: expr_view(index),
            expr: expr_view(expr),
        },
        Statement::Return { expr } => StatementView::Return { expr: expr_view(expr) },
        Statement::Print { expr } => StatementView::Print { expr: expr_view(expr) },
        Statement::If { cond, then_branch, else_branch } => StatementView::If {
            cond: expr_view(cond),
            then_branch: stmts_view(then_branch@),
            else_branch: match else_branch {
                Some(els) => Some(stmts_view(els@)),
                None => None,
            },
        },
        Statement::While { cond, body } => StatementView::While {
            cond: expr_view(cond),
            body: stmts_view(body@),
        },
        Statement::ExprStmt(e) => StatementView::ExprStmt(expr_view(e)),
    }
}

/// The model of a sequence of statements, element by element.
pub open spec fn stmts_view(v: Seq<Statement>) -> Seq<StatementView>
    decreases v, 1nat,
{
    Seq::new(
        v.len(),
        |i: int|
            if 0 <= i < v.len() {
                stmt_view(v[i])
            } else {
                StatementView::ExprStmt(ExprView::Bool(false))
            },
    )
}

impl View for Statement {
    type V = StatementView;

    open spec fn view(&self) -> StatementView {
        stmt_view(*self)
    }
}

/// Appending an expression appends its model.
pub proof fn lemma_exprs_view_push(v: Seq<Expr>, e: Expr)
    ensures
        exprs_view(v.push(e)) == exprs_view(v).push(e@),
        exprs_view(Seq::<Expr>::empty()) == Seq::<ExprView>::empty(),
{
    assert(exprs_view(v.push(e)) =~= exprs_view(v).push(e@));
    assert(exprs_view(Seq::<Expr>::empty()) =~= Seq::<ExprView>::empty());
}

/// Appending a statement appends its model.
pub proof fn lemma_stmts_view_push(v: Seq<Statement>, s: Statement)
    ensures
        stmts_view(v.push(s)) == stmts_view(v).push(s@),
        stmts_view(Seq::<Statement>::empty()) == Seq::<StatementView>::empty(),
{
    assert(stmts_view(v.push(s)) =~= stmts_view(v).push(s@));
    assert(stmts_view(Seq::<Statement>::empty()) =~= Seq::<StatementView>::empty());
}

impl Expr {
    /// The number of elements, where the expression is an array literal.
    pub fn array_len(&self) -> (n: Option<usize>)
        ensures
            n == match self@ {
                ExprView::ArrayLiteral(elems) => Some(elems.len() as usize),
                _ => None,
            },
    {
        match self {
            Expr::ArrayLiteral(elems) => {
                assert(exprs_view(elems@).len() == elems@.len());
                Some(elems.len())
            },
            _ => None,
        }
    }
}

/// Model of a vector of strings.
pub open spec fn names_view(v: Seq<String>) -> Seq<Seq<char>> {
    Seq::new(v.len(), |i: int| v[i]@)
}

impl View for Function {
    type V = FunctionView;

    open spec fn view(&self) -> FunctionView {
        FunctionView {
            name: self.name@,
            params: names_view(self.params@),
            body: stmts_view(self.body@),
        }
    }
}

/// Model of a vector of functions.
pub open spec fn functions_view(v: Seq<Function>) -> Seq<FunctionView> {
    Seq::new(v.len(), |i: int| v[i]@)
}

impl View for Program {
    type V = ProgramView;

    open spec fn view(&self) -> ProgramView {
        ProgramView {
            functions: functions_view(self.functions@),
            statements: stmts_view(self.statements@),
        }
    }
}

} // verus!
