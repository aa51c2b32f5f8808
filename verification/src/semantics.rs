//! What programs and intermediate code mean, for the part of the
//! language that works on words alone: numbers, truth values, variables,
//! arithmetic and comparison, declaration, assignment, printing,
//! conditionals, loops and return.
//!
//! A program is evaluated statement by statement over the values of its
//! variables. Intermediate code is run instruction by instruction over
//! the contents of its stack slots. Both are given fuel, since a loop
//! need not end: a loop spends one unit for each turn, a run one unit for
//! each jump. An arithmetic operation with no result, such as a division
//! by zero, has no meaning in either.

use crate::ast::{ExprView, StatementView, UnOp};
use crate::codegen::{flag, fold, word_op};
use crate::ir::{BlockView, InstView, IrFunctionView, Operand, Terminator, WordOp};
use vstd::prelude::*;

verus! {

/// Whether an expression works on words alone and reads only variables
/// among `bound`, the names declared before it.
pub open spec fn plain_expr(e: ExprView, bound: Set<Seq<char>>) -> bool
    decreases e,
{
    match e {
        ExprView::Number(_) => true,
        ExprView::Bool(_) => true,
        ExprView::Variable(x) => bound.contains(x),
        ExprView::Unary { op, expr } => plain_expr(*expr, bound),
        ExprView::Binary { op, left, right } => plain_expr(*left, bound) && plain_expr(
            *right,
            bound,
        ),
        _ => false,
    }
}

/// The names declared after a statement, where `bound` are those
/// declared before it. A declaration inside a branch or a loop counts
/// from there on to the end of the program, whether or not it is
/// reached.
pub open spec fn bound_after(s: StatementView, bound: Set<Seq<char>>) -> Set<Seq<char>>
    decreases s, 0nat,
{
    match s {
        StatementView::VarDecl { name, expr } => bound.insert(name),
        StatementView::LetDecl { name, expr } => bound.insert(name),
        StatementView::If { cond, then_branch, else_branch } => {
            let after_then = bound_after_all(then_branch, 0, bound);
            match else_branch {
                Some(els) => bound_after_all(els, 0, after_then),
                None => after_then,
            }
        },
        StatementView::While { cond, body } => bound_after_all(body, 0, bound),
        _ => bound,
    }
}

/// The names declared after the statements from `i` on.
pub open spec fn bound_after_all(
    stmts: Seq<StatementView>,
    i: int,
    bound: Set<Seq<char>>,
) -> Set<Seq<char>>
    decreases stmts, stmts.len() - i,
{
    if 0 <= i < stmts.len() {
        bound_after_all(stmts, i + 1, bound_after(stmts[i], bound))
    } else {
        bound
    }
}

/// Whether a statement works on words alone, where `bound` are the names
/// declared before it: it reads and assigns only variables declared
/// before, and a declaration inside a branch or a loop, where `top` does
/// not hold, declares a name that was not declared before.
pub open spec fn plain_stmt(s: StatementView, top: bool, bound: Set<Seq<char>>) -> bool
    decreases s, 0nat,
{
    match s {
        StatementView::VarDecl { name, expr } => plain_expr(expr, bound) && (top
            || !bound.contains(name)),
        StatementView::LetDecl { name, expr } => plain_expr(expr, bound) && (top
            || !bound.contains(name)),
        StatementView::Assign { name, expr } => plain_expr(expr, bound) && bound.contains(name),
        StatementView::IndexedAssign { array, index, expr } => false,
        StatementView::Return { expr } => plain_expr(expr, bound),
        StatementView::Print { expr } => plain_expr(expr, bound),
        StatementView::If { cond, then_branch, else_branch } => {
            &&& plain_expr(cond, bound)
            &&& plain_stmts(then_branch, 0, false, bound)
            &&& match else_branch {
                Some(els) => plain_stmts(els, 0, false, bound_after_all(then_branch, 0, bound)),
                None => true,
            }
        },
        StatementView::While { cond, body } => plain_expr(cond, bound) && plain_stmts(
            body,
            0,
            false,
            bound,
        ),
        StatementView::ExprStmt(e) => plain_expr(e, bound),
    }
}

/// Whether the statements from `i` on work on words alone, where `bound`
/// are the names declared before them.
pub open spec fn plain_stmts(
    stmts: Seq<StatementView>,
    i: int,
    top: bool,
    bound: Set<Seq<char>>,
) -> bool
    decreases stmts, stmts.len() - i,
{
    if 0 <= i < stmts.len() {
        plain_stmt(stmts[i], top, bound) && plain_stmts(
            stmts,
            i + 1,
            top,
            bound_after(stmts[i], bound),
        )
    } else {
        true
    }
}

/// The value of an expression over the values of the variables; none
/// where a variable has no value or an operation has no result.
pub open spec fn eval(e: ExprView, vars: Map<Seq<char>, i64>) -> Option<i64>
    decreases e,
{
    match e {
        ExprView::Number(n) => Some(n),
        ExprView::Bool(b) => Some(flag(b)),
        ExprView::Variable(x) => if vars.contains_key(x) {
            Some(vars[x])
        } else {
            None
        },
        ExprView::Unary { op, expr } => match eval(*expr, vars) {
            Some(v) => match op {
                UnOp::Pos => Some(v),
                UnOp::Neg => fold(WordOp::Sub, 0, v),
            },
            None => None,
        },
        ExprView::Binary { op, left, right } => match eval(*left, vars) {
            Some(a) => match eval(*right, vars) {
                Some(b) => fold(word_op(op), a, b),
                None => None,
            },
            None => None,
        },
        _ => None,
    }
}

/// How the evaluation of statements ends.
pub enum Outcome {
    /// It goes on, with these values of the variables and these words
    /// printed so far.
    Next(Map<Seq<char>, i64>, Seq<i64>),
    /// It returned this word, with these words printed.
    Return(i64, Seq<i64>),
    /// It has no meaning, or the fuel ran out.
    Stuck,
}

/// How the evaluation of a statement ends, over the values of the
/// variables and the words printed so far.
pub open spec fn exec(s: StatementView, vars: Map<Seq<char>, i64>, out: Seq<i64>, fuel: nat) -> Outcome
    decreases fuel, s, 0nat,
{
    match s {
        StatementView::VarDecl { name, expr } => match eval(expr, vars) {
            Some(v) => Outcome::Next(vars.insert(name, v), out),
            None => Outcome::Stuck,
        },
        StatementView::LetDecl { name, expr } => match eval(expr, vars) {
            Some(v) => Outcome::Next(vars.insert(name, v), out),
            None => Outcome::Stuck,
        },
        StatementView::Assign { name, expr } => match eval(expr, vars) {
            Some(v) => if vars.contains_key(name) {
                Outcome::Next(vars.insert(name, v), out)
            } else {
                Outcome::Stuck
            },
            None => Outcome::Stuck,
        },
        StatementView::Return { expr } => match eval(expr, vars) {
            Some(v) => Outcome::Return(v, out),
            None => Outcome::Stuck,
        },
        StatementView::Print { expr } => match eval(expr, vars) {
            Some(v) => Outcome::Next(vars, out.push(v)),
            None => Outcome::Stuck,
        },
        StatementView::ExprStmt(e) => match eval(e, vars) {
            Some(_) => Outcome::Next(vars, out),
            None => Outcome::Stuck,
        },
        StatementView::If { cond, then_branch, else_branch } => match eval(cond, vars) {
            Some(c) => if c != 0 {
                exec_all(then_branch, 0, vars, out, fuel)
            } else {
                match else_branch {
                    Some(els) => exec_all(els, 0, vars, out, fuel),
                    None => Outcome::Next(vars, out),
                }
            },
            None => Outcome::Stuck,
        },
        StatementView::While { cond, body } => match eval(cond, vars) {
            Some(c) => if c == 0 {
                Outcome::Next(vars, out)
            } else if fuel == 0 {
                Outcome::Stuck
            } else {
                match exec_all(body, 0, vars, out, fuel) {
                    Outcome::Next(vars2, out2) => exec(s, vars2, out2, (fuel - 1) as nat),
                    other => other,
                }
            },
            None => Outcome::Stuck,
        },
        StatementView::IndexedAssign { array, index, expr } => Outcome::Stuck,
    }
}

/// How the evaluation of the statements from `i` on ends, in order.
pub open spec fn exec_all(
    stmts: Seq<StatementView>,
    i: int,
    vars: Map<Seq<char>, i64>,
    out: Seq<i64>,
    fuel: nat,
) -> Outcome
    decreases fuel, stmts, stmts.len() - i,
{
    if 0 <= i < stmts.len() {
        match exec(stmts[i], vars, out, fuel) {
            Outcome::Next(vars2, out2) => exec_all(stmts, i + 1, vars2, out2, fuel),
            other => other,
        }
    } else {
        Outcome::Next(vars, out)
    }
}

/// The result of a program's top-level statements and the words it
/// prints: what a `return` gives, or zero where the statements end
/// without one; none where the evaluation has no meaning within the
/// fuel.
pub open spec fn evaluate(stmts: Seq<StatementView>, fuel: nat) -> Option<(i64, Seq<i64>)> {
    match exec_all(stmts, 0, Map::empty(), Seq::empty(), fuel) {
        Outcome::Next(_, out) => Some((0, out)),
        Outcome::Return(v, out) => Some((v, out)),
        Outcome::Stuck => None,
    }
}

/// What a run of intermediate code works on: the words in the word
/// slots that were written, and the words printed so far.
pub struct Machine {
    pub slots: Map<int, i64>,
    pub out: Seq<i64>,
}

/// The word that an operand names, given what the instructions of the
/// block yielded so far.
pub open spec fn value(op: Operand, regs: Seq<Option<i64>>) -> Option<i64> {
    match op {
        Operand::Const(c) => Some(c),
        Operand::Reg(i) => if i < regs.len() {
            regs[i as int]
        } else {
            None
        },
        _ => None,
    }
}

/// What an instruction on words yields and how it leaves the machine;
/// none where it has no meaning or works on more than words.
pub open spec fn step(inst: InstView, regs: Seq<Option<i64>>, m: Machine) -> Option<
    (Option<i64>, Machine),
> {
    match inst {
        InstView::Load { addr: Operand::Slot(s) } => if m.slots.contains_key(s as int) {
            Some((Some(m.slots[s as int]), m))
        } else {
            None
        },
        InstView::Store { addr: Operand::Slot(s), value: v } => match value(v, regs) {
            Some(w) => Some((None, Machine { slots: m.slots.insert(s as int, w), out: m.out })),
            None => None,
        },
        InstView::Binary { op, lhs, rhs } => match (value(lhs, regs), value(rhs, regs)) {
            (Some(a), Some(b)) => match fold(op, a, b) {
                Some(c) => Some((Some(c), m)),
                None => None,
            },
            _ => None,
        },
        InstView::PrintWord { value: v } => match value(v, regs) {
            Some(w) => Some((None, Machine { slots: m.slots, out: m.out.push(w) })),
            None => None,
        },
        _ => None,
    }
}

/// What a run of a function returns and prints, from instruction `pc` of
/// block `b` on, where `regs` is what the instructions of the block
/// before `pc` yielded.
pub open spec fn run_from(
    blocks: Seq<BlockView>,
    b: int,
    pc: int,
    regs: Seq<Option<i64>>,
    m: Machine,
    fuel: nat,
) -> Option<(i64, Seq<i64>)>
    decreases fuel,
        if 0 <= b < blocks.len() && 0 <= pc <= blocks[b].insts.len() {
            blocks[b].insts.len() - pc
        } else {
            0
        },
{
    if !(0 <= b < blocks.len()) || pc < 0 {
        None
    } else if pc < blocks[b].insts.len() {
        match step(blocks[b].insts[pc], regs, m) {
            Some((r, m2)) => run_from(blocks, b, pc + 1, regs.push(r), m2, fuel),
            None => None,
        }
    } else {
        match blocks[b].term {
            None => None,
            Some(Terminator::Return(v)) => match value(v, regs) {
                Some(w) => Some((w, m.out)),
                None => None,
            },
            Some(Terminator::Jump(to)) => if fuel == 0 {
                None
            } else {
                run_from(blocks, to as int, 0, Seq::empty(), m, (fuel - 1) as nat)
            },
            Some(Terminator::Branch { cond, if_true, if_false }) => match value(cond, regs) {
                Some(c) => if fuel == 0 {
                    None
                } else if c != 0 {
                    run_from(blocks, if_true as int, 0, Seq::empty(), m, (fuel - 1) as nat)
                } else {
                    run_from(blocks, if_false as int, 0, Seq::empty(), m, (fuel - 1) as nat)
                },
                None => None,
            },
        }
    }
}

/// What a run of a function from its entry returns and prints, on an
/// empty machine.
pub open spec fn run(f: IrFunctionView, fuel: nat) -> Option<(i64, Seq<i64>)> {
    run_from(
        f.blocks,
        0,
        0,
        Seq::empty(),
        Machine { slots: Map::empty(), out: Seq::empty() },
        fuel,
    )
}

} // verus!
