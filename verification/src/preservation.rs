//! Compilation preserves meaning: a program that works on words alone,
//! without functions, compiles and runs as it is written, where every
//! variable is declared before it is used and a declaration inside a
//! branch or a loop declares a new name.
//!
//! The symbol table of a routine is flat: a name that is declared anew
//! inside a branch or a loop stands for the new slot from there on to the
//! end of the routine, whether or not the branch is taken. So the law
//! leaves out a program such as `var x = 1; if (0) { var x = 2; } return x;`,
//! whose code reads a slot that nothing was stored in.

use crate::ast::{ExprView, ProgramView, StatementView, UnOp};
use crate::codegen::{
    aliased, bind_params, entry_env, finish, fold, fresh_state, lower, lower_body,
    lower_declaration, lower_expr, lower_stmt, lower_stmts, word_op, Binding, Env, FnState,
};
use crate::error::CompileErrorView;
use crate::ir::{BlockView, InstView, IrFunctionView, Operand, SlotKind, Terminator, WordOp};
use crate::semantics::{
    bound_after, bound_after_all, eval, evaluate, exec, exec_all, plain_expr, plain_stmt,
    plain_stmts, run, run_from, step, value, Machine, Outcome,
};
use crate::signature::{analyze, SignatureView};
use crate::typing::{sized, sized_function};
use crate::structure::{
    block_within, enter_body, enter_if, enter_loop, fits, grows, lemma_enter_body,
    lemma_enter_if, lemma_enter_loop, lemma_grows_trans, lemma_seal_grows,
};
use vstd::prelude::*;

verus! {

/// The word slot of a binding.
pub open spec fn slot_of(b: Binding) -> int {
    match b {
        Binding::Scalar { slot } => slot as int,
        Binding::Array { slot, len } => slot as int,
        Binding::ArrayParam { slot, len_slot } => slot as int,
    }
}

/// Whether every name of the symbol table stands for a word in a slot of
/// the function.
pub open spec fn scalar_bindings(st: FnState) -> bool {
    forall|name: Seq<char>| #[trigger]
        st.bindings.contains_key(name) ==> st.bindings[name] is Scalar && slot_of(
            st.bindings[name],
        ) < st.locals.len()
}

/// Whether a symbol table holds all that another holds.
pub open spec fn submap(a: Map<Seq<char>, Binding>, b: Map<Seq<char>, Binding>) -> bool {
    forall|name: Seq<char>| #[trigger] a.contains_key(name) ==> b.contains_key(name) && b[name]
        == a[name]
}

/// Whether no two names of a symbol table share a slot.
pub open spec fn injective(b: Map<Seq<char>, Binding>) -> bool {
    forall|x: Seq<char>, y: Seq<char>|
        b.contains_key(x) && b.contains_key(y) && x != y ==> slot_of(#[trigger] b[x]) != slot_of(
            #[trigger] b[y],
        )
}

/// Whether an expression left a state steady: everything as it was, but
/// for instructions at the end of the current block.
pub open spec fn steady(st: FnState, st2: FnState) -> bool {
    &&& st.wf()
    &&& st2.wf()
    &&& st2.current == st.current
    &&& st2.blocks.len() == st.blocks.len()
    &&& st2.locals == st.locals
    &&& st2.bindings == st.bindings
    &&& st2.blocks[st.current].term == st.blocks[st.current].term
    &&& block_within(st.blocks[st.current], st2.blocks[st.current])
    &&& forall|b: int|
        0 <= b < st.blocks.len() && b != st.current ==> #[trigger] st2.blocks[b] == st.blocks[b]
}

/// Whether statements left the blocks of a state in place: the blocks
/// other than the current one as they were, the current one within what
/// it became, and a current block that is the same or new.
pub open spec fn framed(st: FnState, st2: FnState) -> bool {
    &&& st.wf()
    &&& st2.wf()
    &&& st.blocks.len() <= st2.blocks.len()
    &&& st.locals.len() <= st2.locals.len()
    &&& block_within(st.blocks[st.current], st2.blocks[st.current])
    &&& forall|b: int|
        0 <= b < st.blocks.len() && b != st.current ==> #[trigger] st2.blocks[b] == st.blocks[b]
    &&& (st2.current == st.current || st2.current >= st.blocks.len())
}

/// What is steady is framed, and its blocks grow.
pub proof fn lemma_steady_grows(st: FnState, st2: FnState)
    requires
        steady(st, st2),
    ensures
        framed(st, st2),
        grows(st.blocks, st2.blocks),
{
    assert forall|x: int| 0 <= x < st.blocks.len() implies block_within(
        #[trigger] st.blocks[x],
        st2.blocks[x],
    ) by {
        if x != st.current {
            assert(st2.blocks[x] == st.blocks[x]);
        }
    }
}

/// What is framed grows.
pub proof fn lemma_framed_grows(st: FnState, st2: FnState)
    requires
        framed(st, st2),
    ensures
        grows(st.blocks, st2.blocks),
{
    assert forall|x: int| 0 <= x < st.blocks.len() implies block_within(
        #[trigger] st.blocks[x],
        st2.blocks[x],
    ) by {
        if x != st.current {
            assert(st2.blocks[x] == st.blocks[x]);
        }
    }
}

/// Steady after steady is steady.
pub proof fn lemma_steady_trans(a: FnState, b: FnState, c: FnState)
    requires
        steady(a, b),
        steady(b, c),
    ensures
        steady(a, c),
{
    let x = a.current;
    assert forall|i: int| 0 <= i < a.blocks[x].insts.len() implies #[trigger] c.blocks[x].insts[i]
        == a.blocks[x].insts[i] by {
        assert(b.blocks[x].insts[i] == a.blocks[x].insts[i]);
        assert(c.blocks[x].insts[i] == b.blocks[x].insts[i]);
    }
    assert forall|k: int| 0 <= k < a.blocks.len() && k != a.current implies #[trigger] c.blocks[k]
        == a.blocks[k] by {
        assert(b.blocks[k] == a.blocks[k]);
        assert(c.blocks[k] == b.blocks[k]);
    }
}

/// Framed after framed is framed.
pub proof fn lemma_framed_trans(a: FnState, b: FnState, c: FnState)
    requires
        framed(a, b),
        framed(b, c),
    ensures
        framed(a, c),
{
    let x = a.current;
    lemma_framed_grows(b, c);
    assert(block_within(b.blocks[x], c.blocks[x]));
    assert forall|i: int| 0 <= i < a.blocks[x].insts.len() implies #[trigger] c.blocks[x].insts[i]
        == a.blocks[x].insts[i] by {
        assert(b.blocks[x].insts[i] == a.blocks[x].insts[i]);
        assert(c.blocks[x].insts[i] == b.blocks[x].insts[i]);
    }
    assert forall|k: int| 0 <= k < a.blocks.len() && k != a.current implies #[trigger] c.blocks[k]
        == a.blocks[k] by {
        assert(b.blocks[k] == a.blocks[k]);
        assert(block_within(b.blocks[k], c.blocks[k]));
        if k != b.current {
            assert(c.blocks[k] == b.blocks[k]);
        }
    }
}

/// An instruction leaves the state steady.
pub proof fn lemma_emit_steady(st: FnState, inst: InstView)
    requires
        st.wf(),
    ensures
        steady(st, st.emit(inst)),
{
}

/// An operation on two words leaves the state steady.
pub proof fn lemma_arith_steady(st: FnState, op: WordOp, l: Operand, r: Operand)
    requires
        st.wf(),
    ensures
        steady(st, st.arith(op, l, r).0),
{
}

/// An expression on words compiles and leaves the state steady.
pub proof fn lemma_expr_steady(env: Env, st: FnState, e: ExprView)
    requires
        st.wf(),
        plain_expr(e, st.bindings.dom()),
        scalar_bindings(st),
    ensures
        lower_expr(env, st, e) is Ok,
        steady(st, lower_expr(env, st, e)->Ok_0.0),
    decreases e,
{
    match e {
        ExprView::Variable(x) => {
            assert(st.bindings.contains_key(x));
        },
        ExprView::Unary { op, expr } => {
            lemma_expr_steady(env, st, *expr);
            let (st1, v) = lower_expr(env, st, *expr)->Ok_0;
            lemma_arith_steady(st1, WordOp::Sub, Operand::Const(0), v);
            lemma_steady_trans(st, st1, st1.arith(WordOp::Sub, Operand::Const(0), v).0);
        },
        ExprView::Binary { op, left, right } => {
            lemma_expr_steady(env, st, *left);
            let (st1, l) = lower_expr(env, st, *left)->Ok_0;
            lemma_expr_steady(env, st1, *right);
            let (st2, r) = lower_expr(env, st1, *right)->Ok_0;
            lemma_arith_steady(st2, word_op(op), l, r);
            lemma_steady_trans(st, st1, st2);
            lemma_steady_trans(st, st2, st2.arith(word_op(op), l, r).0);
        },
        _ => {},
    }
}

/// Whether statements that were compiled from one state to another did
/// what statements on words do: they left the blocks in place and the
/// symbol table a table of words, the names of the table are those
/// declared after them, and no two names share a slot where none did
/// and the slots can be counted.
pub open spec fn lowered(st: FnState, st2: FnState, after: Set<Seq<char>>) -> bool {
    &&& framed(st, st2)
    &&& scalar_bindings(st2)
    &&& st2.bindings.dom() == after
    &&& injective(st.bindings) && st2.locals.len() <= usize::MAX ==> injective(st2.bindings)
}

/// A statement on words compiles, leaves the blocks of the state in
/// place and the symbol table a table of words, and binds the names that
/// it declares. Where its declarations declare new names only, the
/// symbol table holds all that it held.
#[verifier::rlimit(60)]
pub proof fn lemma_stmt_framed(env: Env, st: FnState, s: StatementView, top: bool)
    requires
        st.wf(),
        plain_stmt(s, top, st.bindings.dom()),
        scalar_bindings(st),
        !env.returns_array,
    ensures
        lower_stmt(env, st, s) is Ok,
        lowered(st, lower_stmt(env, st, s)->Ok_0, bound_after(s, st.bindings.dom())),
        plain_stmt(s, false, st.bindings.dom()) ==> submap(
            st.bindings,
            lower_stmt(env, st, s)->Ok_0.bindings,
        ),
    decreases s, 0nat,
{
    let dom = st.bindings.dom();
    match s {
        StatementView::VarDecl { name, expr } => {
            lemma_declaration_framed(env, st, name, expr, false);
        },
        StatementView::LetDecl { name, expr } => {
            lemma_declaration_framed(env, st, name, expr, true);
        },
        StatementView::Assign { name, expr } => {
            lemma_expr_steady(env, st, expr);
            let (st1, v) = lower_expr(env, st, expr)->Ok_0;
            assert(st.bindings.contains_key(name));
            let b = st.lookup(name)->Some_0;
            assert(b is Scalar);
            let store = InstView::Store { addr: Operand::Slot(b->Scalar_slot), value: v };
            let st2 = st1.emit(store);
            lemma_emit_steady(st1, store);
            lemma_steady_trans(st, st1, st2);
            lemma_steady_grows(st, st2);
            assert(lower_stmt(env, st, s) == Ok::<FnState, CompileErrorView>(st2));
        },
        StatementView::Return { expr } => {
            lemma_expr_steady(env, st, expr);
            let (st1, v) = lower_expr(env, st, expr)->Ok_0;
            lemma_steady_grows(st, st1);
            let st2 = st1.terminate(Terminator::Return(v));
            assert(framed(st, st2));
        },
        StatementView::Print { expr } => {
            lemma_expr_steady(env, st, expr);
            let (st1, v) = lower_expr(env, st, expr)->Ok_0;
            let st2 = st1.emit(InstView::PrintWord { value: v });
            lemma_emit_steady(st1, InstView::PrintWord { value: v });
            lemma_steady_trans(st, st1, st2);
            lemma_steady_grows(st, st2);
        },
        StatementView::ExprStmt(e) => {
            lemma_expr_steady(env, st, e);
            let (st1, v) = lower_expr(env, st, e)->Ok_0;
            lemma_steady_grows(st, st1);
        },
        StatementView::If { cond, then_branch, else_branch } => {
            lemma_expr_steady(env, st, cond);
            let (st1, c) = lower_expr(env, st, cond)->Ok_0;
            let then_block = st1.next_block();
            let else_block = then_block + 1;
            let merge_block = then_block + 2;
            let st4 = enter_if(st1, c);
            lemma_enter_if(st1, c);
            assert(scalar_bindings(st4));
            lemma_stmts_framed(env, st4, then_branch, 0, false);
            let st5 = lower_stmts(env, st4, then_branch, 0)->Ok_0;
            let jump = Terminator::Jump(merge_block as usize);
            let st6 = st5.terminate(jump).at(else_block);
            lemma_seal_grows(st5, jump, else_block);
            assert(st6.wf());
            assert(scalar_bindings(st6));
            match else_branch {
                Some(els) => {
                    lemma_stmts_framed(env, st6, els, 0, false);
                },
                None => {},
            }
            let st7 = match else_branch {
                Some(els) => lower_stmts(env, st6, els, 0)->Ok_0,
                None => st6,
            };
            let st8 = st7.terminate(jump).at(merge_block);
            lemma_seal_grows(st7, jump, merge_block);
            assert(lower_stmt(env, st, s) == Ok::<FnState, CompileErrorView>(st8));
            assert(st.blocks.len() <= st7.blocks.len());
            assert forall|b: int| 0 <= b < st.blocks.len() && b != st.current implies 
                #[trigger] st8.blocks[b] == st.blocks[b] by {
                assert(st1.blocks[b] == st.blocks[b]);
                assert(st4.blocks[b] == st1.blocks[b]);
                assert(st5.blocks[b] == st4.blocks[b]);
                assert(st6.blocks[b] == st5.blocks[b]);
                assert(st7.blocks[b] == st6.blocks[b]);
            }
            let x = st.current;
            assert(st5.blocks[x] == st4.blocks[x]);
            assert(st6.blocks[x] == st5.blocks[x]);
            assert(st7.blocks[x] == st6.blocks[x]);
            assert(st8.blocks[x] == st4.blocks[x]);
            assert(block_within(st.blocks[x], st8.blocks[x])) by {
                assert forall|i: int| 0 <= i < st.blocks[x].insts.len() implies 
                    #[trigger] st8.blocks[x].insts[i] == st.blocks[x].insts[i] by {
                    assert(st1.blocks[x].insts[i] == st.blocks[x].insts[i]);
                }
            }
            assert(framed(st, st8));
            assert(scalar_bindings(st8));
            assert(submap(st.bindings, st8.bindings)) by {
                assert(submap(st4.bindings, st5.bindings));
                assert(submap(st6.bindings, st7.bindings));
            }
        },
        StatementView::While { cond, body } => {
            let loop_block = st.next_block();
            let after_block = loop_block + 1;
            let st2 = enter_loop(st);
            lemma_enter_loop(st);
            assert(scalar_bindings(st2));
            lemma_expr_steady(env, st2, cond);
            let (st3, c) = lower_expr(env, st2, cond)->Ok_0;
            let st4 = enter_body(st3, c, after_block);
            lemma_enter_body(st3, c, after_block);
            assert(scalar_bindings(st4));
            lemma_stmts_framed(env, st4, body, 0, false);
            let st5 = lower_stmts(env, st4, body, 0)->Ok_0;
            let back = Terminator::Jump(loop_block as usize);
            let st6 = st5.terminate(back).at(after_block);
            lemma_seal_grows(st5, back, after_block);
            assert(lower_stmt(env, st, s) == Ok::<FnState, CompileErrorView>(st6));
            assert forall|b: int| 0 <= b < st.blocks.len() && b != st.current implies 
                #[trigger] st6.blocks[b] == st.blocks[b] by {
                assert(st2.blocks[b] == st.blocks[b]);
                assert(st3.blocks[b] == st2.blocks[b]);
                assert(st4.blocks[b] == st3.blocks[b]);
                assert(st5.blocks[b] == st4.blocks[b]);
            }
            let x = st.current;
            assert(st3.blocks[x] == st2.blocks[x]);
            assert(st4.blocks[x] == st3.blocks[x]);
            assert(st5.blocks[x] == st4.blocks[x]);
            assert(st6.blocks[x] == st2.blocks[x]);
            assert(framed(st, st6));
            assert(scalar_bindings(st6));
            assert(submap(st.bindings, st6.bindings)) by {
                assert(submap(st4.bindings, st5.bindings));
            }
        },
        StatementView::IndexedAssign { array, index, expr } => {},
    }
}

/// A declaration of a word compiles, leaves the blocks of the state in
/// place and the symbol table a table of words, and binds its name.
pub proof fn lemma_declaration_framed(
    env: Env,
    st: FnState,
    name: Seq<char>,
    e: ExprView,
    alias: bool,
)
    requires
        st.wf(),
        plain_expr(e, st.bindings.dom()),
        scalar_bindings(st),
    ensures
        lower_declaration(env, st, name, e, alias) is Ok,
        lowered(
            st,
            lower_declaration(env, st, name, e, alias)->Ok_0,
            st.bindings.dom().insert(name),
        ),
        !st.bindings.contains_key(name) ==> submap(
            st.bindings,
            lower_declaration(env, st, name, e, alias)->Ok_0.bindings,
        ),
        lower_declaration(env, st, name, e, alias)->Ok_0.bindings == st.bindings.insert(
            name,
            Binding::Scalar { slot: st.locals.len() as usize },
        ),
{
    lemma_expr_steady(env, st, e);
    match e {
        ExprView::Variable(v) => {
            assert(st.bindings.contains_key(v));
        },
        _ => {},
    }
    assert(aliased(st, e, alias) is None);
    let (st1, v) = lower_expr(env, st, e)->Ok_0;
    lemma_steady_grows(st, st1);
    let st2 = st1.bind_scalar(name, v);
    let slot = st1.next_local();
    let mid = st1.add_local(SlotKind::Word);
    lemma_emit_steady(mid, InstView::Store { addr: Operand::Slot(slot), value: v });
    assert(lower_declaration(env, st, name, e, alias) == Ok::<FnState, CompileErrorView>(st2));
    assert(framed(st, st2));
    assert forall|n: Seq<char>| #[trigger] st2.bindings.contains_key(n) implies st2.bindings[n]
        is Scalar && slot_of(st2.bindings[n]) < st2.locals.len() by {
        if n != name {
            assert(st.bindings.contains_key(n));
        }
    }
    assert(st2.bindings.dom() =~= st.bindings.dom().insert(name));
}

/// Statements on words compile, leave the blocks of the state in place
/// and the symbol table a table of words, and bind the names that they
/// declare. Where their declarations declare new names only, the symbol
/// table holds all that it held.
pub proof fn lemma_stmts_framed(
    env: Env,
    st: FnState,
    stmts: Seq<StatementView>,
    i: int,
    top: bool,
)
    requires
        st.wf(),
        0 <= i,
        plain_stmts(stmts, i, top, st.bindings.dom()),
        scalar_bindings(st),
        !env.returns_array,
    ensures
        lower_stmts(env, st, stmts, i) is Ok,
        lowered(
            st,
            lower_stmts(env, st, stmts, i)->Ok_0,
            bound_after_all(stmts, i, st.bindings.dom()),
        ),
        plain_stmts(stmts, i, false, st.bindings.dom()) ==> submap(
            st.bindings,
            lower_stmts(env, st, stmts, i)->Ok_0.bindings,
        ),
    decreases stmts, stmts.len() - i,
{
    if i < stmts.len() {
        lemma_stmt_framed(env, st, stmts[i], top);
        let st1 = lower_stmt(env, st, stmts[i])->Ok_0;
        lemma_stmts_framed(env, st1, stmts, i + 1, top);
        let st2 = lower_stmts(env, st1, stmts, i + 1)->Ok_0;
        lemma_framed_trans(st, st1, st2);
    } else {
        assert(framed(st, st)) by {
            assert forall|j: int| 0 <= j < st.blocks[st.current].insts.len() implies 
                #[trigger] st.blocks[st.current].insts[j] == st.blocks[st.current].insts[j] by {}
        }
    }
}

/// Whether a sequence holds all of another at its start.
pub open spec fn keeps(regs: Seq<Option<i64>>, regs2: Seq<Option<i64>>) -> bool {
    &&& regs.len() <= regs2.len()
    &&& forall|i: int| 0 <= i < regs.len() ==> #[trigger] regs2[i] == regs[i]
}

/// Whether the machine holds the value of every variable that has one
/// in the slot that a symbol table gives it.
pub open spec fn agree(vars: Map<Seq<char>, i64>, b: Map<Seq<char>, Binding>, m: Machine) -> bool {
    forall|name: Seq<char>| #[trigger]
        vars.contains_key(name) ==> {
            &&& b.contains_key(name)
            &&& m.slots.contains_key(slot_of(b[name]))
            &&& m.slots[slot_of(b[name])] == vars[name]
        }
}

/// Where a run stands after a piece of code: how many jumps it took, what
/// the instructions of its block yielded so far, and the machine.
pub struct Reached {
    pub used: nat,
    pub regs: Seq<Option<i64>>,
    pub m: Machine,
}

/// A run goes on after an instruction that has a meaning.
pub proof fn lemma_run_inst(
    f: Seq<BlockView>,
    b: int,
    pc: int,
    regs: Seq<Option<i64>>,
    m: Machine,
    k: nat,
)
    requires
        0 <= b < f.len(),
        0 <= pc < f[b].insts.len(),
        step(f[b].insts[pc], regs, m) is Some,
    ensures
        run_from(f, b, pc, regs, m, k) == run_from(
            f,
            b,
            pc + 1,
            regs.push(step(f[b].insts[pc], regs, m)->Some_0.0),
            step(f[b].insts[pc], regs, m)->Some_0.1,
            k,
        ),
{
}

/// A run that stands at a jump goes on at the start of the block that the
/// jump names.
pub proof fn lemma_run_jump(
    f: Seq<BlockView>,
    b: int,
    regs: Seq<Option<i64>>,
    m: Machine,
    to: usize,
    k: nat,
)
    requires
        0 <= b < f.len(),
        f[b].term == Some(Terminator::Jump(to)),
    ensures
        run_from(f, b, f[b].insts.len() as int, regs, m, k + 1) == run_from(
            f,
            to as int,
            0,
            Seq::empty(),
            m,
            k,
        ),
{
}

/// A run that stands at a branch goes on at the start of the block that
/// the branch chooses.
pub proof fn lemma_run_branch(
    f: Seq<BlockView>,
    b: int,
    regs: Seq<Option<i64>>,
    m: Machine,
    cond: Operand,
    if_true: usize,
    if_false: usize,
    k: nat,
)
    requires
        0 <= b < f.len(),
        f[b].term == Some(Terminator::Branch { cond, if_true, if_false }),
        value(cond, regs) is Some,
    ensures
        run_from(f, b, f[b].insts.len() as int, regs, m, k + 1) == run_from(
            f,
            if value(cond, regs)->Some_0 != 0 {
                if_true as int
            } else {
                if_false as int
            },
            0,
            Seq::empty(),
            m,
            k,
        ),
{
}

/// A run that stands at a return ends with the word returned and the
/// words printed.
pub proof fn lemma_run_return(
    f: Seq<BlockView>,
    b: int,
    regs: Seq<Option<i64>>,
    m: Machine,
    v: Operand,
    k: nat,
)
    requires
        0 <= b < f.len(),
        f[b].term == Some(Terminator::Return(v)),
        value(v, regs) is Some,
    ensures
        run_from(f, b, f[b].insts.len() as int, regs, m, k) == Some(
            (value(v, regs)->Some_0, m.out),
        ),
{
}

/// A word that an operand names is named by it still after more
/// instructions.
pub proof fn lemma_value_kept(v: Operand, regs: Seq<Option<i64>>, regs2: Seq<Option<i64>>)
    requires
        keeps(regs, regs2),
        value(v, regs) is Some,
    ensures
        value(v, regs2) == value(v, regs),
{
    match v {
        Operand::Reg(i) => {
            assert(regs2[i as int] == regs[i as int]);
        },
        _ => {},
    }
}

/// A run computes an operation on two words as the generator emitted it.
pub proof fn lemma_arith_runs(
    st: FnState,
    op: WordOp,
    l: Operand,
    r: Operand,
    f: Seq<BlockView>,
    regs: Seq<Option<i64>>,
    m: Machine,
) -> (regs2: Seq<Option<i64>>)
    requires
        st.wf(),
        !st.sealed(),
        grows(st.arith(op, l, r).0.blocks, f),
        fits(f),
        regs.len() == st.blocks[st.current].insts.len(),
        value(l, regs) is Some,
        value(r, regs) is Some,
        fold(op, value(l, regs)->Some_0, value(r, regs)->Some_0) is Some,
    ensures
        regs2.len() == st.arith(op, l, r).0.blocks[st.current].insts.len(),
        keeps(regs, regs2),
        value(st.arith(op, l, r).1, regs2) == fold(
            op,
            value(l, regs)->Some_0,
            value(r, regs)->Some_0,
        ),
        forall|k: nat|
            run_from(f, st.current, regs.len() as int, regs, m, k) == run_from(
                f,
                st.current,
                regs2.len() as int,
                regs2,
                m,
                k,
            ),
{
    let (st2, v) = st.arith(op, l, r);
    let folded = match (l, r) {
        (Operand::Const(a), Operand::Const(b)) => fold(op, a, b) is Some,
        _ => false,
    };
    if folded {
        regs
    } else {
        let inst = InstView::Binary { op, lhs: l, rhs: r };
        let pc = regs.len() as int;
        assert(st2 == st.emit(inst));
        assert(block_within(st2.blocks[st.current], f[st.current]));
        assert(f[st.current].insts[pc] == st2.blocks[st.current].insts[pc]);
        assert(f[st.current].insts[pc] == inst);
        let c = fold(op, value(l, regs)->Some_0, value(r, regs)->Some_0)->Some_0;
        let regs2 = regs.push(Some(c));
        assert(step(inst, regs, m) == Some((Some(c), m)));
        assert forall|k: nat|
            run_from(f, st.current, regs.len() as int, regs, m, k) == run_from(
                f,
                st.current,
                regs2.len() as int,
                regs2,
                m,
                k,
            ) by {
            lemma_run_inst(f, st.current, pc, regs, m, k);
        }
        assert(f[st.current].insts.len() <= usize::MAX);
        regs2
    }
}

/// A run computes an expression on words as the program means it: it
/// goes through the instructions that the generator emitted for the
/// expression, leaves the machine as it was, and the operand that the
/// generator gave names the value of the expression.
#[verifier::rlimit(60)]
pub proof fn lemma_expr_runs(
    env: Env,
    st: FnState,
    e: ExprView,
    b: Map<Seq<char>, Binding>,
    f: Seq<BlockView>,
    vars: Map<Seq<char>, i64>,
    regs: Seq<Option<i64>>,
    m: Machine,
) -> (regs2: Seq<Option<i64>>)
    requires
        st.wf(),
        !st.sealed(),
        plain_expr(e, st.bindings.dom()),
        scalar_bindings(st),
        submap(st.bindings, b),
        grows(lower_expr(env, st, e)->Ok_0.0.blocks, f),
        fits(f),
        agree(vars, b, m),
        regs.len() == st.blocks[st.current].insts.len(),
        eval(e, vars) is Some,
    ensures
        steady(st, lower_expr(env, st, e)->Ok_0.0),
        regs2.len() == lower_expr(env, st, e)->Ok_0.0.blocks[st.current].insts.len(),
        keeps(regs, regs2),
        value(lower_expr(env, st, e)->Ok_0.1, regs2) == eval(e, vars),
        forall|k: nat|
            run_from(f, st.current, regs.len() as int, regs, m, k) == run_from(
                f,
                st.current,
                regs2.len() as int,
                regs2,
                m,
                k,
            ),
    decreases e,
{
    lemma_expr_steady(env, st, e);
    let (st_end, v_end) = lower_expr(env, st, e)->Ok_0;
    match e {
        ExprView::Number(n) => regs,
        ExprView::Bool(b) => regs,
        ExprView::Variable(x) => {
            assert(vars.contains_key(x));
            assert(st.bindings.contains_key(x));
            let slot = st.bindings[x]->Scalar_slot;
            let inst = InstView::Load { addr: Operand::Slot(slot) };
            let pc = regs.len() as int;
            assert(st_end == st.emit(inst));
            assert(block_within(st_end.blocks[st.current], f[st.current]));
            assert(f[st.current].insts[pc] == st_end.blocks[st.current].insts[pc]);
            assert(b[x] == st.bindings[x]);
            assert(m.slots.contains_key(slot_of(b[x])));
            let w = m.slots[slot as int];
            let regs2 = regs.push(Some(w));
            assert(step(inst, regs, m) == Some((Some(w), m)));
            assert forall|k: nat|
                run_from(f, st.current, regs.len() as int, regs, m, k) == run_from(
                    f,
                    st.current,
                    regs2.len() as int,
                    regs2,
                    m,
                    k,
                ) by {
                lemma_run_inst(f, st.current, pc, regs, m, k);
            }
            assert(f[st.current].insts.len() <= usize::MAX);
            regs2
        },
        ExprView::Unary { op, expr } => {
            lemma_expr_steady(env, st, *expr);
            let (st1, v) = lower_expr(env, st, *expr)->Ok_0;
            match op {
                UnOp::Pos => lemma_expr_runs(env, st, *expr, b, f, vars, regs, m),
                UnOp::Neg => {
                    lemma_arith_steady(st1, WordOp::Sub, Operand::Const(0), v);
                    lemma_steady_grows(st1, st_end);
                    lemma_grows_trans(st1.blocks, st_end.blocks, f);
                    let regs1 = lemma_expr_runs(env, st, *expr, b, f, vars, regs, m);
                    let regs2 = lemma_arith_runs(
                        st1,
                        WordOp::Sub,
                        Operand::Const(0),
                        v,
                        f,
                        regs1,
                        m,
                    );
                    regs2
                },
            }
        },
        ExprView::Binary { op, left, right } => {
            lemma_expr_steady(env, st, *left);
            let (st1, l) = lower_expr(env, st, *left)->Ok_0;
            lemma_expr_steady(env, st1, *right);
            let (st2, r) = lower_expr(env, st1, *right)->Ok_0;
            lemma_arith_steady(st2, word_op(op), l, r);
            lemma_steady_grows(st2, st_end);
            lemma_grows_trans(st2.blocks, st_end.blocks, f);
            lemma_steady_grows(st1, st2);
            lemma_grows_trans(st1.blocks, st2.blocks, f);
            let regs1 = lemma_expr_runs(env, st, *left, b, f, vars, regs, m);
            let regs2 = lemma_expr_runs(env, st1, *right, b, f, vars, regs1, m);
            lemma_value_kept(l, regs1, regs2);
            let regs3 = lemma_arith_runs(st2, word_op(op), l, r, f, regs2, m);
            regs3
        },
        _ => regs,
    }
}

/// Whether a run from one place reaches what the evaluation of some
/// code reached: where the evaluation goes on, the run stands at the end
/// of the current block of the state after the code, which is open, with
/// a machine that agrees with the variables over the symbol table `b`
/// and has printed the same;
/// where the evaluation returned, the run returns the same and has
/// printed the same. The run takes `r.used` jumps for it.
pub open spec fn follows(
    o: Outcome,
    f: Seq<BlockView>,
    st: FnState,
    regs: Seq<Option<i64>>,
    m: Machine,
    st2: FnState,
    b: Map<Seq<char>, Binding>,
    r: Reached,
) -> bool {
    match o {
        Outcome::Next(vars2, out2) => {
            &&& !st2.sealed()
            &&& r.m.out == out2
            &&& agree(vars2, b, r.m)
            &&& r.regs.len() == st2.blocks[st2.current].insts.len()
            &&& forall|n: nat|
                n >= r.used ==> #[trigger] run_from(f, st.current, regs.len() as int, regs, m, n)
                    == run_from(
                    f,
                    st2.current,
                    r.regs.len() as int,
                    r.regs,
                    r.m,
                    (n - r.used) as nat,
                )
        },
        Outcome::Return(v, out2) => forall|n: nat|
            n >= r.used ==> #[trigger] run_from(f, st.current, regs.len() as int, regs, m, n)
                == Some((v, out2)),
        Outcome::Stuck => true,
    }
}

/// A block that is sealed is the same in all blocks that grow from it.
pub proof fn lemma_sealed_stays(a: Seq<BlockView>, b: Seq<BlockView>, x: int)
    requires
        grows(a, b),
        0 <= x < a.len(),
        a[x].term is Some,
    ensures
        b[x] == a[x],
{
    assert(block_within(a[x], b[x]));
}

/// A run stores a word as the generator emitted it.
pub proof fn lemma_store_runs(
    st: FnState,
    slot: usize,
    v: Operand,
    f: Seq<BlockView>,
    regs: Seq<Option<i64>>,
    m: Machine,
    k: nat,
)
    requires
        st.wf(),
        !st.sealed(),
        grows(st.emit(InstView::Store { addr: Operand::Slot(slot), value: v }).blocks, f),
        regs.len() == st.blocks[st.current].insts.len(),
        value(v, regs) is Some,
    ensures
        run_from(f, st.current, regs.len() as int, regs, m, k) == run_from(
            f,
            st.current,
            (regs.len() + 1) as int,
            regs.push(None),
            Machine { slots: m.slots.insert(slot as int, value(v, regs)->Some_0), out: m.out },
            k,
        ),
{
    let inst = InstView::Store { addr: Operand::Slot(slot), value: v };
    let st2 = st.emit(inst);
    let pc = regs.len() as int;
    assert(block_within(st2.blocks[st.current], f[st.current]));
    assert(f[st.current].insts[pc] == st2.blocks[st.current].insts[pc]);
    lemma_run_inst(f, st.current, pc, regs, m, k);
}

/// A run goes through a statement on words as the program means it,
/// where the statement declares new names only. The machine agrees with
/// the variables over a symbol table `b` that holds all that the
/// generator's table holds after the statement, and in which no two names
/// share a slot.
#[verifier::rlimit(60)]
pub proof fn lemma_stmt_runs(
    env: Env,
    st: FnState,
    s: StatementView,
    b: Map<Seq<char>, Binding>,
    f: Seq<BlockView>,
    vars: Map<Seq<char>, i64>,
    regs: Seq<Option<i64>>,
    m: Machine,
    fuel: nat,
) -> (r: Reached)
    requires
        st.wf(),
        !st.sealed(),
        plain_stmt(s, false, st.bindings.dom()),
        scalar_bindings(st),
        !env.returns_array,
        submap(lower_stmt(env, st, s)->Ok_0.bindings, b),
        injective(b),
        grows(lower_stmt(env, st, s)->Ok_0.blocks, f),
        fits(f),
        agree(vars, b, m),
        regs.len() == st.blocks[st.current].insts.len(),
        !(exec(s, vars, m.out, fuel) is Stuck),
    ensures
        follows(exec(s, vars, m.out, fuel), f, st, regs, m, lower_stmt(env, st, s)->Ok_0, b, r),
        s is While ==> r.used >= 1,
    decreases fuel, s, 1nat,
{
    let st_end = lower_stmt(env, st, s)->Ok_0;
    lemma_stmt_framed(env, st, s, false);
    match s {
        StatementView::VarDecl { name, expr } => {
            lemma_declaration_framed(env, st, name, expr, false);
            assert(st_end.bindings.contains_key(name));
            assert(b.insert(name, st_end.bindings[name]) =~= b);
            lemma_declaration_runs(env, st, name, expr, false, b, b, f, vars, regs, m)
        },
        StatementView::LetDecl { name, expr } => {
            lemma_declaration_framed(env, st, name, expr, true);
            assert(st_end.bindings.contains_key(name));
            assert(b.insert(name, st_end.bindings[name]) =~= b);
            lemma_declaration_runs(env, st, name, expr, true, b, b, f, vars, regs, m)
        },
        StatementView::Assign { name, expr } => {
            lemma_expr_steady(env, st, expr);
            let (st1, v) = lower_expr(env, st, expr)->Ok_0;
            assert(st.bindings.contains_key(name));
            let slot = st.bindings[name]->Scalar_slot;
            let inst = InstView::Store { addr: Operand::Slot(slot), value: v };
            assert(st_end == st1.emit(inst));
            lemma_emit_steady(st1, inst);
            lemma_steady_grows(st1, st_end);
            lemma_grows_trans(st1.blocks, st_end.blocks, f);
            let regs1 = lemma_expr_runs(env, st, expr, b, f, vars, regs, m);
            let w = eval(expr, vars)->Some_0;
            let m2 = Machine { slots: m.slots.insert(slot as int, w), out: m.out };
            let regs2 = regs1.push(None);
            assert forall|n: nat| n >= 0 implies #[trigger] run_from(
                f,
                st.current,
                regs.len() as int,
                regs,
                m,
                n,
            ) == run_from(
                f,
                st_end.current,
                regs2.len() as int,
                regs2,
                m2,
                (n - (0)) as nat,
            ) by {
                let k = (n - 0) as nat;
                lemma_store_runs(st1, slot, v, f, regs1, m, k);
            }
            let vars2 = vars.insert(name, w);
            assert(b[name] == st.bindings[name]);
            assert(agree(vars2, b, m2)) by {
                assert forall|n: Seq<char>| #[trigger] vars2.contains_key(n) implies {
                    &&& b.contains_key(n)
                    &&& m2.slots.contains_key(slot_of(b[n]))
                    &&& m2.slots[slot_of(b[n])] == vars2[n]
                } by {
                    if n != name {
                        assert(vars.contains_key(n));
                        assert(slot_of(b[n]) != slot_of(b[name]));
                    }
                }
            }
            Reached { used: 0, regs: regs2, m: m2 }
        },
        StatementView::Return { expr } => {
            lemma_expr_steady(env, st, expr);
            let (st1, v) = lower_expr(env, st, expr)->Ok_0;
            assert(st_end == st1.terminate(Terminator::Return(v)));
            assert(grows(st1.blocks, st_end.blocks)) by {
                assert forall|x: int| 0 <= x < st1.blocks.len() implies block_within(
                    #[trigger] st1.blocks[x],
                    st_end.blocks[x],
                ) by {}
            }
            lemma_grows_trans(st1.blocks, st_end.blocks, f);
            let regs1 = lemma_expr_runs(env, st, expr, b, f, vars, regs, m);
            lemma_sealed_stays(st_end.blocks, f, st.current);
            assert forall|n: nat| n >= 0 implies #[trigger] run_from(
                f,
                st.current,
                regs.len() as int,
                regs,
                m,
                n,
            ) == Some(
                (eval(expr, vars)->Some_0, m.out),
            ) by {
                let k = (n - 0) as nat;
                lemma_run_return(f, st.current, regs1, m, v, k);
            }
            Reached { used: 0, regs: regs1, m }
        },
        StatementView::Print { expr } => {
            lemma_expr_steady(env, st, expr);
            let (st1, v) = lower_expr(env, st, expr)->Ok_0;
            let inst = InstView::PrintWord { value: v };
            assert(st_end == st1.emit(inst));
            lemma_emit_steady(st1, inst);
            lemma_steady_grows(st1, st_end);
            lemma_grows_trans(st1.blocks, st_end.blocks, f);
            let regs1 = lemma_expr_runs(env, st, expr, b, f, vars, regs, m);
            let w = eval(expr, vars)->Some_0;
            let m2 = Machine { slots: m.slots, out: m.out.push(w) };
            let regs2 = regs1.push(None);
            let pc = regs1.len() as int;
            assert(block_within(st_end.blocks[st.current], f[st.current]));
            assert(f[st.current].insts[pc] == st_end.blocks[st.current].insts[pc]);
            assert forall|n: nat| n >= 0 implies #[trigger] run_from(
                f,
                st.current,
                regs.len() as int,
                regs,
                m,
                n,
            ) == run_from(
                f,
                st_end.current,
                regs2.len() as int,
                regs2,
                m2,
                (n - (0)) as nat,
            ) by {
                let k = (n - 0) as nat;
                lemma_run_inst(f, st.current, pc, regs1, m, k);
            }
            Reached { used: 0, regs: regs2, m: m2 }
        },
        StatementView::ExprStmt(e) => {
            let regs1 = lemma_expr_runs(env, st, e, b, f, vars, regs, m);
            assert forall|n: nat| n >= 0 implies #[trigger] run_from(
                f,
                st.current,
                regs.len() as int,
                regs,
                m,
                n,
            ) == run_from(
                f,
                st_end.current,
                regs1.len() as int,
                regs1,
                m,
                (n - (0)) as nat,
            ) by {
            }
            Reached { used: 0, regs: regs1, m }
        },
        StatementView::If { cond, then_branch, else_branch } => lemma_if_runs(
            env,
            st,
            s,
            b,
            f,
            vars,
            regs,
            m,
            fuel,
        ),
        StatementView::While { cond, body } => lemma_while_runs(
            env,
            st,
            s,
            b,
            f,
            vars,
            regs,
            m,
            fuel,
        ),
        StatementView::IndexedAssign { array, index, expr } => Reached { used: 0, regs, m },
    }
}

/// A run goes through a declaration of a word as the program means it.
/// The machine agreed with the variables over the symbol table `b`, and
/// agrees with them then over `b2`, which is `b` with the declared name
/// bound anew.
#[verifier::rlimit(60)]
pub proof fn lemma_declaration_runs(
    env: Env,
    st: FnState,
    name: Seq<char>,
    e: ExprView,
    alias: bool,
    b: Map<Seq<char>, Binding>,
    b2: Map<Seq<char>, Binding>,
    f: Seq<BlockView>,
    vars: Map<Seq<char>, i64>,
    regs: Seq<Option<i64>>,
    m: Machine,
) -> (r: Reached)
    requires
        st.wf(),
        !st.sealed(),
        plain_expr(e, st.bindings.dom()),
        scalar_bindings(st),
        submap(st.bindings, b),
        b2 == b.insert(name, lower_declaration(env, st, name, e, alias)->Ok_0.bindings[name]),
        injective(b2),
        grows(lower_declaration(env, st, name, e, alias)->Ok_0.blocks, f),
        fits(f),
        agree(vars, b, m),
        regs.len() == st.blocks[st.current].insts.len(),
        eval(e, vars) is Some,
    ensures
        follows(
            Outcome::Next(vars.insert(name, eval(e, vars)->Some_0), m.out),
            f,
            st,
            regs,
            m,
            lower_declaration(env, st, name, e, alias)->Ok_0,
            b2,
            r,
        ),
{
    let st_end = lower_declaration(env, st, name, e, alias)->Ok_0;
    lemma_declaration_framed(env, st, name, e, alias);
    lemma_expr_steady(env, st, e);
    match e {
        ExprView::Variable(v) => {
            assert(st.bindings.contains_key(v));
        },
        _ => {},
    }
    assert(aliased(st, e, alias) is None);
    let (st1, v) = lower_expr(env, st, e)->Ok_0;
    assert(st_end == st1.bind_scalar(name, v));
    let slot = st1.next_local();
    let mid = st1.add_local(SlotKind::Word);
    let inst = InstView::Store { addr: Operand::Slot(slot), value: v };
    let stored = mid.emit(inst);
    lemma_emit_steady(mid, inst);
    assert(grows(st1.blocks, stored.blocks)) by {
        lemma_steady_grows(mid, stored);
    }
    assert(st_end.blocks == stored.blocks);
    lemma_grows_trans(st1.blocks, st_end.blocks, f);
    let regs1 = lemma_expr_runs(env, st, e, b, f, vars, regs, m);
    let w = eval(e, vars)->Some_0;
    let m2 = Machine { slots: m.slots.insert(slot as int, w), out: m.out };
    let regs2 = regs1.push(None);
    assert forall|n: nat| n >= 0 implies #[trigger] run_from(
        f,
        st.current,
        regs.len() as int,
        regs,
        m,
        n,
    ) == run_from(f, st_end.current, regs2.len() as int, regs2, m2, (n - (0)) as nat) by {
        let k = (n - 0) as nat;
        lemma_store_runs(mid, slot, v, f, regs1, m, k);
    }
    let vars2 = vars.insert(name, w);
    assert(b2[name] == Binding::Scalar { slot });
    assert(agree(vars2, b2, m2)) by {
        assert forall|n: Seq<char>| #[trigger] vars2.contains_key(n) implies {
            &&& b2.contains_key(n)
            &&& m2.slots.contains_key(slot_of(b2[n]))
            &&& m2.slots[slot_of(b2[n])] == vars2[n]
        } by {
            if n != name {
                assert(vars.contains_key(n));
                assert(b.contains_key(n));
                assert(b2[n] == b[n]);
                assert(slot_of(b2[n]) != slot_of(b2[name]));
            }
        }
    }
    Reached { used: 0, regs: regs2, m: m2 }
}

/// A run goes through statements on words as the program means them,
/// where they declare new names only.
#[verifier::rlimit(60)]
pub proof fn lemma_stmts_runs(
    env: Env,
    st: FnState,
    stmts: Seq<StatementView>,
    i: int,
    b: Map<Seq<char>, Binding>,
    f: Seq<BlockView>,
    vars: Map<Seq<char>, i64>,
    regs: Seq<Option<i64>>,
    m: Machine,
    fuel: nat,
) -> (r: Reached)
    requires
        st.wf(),
        !st.sealed(),
        0 <= i,
        plain_stmts(stmts, i, false, st.bindings.dom()),
        scalar_bindings(st),
        !env.returns_array,
        submap(lower_stmts(env, st, stmts, i)->Ok_0.bindings, b),
        injective(b),
        grows(lower_stmts(env, st, stmts, i)->Ok_0.blocks, f),
        fits(f),
        agree(vars, b, m),
        regs.len() == st.blocks[st.current].insts.len(),
        !(exec_all(stmts, i, vars, m.out, fuel) is Stuck),
    ensures
        follows(
            exec_all(stmts, i, vars, m.out, fuel),
            f,
            st,
            regs,
            m,
            lower_stmts(env, st, stmts, i)->Ok_0,
            b,
            r,
        ),
    decreases fuel, stmts, stmts.len() - i,
{
    let st_end = lower_stmts(env, st, stmts, i)->Ok_0;
    if i < stmts.len() {
        let st1 = lower_stmt(env, st, stmts[i])->Ok_0;
        lemma_stmt_framed(env, st, stmts[i], false);
        lemma_stmts_framed(env, st1, stmts, i + 1, false);
        lemma_framed_grows(st1, st_end);
        lemma_grows_trans(st1.blocks, st_end.blocks, f);
        assert(submap(st1.bindings, b));
        let r1 = lemma_stmt_runs(env, st, stmts[i], b, f, vars, regs, m, fuel);
        match exec(stmts[i], vars, m.out, fuel) {
            Outcome::Next(vars1, out1) => {
                let r2 = lemma_stmts_runs(
                    env,
                    st1,
                    stmts,
                    i + 1,
                    b,
                    f,
                    vars1,
                    r1.regs,
                    r1.m,
                    fuel,
                );
                let r = Reached { used: r1.used + r2.used, regs: r2.regs, m: r2.m };
                match exec_all(stmts, i + 1, vars1, out1, fuel) {
                    Outcome::Next(vars2, out2) => {
                        assert forall|n: nat| n >= r.used implies #[trigger] run_from(
                            f,
                            st.current,
                            regs.len() as int,
                            regs,
                            m,
                            n,
                        ) == run_from(
                            f,
                            st_end.current,
                            r.regs.len() as int,
                            r.regs,
                            r.m,
                            (n - (r.used)) as nat,
                        ) by {
                            let k = (n - r.used) as nat;
                            assert(r.used + k == r1.used + (r2.used + k));
                        }
                    },
                    Outcome::Return(v, out2) => {
                        assert forall|n: nat| n >= r.used implies #[trigger] run_from(
                            f,
                            st.current,
                            regs.len() as int,
                            regs,
                            m,
                            n,
                        ) == Some((v, out2)) by {
                            let k = (n - r.used) as nat;
                            assert(r.used + k == r1.used + (r2.used + k));
                        }
                    },
                    Outcome::Stuck => {},
                }
                r
            },
            _ => r1,
        }
    } else {
        assert forall|n: nat| n >= 0 implies #[trigger] run_from(
            f,
            st.current,
            regs.len() as int,
            regs,
            m,
            n,
        ) == run_from(
            f,
            st_end.current,
            regs.len() as int,
            regs,
            m,
            (n - (0)) as nat,
        ) by {
        }
        Reached { used: 0, regs, m }
    }
}

/// A run goes through a conditional on words as the program means it,
/// where its branches declare new names only.
#[verifier::rlimit(100)]
pub proof fn lemma_if_runs(
    env: Env,
    st: FnState,
    s: StatementView,
    b: Map<Seq<char>, Binding>,
    f: Seq<BlockView>,
    vars: Map<Seq<char>, i64>,
    regs: Seq<Option<i64>>,
    m: Machine,
    fuel: nat,
) -> (r: Reached)
    requires
        s is If,
        st.wf(),
        !st.sealed(),
        plain_stmt(s, false, st.bindings.dom()),
        scalar_bindings(st),
        !env.returns_array,
        submap(lower_stmt(env, st, s)->Ok_0.bindings, b),
        injective(b),
        grows(lower_stmt(env, st, s)->Ok_0.blocks, f),
        fits(f),
        agree(vars, b, m),
        regs.len() == st.blocks[st.current].insts.len(),
        !(exec(s, vars, m.out, fuel) is Stuck),
    ensures
        follows(exec(s, vars, m.out, fuel), f, st, regs, m, lower_stmt(env, st, s)->Ok_0, b, r),
    decreases fuel, s, 0nat,
{
    let cond = s->If_cond;
    let then_branch = s->If_then_branch;
    let else_branch = s->If_else_branch;
    let st_end = lower_stmt(env, st, s)->Ok_0;
    lemma_expr_steady(env, st, cond);
    let (st1, c) = lower_expr(env, st, cond)->Ok_0;
    let then_block = st1.blocks.len() as int;
    let else_block = then_block + 1;
    let merge_block = then_block + 2;
    let st4 = enter_if(st1, c);
    lemma_enter_if(st1, c);
    let st5 = lower_stmts(env, st4, then_branch, 0)->Ok_0;
    assert(scalar_bindings(st4));
    lemma_stmt_framed(env, st, s, false);
    lemma_stmts_framed(env, st4, then_branch, 0, false);
    let jump = Terminator::Jump(merge_block as usize);
    let st6 = st5.terminate(jump).at(else_block);
    lemma_seal_grows(st5, jump, else_block);
    assert(st6.wf());
    assert(scalar_bindings(st6));
    let st7 = match else_branch {
        Some(els) => lower_stmts(env, st6, els, 0)->Ok_0,
        None => st6,
    };
    match else_branch {
        Some(els) => {
            lemma_stmts_framed(env, st6, els, 0, false);
            lemma_framed_grows(st6, st7);
        },
        None => {
            assert(grows(st6.blocks, st7.blocks)) by {
                assert forall|x: int| 0 <= x < st6.blocks.len() implies block_within(
                    #[trigger] st6.blocks[x],
                    st7.blocks[x],
                ) by {}
            }
        },
    }
    assert(st_end == st7.terminate(jump).at(merge_block));
    lemma_seal_grows(st7, jump, merge_block);
    assert(submap(st7.bindings, b));
    assert(submap(st5.bindings, b)) by {
        assert(submap(st6.bindings, st7.bindings));
    }
    assert(submap(st.bindings, b)) by {
        assert(submap(st4.bindings, st5.bindings));
    }
    // What the final blocks hold of each state on the way.
    lemma_grows_trans(st7.blocks, st_end.blocks, f);
    lemma_grows_trans(st6.blocks, st7.blocks, f);
    lemma_grows_trans(st5.blocks, st6.blocks, f);
    lemma_framed_grows(st4, st5);
    lemma_grows_trans(st4.blocks, st5.blocks, f);
    lemma_grows_trans(st1.blocks, st4.blocks, f);
    // The condition.
    let regs1 = lemma_expr_runs(env, st, cond, b, f, vars, regs, m);
    let cv = eval(cond, vars)->Some_0;
    let cur = st.current;
    lemma_sealed_stays(st4.blocks, f, cur);
    assert(f[cur].insts.len() == regs1.len());
    assert(f.len() <= usize::MAX);
    // The blocks that were opened for the branches stay as they are
    // until they are entered.
    assert(st5.blocks[else_block] == st4.blocks[else_block]);
    assert(st5.blocks[merge_block] == st4.blocks[merge_block]);
    assert(st6.blocks[merge_block] == st5.blocks[merge_block]);
    assert(st7.blocks[merge_block] == st6.blocks[merge_block]) by {
        if else_branch is Some {
            assert(framed(st6, st7));
        }
    }
    assert(st_end.blocks[merge_block] == st7.blocks[merge_block]);
    assert(st_end.blocks[merge_block].insts.len() == 0);
    assert(!st_end.sealed());
    let none: Seq<Option<i64>> = Seq::empty();
    if cv != 0 {
        let rb = lemma_stmts_runs(env, st4, then_branch, 0, b, f, vars, none, m, fuel);
        match exec_all(then_branch, 0, vars, m.out, fuel) {
            Outcome::Next(vars2, out2) => {
                lemma_sealed_stays(st6.blocks, f, st5.current);
                let r = Reached { used: 2 + rb.used, regs: none, m: rb.m };
                assert forall|n: nat| n >= r.used implies #[trigger] run_from(
                    f,
                    st.current,
                    regs.len() as int,
                    regs,
                    m,
                    n,
                ) == run_from(
                    f,
                    st_end.current,
                    r.regs.len() as int,
                    r.regs,
                    r.m,
                    (n - (r.used)) as nat,
                ) by {
                    let k = (n - r.used) as nat;
                    let total = (2 + rb.used + k) as nat;
                    lemma_run_branch(
                        f,
                        cur,
                        regs1,
                        m,
                        c,
                        then_block as usize,
                        else_block as usize,
                        (1 + rb.used + k) as nat,
                    );
                    assert(run_from(f, cur, regs.len() as int, regs, m, total) == run_from(
                        f,
                        then_block,
                        0,
                        none,
                        m,
                        (1 + rb.used + k) as nat,
                    ));
                    assert(1 + rb.used + k == rb.used + (1 + k));
                    lemma_run_jump(f, st5.current, rb.regs, rb.m, merge_block as usize, k);
                }
                r
            },
            Outcome::Return(v, out2) => {
                let r = Reached { used: 1 + rb.used, regs: none, m: rb.m };
                assert forall|n: nat| n >= r.used implies #[trigger] run_from(
                    f,
                    st.current,
                    regs.len() as int,
                    regs,
                    m,
                    n,
                ) == Some(
                    (v, out2),
                ) by {
                    let k = (n - r.used) as nat;
                    lemma_run_branch(
                        f,
                        cur,
                        regs1,
                        m,
                        c,
                        then_block as usize,
                        else_block as usize,
                        (rb.used + k) as nat,
                    );
                }
                r
            },
            Outcome::Stuck => Reached { used: 0, regs, m },
        }
    } else {
        assert(st6.blocks[else_block].insts.len() == 0);
        assert(!st6.sealed());
        match else_branch {
            Some(els) => {
                let rb = lemma_stmts_runs(env, st6, els, 0, b, f, vars, none, m, fuel);
                match exec_all(els, 0, vars, m.out, fuel) {
                    Outcome::Next(vars2, out2) => {
                        lemma_sealed_stays(st_end.blocks, f, st7.current);
                        let r = Reached { used: 2 + rb.used, regs: none, m: rb.m };
                        assert forall|n: nat| n >= r.used implies #[trigger] run_from(
                            f,
                            st.current,
                            regs.len() as int,
                            regs,
                            m,
                            n,
                        ) == run_from(
                            f,
                            st_end.current,
                            r.regs.len() as int,
                            r.regs,
                            r.m,
                            (n - (r.used)) as nat,
                        ) by {
                            let k = (n - r.used) as nat;
                            let total = (2 + rb.used + k) as nat;
                            lemma_run_branch(
                                f,
                                cur,
                                regs1,
                                m,
                                c,
                                then_block as usize,
                                else_block as usize,
                                (1 + rb.used + k) as nat,
                            );
                            assert(run_from(f, cur, regs.len() as int, regs, m, total)
                                == run_from(
                                f,
                                else_block,
                                0,
                                none,
                                m,
                                (1 + rb.used + k) as nat,
                            ));
                            assert(1 + rb.used + k == rb.used + (1 + k));
                            lemma_run_jump(f, st7.current, rb.regs, rb.m, merge_block as usize, k);
                        }
                        r
                    },
                    Outcome::Return(v, out2) => {
                        let r = Reached { used: 1 + rb.used, regs: none, m: rb.m };
                        assert forall|n: nat| n >= r.used implies #[trigger] run_from(
                            f,
                            st.current,
                            regs.len() as int,
                            regs,
                            m,
                            n,
                        ) == Some((v, out2)) by {
                            let k = (n - r.used) as nat;
                            lemma_run_branch(
                                f,
                                cur,
                                regs1,
                                m,
                                c,
                                then_block as usize,
                                else_block as usize,
                                (rb.used + k) as nat,
                            );
                        }
                        r
                    },
                    Outcome::Stuck => Reached { used: 0, regs, m },
                }
            },
            None => {
                lemma_sealed_stays(st_end.blocks, f, else_block);
                let r = Reached { used: 2, regs: none, m };
                assert forall|n: nat| n >= r.used implies #[trigger] run_from(
                    f,
                    st.current,
                    regs.len() as int,
                    regs,
                    m,
                    n,
                ) == run_from(
                    f,
                    st_end.current,
                    r.regs.len() as int,
                    r.regs,
                    r.m,
                    (n - (r.used)) as nat,
                ) by {
                    let k = (n - r.used) as nat;
                    lemma_run_branch(
                        f,
                        cur,
                        regs1,
                        m,
                        c,
                        then_block as usize,
                        else_block as usize,
                        (1 + k) as nat,
                    );
                    lemma_run_jump(f, else_block, none, m, merge_block as usize, k);
                }
                r
            },
        }
    }
}

/// A run goes through a loop on words as the program means it, where its
/// body declares new names only. The symbol table `b` holds the names
/// that the body declares, so that the machine agrees with the variables
/// over it each time round.
#[verifier::rlimit(60)]
pub proof fn lemma_while_runs(
    env: Env,
    st: FnState,
    s: StatementView,
    b: Map<Seq<char>, Binding>,
    f: Seq<BlockView>,
    vars: Map<Seq<char>, i64>,
    regs: Seq<Option<i64>>,
    m: Machine,
    fuel: nat,
) -> (r: Reached)
    requires
        s is While,
        st.wf(),
        !st.sealed(),
        plain_stmt(s, false, st.bindings.dom()),
        scalar_bindings(st),
        !env.returns_array,
        submap(lower_stmt(env, st, s)->Ok_0.bindings, b),
        injective(b),
        grows(lower_stmt(env, st, s)->Ok_0.blocks, f),
        fits(f),
        agree(vars, b, m),
        regs.len() == st.blocks[st.current].insts.len(),
        !(exec(s, vars, m.out, fuel) is Stuck),
    ensures
        follows(exec(s, vars, m.out, fuel), f, st, regs, m, lower_stmt(env, st, s)->Ok_0, b, r),
        r.used >= 1,
    decreases fuel, s, 0nat,
{
    let cond = s->While_cond;
    let body = s->While_body;
    let st_end = lower_stmt(env, st, s)->Ok_0;
    let cur = st.current;
    let loop_block = st.blocks.len() as int;
    let after_block = loop_block + 1;
    let body_block = loop_block + 2;
    let st2 = enter_loop(st);
    lemma_enter_loop(st);
    assert(scalar_bindings(st2));
    lemma_expr_steady(env, st2, cond);
    let (st3, c) = lower_expr(env, st2, cond)->Ok_0;
    let st4 = enter_body(st3, c, after_block);
    lemma_enter_body(st3, c, after_block);
    assert(scalar_bindings(st4));
    let st5 = lower_stmts(env, st4, body, 0)->Ok_0;
    lemma_stmt_framed(env, st, s, false);
    lemma_stmts_framed(env, st4, body, 0, false);
    let back = Terminator::Jump(loop_block as usize);
    assert(st_end == st5.terminate(back).at(after_block));
    lemma_seal_grows(st5, back, after_block);
    lemma_grows_trans(st5.blocks, st_end.blocks, f);
    lemma_framed_grows(st4, st5);
    lemma_grows_trans(st4.blocks, st5.blocks, f);
    lemma_grows_trans(st3.blocks, st4.blocks, f);
    lemma_steady_grows(st2, st3);
    lemma_grows_trans(st2.blocks, st3.blocks, f);
    assert(f.len() <= usize::MAX);
    let none: Seq<Option<i64>> = Seq::empty();
    // Into the loop.
    lemma_sealed_stays(st2.blocks, f, cur);
    assert(f[cur].insts.len() == regs.len());
    assert(submap(st5.bindings, b));
    assert(submap(st.bindings, b)) by {
        assert(submap(st4.bindings, st5.bindings));
    }
    let regs1 = lemma_expr_runs(env, st2, cond, b, f, vars, none, m);
    let cv = eval(cond, vars)->Some_0;
    assert(!st3.sealed());
    lemma_sealed_stays(st4.blocks, f, loop_block);
    assert(f[loop_block].insts.len() == regs1.len());
    // The block after the loop stays as it is.
    assert(st3.blocks[after_block] == st2.blocks[after_block]);
    assert(st4.blocks[after_block] == st3.blocks[after_block]);
    assert(st5.blocks[after_block] == st4.blocks[after_block]);
    assert(st_end.blocks[after_block] == st5.blocks[after_block]);
    assert(st_end.blocks[after_block].insts.len() == 0);
    assert(!st_end.sealed());
    if cv == 0 {
        let r = Reached { used: 2, regs: none, m };
        assert forall|n: nat| n >= r.used implies #[trigger] run_from(
            f,
            st.current,
            regs.len() as int,
            regs,
            m,
            n,
        ) == run_from(
            f,
            st_end.current,
            r.regs.len() as int,
            r.regs,
            r.m,
            (n - (r.used)) as nat,
        ) by {
            let k = (n - r.used) as nat;
            lemma_run_jump(f, cur, regs, m, loop_block as usize, (1 + k) as nat);
            lemma_run_branch(
                f,
                loop_block,
                regs1,
                m,
                c,
                body_block as usize,
                after_block as usize,
                k,
            );
        }
        r
    } else {
        let rb = lemma_stmts_runs(env, st4, body, 0, b, f, vars, none, m, fuel);
        match exec_all(body, 0, vars, m.out, fuel) {
            Outcome::Next(vars2, out2) => {
                lemma_sealed_stays(st_end.blocks, f, st5.current);
                let r2 = lemma_stmt_runs(
                    env,
                    st,
                    s,
                    b,
                    f,
                    vars2,
                    regs,
                    rb.m,
                    (fuel - 1) as nat,
                );
                let r = Reached { used: 2 + rb.used + r2.used, regs: r2.regs, m: r2.m };
                assert forall|n: nat| n >= r.used implies #[trigger] run_from(
                    f,
                    cur,
                    regs.len() as int,
                    regs,
                    m,
                    n,
                ) == run_from(
                    f,
                    cur,
                    regs.len() as int,
                    regs,
                    rb.m,
                    r2.used + (n - (r.used)) as nat,
                ) by {
                    let k = (n - r.used) as nat;
                    let inner = (rb.used + r2.used + k) as nat;
                    lemma_run_jump(f, cur, regs, m, loop_block as usize, (1 + inner) as nat);
                    lemma_run_branch(
                        f,
                        loop_block,
                        regs1,
                        m,
                        c,
                        body_block as usize,
                        after_block as usize,
                        inner,
                    );
                    assert(run_from(f, cur, regs.len() as int, regs, m, (2 + inner) as nat)
                        == run_from(f, body_block, 0, none, m, inner));
                    assert(inner == rb.used + (r2.used + k));
                    assert(run_from(f, body_block, 0, none, m, inner) == run_from(
                        f,
                        st5.current,
                        rb.regs.len() as int,
                        rb.regs,
                        rb.m,
                        (r2.used + k) as nat,
                    ));
                    let rest = (r2.used + k - 1) as nat;
                    lemma_run_jump(f, st5.current, rb.regs, rb.m, loop_block as usize, rest);
                    lemma_run_jump(f, cur, regs, rb.m, loop_block as usize, rest);
                }
                r
            },
            Outcome::Return(v, out2) => {
                let r = Reached { used: 2 + rb.used, regs: none, m: rb.m };
                assert forall|n: nat| n >= r.used implies #[trigger] run_from(
                    f,
                    st.current,
                    regs.len() as int,
                    regs,
                    m,
                    n,
                ) == Some(
                    (v, out2),
                ) by {
                    let k = (n - r.used) as nat;
                    let inner = (rb.used + k) as nat;
                    lemma_run_jump(f, cur, regs, m, loop_block as usize, (1 + inner) as nat);
                    lemma_run_branch(
                        f,
                        loop_block,
                        regs1,
                        m,
                        c,
                        body_block as usize,
                        after_block as usize,
                        inner,
                    );
                }
                r
            },
            Outcome::Stuck => Reached { used: 1, regs, m },
        }
    }
}

/// A run goes through a statement of a routine as the program means it.
/// A declaration may bind a name anew; the machine agrees with the
/// variables over the symbol table as it stands after the statement.
pub proof fn lemma_routine_stmt_runs(
    env: Env,
    st: FnState,
    s: StatementView,
    f: Seq<BlockView>,
    vars: Map<Seq<char>, i64>,
    regs: Seq<Option<i64>>,
    m: Machine,
    fuel: nat,
) -> (r: Reached)
    requires
        st.wf(),
        !st.sealed(),
        plain_stmt(s, true, st.bindings.dom()),
        scalar_bindings(st),
        injective(st.bindings),
        !env.returns_array,
        grows(lower_stmt(env, st, s)->Ok_0.blocks, f),
        fits(f),
        lower_stmt(env, st, s)->Ok_0.locals.len() <= usize::MAX,
        agree(vars, st.bindings, m),
        regs.len() == st.blocks[st.current].insts.len(),
        !(exec(s, vars, m.out, fuel) is Stuck),
    ensures
        follows(
            exec(s, vars, m.out, fuel),
            f,
            st,
            regs,
            m,
            lower_stmt(env, st, s)->Ok_0,
            lower_stmt(env, st, s)->Ok_0.bindings,
            r,
        ),
{
    lemma_stmt_framed(env, st, s, true);
    let st1 = lower_stmt(env, st, s)->Ok_0;
match s {
        StatementView::VarDecl { name, expr } => {
            lemma_declaration_framed(env, st, name, expr, false);
            lemma_declaration_runs(
                env,
                st,
                name,
                expr,
                false,
                st.bindings,
                st1.bindings,
                f,
                vars,
                regs,
                m,
            )
        },
        StatementView::LetDecl { name, expr } => {
            lemma_declaration_framed(env, st, name, expr, true);
            lemma_declaration_runs(
                env,
                st,
                name,
                expr,
                true,
                st.bindings,
                st1.bindings,
                f,
                vars,
                regs,
                m,
            )
        },
        _ => {
            assert(plain_stmt(s, false, st.bindings.dom()));
            assert(submap(st.bindings, st1.bindings));
            assert(agree(vars, st1.bindings, m));
            lemma_stmt_runs(env, st, s, st1.bindings, f, vars, regs, m, fuel)
        },
}
}

/// A run goes through the statements of a routine as the program means
/// them. Among them a declaration may bind a name anew; the machine
/// agrees with the variables over the symbol table as it stands after
/// each statement.
#[verifier::rlimit(60)]
pub proof fn lemma_routine_runs(
    env: Env,
    st: FnState,
    stmts: Seq<StatementView>,
    i: int,
    f: Seq<BlockView>,
    vars: Map<Seq<char>, i64>,
    regs: Seq<Option<i64>>,
    m: Machine,
    fuel: nat,
) -> (r: Reached)
    requires
        st.wf(),
        !st.sealed(),
        0 <= i,
        plain_stmts(stmts, i, true, st.bindings.dom()),
        scalar_bindings(st),
        injective(st.bindings),
        !env.returns_array,
        grows(lower_stmts(env, st, stmts, i)->Ok_0.blocks, f),
        fits(f),
        lower_stmts(env, st, stmts, i)->Ok_0.locals.len() <= usize::MAX,
        agree(vars, st.bindings, m),
        regs.len() == st.blocks[st.current].insts.len(),
        !(exec_all(stmts, i, vars, m.out, fuel) is Stuck),
    ensures
        follows(
            exec_all(stmts, i, vars, m.out, fuel),
            f,
            st,
            regs,
            m,
            lower_stmts(env, st, stmts, i)->Ok_0,
            lower_stmts(env, st, stmts, i)->Ok_0.bindings,
            r,
        ),
    decreases stmts.len() - i,
{
    lemma_stmts_framed(env, st, stmts, i, true);
    let st_end = lower_stmts(env, st, stmts, i)->Ok_0;
    if i < stmts.len() {
        let s = stmts[i];
        lemma_stmt_framed(env, st, s, true);
        let st1 = lower_stmt(env, st, s)->Ok_0;
        lemma_stmts_framed(env, st1, stmts, i + 1, true);
        lemma_framed_grows(st1, st_end);
        lemma_grows_trans(st1.blocks, st_end.blocks, f);
        assert(injective(st1.bindings));
        let r1 = lemma_routine_stmt_runs(env, st, s, f, vars, regs, m, fuel);
        match exec(s, vars, m.out, fuel) {
            Outcome::Next(vars1, out1) => {
                let r2 = lemma_routine_runs(env, st1, stmts, i + 1, f, vars1, r1.regs, r1.m, fuel);
                let r = Reached { used: r1.used + r2.used, regs: r2.regs, m: r2.m };
                match exec_all(stmts, i + 1, vars1, out1, fuel) {
                    Outcome::Next(vars2, out2) => {
                        assert forall|n: nat| n >= r.used implies #[trigger] run_from(
                            f,
                            st.current,
                            regs.len() as int,
                            regs,
                            m,
                            n,
                        ) == run_from(
                            f,
                            st_end.current,
                            r.regs.len() as int,
                            r.regs,
                            r.m,
                            (n - (r.used)) as nat,
                        ) by {
                            let k = (n - r.used) as nat;
                            assert(r.used + k == r1.used + (r2.used + k));
                        }
                    },
                    Outcome::Return(v, out2) => {
                        assert forall|n: nat| n >= r.used implies #[trigger] run_from(
                            f,
                            st.current,
                            regs.len() as int,
                            regs,
                            m,
                            n,
                        ) == Some((v, out2)) by {
                            let k = (n - r.used) as nat;
                            assert(r.used + k == r1.used + (r2.used + k));
                        }
                    },
                    Outcome::Stuck => {},
                }
                r
            },
            _ => r1,
        }
    } else {
        assert forall|n: nat| n >= 0 implies #[trigger] run_from(
            f,
            st.current,
            regs.len() as int,
            regs,
            m,
            n,
        ) == run_from(f, st_end.current, regs.len() as int, regs, m, (n - (0)) as nat) by {}
        Reached { used: 0, regs, m }
    }
}

/// Whether a program is one of which the law of this file speaks: it has
/// no functions, and its statements work on words alone. They read and
/// assign only variables that were declared before, and a declaration
/// inside a branch or a loop declares a name that was not declared
/// before.
pub open spec fn plain_program(p: ProgramView) -> bool {
    p.functions.len() == 0 && plain_stmts(p.statements, 0, true, Set::empty())
}

/// The code of a program without functions is the code of its entry
/// routine alone, and there is such code where the entry routine
/// compiles.
pub proof fn lemma_entry_alone(p: ProgramView)
    requires
        p.functions.len() == 0,
    ensures
        lower(p) is Ok <==> lower_body(
            entry_env(p, Seq::empty()),
            "main"@,
            Seq::empty(),
            Seq::empty(),
            p.statements,
        ) is Ok,
        lower(p) is Ok ==> lower(p)->Ok_0.functions == seq![
            lower_body(
                entry_env(p, Seq::empty()),
                "main"@,
                Seq::empty(),
                Seq::empty(),
                p.statements,
            )->Ok_0,
        ],
{
    assert(analyze(p) == Ok::<Seq<SignatureView>, CompileErrorView>(Seq::empty()));
    let none: Seq<IrFunctionView> = Seq::empty();
    if lower(p) is Ok {
        let code = lower_body(
            entry_env(p, Seq::empty()),
            "main"@,
            Seq::empty(),
            Seq::empty(),
            p.statements,
        )->Ok_0;
        assert(none.push(code) =~= seq![code]);
    }
}

/// A compiled program runs as it is written. A program without
/// functions whose statements work on words alone compiles, where it
/// reads and assigns only variables that were declared before and
/// declares inside a branch or a loop only names that were not declared
/// before. Whatever the evaluation of its statements gives within some
/// fuel, the value of the first `return` reached or zero, and the words
/// printed on the way, the entry routine of its code returns and prints
/// within some fuel, where the counts of the code fit the machine's
/// numbers, as those of every module do that the generator built.
#[verifier::rlimit(60)]
pub proof fn lemma_compiled_program_runs_as_written(p: ProgramView, fuel: nat) -> (n: nat)
    requires
        plain_program(p),
        lower(p) is Ok ==> sized(lower(p)->Ok_0),
        evaluate(p.statements, fuel) is Some,
    ensures
        lower(p) is Ok,
        lower(p)->Ok_0.functions.len() == 1,
        run(lower(p)->Ok_0.functions[0], n) == evaluate(p.statements, fuel),
{
    lemma_entry_alone(p);
    let env = entry_env(p, Seq::empty());
    let start = fresh_state();
    let none_names: Seq<Seq<char>> = Seq::empty();
    let none_flags: Seq<bool> = Seq::empty();
    assert(bind_params(start, none_names, none_flags, 0, Seq::empty()).0 == start);
    assert(scalar_bindings(start));
    assert(start.bindings.dom() =~= Set::<Seq<char>>::empty());
    lemma_stmts_framed(env, start, p.statements, 0, true);
    let st1 = lower_stmts(env, start, p.statements, 0)->Ok_0;
    let st2 = finish(st1, false);
    let code = lower(p)->Ok_0.functions[0];
    assert(sized_function(code));
    assert(code.blocks == st2.blocks);
    assert(code.locals == st2.locals);
    let f = st2.blocks;
    assert(grows(st1.blocks, f)) by {
        assert forall|x: int| 0 <= x < st1.blocks.len() implies block_within(
            #[trigger] st1.blocks[x],
            f[x],
        ) by {}
    }
    let regs: Seq<Option<i64>> = Seq::empty();
    let m = Machine { slots: Map::empty(), out: Seq::empty() };
    let vars: Map<Seq<char>, i64> = Map::empty();
    assert(agree(vars, start.bindings, m));
    let r = lemma_routine_runs(env, start, p.statements, 0, f, vars, regs, m, fuel);
    match exec_all(p.statements, 0, vars, m.out, fuel) {
        Outcome::Next(vars2, out2) => {
            let zero = Terminator::Return(Operand::Const(0));
            assert(f[st1.current].term == Some(zero));
            assert(f[st1.current].insts == st1.blocks[st1.current].insts);
            lemma_run_return(f, st1.current, r.regs, r.m, Operand::Const(0), 0);
            assert(run_from(f, 0, 0, regs, m, r.used) == run_from(
                f,
                st1.current,
                r.regs.len() as int,
                r.regs,
                r.m,
                0,
            ));
        },
        Outcome::Return(v, out2) => {
            assert(run_from(f, 0, 0, regs, m, r.used) == Some((v, out2)));
        },
        Outcome::Stuck => {},
    }
    r.used
}

} // verus!
