//! The shape of the code that the generator emits: every block of every
//! function of a compiled program ends in a terminator.

use crate::ast::{ExprView, ProgramView, StatementView};
use crate::codegen::{
    aliased, bind_params, entry_env, fill, finish, fresh_state, function_env, lower, lower_args,
    lower_body, lower_declaration, lower_element_store, lower_expr, lower_from, lower_stmt,
    lower_stmts, materialize, Binding, Env, FnState,
};
use crate::ir::{BlockView, InstView, IrFunctionView, Operand, ParamKind, SlotKind, Terminator};
use crate::signature::{analyze, SignatureView};
use vstd::prelude::*;

verus! {

/// Whether a block holds the instructions of another first, and is that
/// other where the other is sealed.
pub open spec fn block_within(x: BlockView, y: BlockView) -> bool {
    &&& x.insts.len() <= y.insts.len()
    &&& forall|i: int| 0 <= i < x.insts.len() ==> #[trigger] y.insts[i] == x.insts[i]
    &&& (x.term is Some ==> y == x)
}

/// Whether blocks hold other blocks, each within the one at its place.
pub open spec fn grows(a: Seq<BlockView>, b: Seq<BlockView>) -> bool {
    &&& a.len() <= b.len()
    &&& forall|x: int| 0 <= x < a.len() ==> block_within(#[trigger] a[x], b[x])
}

/// Whether the counts of some blocks fit the machine's numbers.
pub open spec fn fits(blocks: Seq<BlockView>) -> bool {
    &&& blocks.len() <= usize::MAX
    &&& forall|x: int| 0 <= x < blocks.len() ==> (#[trigger] blocks[x]).insts.len() <= usize::MAX
}

/// Whether stack slots hold other stack slots first.
pub open spec fn slots_within(a: Seq<SlotKind>, b: Seq<SlotKind>) -> bool {
    &&& a.len() <= b.len()
    &&& forall|i: int| 0 <= i < a.len() ==> #[trigger] b[i] == a[i]
}

/// Whether a state has the blocks of another, the same current block, and
/// the same terminators: everything as it was, but for instructions at
/// the end of the current block and for more stack slots.
pub open spec fn same_shape(a: FnState, b: FnState) -> bool {
    &&& a.wf()
    &&& b.wf()
    &&& b.blocks.len() == a.blocks.len()
    &&& b.current == a.current
    &&& forall|k: int| 0 <= k < a.blocks.len() ==> (#[trigger] b.blocks[k]).term == a.blocks[k].term
    &&& forall|k: int|
        0 <= k < a.blocks.len() && k != a.current ==> #[trigger] b.blocks[k] == a.blocks[k]
    &&& block_within(a.blocks[a.current], b.blocks[a.current])
    &&& slots_within(a.locals, b.locals)
}

/// The same shape after the same shape is the same shape.
pub proof fn lemma_same_shape_trans(a: FnState, b: FnState, c: FnState)
    requires
        same_shape(a, b),
        same_shape(b, c),
    ensures
        same_shape(a, c),
{
    let x = a.current;
    assert forall|i: int| 0 <= i < a.blocks[x].insts.len() implies #[trigger] c.blocks[x].insts[i]
        == a.blocks[x].insts[i] by {
        assert(b.blocks[x].insts[i] == a.blocks[x].insts[i]);
        assert(c.blocks[x].insts[i] == b.blocks[x].insts[i]);
    }
    assert forall|k: int| 0 <= k < a.blocks.len() && k != a.current implies #[trigger] c.blocks[k]
        == a.blocks[k] by {
        assert(b.blocks[k] == a.blocks[k]);
        assert(c.blocks[k] == b.blocks[k]);
    }
    assert forall|k: int| 0 <= k < a.blocks.len() implies (#[trigger] c.blocks[k]).term
        == a.blocks[k].term by {
        assert(b.blocks[k].term == a.blocks[k].term);
    }
    assert forall|i: int| 0 <= i < a.locals.len() implies #[trigger] c.locals[i] == a.locals[i] by {
        assert(b.locals[i] == a.locals[i]);
    }
}

/// Blocks that hold blocks that hold others hold those others.
pub proof fn lemma_grows_trans(a: Seq<BlockView>, b: Seq<BlockView>, c: Seq<BlockView>)
    requires
        grows(a, b),
        grows(b, c),
    ensures
        grows(a, c),
{
    assert forall|x: int| 0 <= x < a.len() implies block_within(#[trigger] a[x], c[x]) by {
        assert(block_within(a[x], b[x]));
        assert(block_within(b[x], c[x]));
        assert forall|i: int| 0 <= i < a[x].insts.len() implies #[trigger] c[x].insts[i]
            == a[x].insts[i] by {
            assert(b[x].insts[i] == a[x].insts[i]);
            assert(c[x].insts[i] == b[x].insts[i]);
        }
    }
}

/// Stack slots that hold slots that hold others hold those others.
pub proof fn lemma_slots_trans(a: Seq<SlotKind>, b: Seq<SlotKind>, c: Seq<SlotKind>)
    requires
        slots_within(a, b),
        slots_within(b, c),
    ensures
        slots_within(a, c),
{
    assert forall|i: int| 0 <= i < a.len() implies #[trigger] c[i] == a[i] by {
        assert(b[i] == a[i]);
    }
}

/// States of the same shape have blocks that grow.
pub proof fn lemma_same_shape_grows(a: FnState, b: FnState)
    requires
        same_shape(a, b),
    ensures
        grows(a.blocks, b.blocks),
{
    assert forall|x: int| 0 <= x < a.blocks.len() implies block_within(
        #[trigger] a.blocks[x],
        b.blocks[x],
    ) by {
        if x != a.current {
            assert(b.blocks[x] == a.blocks[x]);
        }
    }
}

/// Whether no block of a state is open but its current block and those
/// in `pending`, which are blocks of the state other than the current
/// one.
pub open spec fn open_only(st: FnState, pending: Set<int>) -> bool {
    &&& st.wf()
    &&& !pending.contains(st.current)
    &&& forall|b: int| pending.contains(b) ==> 0 <= b < st.blocks.len()
    &&& forall|b: int|
        0 <= b < st.blocks.len() && (#[trigger] st.blocks[b]).term is None ==> b == st.current
            || pending.contains(b)
}

/// Whether a state holds all of another: its blocks within the blocks at
/// their places, and its stack slots first.
pub open spec fn stretched(a: FnState, b: FnState) -> bool {
    grows(a.blocks, b.blocks) && slots_within(a.locals, b.locals)
}

/// Sealing the current block lets the blocks grow.
pub proof fn lemma_terminate_grows(st: FnState, t: Terminator)
    requires
        st.wf(),
    ensures
        grows(st.blocks, st.terminate(t).blocks),
{
    let st2 = st.terminate(t);
    assert forall|x: int| 0 <= x < st.blocks.len() implies block_within(
        #[trigger] st.blocks[x],
        st2.blocks[x],
    ) by {}
}

/// A state of the same shape holds all of the other.
pub proof fn lemma_same_shape_stretched(a: FnState, b: FnState)
    requires
        same_shape(a, b),
    ensures
        stretched(a, b),
{
    lemma_same_shape_grows(a, b);
}

/// A state that holds a state that holds another holds that other.
pub proof fn lemma_stretched_trans(a: FnState, b: FnState, c: FnState)
    requires
        stretched(a, b),
        stretched(b, c),
    ensures
        stretched(a, c),
{
    lemma_grows_trans(a.blocks, b.blocks, c.blocks);
    lemma_slots_trans(a.locals, b.locals, c.locals);
}

/// Whether every block of a function has its terminator.
pub open spec fn all_sealed(f: IrFunctionView) -> bool {
    forall|b: int| 0 <= b < f.blocks.len() ==> (#[trigger] f.blocks[b]).term is Some
}

/// An instruction leaves the shape of the state as it is.
pub proof fn lemma_emit_shape(st: FnState, inst: InstView)
    requires
        st.wf(),
    ensures
        same_shape(st, st.emit(inst)),
{
}

/// An operation on two words leaves the shape of the state as it is.
pub proof fn lemma_arith_shape(st: FnState, op: crate::ir::WordOp, l: Operand, r: Operand)
    requires
        st.wf(),
    ensures
        same_shape(st, st.arith(op, l, r).0),
{
}

/// An array literal leaves the shape of the state as it is.
pub proof fn lemma_materialize_shape(env: Env, st: FnState, elems: Seq<ExprView>)
    requires
        st.wf(),
    ensures
        match materialize(env, st, elems) {
            Ok((st2, _)) => same_shape(st, st2),
            Err(_) => true,
        },
    decreases elems, elems.len() + 1,
{
    lemma_fill_shape(
        env,
        st.add_local(crate::ir::SlotKind::Array(elems.len() as usize)),
        elems,
        0,
        st.next_local(),
    );
}

/// The elements of an array literal leave the shape of the state as it
/// is.
pub proof fn lemma_fill_shape(env: Env, st: FnState, elems: Seq<ExprView>, i: int, slot: usize)
    requires
        st.wf(),
    ensures
        match fill(env, st, elems, i, slot) {
            Ok(st2) => same_shape(st, st2),
            Err(_) => true,
        },
    decreases elems, elems.len() - i,
{
    if 0 <= i < elems.len() {
        lemma_expr_shape(env, st, elems[i]);
        match lower_expr(env, st, elems[i]) {
            Ok((st1, v)) => {
                let place = st1.next_reg();
                let st2 = st1.emit(
                    InstView::Element {
                        base: Operand::Slot(slot),
                        index: Operand::Const(crate::codegen::count_word(i as usize)),
                    },
                ).emit(InstView::Store { addr: place, value: v });
                lemma_fill_shape(env, st2, elems, i + 1, slot);
            },
            Err(_) => {},
        }
    }
}

/// The arguments of a call leave the shape of the state as it is.
pub proof fn lemma_args_shape(
    env: Env,
    st: FnState,
    name: Seq<char>,
    params: Seq<bool>,
    args: Seq<ExprView>,
    i: int,
    acc: Seq<Operand>,
)
    requires
        st.wf(),
    ensures
        match lower_args(env, st, name, params, args, i, acc) {
            Ok((st2, _)) => same_shape(st, st2),
            Err(_) => true,
        },
    decreases args, args.len() - i,
{
    if 0 <= i < args.len() {
        if i < params.len() && params[i] {
            match args[i] {
                ExprView::Variable(v) => match st.lookup(v) {
                    Some(Binding::Array { slot, len }) => {
                        lemma_args_shape(
                            env,
                            st.emit(InstView::LoadPtr { addr: Operand::Slot(slot) }),
                            name,
                            params,
                            args,
                            i + 1,
                            acc.push(st.next_reg()).push(
                                Operand::Const(crate::codegen::count_word(len)),
                            ),
                        );
                    },
                    _ => {},
                },
                ExprView::ArrayLiteral(elems) => {
                    lemma_materialize_shape(env, st, elems);
                    match materialize(env, st, elems) {
                        Ok((st1, p)) => {
                            lemma_args_shape(
                                env,
                                st1,
                                name,
                                params,
                                args,
                                i + 1,
                                acc.push(p).push(
                                    Operand::Const(
                                        crate::codegen::count_word(elems.len() as usize),
                                    ),
                                ),
                            );
                        },
                        Err(_) => {},
                    }
                },
                _ => {},
            }
        } else {
            lemma_expr_shape(env, st, args[i]);
            match lower_expr(env, st, args[i]) {
                Ok((st1, v)) => {
                    lemma_args_shape(env, st1, name, params, args, i + 1, acc.push(v));
                },
                Err(_) => {},
            }
        }
    }
}

/// An expression leaves the shape of the state as it is.
pub proof fn lemma_expr_shape(env: Env, st: FnState, e: ExprView)
    requires
        st.wf(),
    ensures
        match lower_expr(env, st, e) {
            Ok((st2, _)) => same_shape(st, st2),
            Err(_) => true,
        },
    decreases e, 0nat,
{
    match e {
        ExprView::Unary { op, expr } => {
            lemma_expr_shape(env, st, *expr);
        },
        ExprView::Binary { op, left, right } => {
            lemma_expr_shape(env, st, *left);
            match lower_expr(env, st, *left) {
                Ok((st1, l)) => {
                    lemma_expr_shape(env, st1, *right);
                },
                Err(_) => {},
            }
        },
        ExprView::Call { name, args } => {
            match env.callee(name) {
                Some(j) => {
                    lemma_args_shape(env, st, name, env.sigs[j].params, args, 0, Seq::empty());
                },
                None => {},
            }
        },
        ExprView::ArrayLiteral(elems) => {
            lemma_materialize_shape(env, st, elems);
        },
        ExprView::Index { array, index } => {
            match *array {
                ExprView::Variable(name) => match st.lookup(name) {
                    Some(Binding::Array { slot, len }) => {
                        lemma_expr_shape(
                            env,
                            st.emit(InstView::LoadPtr { addr: Operand::Slot(slot) }),
                            *index,
                        );
                    },
                    _ => {},
                },
                _ => {},
            }
        },
        _ => {},
    }
}

/// A declaration leaves the shape of the state as it is.
pub proof fn lemma_declaration_shape(
    env: Env,
    st: FnState,
    name: Seq<char>,
    e: ExprView,
    alias: bool,
)
    requires
        st.wf(),
    ensures
        match lower_declaration(env, st, name, e, alias) {
            Ok(st2) => same_shape(st, st2),
            Err(_) => true,
        },
{
    match e {
        ExprView::ArrayLiteral(elems) => {
            lemma_materialize_shape(env, st, elems);
        },
        _ => {
            if aliased(st, e, alias) is None {
                lemma_expr_shape(env, st, e);
            }
        },
    }
}

/// Binding a name to an array in a fresh pointer slot leaves the shape
/// of the state as it is.
pub proof fn lemma_bind_array_shape(st: FnState, name: Seq<char>, p: Operand, len: usize)
    requires
        st.wf(),
    ensures
        same_shape(st, st.bind_array(name, p, len)),
{
}

/// Binding a name to a word in a fresh word slot leaves the shape of the
/// state as it is.
pub proof fn lemma_bind_scalar_shape(st: FnState, name: Seq<char>, v: Operand)
    requires
        st.wf(),
    ensures
        same_shape(st, st.bind_scalar(name, v)),
{
}

/// The state in which the branches of a conditional are compiled, after
/// its condition: three new blocks, the current block sealed with the
/// branch, and the first new block current.
pub open spec fn enter_if(st1: FnState, c: Operand) -> FnState {
    let then_block = st1.next_block();
    st1.add_block().add_block().add_block().terminate(
        Terminator::Branch {
            cond: c,
            if_true: then_block as usize,
            if_false: (then_block + 1) as usize,
        },
    ).at(then_block)
}

/// The state in which the condition of a loop is compiled: two new
/// blocks, the current block sealed with a jump to the first, and the
/// first current.
pub open spec fn enter_loop(st: FnState) -> FnState {
    let loop_block = st.next_block();
    st.add_block().add_block().terminate(Terminator::Jump(loop_block as usize)).at(loop_block)
}

/// The state in which the body of a loop is compiled, after its
/// condition: a new block, the current block sealed with the branch, and
/// the new block current.
pub open spec fn enter_body(st3: FnState, c: Operand, after_block: int) -> FnState {
    let body_block = st3.next_block();
    st3.add_block().terminate(
        Terminator::Branch {
            cond: c,
            if_true: body_block as usize,
            if_false: after_block as usize,
        },
    ).at(body_block)
}

/// Sealing the current block and going to another block lets the
/// blocks grow and leaves the rest as it is.
pub proof fn lemma_seal_grows(st: FnState, t: Terminator, to: int)
    requires
        st.wf(),
    ensures
        grows(st.blocks, st.terminate(t).at(to).blocks),
        st.terminate(t).at(to).blocks.len() == st.blocks.len(),
        st.terminate(t).at(to).locals == st.locals,
        st.terminate(t).at(to).bindings == st.bindings,
        st.terminate(t).at(to).current == to,
        forall|b: int|
            0 <= b < st.blocks.len() && b != st.current ==> #[trigger] st.terminate(t).at(
                to,
            ).blocks[b] == st.blocks[b],
        !st.sealed() ==> st.terminate(t).at(to).blocks[st.current] == (BlockView {
            insts: st.blocks[st.current].insts,
            term: Some(t),
        }),
        st.sealed() ==> st.terminate(t).at(to).blocks[st.current] == st.blocks[st.current],
{
    let st2 = st.terminate(t).at(to);
    assert forall|x: int| 0 <= x < st.blocks.len() implies block_within(
        #[trigger] st.blocks[x],
        st2.blocks[x],
    ) by {}
}

/// Entering a conditional lets the blocks grow: the current block is
/// sealed with the branch, unless it was sealed, and three empty open
/// blocks follow.
pub proof fn lemma_enter_if(st1: FnState, c: Operand)
    requires
        st1.wf(),
    ensures
        grows(st1.blocks, enter_if(st1, c).blocks),
        enter_if(st1, c).wf(),
        enter_if(st1, c).current == st1.blocks.len(),
        enter_if(st1, c).blocks.len() == st1.blocks.len() + 3,
        enter_if(st1, c).locals == st1.locals,
        enter_if(st1, c).bindings == st1.bindings,
        forall|b: int|
            st1.blocks.len() <= b < st1.blocks.len() + 3 ==> #[trigger] enter_if(st1, c).blocks[b]
                == (BlockView { insts: Seq::empty(), term: None }),
        forall|b: int|
            0 <= b < st1.blocks.len() && b != st1.current ==> #[trigger] enter_if(st1, c).blocks[b]
                == st1.blocks[b],
        !st1.sealed() ==> enter_if(st1, c).blocks[st1.current] == (BlockView {
            insts: st1.blocks[st1.current].insts,
            term: Some(
                Terminator::Branch {
                    cond: c,
                    if_true: st1.blocks.len() as usize,
                    if_false: (st1.blocks.len() + 1) as usize,
                },
            ),
        }),
        st1.sealed() ==> enter_if(st1, c).blocks[st1.current] == st1.blocks[st1.current],
{
    let st4 = enter_if(st1, c);
    assert forall|x: int| 0 <= x < st1.blocks.len() implies block_within(
        #[trigger] st1.blocks[x],
        st4.blocks[x],
    ) by {}
}

/// Entering a loop lets the blocks grow: the current block is sealed
/// with a jump to the first of two empty open blocks, unless it was
/// sealed.
pub proof fn lemma_enter_loop(st: FnState)
    requires
        st.wf(),
    ensures
        grows(st.blocks, enter_loop(st).blocks),
        enter_loop(st).wf(),
        enter_loop(st).current == st.blocks.len(),
        enter_loop(st).blocks.len() == st.blocks.len() + 2,
        enter_loop(st).locals == st.locals,
        enter_loop(st).bindings == st.bindings,
        forall|b: int|
            st.blocks.len() <= b < st.blocks.len() + 2 ==> #[trigger] enter_loop(st).blocks[b] == (
            BlockView { insts: Seq::empty(), term: None }),
        forall|b: int|
            0 <= b < st.blocks.len() && b != st.current ==> #[trigger] enter_loop(st).blocks[b]
                == st.blocks[b],
        !st.sealed() ==> enter_loop(st).blocks[st.current] == (BlockView {
            insts: st.blocks[st.current].insts,
            term: Some(Terminator::Jump(st.blocks.len() as usize)),
        }),
        st.sealed() ==> enter_loop(st).blocks[st.current] == st.blocks[st.current],
{
    let st2 = enter_loop(st);
    assert forall|x: int| 0 <= x < st.blocks.len() implies block_within(
        #[trigger] st.blocks[x],
        st2.blocks[x],
    ) by {}
}

/// Entering the body of a loop lets the blocks grow: the block of the
/// condition is sealed with the branch, unless it was sealed, and an
/// empty open block follows.
pub proof fn lemma_enter_body(st3: FnState, c: Operand, after_block: int)
    requires
        st3.wf(),
    ensures
        grows(st3.blocks, enter_body(st3, c, after_block).blocks),
        enter_body(st3, c, after_block).wf(),
        enter_body(st3, c, after_block).current == st3.blocks.len(),
        enter_body(st3, c, after_block).blocks.len() == st3.blocks.len() + 1,
        enter_body(st3, c, after_block).locals == st3.locals,
        enter_body(st3, c, after_block).bindings == st3.bindings,
        enter_body(st3, c, after_block).blocks[st3.blocks.len() as int] == (BlockView {
            insts: Seq::empty(),
            term: None,
        }),
        forall|b: int|
            0 <= b < st3.blocks.len() && b != st3.current ==> #[trigger] enter_body(
                st3,
                c,
                after_block,
            ).blocks[b] == st3.blocks[b],
        !st3.sealed() ==> enter_body(st3, c, after_block).blocks[st3.current] == (BlockView {
            insts: st3.blocks[st3.current].insts,
            term: Some(
                Terminator::Branch {
                    cond: c,
                    if_true: st3.blocks.len() as usize,
                    if_false: after_block as usize,
                },
            ),
        }),
        st3.sealed() ==> enter_body(st3, c, after_block).blocks[st3.current]
            == st3.blocks[st3.current],
{
    let st4 = enter_body(st3, c, after_block);
    assert forall|x: int| 0 <= x < st3.blocks.len() implies block_within(
        #[trigger] st3.blocks[x],
        st4.blocks[x],
    ) by {}
}

/// A statement other than a conditional or a loop leaves the shape of
/// the state as it is, but that a `return` seals the current block.
pub proof fn lemma_simple_stmt_open(env: Env, st: FnState, s: StatementView, pending: Set<int>)
    requires
        open_only(st, pending),
        !(s is If),
        !(s is While),
    ensures
        match lower_stmt(env, st, s) {
            Ok(st2) => open_only(st2, pending) && stretched(st, st2),
            Err(_) => true,
        },
{
    if lower_stmt(env, st, s) is Ok {
        let st_end = lower_stmt(env, st, s)->Ok_0;
        match s {
            StatementView::VarDecl { name, expr } => {
                lemma_declaration_shape(env, st, name, expr, false);
                lemma_same_shape_stretched(st, st_end);
            },
            StatementView::LetDecl { name, expr } => {
                lemma_declaration_shape(env, st, name, expr, true);
                lemma_same_shape_stretched(st, st_end);
            },
            StatementView::Assign { name, expr } => {
                lemma_assign_shape(env, st, name, expr);
                lemma_same_shape_stretched(st, st_end);
            },
            StatementView::IndexedAssign { array, index, expr } => {
                match array {
                    ExprView::Variable(name) => match st.lookup(name) {
                        Some(Binding::Array { slot, len }) => {
                            lemma_element_store_shape(env, st, slot, index, expr);
                        },
                        Some(Binding::ArrayParam { slot, len_slot }) => {
                            lemma_element_store_shape(env, st, slot, index, expr);
                        },
                        _ => {},
                    },
                    _ => {},
                }
                lemma_same_shape_stretched(st, st_end);
            },
            StatementView::Print { expr } => {
                match expr {
                    ExprView::StrLiteral(text) => {},
                    _ => {
                        lemma_expr_shape(env, st, expr);
                        let (st1, v) = lower_expr(env, st, expr)->Ok_0;
                        lemma_emit_shape(st1, InstView::PrintWord { value: v });
                        lemma_same_shape_trans(st, st1, st_end);
                    },
                }
                lemma_same_shape_stretched(st, st_end);
            },
            StatementView::Return { expr } => {
                lemma_return_stretched(env, st, expr);
            },
            StatementView::ExprStmt(e) => {
                lemma_expr_shape(env, st, e);
                lemma_same_shape_stretched(st, st_end);
            },
            _ => {},
        }
    }
}

/// An assignment leaves the shape of the state as it is.
pub proof fn lemma_assign_shape(env: Env, st: FnState, name: Seq<char>, expr: ExprView)
    requires
        st.wf(),
    ensures
        match lower_stmt(env, st, StatementView::Assign { name, expr }) {
            Ok(st2) => same_shape(st, st2),
            Err(_) => true,
        },
{
    let s = StatementView::Assign { name, expr };
    if lower_stmt(env, st, s) is Ok {
        let st_end = lower_stmt(env, st, s)->Ok_0;
        let b = st.lookup(name)->Some_0;
        match expr {
            ExprView::ArrayLiteral(elems) => {
                lemma_materialize_shape(env, st, elems);
                let (st1, p) = materialize(env, st, elems)->Ok_0;
                lemma_bind_array_shape(st1, name, p, elems.len() as usize);
                lemma_same_shape_trans(st, st1, st_end);
            },
            _ => {
                lemma_expr_shape(env, st, expr);
                let (st1, v) = lower_expr(env, st, expr)->Ok_0;
                if crate::codegen::calls_array_function(env, expr) {
                    let st2 = st1.emit(InstView::WordToPtr { value: v });
                    lemma_emit_shape(st1, InstView::WordToPtr { value: v });
                    lemma_bind_array_shape(st2, name, st1.next_reg(), b->Array_len);
                    lemma_same_shape_trans(st1, st2, st_end);
                    lemma_same_shape_trans(st, st1, st_end);
                } else {
                    match b {
                        Binding::Scalar { slot } => {
                            lemma_emit_shape(
                                st1,
                                InstView::Store { addr: Operand::Slot(slot), value: v },
                            );
                        },
                        _ => {
                            lemma_bind_scalar_shape(st1, name, v);
                        },
                    }
                    lemma_same_shape_trans(st, st1, st_end);
                }
            },
        }
    }
}

/// A `return` lets the state hold all that it held, and leaves no block
/// open that was not.
pub proof fn lemma_return_stretched(env: Env, st: FnState, expr: ExprView)
    requires
        st.wf(),
    ensures
        match lower_stmt(env, st, StatementView::Return { expr }) {
            Ok(st2) => {
                &&& stretched(st, st2)
                &&& st2.wf()
                &&& st2.current == st.current
                &&& st2.blocks.len() == st.blocks.len()
                &&& forall|k: int|
                    0 <= k < st.blocks.len() && k != st.current ==> #[trigger] st2.blocks[k]
                        == st.blocks[k]
                &&& st2.blocks[st.current].term is Some
            },
            Err(_) => true,
        },
{
    let s = StatementView::Return { expr };
    if lower_stmt(env, st, s) is Ok {
        let st_end = lower_stmt(env, st, s)->Ok_0;
        let array = match expr {
            ExprView::ArrayLiteral(_) => true,
            _ => false,
        };
        if env.returns_array && array {
            let elems = expr->ArrayLiteral_0;
            lemma_materialize_shape(env, st, elems);
            let (st1, p) = materialize(env, st, elems)->Ok_0;
            assert(st_end == st1.terminate(Terminator::Return(p)));
            lemma_return_seals(st, st1, Terminator::Return(p));
        } else if env.returns_array {
            lemma_expr_shape(env, st, expr);
            let (st1, v) = lower_expr(env, st, expr)->Ok_0;
            let st2 = st1.emit(InstView::WordToPtr { value: v });
            lemma_emit_shape(st1, InstView::WordToPtr { value: v });
            lemma_same_shape_trans(st, st1, st2);
            assert(st_end == st2.terminate(Terminator::Return(st1.next_reg())));
            lemma_return_seals(st, st2, Terminator::Return(st1.next_reg()));
        } else {
            lemma_expr_shape(env, st, expr);
            let (st1, v) = lower_expr(env, st, expr)->Ok_0;
            assert(st_end == st1.terminate(Terminator::Return(v)));
            lemma_return_seals(st, st1, Terminator::Return(v));
        }
    }
}

/// Sealing the current block of a state of the same shape as another
/// lets the state hold all of that other.
pub proof fn lemma_return_seals(st: FnState, st1: FnState, t: Terminator)
    requires
        same_shape(st, st1),
    ensures
        stretched(st, st1.terminate(t)),
        st1.terminate(t).wf(),
        st1.terminate(t).current == st.current,
        st1.terminate(t).blocks.len() == st.blocks.len(),
        st1.terminate(t).bindings == st1.bindings,
        forall|k: int|
            0 <= k < st.blocks.len() && k != st.current ==> #[trigger] st1.terminate(t).blocks[k]
                == st.blocks[k],
        st1.terminate(t).blocks[st.current].term is Some,
{
    let st2 = st1.terminate(t);
    lemma_same_shape_stretched(st, st1);
    lemma_terminate_grows(st1, t);
    lemma_grows_trans(st.blocks, st1.blocks, st2.blocks);
    assert forall|k: int| 0 <= k < st.blocks.len() && k != st.current implies #[trigger] st2.blocks[k]
        == st.blocks[k] by {
        assert(st1.blocks[k] == st.blocks[k]);
    }
}

/// A statement leaves no block open but the current one and those that
/// were pending before it, and lets the state hold all that it held.
#[verifier::rlimit(60)]
pub proof fn lemma_stmt_open(env: Env, st: FnState, s: StatementView, pending: Set<int>)
    requires
        open_only(st, pending),
    ensures
        match lower_stmt(env, st, s) {
            Ok(st2) => open_only(st2, pending) && stretched(st, st2),
            Err(_) => true,
        },
    decreases s, 0nat,
{
    match s {
        StatementView::If { cond, then_branch, else_branch } => {
            if lower_stmt(env, st, s) is Ok {
                let st_end = lower_stmt(env, st, s)->Ok_0;
                lemma_expr_shape(env, st, cond);
                let (st1, c) = lower_expr(env, st, cond)->Ok_0;
                lemma_same_shape_stretched(st, st1);
                let then_block = st1.blocks.len() as int;
                let else_block = then_block + 1;
                let merge_block = then_block + 2;
                let st4 = enter_if(st1, c);
                lemma_enter_if(st1, c);
                let in_then = pending.insert(else_block).insert(merge_block);
                assert(open_only(st4, in_then));
                lemma_stmts_open(env, st4, then_branch, 0, in_then);
                let st5 = lower_stmts(env, st4, then_branch, 0)->Ok_0;
                let jump = Terminator::Jump(merge_block as usize);
                let st6 = st5.terminate(jump).at(else_block);
                lemma_seal_grows(st5, jump, else_block);
                let in_else = pending.insert(merge_block);
                assert(open_only(st6, in_else));
                let st7 = match else_branch {
                    Some(els) => lower_stmts(env, st6, els, 0)->Ok_0,
                    None => st6,
                };
                match else_branch {
                    Some(els) => {
                        lemma_stmts_open(env, st6, els, 0, in_else);
                    },
                    None => {
                        lemma_same_shape_stretched(st6, st6);
                    },
                }
                assert(st_end == st7.terminate(jump).at(merge_block));
                lemma_seal_grows(st7, jump, merge_block);
                assert(open_only(st_end, pending));
                lemma_grows_trans(st1.blocks, st4.blocks, st5.blocks);
                lemma_grows_trans(st1.blocks, st5.blocks, st6.blocks);
                lemma_grows_trans(st1.blocks, st6.blocks, st7.blocks);
                lemma_grows_trans(st1.blocks, st7.blocks, st_end.blocks);
                lemma_grows_trans(st.blocks, st1.blocks, st_end.blocks);
                lemma_slots_trans(st1.locals, st5.locals, st7.locals);
                lemma_slots_trans(st.locals, st1.locals, st_end.locals);
            }
        },
        StatementView::While { cond, body } => {
            if lower_stmt(env, st, s) is Ok {
                let st_end = lower_stmt(env, st, s)->Ok_0;
                let loop_block = st.blocks.len() as int;
                let after_block = loop_block + 1;
                let st2 = enter_loop(st);
                lemma_enter_loop(st);
                let in_loop = pending.insert(after_block);
                assert(open_only(st2, in_loop));
                lemma_expr_shape(env, st2, cond);
                let (st3, c) = lower_expr(env, st2, cond)->Ok_0;
                lemma_same_shape_stretched(st2, st3);
                let st4 = enter_body(st3, c, after_block);
                lemma_enter_body(st3, c, after_block);
                assert(open_only(st4, in_loop));
                lemma_stmts_open(env, st4, body, 0, in_loop);
                let st5 = lower_stmts(env, st4, body, 0)->Ok_0;
                let back = Terminator::Jump(loop_block as usize);
                assert(st_end == st5.terminate(back).at(after_block));
                lemma_seal_grows(st5, back, after_block);
                assert(open_only(st_end, pending));
                lemma_grows_trans(st.blocks, st2.blocks, st3.blocks);
                lemma_grows_trans(st.blocks, st3.blocks, st4.blocks);
                lemma_grows_trans(st.blocks, st4.blocks, st5.blocks);
                lemma_grows_trans(st.blocks, st5.blocks, st_end.blocks);
                lemma_slots_trans(st.locals, st3.locals, st5.locals);
            }
        },
        _ => {
            lemma_simple_stmt_open(env, st, s, pending);
        },
    }
}

/// The store of an element leaves the shape of the state as it is.
pub proof fn lemma_element_store_shape(
    env: Env,
    st: FnState,
    slot: usize,
    index: ExprView,
    value: ExprView,
)
    requires
        st.wf(),
    ensures
        match lower_element_store(env, st, slot, index, value) {
            Ok(st2) => same_shape(st, st2),
            Err(_) => true,
        },
{
    let st1 = st.emit(InstView::LoadPtr { addr: Operand::Slot(slot) });
    lemma_expr_shape(env, st1, index);
    match lower_expr(env, st1, index) {
        Ok((st2, i)) => {
            lemma_expr_shape(env, st2, value);
        },
        Err(_) => {},
    }
}

/// Statements leave no block open but the current one and those that
/// were pending before them.
pub proof fn lemma_stmts_open(
    env: Env,
    st: FnState,
    stmts: Seq<StatementView>,
    i: int,
    pending: Set<int>,
)
    requires
        open_only(st, pending),
    ensures
        match lower_stmts(env, st, stmts, i) {
            Ok(st2) => open_only(st2, pending) && stretched(st, st2),
            Err(_) => true,
        },
    decreases stmts, stmts.len() - i,
{
    if 0 <= i < stmts.len() {
        lemma_stmt_open(env, st, stmts[i], pending);
        match lower_stmt(env, st, stmts[i]) {
            Ok(st1) => {
                lemma_stmts_open(env, st1, stmts, i + 1, pending);
                match lower_stmts(env, st1, stmts, i + 1) {
                    Ok(st2) => {
                        lemma_stretched_trans(st, st1, st2);
                    },
                    Err(_) => {},
                }
            },
            Err(_) => {},
        }
    } else {
        lemma_same_shape_stretched(st, st);
    }
}

/// Giving the parameters their slots leaves the shape of the state as it
/// is.
pub proof fn lemma_params_shape(
    st: FnState,
    params: Seq<Seq<char>>,
    flags: Seq<bool>,
    i: int,
    kinds: Seq<ParamKind>,
)
    requires
        st.wf(),
    ensures
        same_shape(st, bind_params(st, params, flags, i, kinds).0),
    decreases params.len() - i,
{
    if 0 <= i < params.len() {
        let at = kinds.len() as usize;
        if i < flags.len() && flags[i] {
            let slot = st.next_local();
            let st1 = st.add_local(crate::ir::SlotKind::Pointer).emit(
                InstView::StorePtr { addr: Operand::Slot(slot), value: Operand::Param(at) },
            );
            let len_slot = st1.next_local();
            let st2 = st1.add_local(crate::ir::SlotKind::Word).emit(
                InstView::Store {
                    addr: Operand::Slot(len_slot),
                    value: Operand::Param((at + 1) as usize),
                },
            ).bind(params[i], Binding::ArrayParam { slot, len_slot });
            lemma_params_shape(
                st2,
                params,
                flags,
                i + 1,
                kinds.push(ParamKind::Pointer).push(ParamKind::Word),
            );
        } else {
            let slot = st.next_local();
            let st1 = st.add_local(crate::ir::SlotKind::Word).emit(
                InstView::Store { addr: Operand::Slot(slot), value: Operand::Param(at) },
            ).bind(params[i], Binding::Scalar { slot });
            lemma_params_shape(st1, params, flags, i + 1, kinds.push(ParamKind::Word));
        }
    }
}

/// Every block of a compiled routine ends in a terminator.
#[verifier::rlimit(60)]
pub proof fn lemma_routine_is_sealed(
    env: Env,
    name: Seq<char>,
    params: Seq<Seq<char>>,
    flags: Seq<bool>,
    body: Seq<StatementView>,
)
    ensures
        match lower_body(env, name, params, flags, body) {
            Ok(code) => all_sealed(code),
            Err(_) => true,
        },
{
    let start = fresh_state();
    lemma_params_shape(start, params, flags, 0, Seq::empty());
    let (st, kinds) = bind_params(start, params, flags, 0, Seq::empty());
    assert(open_only(st, Set::empty()));
    lemma_stmts_open(env, st, body, 0, Set::empty());
    match lower_stmts(env, st, body, 0) {
        Ok(st1) => {
            let st2 = finish(st1, env.returns_array);
            assert forall|b: int| 0 <= b < st2.blocks.len() implies (#[trigger] st2.blocks[b]).term
                is Some by {
                if b != st1.current {
                    assert(st1.blocks[b].term is Some);
                }
            }
        },
        Err(_) => {},
    }
}

/// Every block of every function of the code from function `k` on ends
/// in a terminator, where it does in the functions before.
pub proof fn lemma_rest_is_sealed(
    p: ProgramView,
    sigs: Seq<SignatureView>,
    k: int,
    done: Seq<IrFunctionView>,
)
    requires
        forall|f: int| 0 <= f < done.len() ==> all_sealed(#[trigger] done[f]),
    ensures
        match lower_from(p, sigs, k, done) {
            Ok(m) => forall|f: int| 0 <= f < m.functions.len() ==> all_sealed(
                #[trigger] m.functions[f],
            ),
            Err(_) => true,
        },
    decreases p.functions.len() - k,
{
    if 0 <= k < p.functions.len() {
        let f = p.functions[k];
        lemma_routine_is_sealed(function_env(p, sigs, k), f.name, f.params, sigs[k].params, f.body);
        match lower_body(function_env(p, sigs, k), f.name, f.params, sigs[k].params, f.body) {
            Ok(code) => {
                lemma_rest_is_sealed(p, sigs, k + 1, done.push(code));
            },
            Err(_) => {},
        }
    } else {
        lemma_routine_is_sealed(
            entry_env(p, sigs),
            "main"@,
            Seq::empty(),
            Seq::empty(),
            p.statements,
        );
    }
}

/// Every block of every function of a compiled program ends in exactly
/// one terminator: no block is left open.
pub proof fn lemma_compiled_blocks_are_sealed(p: ProgramView)
    ensures
        match lower(p) {
            Ok(m) => forall|f: int| 0 <= f < m.functions.len() ==> all_sealed(
                #[trigger] m.functions[f],
            ),
            Err(_) => true,
        },
{
    match analyze(p) {
        Ok(sigs) => {
            lemma_rest_is_sealed(p, sigs, 0, Seq::empty());
        },
        Err(_) => {},
    }
}

} // verus!
