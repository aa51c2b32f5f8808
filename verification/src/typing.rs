//! The code of a compiled program is well formed.

use crate::ast::{ExprView, ProgramView, StatementView, UnOp};
use crate::codegen::{
    aliased, bind_params, calls_array_function, count_word, entry_env, fill, finish, fresh_state,
    function_env, lower, lower_args, lower_body, lower_declaration, lower_element_store,
    lower_expr, lower_from, lower_stmt, lower_stmts, materialize, rebased, word_op, Binding, Env,
    FnState,
};
use crate::ir::{
    BlockView, InstView, IrFunctionView, IrModuleView, Operand, ParamKind, SlotKind, Terminator,
    WordOp,
};
use crate::signature::{analyze, lemma_signatures_fit, signatures_fit, SignatureView};
use crate::structure::{
    block_within, enter_body, enter_if, enter_loop, fits, grows, lemma_args_shape,
    lemma_arith_shape, lemma_bind_array_shape, lemma_bind_scalar_shape, lemma_declaration_shape,
    lemma_emit_shape, lemma_enter_body, lemma_enter_if, lemma_enter_loop, lemma_expr_shape,
    lemma_fill_shape, lemma_grows_trans, lemma_materialize_shape, lemma_params_shape,
    lemma_same_shape_stretched, lemma_seal_grows, lemma_slots_trans, lemma_stmt_open,
    lemma_stmts_open, lemma_terminate_grows, open_only, same_shape, slots_within, stretched,
};
use crate::wellformed::{
    args_fit, callee_of, callees_of, kind_of, param_kind, slot_kind, sound_block,
    sound_function, sound_inst, sound_insts, sound_term, well_formed, yields, Around, Callee,
    Kind,
};
use vstd::prelude::*;

verus! {

/// Whether a binding names slots of the kinds that it stands for.
pub open spec fn sound_binding(b: Binding, locals: Seq<SlotKind>) -> bool {
    match b {
        Binding::Scalar { slot } => slot < locals.len() && locals[slot as int] == SlotKind::Word,
        Binding::Array { slot, len } => slot < locals.len() && locals[slot as int]
            == SlotKind::Pointer,
        Binding::ArrayParam { slot, len_slot } => {
            &&& slot < locals.len()
            &&& locals[slot as int] == SlotKind::Pointer
            &&& len_slot < locals.len()
            &&& locals[len_slot as int] == SlotKind::Word
        },
    }
}

/// Whether a state is sound: what its blocks hold so far is sound, its
/// stack slots are among those that the function will have, and its
/// symbol table names slots of the right kinds.
pub open spec fn sound_state(st: FnState, a: Around, returns_array: bool) -> bool {
    &&& st.wf()
    &&& slots_within(st.locals, a.locals)
    &&& a.locals.len() <= usize::MAX
    &&& forall|b: int| 0 <= b < st.blocks.len() ==> sound_insts((#[trigger] st.blocks[b]).insts, a)
    &&& forall|b: int|
        0 <= b < st.blocks.len() && (#[trigger] st.blocks[b]).term is Some ==> sound_term(
            st.blocks[b].term->Some_0,
            st.blocks[b].insts,
            st.blocks.len() as int,
            returns_array,
            a,
        )
    &&& forall|name: Seq<char>| #[trigger]
        st.bindings.contains_key(name) ==> sound_binding(st.bindings[name], st.locals)
}

/// Whether a sequence of instructions holds all of another first.
pub open spec fn insts_within(x: Seq<InstView>, y: Seq<InstView>) -> bool {
    &&& x.len() <= y.len()
    &&& forall|i: int| 0 <= i < x.len() ==> #[trigger] y[i] == x[i]
}

/// What an operand names is of the same kind after more instructions.
pub proof fn lemma_kind_kept(op: Operand, before: Seq<InstView>, after: Seq<InstView>, a: Around)
    requires
        insts_within(before, after),
        kind_of(op, before, a) is Some,
    ensures
        kind_of(op, after, a) == kind_of(op, before, a),
{
    match op {
        Operand::Reg(i) => {
            assert(after[i as int] == before[i as int]);
        },
        _ => {},
    }
}

/// Arguments fit their parameters still after more instructions.
pub proof fn lemma_args_kept(
    args: Seq<Operand>,
    params: Seq<ParamKind>,
    before: Seq<InstView>,
    after: Seq<InstView>,
    a: Around,
)
    requires
        insts_within(before, after),
        args_fit(args, params, before, a),
    ensures
        args_fit(args, params, after, a),
{
    assert forall|i: int| 0 <= i < args.len() implies kind_of(#[trigger] args[i], after, a) == Some(
        param_kind(params[i]),
    ) by {
        lemma_kind_kept(args[i], before, after, a);
    }
}

/// Sound instructions and one more that is sound after them are sound.
pub proof fn lemma_push_sound(insts: Seq<InstView>, inst: InstView, a: Around)
    requires
        sound_insts(insts, a),
        sound_inst(inst, insts, a),
    ensures
        sound_insts(insts.push(inst), a),
{
    let more = insts.push(inst);
    assert forall|pc: int| 0 <= pc < more.len() implies sound_inst(
        #[trigger] more[pc],
        more.take(pc),
        a,
    ) by {
        if pc < insts.len() {
            assert(more.take(pc) =~= insts.take(pc));
            assert(sound_inst(insts[pc], insts.take(pc), a));
        } else {
            assert(more.take(pc) =~= insts);
        }
    }
}

/// A terminator that is sound among some blocks is sound among more.
pub proof fn lemma_term_kept(
    t: Terminator,
    insts: Seq<InstView>,
    blocks: int,
    more: int,
    returns_array: bool,
    a: Around,
)
    requires
        sound_term(t, insts, blocks, returns_array, a),
        blocks <= more,
    ensures
        sound_term(t, insts, more, returns_array, a),
{
}

/// A state stays sound with an instruction that is sound where it goes.
pub proof fn lemma_emit_sound(st: FnState, inst: InstView, a: Around, ra: bool)
    requires
        sound_state(st, a, ra),
        !st.sealed() ==> sound_inst(inst, st.blocks[st.current].insts, a),
    ensures
        sound_state(st.emit(inst), a, ra),
{
    let st2 = st.emit(inst);
    if !st.sealed() {
        lemma_push_sound(st.blocks[st.current].insts, inst, a);
        assert forall|b: int| 0 <= b < st2.blocks.len() implies sound_insts(
            (#[trigger] st2.blocks[b]).insts,
            a,
        ) by {
            if b != st.current {
                assert(st2.blocks[b] == st.blocks[b]);
            }
        }
        assert forall|b: int|
            0 <= b < st2.blocks.len() && (#[trigger] st2.blocks[b]).term is Some implies sound_term(
            st2.blocks[b].term->Some_0,
            st2.blocks[b].insts,
            st2.blocks.len() as int,
            ra,
            a,
        ) by {
            assert(st2.blocks[b] == st.blocks[b]);
        }
    }
}

/// A state stays sound with a terminator that is sound where it goes.
pub proof fn lemma_terminate_sound(st: FnState, t: Terminator, a: Around, ra: bool)
    requires
        sound_state(st, a, ra),
        !st.sealed() ==> sound_term(
            t,
            st.blocks[st.current].insts,
            st.blocks.len() as int,
            ra,
            a,
        ),
    ensures
        sound_state(st.terminate(t), a, ra),
{
    let st2 = st.terminate(t);
    if !st.sealed() {
        assert forall|b: int| 0 <= b < st2.blocks.len() implies sound_insts(
            (#[trigger] st2.blocks[b]).insts,
            a,
        ) by {
            if b != st.current {
                assert(st2.blocks[b] == st.blocks[b]);
            } else {
                assert(st2.blocks[b].insts == st.blocks[b].insts);
            }
        }
        assert forall|b: int|
            0 <= b < st2.blocks.len() && (#[trigger] st2.blocks[b]).term is Some implies sound_term(
            st2.blocks[b].term->Some_0,
            st2.blocks[b].insts,
            st2.blocks.len() as int,
            ra,
            a,
        ) by {
            if b != st.current {
                assert(st2.blocks[b] == st.blocks[b]);
            }
        }
    }
}

/// A state stays sound with one more block.
pub proof fn lemma_add_block_sound(st: FnState, a: Around, ra: bool)
    requires
        sound_state(st, a, ra),
    ensures
        sound_state(st.add_block(), a, ra),
{
    let st2 = st.add_block();
    assert forall|b: int| 0 <= b < st2.blocks.len() implies sound_insts(
        (#[trigger] st2.blocks[b]).insts,
        a,
    ) by {
        if b < st.blocks.len() {
            assert(st2.blocks[b] == st.blocks[b]);
        }
    }
    assert forall|b: int|
        0 <= b < st2.blocks.len() && (#[trigger] st2.blocks[b]).term is Some implies sound_term(
        st2.blocks[b].term->Some_0,
        st2.blocks[b].insts,
        st2.blocks.len() as int,
        ra,
        a,
    ) by {
        assert(st2.blocks[b] == st.blocks[b]);
        lemma_term_kept(
            st.blocks[b].term->Some_0,
            st.blocks[b].insts,
            st.blocks.len() as int,
            st2.blocks.len() as int,
            ra,
            a,
        );
    }
}

/// A state stays sound with another of its blocks current.
pub proof fn lemma_at_sound(st: FnState, block: int, a: Around, ra: bool)
    requires
        sound_state(st, a, ra),
        0 <= block < st.blocks.len(),
    ensures
        sound_state(st.at(block), a, ra),
{
    let st2 = st.at(block);
    assert forall|b: int| 0 <= b < st2.blocks.len() implies sound_insts(
        (#[trigger] st2.blocks[b]).insts,
        a,
    ) by {
        assert(st2.blocks[b] == st.blocks[b]);
    }
    assert forall|b: int|
        0 <= b < st2.blocks.len() && (#[trigger] st2.blocks[b]).term is Some implies sound_term(
        st2.blocks[b].term->Some_0,
        st2.blocks[b].insts,
        st2.blocks.len() as int,
        ra,
        a,
    ) by {
        assert(st2.blocks[b] == st.blocks[b]);
    }
}

/// A state stays sound with one more stack slot that the function will
/// have, and the address of the slot is of the slot's kind.
pub proof fn lemma_add_local_sound(st: FnState, kind: SlotKind, a: Around, ra: bool)
    requires
        sound_state(st, a, ra),
        slots_within(st.locals.push(kind), a.locals),
    ensures
        sound_state(st.add_local(kind), a, ra),
        st.next_local() == st.locals.len(),
        a.locals[st.next_local() as int] == kind,
        forall|before: Seq<InstView>|
            kind_of(Operand::Slot(st.next_local()), before, a) == Some(slot_kind(kind)),
{
    let st2 = st.add_local(kind);
    assert(st.locals.push(kind)[st.locals.len() as int] == kind);
    assert forall|b: int| 0 <= b < st2.blocks.len() implies sound_insts(
        (#[trigger] st2.blocks[b]).insts,
        a,
    ) by {
        assert(st2.blocks[b] == st.blocks[b]);
    }
    assert forall|b: int|
        0 <= b < st2.blocks.len() && (#[trigger] st2.blocks[b]).term is Some implies sound_term(
        st2.blocks[b].term->Some_0,
        st2.blocks[b].insts,
        st2.blocks.len() as int,
        ra,
        a,
    ) by {
        assert(st2.blocks[b] == st.blocks[b]);
    }
}

/// A state stays sound with a name bound to slots of the right kinds.
pub proof fn lemma_bind_sound(st: FnState, name: Seq<char>, b: Binding, a: Around, ra: bool)
    requires
        sound_state(st, a, ra),
        sound_binding(b, st.locals),
    ensures
        sound_state(st.bind(name, b), a, ra),
{
    let st2 = st.bind(name, b);
    assert forall|k: int| 0 <= k < st2.blocks.len() implies sound_insts(
        (#[trigger] st2.blocks[k]).insts,
        a,
    ) by {
        assert(st2.blocks[k] == st.blocks[k]);
    }
    assert forall|k: int|
        0 <= k < st2.blocks.len() && (#[trigger] st2.blocks[k]).term is Some implies sound_term(
        st2.blocks[k].term->Some_0,
        st2.blocks[k].insts,
        st2.blocks.len() as int,
        ra,
        a,
    ) by {
        assert(st2.blocks[k] == st.blocks[k]);
    }
    assert forall|n: Seq<char>| #[trigger] st2.bindings.contains_key(n) implies sound_binding(
        st2.bindings[n],
        st2.locals,
    ) by {
        if n != name {
            assert(st.bindings.contains_key(n));
        }
    }
}

/// The address of a slot that a sound state names is of the slot's kind.
pub proof fn lemma_slot_kind(st: FnState, slot: usize, a: Around, ra: bool)
    requires
        sound_state(st, a, ra),
        slot < st.locals.len(),
    ensures
        forall|before: Seq<InstView>|
            kind_of(Operand::Slot(slot), before, a) == Some(slot_kind(st.locals[slot as int])),
{
    assert(a.locals[slot as int] == st.locals[slot as int]);
}

/// The kinds of the flattened parameters for the flags from `i` on,
/// after `kinds`: a pointer and a word for an array, else a word.
pub open spec fn flat_from(flags: Seq<bool>, n: int, i: int, kinds: Seq<ParamKind>) -> Seq<
    ParamKind,
>
    decreases n - i,
{
    if 0 <= i < n {
        if i < flags.len() && flags[i] {
            flat_from(flags, n, i + 1, kinds.push(ParamKind::Pointer).push(ParamKind::Word))
        } else {
            flat_from(flags, n, i + 1, kinds.push(ParamKind::Word))
        }
    } else {
        kinds
    }
}

/// What a function with a signature looks like to its callers.
pub open spec fn callee_for(sig: SignatureView) -> Callee {
    Callee {
        params: flat_from(sig.params, sig.params.len() as int, 0, Seq::empty()),
        returns_array: sig.returns_array,
    }
}

/// Whether the functions that can be called look as their signatures
/// say.
pub open spec fn env_sound(env: Env, a: Around) -> bool {
    &&& env.wf()
    &&& env.declared <= a.callees.len()
    &&& env.names.len() <= usize::MAX
    &&& forall|j: int| 0 <= j < env.declared ==> #[trigger] a.callees[j] == callee_for(env.sigs[j])
}

/// Whether what a state will become fits the machine's numbers and the
/// function: its stack slots are among those that the function will
/// have, and the current block is not too long.
pub open spec fn final_ok(st2: FnState, a: Around) -> bool {
    &&& st2.wf()
    &&& slots_within(st2.locals, a.locals)
    &&& st2.blocks[st2.current].insts.len() <= usize::MAX
}

/// A state of the same shape as one that fits, before it, fits.
pub proof fn lemma_final_back(st1: FnState, st2: FnState, a: Around)
    requires
        same_shape(st1, st2),
        final_ok(st2, a),
    ensures
        final_ok(st1, a),
{
    lemma_slots_trans(st1.locals, st2.locals, a.locals);
}

/// The function that a call reaches is declared.
pub proof fn lemma_find_below_bounds(names: Seq<Seq<char>>, name: Seq<char>, j: int)
    ensures
        match crate::codegen::find_below(names, name, j) {
            Some(k) => 0 <= k < j && k < names.len(),
            None => true,
        },
    decreases j,
{
    if !(j <= 0 || j > names.len()) && names[j - 1] != name {
        lemma_find_below_bounds(names, name, j - 1);
    }
}

/// An instruction that is sound where it goes keeps the state sound, and
/// where the block is open what it yields is named by the operand that
/// the generator gives.
pub proof fn lemma_emit_yields(st: FnState, inst: InstView, a: Around, ra: bool)
    requires
        sound_state(st, a, ra),
        !st.sealed() ==> sound_inst(inst, st.blocks[st.current].insts, a),
        st.emit(inst).blocks[st.current].insts.len() <= usize::MAX,
    ensures
        sound_state(st.emit(inst), a, ra),
        same_shape(st, st.emit(inst)),
        insts_within(st.blocks[st.current].insts, st.emit(inst).blocks[st.current].insts),
        !st.sealed() ==> kind_of(st.next_reg(), st.emit(inst).blocks[st.current].insts, a)
            == yields(inst),
{
    lemma_emit_sound(st, inst, a, ra);
    lemma_emit_shape(st, inst);
}

/// An operation on two words keeps the state sound and yields a word.
pub proof fn lemma_arith_sound(
    st: FnState,
    op: WordOp,
    l: Operand,
    r: Operand,
    a: Around,
    ra: bool,
)
    requires
        sound_state(st, a, ra),
        final_ok(st.arith(op, l, r).0, a),
        !st.sealed() ==> kind_of(l, st.blocks[st.current].insts, a) == Some(Kind::Word),
        !st.sealed() ==> kind_of(r, st.blocks[st.current].insts, a) == Some(Kind::Word),
    ensures
        sound_state(st.arith(op, l, r).0, a, ra),
        same_shape(st, st.arith(op, l, r).0),
        !st.sealed() ==> kind_of(
            st.arith(op, l, r).1,
            st.arith(op, l, r).0.blocks[st.current].insts,
            a,
        ) == Some(Kind::Word),
{
    lemma_arith_shape(st, op, l, r);
    let inst = InstView::Binary { op, lhs: l, rhs: r };
    let folded = match (l, r) {
        (Operand::Const(x), Operand::Const(y)) => crate::codegen::fold(op, x, y) is Some,
        _ => false,
    };
    if !folded {
        assert(st.arith(op, l, r).0 == st.emit(inst));
        lemma_emit_yields(st, inst, a, ra);
    }
}

/// An array literal keeps the state sound and yields a pointer.
pub proof fn lemma_materialize_sound(
    env: Env,
    st: FnState,
    elems: Seq<ExprView>,
    a: Around,
    ra: bool,
)
    requires
        sound_state(st, a, ra),
        env_sound(env, a),
        materialize(env, st, elems) is Ok,
        final_ok(materialize(env, st, elems)->Ok_0.0, a),
    ensures
        sound_state(materialize(env, st, elems)->Ok_0.0, a, ra),
        same_shape(st, materialize(env, st, elems)->Ok_0.0),
        forall|before: Seq<InstView>|
            kind_of(materialize(env, st, elems)->Ok_0.1, before, a) == Some(Kind::Pointer),
    decreases elems, elems.len() + 1,
{
    let (st_end, p) = materialize(env, st, elems)->Ok_0;
    let kind = SlotKind::Array(elems.len() as usize);
    let slot = st.next_local();
    let st1 = st.add_local(kind);
    lemma_materialize_shape(env, st, elems);
    lemma_fill_shape(env, st1, elems, 0, slot);
    lemma_slots_trans(st1.locals, st_end.locals, a.locals);
    lemma_add_local_sound(st, kind, a, ra);
    lemma_fill_sound(env, st1, elems, 0, slot, a, ra);
}

/// The elements of an array literal keep the state sound.
pub proof fn lemma_fill_sound(
    env: Env,
    st: FnState,
    elems: Seq<ExprView>,
    i: int,
    slot: usize,
    a: Around,
    ra: bool,
)
    requires
        sound_state(st, a, ra),
        env_sound(env, a),
        fill(env, st, elems, i, slot) is Ok,
        final_ok(fill(env, st, elems, i, slot)->Ok_0, a),
        forall|before: Seq<InstView>|
            kind_of(Operand::Slot(slot), before, a) == Some(Kind::Pointer),
    ensures
        sound_state(fill(env, st, elems, i, slot)->Ok_0, a, ra),
    decreases elems, elems.len() - i,
{
    let st_end = fill(env, st, elems, i, slot)->Ok_0;
    if 0 <= i < elems.len() {
        lemma_expr_shape(env, st, elems[i]);
        let (st1, v) = lower_expr(env, st, elems[i])->Ok_0;
        let place = st1.next_reg();
        let element = InstView::Element {
            base: Operand::Slot(slot),
            index: Operand::Const(count_word(i as usize)),
        };
        let st2 = st1.emit(element);
        let store = InstView::Store { addr: place, value: v };
        let st3 = st2.emit(store);
        lemma_emit_shape(st1, element);
        lemma_emit_shape(st2, store);
        lemma_fill_shape(env, st3, elems, i + 1, slot);
        lemma_final_back(st3, st_end, a);
        lemma_final_back(st2, st3, a);
        lemma_final_back(st1, st2, a);
        lemma_expr_sound(env, st, elems[i], a, ra);
        lemma_emit_yields(st1, element, a, ra);
        if !st2.sealed() {
            lemma_kind_kept(v, st1.blocks[st1.current].insts, st2.blocks[st2.current].insts, a);
        }
        lemma_emit_sound(st2, store, a, ra);
        lemma_fill_sound(env, st3, elems, i + 1, slot, a, ra);
    }
}

/// The arguments of a call keep the state sound, and fit the flattened
/// parameters.
#[verifier::rlimit(60)]
pub proof fn lemma_args_sound(
    env: Env,
    st: FnState,
    name: Seq<char>,
    params: Seq<bool>,
    args: Seq<ExprView>,
    i: int,
    acc: Seq<Operand>,
    kinds: Seq<ParamKind>,
    a: Around,
    ra: bool,
)
    requires
        sound_state(st, a, ra),
        env_sound(env, a),
        0 <= i,
        lower_args(env, st, name, params, args, i, acc) is Ok,
        final_ok(lower_args(env, st, name, params, args, i, acc)->Ok_0.0, a),
        !st.sealed() ==> args_fit(acc, kinds, st.blocks[st.current].insts, a),
    ensures
        sound_state(lower_args(env, st, name, params, args, i, acc)->Ok_0.0, a, ra),
        !st.sealed() ==> args_fit(
            lower_args(env, st, name, params, args, i, acc)->Ok_0.1,
            flat_from(params, args.len() as int, i, kinds),
            lower_args(env, st, name, params, args, i, acc)->Ok_0.0.blocks[st.current].insts,
            a,
        ),
    decreases args, args.len() - i,
{
    let (st_end, ops) = lower_args(env, st, name, params, args, i, acc)->Ok_0;
    lemma_args_shape(env, st, name, params, args, i, acc);
    let insts = st.blocks[st.current].insts;
    if i < args.len() {
        if i < params.len() && params[i] {
            let kinds2 = kinds.push(ParamKind::Pointer).push(ParamKind::Word);
            match args[i] {
                ExprView::Variable(v) => {
                    let b = st.lookup(v)->Some_0;
                    assert(st.bindings.contains_key(v));
                    let slot = b->Array_slot;
                    let len = b->Array_len;
                    let inst = InstView::LoadPtr { addr: Operand::Slot(slot) };
                    let st1 = st.emit(inst);
                    let acc2 = acc.push(st.next_reg()).push(Operand::Const(count_word(len)));
                    lemma_emit_shape(st, inst);
                    lemma_args_shape(env, st1, name, params, args, i + 1, acc2);
                    lemma_final_back(st1, st_end, a);
                    lemma_slot_kind(st, slot, a, ra);
                    lemma_emit_yields(st, inst, a, ra);
                    if !st.sealed() {
                        let insts1 = st1.blocks[st.current].insts;
                        lemma_args_kept(acc, kinds, insts, insts1, a);
                        assert(args_fit(acc2, kinds2, insts1, a)) by {
                            assert forall|k: int| 0 <= k < acc2.len() implies kind_of(
                                #[trigger] acc2[k],
                                insts1,
                                a,
                            ) == Some(param_kind(kinds2[k])) by {
                                if k < acc.len() {
                                    assert(acc2[k] == acc[k]);
                                    assert(kinds2[k] == kinds[k]);
                                }
                            }
                        }
                    }
                    lemma_args_sound(env, st1, name, params, args, i + 1, acc2, kinds2, a, ra);
                },
                ExprView::ArrayLiteral(elems) => {
                    lemma_materialize_shape(env, st, elems);
                    let (st1, p) = materialize(env, st, elems)->Ok_0;
                    let acc2 = acc.push(p).push(
                        Operand::Const(count_word(elems.len() as usize)),
                    );
                    lemma_args_shape(env, st1, name, params, args, i + 1, acc2);
                    lemma_final_back(st1, st_end, a);
                    lemma_materialize_sound(env, st, elems, a, ra);
                    if !st.sealed() {
                        let insts1 = st1.blocks[st.current].insts;
                        lemma_args_kept(acc, kinds, insts, insts1, a);
                        assert(args_fit(acc2, kinds2, insts1, a)) by {
                            assert forall|k: int| 0 <= k < acc2.len() implies kind_of(
                                #[trigger] acc2[k],
                                insts1,
                                a,
                            ) == Some(param_kind(kinds2[k])) by {
                                if k < acc.len() {
                                    assert(acc2[k] == acc[k]);
                                    assert(kinds2[k] == kinds[k]);
                                }
                            }
                        }
                    }
                    lemma_args_sound(env, st1, name, params, args, i + 1, acc2, kinds2, a, ra);
                },
                _ => {},
            }
        } else {
            let kinds2 = kinds.push(ParamKind::Word);
            lemma_expr_shape(env, st, args[i]);
            let (st1, v) = lower_expr(env, st, args[i])->Ok_0;
            let acc2 = acc.push(v);
            lemma_args_shape(env, st1, name, params, args, i + 1, acc2);
            lemma_final_back(st1, st_end, a);
            lemma_expr_sound(env, st, args[i], a, ra);
            if !st.sealed() {
                let insts1 = st1.blocks[st.current].insts;
                lemma_args_kept(acc, kinds, insts, insts1, a);
                assert(args_fit(acc2, kinds2, insts1, a)) by {
                    assert forall|k: int| 0 <= k < acc2.len() implies kind_of(
                        #[trigger] acc2[k],
                        insts1,
                        a,
                    ) == Some(param_kind(kinds2[k])) by {
                        if k < acc.len() {
                            assert(acc2[k] == acc[k]);
                            assert(kinds2[k] == kinds[k]);
                        }
                    }
                }
            }
            lemma_args_sound(env, st1, name, params, args, i + 1, acc2, kinds2, a, ra);
        }
    }
}

/// An expression keeps the state sound and yields a word.
#[verifier::rlimit(60)]
pub proof fn lemma_expr_sound(env: Env, st: FnState, e: ExprView, a: Around, ra: bool)
    requires
        sound_state(st, a, ra),
        env_sound(env, a),
        lower_expr(env, st, e) is Ok,
        final_ok(lower_expr(env, st, e)->Ok_0.0, a),
    ensures
        sound_state(lower_expr(env, st, e)->Ok_0.0, a, ra),
        same_shape(st, lower_expr(env, st, e)->Ok_0.0),
        !st.sealed() ==> kind_of(
            lower_expr(env, st, e)->Ok_0.1,
            lower_expr(env, st, e)->Ok_0.0.blocks[st.current].insts,
            a,
        ) == Some(Kind::Word),
    decreases e, 0nat,
{
    let (st_end, v_end) = lower_expr(env, st, e)->Ok_0;
    lemma_expr_shape(env, st, e);
    match e {
        ExprView::Variable(name) => {
            let b = st.lookup(name)->Some_0;
            assert(st.bindings.contains_key(name));
            match b {
                Binding::Scalar { slot } => {
                    lemma_slot_kind(st, slot, a, ra);
                    lemma_emit_yields(st, InstView::Load { addr: Operand::Slot(slot) }, a, ra);
                },
                Binding::Array { slot, len } => {
                    lemma_array_word_sound(st, slot, a, ra);
                },
                Binding::ArrayParam { slot, len_slot } => {
                    lemma_array_word_sound(st, slot, a, ra);
                },
            }
        },
        ExprView::Unary { op, expr } => {
            lemma_expr_shape(env, st, *expr);
            let (st1, v) = lower_expr(env, st, *expr)->Ok_0;
            match op {
                UnOp::Pos => {
                    lemma_expr_sound(env, st, *expr, a, ra);
                },
                UnOp::Neg => {
                    lemma_arith_shape(st1, WordOp::Sub, Operand::Const(0), v);
                    lemma_final_back(st1, st_end, a);
                    lemma_expr_sound(env, st, *expr, a, ra);
                    lemma_arith_sound(st1, WordOp::Sub, Operand::Const(0), v, a, ra);
                },
            }
        },
        ExprView::Binary { op, left, right } => {
            lemma_expr_shape(env, st, *left);
            let (st1, l) = lower_expr(env, st, *left)->Ok_0;
            lemma_expr_shape(env, st1, *right);
            let (st2, r) = lower_expr(env, st1, *right)->Ok_0;
            lemma_arith_shape(st2, word_op(op), l, r);
            lemma_final_back(st2, st_end, a);
            lemma_final_back(st1, st2, a);
            lemma_expr_sound(env, st, *left, a, ra);
            lemma_expr_sound(env, st1, *right, a, ra);
            if !st.sealed() {
                lemma_kind_kept(
                    l,
                    st1.blocks[st.current].insts,
                    st2.blocks[st.current].insts,
                    a,
                );
            }
            lemma_arith_sound(st2, word_op(op), l, r, a, ra);
        },
        ExprView::Call { name, args } => {
            lemma_call_sound(env, st, name, args, a, ra);
        },
        ExprView::ArrayLiteral(elems) => {
            lemma_materialize_shape(env, st, elems);
            let (st1, p) = materialize(env, st, elems)->Ok_0;
            let inst = InstView::PtrToWord { value: p };
            lemma_emit_shape(st1, inst);
            lemma_final_back(st1, st_end, a);
            lemma_materialize_sound(env, st, elems, a, ra);
            lemma_emit_yields(st1, inst, a, ra);
        },
        ExprView::Index { array, index } => {
            lemma_index_sound(env, st, *array, *index, a, ra);
        },
        ExprView::Length { array } => {
            match *array {
                ExprView::Variable(name) => {
                    let b = st.lookup(name)->Some_0;
                    assert(st.bindings.contains_key(name));
                    match b {
                        Binding::ArrayParam { slot, len_slot } => {
                            lemma_slot_kind(st, len_slot, a, ra);
                            lemma_emit_yields(
                                st,
                                InstView::Load { addr: Operand::Slot(len_slot) },
                                a,
                                ra,
                            );
                        },
                        _ => {},
                    }
                },
                _ => {},
            }
        },
        _ => {},
    }
}

/// The address of an array as a word: the load of its pointer slot and
/// the conversion keep the state sound and yield a word.
pub proof fn lemma_array_word_sound(st: FnState, slot: usize, a: Around, ra: bool)
    requires
        sound_state(st, a, ra),
        slot < st.locals.len(),
        st.locals[slot as int] == SlotKind::Pointer,
        final_ok(
            st.emit(InstView::LoadPtr { addr: Operand::Slot(slot) }).emit(
                InstView::PtrToWord { value: st.next_reg() },
            ),
            a,
        ),
    ensures
        sound_state(
            st.emit(InstView::LoadPtr { addr: Operand::Slot(slot) }).emit(
                InstView::PtrToWord { value: st.next_reg() },
            ),
            a,
            ra,
        ),
        !st.sealed() ==> kind_of(
            st.emit(InstView::LoadPtr { addr: Operand::Slot(slot) }).next_reg(),
            st.emit(InstView::LoadPtr { addr: Operand::Slot(slot) }).emit(
                InstView::PtrToWord { value: st.next_reg() },
            ).blocks[st.current].insts,
            a,
        ) == Some(Kind::Word),
{
    let load = InstView::LoadPtr { addr: Operand::Slot(slot) };
    let st1 = st.emit(load);
    let conv = InstView::PtrToWord { value: st.next_reg() };
    let st2 = st1.emit(conv);
    lemma_emit_shape(st, load);
    lemma_emit_shape(st1, conv);
    lemma_final_back(st1, st2, a);
    lemma_slot_kind(st, slot, a, ra);
    lemma_emit_yields(st, load, a, ra);
    lemma_emit_yields(st1, conv, a, ra);
}

/// A call keeps the state sound and yields a word.
pub proof fn lemma_call_sound(
    env: Env,
    st: FnState,
    name: Seq<char>,
    args: Seq<ExprView>,
    a: Around,
    ra: bool,
)
    requires
        sound_state(st, a, ra),
        env_sound(env, a),
        lower_expr(env, st, ExprView::Call { name, args }) is Ok,
        final_ok(lower_expr(env, st, ExprView::Call { name, args })->Ok_0.0, a),
    ensures
        sound_state(lower_expr(env, st, ExprView::Call { name, args })->Ok_0.0, a, ra),
        !st.sealed() ==> kind_of(
            lower_expr(env, st, ExprView::Call { name, args })->Ok_0.1,
            lower_expr(env, st, ExprView::Call { name, args })->Ok_0.0.blocks[st.current].insts,
            a,
        ) == Some(Kind::Word),
    decreases args, args.len() + 1,
{
    let e = ExprView::Call { name, args };
    let (st_end, v_end) = lower_expr(env, st, e)->Ok_0;
    lemma_expr_shape(env, st, e);
    let j = env.callee(name)->Some_0;
    lemma_find_below_bounds(env.names, name, env.declared);
    let sig = env.sigs[j];
    let none: Seq<Operand> = Seq::empty();
    let no_kinds: Seq<ParamKind> = Seq::empty();
    lemma_args_shape(env, st, name, sig.params, args, 0, none);
    let (st1, ops) = lower_args(env, st, name, sig.params, args, 0, none)->Ok_0;
    let inst = InstView::Call { callee: j as usize, args: ops, returns_array: sig.returns_array };
    let st2 = st1.emit(inst);
    lemma_emit_shape(st1, inst);
    if sig.returns_array {
        let conv = InstView::PtrToWord { value: st1.next_reg() };
        lemma_emit_shape(st2, conv);
        lemma_final_back(st2, st_end, a);
    }
    lemma_final_back(st1, st2, a);
    lemma_args_sound(env, st, name, sig.params, args, 0, none, no_kinds, a, ra);
    assert(a.callees[j] == callee_for(sig));
    lemma_emit_yields(st1, inst, a, ra);
    if sig.returns_array {
        lemma_emit_yields(st2, InstView::PtrToWord { value: st1.next_reg() }, a, ra);
    }
}

/// An index keeps the state sound and yields a word.
pub proof fn lemma_index_sound(
    env: Env,
    st: FnState,
    array: ExprView,
    index: ExprView,
    a: Around,
    ra: bool,
)
    requires
        sound_state(st, a, ra),
        env_sound(env, a),
        lower_expr(
            env,
            st,
            ExprView::Index { array: Box::new(array), index: Box::new(index) },
        ) is Ok,
        final_ok(
            lower_expr(
                env,
                st,
                ExprView::Index { array: Box::new(array), index: Box::new(index) },
            )->Ok_0.0,
            a,
        ),
    ensures
        sound_state(
            lower_expr(
                env,
                st,
                ExprView::Index { array: Box::new(array), index: Box::new(index) },
            )->Ok_0.0,
            a,
            ra,
        ),
        !st.sealed() ==> kind_of(
            lower_expr(
                env,
                st,
                ExprView::Index { array: Box::new(array), index: Box::new(index) },
            )->Ok_0.1,
            lower_expr(
                env,
                st,
                ExprView::Index { array: Box::new(array), index: Box::new(index) },
            )->Ok_0.0.blocks[st.current].insts,
            a,
        ) == Some(Kind::Word),
    decreases index, 1nat,
{
    let e = ExprView::Index { array: Box::new(array), index: Box::new(index) };
    let (st_end, v_end) = lower_expr(env, st, e)->Ok_0;
    lemma_expr_shape(env, st, e);
    let name = array->Variable_0;
    let b = st.lookup(name)->Some_0;
    assert(st.bindings.contains_key(name));
    let slot = b->Array_slot;
    let load = InstView::LoadPtr { addr: Operand::Slot(slot) };
    let st0 = st.emit(load);
    lemma_emit_shape(st, load);
    lemma_expr_shape(env, st0, index);
    let (st1, idx) = lower_expr(env, st0, index)->Ok_0;
    let c = idx->Const_0;
    let element = InstView::Element { base: st.next_reg(), index: Operand::Const(c) };
    let st2 = st1.emit(element);
    let fetch = InstView::Load { addr: st1.next_reg() };
    lemma_emit_shape(st1, element);
    lemma_emit_shape(st2, fetch);
    lemma_final_back(st2, st_end, a);
    lemma_final_back(st1, st2, a);
    lemma_final_back(st0, st1, a);
    lemma_slot_kind(st, slot, a, ra);
    lemma_emit_yields(st, load, a, ra);
    lemma_expr_sound(env, st0, index, a, ra);
    if !st.sealed() {
        lemma_kind_kept(
            st.next_reg(),
            st0.blocks[st.current].insts,
            st1.blocks[st.current].insts,
            a,
        );
    }
    lemma_emit_yields(st1, element, a, ra);
    lemma_emit_yields(st2, fetch, a, ra);
}

/// What a state will become, and the blocks that the function will
/// have: a state that it holds fits.
pub proof fn lemma_final_from(
    st1: FnState,
    st2: FnState,
    f: Seq<BlockView>,
    a: Around,
)
    requires
        st1.wf(),
        stretched(st1, st2),
        grows(st2.blocks, f),
        fits(f),
        slots_within(st2.locals, a.locals),
    ensures
        final_ok(st1, a),
        grows(st1.blocks, f),
        slots_within(st1.locals, a.locals),
        st1.blocks.len() <= usize::MAX,
{
    lemma_grows_trans(st1.blocks, st2.blocks, f);
    lemma_slots_trans(st1.locals, st2.locals, a.locals);
    assert(block_within(st1.blocks[st1.current], f[st1.current]));
}

/// Binding a name to an array in a fresh pointer slot keeps the state
/// sound, where the pointer is one.
pub proof fn lemma_bind_array_sound(
    st: FnState,
    name: Seq<char>,
    p: Operand,
    len: usize,
    a: Around,
    ra: bool,
)
    requires
        sound_state(st, a, ra),
        final_ok(st.bind_array(name, p, len), a),
        !st.sealed() ==> kind_of(p, st.blocks[st.current].insts, a) == Some(Kind::Pointer),
    ensures
        sound_state(st.bind_array(name, p, len), a, ra),
{
    let slot = st.next_local();
    let st1 = st.add_local(SlotKind::Pointer);
    let inst = InstView::StorePtr { addr: Operand::Slot(slot), value: p };
    let st2 = st1.emit(inst);
    lemma_add_local_sound(st, SlotKind::Pointer, a, ra);
    lemma_emit_sound(st1, inst, a, ra);
    lemma_bind_sound(st2, name, Binding::Array { slot, len }, a, ra);
}

/// Binding a name to a word in a fresh word slot keeps the state sound,
/// where the word is one.
pub proof fn lemma_bind_scalar_sound(
    st: FnState,
    name: Seq<char>,
    v: Operand,
    a: Around,
    ra: bool,
)
    requires
        sound_state(st, a, ra),
        final_ok(st.bind_scalar(name, v), a),
        !st.sealed() ==> kind_of(v, st.blocks[st.current].insts, a) == Some(Kind::Word),
    ensures
        sound_state(st.bind_scalar(name, v), a, ra),
{
    let slot = st.next_local();
    let st1 = st.add_local(SlotKind::Word);
    let inst = InstView::Store { addr: Operand::Slot(slot), value: v };
    let st2 = st1.emit(inst);
    lemma_add_local_sound(st, SlotKind::Word, a, ra);
    lemma_emit_sound(st1, inst, a, ra);
    lemma_bind_sound(st2, name, Binding::Scalar { slot }, a, ra);
}

/// A declaration keeps the state sound.
pub proof fn lemma_declaration_sound(
    env: Env,
    st: FnState,
    name: Seq<char>,
    e: ExprView,
    alias: bool,
    a: Around,
    ra: bool,
)
    requires
        sound_state(st, a, ra),
        env_sound(env, a),
        lower_declaration(env, st, name, e, alias) is Ok,
        final_ok(lower_declaration(env, st, name, e, alias)->Ok_0, a),
    ensures
        sound_state(lower_declaration(env, st, name, e, alias)->Ok_0, a, ra),
{
    let st_end = lower_declaration(env, st, name, e, alias)->Ok_0;
    lemma_declaration_shape(env, st, name, e, alias);
    match e {
        ExprView::ArrayLiteral(elems) => {
            lemma_materialize_shape(env, st, elems);
            let (st1, p) = materialize(env, st, elems)->Ok_0;
            lemma_bind_array_shape(st1, name, p, elems.len() as usize);
            lemma_final_back(st1, st_end, a);
            lemma_materialize_sound(env, st, elems, a, ra);
            lemma_bind_array_sound(st1, name, p, elems.len() as usize, a, ra);
        },
        _ => {
            match aliased(st, e, alias) {
                Some((slot, b)) => {
                    let v = e->Variable_0;
                    assert(st.bindings.contains_key(v));
                    let fresh = st.next_local();
                    let load = InstView::LoadPtr { addr: Operand::Slot(slot) };
                    let st1 = st.emit(load);
                    let st2 = st1.add_local(SlotKind::Pointer);
                    let store = InstView::StorePtr {
                        addr: Operand::Slot(fresh),
                        value: st.next_reg(),
                    };
                    let st3 = st2.emit(store);
                    lemma_emit_shape(st, load);
                    lemma_emit_shape(st2, store);
                    assert(final_ok(st1, a)) by {
                        lemma_slots_trans(st1.locals, st_end.locals, a.locals);
                    }
                    lemma_slot_kind(st, slot, a, ra);
                    lemma_emit_yields(st, load, a, ra);
                    lemma_add_local_sound(st1, SlotKind::Pointer, a, ra);
                    lemma_emit_sound(st2, store, a, ra);
                    lemma_bind_sound(st3, name, rebased(b, fresh), a, ra);
                },
                None => {
                    lemma_expr_shape(env, st, e);
                    let (st1, v) = lower_expr(env, st, e)->Ok_0;
                    lemma_bind_scalar_shape(st1, name, v);
                    lemma_final_back(st1, st_end, a);
                    lemma_expr_sound(env, st, e, a, ra);
                    lemma_bind_scalar_sound(st1, name, v, a, ra);
                },
            }
        },
    }
}

/// An assignment keeps the state sound.
pub proof fn lemma_assign_sound(
    env: Env,
    st: FnState,
    name: Seq<char>,
    expr: ExprView,
    a: Around,
    ra: bool,
)
    requires
        sound_state(st, a, ra),
        env_sound(env, a),
        lower_stmt(env, st, StatementView::Assign { name, expr }) is Ok,
        final_ok(lower_stmt(env, st, StatementView::Assign { name, expr })->Ok_0, a),
    ensures
        sound_state(lower_stmt(env, st, StatementView::Assign { name, expr })->Ok_0, a, ra),
{
    let s = StatementView::Assign { name, expr };
    let st_end = lower_stmt(env, st, s)->Ok_0;
    let b = st.lookup(name)->Some_0;
    assert(st.bindings.contains_key(name));
    match expr {
        ExprView::ArrayLiteral(elems) => {
            lemma_materialize_shape(env, st, elems);
            let (st1, p) = materialize(env, st, elems)->Ok_0;
            lemma_bind_array_shape(st1, name, p, elems.len() as usize);
            lemma_final_back(st1, st_end, a);
            lemma_materialize_sound(env, st, elems, a, ra);
            lemma_bind_array_sound(st1, name, p, elems.len() as usize, a, ra);
        },
        _ => {
            lemma_expr_shape(env, st, expr);
            let (st1, v) = lower_expr(env, st, expr)->Ok_0;
            if calls_array_function(env, expr) {
                let len = b->Array_len;
                let conv = InstView::WordToPtr { value: v };
                let st2 = st1.emit(conv);
                lemma_emit_shape(st1, conv);
                lemma_bind_array_shape(st2, name, st1.next_reg(), len);
                lemma_final_back(st2, st_end, a);
                lemma_final_back(st1, st2, a);
                lemma_expr_sound(env, st, expr, a, ra);
                lemma_emit_yields(st1, conv, a, ra);
                lemma_bind_array_sound(st2, name, st1.next_reg(), len, a, ra);
            } else {
                match b {
                    Binding::Scalar { slot } => {
                        let store = InstView::Store { addr: Operand::Slot(slot), value: v };
                        lemma_emit_shape(st1, store);
                        lemma_final_back(st1, st_end, a);
                        lemma_expr_sound(env, st, expr, a, ra);
                        lemma_slot_kind(st, slot, a, ra);
                        lemma_emit_sound(st1, store, a, ra);
                    },
                    _ => {
                        lemma_bind_scalar_shape(st1, name, v);
                        lemma_final_back(st1, st_end, a);
                        lemma_expr_sound(env, st, expr, a, ra);
                        lemma_bind_scalar_sound(st1, name, v, a, ra);
                    },
                }
            }
        },
    }
}

/// The store of an element keeps the state sound.
pub proof fn lemma_element_store_sound(
    env: Env,
    st: FnState,
    slot: usize,
    index: ExprView,
    value: ExprView,
    a: Around,
    ra: bool,
)
    requires
        sound_state(st, a, ra),
        env_sound(env, a),
        slot < st.locals.len(),
        st.locals[slot as int] == SlotKind::Pointer,
        lower_element_store(env, st, slot, index, value) is Ok,
        final_ok(lower_element_store(env, st, slot, index, value)->Ok_0, a),
    ensures
        sound_state(lower_element_store(env, st, slot, index, value)->Ok_0, a, ra),
{
    let st_end = lower_element_store(env, st, slot, index, value)->Ok_0;
    let base = st.next_reg();
    let load = InstView::LoadPtr { addr: Operand::Slot(slot) };
    let st0 = st.emit(load);
    lemma_emit_shape(st, load);
    lemma_expr_shape(env, st0, index);
    let (st1, i) = lower_expr(env, st0, index)->Ok_0;
    lemma_expr_shape(env, st1, value);
    let (st2, v) = lower_expr(env, st1, value)->Ok_0;
    let element = InstView::Element { base, index: i };
    let st3 = st2.emit(element);
    let store = InstView::Store { addr: st2.next_reg(), value: v };
    lemma_emit_shape(st2, element);
    lemma_emit_shape(st3, store);
    lemma_final_back(st3, st_end, a);
    lemma_final_back(st2, st3, a);
    lemma_final_back(st1, st2, a);
    lemma_final_back(st0, st1, a);
    lemma_slot_kind(st, slot, a, ra);
    lemma_emit_yields(st, load, a, ra);
    lemma_expr_sound(env, st0, index, a, ra);
    lemma_expr_sound(env, st1, value, a, ra);
    if !st.sealed() {
        let insts0 = st0.blocks[st.current].insts;
        let insts1 = st1.blocks[st.current].insts;
        let insts2 = st2.blocks[st.current].insts;
        let insts3 = st3.blocks[st.current].insts;
        lemma_kind_kept(base, insts0, insts1, a);
        lemma_kind_kept(base, insts1, insts2, a);
        lemma_kind_kept(i, insts1, insts2, a);
        lemma_kind_kept(v, insts2, insts3, a);
    }
    lemma_emit_yields(st2, element, a, ra);
    lemma_emit_sound(st3, store, a, ra);
}

/// A `return` keeps the state sound.
pub proof fn lemma_return_sound(env: Env, st: FnState, expr: ExprView, a: Around, ra: bool)
    requires
        sound_state(st, a, ra),
        env_sound(env, a),
        env.returns_array == ra,
        lower_stmt(env, st, StatementView::Return { expr }) is Ok,
        final_ok(lower_stmt(env, st, StatementView::Return { expr })->Ok_0, a),
    ensures
        sound_state(lower_stmt(env, st, StatementView::Return { expr })->Ok_0, a, ra),
{
    let s = StatementView::Return { expr };
    let st_end = lower_stmt(env, st, s)->Ok_0;
    let array = match expr {
        ExprView::ArrayLiteral(_) => true,
        _ => false,
    };
    if ra && array {
        let elems = expr->ArrayLiteral_0;
        lemma_materialize_shape(env, st, elems);
        let (st1, p) = materialize(env, st, elems)->Ok_0;
        assert(st_end == st1.terminate(Terminator::Return(p)));
        assert(final_ok(st1, a));
        lemma_materialize_sound(env, st, elems, a, ra);
        lemma_terminate_sound(st1, Terminator::Return(p), a, ra);
    } else if ra {
        lemma_expr_shape(env, st, expr);
        let (st1, v) = lower_expr(env, st, expr)->Ok_0;
        let conv = InstView::WordToPtr { value: v };
        let st2 = st1.emit(conv);
        lemma_emit_shape(st1, conv);
        assert(st_end == st2.terminate(Terminator::Return(st1.next_reg())));
        assert(final_ok(st2, a));
        lemma_final_back(st1, st2, a);
        lemma_expr_sound(env, st, expr, a, ra);
        lemma_emit_yields(st1, conv, a, ra);
        lemma_terminate_sound(st2, Terminator::Return(st1.next_reg()), a, ra);
    } else {
        lemma_expr_shape(env, st, expr);
        let (st1, v) = lower_expr(env, st, expr)->Ok_0;
        assert(st_end == st1.terminate(Terminator::Return(v)));
        assert(final_ok(st1, a));
        lemma_expr_sound(env, st, expr, a, ra);
        lemma_terminate_sound(st1, Terminator::Return(v), a, ra);
    }
}

/// A statement other than a conditional or a loop keeps the state sound.
pub proof fn lemma_simple_stmt_sound(
    env: Env,
    st: FnState,
    s: StatementView,
    a: Around,
    ra: bool,
)
    requires
        sound_state(st, a, ra),
        env_sound(env, a),
        env.returns_array == ra,
        !(s is If),
        !(s is While),
        lower_stmt(env, st, s) is Ok,
        final_ok(lower_stmt(env, st, s)->Ok_0, a),
    ensures
        sound_state(lower_stmt(env, st, s)->Ok_0, a, ra),
{
    let st_end = lower_stmt(env, st, s)->Ok_0;
    match s {
        StatementView::VarDecl { name, expr } => {
            lemma_declaration_sound(env, st, name, expr, false, a, ra);
        },
        StatementView::LetDecl { name, expr } => {
            lemma_declaration_sound(env, st, name, expr, true, a, ra);
        },
        StatementView::Assign { name, expr } => {
            lemma_assign_sound(env, st, name, expr, a, ra);
        },
        StatementView::IndexedAssign { array, index, expr } => {
            let name = array->Variable_0;
            assert(st.bindings.contains_key(name));
            match st.lookup(name)->Some_0 {
                Binding::Array { slot, len } => {
                    lemma_element_store_sound(env, st, slot, index, expr, a, ra);
                },
                Binding::ArrayParam { slot, len_slot } => {
                    lemma_element_store_sound(env, st, slot, index, expr, a, ra);
                },
                _ => {},
            }
        },
        StatementView::Print { expr } => {
            match expr {
                ExprView::StrLiteral(text) => {
                    lemma_emit_sound(st, InstView::PrintText { text }, a, ra);
                },
                _ => {
                    lemma_expr_shape(env, st, expr);
                    let (st1, v) = lower_expr(env, st, expr)->Ok_0;
                    let inst = InstView::PrintWord { value: v };
                    lemma_emit_shape(st1, inst);
                    lemma_final_back(st1, st_end, a);
                    lemma_expr_sound(env, st, expr, a, ra);
                    lemma_emit_sound(st1, inst, a, ra);
                },
            }
        },
        StatementView::Return { expr } => {
            lemma_return_sound(env, st, expr, a, ra);
        },
        StatementView::ExprStmt(e) => {
            lemma_expr_sound(env, st, e, a, ra);
        },
        _ => {},
    }
}

/// A statement keeps the state sound.
#[verifier::rlimit(100)]
pub proof fn lemma_stmt_sound(
    env: Env,
    st: FnState,
    s: StatementView,
    pending: Set<int>,
    f: Seq<BlockView>,
    a: Around,
    ra: bool,
)
    requires
        open_only(st, pending),
        sound_state(st, a, ra),
        env_sound(env, a),
        env.returns_array == ra,
        lower_stmt(env, st, s) is Ok,
        grows(lower_stmt(env, st, s)->Ok_0.blocks, f),
        fits(f),
        slots_within(lower_stmt(env, st, s)->Ok_0.locals, a.locals),
    ensures
        sound_state(lower_stmt(env, st, s)->Ok_0, a, ra),
    decreases s, 0nat,
{
    let st_end = lower_stmt(env, st, s)->Ok_0;
    lemma_stmt_open(env, st, s, pending);
    lemma_same_shape_stretched(st_end, st_end);
    lemma_final_from(st_end, st_end, f, a);
    match s {
        StatementView::If { cond, then_branch, else_branch } => {
            lemma_expr_shape(env, st, cond);
            let (st1, c) = lower_expr(env, st, cond)->Ok_0;
            let then_block = st1.blocks.len() as int;
            let else_block = then_block + 1;
            let merge_block = then_block + 2;
            let st4 = enter_if(st1, c);
            lemma_enter_if(st1, c);
            let in_then = pending.insert(else_block).insert(merge_block);
            assert(open_only(st4, in_then));
            lemma_stmts_open(env, st4, then_branch, 0, in_then);
            let st5 = lower_stmts(env, st4, then_branch, 0)->Ok_0;
            let jump = Terminator::Jump(merge_block as usize);
            let st6 = st5.terminate(jump).at(else_block);
            lemma_seal_grows(st5, jump, else_block);
            let in_else = pending.insert(merge_block);
            assert(open_only(st6, in_else));
            let st7 = match else_branch {
                Some(els) => lower_stmts(env, st6, els, 0)->Ok_0,
                None => st6,
            };
            match else_branch {
                Some(els) => {
                    lemma_stmts_open(env, st6, els, 0, in_else);
                },
                None => {
                    lemma_same_shape_stretched(st6, st6);
                },
            }
            assert(st_end == st7.terminate(jump).at(merge_block));
            lemma_seal_grows(st7, jump, merge_block);
            // What each state on the way will become.
            assert(stretched(st7, st_end));
            lemma_final_from(st7, st_end, f, a);
            assert(stretched(st6, st7));
            lemma_final_from(st6, st7, f, a);
            assert(stretched(st5, st6));
            lemma_final_from(st5, st6, f, a);
            lemma_final_from(st4, st5, f, a);
            assert(stretched(st1, st4));
            lemma_final_from(st1, st4, f, a);
            assert(f.len() <= usize::MAX);
            // The condition and the branch.
            lemma_expr_sound(env, st, cond, a, ra);
            let s1 = st1.add_block();
            lemma_add_block_sound(st1, a, ra);
            let s2 = s1.add_block();
            lemma_add_block_sound(s1, a, ra);
            let s3 = s2.add_block();
            lemma_add_block_sound(s2, a, ra);
            let branch = Terminator::Branch {
                cond: c,
                if_true: then_block as usize,
                if_false: else_block as usize,
            };
            lemma_terminate_sound(s3, branch, a, ra);
            lemma_at_sound(s3.terminate(branch), then_block, a, ra);
            assert(sound_state(st4, a, ra));
            // The branches.
            lemma_stmts_sound(env, st4, then_branch, 0, in_then, f, a, ra);
            lemma_terminate_sound(st5, jump, a, ra);
            lemma_at_sound(st5.terminate(jump), else_block, a, ra);
            match else_branch {
                Some(els) => {
                    lemma_stmts_sound(env, st6, els, 0, in_else, f, a, ra);
                },
                None => {},
            }
            lemma_terminate_sound(st7, jump, a, ra);
            lemma_at_sound(st7.terminate(jump), merge_block, a, ra);
        },
        StatementView::While { cond, body } => {
            let loop_block = st.blocks.len() as int;
            let after_block = loop_block + 1;
            let body_block = loop_block + 2;
            let st2 = enter_loop(st);
            lemma_enter_loop(st);
            let in_loop = pending.insert(after_block);
            assert(open_only(st2, in_loop));
            lemma_expr_shape(env, st2, cond);
            let (st3, c) = lower_expr(env, st2, cond)->Ok_0;
            lemma_same_shape_stretched(st2, st3);
            let st4 = enter_body(st3, c, after_block);
            lemma_enter_body(st3, c, after_block);
            assert(open_only(st4, in_loop));
            lemma_stmts_open(env, st4, body, 0, in_loop);
            let st5 = lower_stmts(env, st4, body, 0)->Ok_0;
            let back = Terminator::Jump(loop_block as usize);
            assert(st_end == st5.terminate(back).at(after_block));
            lemma_seal_grows(st5, back, after_block);
            assert(stretched(st5, st_end));
            lemma_final_from(st5, st_end, f, a);
            lemma_final_from(st4, st5, f, a);
            assert(stretched(st3, st4));
            lemma_final_from(st3, st4, f, a);
            lemma_final_from(st2, st3, f, a);
            assert(f.len() <= usize::MAX);
            // Into the loop.
            let s1 = st.add_block();
            lemma_add_block_sound(st, a, ra);
            let s2 = s1.add_block();
            lemma_add_block_sound(s1, a, ra);
            let enter = Terminator::Jump(loop_block as usize);
            lemma_terminate_sound(s2, enter, a, ra);
            lemma_at_sound(s2.terminate(enter), loop_block, a, ra);
            assert(sound_state(st2, a, ra));
            // The condition and the branch.
            lemma_expr_sound(env, st2, cond, a, ra);
            let s4 = st3.add_block();
            lemma_add_block_sound(st3, a, ra);
            let branch = Terminator::Branch {
                cond: c,
                if_true: body_block as usize,
                if_false: after_block as usize,
            };
            lemma_terminate_sound(s4, branch, a, ra);
            lemma_at_sound(s4.terminate(branch), body_block, a, ra);
            assert(sound_state(st4, a, ra));
            // The body and the jump back.
            lemma_stmts_sound(env, st4, body, 0, in_loop, f, a, ra);
            lemma_terminate_sound(st5, back, a, ra);
            lemma_at_sound(st5.terminate(back), after_block, a, ra);
        },
        _ => {
            lemma_simple_stmt_sound(env, st, s, a, ra);
        },
    }
}

/// Statements keep the state sound.
pub proof fn lemma_stmts_sound(
    env: Env,
    st: FnState,
    stmts: Seq<StatementView>,
    i: int,
    pending: Set<int>,
    f: Seq<BlockView>,
    a: Around,
    ra: bool,
)
    requires
        open_only(st, pending),
        sound_state(st, a, ra),
        env_sound(env, a),
        env.returns_array == ra,
        lower_stmts(env, st, stmts, i) is Ok,
        grows(lower_stmts(env, st, stmts, i)->Ok_0.blocks, f),
        fits(f),
        slots_within(lower_stmts(env, st, stmts, i)->Ok_0.locals, a.locals),
    ensures
        sound_state(lower_stmts(env, st, stmts, i)->Ok_0, a, ra),
    decreases stmts, stmts.len() - i,
{
    let st_end = lower_stmts(env, st, stmts, i)->Ok_0;
    if 0 <= i < stmts.len() {
        let st1 = lower_stmt(env, st, stmts[i])->Ok_0;
        lemma_stmt_open(env, st, stmts[i], pending);
        lemma_stmts_open(env, st1, stmts, i + 1, pending);
        lemma_final_from(st1, st_end, f, a);
        lemma_stmt_sound(env, st, stmts[i], pending, f, a, ra);
        lemma_stmts_sound(env, st1, stmts, i + 1, pending, f, a, ra);
    }
}

/// Whether kinds of parameters hold all of others first.
pub open spec fn kinds_within(x: Seq<ParamKind>, y: Seq<ParamKind>) -> bool {
    &&& x.len() <= y.len()
    &&& forall|i: int| 0 <= i < x.len() ==> #[trigger] y[i] == x[i]
}

/// Giving the parameters their slots keeps the state sound, and gives
/// the flattened kinds of the parameters.
#[verifier::rlimit(60)]
pub proof fn lemma_params_sound(
    st: FnState,
    params: Seq<Seq<char>>,
    flags: Seq<bool>,
    i: int,
    kinds: Seq<ParamKind>,
    a: Around,
    ra: bool,
)
    requires
        sound_state(st, a, ra),
        0 <= i,
        final_ok(bind_params(st, params, flags, i, kinds).0, a),
        a.params == bind_params(st, params, flags, i, kinds).1,
        a.params.len() <= usize::MAX,
    ensures
        sound_state(bind_params(st, params, flags, i, kinds).0, a, ra),
        bind_params(st, params, flags, i, kinds).1 == flat_from(
            flags,
            params.len() as int,
            i,
            kinds,
        ),
        kinds_within(kinds, bind_params(st, params, flags, i, kinds).1),
    decreases params.len() - i,
{
    let (st_end, k_end) = bind_params(st, params, flags, i, kinds);
    lemma_params_shape(st, params, flags, i, kinds);
    lemma_params_kinds(st, params, flags, i, kinds);
    lemma_flat_within(flags, params.len() as int, i, kinds);
    if i < params.len() {
        let at = kinds.len() as usize;
        if i < flags.len() && flags[i] {
            let slot = st.next_local();
            let s1 = st.add_local(SlotKind::Pointer);
            let store = InstView::StorePtr { addr: Operand::Slot(slot), value: Operand::Param(at) };
            let s2 = s1.emit(store);
            let len_slot = s2.next_local();
            let s3 = s2.add_local(SlotKind::Word);
            let store_len = InstView::Store {
                addr: Operand::Slot(len_slot),
                value: Operand::Param((at + 1) as usize),
            };
            let s4 = s3.emit(store_len);
            let b = Binding::ArrayParam { slot, len_slot };
            let s5 = s4.bind(params[i], b);
            let kinds2 = kinds.push(ParamKind::Pointer).push(ParamKind::Word);
            lemma_params_shape(s5, params, flags, i + 1, kinds2);
            lemma_slots_trans(s5.locals, st_end.locals, a.locals);
            assert(final_ok(s5, a));
            lemma_flat_within(flags, params.len() as int, i + 1, kinds2);
            assert(a.params[kinds.len() as int] == kinds2[kinds.len() as int]);
            assert(a.params[(kinds.len() + 1) as int] == kinds2[(kinds.len() + 1) as int]);
            assert(slots_within(st.locals.push(SlotKind::Pointer), a.locals)) by {
                assert forall|k: int| 0 <= k < st.locals.len() + 1 implies #[trigger] a.locals[k]
                    == st.locals.push(SlotKind::Pointer)[k] by {
                    assert(s5.locals[k] == st.locals.push(SlotKind::Pointer)[k]);
                }
            }
            lemma_add_local_sound(st, SlotKind::Pointer, a, ra);
            lemma_emit_sound(s1, store, a, ra);
            lemma_add_local_sound(s2, SlotKind::Word, a, ra);
            lemma_emit_sound(s3, store_len, a, ra);
            lemma_bind_sound(s4, params[i], b, a, ra);
            lemma_params_sound(s5, params, flags, i + 1, kinds2, a, ra);
        } else {
            let slot = st.next_local();
            let s1 = st.add_local(SlotKind::Word);
            let store = InstView::Store { addr: Operand::Slot(slot), value: Operand::Param(at) };
            let s2 = s1.emit(store);
            let b = Binding::Scalar { slot };
            let s3 = s2.bind(params[i], b);
            let kinds2 = kinds.push(ParamKind::Word);
            lemma_params_shape(s3, params, flags, i + 1, kinds2);
            lemma_slots_trans(s3.locals, st_end.locals, a.locals);
            assert(final_ok(s3, a));
            lemma_flat_within(flags, params.len() as int, i + 1, kinds2);
            assert(a.params[kinds.len() as int] == kinds2[kinds.len() as int]);
            lemma_add_local_sound(st, SlotKind::Word, a, ra);
            lemma_emit_sound(s1, store, a, ra);
            lemma_bind_sound(s2, params[i], b, a, ra);
            lemma_params_sound(s3, params, flags, i + 1, kinds2, a, ra);
        }
    }
}

/// The flattened kinds hold the kinds before them first.
pub proof fn lemma_flat_within(flags: Seq<bool>, n: int, i: int, kinds: Seq<ParamKind>)
    ensures
        kinds_within(kinds, flat_from(flags, n, i, kinds)),
    decreases n - i,
{
    if 0 <= i < n {
        let kinds2 = if i < flags.len() && flags[i] {
            kinds.push(ParamKind::Pointer).push(ParamKind::Word)
        } else {
            kinds.push(ParamKind::Word)
        };
        lemma_flat_within(flags, n, i + 1, kinds2);
        let all = flat_from(flags, n, i, kinds);
        assert forall|k: int| 0 <= k < kinds.len() implies #[trigger] all[k] == kinds[k] by {
            assert(kinds2[k] == kinds[k]);
        }
    }
}

/// Whether the counts of a function fit the machine's numbers, as those
/// of every function do that the generator built.
pub open spec fn sized_function(code: IrFunctionView) -> bool {
    &&& fits(code.blocks)
    &&& code.locals.len() <= usize::MAX
    &&& code.params.len() <= usize::MAX
}

/// A compiled routine is sound, where the functions that it may call
/// look as their signatures say.
#[verifier::rlimit(60)]
pub proof fn lemma_routine_is_sound(
    env: Env,
    name: Seq<char>,
    params: Seq<Seq<char>>,
    flags: Seq<bool>,
    body: Seq<StatementView>,
    callees: Seq<Callee>,
)
    requires
        lower_body(env, name, params, flags, body) is Ok,
        sized_function(lower_body(env, name, params, flags, body)->Ok_0),
        env_sound(
            env,
            Around {
                params: lower_body(env, name, params, flags, body)->Ok_0.params,
                locals: lower_body(env, name, params, flags, body)->Ok_0.locals,
                callees,
            },
        ),
    ensures
        sound_function(lower_body(env, name, params, flags, body)->Ok_0, callees),
        lower_body(env, name, params, flags, body)->Ok_0.params == flat_from(
            flags,
            params.len() as int,
            0,
            Seq::empty(),
        ),
        lower_body(env, name, params, flags, body)->Ok_0.returns_array == env.returns_array,
{
    let code = lower_body(env, name, params, flags, body)->Ok_0;
    let a = Around { params: code.params, locals: code.locals, callees };
    let ra = env.returns_array;
    let start = fresh_state();
    let (st0, kinds) = bind_params(start, params, flags, 0, Seq::empty());
    let st1 = lower_stmts(env, st0, body, 0)->Ok_0;
    let st2 = finish(st1, ra);
    let f = code.blocks;
    assert(f == st2.blocks);
    assert(code.locals == st2.locals);
    // What each state on the way will become.
    lemma_params_shape(start, params, flags, 0, Seq::empty());
    assert(open_only(st0, Set::empty()));
    lemma_stmts_open(env, st0, body, 0, Set::empty());
    assert(stretched(st1, st2)) by {
        if !st1.sealed() {
            if ra {
                let more = st1.add_local(SlotKind::Array(0));
                lemma_terminate_grows(more, Terminator::Return(Operand::Slot(st1.next_local())));
            } else {
                lemma_terminate_grows(st1, Terminator::Return(Operand::Const(0)));
            }
        } else {
            lemma_same_shape_stretched(st1, st1);
        }
    }
    lemma_same_shape_stretched(st2, st2);
    lemma_final_from(st2, st2, f, a);
    lemma_final_from(st1, st2, f, a);
    lemma_final_from(st0, st1, f, a);
    // The parameters, the body, and the end.
    assert(sound_state(start, a, ra)) by {
        assert(sound_insts(start.blocks[0].insts, a));
    }
    lemma_params_sound(start, params, flags, 0, Seq::empty(), a, ra);
    lemma_stmts_sound(env, st0, body, 0, Set::empty(), f, a, ra);
    if !st1.sealed() {
        if ra {
            let slot = st1.next_local();
            let more = st1.add_local(SlotKind::Array(0));
            lemma_add_local_sound(st1, SlotKind::Array(0), a, ra);
            lemma_terminate_sound(more, Terminator::Return(Operand::Slot(slot)), a, ra);
        } else {
            lemma_terminate_sound(st1, Terminator::Return(Operand::Const(0)), a, ra);
        }
    }
    assert(sound_state(st2, a, ra));
    crate::structure::lemma_routine_is_sealed(env, name, params, flags, body);
    assert forall|b: int| 0 <= b < code.blocks.len() implies sound_block(
        #[trigger] code.blocks[b],
        code.blocks.len() as int,
        code.returns_array,
        a,
    ) by {
        assert(st2.blocks[b].term is Some);
    }
}

/// Whether the counts of a module fit the machine's numbers, as those of
/// every module do that the generator built.
pub open spec fn sized(m: IrModuleView) -> bool {
    &&& m.functions.len() <= usize::MAX
    &&& forall|k: int| 0 <= k < m.functions.len() ==> sized_function(#[trigger] m.functions[k])
}

/// The functions of the code of a program are the code of its functions,
/// in order, and last the code of the entry routine.
pub proof fn lemma_module_functions(
    p: ProgramView,
    sigs: Seq<SignatureView>,
    k: int,
    done: Seq<IrFunctionView>,
)
    requires
        0 <= k <= p.functions.len(),
        done.len() == k,
        lower_from(p, sigs, k, done) is Ok,
    ensures
        lower_from(p, sigs, k, done)->Ok_0.functions.len() == p.functions.len() + 1,
        forall|j: int|
            0 <= j < k ==> #[trigger] lower_from(p, sigs, k, done)->Ok_0.functions[j] == done[j],
        forall|j: int|
            k <= j < p.functions.len() ==> lower_body(
                function_env(p, sigs, j),
                p.functions[j].name,
                p.functions[j].params,
                sigs[j].params,
                p.functions[j].body,
            ) == Ok::<IrFunctionView, crate::error::CompileErrorView>(
                #[trigger] lower_from(p, sigs, k, done)->Ok_0.functions[j],
            ),
        lower_body(entry_env(p, sigs), "main"@, Seq::empty(), Seq::empty(), p.statements) == Ok::<
            IrFunctionView,
            crate::error::CompileErrorView,
        >(lower_from(p, sigs, k, done)->Ok_0.functions[p.functions.len() as int]),
    decreases p.functions.len() - k,
{
    let m = lower_from(p, sigs, k, done)->Ok_0;
    if k < p.functions.len() {
        let f = p.functions[k];
        let code = lower_body(function_env(p, sigs, k), f.name, f.params, sigs[k].params, f.body)->Ok_0;
        lemma_module_functions(p, sigs, k + 1, done.push(code));
        assert forall|j: int| 0 <= j < k implies #[trigger] m.functions[j] == done[j] by {
            assert(done.push(code)[j] == done[j]);
        }
        assert(m.functions[k] == done.push(code)[k]);
    }
}

/// The code of a compiled program is well formed: every operand of every
/// instruction names something of the kind that the instruction works
/// on, every block ends in a terminator that goes to blocks of its
/// function or returns a value of the function's kind, and every call
/// passes one argument of the right kind for each parameter of a
/// function that is the caller or stands before it.
#[verifier::rlimit(60)]
pub proof fn lemma_compiled_code_is_well_formed(p: ProgramView)
    requires
        lower(p) is Ok,
        sized(lower(p)->Ok_0),
    ensures
        well_formed(lower(p)->Ok_0),
{
    let m = lower(p)->Ok_0;
    let sigs = analyze(p)->Ok_0;
    lemma_signatures_fit(p);
    lemma_module_functions(p, sigs, 0, Seq::empty());
    let n = p.functions.len() as int;
    assert(lower(p) == lower_from(p, sigs, 0, Seq::empty()));
    // What every function of the program looks like to its callers.
    assert forall|j: int| 0 <= j < n implies callee_of(#[trigger] m.functions[j]) == callee_for(
        sigs[j],
    ) by {
        let f = p.functions[j];
        assert(lower_body(function_env(p, sigs, j), f.name, f.params, sigs[j].params, f.body)
            == Ok::<IrFunctionView, crate::error::CompileErrorView>(m.functions[j]));
        lemma_callee_shape(p, sigs, j);
    }
    assert forall|k: int| 0 <= k < m.functions.len() implies sound_function(
        #[trigger] m.functions[k],
        callees_of(m, k),
    ) by {
        let code = m.functions[k];
        let callees = callees_of(m, k);
        let a = Around { params: code.params, locals: code.locals, callees };
        if k < n {
            let env = function_env(p, sigs, k);
            let f = p.functions[k];
            assert(env_sound(env, a)) by {
                assert forall|j: int| 0 <= j < env.declared implies #[trigger] a.callees[j]
                    == callee_for(env.sigs[j]) by {
                    assert(callee_of(m.functions[j]) == callee_for(sigs[j]));
                }
            }
            lemma_routine_is_sound(env, f.name, f.params, sigs[k].params, f.body, callees);
        } else {
            let env = entry_env(p, sigs);
            assert(env_sound(env, a)) by {
                assert forall|j: int| 0 <= j < env.declared implies #[trigger] a.callees[j]
                    == callee_for(env.sigs[j]) by {
                    assert(callee_of(m.functions[j]) == callee_for(sigs[j]));
                }
            }
            lemma_routine_is_sound(
                env,
                "main"@,
                Seq::empty(),
                Seq::empty(),
                p.statements,
                callees,
            );
        }
    }
}

/// A compiled function looks to its callers as its signature says.
pub proof fn lemma_callee_shape(p: ProgramView, sigs: Seq<SignatureView>, j: int)
    requires
        0 <= j < p.functions.len(),
        sigs.len() == p.functions.len(),
        signatures_fit(p, sigs),
        lower_body(
            function_env(p, sigs, j),
            p.functions[j].name,
            p.functions[j].params,
            sigs[j].params,
            p.functions[j].body,
        ) is Ok,
    ensures
        callee_of(
            lower_body(
                function_env(p, sigs, j),
                p.functions[j].name,
                p.functions[j].params,
                sigs[j].params,
                p.functions[j].body,
            )->Ok_0,
        ) == callee_for(sigs[j]),
{
    let f = p.functions[j];
    lemma_params_kinds(fresh_state(), f.params, sigs[j].params, 0, Seq::empty());
}

/// The kinds that the parameters get are the flattened kinds of their
/// flags.
pub proof fn lemma_params_kinds(
    st: FnState,
    params: Seq<Seq<char>>,
    flags: Seq<bool>,
    i: int,
    kinds: Seq<ParamKind>,
)
    requires
        0 <= i,
    ensures
        bind_params(st, params, flags, i, kinds).1 == flat_from(
            flags,
            params.len() as int,
            i,
            kinds,
        ),
    decreases params.len() - i,
{
    if i < params.len() {
        let at = kinds.len() as usize;
        if i < flags.len() && flags[i] {
            let slot = st.next_local();
            let s2 = st.add_local(SlotKind::Pointer).emit(
                InstView::StorePtr { addr: Operand::Slot(slot), value: Operand::Param(at) },
            );
            let len_slot = s2.next_local();
            let s5 = s2.add_local(SlotKind::Word).emit(
                InstView::Store {
                    addr: Operand::Slot(len_slot),
                    value: Operand::Param((at + 1) as usize),
                },
            ).bind(params[i], Binding::ArrayParam { slot, len_slot });
            lemma_params_kinds(
                s5,
                params,
                flags,
                i + 1,
                kinds.push(ParamKind::Pointer).push(ParamKind::Word),
            );
        } else {
            let slot = st.next_local();
            let s3 = st.add_local(SlotKind::Word).emit(
                InstView::Store { addr: Operand::Slot(slot), value: Operand::Param(at) },
            ).bind(params[i], Binding::Scalar { slot });
            lemma_params_kinds(s3, params, flags, i + 1, kinds.push(ParamKind::Word));
        }
    }
}

} // verus!
