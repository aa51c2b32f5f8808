//! What makes intermediate code well formed: every operand names
//! something of the kind that its instruction works on.
//!
//! A value is a word, a pointer to a word, or the address of a pointer
//! slot. The address of a word slot and of an array slot is a pointer to
//! a word. A function may call itself and the functions before it in the
//! module, with one argument of the right kind for each parameter.

use crate::ir::{
    BlockView, InstView, IrFunctionView, IrModuleView, Operand, ParamKind, SlotKind, Terminator,
};
use vstd::prelude::*;

verus! {

/// The kind of a value.
#[derive(PartialEq, Eq, Structural)]
pub enum Kind {
    /// A word.
    Word,
    /// A pointer to a word.
    Pointer,
    /// The address of a pointer slot.
    PointerSlot,
}

/// The kind of the address of a stack slot.
pub open spec fn slot_kind(s: SlotKind) -> Kind {
    match s {
        SlotKind::Word => Kind::Pointer,
        SlotKind::Pointer => Kind::PointerSlot,
        SlotKind::Array(_) => Kind::Pointer,
    }
}

/// The kind of a parameter.
pub open spec fn param_kind(p: ParamKind) -> Kind {
    match p {
        ParamKind::Word => Kind::Word,
        ParamKind::Pointer => Kind::Pointer,
    }
}

/// The kind of what an instruction yields, if it yields a value.
pub open spec fn yields(inst: InstView) -> Option<Kind> {
    match inst {
        InstView::Load { addr } => Some(Kind::Word),
        InstView::LoadPtr { addr } => Some(Kind::Pointer),
        InstView::Store { addr, value } => None,
        InstView::StorePtr { addr, value } => None,
        InstView::Binary { op, lhs, rhs } => Some(Kind::Word),
        InstView::Element { base, index } => Some(Kind::Pointer),
        InstView::PtrToWord { value } => Some(Kind::Word),
        InstView::WordToPtr { value } => Some(Kind::Pointer),
        InstView::Call { callee, args, returns_array } => Some(
            if returns_array {
                Kind::Pointer
            } else {
                Kind::Word
            },
        ),
        InstView::PrintWord { value } => None,
        InstView::PrintText { text } => None,
    }
}

/// What a function looks like to its callers: the kinds of its
/// parameters, and whether it returns a pointer.
pub struct Callee {
    pub params: Seq<ParamKind>,
    pub returns_array: bool,
}

/// What stands around the instructions of a function: its parameters and
/// stack slots, and the functions that it may call.
pub struct Around {
    pub params: Seq<ParamKind>,
    pub locals: Seq<SlotKind>,
    pub callees: Seq<Callee>,
}

/// The kind of what an operand names, after the instructions `before` of
/// its block; none where it names nothing.
pub open spec fn kind_of(op: Operand, before: Seq<InstView>, a: Around) -> Option<Kind> {
    match op {
        Operand::Const(_) => Some(Kind::Word),
        Operand::Reg(i) => if i < before.len() {
            yields(before[i as int])
        } else {
            None
        },
        Operand::Param(i) => if i < a.params.len() {
            Some(param_kind(a.params[i as int]))
        } else {
            None
        },
        Operand::Slot(i) => if i < a.locals.len() {
            Some(slot_kind(a.locals[i as int]))
        } else {
            None
        },
    }
}

/// Whether operands are one argument of the right kind for each
/// parameter.
pub open spec fn args_fit(
    args: Seq<Operand>,
    params: Seq<ParamKind>,
    before: Seq<InstView>,
    a: Around,
) -> bool {
    &&& args.len() == params.len()
    &&& forall|i: int|
        0 <= i < args.len() ==> kind_of(#[trigger] args[i], before, a) == Some(
            param_kind(params[i]),
        )
}

/// Whether the operands of an instruction are of the kinds that it works
/// on, after the instructions `before` of its block.
pub open spec fn sound_inst(inst: InstView, before: Seq<InstView>, a: Around) -> bool {
    match inst {
        InstView::Load { addr } => kind_of(addr, before, a) == Some(Kind::Pointer),
        InstView::LoadPtr { addr } => kind_of(addr, before, a) == Some(Kind::PointerSlot),
        InstView::Store { addr, value } => {
            &&& kind_of(addr, before, a) == Some(Kind::Pointer)
            &&& kind_of(value, before, a) == Some(Kind::Word)
        },
        InstView::StorePtr { addr, value } => {
            &&& kind_of(addr, before, a) == Some(Kind::PointerSlot)
            &&& kind_of(value, before, a) == Some(Kind::Pointer)
        },
        InstView::Binary { op, lhs, rhs } => {
            &&& kind_of(lhs, before, a) == Some(Kind::Word)
            &&& kind_of(rhs, before, a) == Some(Kind::Word)
        },
        InstView::Element { base, index } => {
            &&& kind_of(base, before, a) == Some(Kind::Pointer)
            &&& kind_of(index, before, a) == Some(Kind::Word)
        },
        InstView::PtrToWord { value } => kind_of(value, before, a) == Some(Kind::Pointer),
        InstView::WordToPtr { value } => kind_of(value, before, a) == Some(Kind::Word),
        InstView::Call { callee, args, returns_array } => {
            &&& callee < a.callees.len()
            &&& returns_array == a.callees[callee as int].returns_array
            &&& args_fit(args, a.callees[callee as int].params, before, a)
        },
        InstView::PrintWord { value } => kind_of(value, before, a) == Some(Kind::Word),
        InstView::PrintText { text } => true,
    }
}

/// Whether each of some instructions is sound after those before it.
pub open spec fn sound_insts(insts: Seq<InstView>, a: Around) -> bool {
    forall|pc: int| 0 <= pc < insts.len() ==> sound_inst(#[trigger] insts[pc], insts.take(pc), a)
}

/// Whether a terminator returns a value of the function's kind, or goes
/// to blocks of the function on a word.
pub open spec fn sound_term(
    t: Terminator,
    insts: Seq<InstView>,
    blocks: int,
    returns_array: bool,
    a: Around,
) -> bool {
    match t {
        Terminator::Return(v) => kind_of(v, insts, a) == Some(
            if returns_array {
                Kind::Pointer
            } else {
                Kind::Word
            },
        ),
        Terminator::Jump(to) => to < blocks,
        Terminator::Branch { cond, if_true, if_false } => {
            &&& kind_of(cond, insts, a) == Some(Kind::Word)
            &&& if_true < blocks
            &&& if_false < blocks
        },
    }
}

/// Whether a block is sound: its instructions, and its terminator, which
/// it has.
pub open spec fn sound_block(b: BlockView, blocks: int, returns_array: bool, a: Around) -> bool {
    &&& sound_insts(b.insts, a)
    &&& b.term is Some
    &&& sound_term(b.term->Some_0, b.insts, blocks, returns_array, a)
}

/// What a function looks like to its callers.
pub open spec fn callee_of(f: IrFunctionView) -> Callee {
    Callee { params: f.params, returns_array: f.returns_array }
}

/// Whether a function is sound, where it may call `callees`: it has an
/// entry block, and each of its blocks is sound.
pub open spec fn sound_function(f: IrFunctionView, callees: Seq<Callee>) -> bool {
    &&& f.blocks.len() > 0
    &&& forall|b: int|
        0 <= b < f.blocks.len() ==> sound_block(
            #[trigger] f.blocks[b],
            f.blocks.len() as int,
            f.returns_array,
            Around { params: f.params, locals: f.locals, callees },
        )
}

/// The functions that function `k` of a module may call: itself and
/// those before it.
pub open spec fn callees_of(m: IrModuleView, k: int) -> Seq<Callee> {
    Seq::new((k + 1) as nat, |j: int| callee_of(m.functions[j]))
}

/// Whether a module is well formed: each of its functions is sound,
/// where it may call itself and the functions before it.
pub open spec fn well_formed(m: IrModuleView) -> bool {
    forall|k: int|
        0 <= k < m.functions.len() ==> sound_function(#[trigger] m.functions[k], callees_of(m, k))
}

} // verus!
