//! Emission: intermediate code to the LLVM backend.
//!
//! The emitter walks a module of intermediate code and makes the backend
//! build it: a function for each function, a block for each block, the
//! stack slots at the start of the entry block, and for each instruction
//! the backend's instructions. It checks what it walks as it goes: an
//! operand that names nothing, or a value of the wrong kind, is an error
//! and never reaches the backend. Code that is well formed passes every
//! such test. A word is a 64-bit integer, wide enough for an address; a
//! pointer points to a word; the address of an element is computed from
//! the address of the first element in words.

use crate::error::{CompileError, CompileErrorView};
use crate::ir::{
    Block, Inst, InstView, IrFunction, IrFunctionView, IrModule, Operand, ParamKind, SlotKind,
    Terminator, WordOp,
};
use crate::llvm::{
    add_function, alloca, append_block, array_alloca, as_int, as_pointer, branch, build_return,
    byte_type, call, call_value, const_int, global_address, global_text, int_add, int_arg,
    int_compare, int_div, int_fn_type, int_mul, int_param_type, int_rem, int_slot_type, int_sub,
    int_to_pointer, int_type, int_value, jump, load, nth_param, pointer_arg, pointer_fn_type,
    pointer_param_type, pointer_slot_type, pointer_to, pointer_to_int, pointer_value,
    position_at_end, predicate, store, word_type, zero_extend, Comparison,
};
use crate::wellformed::{
    args_fit, callees_of, kind_of, param_kind, slot_kind, sound_block, sound_function, sound_inst,
    sound_term, well_formed, yields, Around, Kind,
};
use inkwell::basic_block::BasicBlock;
use inkwell::builder::{Builder, BuilderError};
use inkwell::context::Context;
use inkwell::module::Module;
use inkwell::types::{BasicMetadataTypeEnum, IntType, PointerType};
use inkwell::values::{BasicMetadataValueEnum, FunctionValue, IntValue, PointerValue};
use vstd::prelude::*;
use vstd::string::*;

verus! {

/// A value of the backend with its kind.
#[derive(Clone, Copy)]
enum Value<'ctx> {
    /// A word.
    Word(IntValue<'ctx>),
    /// A pointer to a word.
    Pointer(PointerValue<'ctx>),
    /// The address of a pointer slot.
    PointerSlot(PointerValue<'ctx>),
}

/// What the emitter knows while it emits one function.
struct Frame<'ctx> {
    /// Whether the function returns a pointer.
    returns_array: bool,
    /// The backend's block for each block of the function.
    blocks: Vec<BasicBlock<'ctx>>,
    /// The parameters.
    params: Vec<Value<'ctx>>,
    /// The address of each stack slot.
    slots: Vec<Value<'ctx>>,
    /// What each instruction of the current block so far yields, if it
    /// yields a value.
    regs: Vec<Option<Value<'ctx>>>,
}

/// The types of the backend that the emitter works with.
#[derive(Clone, Copy)]
struct Types<'ctx> {
    /// The type of a word: a 64-bit integer.
    word: IntType<'ctx>,
    /// The type of a pointer to a word.
    pointer: PointerType<'ctx>,
}

/// The types of the backend that the emitter works with.
fn types_of<'ctx>(ctx: &'ctx Context) -> Types<'ctx> {
    let word = word_type(ctx);
    Types { word, pointer: pointer_to(word) }
}

/// The constant word `c` in the backend.
fn const_word<'ctx>(ty: Types<'ctx>, c: i64) -> IntValue<'ctx> {
    const_int(ty.word, #[verifier::truncate] (c as u64))
}

/// Whether an error says that intermediate code is not well formed: its
/// message starts with these words.
pub open spec fn malformed_error(e: CompileErrorView) -> bool {
    let words = "malformed intermediate code: "@;
    e is Codegen && e.message().len() >= words.len() && e.message().subrange(0, words.len() as int)
        == words
}

/// An error whose message starts with another letter than `m` does not
/// say that intermediate code is not well formed.
proof fn lemma_other_words(e: CompileErrorView)
    requires
        e.message().len() >= 1,
        e.message()[0] != 'm',
    ensures
        !malformed_error(e),
{
    reveal_strlit("malformed intermediate code: ");
    let words = "malformed intermediate code: "@;
    if e.message().len() >= words.len() {
        assert(e.message().subrange(0, words.len() as int)[0] == e.message()[0]);
    }
}

impl<'ctx> Value<'ctx> {
    /// The kind of the value.
    spec fn kind(self) -> Kind {
        match self {
            Value::Word(_) => Kind::Word,
            Value::Pointer(_) => Kind::Pointer,
            Value::PointerSlot(_) => Kind::PointerSlot,
        }
    }
}

impl<'ctx> Frame<'ctx> {
    /// Whether the frame holds, for a function and the instructions
    /// `before` of the current block, a value of the right kind for each
    /// parameter, each stack slot and each instruction.
    spec fn fits(&self, code: IrFunctionView, before: Seq<InstView>) -> bool {
        &&& self.returns_array == code.returns_array
        &&& self.blocks@.len() == code.blocks.len()
        &&& self.params@.len() == code.params.len()
        &&& forall|i: int|
            0 <= i < self.params@.len() ==> (#[trigger] self.params@[i]).kind() == param_kind(
                code.params[i],
            )
        &&& self.slots@.len() == code.locals.len()
        &&& forall|i: int|
            0 <= i < self.slots@.len() ==> (#[trigger] self.slots@[i]).kind() == slot_kind(
                code.locals[i],
            )
        &&& self.regs@.len() == before.len()
        &&& forall|i: int|
            0 <= i < self.regs@.len() ==> match #[trigger] self.regs@[i] {
                Some(v) => yields(before[i]) == Some(v.kind()),
                None => yields(before[i]) is None,
            }
    }
}

/// What stands around the instructions of a function of a module.
spec fn around(code: IrFunctionView, callees: Seq<crate::wellformed::Callee>) -> Around {
    Around { params: code.params, locals: code.locals, callees }
}

/// The error for intermediate code that is not well formed.
fn malformed(what: &str) -> (e: CompileError)
    ensures
        e@ == malformation(what@),
        malformed_error(e@),
{
    let e = CompileError::Codegen(String::from_str("malformed intermediate code: ").concat(what));
    proof {
        let words = "malformed intermediate code: "@;
        assert((words + what@).subrange(0, words.len() as int) =~= words);
    }
    e
}

/// The error for code that is too large for the backend, or for an
/// answer of the backend that the emitter cannot use.
fn refused(what: &str) -> (e: CompileError)
    ensures
        e@ == refusal(what@),
        !malformed_error(e@),
{
    let e = CompileError::Codegen(String::from_str("the backend cannot take this: ").concat(what));
    proof {
        reveal_strlit("the backend cannot take this: ");
        lemma_other_words(e@);
    }
    e
}

/// The result of a call into the backend's builder, with the builder's
/// error as an error of code generation.
fn built<T>(r: Result<T, BuilderError>) -> (out: Result<T, CompileError>)
    ensures
        match r {
            Ok(v) => out == Ok::<T, CompileError>(v),
            Err(_) => out is Err && out->Err_0@ is Codegen && !malformed_error(out->Err_0@),
        },
{
    match r {
        Ok(v) => Ok(v),
        Err(e) => {
            let e = CompileError::from(e);
            proof {
                lemma_other_words(e@);
            }
            Err(e)
        },
    }
}

/// Whether a failure is one of code generation, and says that the code
/// is not well formed only where `sound` does not hold.
spec fn fails_soundly<T>(r: Result<T, CompileError>, sound: bool) -> bool {
    match r {
        Ok(_) => true,
        Err(e) => e@ is Codegen && (malformed_error(e@) ==> !sound),
    }
}

/// Whether the emitter told sound code from unsound: it succeeded only
/// where `sound` holds, and a failure is one of code generation that
/// says that the code is not well formed only where `sound` does not
/// hold.
spec fn tells<T>(r: Result<T, CompileError>, sound: bool) -> bool {
    match r {
        Ok(_) => sound,
        Err(e) => e@ is Codegen && (malformed_error(e@) ==> !sound),
    }
}

/// The error for intermediate code that is not well formed, with what is
/// wrong.
pub open spec fn malformation(what: Seq<char>) -> CompileErrorView {
    CompileErrorView::Codegen("malformed intermediate code: "@ + what)
}

/// The error for what the backend cannot take, with what it is.
pub open spec fn refusal(what: Seq<char>) -> CompileErrorView {
    CompileErrorView::Codegen("the backend cannot take this: "@ + what)
}

/// The value that an operand names.
fn operand<'ctx>(
    ty: Types<'ctx>,
    frame: &Frame<'ctx>,
    op: Operand,
    Ghost(code): Ghost<IrFunctionView>,
    Ghost(before): Ghost<Seq<InstView>>,
    Ghost(a): Ghost<Around>,
) -> (r: Result<Value<'ctx>, CompileError>)
    requires
        frame.fits(code, before),
        a.params == code.params,
        a.locals == code.locals,
    ensures
        match r {
            Ok(v) => kind_of(op, before, a) == Some(v.kind()),
            Err(e) => malformed_error(e@) && kind_of(op, before, a) is None,
        },
{
    match op {
        Operand::Const(c) => Ok(Value::Word(const_word(ty, c))),
        Operand::Reg(i) => {
            if i < frame.regs.len() {
                match frame.regs[i] {
                    Some(v) => Ok(v),
                    None => Err(malformed("the instruction yields no value")),
                }
            } else {
                Err(malformed("no such instruction"))
            }
        },
        Operand::Param(i) => {
            if i < frame.params.len() {
                Ok(frame.params[i])
            } else {
                Err(malformed("no such parameter"))
            }
        },
        Operand::Slot(i) => {
            if i < frame.slots.len() {
                Ok(frame.slots[i])
            } else {
                Err(malformed("no such stack slot"))
            }
        },
    }
}

/// The word that an operand names.
fn word_operand<'ctx>(
    ty: Types<'ctx>,
    frame: &Frame<'ctx>,
    op: Operand,
    Ghost(code): Ghost<IrFunctionView>,
    Ghost(before): Ghost<Seq<InstView>>,
    Ghost(a): Ghost<Around>,
) -> (r: Result<IntValue<'ctx>, CompileError>)
    requires
        frame.fits(code, before),
        a.params == code.params,
        a.locals == code.locals,
    ensures
        match r {
            Ok(_) => kind_of(op, before, a) == Some(Kind::Word),
            Err(e) => malformed_error(e@) && kind_of(op, before, a) != Some(Kind::Word),
        },
{
    match operand(ty, frame, op, Ghost(code), Ghost(before), Ghost(a))? {
        Value::Word(w) => Ok(w),
        _ => Err(malformed("a word is expected")),
    }
}

/// The pointer to a word that an operand names.
fn pointer_operand<'ctx>(
    ty: Types<'ctx>,
    frame: &Frame<'ctx>,
    op: Operand,
    Ghost(code): Ghost<IrFunctionView>,
    Ghost(before): Ghost<Seq<InstView>>,
    Ghost(a): Ghost<Around>,
) -> (r: Result<PointerValue<'ctx>, CompileError>)
    requires
        frame.fits(code, before),
        a.params == code.params,
        a.locals == code.locals,
    ensures
        match r {
            Ok(_) => kind_of(op, before, a) == Some(Kind::Pointer),
            Err(e) => malformed_error(e@) && kind_of(op, before, a) != Some(Kind::Pointer),
        },
{
    match operand(ty, frame, op, Ghost(code), Ghost(before), Ghost(a))? {
        Value::Pointer(p) => Ok(p),
        _ => Err(malformed("a pointer is expected")),
    }
}

/// The address of a pointer slot that an operand names.
fn slot_operand<'ctx>(
    ty: Types<'ctx>,
    frame: &Frame<'ctx>,
    op: Operand,
    Ghost(code): Ghost<IrFunctionView>,
    Ghost(before): Ghost<Seq<InstView>>,
    Ghost(a): Ghost<Around>,
) -> (r: Result<PointerValue<'ctx>, CompileError>)
    requires
        frame.fits(code, before),
        a.params == code.params,
        a.locals == code.locals,
    ensures
        match r {
            Ok(_) => kind_of(op, before, a) == Some(Kind::PointerSlot),
            Err(e) => malformed_error(e@) && kind_of(op, before, a) != Some(Kind::PointerSlot),
        },
{
    match operand(ty, frame, op, Ghost(code), Ghost(before), Ghost(a))? {
        Value::PointerSlot(p) => Ok(p),
        _ => Err(malformed("the address of a pointer slot is expected")),
    }
}

/// Makes the backend compare two words, and widen the bit that the
/// comparison yields to a word.
fn emit_compare<'ctx>(
    ty: Types<'ctx>,
    b: &Builder<'ctx>,
    how: Comparison,
    l: IntValue<'ctx>,
    r: IntValue<'ctx>,
) -> (res: Result<IntValue<'ctx>, CompileError>)
    ensures
        fails_soundly(res, true),
{
    let bit = built(int_compare(b, predicate(how), l, r))?;
    built(zero_extend(b, bit, ty.word))
}

/// Makes the backend build an operation on two words.
fn emit_binary<'ctx>(
    ty: Types<'ctx>,
    b: &Builder<'ctx>,
    op: WordOp,
    l: IntValue<'ctx>,
    r: IntValue<'ctx>,
) -> (res: Result<IntValue<'ctx>, CompileError>)
    ensures
        fails_soundly(res, true),
{
    match op {
        WordOp::Add => built(int_add(b, l, r)),
        WordOp::Sub => built(int_sub(b, l, r)),
        WordOp::Mul => built(int_mul(b, l, r)),
        WordOp::Div => built(int_div(b, l, r)),
        WordOp::Rem => built(int_rem(b, l, r)),
        WordOp::Lt => emit_compare(ty, b, Comparison::Less, l, r),
        WordOp::Le => emit_compare(ty, b, Comparison::LessOrEqual, l, r),
        WordOp::Gt => emit_compare(ty, b, Comparison::Greater, l, r),
        WordOp::Ge => emit_compare(ty, b, Comparison::GreaterOrEqual, l, r),
        WordOp::Eq => emit_compare(ty, b, Comparison::Equal, l, r),
        WordOp::Ne => emit_compare(ty, b, Comparison::NotEqual, l, r),
    }
}

/// Makes the backend print through `printf`: a format, and a word or a
/// text.
fn emit_print<'ctx>(
    b: &Builder<'ctx>,
    printf: FunctionValue<'ctx>,
    format: &str,
    what: BasicMetadataValueEnum<'ctx>,
) -> (res: Result<(), CompileError>)
    ensures
        fails_soundly(res, true),
{
    let fmt = global_address(built(global_text(b, format))?);
    let mut args: Vec<BasicMetadataValueEnum<'ctx>> = Vec::new();
    args.push(pointer_arg(fmt));
    args.push(what);
    built(call(b, printf, &args))?;
    Ok(())
}

/// Makes the backend build a call of a function of the module. It
/// succeeds only where the call fits the function: the same kind of
/// result, and one argument of the right kind for each parameter.
#[verifier::rlimit(50)]
fn emit_call<'ctx>(
    ty: Types<'ctx>,
    b: &Builder<'ctx>,
    frame: &Frame<'ctx>,
    callee: FunctionValue<'ctx>,
    target: &IrFunction,
    operands: &Vec<Operand>,
    returns_array: bool,
    Ghost(code): Ghost<IrFunctionView>,
    Ghost(before): Ghost<Seq<InstView>>,
    Ghost(a): Ghost<Around>,
) -> (res: Result<Value<'ctx>, CompileError>)
    requires
        frame.fits(code, before),
        a.params == code.params,
        a.locals == code.locals,
    ensures
        match res {
            Ok(v) => {
                &&& v.kind() == if returns_array {
                    Kind::Pointer
                } else {
                    Kind::Word
                }
                &&& returns_array == target.returns_array
                &&& args_fit(operands@, target.params@, before, a)
                &&& operands@.len() <= 0xffff_ffff
            },
            Err(e) => e@ is Codegen && (malformed_error(e@) ==> !(returns_array
                == target.returns_array && args_fit(operands@, target.params@, before, a))),
        },
        operands@.len() != target.params@.len() || returns_array != target.returns_array ==> res
            is Err && res->Err_0@ == malformation("the call does not fit the function"@),
        operands@.len() == target.params@.len() && returns_array == target.returns_array
            && operands@.len() > 0xffff_ffff ==> res is Err && res->Err_0@ == refusal(
            "too many arguments"@,
        ),
{
    if operands.len() != target.params.len() || returns_array != target.returns_array {
        return Err(malformed("the call does not fit the function"));
    }
    if operands.len() > 0xffff_ffff {
        return Err(refused("too many arguments"));
    }
    let mut args: Vec<BasicMetadataValueEnum<'ctx>> = Vec::new();
    let mut i: usize = 0;
    while i < operands.len()
        invariant
            i <= operands@.len(),
            args@.len() == i,
            operands@.len() == target.params@.len(),
            operands@.len() <= 0xffff_ffff,
            returns_array == target.returns_array,
            frame.fits(code, before),
            a.params == code.params,
            a.locals == code.locals,
            forall|n: int|
                0 <= n < i ==> kind_of(#[trigger] operands@[n], before, a) == Some(
                    param_kind(target.params@[n]),
                ),
        decreases operands@.len() - i,
    {
        match target.params[i] {
            ParamKind::Word => {
                let w = word_operand(
                    ty,
                    frame,
                    operands[i],
                    Ghost(code),
                    Ghost(before),
                    Ghost(a),
                )?;
                args.push(int_arg(w));
            },
            ParamKind::Pointer => {
                let p = pointer_operand(
                    ty,
                    frame,
                    operands[i],
                    Ghost(code),
                    Ghost(before),
                    Ghost(a),
                )?;
                args.push(pointer_arg(p));
            },
        }
        i += 1;
    }
    let result = match call_value(built(call(b, callee, &args))?) {
        Some(v) => v,
        None => {
            return Err(refused("the call yields no value"));
        },
    };
    if returns_array {
        match as_pointer(result) {
            Some(p) => Ok(Value::Pointer(p)),
            None => Err(refused("the call yields no pointer")),
        }
    } else {
        match as_int(result) {
            Some(w) => Ok(Value::Word(w)),
            None => Err(refused("the call yields no word")),
        }
    }
}

/// Whether what an instruction gave the emitter is what the instruction
/// yields.
spec fn yielded<'ctx>(v: Option<Value<'ctx>>, inst: InstView) -> bool {
    match v {
        Some(val) => yields(inst) == Some(val.kind()),
        None => yields(inst) is None,
    }
}

/// Makes the backend build one instruction, and gives what it yields.
/// It succeeds only on a sound instruction.
#[verifier::rlimit(50)]
fn emit_inst<'ctx>(
    ty: Types<'ctx>,
    b: &Builder<'ctx>,
    printf: FunctionValue<'ctx>,
    functions: &Vec<FunctionValue<'ctx>>,
    module: &IrModule,
    frame: &Frame<'ctx>,
    inst: &Inst,
    Ghost(code): Ghost<IrFunctionView>,
    Ghost(before): Ghost<Seq<InstView>>,
    Ghost(k): Ghost<int>,
) -> (res: Result<Option<Value<'ctx>>, CompileError>)
    requires
        frame.fits(code, before),
        0 <= k < module.functions@.len(),
        functions@.len() == k + 1,
    ensures
        match res {
            Ok(v) => yielded(v, inst@) && sound_inst(
                inst@,
                before,
                around(code, callees_of(module@, k)),
            ),
            Err(e) => e@ is Codegen && (malformed_error(e@) ==> !sound_inst(
                inst@,
                before,
                around(code, callees_of(module@, k)),
            )),
        },
{
    let ghost a = around(code, callees_of(module@, k));
    match inst {
        Inst::Load { addr } => {
            let p = pointer_operand(ty, frame, *addr, Ghost(code), Ghost(before), Ghost(a))?;
            match as_int(built(load(b, p))?) {
                Some(w) => Ok(Some(Value::Word(w))),
                None => Err(refused("the load yields no word")),
            }
        },
        Inst::LoadPtr { addr } => {
            let p = slot_operand(ty, frame, *addr, Ghost(code), Ghost(before), Ghost(a))?;
            match as_pointer(built(load(b, p))?) {
                Some(q) => Ok(Some(Value::Pointer(q))),
                None => Err(refused("the load yields no pointer")),
            }
        },
        Inst::Store { addr, value } => {
            let p = pointer_operand(ty, frame, *addr, Ghost(code), Ghost(before), Ghost(a))?;
            let w = word_operand(ty, frame, *value, Ghost(code), Ghost(before), Ghost(a))?;
            built(store(b, p, int_value(w)))?;
            Ok(None)
        },
        Inst::StorePtr { addr, value } => {
            let p = slot_operand(ty, frame, *addr, Ghost(code), Ghost(before), Ghost(a))?;
            let q = pointer_operand(ty, frame, *value, Ghost(code), Ghost(before), Ghost(a))?;
            built(store(b, p, pointer_value(q)))?;
            Ok(None)
        },
        Inst::Binary { op, lhs, rhs } => {
            let l = word_operand(ty, frame, *lhs, Ghost(code), Ghost(before), Ghost(a))?;
            let r = word_operand(ty, frame, *rhs, Ghost(code), Ghost(before), Ghost(a))?;
            Ok(Some(Value::Word(emit_binary(ty, b, *op, l, r)?)))
        },
        Inst::Element { base, index } => {
            let p = pointer_operand(ty, frame, *base, Ghost(code), Ghost(before), Ghost(a))?;
            let i = word_operand(ty, frame, *index, Ghost(code), Ghost(before), Ghost(a))?;
            let start = built(pointer_to_int(b, p, ty.word))?;
            let offset = built(int_mul(b, i, const_int(ty.word, 8)))?;
            let place = built(int_add(b, start, offset))?;
            Ok(Some(Value::Pointer(built(int_to_pointer(b, place, ty.pointer))?)))
        },
        Inst::PtrToWord { value } => {
            let p = pointer_operand(ty, frame, *value, Ghost(code), Ghost(before), Ghost(a))?;
            Ok(Some(Value::Word(built(pointer_to_int(b, p, ty.word))?)))
        },
        Inst::WordToPtr { value } => {
            let w = word_operand(ty, frame, *value, Ghost(code), Ghost(before), Ghost(a))?;
            Ok(Some(Value::Pointer(built(int_to_pointer(b, w, ty.pointer))?)))
        },
        Inst::Call { callee, args, returns_array } => {
            if *callee < functions.len() {
                let target = &module.functions[*callee];
                assert(callees_of(module@, k)[*callee as int] == crate::wellformed::callee_of(
                    target@,
                ));
                let v = emit_call(
                    ty,
                    b,
                    frame,
                    functions[*callee],
                    target,
                    args,
                    *returns_array,
                    Ghost(code),
                    Ghost(before),
                    Ghost(a),
                )?;
                Ok(Some(v))
            } else {
                Err(malformed("no such function"))
            }
        },
        Inst::PrintWord { value } => {
            let w = word_operand(ty, frame, *value, Ghost(code), Ghost(before), Ghost(a))?;
            emit_print(b, printf, "%lld\n", int_arg(w))?;
            Ok(None)
        },
        Inst::PrintText { text } => {
            let t = global_address(built(global_text(b, text.as_str()))?);
            emit_print(b, printf, "%s\n", pointer_arg(t))?;
            Ok(None)
        },
    }
}

/// Makes the backend build the terminator of a block. A terminator that
/// is not sound is refused as not well formed before the backend is
/// asked; a sound one is handed to the backend, whose answer decides.
fn emit_terminator<'ctx>(
    ty: Types<'ctx>,
    b: &Builder<'ctx>,
    frame: &Frame<'ctx>,
    term: Terminator,
    Ghost(code): Ghost<IrFunctionView>,
    Ghost(before): Ghost<Seq<InstView>>,
    Ghost(a): Ghost<Around>,
) -> (res: Result<(), CompileError>)
    requires
        frame.fits(code, before),
        a.params == code.params,
        a.locals == code.locals,
    ensures
        match res {
            Ok(_) => sound_term(term, before, code.blocks.len() as int, code.returns_array, a),
            Err(e) => e@ is Codegen && (malformed_error(e@) <==> !sound_term(
                term,
                before,
                code.blocks.len() as int,
                code.returns_array,
                a,
            )),
        },
{
    match term {
        Terminator::Return(v) => {
            if frame.returns_array {
                let p = pointer_operand(ty, frame, v, Ghost(code), Ghost(before), Ghost(a))?;
                built(build_return(b, pointer_value(p)))
            } else {
                let w = word_operand(ty, frame, v, Ghost(code), Ghost(before), Ghost(a))?;
                built(build_return(b, int_value(w)))
            }
        },
        Terminator::Jump(to) => {
            if to < frame.blocks.len() {
                built(jump(b, frame.blocks[to]))
            } else {
                Err(malformed("no such block"))
            }
        },
        Terminator::Branch { cond, if_true, if_false } => {
            let w = word_operand(ty, frame, cond, Ghost(code), Ghost(before), Ghost(a))?;
            if if_true < frame.blocks.len() && if_false < frame.blocks.len() {
                let bit = built(int_compare(b, predicate(Comparison::NotEqual), w, const_word(ty, 0)))?;
                built(branch(b, bit, frame.blocks[if_true], frame.blocks[if_false]))
            } else {
                Err(malformed("no such block"))
            }
        },
    }
}

/// Makes the backend declare a function with the parameters and the
/// result of a function of the intermediate code. It fails only where
/// the function has more parameters than the backend can count.
fn declare_function<'ctx>(ty: Types<'ctx>, module: &Module<'ctx>, code: &IrFunction) -> (res:
    Result<FunctionValue<'ctx>, CompileError>)
    ensures
        match res {
            Ok(_) => code.params@.len() < 0xffff_ffff,
            Err(e) => {
                &&& code.params@.len() >= 0xffff_ffff
                &&& e@ == refusal("too many parameters"@)
                &&& !malformed_error(e@)
            },
        },
{
    if code.params.len() >= 0xffff_ffff {
        return Err(refused("too many parameters"));
    }
    let mut types: Vec<BasicMetadataTypeEnum<'ctx>> = Vec::new();
    let mut i: usize = 0;
    while i < code.params.len()
        invariant
            i <= code.params@.len(),
            types@.len() == i,
            code.params@.len() < 0xffff_ffff,
        decreases code.params@.len() - i,
    {
        match code.params[i] {
            ParamKind::Word => types.push(int_param_type(ty.word)),
            ParamKind::Pointer => types.push(pointer_param_type(ty.pointer)),
        }
        i += 1;
    }
    let signature = if code.returns_array {
        pointer_fn_type(ty.pointer, &types, false)
    } else {
        int_fn_type(ty.word, &types, false)
    };
    Ok(add_function(module, code.name.as_str(), signature))
}

/// Makes the backend declare the variadic `printf` of the C library,
/// which takes the address of a text and returns a 32-bit integer.
pub(crate) fn declare_printf<'ctx>(ctx: &'ctx Context, module: &Module<'ctx>) -> FunctionValue<
    'ctx,
> {
    let mut params: Vec<BasicMetadataTypeEnum<'ctx>> = Vec::new();
    params.push(pointer_param_type(pointer_to(byte_type(ctx))));
    add_function(module, "printf", int_fn_type(int_type(ctx), &params, true))
}

/// Makes the backend build one block of a function: its instructions and
/// its terminator. It succeeds only on a sound block, and then the frame
/// holds what each instruction of the block yields.
#[verifier::rlimit(50)]
fn emit_block<'ctx>(
    ty: Types<'ctx>,
    b: &Builder<'ctx>,
    printf: FunctionValue<'ctx>,
    functions: &Vec<FunctionValue<'ctx>>,
    module: &IrModule,
    frame: &mut Frame<'ctx>,
    block: &Block,
    Ghost(code): Ghost<IrFunctionView>,
    Ghost(k): Ghost<int>,
) -> (res: Result<(), CompileError>)
    requires
        old(frame).fits(code, Seq::empty()),
        0 <= k < module.functions@.len(),
        functions@.len() == k + 1,
    ensures
        tells(
            res,
            sound_block(
                block@,
                code.blocks.len() as int,
                code.returns_array,
                around(code, callees_of(module@, k)),
            ),
        ),
        res is Ok ==> final(frame).fits(code, block@.insts),
        final(frame).returns_array == old(frame).returns_array,
        final(frame).blocks == old(frame).blocks,
        final(frame).params == old(frame).params,
        final(frame).slots == old(frame).slots,
{
    let ghost a = around(code, callees_of(module@, k));
    let ghost insts = block@.insts;
    let mut j: usize = 0;
    while j < block.insts.len()
        invariant
            j <= block.insts@.len(),
            insts == block@.insts,
            a == around(code, callees_of(module@, k)),
            0 <= k < module.functions@.len(),
            functions@.len() == k + 1,
            frame.fits(code, insts.take(j as int)),
            forall|pc: int| 0 <= pc < j ==> sound_inst(#[trigger] insts[pc], insts.take(pc), a),
            frame.returns_array == old(frame).returns_array,
            frame.blocks == old(frame).blocks,
            frame.params == old(frame).params,
            frame.slots == old(frame).slots,
        decreases block.insts@.len() - j,
    {
        let ghost before = insts.take(j as int);
        assert(insts[j as int] == block.insts@[j as int]@);
        let v = emit_inst(
            ty,
            b,
            printf,
            functions,
            module,
            frame,
            &block.insts[j],
            Ghost(code),
            Ghost(before),
            Ghost(k),
        )?;
        frame.regs.push(v);
        proof {
            assert(insts.take(j + 1) =~= before.push(insts[j as int]));
        }
        j += 1;
    }
    proof {
        assert(insts.take(j as int) =~= insts);
    }
    match block.term {
        Some(t) => emit_terminator(ty, b, frame, t, Ghost(code), Ghost(insts), Ghost(a)),
        None => Err(malformed("a block without terminator")),
    }
}

/// Makes the backend build the body of a declared function: its blocks,
/// its stack slots at the start of the entry block, and then block by
/// block its instructions and terminators. It succeeds only on a sound
/// function; a function without blocks, or with more parameters than
/// the backend can count, is refused before the backend is asked.
#[verifier::rlimit(50)]
fn emit_body<'ctx>(
    ctx: &'ctx Context,
    ty: Types<'ctx>,
    b: &Builder<'ctx>,
    printf: FunctionValue<'ctx>,
    functions: &Vec<FunctionValue<'ctx>>,
    module: &IrModule,
    function: FunctionValue<'ctx>,
    code: &IrFunction,
    Ghost(k): Ghost<int>,
) -> (res: Result<(), CompileError>)
    requires
        0 <= k < module.functions@.len(),
        functions@.len() == k + 1,
    ensures
        tells(res, sound_function(code@, callees_of(module@, k))),
        res is Ok ==> code.params@.len() < 0xffff_ffff,
        code.blocks@.len() == 0 ==> res is Err && res->Err_0@ == malformation(
            "a function without blocks"@,
        ),
        code.blocks@.len() > 0 && code.params@.len() >= 0xffff_ffff ==> res is Err
            && res->Err_0@ == refusal("too many parameters"@),
{
    if code.blocks.len() == 0 {
        return Err(malformed("a function without blocks"));
    }
    if code.params.len() >= 0xffff_ffff {
        return Err(refused("too many parameters"));
    }
    let mut frame = Frame {
        returns_array: code.returns_array,
        blocks: Vec::new(),
        params: Vec::new(),
        slots: Vec::new(),
        regs: Vec::new(),
    };
    let mut i: usize = 0;
    while i < code.blocks.len()
        invariant
            i <= code.blocks@.len(),
            code.blocks@.len() > 0,
            code.params@.len() < 0xffff_ffff,
            frame.blocks@.len() == i,
            frame.returns_array == code.returns_array,
            frame.params@.len() == 0,
            frame.slots@.len() == 0,
            frame.regs@.len() == 0,
        decreases code.blocks@.len() - i,
    {
        frame.blocks.push(append_block(ctx, function));
        i += 1;
    }
    position_at_end(b, frame.blocks[0]);
    let mut i: usize = 0;
    while i < code.params.len()
        invariant
            i <= code.params@.len(),
            code.blocks@.len() > 0,
            code.params@.len() < 0xffff_ffff,
            frame.blocks@.len() == code.blocks@.len(),
            frame.returns_array == code.returns_array,
            frame.params@.len() == i,
            forall|n: int|
                0 <= n < i ==> (#[trigger] frame.params@[n]).kind() == param_kind(code.params@[n]),
            frame.slots@.len() == 0,
            frame.regs@.len() == 0,
        decreases code.params@.len() - i,
    {
        let raw = match nth_param(function, i as u32) {
            Some(raw) => raw,
            None => {
                return Err(refused("the function lacks a parameter"));
            },
        };
        match code.params[i] {
            ParamKind::Word => match as_int(raw) {
                Some(w) => frame.params.push(Value::Word(w)),
                None => {
                    return Err(refused("the parameter is no word"));
                },
            },
            ParamKind::Pointer => match as_pointer(raw) {
                Some(p) => frame.params.push(Value::Pointer(p)),
                None => {
                    return Err(refused("the parameter is no pointer"));
                },
            },
        }
        i += 1;
    }
    let mut i: usize = 0;
    while i < code.locals.len()
        invariant
            i <= code.locals@.len(),
            code.blocks@.len() > 0,
            code.params@.len() < 0xffff_ffff,
            frame.blocks@.len() == code.blocks@.len(),
            frame.returns_array == code.returns_array,
            frame.params@.len() == code.params@.len(),
            forall|n: int|
                0 <= n < frame.params@.len() ==> (#[trigger] frame.params@[n]).kind()
                    == param_kind(code.params@[n]),
            frame.slots@.len() == i,
            forall|n: int|
                0 <= n < i ==> (#[trigger] frame.slots@[n]).kind() == slot_kind(code.locals@[n]),
            frame.regs@.len() == 0,
        decreases code.locals@.len() - i,
    {
        match code.locals[i] {
            SlotKind::Word => {
                let p = built(alloca(b, int_slot_type(ty.word)))?;
                frame.slots.push(Value::Pointer(p));
            },
            SlotKind::Pointer => {
                let p = built(alloca(b, pointer_slot_type(ty.pointer)))?;
                frame.slots.push(Value::PointerSlot(p));
            },
            SlotKind::Array(n) => {
                let count = const_int(ty.word, n as u64);
                let p = built(array_alloca(b, int_slot_type(ty.word), count))?;
                frame.slots.push(Value::Pointer(p));
            },
        }
        i += 1;
    }
    let mut n: usize = 0;
    while n < code.blocks.len()
        invariant
            n <= code.blocks@.len(),
            code.blocks@.len() > 0,
            code.params@.len() < 0xffff_ffff,
            forall|x: int|
                0 <= x < n ==> sound_block(
                    #[trigger] code@.blocks[x],
                    code@.blocks.len() as int,
                    code@.returns_array,
                    around(code@, callees_of(module@, k)),
                ),
            0 <= k < module.functions@.len(),
            functions@.len() == k + 1,
            frame.blocks@.len() == code.blocks@.len(),
            frame.returns_array == code.returns_array,
            frame.params@.len() == code.params@.len(),
            forall|i: int|
                0 <= i < frame.params@.len() ==> (#[trigger] frame.params@[i]).kind()
                    == param_kind(code.params@[i]),
            frame.slots@.len() == code.locals@.len(),
            forall|i: int|
                0 <= i < frame.slots@.len() ==> (#[trigger] frame.slots@[i]).kind() == slot_kind(
                    code.locals@[i],
                ),
        decreases code.blocks@.len() - n,
    {
        position_at_end(b, frame.blocks[n]);
        frame.regs = Vec::new();
        assert(frame.fits(code@, Seq::empty()));
        assert(code@.blocks[n as int] == code.blocks@[n as int]@);
        emit_block(
            ty,
            b,
            printf,
            functions,
            module,
            &mut frame,
            &code.blocks[n],
            Ghost(code@),
            Ghost(k),
        )?;
        n += 1;
    }
    Ok(())
}

/// Makes the backend build a module of intermediate code: function by
/// function, each declared before its body is built, so that it can call
/// itself and the functions before it. Gives the backend's functions in
/// the order of the module; the last is the entry routine. It succeeds
/// only on code that is well formed. Every failure is an error of code
/// generation; on code that is well formed, none says that the code is
/// not.
#[verifier::rlimit(50)]
pub(crate) fn emit_module<'ctx>(
    ctx: &'ctx Context,
    target: &Module<'ctx>,
    b: &Builder<'ctx>,
    printf: FunctionValue<'ctx>,
    module: &IrModule,
) -> (res: Result<Vec<FunctionValue<'ctx>>, CompileError>)
    ensures
        match res {
            Ok(functions) => functions@.len() == module.functions@.len() && well_formed(module@),
            Err(e) => e@ is Codegen && (malformed_error(e@) ==> !well_formed(module@)),
        },
{
    let ty = types_of(ctx);
    let mut functions: Vec<FunctionValue<'ctx>> = Vec::new();
    let mut k: usize = 0;
    while k < module.functions.len()
        invariant
            k <= module.functions@.len(),
            functions@.len() == k,
            forall|x: int|
                0 <= x < k ==> sound_function(#[trigger] module@.functions[x], callees_of(module@, x)),
        decreases module.functions@.len() - k,
    {
        let code = &module.functions[k];
        let function = declare_function(ty, target, code)?;
        functions.push(function);
        assert(module@.functions[k as int] == code@);
        emit_body(ctx, ty, b, printf, &functions, module, function, code, Ghost(k as int))?;
        k += 1;
    }
    Ok(functions)
}

} // verus!
