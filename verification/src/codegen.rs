//! Code generation: a syntax tree to intermediate code.
//!
//! What the generator emits is given as specification functions from a
//! state and a piece of the tree to the next state; the generator computes
//! exactly these. A state holds the blocks of the function under
//! construction, the block that instructions go to, the stack slots, and
//! the symbol table. A block that has its terminator is sealed: it takes
//! no further instruction and no second terminator, so what follows a
//! `return` in its block is checked but leaves no code.
//!
//! The symbol table is flat: a declaration inside a branch or a loop
//! binds its name for the rest of the function. An array variable owns a
//! pointer slot that holds the address of its first element, and the
//! table knows its length; of an array parameter the length is known
//! only at run time, so that it can be asked for but the array can be
//! neither read at an index nor passed on. A read at an index needs an
//! index that folds to a constant inside the array; a write at an index
//! takes any index and checks nothing. A function can call itself and
//! the functions declared before it; a call reaches the last function
//! declared under the name. A string literal can only be printed.

use crate::ast::{
    exprs_view, functions_view, names_view, stmts_view, BinOp, Expr, ExprView, Function,
    FunctionView, Program, ProgramView, Statement, StatementView, UnOp,
};
use crate::emit::{declare_printf, emit_module, malformed_error};
use crate::error::{CompileError, CompileErrorView};
use crate::ir::{
    blocks_view, insts_view, ir_functions_view, Block, BlockView, Inst, InstView, IrFunction,
    IrFunctionView, IrModule, IrModuleView, Operand, ParamKind, SlotKind, Terminator, WordOp,
};
use crate::signature::{
    analyze, analyze_function_types, signatures_view, too_many_arguments, Signature,
    SignatureView,
};
use crate::llvm::new_builder;
use crate::text::{count_text, decimal, decimal_text, join2};
use crate::typing::{lemma_compiled_code_is_well_formed, sized, sized_function};
use crate::wellformed::well_formed;
use inkwell::builder::Builder;
use inkwell::context::Context;
use inkwell::module::Module;
use inkwell::values::FunctionValue;
use vstd::hash_map::StringHashMap;
use vstd::prelude::*;
use vstd::string::*;

verus! {

/// What a name of the symbol table stands for.
#[derive(Debug, Clone, Copy, PartialEq, Eq, Structural)]
pub enum Binding {
    /// A word in a word slot.
    Scalar { slot: usize },
    /// An array of known length, whose pointer slot holds the address of
    /// its first element.
    Array { slot: usize, len: usize },
    /// An array parameter: a pointer slot as above, and a word slot that
    /// holds the length it was passed with.
    ArrayParam { slot: usize, len_slot: usize },
}

/// The state of the function under construction.
pub struct FnState {
    pub blocks: Seq<BlockView>,
    pub current: int,
    pub locals: Seq<SlotKind>,
    pub bindings: Map<Seq<char>, Binding>,
}

/// What stays the same while one function is compiled: the names and
/// signatures of the program's functions, how many of them are declared
/// and can be called, and whether the function under construction returns
/// an array.
pub struct Env {
    pub names: Seq<Seq<char>>,
    pub sigs: Seq<SignatureView>,
    pub declared: int,
    pub returns_array: bool,
}

/// A word of the generated code from a count: its low 64 bits, read
/// with a sign.
pub open spec fn count_word(n: usize) -> i64 {
    n as i64
}

/// The operation of the intermediate code for a binary operator.
pub open spec fn word_op(op: BinOp) -> WordOp {
    match op {
        BinOp::Add => WordOp::Add,
        BinOp::Sub => WordOp::Sub,
        BinOp::Mul => WordOp::Mul,
        BinOp::Div => WordOp::Div,
        BinOp::Rem => WordOp::Rem,
        BinOp::Lt => WordOp::Lt,
        BinOp::Le => WordOp::Le,
        BinOp::Gt => WordOp::Gt,
        BinOp::Ge => WordOp::Ge,
        BinOp::Eq => WordOp::Eq,
        BinOp::Ne => WordOp::Ne,
    }
}

/// The word for a truth value.
pub open spec fn flag(b: bool) -> i64 {
    if b {
        1
    } else {
        0
    }
}

/// The quotient of two words, rounded toward zero.
pub open spec fn quotient(a: int, b: int) -> int {
    if a >= 0 && b > 0 {
        a / b
    } else if a < 0 && b > 0 {
        -((-a) / b)
    } else if a >= 0 && b < 0 {
        -(a / (-b))
    } else {
        (-a) / (-b)
    }
}

/// The result of an operation on two constant words, where it is a
/// constant: sums, differences and products wrap; a division by zero, or
/// one whose quotient is no word, is none.
pub open spec fn fold(op: WordOp, a: i64, b: i64) -> Option<i64> {
    match op {
        WordOp::Add => Some(a.wrapping_add(b)),
        WordOp::Sub => Some(a.wrapping_sub(b)),
        WordOp::Mul => Some(a.wrapping_mul(b)),
        WordOp::Div => if b == 0 || (a == i64::MIN && b == -1) {
            None
        } else {
            Some(quotient(a as int, b as int) as i64)
        },
        WordOp::Rem => if b == 0 || (a == i64::MIN && b == -1) {
            None
        } else {
            Some((a - b * quotient(a as int, b as int)) as i64)
        },
        WordOp::Lt => Some(flag(a < b)),
        WordOp::Le => Some(flag(a <= b)),
        WordOp::Gt => Some(flag(a > b)),
        WordOp::Ge => Some(flag(a >= b)),
        WordOp::Eq => Some(flag(a == b)),
        WordOp::Ne => Some(flag(a != b)),
    }
}

/// An error of code generation with its message.
pub open spec fn codegen_error(msg: Seq<char>) -> CompileErrorView {
    CompileErrorView::Codegen(msg)
}

/// The error for an argument that is no array where the parameter is one.
pub open spec fn expected_array_argument(i: int, name: Seq<char>) -> CompileErrorView {
    codegen_error("Expected array argument for parameter "@ + decimal(i) + " of "@ + name)
}

/// The error for a constant index outside the array.
pub open spec fn out_of_bounds(index: int, name: Seq<char>, len: int) -> CompileErrorView {
    codegen_error(
        "Index "@ + decimal(index) + " out of bounds for array "@ + name + " of size "@ + decimal(
            len,
        ),
    )
}

impl FnState {
    /// Whether the state has at least the blocks of an earlier one.
    pub open spec fn extends(self, earlier: FnState) -> bool {
        earlier.blocks.len() <= self.blocks.len()
    }

    /// Whether the state can be worked on: its current block exists.
    pub open spec fn wf(self) -> bool {
        0 <= self.current < self.blocks.len()
    }

    /// Whether the current block has its terminator.
    pub open spec fn sealed(self) -> bool {
        self.blocks[self.current].term is Some
    }

    /// The operand that names what the next instruction yields.
    pub open spec fn next_reg(self) -> Operand {
        Operand::Reg(self.blocks[self.current].insts.len() as usize)
    }

    /// The state after an instruction: it is appended to the current
    /// block, unless that block is sealed.
    pub open spec fn emit(self, inst: InstView) -> FnState {
        if self.sealed() {
            self
        } else {
            FnState {
                blocks: self.blocks.update(
                    self.current,
                    BlockView {
                        insts: self.blocks[self.current].insts.push(inst),
                        term: self.blocks[self.current].term,
                    },
                ),
                ..self
            }
        }
    }

    /// The state after a terminator: it seals the current block, unless
    /// that block is sealed already.
    pub open spec fn terminate(self, t: Terminator) -> FnState {
        if self.sealed() {
            self
        } else {
            FnState {
                blocks: self.blocks.update(
                    self.current,
                    BlockView { insts: self.blocks[self.current].insts, term: Some(t) },
                ),
                ..self
            }
        }
    }

    /// The state with one more block, empty and open. Its number is the
    /// number of blocks before.
    pub open spec fn add_block(self) -> FnState {
        FnState {
            blocks: self.blocks.push(BlockView { insts: Seq::empty(), term: None }),
            ..self
        }
    }

    /// The number that the next block gets.
    pub open spec fn next_block(self) -> int {
        self.blocks.len() as int
    }

    /// The state with another current block.
    pub open spec fn at(self, block: int) -> FnState {
        FnState { current: block, ..self }
    }

    /// The state with one more stack slot. Its number is the number of
    /// slots before.
    pub open spec fn add_local(self, kind: SlotKind) -> FnState {
        FnState { locals: self.locals.push(kind), ..self }
    }

    /// The number that the next stack slot gets.
    pub open spec fn next_local(self) -> usize {
        self.locals.len() as usize
    }

    /// The state with a name bound.
    pub open spec fn bind(self, name: Seq<char>, b: Binding) -> FnState {
        FnState { bindings: self.bindings.insert(name, b), ..self }
    }

    /// What a name is bound to, if to anything.
    pub open spec fn lookup(self, name: Seq<char>) -> Option<Binding> {
        if self.bindings.contains_key(name) {
            Some(self.bindings[name])
        } else {
            None
        }
    }

    /// The state and the operand after an operation on two words: a
    /// constant where both are constants and the operation folds, else an
    /// instruction.
    pub open spec fn arith(self, op: WordOp, lhs: Operand, rhs: Operand) -> (FnState, Operand) {
        match (lhs, rhs) {
            (Operand::Const(a), Operand::Const(b)) => match fold(op, a, b) {
                Some(c) => (self, Operand::Const(c)),
                None => (self.emit(InstView::Binary { op, lhs, rhs }), self.next_reg()),
            },
            _ => (self.emit(InstView::Binary { op, lhs, rhs }), self.next_reg()),
        }
    }

    /// The state after a fresh pointer slot is given the pointer `p` and
    /// `name` is bound to an array of `len` elements in it.
    pub open spec fn bind_array(self, name: Seq<char>, p: Operand, len: usize) -> FnState {
        let slot = self.next_local();
        self.add_local(SlotKind::Pointer).emit(
            InstView::StorePtr { addr: Operand::Slot(slot), value: p },
        ).bind(name, Binding::Array { slot, len })
    }

    /// The state after a fresh word slot is given the word `v` and `name`
    /// is bound to it.
    pub open spec fn bind_scalar(self, name: Seq<char>, v: Operand) -> FnState {
        let slot = self.next_local();
        self.add_local(SlotKind::Word).emit(
            InstView::Store { addr: Operand::Slot(slot), value: v },
        ).bind(name, Binding::Scalar { slot })
    }
}

/// The last function named `name` among the first `j`.
pub open spec fn find_below(names: Seq<Seq<char>>, name: Seq<char>, j: int) -> Option<int>
    decreases j,
{
    if j <= 0 || j > names.len() {
        None
    } else if names[j - 1] == name {
        Some(j - 1)
    } else {
        find_below(names, name, j - 1)
    }
}

impl Env {
    /// Whether the environment fits together: a signature for every
    /// function, and no more declared than there are.
    pub open spec fn wf(self) -> bool {
        &&& self.names.len() == self.sigs.len()
        &&& 0 <= self.declared <= self.names.len()
    }

    /// The function that a call of `name` reaches: the last one declared
    /// under that name.
    pub open spec fn callee(self, name: Seq<char>) -> Option<int> {
        find_below(self.names, name, self.declared)
    }
}

/// The state and the pointer after an array literal is built: a fresh
/// array slot, and each element computed and stored at its place.
pub open spec fn materialize(env: Env, st: FnState, elems: Seq<ExprView>) -> Result<
    (FnState, Operand),
    CompileErrorView,
>
    decreases elems, elems.len() + 1,
{
    let slot = st.next_local();
    match fill(env, st.add_local(SlotKind::Array(elems.len() as usize)), elems, 0, slot) {
        Ok(st) => Ok((st, Operand::Slot(slot))),
        Err(e) => Err(e),
    }
}

/// The state after the elements from `i` on are computed and stored in
/// the array slot.
pub open spec fn fill(env: Env, st: FnState, elems: Seq<ExprView>, i: int, slot: usize) -> Result<
    FnState,
    CompileErrorView,
>
    decreases elems, elems.len() - i,
{
    if 0 <= i < elems.len() {
        match lower_expr(env, st, elems[i]) {
            Ok((st, v)) => {
                let place = st.next_reg();
                fill(
                    env,
                    st.emit(
                        InstView::Element {
                            base: Operand::Slot(slot),
                            index: Operand::Const(count_word(i as usize)),
                        },
                    ).emit(InstView::Store { addr: place, value: v }),
                    elems,
                    i + 1,
                    slot,
                )
            },
            Err(e) => Err(e),
        }
    } else {
        Ok(st)
    }
}

/// The state and the operands after the arguments of a call from `i` on:
/// a word for a word parameter; for an array parameter the pointer and
/// the length of an array variable or an array literal.
pub open spec fn lower_args(
    env: Env,
    st: FnState,
    name: Seq<char>,
    params: Seq<bool>,
    args: Seq<ExprView>,
    i: int,
    acc: Seq<Operand>,
) -> Result<(FnState, Seq<Operand>), CompileErrorView>
    decreases args, args.len() - i,
{
    if 0 <= i < args.len() {
        if i < params.len() && params[i] {
            match args[i] {
                ExprView::Variable(v) => match st.lookup(v) {
                    Some(Binding::Array { slot, len }) => lower_args(
                        env,
                        st.emit(InstView::LoadPtr { addr: Operand::Slot(slot) }),
                        name,
                        params,
                        args,
                        i + 1,
                        acc.push(st.next_reg()).push(Operand::Const(count_word(len))),
                    ),
                    _ => Err(expected_array_argument(i, name)),
                },
                ExprView::ArrayLiteral(elems) => match materialize(env, st, elems) {
                    Ok((st, p)) => lower_args(
                        env,
                        st,
                        name,
                        params,
                        args,
                        i + 1,
                        acc.push(p).push(Operand::Const(count_word(elems.len() as usize))),
                    ),
                    Err(e) => Err(e),
                },
                _ => Err(expected_array_argument(i, name)),
            }
        } else {
            match lower_expr(env, st, args[i]) {
                Ok((st, v)) => lower_args(env, st, name, params, args, i + 1, acc.push(v)),
                Err(e) => Err(e),
            }
        }
    } else {
        Ok((st, acc))
    }
}

/// The state and the word after an expression is computed.
pub open spec fn lower_expr(env: Env, st: FnState, e: ExprView) -> Result<
    (FnState, Operand),
    CompileErrorView,
>
    decreases e, 0nat,
{
    match e {
        ExprView::Number(n) => Ok((st, Operand::Const(n))),
        ExprView::Bool(b) => Ok((st, Operand::Const(flag(b)))),
        ExprView::StrLiteral(s) => Err(codegen_error("string literal used as a value"@)),
        ExprView::Variable(name) => match st.lookup(name) {
            Some(Binding::Scalar { slot }) => Ok(
                (st.emit(InstView::Load { addr: Operand::Slot(slot) }), st.next_reg()),
            ),
            Some(Binding::Array { slot, len }) => {
                let st1 = st.emit(InstView::LoadPtr { addr: Operand::Slot(slot) });
                Ok((st1.emit(InstView::PtrToWord { value: st.next_reg() }), st1.next_reg()))
            },
            Some(Binding::ArrayParam { slot, len_slot }) => {
                let st1 = st.emit(InstView::LoadPtr { addr: Operand::Slot(slot) });
                Ok((st1.emit(InstView::PtrToWord { value: st.next_reg() }), st1.next_reg()))
            },
            None => Err(codegen_error("undefined var "@ + name)),
        },
        ExprView::Unary { op, expr } => match lower_expr(env, st, *expr) {
            Ok((st, v)) => match op {
                UnOp::Pos => Ok((st, v)),
                UnOp::Neg => Ok(st.arith(WordOp::Sub, Operand::Const(0), v)),
            },
            Err(e) => Err(e),
        },
        ExprView::Binary { op, left, right } => match lower_expr(env, st, *left) {
            Ok((st, l)) => match lower_expr(env, st, *right) {
                Ok((st, r)) => Ok(st.arith(word_op(op), l, r)),
                Err(e) => Err(e),
            },
            Err(e) => Err(e),
        },
        ExprView::Call { name, args } => match env.callee(name) {
            None => Err(codegen_error("unknown fn "@ + name)),
            Some(j) => {
                let sig = env.sigs[j];
                if args.len() > sig.params.len() {
                    Err(too_many_arguments(name))
                } else if args.len() < sig.params.len() {
                    Err(codegen_error("Too few arguments for function "@ + name))
                } else {
                    match lower_args(env, st, name, sig.params, args, 0, Seq::empty()) {
                        Ok((st, ops)) => {
                            let st1 = st.emit(
                                InstView::Call {
                                    callee: j as usize,
                                    args: ops,
                                    returns_array: sig.returns_array,
                                },
                            );
                            if sig.returns_array {
                                Ok(
                                    (
                                        st1.emit(InstView::PtrToWord { value: st.next_reg() }),
                                        st1.next_reg(),
                                    ),
                                )
                            } else {
                                Ok((st1, st.next_reg()))
                            }
                        },
                        Err(e) => Err(e),
                    }
                }
            },
        },
        ExprView::ArrayLiteral(elems) => match materialize(env, st, elems) {
            Ok((st, p)) => Ok((st.emit(InstView::PtrToWord { value: p }), st.next_reg())),
            Err(e) => Err(e),
        },
        ExprView::Index { array, index } => match *array {
            ExprView::Variable(name) => match st.lookup(name) {
                None => Err(codegen_error("undefined array "@ + name)),
                Some(Binding::Scalar { slot }) => match lower_expr(env, st, *index) {
                    Ok(_) => Err(codegen_error("undefined array "@ + name)),
                    Err(e) => Err(e),
                },
                Some(Binding::ArrayParam { slot, len_slot }) => match lower_expr(
                    env,
                    st.emit(InstView::LoadPtr { addr: Operand::Slot(slot) }),
                    *index,
                ) {
                    Ok(_) => Err(codegen_error("undefined array "@ + name)),
                    Err(e) => Err(e),
                },
                Some(Binding::Array { slot, len }) => match lower_expr(
                    env,
                    st.emit(InstView::LoadPtr { addr: Operand::Slot(slot) }),
                    *index,
                ) {
                    Ok((st1, Operand::Const(c))) => if 0 <= c < len {
                        let st2 = st1.emit(
                            InstView::Element { base: st.next_reg(), index: Operand::Const(c) },
                        );
                        Ok((st2.emit(InstView::Load { addr: st1.next_reg() }), st2.next_reg()))
                    } else {
                        Err(out_of_bounds(c as int, name, len as int))
                    },
                    Ok(_) => Err(
                        codegen_error("Index must be a constant or resolvable integer"@),
                    ),
                    Err(e) => Err(e),
                },
            },
            _ => Err(codegen_error("Array indexing must use a variable"@)),
        },
        ExprView::Length { array } => match *array {
            ExprView::Variable(name) => match st.lookup(name) {
                Some(Binding::Array { slot, len }) => Ok((st, Operand::Const(count_word(len)))),
                Some(Binding::ArrayParam { slot, len_slot }) => Ok(
                    (st.emit(InstView::Load { addr: Operand::Slot(len_slot) }), st.next_reg()),
                ),
                _ => Err(codegen_error("undefined array "@ + name)),
            },
            _ => Err(codegen_error("Length must be called on a variable"@)),
        },
    }
}

/// A reference to a name that the symbol table does not hold fails with
/// an error that names it: in an expression, and as the target of an
/// assignment.
pub proof fn lemma_undefined_variable_is_named(
    env: Env,
    st: FnState,
    name: Seq<char>,
    value: ExprView,
)
    requires
        st.lookup(name) is None,
    ensures
        lower_expr(env, st, ExprView::Variable(name)) == Err::<
            (FnState, Operand),
            CompileErrorView,
        >(CompileErrorView::Codegen("undefined var "@ + name)),
        lower_stmt(env, st, StatementView::Assign { name, expr: value }) == Err::<
            FnState,
            CompileErrorView,
        >(CompileErrorView::Codegen("undefined variable "@ + name)),
{
}

/// An argument that is no array where the parameter is one fails with the
/// error of the calling convention, which names the place and the
/// function: an argument that is neither an array literal nor a variable
/// bound to an array of known length.
pub proof fn lemma_scalar_for_array_parameter(
    env: Env,
    st: FnState,
    name: Seq<char>,
    params: Seq<bool>,
    args: Seq<ExprView>,
    i: int,
    acc: Seq<Operand>,
)
    requires
        0 <= i < args.len(),
        i < params.len(),
        params[i],
        !(args[i] is ArrayLiteral),
        match args[i] {
            ExprView::Variable(v) => !(st.lookup(v) is Some && st.lookup(v)->Some_0 is Array),
            _ => true,
        },
    ensures
        lower_args(env, st, name, params, args, i, acc) == Err::<
            (FnState, Seq<Operand>),
            CompileErrorView,
        >(expected_array_argument(i, name)),
{
}

/// A read at an index of an array of known length succeeds where the
/// index is a constant inside the array; it fails with the error for an
/// index out of bounds where the index is a constant outside, and with
/// the error for an index that is no constant where it is none.
pub proof fn lemma_index_is_checked(
    env: Env,
    st: FnState,
    name: Seq<char>,
    index: ExprView,
    slot: usize,
    len: usize,
)
    requires
        st.lookup(name) == Some(Binding::Array { slot, len }),
        lower_expr(env, st.emit(InstView::LoadPtr { addr: Operand::Slot(slot) }), index) is Ok,
    ensures
        match lower_expr(
            env,
            st.emit(InstView::LoadPtr { addr: Operand::Slot(slot) }),
            index,
        )->Ok_0.1 {
            Operand::Const(c) => if 0 <= c < len {
                lower_expr(
                    env,
                    st,
                    ExprView::Index {
                        array: Box::new(ExprView::Variable(name)),
                        index: Box::new(index),
                    },
                ) is Ok
            } else {
                lower_expr(
                    env,
                    st,
                    ExprView::Index {
                        array: Box::new(ExprView::Variable(name)),
                        index: Box::new(index),
                    },
                ) == Err::<(FnState, Operand), CompileErrorView>(
                    out_of_bounds(c as int, name, len as int),
                )
            },
            _ => lower_expr(
                env,
                st,
                ExprView::Index {
                    array: Box::new(ExprView::Variable(name)),
                    index: Box::new(index),
                },
            ) == Err::<(FnState, Operand), CompileErrorView>(
                codegen_error("Index must be a constant or resolvable integer"@),
            ),
        },
{
}

/// A call of a name under which no function is declared fails with an
/// error that names it, whatever its arguments.
pub proof fn lemma_undeclared_function_is_named(
    env: Env,
    st: FnState,
    name: Seq<char>,
    args: Seq<ExprView>,
)
    requires
        env.callee(name) is None,
    ensures
        lower_expr(env, st, ExprView::Call { name, args }) == Err::<
            (FnState, Operand),
            CompileErrorView,
        >(CompileErrorView::Codegen("unknown fn "@ + name)),
{
}

/// The state after a declaration of `name`; `alias` says whether it may
/// alias an array variable.
pub open spec fn lower_declaration(
    env: Env,
    st: FnState,
    name: Seq<char>,
    e: ExprView,
    alias: bool,
) -> Result<FnState, CompileErrorView> {
    match e {
        ExprView::ArrayLiteral(elems) => match materialize(env, st, elems) {
            Ok((st, p)) => Ok(st.bind_array(name, p, elems.len() as usize)),
            Err(e) => Err(e),
        },
        _ => match aliased(st, e, alias) {
            Some((slot, b)) => {
                let fresh = st.next_local();
                Ok(
                    st.emit(InstView::LoadPtr { addr: Operand::Slot(slot) }).add_local(
                        SlotKind::Pointer,
                    ).emit(InstView::StorePtr { addr: Operand::Slot(fresh), value: st.next_reg() })
                        .bind(name, rebased(b, fresh)),
                )
            },
            None => match lower_expr(env, st, e) {
                Ok((st, v)) => Ok(st.bind_scalar(name, v)),
                Err(e) => Err(e),
            },
        },
    }
}

/// The pointer slot and the binding of the array variable that a
/// declaration aliases, if it aliases one.
pub open spec fn aliased(st: FnState, e: ExprView, alias: bool) -> Option<(usize, Binding)> {
    match e {
        ExprView::Variable(v) => match st.lookup(v) {
            Some(Binding::Array { slot, len }) => if alias {
                Some((slot, Binding::Array { slot, len }))
            } else {
                None
            },
            Some(Binding::ArrayParam { slot, len_slot }) => if alias {
                Some((slot, Binding::ArrayParam { slot, len_slot }))
            } else {
                None
            },
            _ => None,
        },
        _ => None,
    }
}

/// An array binding with another pointer slot.
pub open spec fn rebased(b: Binding, slot: usize) -> Binding {
    match b {
        Binding::Array { slot: _, len } => Binding::Array { slot, len },
        Binding::ArrayParam { slot: _, len_slot } => Binding::ArrayParam { slot, len_slot },
        Binding::Scalar { slot: _ } => Binding::Scalar { slot },
    }
}

/// Whether an expression is a call of a declared function that returns an
/// array.
pub open spec fn calls_array_function(env: Env, e: ExprView) -> bool {
    match e {
        ExprView::Call { name, args } => match env.callee(name) {
            Some(j) => env.sigs[j].returns_array,
            None => false,
        },
        _ => false,
    }
}

/// The state after one statement.
pub open spec fn lower_stmt(env: Env, st: FnState, s: StatementView) -> Result<
    FnState,
    CompileErrorView,
>
    decreases s, 0nat,
{
    match s {
        StatementView::VarDecl { name, expr } => lower_declaration(env, st, name, expr, false),
        StatementView::LetDecl { name, expr } => lower_declaration(env, st, name, expr, true),
        StatementView::Assign { name, expr } => match st.lookup(name) {
            None => Err(codegen_error("undefined variable "@ + name)),
            Some(b) => match expr {
                ExprView::ArrayLiteral(elems) => match materialize(env, st, elems) {
                    Ok((st, p)) => Ok(st.bind_array(name, p, elems.len() as usize)),
                    Err(e) => Err(e),
                },
                _ => match lower_expr(env, st, expr) {
                    Ok((st, v)) => if calls_array_function(env, expr) {
                        match b {
                            Binding::Array { slot, len } => Ok(
                                st.emit(InstView::WordToPtr { value: v }).bind_array(
                                    name,
                                    st.next_reg(),
                                    len,
                                ),
                            ),
                            _ => Err(codegen_error("Array size not found for "@ + name)),
                        }
                    } else {
                        match b {
                            Binding::Scalar { slot } => Ok(
                                st.emit(InstView::Store { addr: Operand::Slot(slot), value: v }),
                            ),
                            _ => Ok(st.bind_scalar(name, v)),
                        }
                    },
                    Err(e) => Err(e),
                },
            },
        },
        StatementView::IndexedAssign { array, index, expr } => match array {
            ExprView::Variable(name) => match st.lookup(name) {
                Some(Binding::Array { slot, len }) => lower_element_store(
                    env,
                    st,
                    slot,
                    index,
                    expr,
                ),
                Some(Binding::ArrayParam { slot, len_slot }) => lower_element_store(
                    env,
                    st,
                    slot,
                    index,
                    expr,
                ),
                _ => Err(codegen_error("undefined array "@ + name)),
            },
            _ => Err(codegen_error("Array in indexed assignment must be a variable"@)),
        },
        StatementView::Print { expr } => match expr {
            ExprView::StrLiteral(text) => Ok(st.emit(InstView::PrintText { text })),
            _ => match lower_expr(env, st, expr) {
                Ok((st, v)) => Ok(st.emit(InstView::PrintWord { value: v })),
                Err(e) => Err(e),
            },
        },
        StatementView::Return { expr } => if env.returns_array {
            match expr {
                ExprView::ArrayLiteral(elems) => match materialize(env, st, elems) {
                    Ok((st, p)) => Ok(st.terminate(Terminator::Return(p))),
                    Err(e) => Err(e),
                },
                _ => match lower_expr(env, st, expr) {
                    Ok((st, v)) => Ok(
                        st.emit(InstView::WordToPtr { value: v }).terminate(
                            Terminator::Return(st.next_reg()),
                        ),
                    ),
                    Err(e) => Err(e),
                },
            }
        } else {
            match lower_expr(env, st, expr) {
                Ok((st, v)) => Ok(st.terminate(Terminator::Return(v))),
                Err(e) => Err(e),
            }
        },
        StatementView::If { cond, then_branch, else_branch } => match lower_expr(env, st, cond) {
            Ok((st, c)) => {
                let then_block = st.next_block();
                let st = st.add_block();
                let else_block = st.next_block();
                let st = st.add_block();
                let merge_block = st.next_block();
                let st = st.add_block().terminate(
                    Terminator::Branch {
                        cond: c,
                        if_true: then_block as usize,
                        if_false: else_block as usize,
                    },
                ).at(then_block);
                match lower_stmts(env, st, then_branch, 0) {
                    Ok(st) => {
                        let st = st.terminate(Terminator::Jump(merge_block as usize)).at(
                            else_block,
                        );
                        let after_else = match else_branch {
                            Some(els) => lower_stmts(env, st, els, 0),
                            None => Ok(st),
                        };
                        match after_else {
                            Ok(st) => Ok(
                                st.terminate(Terminator::Jump(merge_block as usize)).at(
                                    merge_block,
                                ),
                            ),
                            Err(e) => Err(e),
                        }
                    },
                    Err(e) => Err(e),
                }
            },
            Err(e) => Err(e),
        },
        StatementView::While { cond, body } => {
            let loop_block = st.next_block();
            let st = st.add_block();
            let after_block = st.next_block();
            let st = st.add_block().terminate(Terminator::Jump(loop_block as usize)).at(
                loop_block,
            );
            match lower_expr(env, st, cond) {
                Ok((st, c)) => {
                    let body_block = st.next_block();
                    let st = st.add_block().terminate(
                        Terminator::Branch {
                            cond: c,
                            if_true: body_block as usize,
                            if_false: after_block as usize,
                        },
                    ).at(body_block);
                    match lower_stmts(env, st, body, 0) {
                        Ok(st) => Ok(
                            st.terminate(Terminator::Jump(loop_block as usize)).at(after_block),
                        ),
                        Err(e) => Err(e),
                    }
                },
                Err(e) => Err(e),
            }
        },
        StatementView::ExprStmt(e) => match lower_expr(env, st, e) {
            Ok((st, _)) => Ok(st),
            Err(e) => Err(e),
        },
    }
}

/// The state after a word is stored at an index of the array whose
/// pointer slot is `slot`. The index is any word; nothing checks it
/// against the length.
pub open spec fn lower_element_store(
    env: Env,
    st: FnState,
    slot: usize,
    index: ExprView,
    value: ExprView,
) -> Result<FnState, CompileErrorView> {
    let base = st.next_reg();
    match lower_expr(env, st.emit(InstView::LoadPtr { addr: Operand::Slot(slot) }), index) {
        Ok((st, i)) => match lower_expr(env, st, value) {
            Ok((st, v)) => Ok(
                st.emit(InstView::Element { base, index: i }).emit(
                    InstView::Store { addr: st.next_reg(), value: v },
                ),
            ),
            Err(e) => Err(e),
        },
        Err(e) => Err(e),
    }
}

/// The state after the statements from `i` on, in order.
pub open spec fn lower_stmts(env: Env, st: FnState, stmts: Seq<StatementView>, i: int) -> Result<
    FnState,
    CompileErrorView,
>
    decreases stmts, stmts.len() - i,
{
    if 0 <= i < stmts.len() {
        match lower_stmt(env, st, stmts[i]) {
            Ok(st) => lower_stmts(env, st, stmts, i + 1),
            Err(e) => Err(e),
        }
    } else {
        Ok(st)
    }
}

/// The state in which a function starts: one open block, the entry, and
/// nothing else.
pub open spec fn fresh_state() -> FnState {
    FnState {
        blocks: seq![BlockView { insts: Seq::empty(), term: None }],
        current: 0,
        locals: Seq::empty(),
        bindings: Map::empty(),
    }
}

/// The state and the flattened parameters after the parameters from `i`
/// on are given their slots: a word parameter one word slot; an array
/// parameter a pointer slot and a word slot for its length.
pub open spec fn bind_params(
    st: FnState,
    params: Seq<Seq<char>>,
    flags: Seq<bool>,
    i: int,
    kinds: Seq<ParamKind>,
) -> (FnState, Seq<ParamKind>)
    decreases params.len() - i,
{
    if 0 <= i < params.len() {
        let at = kinds.len() as usize;
        if i < flags.len() && flags[i] {
            let slot = st.next_local();
            let st = st.add_local(SlotKind::Pointer).emit(
                InstView::StorePtr { addr: Operand::Slot(slot), value: Operand::Param(at) },
            );
            let len_slot = st.next_local();
            let st = st.add_local(SlotKind::Word).emit(
                InstView::Store {
                    addr: Operand::Slot(len_slot),
                    value: Operand::Param((at + 1) as usize),
                },
            ).bind(params[i], Binding::ArrayParam { slot, len_slot });
            bind_params(
                st,
                params,
                flags,
                i + 1,
                kinds.push(ParamKind::Pointer).push(ParamKind::Word),
            )
        } else {
            let slot = st.next_local();
            let st = st.add_local(SlotKind::Word).emit(
                InstView::Store { addr: Operand::Slot(slot), value: Operand::Param(at) },
            ).bind(params[i], Binding::Scalar { slot });
            bind_params(st, params, flags, i + 1, kinds.push(ParamKind::Word))
        }
    } else {
        (st, kinds)
    }
}

/// The state after the return that ends a function whose last block is
/// open: an empty array for a function that returns an array, else zero.
pub open spec fn finish(st: FnState, returns_array: bool) -> FnState {
    if st.sealed() {
        st
    } else if returns_array {
        let slot = st.next_local();
        st.add_local(SlotKind::Array(0)).terminate(Terminator::Return(Operand::Slot(slot)))
    } else {
        st.terminate(Terminator::Return(Operand::Const(0)))
    }
}

/// The intermediate code of a function with the given body, in an
/// environment.
pub open spec fn lower_body(
    env: Env,
    name: Seq<char>,
    params: Seq<Seq<char>>,
    flags: Seq<bool>,
    body: Seq<StatementView>,
) -> Result<IrFunctionView, CompileErrorView> {
    let (st, kinds) = bind_params(fresh_state(), params, flags, 0, Seq::empty());
    match lower_stmts(env, st, body, 0) {
        Ok(st) => {
            let st = finish(st, env.returns_array);
            Ok(
                IrFunctionView {
                    name,
                    params: kinds,
                    returns_array: env.returns_array,
                    locals: st.locals,
                    blocks: st.blocks,
                },
            )
        },
        Err(e) => Err(e),
    }
}

/// The names of some functions.
pub open spec fn names_of(fs: Seq<FunctionView>) -> Seq<Seq<char>> {
    Seq::new(fs.len(), |i: int| fs[i].name)
}

/// The names of the functions of a program.
pub open spec fn function_names(p: ProgramView) -> Seq<Seq<char>> {
    names_of(p.functions)
}

/// The environment in which function `k` of a program is compiled: it
/// and the functions before it are declared.
pub open spec fn function_env(p: ProgramView, sigs: Seq<SignatureView>, k: int) -> Env {
    Env {
        names: function_names(p),
        sigs,
        declared: k + 1,
        returns_array: sigs[k].returns_array,
    }
}

/// The environment in which the entry routine is compiled: every function
/// is declared, and the routine returns a word.
pub open spec fn entry_env(p: ProgramView, sigs: Seq<SignatureView>) -> Env {
    Env { names: function_names(p), sigs, declared: p.functions.len() as int, returns_array: false }
}

/// The intermediate code of the functions of a program from `k` on, after
/// that of the functions before, and last that of the entry routine.
pub open spec fn lower_from(
    p: ProgramView,
    sigs: Seq<SignatureView>,
    k: int,
    done: Seq<IrFunctionView>,
) -> Result<IrModuleView, CompileErrorView>
    decreases p.functions.len() - k,
{
    if 0 <= k < p.functions.len() {
        let f = p.functions[k];
        match lower_body(function_env(p, sigs, k), f.name, f.params, sigs[k].params, f.body) {
            Ok(code) => lower_from(p, sigs, k + 1, done.push(code)),
            Err(e) => Err(e),
        }
    } else {
        match lower_body(entry_env(p, sigs), "main"@, Seq::empty(), Seq::empty(), p.statements) {
            Ok(code) => Ok(IrModuleView { functions: done.push(code) }),
            Err(e) => Err(e),
        }
    }
}

/// The intermediate code of a program with the given signatures.
pub open spec fn lower_with(p: ProgramView, sigs: Seq<SignatureView>) -> Result<
    IrModuleView,
    CompileErrorView,
> {
    lower_from(p, sigs, 0, Seq::empty())
}

/// The intermediate code of a program: its signatures are inferred, each
/// function is compiled in the order of declaration, and last the entry
/// routine; or the first error.
pub open spec fn lower(p: ProgramView) -> Result<IrModuleView, CompileErrorView> {
    match analyze(p) {
        Ok(sigs) => lower_with(p, sigs),
        Err(e) => Err(e),
    }
}

/// The function under construction, and the program it belongs to.
struct Lowering<'a> {
    blocks: Vec<Block>,
    current: usize,
    locals: Vec<SlotKind>,
    bindings: StringHashMap<Binding>,
    functions: &'a Vec<Function>,
    sigs: &'a Vec<Signature>,
    declared: usize,
    returns_array: bool,
}

/// The size of a word without its sign.
fn magnitude(a: i64) -> (m: u64)
    ensures
        m == if a < 0 {
            -(a as int)
        } else {
            a as int
        },
{
    if a < 0 {
        ((-(a + 1)) as u64) + 1
    } else {
        a as u64
    }
}

/// The word of a given size, with a minus sign where `negative` holds.
fn signed(m: u64, negative: bool) -> (w: i64)
    requires
        m <= 0x7fff_ffff_ffff_ffff || (negative && m == 0x8000_0000_0000_0000),
    ensures
        w == if negative {
            -(m as int)
        } else {
            m as int
        },
{
    if !negative {
        m as i64
    } else if m == 0 {
        0
    } else {
        -((m - 1) as i64) - 1
    }
}

/// The quotient of two words, rounded toward zero.
fn divide(a: i64, b: i64) -> (q: i64)
    requires
        b != 0,
        !(a == i64::MIN && b == -1),
    ensures
        q == quotient(a as int, b as int),
{
    let ma = magnitude(a);
    let mb = magnitude(b);
    let mq: u64 = ma / mb;
    proof {
        vstd::arithmetic::div_mod::lemma_fundamental_div_mod(ma as int, mb as int);
        assert(mb * mq <= ma) by (nonlinear_arith)
            requires
                ma == mb * mq + (ma as int % mb as int),
                0 <= (ma as int % mb as int),
        ;
        assert(mq <= ma) by (nonlinear_arith)
            requires
                mb * mq <= ma,
                mb >= 1,
                mq >= 0,
        ;
        assert(mb == 1 ==> mq == ma) by (nonlinear_arith)
            requires
                ma == mb * mq + (ma as int % mb as int),
                0 <= (ma as int % mb as int) < mb,
        ;
        assert(mq == 0x8000_0000_0000_0000 ==> mb == 1) by (nonlinear_arith)
            requires
                mb * mq <= ma,
                ma <= 0x8000_0000_0000_0000,
                mb >= 1,
        ;
    }
    signed(mq, (a < 0) != (b < 0))
}

/// What is left of a word after division by another, rounded toward
/// zero.
fn remainder(a: i64, b: i64) -> (r: i64)
    requires
        b != 0,
        !(a == i64::MIN && b == -1),
    ensures
        r == a - b * quotient(a as int, b as int),
{
    let ma = magnitude(a);
    let mb = magnitude(b);
    let mr: u64 = ma % mb;
    proof {
        let mq = ma as int / mb as int;
        vstd::arithmetic::div_mod::lemma_fundamental_div_mod(ma as int, mb as int);
        assert(ma == mb * mq + mr);
        assert(b == -mb ==> b * mq == -(mb * mq)) by (nonlinear_arith);
        assert(b * (-mq) == -(b * mq)) by (nonlinear_arith);
        if a >= 0 && b > 0 {
            assert(quotient(a as int, b as int) == mq);
        } else if a < 0 && b > 0 {
            assert(quotient(a as int, b as int) == -mq);
        } else if a >= 0 && b < 0 {
            assert(quotient(a as int, b as int) == -mq);
        } else {
            assert(quotient(a as int, b as int) == mq);
        }
    }
    signed(mr, a < 0)
}

/// The result of an operation on two constant words, where it is a
/// constant.
fn fold_words(op: WordOp, a: i64, b: i64) -> (r: Option<i64>)
    ensures
        r == fold(op, a, b),
{
    match op {
        WordOp::Add => Some(a.wrapping_add(b)),
        WordOp::Sub => Some(a.wrapping_sub(b)),
        WordOp::Mul => Some(a.wrapping_mul(b)),
        WordOp::Div => if b == 0 || (a == i64::MIN && b == -1) {
            None
        } else {
            Some(divide(a, b))
        },
        WordOp::Rem => if b == 0 || (a == i64::MIN && b == -1) {
            None
        } else {
            Some(remainder(a, b))
        },
        WordOp::Lt => Some(if a < b { 1 } else { 0 }),
        WordOp::Le => Some(if a <= b { 1 } else { 0 }),
        WordOp::Gt => Some(if a > b { 1 } else { 0 }),
        WordOp::Ge => Some(if a >= b { 1 } else { 0 }),
        WordOp::Eq => Some(if a == b { 1 } else { 0 }),
        WordOp::Ne => Some(if a != b { 1 } else { 0 }),
    }
}

impl<'a> Lowering<'a> {
    /// The state of the function under construction.
    spec fn state(&self) -> FnState {
        FnState {
            blocks: blocks_view(self.blocks@),
            current: self.current as int,
            locals: self.locals@,
            bindings: self.bindings@,
        }
    }

    /// The environment of the function under construction.
    spec fn env(&self) -> Env {
        Env {
            names: names_of(functions_view(self.functions@)),
            sigs: signatures_view(self.sigs@),
            declared: self.declared as int,
            returns_array: self.returns_array,
        }
    }

    /// Whether the state and the environment can be worked on.
    spec fn wf(&self) -> bool {
        &&& self.current < self.blocks@.len()
        &&& self.functions@.len() == self.sigs@.len()
        &&& self.declared <= self.functions@.len()
    }

    /// Appends an instruction to the current block, unless that block is
    /// sealed, and names what it yields.
    fn emit(&mut self, inst: Inst) -> (r: Operand)
        requires
            old(self).wf(),
        ensures
            final(self).wf(),
            final(self).env() == old(self).env(),
            final(self).state() == old(self).state().emit(inst@),
            r == old(self).state().next_reg(),
    {
        let r = Operand::Reg(self.blocks[self.current].insts.len());
        if self.blocks[self.current].term.is_none() {
            let block = &mut self.blocks[self.current];
            block.insts.push(inst);
            proof {
                let before = old(self).blocks@[self.current as int].insts@;
                assert(insts_view(block.insts@) =~= insts_view(before).push(inst@));
            }
        }
        proof {
            assert(self.state().blocks =~= old(self).state().emit(inst@).blocks);
        }
        r
    }

    /// Seals the current block with a terminator, unless it is sealed
    /// already.
    fn seal(&mut self, t: Terminator)
        requires
            old(self).wf(),
        ensures
            final(self).wf(),
            final(self).env() == old(self).env(),
            final(self).state() == old(self).state().terminate(t),
    {
        if self.blocks[self.current].term.is_none() {
            let block = &mut self.blocks[self.current];
            block.term = Some(t);
        }
        proof {
            assert(self.state().blocks =~= old(self).state().terminate(t).blocks);
        }
    }

    /// Adds an open block and gives its number.
    fn add_block(&mut self) -> (b: usize)
        requires
            old(self).wf(),
        ensures
            final(self).wf(),
            final(self).env() == old(self).env(),
            final(self).state() == old(self).state().add_block(),
            b == old(self).state().next_block(),
            b < final(self).state().blocks.len(),
    {
        let b = self.blocks.len();
        self.blocks.push(Block { insts: Vec::new(), term: None });
        proof {
            assert(insts_view(Seq::<Inst>::empty()) =~= Seq::<InstView>::empty());
            assert(self.state().blocks =~= old(self).state().add_block().blocks);
        }
        b
    }

    /// Makes another block the current one.
    fn goto(&mut self, block: usize)
        requires
            old(self).wf(),
            block < old(self).state().blocks.len(),
        ensures
            final(self).wf(),
            final(self).env() == old(self).env(),
            final(self).state() == old(self).state().at(block as int),
    {
        self.current = block;
    }

    /// Adds a stack slot and gives its number.
    fn add_local(&mut self, kind: SlotKind) -> (slot: usize)
        requires
            old(self).wf(),
        ensures
            final(self).wf(),
            final(self).env() == old(self).env(),
            final(self).state() == old(self).state().add_local(kind),
            slot == old(self).state().next_local(),
    {
        let slot = self.locals.len();
        self.locals.push(kind);
        slot
    }

    /// Binds a name.
    fn bind(&mut self, name: &String, b: Binding)
        requires
            old(self).wf(),
        ensures
            final(self).wf(),
            final(self).env() == old(self).env(),
            final(self).state() == old(self).state().bind(name@, b),
    {
        self.bindings.insert(name.clone(), b);
    }

    /// What a name is bound to.
    fn lookup(&self, name: &String) -> (r: Option<Binding>)
        ensures
            r == self.state().lookup(name@),
    {
        match self.bindings.get(name.as_str()) {
            Some(b) => Some(*b),
            None => None,
        }
    }

    /// Computes an operation on two words: a constant where it folds, else
    /// an instruction.
    fn arith(&mut self, op: WordOp, lhs: Operand, rhs: Operand) -> (r: Operand)
        requires
            old(self).wf(),
        ensures
            final(self).wf(),
            final(self).env() == old(self).env(),
            (final(self).state(), r) == old(self).state().arith(op, lhs, rhs),
    {
        if let Operand::Const(a) = lhs {
            if let Operand::Const(b) = rhs {
                if let Some(c) = fold_words(op, a, b) {
                    return Operand::Const(c);
                }
            }
        }
        self.emit(Inst::Binary { op, lhs, rhs })
    }

    /// Gives a fresh pointer slot the pointer `p` and binds `name` to an
    /// array of `len` elements in it.
    fn bind_array(&mut self, name: &String, p: Operand, len: usize)
        requires
            old(self).wf(),
        ensures
            final(self).wf(),
            final(self).env() == old(self).env(),
            final(self).state() == old(self).state().bind_array(name@, p, len),
    {
        let slot = self.add_local(SlotKind::Pointer);
        self.emit(Inst::StorePtr { addr: Operand::Slot(slot), value: p });
        self.bind(name, Binding::Array { slot, len });
    }

    /// Gives a fresh word slot the word `v` and binds `name` to it.
    fn bind_scalar(&mut self, name: &String, v: Operand)
        requires
            old(self).wf(),
        ensures
            final(self).wf(),
            final(self).env() == old(self).env(),
            final(self).state() == old(self).state().bind_scalar(name@, v),
    {
        let slot = self.add_local(SlotKind::Word);
        self.emit(Inst::Store { addr: Operand::Slot(slot), value: v });
        self.bind(name, Binding::Scalar { slot });
    }

    /// The function that a call of `name` reaches.
    fn find_callee(&self, name: &String) -> (r: Option<usize>)
        requires
            self.wf(),
        ensures
            match r {
                Some(j) => self.env().callee(name@) == Some(j as int) && j < self.sigs@.len(),
                None => self.env().callee(name@) is None,
            },
    {
        let mut j: usize = self.declared;
        while j > 0
            invariant
                self.wf(),
                j <= self.declared,
                self.env().callee(name@) == find_below(self.env().names, name@, j as int),
            decreases j,
        {
            if self.functions[j - 1].name == *name {
                return Some(j - 1);
            }
            j -= 1;
        }
        None
    }

    /// Ends the function: where its last block is open, a return of an
    /// empty array or of zero seals it.
    fn finish(&mut self)
        requires
            old(self).wf(),
        ensures
            final(self).wf(),
            final(self).env() == old(self).env(),
            final(self).state() == finish(old(self).state(), old(self).env().returns_array),
    {
        if self.blocks[self.current].term.is_some() {
            return ;
        }
        if self.returns_array {
            let slot = self.add_local(SlotKind::Array(0));
            self.seal(Terminator::Return(Operand::Slot(slot)));
        } else {
            self.seal(Terminator::Return(Operand::Const(0)));
        }
    }

    /// Emits the load of the address that an array's pointer slot holds.
    fn load_array_ptr(&mut self, slot: usize) -> (r: Operand)
        requires
            old(self).wf(),
        ensures
            final(self).wf(),
            final(self).env() == old(self).env(),
            final(self).state() == old(self).state().emit(
                InstView::LoadPtr { addr: Operand::Slot(slot) },
            ),
            r == old(self).state().next_reg(),
    {
        self.emit(Inst::LoadPtr { addr: Operand::Slot(slot) })
    }

    /// Builds an array literal in a fresh array slot and gives the address
    /// of its first element.
    #[verifier::rlimit(50)]
    fn compile_array_literal(&mut self, elems: &Vec<Expr>) -> (r: Result<Operand, CompileError>)
        requires
            old(self).wf(),
        ensures
            final(self).env() == old(self).env(),
            final(self).state().bindings == old(self).state().bindings,
            r is Ok ==> final(self).state().extends(old(self).state()),
            match r {
                Ok(p) => final(self).wf() && materialize(
                    old(self).env(),
                    old(self).state(),
                    exprs_view(elems@),
                ) == Ok::<(FnState, Operand), CompileErrorView>((final(self).state(), p)),
                Err(e) => materialize(old(self).env(), old(self).state(), exprs_view(elems@))
                    == Err::<(FnState, Operand), CompileErrorView>(e@),
            },
        decreases elems,
    {
        let slot = self.add_local(SlotKind::Array(elems.len()));
        let ghost start = self.state();
        let mut i: usize = 0;
        while i < elems.len()
            invariant
                self.wf(),
                i <= elems@.len(),
                self.env() == old(self).env(),
                self.state().bindings == old(self).state().bindings,
                self.state().extends(old(self).state()),
                slot == old(self).state().next_local(),
                start == old(self).state().add_local(SlotKind::Array(elems@.len() as usize)),
                fill(self.env(), start, exprs_view(elems@), 0, slot) == fill(
                    self.env(),
                    self.state(),
                    exprs_view(elems@),
                    i as int,
                    slot,
                ),
            decreases elems@.len() - i,
        {
            let v = self.compile_expr(&elems[i])?;
            let place = self.emit(
                Inst::Element {
                    base: Operand::Slot(slot),
                    index: Operand::Const(#[verifier::truncate] (i as i64)),
                },
            );
            self.emit(Inst::Store { addr: place, value: v });
            i += 1;
        }
        Ok(Operand::Slot(slot))
    }

    /// The error for an argument that is no array where the parameter is
    /// one.
    fn array_argument_error(i: usize, name: &String) -> (e: CompileError)
        ensures
            e@ == expected_array_argument(i as int, name@),
    {
        let mut msg = join2("Expected array argument for parameter ", count_text(i).as_str());
        msg.append(" of ");
        msg.append(name.as_str());
        CompileError::Codegen(msg)
    }

    /// Computes the arguments of a call.
    #[verifier::rlimit(50)]
    fn compile_args(&mut self, name: &String, params: &Vec<bool>, args: &Vec<Expr>) -> (r: Result<
        Vec<Operand>,
        CompileError,
    >)
        requires
            old(self).wf(),
        ensures
            final(self).env() == old(self).env(),
            final(self).state().bindings == old(self).state().bindings,
            r is Ok ==> final(self).state().extends(old(self).state()),
            match r {
                Ok(ops) => final(self).wf() && lower_args(
                    old(self).env(),
                    old(self).state(),
                    name@,
                    params@,
                    exprs_view(args@),
                    0,
                    Seq::empty(),
                ) == Ok::<(FnState, Seq<Operand>), CompileErrorView>((final(self).state(), ops@)),
                Err(e) => lower_args(
                    old(self).env(),
                    old(self).state(),
                    name@,
                    params@,
                    exprs_view(args@),
                    0,
                    Seq::empty(),
                ) == Err::<(FnState, Seq<Operand>), CompileErrorView>(e@),
            },
        decreases args,
    {
        let ghost start = self.state();
        let mut ops: Vec<Operand> = Vec::new();
        let mut i: usize = 0;
        while i < args.len()
            invariant
                self.wf(),
                i <= args@.len(),
                self.env() == old(self).env(),
                self.state().bindings == old(self).state().bindings,
                self.state().extends(old(self).state()),
                start == old(self).state(),
                lower_args(self.env(), start, name@, params@, exprs_view(args@), 0, Seq::empty())
                    == lower_args(
                    self.env(),
                    self.state(),
                    name@,
                    params@,
                    exprs_view(args@),
                    i as int,
                    ops@,
                ),
            decreases args@.len() - i,
        {
            if i < params.len() && params[i] {
                match &args[i] {
                    Expr::Variable(v) => {
                        match self.lookup(v) {
                            Some(Binding::Array { slot, len }) => {
                                let p = self.load_array_ptr(slot);
                                ops.push(p);
                                ops.push(Operand::Const(#[verifier::truncate] (len as i64)));
                            },
                            _ => {
                                return Err(Self::array_argument_error(i, name));
                            },
                        }
                    },
                    Expr::ArrayLiteral(elems) => {
                        let p = self.compile_array_literal(elems)?;
                        ops.push(p);
                        ops.push(Operand::Const(#[verifier::truncate] (elems.len() as i64)));
                    },
                    _ => {
                        return Err(Self::array_argument_error(i, name));
                    },
                }
            } else {
                let v = self.compile_expr(&args[i])?;
                ops.push(v);
            }
            i += 1;
        }
        Ok(ops)
    }

    /// The error for a constant index outside the array.
    fn bounds_error(c: i64, name: &String, len: usize) -> (e: CompileError)
        ensures
            e@ == out_of_bounds(c as int, name@, len as int),
    {
        let mut msg = join2("Index ", decimal_text(c).as_str());
        msg.append(" out of bounds for array ");
        msg.append(name.as_str());
        msg.append(" of size ");
        msg.append(count_text(len).as_str());
        CompileError::Codegen(msg)
    }

    /// Computes an expression and gives the word it yields. Whatever it
    /// returns, it leaves the symbol table as it was.
    #[verifier::rlimit(50)]
    fn compile_expr(&mut self, e: &Expr) -> (r: Result<Operand, CompileError>)
        requires
            old(self).wf(),
        ensures
            final(self).env() == old(self).env(),
            final(self).state().bindings == old(self).state().bindings,
            r is Ok ==> final(self).state().extends(old(self).state()),
            match r {
                Ok(v) => final(self).wf() && lower_expr(old(self).env(), old(self).state(), e@)
                    == Ok::<(FnState, Operand), CompileErrorView>((final(self).state(), v)),
                Err(err) => lower_expr(old(self).env(), old(self).state(), e@) == Err::<
                    (FnState, Operand),
                    CompileErrorView,
                >(err@),
            },
        decreases e,
    {
        proof {
            reveal_with_fuel(crate::ast::expr_view, 2);
        }
        match e {
            Expr::Number(n) => Ok(Operand::Const(*n)),
            Expr::Bool(b) => Ok(Operand::Const(if *b { 1 } else { 0 })),
            Expr::StrLiteral(s) => Err(
                CompileError::Codegen(String::from_str("string literal used as a value")),
            ),
            Expr::Variable(name) => match self.lookup(name) {
                Some(Binding::Scalar { slot }) => Ok(
                    self.emit(Inst::Load { addr: Operand::Slot(slot) }),
                ),
                Some(Binding::Array { slot, len }) => {
                    let p = self.load_array_ptr(slot);
                    Ok(self.emit(Inst::PtrToWord { value: p }))
                },
                Some(Binding::ArrayParam { slot, len_slot }) => {
                    let p = self.load_array_ptr(slot);
                    Ok(self.emit(Inst::PtrToWord { value: p }))
                },
                None => Err(CompileError::Codegen(join2("undefined var ", name.as_str()))),
            },
            Expr::Unary { op, expr } => {
                let v = self.compile_expr(expr)?;
                match op {
                    UnOp::Pos => Ok(v),
                    UnOp::Neg => Ok(self.arith(WordOp::Sub, Operand::Const(0), v)),
                }
            },
            Expr::Binary { op, left, right } => {
                let l = self.compile_expr(left)?;
                let r = self.compile_expr(right)?;
                Ok(self.arith(to_word_op(*op), l, r))
            },
            Expr::Call { name, args } => {
                let j = match self.find_callee(name) {
                    Some(j) => j,
                    None => {
                        return Err(CompileError::Codegen(join2("unknown fn ", name.as_str())));
                    },
                };
                let sigs: &'a Vec<Signature> = self.sigs;
                let sig = &sigs[j];
                if args.len() > sig.params.len() {
                    return Err(
                        CompileError::Codegen(
                            join2("Too many arguments for function ", name.as_str()),
                        ),
                    );
                }
                if args.len() < sig.params.len() {
                    return Err(
                        CompileError::Codegen(
                            join2("Too few arguments for function ", name.as_str()),
                        ),
                    );
                }
                let ops = self.compile_args(name, &sig.params, args)?;
                let r = self.emit(
                    Inst::Call { callee: j, args: ops, returns_array: sig.returns_array },
                );
                if sig.returns_array {
                    Ok(self.emit(Inst::PtrToWord { value: r }))
                } else {
                    Ok(r)
                }
            },
            Expr::ArrayLiteral(elems) => {
                let p = self.compile_array_literal(elems)?;
                Ok(self.emit(Inst::PtrToWord { value: p }))
            },
            Expr::Index { array, index } => {
                let name = match &**array {
                    Expr::Variable(name) => name,
                    _ => {
                        return Err(
                            CompileError::Codegen(
                                String::from_str("Array indexing must use a variable"),
                            ),
                        );
                    },
                };
                match self.lookup(name) {
                    None => Err(CompileError::Codegen(join2("undefined array ", name.as_str()))),
                    Some(Binding::Scalar { slot }) => {
                        self.compile_expr(index)?;
                        Err(CompileError::Codegen(join2("undefined array ", name.as_str())))
                    },
                    Some(Binding::ArrayParam { slot, len_slot }) => {
                        self.load_array_ptr(slot);
                        self.compile_expr(index)?;
                        Err(CompileError::Codegen(join2("undefined array ", name.as_str())))
                    },
                    Some(Binding::Array { slot, len }) => {
                        let base = self.load_array_ptr(slot);
                        let idx = self.compile_expr(index)?;
                        match idx {
                            Operand::Const(c) => {
                                if c < 0 || c as u64 >= len as u64 {
                                    return Err(Self::bounds_error(c, name, len));
                                }
                                let place = self.emit(
                                    Inst::Element { base, index: Operand::Const(c) },
                                );
                                Ok(self.emit(Inst::Load { addr: place }))
                            },
                            _ => Err(
                                CompileError::Codegen(
                                    String::from_str(
                                        "Index must be a constant or resolvable integer",
                                    ),
                                ),
                            ),
                        }
                    },
                }
            },
            Expr::Length { array } => {
                let name = match &**array {
                    Expr::Variable(name) => name,
                    _ => {
                        return Err(
                            CompileError::Codegen(
                                String::from_str("Length must be called on a variable"),
                            ),
                        );
                    },
                };
                match self.lookup(name) {
                    Some(Binding::Array { slot, len }) => Ok(
                        Operand::Const(#[verifier::truncate] (len as i64)),
                    ),
                    Some(Binding::ArrayParam { slot, len_slot }) => Ok(
                        self.emit(Inst::Load { addr: Operand::Slot(len_slot) }),
                    ),
                    _ => Err(CompileError::Codegen(join2("undefined array ", name.as_str()))),
                }
            },
        }
    }

    /// Whether an expression is a call of a declared function that returns
    /// an array.
    fn is_array_call(&self, e: &Expr) -> (r: bool)
        requires
            self.wf(),
        ensures
            r == calls_array_function(self.env(), e@),
    {
        match e {
            Expr::Call { name, args } => match self.find_callee(name) {
                Some(j) => self.sigs[j].returns_array,
                None => false,
            },
            _ => false,
        }
    }

    /// Compiles a declaration of `name`.
    #[verifier::rlimit(50)]
    fn compile_declaration(&mut self, name: &String, e: &Expr, alias: bool) -> (r: Result<
        (),
        CompileError,
    >)
        requires
            old(self).wf(),
        ensures
            final(self).env() == old(self).env(),
            r is Ok ==> final(self).state().extends(old(self).state()),
            match r {
                Ok(_) => final(self).wf() && lower_declaration(
                    old(self).env(),
                    old(self).state(),
                    name@,
                    e@,
                    alias,
                ) == Ok::<FnState, CompileErrorView>(final(self).state()),
                Err(err) => lower_declaration(old(self).env(), old(self).state(), name@, e@, alias)
                    == Err::<FnState, CompileErrorView>(err@),
            },
    {
        if let Expr::ArrayLiteral(elems) = e {
            let p = self.compile_array_literal(elems)?;
            self.bind_array(name, p, elems.len());
            return Ok(());
        }
        if alias {
            if let Expr::Variable(v) = e {
                match self.lookup(v) {
                    Some(Binding::Array { slot, len }) => {
                        let p = self.load_array_ptr(slot);
                        let fresh = self.add_local(SlotKind::Pointer);
                        self.emit(Inst::StorePtr { addr: Operand::Slot(fresh), value: p });
                        self.bind(name, Binding::Array { slot: fresh, len });
                        return Ok(());
                    },
                    Some(Binding::ArrayParam { slot, len_slot }) => {
                        let p = self.load_array_ptr(slot);
                        let fresh = self.add_local(SlotKind::Pointer);
                        self.emit(Inst::StorePtr { addr: Operand::Slot(fresh), value: p });
                        self.bind(name, Binding::ArrayParam { slot: fresh, len_slot });
                        return Ok(());
                    },
                    _ => {},
                }
            }
        }
        let v = self.compile_expr(e)?;
        self.bind_scalar(name, v);
        Ok(())
    }

    /// Compiles the store of a word at an index of an array.
    fn compile_element_store(&mut self, slot: usize, index: &Expr, value: &Expr) -> (r: Result<
        (),
        CompileError,
    >)
        requires
            old(self).wf(),
        ensures
            final(self).env() == old(self).env(),
            r is Ok ==> final(self).state().extends(old(self).state()),
            match r {
                Ok(_) => final(self).wf() && lower_element_store(
                    old(self).env(),
                    old(self).state(),
                    slot,
                    index@,
                    value@,
                ) == Ok::<FnState, CompileErrorView>(final(self).state()),
                Err(err) => lower_element_store(
                    old(self).env(),
                    old(self).state(),
                    slot,
                    index@,
                    value@,
                ) == Err::<FnState, CompileErrorView>(err@),
            },
    {
        let base = self.load_array_ptr(slot);
        let i = self.compile_expr(index)?;
        let v = self.compile_expr(value)?;
        let place = self.emit(Inst::Element { base, index: i });
        self.emit(Inst::Store { addr: place, value: v });
        Ok(())
    }

    /// Compiles one statement. An assignment to a name that the symbol
    /// table does not hold fails and leaves the state as it was.
    #[verifier::rlimit(50)]
    fn compile_statement(&mut self, s: &Statement) -> (r: Result<(), CompileError>)
        requires
            old(self).wf(),
        ensures
            final(self).env() == old(self).env(),
            match s@ {
                StatementView::Assign { name, expr } => old(self).state().lookup(name) is None
                    ==> final(self).state() == old(self).state(),
                _ => true,
            },
            r is Ok ==> final(self).state().extends(old(self).state()),
            match r {
                Ok(_) => final(self).wf() && lower_stmt(old(self).env(), old(self).state(), s@)
                    == Ok::<FnState, CompileErrorView>(final(self).state()),
                Err(err) => lower_stmt(old(self).env(), old(self).state(), s@) == Err::<
                    FnState,
                    CompileErrorView,
                >(err@),
            },
        decreases s,
    {
        match s {
            Statement::VarDecl { name, expr } => self.compile_declaration(name, expr, false),
            Statement::LetDecl { name, expr } => self.compile_declaration(name, expr, true),
            Statement::Assign { name, expr } => {
                let b = match self.lookup(name) {
                    Some(b) => b,
                    None => {
                        return Err(
                            CompileError::Codegen(join2("undefined variable ", name.as_str())),
                        );
                    },
                };
                if let Expr::ArrayLiteral(elems) = expr {
                    let p = self.compile_array_literal(elems)?;
                    self.bind_array(name, p, elems.len());
                    return Ok(());
                }
                let v = self.compile_expr(expr)?;
                if self.is_array_call(expr) {
                    match b {
                        Binding::Array { slot, len } => {
                            let p = self.emit(Inst::WordToPtr { value: v });
                            self.bind_array(name, p, len);
                            Ok(())
                        },
                        _ => Err(
                            CompileError::Codegen(
                                join2("Array size not found for ", name.as_str()),
                            ),
                        ),
                    }
                } else {
                    match b {
                        Binding::Scalar { slot } => {
                            self.emit(Inst::Store { addr: Operand::Slot(slot), value: v });
                        },
                        _ => {
                            self.bind_scalar(name, v);
                        },
                    }
                    Ok(())
                }
            },
            Statement::IndexedAssign { array, index, expr } => {
                let name = match array {
                    Expr::Variable(name) => name,
                    _ => {
                        return Err(
                            CompileError::Codegen(
                                String::from_str("Array in indexed assignment must be a variable"),
                            ),
                        );
                    },
                };
                match self.lookup(name) {
                    Some(Binding::Array { slot, len }) => self.compile_element_store(
                        slot,
                        index,
                        expr,
                    ),
                    Some(Binding::ArrayParam { slot, len_slot }) => self.compile_element_store(
                        slot,
                        index,
                        expr,
                    ),
                    _ => Err(CompileError::Codegen(join2("undefined array ", name.as_str()))),
                }
            },
            Statement::Print { expr } => {
                if let Expr::StrLiteral(text) = expr {
                    self.emit(Inst::PrintText { text: text.clone() });
                } else {
                    let v = self.compile_expr(expr)?;
                    self.emit(Inst::PrintWord { value: v });
                }
                Ok(())
            },
            Statement::Return { expr } => {
                if self.returns_array {
                    if let Expr::ArrayLiteral(elems) = expr {
                        let p = self.compile_array_literal(elems)?;
                        self.seal(Terminator::Return(p));
                    } else {
                        let v = self.compile_expr(expr)?;
                        let p = self.emit(Inst::WordToPtr { value: v });
                        self.seal(Terminator::Return(p));
                    }
                } else {
                    let v = self.compile_expr(expr)?;
                    self.seal(Terminator::Return(v));
                }
                Ok(())
            },
            Statement::If { cond, then_branch, else_branch } => {
                let c = self.compile_expr(cond)?;
                let then_block = self.add_block();
                let else_block = self.add_block();
                let merge_block = self.add_block();
                self.seal(Terminator::Branch { cond: c, if_true: then_block, if_false: else_block });
                self.goto(then_block);
                self.compile_statements(then_branch)?;
                self.seal(Terminator::Jump(merge_block));
                self.goto(else_block);
                if let Some(els) = else_branch {
                    self.compile_statements(els)?;
                }
                self.seal(Terminator::Jump(merge_block));
                self.goto(merge_block);
                Ok(())
            },
            Statement::While { cond, body } => {
                let loop_block = self.add_block();
                let after_block = self.add_block();
                self.seal(Terminator::Jump(loop_block));
                self.goto(loop_block);
                let c = self.compile_expr(cond)?;
                let body_block = self.add_block();
                self.seal(Terminator::Branch { cond: c, if_true: body_block, if_false: after_block });
                self.goto(body_block);
                self.compile_statements(body)?;
                self.seal(Terminator::Jump(loop_block));
                self.goto(after_block);
                Ok(())
            },
            Statement::ExprStmt(e) => {
                self.compile_expr(e)?;
                Ok(())
            },
        }
    }

    /// Compiles some statements, in order.
    fn compile_statements(&mut self, stmts: &Vec<Statement>) -> (r: Result<(), CompileError>)
        requires
            old(self).wf(),
        ensures
            final(self).env() == old(self).env(),
            r is Ok ==> final(self).state().extends(old(self).state()),
            match r {
                Ok(_) => final(self).wf() && lower_stmts(
                    old(self).env(),
                    old(self).state(),
                    stmts_view(stmts@),
                    0,
                ) == Ok::<FnState, CompileErrorView>(final(self).state()),
                Err(err) => lower_stmts(old(self).env(), old(self).state(), stmts_view(stmts@), 0)
                    == Err::<FnState, CompileErrorView>(err@),
            },
        decreases stmts,
    {
        let mut i: usize = 0;
        while i < stmts.len()
            invariant
                self.wf(),
                i <= stmts@.len(),
                self.env() == old(self).env(),
                self.state().extends(old(self).state()),
                lower_stmts(self.env(), old(self).state(), stmts_view(stmts@), 0) == lower_stmts(
                    self.env(),
                    self.state(),
                    stmts_view(stmts@),
                    i as int,
                ),
            decreases stmts@.len() - i,
        {
            self.compile_statement(&stmts[i])?;
            i += 1;
        }
        Ok(())
    }
}

/// The environment of a routine of a program.
pub open spec fn routine_env(
    functions: Seq<Function>,
    sigs: Seq<Signature>,
    declared: int,
    returns_array: bool,
) -> Env {
    Env {
        names: names_of(functions_view(functions)),
        sigs: signatures_view(sigs),
        declared,
        returns_array,
    }
}

/// Compiles one routine: a function of the program, or its entry
/// routine.
#[verifier::rlimit(50)]
fn compile_routine<'a>(
    functions: &'a Vec<Function>,
    sigs: &'a Vec<Signature>,
    declared: usize,
    returns_array: bool,
    name: String,
    params: &Vec<String>,
    flags: &Vec<bool>,
    body: &Vec<Statement>,
) -> (r: Result<IrFunction, CompileError>)
    requires
        functions@.len() == sigs@.len(),
        declared <= functions@.len(),
    ensures
        match r {
            Ok(code) => lower_body(
                routine_env(functions@, sigs@, declared as int, returns_array),
                name@,
                names_view(params@),
                flags@,
                stmts_view(body@),
            ) == Ok::<IrFunctionView, CompileErrorView>(code@),
            Err(e) => lower_body(
                routine_env(functions@, sigs@, declared as int, returns_array),
                name@,
                names_view(params@),
                flags@,
                stmts_view(body@),
            ) == Err::<IrFunctionView, CompileErrorView>(e@),
        },
{
    let mut blocks: Vec<Block> = Vec::new();
    blocks.push(Block { insts: Vec::new(), term: None });
    let mut low = Lowering {
        blocks,
        current: 0,
        locals: Vec::new(),
        bindings: StringHashMap::new(),
        functions,
        sigs,
        declared,
        returns_array,
    };
    proof {
        assert(insts_view(Seq::<Inst>::empty()) =~= Seq::<InstView>::empty());
        assert(low.state().blocks =~= fresh_state().blocks);
        assert(low.state() == fresh_state());
    }
    let ghost env = low.env();
    let mut kinds: Vec<ParamKind> = Vec::new();
    let mut i: usize = 0;
    while i < params.len()
        invariant
            low.wf(),
            low.env() == env,
            i <= params@.len(),
            bind_params(fresh_state(), names_view(params@), flags@, 0, Seq::empty())
                == bind_params(low.state(), names_view(params@), flags@, i as int, kinds@),
        decreases params@.len() - i,
    {
        let at = kinds.len();
        if i < flags.len() && flags[i] {
            let slot = low.add_local(SlotKind::Pointer);
            low.emit(Inst::StorePtr { addr: Operand::Slot(slot), value: Operand::Param(at) });
            kinds.push(ParamKind::Pointer);
            let len_slot = low.add_local(SlotKind::Word);
            low.emit(
                Inst::Store { addr: Operand::Slot(len_slot), value: Operand::Param(kinds.len()) },
            );
            kinds.push(ParamKind::Word);
            low.bind(&params[i], Binding::ArrayParam { slot, len_slot });
        } else {
            let slot = low.add_local(SlotKind::Word);
            low.emit(Inst::Store { addr: Operand::Slot(slot), value: Operand::Param(at) });
            kinds.push(ParamKind::Word);
            low.bind(&params[i], Binding::Scalar { slot });
        }
        i += 1;
    }
    low.compile_statements(body)?;
    low.finish();
    Ok(
        IrFunction {
            name,
            params: kinds,
            returns_array,
            locals: low.locals,
            blocks: low.blocks,
        },
    )
}

/// Compiles function `k` of a program: it and the functions before it
/// can be called from its body.
fn compile_function_decl(prog: &Program, sigs: &Vec<Signature>, k: usize) -> (r: Result<
    IrFunction,
    CompileError,
>)
    requires
        prog.functions@.len() == sigs@.len(),
        k < prog.functions@.len(),
    ensures
        match r {
            Ok(code) => lower_body(
                function_env(prog@, signatures_view(sigs@), k as int),
                prog@.functions[k as int].name,
                prog@.functions[k as int].params,
                signatures_view(sigs@)[k as int].params,
                prog@.functions[k as int].body,
            ) == Ok::<IrFunctionView, CompileErrorView>(code@),
            Err(e) => lower_body(
                function_env(prog@, signatures_view(sigs@), k as int),
                prog@.functions[k as int].name,
                prog@.functions[k as int].params,
                signatures_view(sigs@)[k as int].params,
                prog@.functions[k as int].body,
            ) == Err::<IrFunctionView, CompileErrorView>(e@),
        },
{
    let n = prog.functions.len();
    let f = &prog.functions[k];
    let sig = &sigs[k];
    compile_routine(
        &prog.functions,
        sigs,
        k + 1,
        sig.returns_array,
        f.name.clone(),
        &f.params,
        &sig.params,
        &f.body,
    )
}

/// Compiles a program whose signatures are known: each function in the
/// order of declaration, and last the entry routine.
#[verifier::rlimit(50)]
fn lower_with_signatures(prog: &Program, sigs: &Vec<Signature>) -> (r: Result<
    IrModule,
    CompileError,
>)
    requires
        prog.functions@.len() == sigs@.len(),
    ensures
        match r {
            Ok(m) => lower_with(prog@, signatures_view(sigs@)) == Ok::<
                IrModuleView,
                CompileErrorView,
            >(m@),
            Err(e) => lower_with(prog@, signatures_view(sigs@)) == Err::<
                IrModuleView,
                CompileErrorView,
            >(e@),
        },
{
    let mut done: Vec<IrFunction> = Vec::new();
    proof {
        assert(ir_functions_view(done@) =~= Seq::empty());
    }
    let mut k: usize = 0;
    while k < prog.functions.len()
        invariant
            k <= prog.functions@.len(),
            prog.functions@.len() == sigs@.len(),
            lower_with(prog@, signatures_view(sigs@)) == lower_from(
                prog@,
                signatures_view(sigs@),
                k as int,
                ir_functions_view(done@),
            ),
        decreases prog.functions@.len() - k,
    {
        let code = compile_function_decl(prog, sigs, k)?;
        proof {
            assert(ir_functions_view(done@.push(code)) =~= ir_functions_view(done@).push(code@));
        }
        done.push(code);
        k += 1;
    }
    let none: Vec<String> = Vec::new();
    let flags: Vec<bool> = Vec::new();
    proof {
        assert(names_view(none@) =~= Seq::empty());
    }
    let code = compile_routine(
        &prog.functions,
        sigs,
        prog.functions.len(),
        false,
        String::from_str("main"),
        &none,
        &flags,
        &prog.statements,
    )?;
    proof {
        assert(ir_functions_view(done@.push(code)) =~= ir_functions_view(done@).push(code@));
    }
    done.push(code);
    Ok(IrModule { functions: done })
}

/// Compiles a program to intermediate code: infers the signatures,
/// compiles each function in the order of declaration, and last the entry
/// routine from the top-level statements. Fails with the first error.
/// The code that it gives is well formed, and its counts fit the
/// machine's numbers.
pub fn lower_program(prog: &Program) -> (r: Result<IrModule, CompileError>)
    ensures
        match r {
            Ok(m) => {
                &&& lower(prog@) == Ok::<IrModuleView, CompileErrorView>(m@)
                &&& well_formed(m@)
                &&& sized(m@)
            },
            Err(e) => lower(prog@) == Err::<IrModuleView, CompileErrorView>(e@),
        },
{
    let sigs = analyze_function_types(prog)?;
    let code = lower_with_signatures(prog, &sigs)?;
    proof {
        lemma_module_is_sized(&code);
        lemma_compiled_code_is_well_formed(prog@);
    }
    Ok(code)
}

/// The operation of the intermediate code for a binary operator.
fn to_word_op(op: BinOp) -> (r: WordOp)
    ensures
        r == word_op(op),
{
    match op {
        BinOp::Add => WordOp::Add,
        BinOp::Sub => WordOp::Sub,
        BinOp::Mul => WordOp::Mul,
        BinOp::Div => WordOp::Div,
        BinOp::Rem => WordOp::Rem,
        BinOp::Lt => WordOp::Lt,
        BinOp::Le => WordOp::Le,
        BinOp::Gt => WordOp::Gt,
        BinOp::Ge => WordOp::Ge,
        BinOp::Eq => WordOp::Eq,
        BinOp::Ne => WordOp::Ne,
    }
}

/// The counts of a module that the generator built fit the machine's
/// numbers.
pub proof fn lemma_module_is_sized(m: &IrModule)
    ensures
        sized(m@),
{
    assert(m.functions@.len() == m.functions.len());
    assert forall|k: int| 0 <= k < m@.functions.len() implies sized_function(
        #[trigger] m@.functions[k],
    ) by {
        let f = m.functions@[k];
        assert(m@.functions[k] == f@);
        assert(f.blocks@.len() == f.blocks.len());
        assert(f.locals@.len() == f.locals.len());
        assert(f.params@.len() == f.params.len());
        assert forall|x: int| 0 <= x < f@.blocks.len() implies (#[trigger] f@.blocks[x]).insts.len()
            <= usize::MAX by {
            let b = f.blocks@[x];
            assert(f@.blocks[x] == b@);
            assert(b.insts@.len() == b.insts.len());
        }
    }
}

/// The code generator: it compiles programs into a module of the LLVM
/// backend.
pub struct CodeGen<'ctx> {
    context: &'ctx Context,
    /// The backend's module, which holds what was compiled.
    pub module: Module<'ctx>,
    builder: Builder<'ctx>,
    printf_fn: FunctionValue<'ctx>,
    functions: Vec<FunctionValue<'ctx>>,
}

impl<'ctx> CodeGen<'ctx> {
    /// A code generator for a module of the backend, which was made in
    /// the context `ctx`. It declares the `printf` of the C library in the
    /// module, for printing.
    pub fn new(ctx: &'ctx Context, module: Module<'ctx>) -> (cg: Self)
        ensures
            cg.compiled() == 0,
    {
        let builder = new_builder(ctx);
        let printf_fn = declare_printf(ctx, &module);
        CodeGen { context: ctx, module, builder, printf_fn, functions: Vec::new() }
    }

    /// How many functions the last compilation gave the backend, the
    /// entry routine among them.
    pub closed spec fn compiled(&self) -> nat {
        self.functions@.len()
    }

    /// Compiles a program: lowers it to intermediate code and makes the
    /// backend build that code in the module. Where lowering fails, its
    /// error is returned and the backend is not touched. Any other
    /// failure is an error of code generation that the backend reported
    /// or that says what the backend cannot take: the code itself is
    /// well formed. On success the backend holds one function for each
    /// function of the program and the entry routine.
    #[verifier::rlimit(50)]
    pub fn compile_program(&mut self, prog: &Program) -> (r: Result<(), CompileError>)
        ensures
            match lower(prog@) {
                Err(e) => {
                    &&& r is Err
                    &&& r->Err_0@ == e
                    &&& final(self).compiled() == old(self).compiled()
                },
                Ok(m) => match r {
                    Ok(_) => final(self).compiled() == m.functions.len(),
                    Err(e) => e@ is Codegen && !malformed_error(e@),
                },
            },
    {
        let code = lower_program(prog)?;
        self.emit(&code)
    }

    /// Makes the backend build a module of intermediate code, function by
    /// function. It succeeds only on code that is well formed, and then
    /// the backend holds one function for each function of the code.
    /// Every failure is an error of code generation that leaves the
    /// count of compiled functions as it was; on code that is well
    /// formed, none says that the code is not.
    pub fn emit(&mut self, code: &IrModule) -> (r: Result<(), CompileError>)
        ensures
            match r {
                Ok(_) => final(self).compiled() == code@.functions.len() && well_formed(code@),
                Err(e) => {
                    &&& e@ is Codegen
                    &&& (malformed_error(e@) ==> !well_formed(code@))
                    &&& final(self).compiled() == old(self).compiled()
                },
            },
    {
        let functions = emit_module(
            self.context,
            &self.module,
            &self.builder,
            self.printf_fn,
            code,
        )?;
        self.functions = functions;
        Ok(())
    }

    /// The backend's function for the entry routine of the program
    /// compiled last.
    pub fn entry(&self) -> (r: Option<FunctionValue<'ctx>>)
        ensures
            r is Some <==> self.compiled() > 0,
    {
        let n = self.functions.len();
        if n > 0 {
            Some(self.functions[n - 1])
        } else {
            None
        }
    }
}

} // verus!
