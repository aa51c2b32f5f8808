//! The intermediate code that the code generator emits: functions made of
//! basic blocks of instructions over machine words and pointers.
//!
//! A word is a 64-bit signed integer, wide enough for an address. A
//! value is a word or a pointer to words. An array that an expression
//! carries, or that a call returns, passes through a word and comes back
//! whole.
//!
//! Every function owns numbered stack slots; a block is a straight-line
//! sequence of instructions that ends in one terminator. An instruction
//! that yields a value is named by its place in its block, and only later
//! instructions of the same block, and that block's terminator, use it.

use vstd::prelude::*;

verus! {

/// What a stack slot holds.
#[derive(Debug, Clone, Copy, PartialEq, Eq, Structural)]
pub enum SlotKind {
    /// One word.
    Word,
    /// One pointer.
    Pointer,
    /// So many words in a row.
    Array(usize),
}

/// What a parameter carries.
#[derive(Debug, Clone, Copy, PartialEq, Eq, Structural)]
pub enum ParamKind {
    Word,
    Pointer,
}

/// A value that an instruction reads.
#[derive(Debug, Clone, Copy, PartialEq, Eq, Structural)]
pub enum Operand {
    /// A constant word.
    Const(i64),
    /// What the instruction at this place of the same block yields.
    Reg(usize),
    /// A parameter of the function, by its place in the flattened list.
    Param(usize),
    /// The address of a stack slot; for an array, of its first element.
    Slot(usize),
}

/// An arithmetic or comparison operation on two words. A comparison yields
/// the word 1 where it holds and 0 where it does not.
#[derive(Debug, Clone, Copy, PartialEq, Eq, Structural)]
pub enum WordOp {
    Add,
    Sub,
    Mul,
    Div,
    Rem,
    Lt,
    Le,
    Gt,
    Ge,
    Eq,
    Ne,
}

/// One instruction.
#[derive(Debug, Clone, PartialEq, Eq)]
pub enum Inst {
    /// Yields the word at an address.
    Load { addr: Operand },
    /// Yields the pointer at an address.
    LoadPtr { addr: Operand },
    /// Writes a word to an address.
    Store { addr: Operand, value: Operand },
    /// Writes a pointer to an address.
    StorePtr { addr: Operand, value: Operand },
    /// Yields the result of an operation on two words.
    Binary { op: WordOp, lhs: Operand, rhs: Operand },
    /// Yields the address of an element, from the address of the first
    /// element and an index.
    Element { base: Operand, index: Operand },
    /// Yields a pointer as a word.
    PtrToWord { value: Operand },
    /// Yields a word as a pointer.
    WordToPtr { value: Operand },
    /// Calls a function of the module, by its place, and yields what it
    /// returns: a pointer where `returns_array` holds, else a word.
    Call { callee: usize, args: Vec<Operand>, returns_array: bool },
    /// Prints a word as a signed decimal number and a newline.
    PrintWord { value: Operand },
    /// Prints a text and a newline.
    PrintText { text: String },
}

/// How a block ends.
#[derive(Debug, Clone, Copy, PartialEq, Eq, Structural)]
pub enum Terminator {
    /// Returns a value from the function.
    Return(Operand),
    /// Goes to a block of the function.
    Jump(usize),
    /// Goes to `if_true` where the word `cond` is not zero, else to
    /// `if_false`.
    Branch { cond: Operand, if_true: usize, if_false: usize },
}

/// A basic block: instructions, and the terminator once the block is
/// sealed.
#[derive(Debug, Clone, PartialEq, Eq)]
pub struct Block {
    pub insts: Vec<Inst>,
    pub term: Option<Terminator>,
}

/// A function of the module. Block 0 is its entry.
#[derive(Debug, Clone, PartialEq, Eq)]
pub struct IrFunction {
    pub name: String,
    pub params: Vec<ParamKind>,
    pub returns_array: bool,
    pub locals: Vec<SlotKind>,
    pub blocks: Vec<Block>,
}

/// A module: the functions of the program in the order of their
/// declaration, and last the entry routine.
#[derive(Debug, Clone, PartialEq, Eq)]
pub struct IrModule {
    pub functions: Vec<IrFunction>,
}

/// Model of an [`Inst`].
pub enum InstView {
    Load { addr: Operand },
    LoadPtr { addr: Operand },
    Store { addr: Operand, value: Operand },
    StorePtr { addr: Operand, value: Operand },
    Binary { op: WordOp, lhs: Operand, rhs: Operand },
    Element { base: Operand, index: Operand },
    PtrToWord { value: Operand },
    WordToPtr { value: Operand },
    Call { callee: usize, args: Seq<Operand>, returns_array: bool },
    PrintWord { value: Operand },
    PrintText { text: Seq<char> },
}

/// Model of a [`Block`].
pub struct BlockView {
    pub insts: Seq<InstView>,
    pub term: Option<Terminator>,
}

/// Model of an [`IrFunction`].
pub struct IrFunctionView {
    pub name: Seq<char>,
    pub params: Seq<ParamKind>,
    pub returns_array: bool,
    pub locals: Seq<SlotKind>,
    pub blocks: Seq<BlockView>,
}

/// Model of an [`IrModule`].
pub struct IrModuleView {
    pub functions: Seq<IrFunctionView>,
}

impl View for Inst {
    type V = InstView;

    open spec fn view(&self) -> InstView {
        match self {
            Inst::Load { addr } => InstView::Load { addr: *addr },
            Inst::LoadPtr { addr } => InstView::LoadPtr { addr: *addr },
            Inst::Store { addr, value } => InstView::Store { addr: *addr, value: *value },
            Inst::StorePtr { addr, value } => InstView::StorePtr { addr: *addr, value: *value },
            Inst::Binary { op, lhs, rhs } => InstView::Binary { op: *op, lhs: *lhs, rhs: *rhs },
            Inst::Element { base, index } => InstView::Element { base: *base, index: *index },
            Inst::PtrToWord { value } => InstView::PtrToWord { value: *value },
            Inst::WordToPtr { value } => InstView::WordToPtr { value: *value },
            Inst::Call { callee, args, returns_array } => InstView::Call {
                callee: *callee,
                args: args@,
                returns_array: *returns_array,
            },
            Inst::PrintWord { value } => InstView::PrintWord { value: *value },
            Inst::PrintText { text } => InstView::PrintText { text: text@ },
        }
    }
}

/// Model of a sequence of instructions.
pub open spec fn insts_view(v: Seq<Inst>) -> Seq<InstView> {
    Seq::new(v.len(), |i: int| v[i]@)
}

impl View for Block {
    type V = BlockView;

    open spec fn view(&self) -> BlockView {
        BlockView { insts: insts_view(self.insts@), term: self.term }
    }
}

/// Model of a sequence of blocks.
pub open spec fn blocks_view(v: Seq<Block>) -> Seq<BlockView> {
    Seq::new(v.len(), |i: int| v[i]@)
}

impl View for IrFunction {
    type V = IrFunctionView;

    open spec fn view(&self) -> IrFunctionView {
        IrFunctionView {
            name: self.name@,
            params: self.params@,
            returns_array: self.returns_array,
            locals: self.locals@,
            blocks: blocks_view(self.blocks@),
        }
    }
}

/// Model of a sequence of functions.
pub open spec fn ir_functions_view(v: Seq<IrFunction>) -> Seq<IrFunctionView> {
    Seq::new(v.len(), |i: int| v[i]@)
}

impl View for IrModule {
    type V = IrModuleView;

    open spec fn view(&self) -> IrModuleView {
        IrModuleView { functions: ir_functions_view(self.functions@) }
    }
}

} // verus!
