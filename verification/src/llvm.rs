//! The calls into the LLVM bindings.
//!
//! Every function here makes one call into `inkwell` and is believed, not
//! proved. None of them promises anything about what the backend builds:
//! the handles they return are opaque. What they ask of their callers
//! keeps the bindings from overflowing a 32-bit count.

use inkwell::basic_block::BasicBlock;
use inkwell::builder::{Builder, BuilderError};
use inkwell::context::Context;
use inkwell::module::Module;
use inkwell::types::{BasicMetadataTypeEnum, BasicTypeEnum, FunctionType, IntType, PointerType};
use inkwell::values::{
    BasicMetadataValueEnum, BasicValueEnum, CallSiteValue, FunctionValue, GlobalValue, IntValue,
    PointerValue,
};
use inkwell::{AddressSpace, IntPredicate};
use vstd::prelude::*;

verus! {

/// The backend's context, which owns what is built in it. Nothing is
/// known of what it holds.
#[verifier::external_type_specification]
#[verifier::external_body]
pub struct ExContext(inkwell::context::Context);

/// A module of the backend. Nothing is known of what it holds.
#[verifier::external_type_specification]
#[verifier::external_body]
pub struct ExModule<'ctx>(inkwell::module::Module<'ctx>);

/// The backend's builder of instructions. Nothing is known of what it
/// holds.
#[verifier::external_type_specification]
#[verifier::external_body]
pub struct ExBuilder<'ctx>(inkwell::builder::Builder<'ctx>);

/// An error of the backend's builder. Nothing is known of what it holds.
#[verifier::external_type_specification]
#[verifier::external_body]
pub struct ExBuilderError(inkwell::builder::BuilderError);

/// A basic block of the backend. Nothing is known of what it holds.
#[verifier::external_type_specification]
#[verifier::external_body]
pub struct ExBasicBlock<'ctx>(inkwell::basic_block::BasicBlock<'ctx>);

/// An integer type of the backend. Nothing is known of what it holds.
#[verifier::external_type_specification]
#[verifier::external_body]
pub struct ExIntType<'ctx>(inkwell::types::IntType<'ctx>);

/// A pointer type of the backend. Nothing is known of what it holds.
#[verifier::external_type_specification]
#[verifier::external_body]
pub struct ExPointerType<'ctx>(inkwell::types::PointerType<'ctx>);

/// A function type of the backend. Nothing is known of what it holds.
#[verifier::external_type_specification]
#[verifier::external_body]
pub struct ExFunctionType<'ctx>(inkwell::types::FunctionType<'ctx>);

/// A type of the backend of one of its basic kinds. Nothing is known of
/// what it holds.
#[verifier::external_type_specification]
#[verifier::external_body]
pub struct ExBasicTypeEnum<'ctx>(inkwell::types::BasicTypeEnum<'ctx>);

/// A type of the backend as the type of a parameter. Nothing is known of
/// what it holds.
#[verifier::external_type_specification]
#[verifier::external_body]
pub struct ExBasicMetadataTypeEnum<'ctx>(inkwell::types::BasicMetadataTypeEnum<'ctx>);

/// An integer value of the backend. Nothing is known of what it holds.
#[verifier::external_type_specification]
#[verifier::external_body]
pub struct ExIntValue<'ctx>(inkwell::values::IntValue<'ctx>);

/// A pointer value of the backend. Nothing is known of what it holds.
#[verifier::external_type_specification]
#[verifier::external_body]
pub struct ExPointerValue<'ctx>(inkwell::values::PointerValue<'ctx>);

/// A function of the backend. Nothing is known of what it holds.
#[verifier::external_type_specification]
#[verifier::external_body]
pub struct ExFunctionValue<'ctx>(inkwell::values::FunctionValue<'ctx>);

/// A global value of the backend. Nothing is known of what it holds.
#[verifier::external_type_specification]
#[verifier::external_body]
pub struct ExGlobalValue<'ctx>(inkwell::values::GlobalValue<'ctx>);

/// The site of a call in the backend. Nothing is known of what it holds.
#[verifier::external_type_specification]
#[verifier::external_body]
pub struct ExCallSiteValue<'ctx>(inkwell::values::CallSiteValue<'ctx>);

/// A value of the backend of one of its basic kinds. Nothing is known of
/// what it holds.
#[verifier::external_type_specification]
#[verifier::external_body]
pub struct ExBasicValueEnum<'ctx>(inkwell::values::BasicValueEnum<'ctx>);

/// A value of the backend as the argument of a call. Nothing is known of
/// what it holds.
#[verifier::external_type_specification]
#[verifier::external_body]
pub struct ExBasicMetadataValueEnum<'ctx>(inkwell::values::BasicMetadataValueEnum<'ctx>);

/// A way to compare two integers in the backend. Nothing is known of
/// what it holds.
#[verifier::external_type_specification]
#[verifier::external_body]
pub struct ExIntPredicate(inkwell::IntPredicate);

/// A comparison of two words as signed numbers.
#[derive(Clone, Copy, PartialEq, Eq, Structural)]
pub(crate) enum Comparison {
    Less,
    LessOrEqual,
    Greater,
    GreaterOrEqual,
    Equal,
    NotEqual,
}

/// `Context::create_builder`: a builder that is not positioned yet.
#[verifier::external_body]
pub(crate) fn new_builder<'ctx>(ctx: &'ctx Context) -> Builder<'ctx> {
    ctx.create_builder()
}

/// `Context::i8_type`: the 8-bit integer type.
#[verifier::external_body]
pub(crate) fn byte_type<'ctx>(ctx: &'ctx Context) -> IntType<'ctx> {
    ctx.i8_type()
}

/// `Context::i32_type`: the 32-bit integer type.
#[verifier::external_body]
pub(crate) fn int_type<'ctx>(ctx: &'ctx Context) -> IntType<'ctx> {
    ctx.i32_type()
}

/// `Context::i64_type`: the 64-bit integer type.
#[verifier::external_body]
pub(crate) fn word_type<'ctx>(ctx: &'ctx Context) -> IntType<'ctx> {
    ctx.i64_type()
}

/// `IntType::ptr_type`: the type of a pointer to an integer, in the
/// default address space.
#[verifier::external_body]
pub(crate) fn pointer_to<'ctx>(t: IntType<'ctx>) -> PointerType<'ctx> {
    t.ptr_type(AddressSpace::default())
}

/// `IntType::const_int`: a constant of an integer type from the low bits
/// of `v`.
#[verifier::external_body]
pub(crate) fn const_int<'ctx>(t: IntType<'ctx>, v: u64) -> IntValue<'ctx> {
    t.const_int(v, false)
}

/// `IntType::fn_type`: the type of a function that returns an integer.
/// The bindings count the parameters in 32 bits.
#[verifier::external_body]
pub(crate) fn int_fn_type<'ctx>(
    t: IntType<'ctx>,
    params: &Vec<BasicMetadataTypeEnum<'ctx>>,
    variadic: bool,
) -> FunctionType<'ctx>
    requires
        params@.len() <= u32::MAX,
{
    t.fn_type(params, variadic)
}

/// `PointerType::fn_type`: the type of a function that returns a
/// pointer. The bindings count the parameters in 32 bits.
#[verifier::external_body]
pub(crate) fn pointer_fn_type<'ctx>(
    t: PointerType<'ctx>,
    params: &Vec<BasicMetadataTypeEnum<'ctx>>,
    variadic: bool,
) -> FunctionType<'ctx>
    requires
        params@.len() <= u32::MAX,
{
    t.fn_type(params, variadic)
}

/// `Module::add_function`: a new function of the module, with no linkage
/// given.
#[verifier::external_body]
pub(crate) fn add_function<'ctx>(
    module: &Module<'ctx>,
    name: &str,
    t: FunctionType<'ctx>,
) -> FunctionValue<'ctx> {
    module.add_function(name, t, None)
}

/// `Context::append_basic_block`: a new block at the end of a function.
#[verifier::external_body]
pub(crate) fn append_block<'ctx>(ctx: &'ctx Context, f: FunctionValue<'ctx>) -> BasicBlock<'ctx> {
    ctx.append_basic_block(f, "bb")
}

/// `Builder::position_at_end`: what is built next goes to the end of the
/// block.
#[verifier::external_body]
pub(crate) fn position_at_end<'ctx>(b: &Builder<'ctx>, block: BasicBlock<'ctx>) {
    b.position_at_end(block)
}

/// `FunctionValue::get_nth_param`: the parameter at a place, if the
/// function has one there. The bindings add one to the place in 32 bits.
#[verifier::external_body]
pub(crate) fn nth_param<'ctx>(f: FunctionValue<'ctx>, n: u32) -> Option<BasicValueEnum<'ctx>>
    requires
        n < u32::MAX,
{
    f.get_nth_param(n)
}

/// `BasicMetadataTypeEnum::from` an integer type: the type as the type
/// of a parameter.
#[verifier::external_body]
pub(crate) fn int_param_type<'ctx>(t: IntType<'ctx>) -> BasicMetadataTypeEnum<'ctx> {
    BasicMetadataTypeEnum::from(t)
}

/// `BasicMetadataTypeEnum::from` a pointer type: the type as the type of
/// a parameter.
#[verifier::external_body]
pub(crate) fn pointer_param_type<'ctx>(t: PointerType<'ctx>) -> BasicMetadataTypeEnum<'ctx> {
    BasicMetadataTypeEnum::from(t)
}

/// `BasicTypeEnum::from` an integer type: the type as the type of a
/// stack slot.
#[verifier::external_body]
pub(crate) fn int_slot_type<'ctx>(t: IntType<'ctx>) -> BasicTypeEnum<'ctx> {
    BasicTypeEnum::from(t)
}

/// `BasicTypeEnum::from` a pointer type: the type as the type of a stack
/// slot.
#[verifier::external_body]
pub(crate) fn pointer_slot_type<'ctx>(t: PointerType<'ctx>) -> BasicTypeEnum<'ctx> {
    BasicTypeEnum::from(t)
}

/// `BasicValueEnum::from` an integer: the integer as a value.
#[verifier::external_body]
pub(crate) fn int_value<'ctx>(v: IntValue<'ctx>) -> BasicValueEnum<'ctx> {
    BasicValueEnum::from(v)
}

/// `BasicValueEnum::from` a pointer: the pointer as a value.
#[verifier::external_body]
pub(crate) fn pointer_value<'ctx>(p: PointerValue<'ctx>) -> BasicValueEnum<'ctx> {
    BasicValueEnum::from(p)
}

/// `BasicMetadataValueEnum::from` an integer: the integer as the
/// argument of a call.
#[verifier::external_body]
pub(crate) fn int_arg<'ctx>(v: IntValue<'ctx>) -> BasicMetadataValueEnum<'ctx> {
    BasicMetadataValueEnum::from(v)
}

/// `BasicMetadataValueEnum::from` a pointer: the pointer as the argument
/// of a call.
#[verifier::external_body]
pub(crate) fn pointer_arg<'ctx>(p: PointerValue<'ctx>) -> BasicMetadataValueEnum<'ctx> {
    BasicMetadataValueEnum::from(p)
}

/// The integer in a value, if it is one.
#[verifier::external_body]
pub(crate) fn as_int<'ctx>(v: BasicValueEnum<'ctx>) -> Option<IntValue<'ctx>> {
    match v {
        BasicValueEnum::IntValue(i) => Some(i),
        _ => None,
    }
}

/// The pointer in a value, if it is one.
#[verifier::external_body]
pub(crate) fn as_pointer<'ctx>(v: BasicValueEnum<'ctx>) -> Option<PointerValue<'ctx>> {
    match v {
        BasicValueEnum::PointerValue(p) => Some(p),
        _ => None,
    }
}

/// The backend's way to compare for a comparison of signed words.
#[verifier::external_body]
pub(crate) fn predicate(c: Comparison) -> IntPredicate {
    match c {
        Comparison::Less => IntPredicate::SLT,
        Comparison::LessOrEqual => IntPredicate::SLE,
        Comparison::Greater => IntPredicate::SGT,
        Comparison::GreaterOrEqual => IntPredicate::SGE,
        Comparison::Equal => IntPredicate::EQ,
        Comparison::NotEqual => IntPredicate::NE,
    }
}

/// `Builder::build_alloca`: a stack slot of a type.
#[verifier::external_body]
pub(crate) fn alloca<'ctx>(b: &Builder<'ctx>, t: BasicTypeEnum<'ctx>) -> Result<
    PointerValue<'ctx>,
    BuilderError,
> {
    b.build_alloca(t, "slot")
}

/// `Builder::build_array_alloca`: a stack slot for `count` values of a
/// type.
#[verifier::external_body]
pub(crate) fn array_alloca<'ctx>(
    b: &Builder<'ctx>,
    t: BasicTypeEnum<'ctx>,
    count: IntValue<'ctx>,
) -> Result<PointerValue<'ctx>, BuilderError> {
    b.build_array_alloca(t, count, "array")
}

/// `Builder::build_load`.
#[verifier::external_body]
pub(crate) fn load<'ctx>(b: &Builder<'ctx>, p: PointerValue<'ctx>) -> Result<
    BasicValueEnum<'ctx>,
    BuilderError,
> {
    b.build_load(p, "load")
}

/// `Builder::build_store`.
#[verifier::external_body]
pub(crate) fn store<'ctx>(b: &Builder<'ctx>, p: PointerValue<'ctx>, v: BasicValueEnum<'ctx>) -> Result<
    (),
    BuilderError,
> {
    b.build_store(p, v)?;
    Ok(())
}

/// `Builder::build_int_add`.
#[verifier::external_body]
pub(crate) fn int_add<'ctx>(b: &Builder<'ctx>, l: IntValue<'ctx>, r: IntValue<'ctx>) -> Result<
    IntValue<'ctx>,
    BuilderError,
> {
    b.build_int_add(l, r, "addtmp")
}

/// `Builder::build_int_sub`.
#[verifier::external_body]
pub(crate) fn int_sub<'ctx>(b: &Builder<'ctx>, l: IntValue<'ctx>, r: IntValue<'ctx>) -> Result<
    IntValue<'ctx>,
    BuilderError,
> {
    b.build_int_sub(l, r, "subtmp")
}

/// `Builder::build_int_mul`.
#[verifier::external_body]
pub(crate) fn int_mul<'ctx>(b: &Builder<'ctx>, l: IntValue<'ctx>, r: IntValue<'ctx>) -> Result<
    IntValue<'ctx>,
    BuilderError,
> {
    b.build_int_mul(l, r, "multmp")
}

/// `Builder::build_int_signed_div`.
#[verifier::external_body]
pub(crate) fn int_div<'ctx>(b: &Builder<'ctx>, l: IntValue<'ctx>, r: IntValue<'ctx>) -> Result<
    IntValue<'ctx>,
    BuilderError,
> {
    b.build_int_signed_div(l, r, "divtmp")
}

/// `Builder::build_int_signed_rem`.
#[verifier::external_body]
pub(crate) fn int_rem<'ctx>(b: &Builder<'ctx>, l: IntValue<'ctx>, r: IntValue<'ctx>) -> Result<
    IntValue<'ctx>,
    BuilderError,
> {
    b.build_int_signed_rem(l, r, "remtmp")
}

/// `Builder::build_int_compare`: a one-bit value.
#[verifier::external_body]
pub(crate) fn int_compare<'ctx>(
    b: &Builder<'ctx>,
    how: IntPredicate,
    l: IntValue<'ctx>,
    r: IntValue<'ctx>,
) -> Result<IntValue<'ctx>, BuilderError> {
    b.build_int_compare(how, l, r, "cmptmp")
}

/// `Builder::build_int_z_extend`: an integer widened with zeros to a
/// type.
#[verifier::external_body]
pub(crate) fn zero_extend<'ctx>(b: &Builder<'ctx>, v: IntValue<'ctx>, t: IntType<'ctx>) -> Result<
    IntValue<'ctx>,
    BuilderError,
> {
    b.build_int_z_extend(v, t, "bool2int")
}

/// `Builder::build_ptr_to_int`: a pointer as an integer of a type.
#[verifier::external_body]
pub(crate) fn pointer_to_int<'ctx>(
    b: &Builder<'ctx>,
    p: PointerValue<'ctx>,
    t: IntType<'ctx>,
) -> Result<IntValue<'ctx>, BuilderError> {
    b.build_ptr_to_int(p, t, "ptr_to_int")
}

/// `Builder::build_int_to_ptr`: an integer as a pointer of a type.
#[verifier::external_body]
pub(crate) fn int_to_pointer<'ctx>(
    b: &Builder<'ctx>,
    v: IntValue<'ctx>,
    t: PointerType<'ctx>,
) -> Result<PointerValue<'ctx>, BuilderError> {
    b.build_int_to_ptr(v, t, "int_to_ptr")
}

/// `Builder::build_call`. The bindings count the arguments in 32 bits.
#[verifier::external_body]
pub(crate) fn call<'ctx>(
    b: &Builder<'ctx>,
    f: FunctionValue<'ctx>,
    args: &Vec<BasicMetadataValueEnum<'ctx>>,
) -> Result<CallSiteValue<'ctx>, BuilderError>
    requires
        args@.len() <= u32::MAX,
{
    b.build_call(f, args, "calltmp")
}

/// `CallSiteValue::try_as_basic_value`: what a call yields, if it yields
/// a value.
#[verifier::external_body]
pub(crate) fn call_value<'ctx>(c: CallSiteValue<'ctx>) -> Option<BasicValueEnum<'ctx>> {
    c.try_as_basic_value().left()
}

/// `Builder::build_global_string_ptr`: a constant text, which ends at its
/// first NUL character if it has one.
#[verifier::external_body]
pub(crate) fn global_text<'ctx>(b: &Builder<'ctx>, text: &str) -> Result<
    GlobalValue<'ctx>,
    BuilderError,
> {
    b.build_global_string_ptr(text, "text")
}

/// `GlobalValue::as_pointer_value`: the address of a global value.
#[verifier::external_body]
pub(crate) fn global_address<'ctx>(g: GlobalValue<'ctx>) -> PointerValue<'ctx> {
    g.as_pointer_value()
}

/// `Builder::build_return` of a value.
#[verifier::external_body]
pub(crate) fn build_return<'ctx>(b: &Builder<'ctx>, v: BasicValueEnum<'ctx>) -> Result<
    (),
    BuilderError,
> {
    b.build_return(Some(&v))?;
    Ok(())
}

/// `Builder::build_unconditional_branch`.
#[verifier::external_body]
pub(crate) fn jump<'ctx>(b: &Builder<'ctx>, to: BasicBlock<'ctx>) -> Result<(), BuilderError> {
    b.build_unconditional_branch(to)?;
    Ok(())
}

/// `Builder::build_conditional_branch` on a one-bit value.
#[verifier::external_body]
pub(crate) fn branch<'ctx>(
    b: &Builder<'ctx>,
    bit: IntValue<'ctx>,
    if_true: BasicBlock<'ctx>,
    if_false: BasicBlock<'ctx>,
) -> Result<(), BuilderError> {
    b.build_conditional_branch(bit, if_true, if_false)?;
    Ok(())
}

/// The text of a builder error, as its `Debug` form gives it.
#[verifier::external_body]
pub(crate) fn builder_error_text(e: &BuilderError) -> String {
    format!("{:?}", e)
}

} // verus!
