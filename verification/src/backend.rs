//! The LLVM backend surface the code generator relies on: the opaque
//! types it holds and one trusted wrapper per inkwell call it makes.
//! Every float value this crate produces and consumes is double-typed;
//! the wrappers below create only doubles, double-typed functions and
//! blocks inside them.

use vstd::prelude::*;

use inkwell::basic_block::BasicBlock;
use inkwell::builder::Builder;
use inkwell::context::Context;
use inkwell::module::Module;
use inkwell::values::{FloatValue, FunctionValue, IntValue, PhiValue};

verus! {

// ---------------------------------------------------------------------------
// The LLVM backend, declared: the opaque types the code generator holds
// ---------------------------------------------------------------------------

#[verifier::external_type_specification]
#[verifier::external_body]
pub struct ExContext(Context);

#[verifier::external_type_specification]
#[verifier::external_body]
pub struct ExBuilder<'ctx>(Builder<'ctx>);

#[verifier::external_type_specification]
#[verifier::external_body]
pub struct ExModule<'ctx>(Module<'ctx>);

#[verifier::external_type_specification]
#[verifier::external_body]
pub struct ExFunctionValue<'ctx>(FunctionValue<'ctx>);

#[verifier::external_type_specification]
#[verifier::external_body]
pub struct ExFloatValue<'ctx>(FloatValue<'ctx>);

#[verifier::external_type_specification]
#[verifier::external_body]
pub struct ExIntValue<'ctx>(IntValue<'ctx>);

#[verifier::external_type_specification]
#[verifier::external_body]
pub struct ExBasicBlock<'ctx>(BasicBlock<'ctx>);

#[verifier::external_type_specification]
#[verifier::external_body]
pub struct ExPhiValue<'ctx>(PhiValue<'ctx>);

/// Whether an instruction builder has an insertion point at a basic
/// block. A builder starts without one, `position_at_end` gives it one,
/// `clear_position` takes it away; every `build_*` call demands one, so
/// no instruction is ever built without a place to land.
pub uninterp spec fn builder_ready(b: Builder) -> bool;

/// Whether `v` is the double constant that LLVM parsed from the given
/// literal text. Only `const_float_from_text` introduces this fact.
pub uninterp spec fn float_is_const(v: FloatValue, text: Seq<char>) -> bool;

/// Whether `v` is the result of a float addition of `a` and `b`. Only
/// `build_fadd` introduces this fact.
pub uninterp spec fn float_add_of(v: FloatValue, a: FloatValue, b: FloatValue) -> bool;

/// Whether `v` is the result of a float subtraction of `b` from `a`. Only
/// `build_fsub` introduces this fact.
pub uninterp spec fn float_sub_of(v: FloatValue, a: FloatValue, b: FloatValue) -> bool;

/// Whether `v` is the result of a float multiplication of `a` and `b`.
/// Only `build_fmul` introduces this fact.
pub uninterp spec fn float_mul_of(v: FloatValue, a: FloatValue, b: FloatValue) -> bool;

/// Whether `v` is the boolean result of an unsigned-less-than float
/// comparison of `a` and `b`. Only `build_fcmp_ult` introduces this fact.
pub uninterp spec fn cmp_ult_of(v: IntValue, a: FloatValue, b: FloatValue) -> bool;

/// Whether `v` is the boolean result of an ordered-not-equal float
/// comparison of `a` and `b`. Only `build_fcmp_one` introduces this fact.
pub uninterp spec fn cmp_one_of(v: IntValue, a: FloatValue, b: FloatValue) -> bool;

/// Whether `v` is the float conversion of the boolean `i`. Only
/// `build_uitofp` introduces this fact.
pub uninterp spec fn float_of_bool(v: FloatValue, i: IntValue) -> bool;

/// Whether `p` is a phi node of the double type. Only `build_phi_double`
/// introduces this fact.
pub uninterp spec fn phi_is_double(p: PhiValue) -> bool;

/// Whether `v` is the float view of the phi node `p`. Only `phi_as_float`
/// introduces this fact.
pub uninterp spec fn phi_float(v: FloatValue, p: PhiValue) -> bool;

/// Whether the phi `p` was wired with exactly the incoming pairs
/// `(v1, b1)` and `(v2, b2)`. Only `phi_add_two_incoming` introduces this
/// fact.
pub uninterp spec fn phi_incoming(
    p: PhiValue,
    v1: FloatValue,
    b1: BasicBlock,
    v2: FloatValue,
    b2: BasicBlock,
) -> bool;

/// Whether `v` is the result of a call instruction to `f` with exactly
/// the argument values `args`, in order. Only `build_call` introduces
/// this fact.
pub uninterp spec fn call_of(v: FloatValue, f: FunctionValue, args: Seq<FloatValue>) -> bool;

/// Whether the builder, in this state, has built a return of the value
/// `v`. Only `build_ret` introduces this fact.
pub uninterp spec fn ret_emitted(b: Builder, v: FloatValue) -> bool;

/// The parameter value of `f` at index `i`: `get_nth_param` always hands
/// out the same value for the same function and index.
pub uninterp spec fn param_of(f: FunctionValue, i: nat) -> FloatValue;

/// Whether `f` is an LLVM function with exactly `n` double-typed
/// parameters and a double return type (so `n` fits in the 32-bit
/// parameter count LLVM uses). Only `declare_float_function` introduces
/// this fact.
pub uninterp spec fn fn_sig_ok(f: FunctionValue, n: nat) -> bool;

// ---------------------------------------------------------------------------
// The calls the code generator makes, each behind its own trusted wrapper
// ---------------------------------------------------------------------------

/// Relies on Context::create_builder: a fresh builder has no position.
#[verifier::external_body]
pub(crate) fn create_builder<'ctx>(ctx: &'ctx Context) -> (b: Builder<'ctx>)
    ensures
        !builder_ready(b),
{
    ctx.create_builder()
}

/// Relies on Builder::position_at_end: the builder is positioned after it.
#[verifier::external_body]
pub(crate) fn position_at_end<'ctx>(b: &mut Builder<'ctx>, block: BasicBlock<'ctx>)
    ensures
        builder_ready(*final(b)),
{
    b.position_at_end(block);
}

/// Relies on Builder::clear_insertion_position: the builder has no
/// insertion point afterwards, until it is positioned again.
#[verifier::external_body]
pub(crate) fn clear_position<'ctx>(b: &mut Builder<'ctx>)
    ensures
        !builder_ready(*final(b)),
{
    b.clear_insertion_position();
}

/// Relies on FloatType::const_float_from_string: a double constant parsed
/// from its text, needing no builder position.
#[verifier::external_body]
pub(crate) fn const_float_from_text<'ctx>(ctx: &'ctx Context, text: &str) -> (v: FloatValue<'ctx>)
    ensures
        float_is_const(v, text@),
{
    ctx.f64_type().const_float_from_string(text)
}

/// Relies on Builder::build_float_add, which only fails on an unpositioned
/// builder.
#[verifier::external_body]
pub(crate) fn build_fadd<'ctx>(
    b: &Builder<'ctx>,
    lhs: FloatValue<'ctx>,
    rhs: FloatValue<'ctx>,
    name: &str,
) -> (v: FloatValue<'ctx>)
    requires
        builder_ready(*b),
    ensures
        float_add_of(v, lhs, rhs),
{
    b.build_float_add(lhs, rhs, name).unwrap()
}

/// Relies on Builder::build_float_sub, which only fails on an unpositioned
/// builder.
#[verifier::external_body]
pub(crate) fn build_fsub<'ctx>(
    b: &Builder<'ctx>,
    lhs: FloatValue<'ctx>,
    rhs: FloatValue<'ctx>,
    name: &str,
) -> (v: FloatValue<'ctx>)
    requires
        builder_ready(*b),
    ensures
        float_sub_of(v, lhs, rhs),
{
    b.build_float_sub(lhs, rhs, name).unwrap()
}

/// Relies on Builder::build_float_mul, which only fails on an unpositioned
/// builder.
#[verifier::external_body]
pub(crate) fn build_fmul<'ctx>(
    b: &Builder<'ctx>,
    lhs: FloatValue<'ctx>,
    rhs: FloatValue<'ctx>,
    name: &str,
) -> (v: FloatValue<'ctx>)
    requires
        builder_ready(*b),
    ensures
        float_mul_of(v, lhs, rhs),
{
    b.build_float_mul(lhs, rhs, name).unwrap()
}

/// Relies on Builder::build_float_compare with the unsigned-less-than
/// predicate, which only fails on an unpositioned builder.
#[verifier::external_body]
pub(crate) fn build_fcmp_ult<'ctx>(
    b: &Builder<'ctx>,
    lhs: FloatValue<'ctx>,
    rhs: FloatValue<'ctx>,
    name: &str,
) -> (v: IntValue<'ctx>)
    requires
        builder_ready(*b),
    ensures
        cmp_ult_of(v, lhs, rhs),
{
    b.build_float_compare(inkwell::FloatPredicate::ULT, lhs, rhs, name).unwrap()
}

/// Relies on Builder::build_float_compare with the ordered-not-equal
/// predicate, which only fails on an unpositioned builder.
#[verifier::external_body]
pub(crate) fn build_fcmp_one<'ctx>(
    b: &Builder<'ctx>,
    lhs: FloatValue<'ctx>,
    rhs: FloatValue<'ctx>,
    name: &str,
) -> (v: IntValue<'ctx>)
    requires
        builder_ready(*b),
    ensures
        cmp_one_of(v, lhs, rhs),
{
    b.build_float_compare(inkwell::FloatPredicate::ONE, lhs, rhs, name).unwrap()
}

/// Relies on Builder::build_unsigned_int_to_float into the double type,
/// which only fails on an unpositioned builder.
#[verifier::external_body]
pub(crate) fn build_uitofp<'ctx>(
    b: &Builder<'ctx>,
    ctx: &'ctx Context,
    v: IntValue<'ctx>,
    name: &str,
) -> (r: FloatValue<'ctx>)
    requires
        builder_ready(*b),
    ensures
        float_of_bool(r, v),
{
    b.build_unsigned_int_to_float(v, ctx.f64_type(), name).unwrap()
}

/// Relies on Module::add_function with a type from FloatType::fn_type: the
/// new function takes `arity` doubles and returns a double. The caller
/// keeps names unique; on a name collision LLVM would silently rename.
#[verifier::external_body]
pub(crate) fn declare_float_function<'ctx>(
    m: &mut Module<'ctx>,
    ctx: &'ctx Context,
    name: &str,
    arity: usize,
) -> (f: FunctionValue<'ctx>)
    requires
        arity <= 0xffff_ffff,
    ensures
        fn_sig_ok(f, arity as nat),
{
    let double = ctx.f64_type();
    let param_types: Vec<inkwell::types::BasicMetadataTypeEnum> =
        (0..arity).map(|_| double.into()).collect();
    m.add_function(name, double.fn_type(&param_types, false), Some(inkwell::module::Linkage::External))
}

/// Relies on FunctionValue::get_nth_param: a function with more than `i`
/// double parameters has a double value at index `i`, and asking again
/// yields the same value.
#[verifier::external_body]
pub(crate) fn nth_param<'ctx>(f: FunctionValue<'ctx>, i: usize) -> (r: FloatValue<'ctx>)
    requires
        exists|n: nat| fn_sig_ok(f, n) && (i as nat) < n,
    ensures
        r == param_of(f, i as nat),
{
    f.get_nth_param(i as u32).unwrap().into_float_value()
}

/// Relies on FloatValue::set_name: names the value for readable IR.
#[verifier::external_body]
pub(crate) fn set_param_name<'ctx>(v: &FloatValue<'ctx>, name: &str) {
    v.set_name(name);
}

/// Relies on Builder::build_call and CallSiteValue::try_as_basic_value: a
/// call to a double-returning function with the right number of arguments
/// yields a double; it only fails on an unpositioned builder.
#[verifier::external_body]
pub(crate) fn build_call<'ctx>(
    b: &Builder<'ctx>,
    f: FunctionValue<'ctx>,
    args: &Vec<FloatValue<'ctx>>,
    name: &str,
) -> (r: FloatValue<'ctx>)
    requires
        builder_ready(*b),
        fn_sig_ok(f, args@.len() as nat),
    ensures
        call_of(r, f, args@),
{
    let meta: Vec<inkwell::values::BasicMetadataValueEnum> =
        args.iter().map(|v| (*v).into()).collect();
    b.build_call(f, &meta, name).unwrap().try_as_basic_value().left().unwrap().into_float_value()
}

/// Relies on Context::append_basic_block: adds one block at the end of a
/// function.
#[verifier::external_body]
pub(crate) fn append_basic_block<'ctx>(
    ctx: &'ctx Context,
    f: FunctionValue<'ctx>,
    name: &str,
) -> BasicBlock<'ctx> {
    ctx.append_basic_block(f, name)
}

/// Relies on Builder::build_unconditional_branch, which only fails on an
/// unpositioned builder.
#[verifier::external_body]
pub(crate) fn build_br<'ctx>(b: &Builder<'ctx>, dest: BasicBlock<'ctx>)
    requires
        builder_ready(*b),
{
    b.build_unconditional_branch(dest).unwrap();
}

/// Relies on Builder::build_conditional_branch, which only fails on an
/// unpositioned builder.
#[verifier::external_body]
pub(crate) fn build_cond_br<'ctx>(
    b: &Builder<'ctx>,
    cond: IntValue<'ctx>,
    then_block: BasicBlock<'ctx>,
    else_block: BasicBlock<'ctx>,
)
    requires
        builder_ready(*b),
{
    b.build_conditional_branch(cond, then_block, else_block).unwrap();
}

/// Relies on Builder::get_insert_block: a positioned builder has a block.
#[verifier::external_body]
pub(crate) fn get_insert_block<'ctx>(b: &Builder<'ctx>) -> BasicBlock<'ctx>
    requires
        builder_ready(*b),
{
    b.get_insert_block().unwrap()
}

/// Relies on Builder::build_phi at the double type, which only fails on an
/// unpositioned builder.
#[verifier::external_body]
pub(crate) fn build_phi_double<'ctx>(b: &Builder<'ctx>, ctx: &'ctx Context, name: &str) -> (p: PhiValue<
    'ctx,
>)
    requires
        builder_ready(*b),
    ensures
        phi_is_double(p),
{
    b.build_phi(ctx.f64_type(), name).unwrap()
}

/// Relies on PhiValue::add_incoming: records the merged value for each of
/// the two predecessor blocks, and hands the phi back so the wiring can
/// be spoken of.
#[verifier::external_body]
pub(crate) fn phi_add_two_incoming<'ctx>(
    phi: PhiValue<'ctx>,
    v1: FloatValue<'ctx>,
    b1: BasicBlock<'ctx>,
    v2: FloatValue<'ctx>,
    b2: BasicBlock<'ctx>,
) -> (r: PhiValue<'ctx>)
    requires
        phi_is_double(phi),
    ensures
        r == phi,
        phi_incoming(r, v1, b1, v2, b2),
{
    phi.add_incoming(&[(&v1, b1), (&v2, b2)]);
    phi
}

/// Relies on PhiValue::as_basic_value: a phi over doubles is a double,
/// so the conversion cannot fail for one.
#[verifier::external_body]
pub(crate) fn phi_as_float<'ctx>(phi: PhiValue<'ctx>) -> (r: FloatValue<'ctx>)
    requires
        phi_is_double(phi),
    ensures
        phi_float(r, phi),
{
    phi.as_basic_value().into_float_value()
}

/// Relies on Builder::build_return, which only fails on an unpositioned
/// builder; the builder keeps its position and now carries a return of
/// the given value.
#[verifier::external_body]
pub(crate) fn build_ret<'ctx>(b: &mut Builder<'ctx>, v: FloatValue<'ctx>)
    requires
        builder_ready(*old(b)),
    ensures
        builder_ready(*final(b)),
        ret_emitted(*final(b), v),
{
    b.build_return(Some(&v)).unwrap();
}

/// Relies on FunctionValue::verify: whether LLVM accepts the function as
/// well formed; nothing is assumed of the answer.
#[verifier::external_body]
pub(crate) fn fn_verify<'ctx>(f: FunctionValue<'ctx>) -> bool {
    f.verify(true)
}

/// Relies on FunctionValue::get_basic_blocks: the blocks of a function.
#[verifier::external_body]
pub(crate) fn fn_blocks<'ctx>(f: FunctionValue<'ctx>) -> Vec<BasicBlock<'ctx>> {
    f.get_basic_blocks()
}

/// Relies on BasicBlock::remove_from_function: detaches the block, leaving
/// the function as a plain declaration once all its blocks are removed.
#[verifier::external_body]
pub(crate) fn remove_block<'ctx>(block: BasicBlock<'ctx>) {
    let _ = block.remove_from_function();
}

} // verus!
