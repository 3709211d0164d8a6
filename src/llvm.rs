//! Lowering the generated IR to LLVM through inkwell, and printing it.

use vstd::prelude::*;
use inkwell::basic_block::BasicBlock;
use inkwell::builder::{Builder, BuilderError};
use inkwell::context::Context;
use inkwell::module::Module;
use inkwell::types::{FunctionType, IntType};
use inkwell::values::{BasicValueEnum, FunctionValue, IntValue, PointerValue};
use crate::ast::BinOp;
use crate::codegen::{
    allocated, before, has_value, instr_ready, ir_valid, operand_ready, Compiler, Instr, Operand,
};

verus! {

/// inkwell's `Context`, which owns the LLVM types and values made in it; carried opaquely.
#[verifier::external_type_specification]
#[verifier::external_body]
pub struct ExContext(Context);

/// inkwell's `Module`, the unit that is printed; carried opaquely.
#[verifier::external_type_specification]
#[verifier::external_body]
pub struct ExModule<'ctx>(Module<'ctx>);

/// inkwell's `Builder`, which appends instructions at its position; carried opaquely.
#[verifier::external_type_specification]
#[verifier::external_body]
pub struct ExBuilder<'ctx>(Builder<'ctx>);

/// inkwell's `IntType`; carried opaquely.
#[verifier::external_type_specification]
#[verifier::external_body]
pub struct ExIntType<'ctx>(IntType<'ctx>);

/// inkwell's `FunctionType`; carried opaquely.
#[verifier::external_type_specification]
#[verifier::external_body]
pub struct ExFunctionType<'ctx>(FunctionType<'ctx>);

/// inkwell's `FunctionValue`; carried opaquely.
#[verifier::external_type_specification]
#[verifier::external_body]
pub struct ExFunctionValue<'ctx>(FunctionValue<'ctx>);

/// inkwell's `BasicBlock`; carried opaquely.
#[verifier::external_type_specification]
#[verifier::external_body]
pub struct ExBasicBlock<'ctx>(BasicBlock<'ctx>);

/// inkwell's `IntValue`, an LLVM integer value; carried opaquely.
#[verifier::external_type_specification]
#[verifier::external_body]
pub struct ExIntValue<'ctx>(IntValue<'ctx>);

/// inkwell's `PointerValue`, the address of a variable slot; carried opaquely.
#[verifier::external_type_specification]
#[verifier::external_body]
pub struct ExPointerValue<'ctx>(PointerValue<'ctx>);

/// inkwell's `BuilderError`, returned when the builder refuses an instruction.
#[verifier::external_type_specification]
#[verifier::external_body]
pub struct ExBuilderError(BuilderError);

/// An integer comparison, signed where it orders.
#[derive(Clone, Copy, PartialEq, Eq, Structural, Debug)]
pub enum Predicate {
    Eq,
    Ne,
    Slt,
    Sgt,
    Sle,
    Sge,
}

/// Why the IR could not be handed to LLVM.
#[derive(Clone, Copy, PartialEq, Eq, Structural, Debug)]
pub enum LowerError {
    /// An operand names an instruction that has no value or comes later.
    MissingValue,
    /// A variable slot is used before its `Alloca`, or does not exist.
    MissingSlot,
    /// An instruction carries an operator that no instruction computes.
    InvalidOperator,
}

/// The builder has an insertion point: `Builder::position_at_end` sets one,
/// and inkwell's `build_*` methods fail only without one.
pub uninterp spec fn positioned(b: Builder) -> bool;

/// The integer type is `i32`.
pub uninterp spec fn is_i32(t: IntType) -> bool;

/// The pointer addresses a stack slot of type `i32`, so a load through it
/// gives an integer.
pub uninterp spec fn holds_i32(p: PointerValue) -> bool;

/// Relies on inkwell's `Context::create`: a fresh LLVM context.
#[verifier::external_body]
fn create_context() -> Context {
    Context::create()
}

/// Relies on inkwell's `Context::create_module`: an empty module named `name`.
#[verifier::external_body]
fn create_module<'ctx>(context: &'ctx Context, name: &str) -> Module<'ctx> {
    context.create_module(name)
}

/// Relies on inkwell's `Context::create_builder`: a builder with no position.
#[verifier::external_body]
fn create_builder<'ctx>(context: &'ctx Context) -> Builder<'ctx> {
    context.create_builder()
}

/// Relies on inkwell's `Context::i32_type`.
#[verifier::external_body]
fn i32_type<'ctx>(context: &'ctx Context) -> (r: IntType<'ctx>)
    ensures
        is_i32(r),
{
    context.i32_type()
}

/// Relies on inkwell's `IntType::fn_type`: a function type without parameters.
#[verifier::external_body]
fn nullary_fn_type<'ctx>(ret: IntType<'ctx>) -> FunctionType<'ctx> {
    ret.fn_type(&[], false)
}

/// Relies on inkwell's `Module::add_function`, with default linkage.
#[verifier::external_body]
fn add_function<'ctx>(module: &Module<'ctx>, name: &str, ty: FunctionType<'ctx>) -> FunctionValue<'ctx> {
    module.add_function(name, ty, None)
}

/// Relies on inkwell's `Context::append_basic_block`.
#[verifier::external_body]
fn append_basic_block<'ctx>(
    context: &'ctx Context,
    function: FunctionValue<'ctx>,
    name: &str,
) -> BasicBlock<'ctx> {
    context.append_basic_block(function, name)
}

/// Relies on inkwell's `Builder::position_at_end`.
#[verifier::external_body]
fn position_at_end<'ctx>(builder: &mut Builder<'ctx>, block: BasicBlock<'ctx>)
    ensures
        positioned(*final(builder)),
{
    builder.position_at_end(block)
}

/// Relies on inkwell's `IntType::const_int`, sign-extending the value.
#[verifier::external_body]
fn const_int<'ctx>(ty: IntType<'ctx>, value: i32) -> IntValue<'ctx> {
    ty.const_int(value as i64 as u64, true)
}

/// Relies on inkwell's `Builder::build_int_add`, which fails only without a position.
#[verifier::external_body]
fn build_int_add<'ctx>(b: &Builder<'ctx>, l: IntValue<'ctx>, r: IntValue<'ctx>) -> (out: Result<
    IntValue<'ctx>,
    BuilderError,
>)
    requires
        positioned(*b),
    ensures
        out is Ok,
{
    b.build_int_add(l, r, "sum")
}

/// Relies on inkwell's `Builder::build_int_sub`, which fails only without a position.
#[verifier::external_body]
fn build_int_sub<'ctx>(b: &Builder<'ctx>, l: IntValue<'ctx>, r: IntValue<'ctx>) -> (out: Result<
    IntValue<'ctx>,
    BuilderError,
>)
    requires
        positioned(*b),
    ensures
        out is Ok,
{
    b.build_int_sub(l, r, "sub")
}

/// Relies on inkwell's `Builder::build_int_mul`, which fails only without a position.
#[verifier::external_body]
fn build_int_mul<'ctx>(b: &Builder<'ctx>, l: IntValue<'ctx>, r: IntValue<'ctx>) -> (out: Result<
    IntValue<'ctx>,
    BuilderError,
>)
    requires
        positioned(*b),
    ensures
        out is Ok,
{
    b.build_int_mul(l, r, "mul")
}

/// Relies on inkwell's `Builder::build_int_signed_div`, which fails only without a position.
#[verifier::external_body]
fn build_int_signed_div<'ctx>(b: &Builder<'ctx>, l: IntValue<'ctx>, r: IntValue<'ctx>) -> (out: Result<
    IntValue<'ctx>,
    BuilderError,
>)
    requires
        positioned(*b),
    ensures
        out is Ok,
{
    b.build_int_signed_div(l, r, "div")
}

/// Relies on inkwell's `Builder::build_int_compare`, which fails only without a
/// position; the result is an `i1`.
#[verifier::external_body]
fn build_int_compare<'ctx>(
    b: &Builder<'ctx>,
    p: Predicate,
    l: IntValue<'ctx>,
    r: IntValue<'ctx>,
) -> (out: Result<IntValue<'ctx>, BuilderError>)
    requires
        positioned(*b),
    ensures
        out is Ok,
{
    let p = match p {
        Predicate::Eq => inkwell::IntPredicate::EQ,
        Predicate::Ne => inkwell::IntPredicate::NE,
        Predicate::Slt => inkwell::IntPredicate::SLT,
        Predicate::Sgt => inkwell::IntPredicate::SGT,
        Predicate::Sle => inkwell::IntPredicate::SLE,
        Predicate::Sge => inkwell::IntPredicate::SGE,
    };
    b.build_int_compare(p, l, r, "cmp")
}

/// Relies on inkwell's `Builder::build_int_z_extend`, which fails only without a position.
#[verifier::external_body]
fn build_int_z_extend<'ctx>(b: &Builder<'ctx>, v: IntValue<'ctx>, ty: IntType<'ctx>) -> (out: Result<
    IntValue<'ctx>,
    BuilderError,
>)
    requires
        positioned(*b),
    ensures
        out is Ok,
{
    b.build_int_z_extend(v, ty, "bool")
}

/// Relies on inkwell's `Builder::build_and`, which fails only without a position.
#[verifier::external_body]
fn build_and<'ctx>(b: &Builder<'ctx>, l: IntValue<'ctx>, r: IntValue<'ctx>) -> (out: Result<
    IntValue<'ctx>,
    BuilderError,
>)
    requires
        positioned(*b),
    ensures
        out is Ok,
{
    b.build_and(l, r, "and")
}

/// Relies on inkwell's `Builder::build_or`, which fails only without a position.
#[verifier::external_body]
fn build_or<'ctx>(b: &Builder<'ctx>, l: IntValue<'ctx>, r: IntValue<'ctx>) -> (out: Result<
    IntValue<'ctx>,
    BuilderError,
>)
    requires
        positioned(*b),
    ensures
        out is Ok,
{
    b.build_or(l, r, "or")
}

/// Relies on inkwell's `Builder::build_alloca`, which fails only without a
/// position: a pointer to a new slot of type `ty`.
#[verifier::external_body]
fn build_alloca<'ctx>(b: &Builder<'ctx>, ty: IntType<'ctx>, name: &str) -> (out: Result<
    PointerValue<'ctx>,
    BuilderError,
>)
    requires
        positioned(*b),
    ensures
        out is Ok,
        is_i32(ty) ==> holds_i32(out->Ok_0),
{
    b.build_alloca(ty, name)
}

/// Relies on inkwell's `Builder::build_store`, which fails only without a position.
#[verifier::external_body]
fn build_store<'ctx>(b: &Builder<'ctx>, ptr: PointerValue<'ctx>, v: IntValue<'ctx>) -> (out: Result<
    (),
    BuilderError,
>)
    requires
        positioned(*b),
    ensures
        out is Ok,
{
    b.build_store(ptr, v).map(|_| ())
}

/// Relies on inkwell's `Builder::build_load` (LLVM 14 form), which fails only
/// without a position: the load has the
/// slot's type, and `BasicValueEnum::new` makes an `IntValue` of an integer.
#[verifier::external_body]
fn build_load<'ctx>(b: &Builder<'ctx>, ptr: PointerValue<'ctx>, name: &str) -> (out: Result<
    Option<IntValue<'ctx>>,
    BuilderError,
>)
    requires
        positioned(*b),
        holds_i32(ptr),
    ensures
        out matches Ok(Some(_)),
{
    match b.build_load(ptr, name)? {
        BasicValueEnum::IntValue(v) => Ok(Some(v)),
        BasicValueEnum::ArrayValue(_) | BasicValueEnum::FloatValue(_) => Ok(None),
        BasicValueEnum::PointerValue(_) | BasicValueEnum::StructValue(_) => Ok(None),
        BasicValueEnum::VectorValue(_) => Ok(None),
    }
}

/// Relies on inkwell's `Builder::build_return`, which fails only without a position.
#[verifier::external_body]
fn build_return<'ctx>(b: &Builder<'ctx>, v: IntValue<'ctx>) -> (out: Result<(), BuilderError>)
    requires
        positioned(*b),
    ensures
        out is Ok,
{
    b.build_return(Some(&v)).map(|_| ())
}

/// Relies on inkwell's `Module::print_to_string`: the module as LLVM assembly.
#[verifier::external_body]
fn print_module<'ctx>(module: &Module<'ctx>) -> String {
    module.print_to_string().to_string()
}

/// An LLVM operation that the lowering asks the builder for.
#[derive(Clone, Copy, PartialEq, Eq, Structural, Debug)]
pub enum LlvmOp {
    Add,
    Sub,
    Mul,
    SDiv,
    ICmp(Predicate),
    ZExt,
    And,
    Or,
    Alloca,
    Store,
    Load,
    Ret,
}

/// The LLVM operations that one IR instruction becomes: arithmetic maps to
/// `add`/`sub`/`mul`/`sdiv`; a comparison to a signed `icmp` widened by
/// `zext` to 0 or 1; `And`/`Or` compare each side with 0, combine the bits
/// and widen; `Not` is `icmp eq 0` widened; slots use `alloca`, `store`
/// and `load`; `Ret` is `ret`.
pub open spec fn ops_of(ins: Instr) -> Seq<LlvmOp> {
    match ins {
        Instr::Binary(op, _, _) => match op {
            BinOp::Add => seq![LlvmOp::Add],
            BinOp::Sub => seq![LlvmOp::Sub],
            BinOp::Mul => seq![LlvmOp::Mul],
            BinOp::Div => seq![LlvmOp::SDiv],
            BinOp::Lt => seq![LlvmOp::ICmp(Predicate::Slt), LlvmOp::ZExt],
            BinOp::Gt => seq![LlvmOp::ICmp(Predicate::Sgt), LlvmOp::ZExt],
            BinOp::Le => seq![LlvmOp::ICmp(Predicate::Sle), LlvmOp::ZExt],
            BinOp::Ge => seq![LlvmOp::ICmp(Predicate::Sge), LlvmOp::ZExt],
            BinOp::And => seq![
                LlvmOp::ICmp(Predicate::Ne),
                LlvmOp::ICmp(Predicate::Ne),
                LlvmOp::And,
                LlvmOp::ZExt,
            ],
            BinOp::Or => seq![
                LlvmOp::ICmp(Predicate::Ne),
                LlvmOp::ICmp(Predicate::Ne),
                LlvmOp::Or,
                LlvmOp::ZExt,
            ],
            BinOp::Assign => Seq::empty(),
        },
        Instr::Not(_) => seq![LlvmOp::ICmp(Predicate::Eq), LlvmOp::ZExt],
        Instr::Alloca(_) => seq![LlvmOp::Alloca],
        Instr::Store(_, _) => seq![LlvmOp::Store],
        Instr::Load(_) => seq![LlvmOp::Load],
        Instr::Ret(_) => seq![LlvmOp::Ret],
    }
}

/// The operations of a block's instructions, in order.
pub open spec fn block_ops(instrs: Seq<Instr>) -> Seq<LlvmOp>
    decreases instrs.len(),
{
    if instrs.len() == 0 {
        Seq::empty()
    } else {
        block_ops(instrs.drop_last()) + ops_of(instrs.last())
    }
}

/// The operations of all blocks, block after block.
pub open spec fn module_ops(bs: Seq<Seq<Instr>>) -> Seq<LlvmOp>
    decreases bs.len(),
{
    if bs.len() == 0 {
        Seq::empty()
    } else {
        module_ops(bs.drop_last()) + block_ops(bs.last())
    }
}

/// The builder, the `i32` type, and the operations asked of the builder so far.
struct Emitter<'ctx> {
    builder: Builder<'ctx>,
    ty: IntType<'ctx>,
    log: Ghost<Seq<LlvmOp>>,
}

impl<'ctx> Emitter<'ctx> {
    spec fn ready(&self) -> bool {
        positioned(self.builder) && is_i32(self.ty)
    }

    fn new(context: &'ctx Context) -> (r: Emitter<'ctx>)
        ensures
            is_i32(r.ty),
            r.log@ == Seq::<LlvmOp>::empty(),
    {
        Emitter { builder: create_builder(context), ty: i32_type(context), log: Ghost(Seq::empty()) }
    }

    fn position(&mut self, block: BasicBlock<'ctx>)
        requires
            is_i32(old(self).ty),
        ensures
            final(self).ready(),
            final(self).log == old(self).log,
            final(self).ty == old(self).ty,
    {
        position_at_end(&mut self.builder, block);
    }

    fn constant(&self, v: i32) -> IntValue<'ctx> {
        const_int(self.ty, v)
    }

    fn arith(&mut self, op: LlvmOp, l: IntValue<'ctx>, r: IntValue<'ctx>) -> (out: IntValue<'ctx>)
        requires
            old(self).ready(),
            op == LlvmOp::Add || op == LlvmOp::Sub || op == LlvmOp::Mul || op == LlvmOp::SDiv
                || op == LlvmOp::And || op == LlvmOp::Or,
        ensures
            final(self).ready(),
            final(self).ty == old(self).ty,
            final(self).log@ == old(self).log@.push(op),
    {
        let v = match op {
            LlvmOp::Add => build_int_add(&self.builder, l, r).unwrap(),
            LlvmOp::Sub => build_int_sub(&self.builder, l, r).unwrap(),
            LlvmOp::Mul => build_int_mul(&self.builder, l, r).unwrap(),
            LlvmOp::SDiv => build_int_signed_div(&self.builder, l, r).unwrap(),
            LlvmOp::And => build_and(&self.builder, l, r).unwrap(),
            _ => build_or(&self.builder, l, r).unwrap(),
        };
        self.log = Ghost(self.log@.push(op));
        v
    }

    fn icmp(&mut self, p: Predicate, l: IntValue<'ctx>, r: IntValue<'ctx>) -> (out: IntValue<'ctx>)
        requires
            old(self).ready(),
        ensures
            final(self).ready(),
            final(self).ty == old(self).ty,
            final(self).log@ == old(self).log@.push(LlvmOp::ICmp(p)),
    {
        let v = build_int_compare(&self.builder, p, l, r).unwrap();
        self.log = Ghost(self.log@.push(LlvmOp::ICmp(p)));
        v
    }

    /// `v`, an `i1`, widened to a 0 or 1 of type `i32`.
    fn zext(&mut self, v: IntValue<'ctx>) -> (out: IntValue<'ctx>)
        requires
            old(self).ready(),
        ensures
            final(self).ready(),
            final(self).ty == old(self).ty,
            final(self).log@ == old(self).log@.push(LlvmOp::ZExt),
    {
        let w = build_int_z_extend(&self.builder, v, self.ty).unwrap();
        self.log = Ghost(self.log@.push(LlvmOp::ZExt));
        w
    }

    fn alloca(&mut self, name: &str) -> (out: PointerValue<'ctx>)
        requires
            old(self).ready(),
        ensures
            final(self).ready(),
            final(self).ty == old(self).ty,
            final(self).log@ == old(self).log@.push(LlvmOp::Alloca),
            holds_i32(out),
    {
        let p = build_alloca(&self.builder, self.ty, name).unwrap();
        self.log = Ghost(self.log@.push(LlvmOp::Alloca));
        p
    }

    fn store(&mut self, p: PointerValue<'ctx>, v: IntValue<'ctx>)
        requires
            old(self).ready(),
        ensures
            final(self).ready(),
            final(self).ty == old(self).ty,
            final(self).log@ == old(self).log@.push(LlvmOp::Store),
    {
        build_store(&self.builder, p, v).unwrap();
        self.log = Ghost(self.log@.push(LlvmOp::Store));
    }

    fn load(&mut self, p: PointerValue<'ctx>, name: &str) -> (out: IntValue<'ctx>)
        requires
            old(self).ready(),
            holds_i32(p),
        ensures
            final(self).ready(),
            final(self).ty == old(self).ty,
            final(self).log@ == old(self).log@.push(LlvmOp::Load),
    {
        let v = build_load(&self.builder, p, name).unwrap().unwrap();
        self.log = Ghost(self.log@.push(LlvmOp::Load));
        v
    }

    fn ret(&mut self, v: IntValue<'ctx>)
        requires
            old(self).ready(),
        ensures
            final(self).ready(),
            final(self).ty == old(self).ty,
            final(self).log@ == old(self).log@.push(LlvmOp::Ret),
    {
        build_return(&self.builder, v).unwrap();
        self.log = Ghost(self.log@.push(LlvmOp::Ret));
    }
}

/// `done` holds, for each block before `b`, one entry per instruction, set
/// exactly for those with a value.
pub open spec fn done_ok<T>(done: Seq<Vec<Option<T>>>, bs: Seq<Seq<Instr>>, b: int) -> bool {
    &&& done.len() == b
    &&& forall|bb: int| 0 <= bb < b ==> (#[trigger] done[bb])@.len() == bs[bb].len()
    &&& forall|bb: int, ii: int|
        0 <= bb < b && 0 <= ii < bs[bb].len() ==> ((#[trigger] done[bb]@[ii]) is Some <==> has_value(
            bs[bb][ii],
        ))
}

/// `row` is the same for the first `i` instructions of block `b`.
pub open spec fn row_ok<T>(row: Seq<Option<T>>, bs: Seq<Seq<Instr>>, b: int, i: int) -> bool {
    &&& row.len() == i
    &&& forall|ii: int| 0 <= ii < i ==> ((#[trigger] row[ii]) is Some <==> has_value(bs[b][ii]))
}

/// Each slot created before `(b, i)` has its pointer.
pub open spec fn slots_ok<P>(slots: Seq<Option<P>>, bs: Seq<Seq<Instr>>, b: int, i: int) -> bool {
    forall|bb: int, ii: int|
        before(bb, ii, b, i) && 0 <= bb < bs.len() && 0 <= ii < bs[bb].len() && (
        #[trigger] bs[bb][ii]) is Alloca ==> bs[bb][ii]->Alloca_0 < slots.len()
            && slots[bs[bb][ii]->Alloca_0 as int] is Some
}

/// Every pointer held for a slot addresses an `i32`.
pub open spec fn slots_i32<'ctx>(slots: Seq<Option<PointerValue<'ctx>>>) -> bool {
    forall|k: int| 0 <= k < slots.len() && (#[trigger] slots[k]) is Some ==> holds_i32(slots[k]->Some_0)
}

/// The LLVM value of `o`: a constant, or the value of an instruction lowered
/// before, from `done` (the blocks before `b`) or `row` (block `b` so far).
fn operand_value<'ctx>(
    em: &Emitter<'ctx>,
    o: Operand,
    done: &Vec<Vec<Option<IntValue<'ctx>>>>,
    row: &Vec<Option<IntValue<'ctx>>>,
    b: usize,
    Ghost(bs): Ghost<Seq<Seq<Instr>>>,
    Ghost(i): Ghost<int>,
) -> (r: Result<IntValue<'ctx>, LowerError>)
    requires
        b < bs.len(),
        done_ok(done@, bs, b as int),
        row_ok(row@, bs, b as int, i),
    ensures
        r is Err ==> r == Err::<IntValue<'ctx>, LowerError>(LowerError::MissingValue),
        operand_ready(o, bs, b as int, i) ==> r is Ok,
{
    match o {
        Operand::Const(v) => Ok(em.constant(v)),
        Operand::Value(block, index) => {
            let found = if block == b {
                if index < row.len() {
                    row[index]
                } else {
                    None
                }
            } else if block < done.len() && index < done[block].len() {
                done[block][index]
            } else {
                None
            };
            match found {
                Some(v) => Ok(v),
                None => Err(LowerError::MissingValue),
            }
        },
    }
}

/// The truthiness of `v`: an `i1` that is set when `v` is nonzero.
fn truth<'ctx>(em: &mut Emitter<'ctx>, v: IntValue<'ctx>) -> (out: IntValue<'ctx>)
    requires
        old(em).ready(),
    ensures
        final(em).ready(),
        final(em).ty == old(em).ty,
        final(em).log@ == old(em).log@.push(LlvmOp::ICmp(Predicate::Ne)),
{
    let zero = em.constant(0);
    em.icmp(Predicate::Ne, v, zero)
}

/// The LLVM instructions for `op` on `l` and `r`.
fn lower_binary<'ctx>(em: &mut Emitter<'ctx>, op: BinOp, l: IntValue<'ctx>, r: IntValue<'ctx>) -> (out:
    Result<IntValue<'ctx>, LowerError>)
    requires
        old(em).ready(),
    ensures
        final(em).ready(),
        final(em).ty == old(em).ty,
        out is Ok <==> op != BinOp::Assign,
        out is Err ==> out == Err::<IntValue<'ctx>, LowerError>(LowerError::InvalidOperator),
        out is Ok ==> final(em).log@ == old(em).log@ + ops_of(Instr::Binary(op, Operand::Const(0), Operand::Const(0))),
{
    let ghost start = em.log@;
    let v = match op {
        BinOp::Add => em.arith(LlvmOp::Add, l, r),
        BinOp::Sub => em.arith(LlvmOp::Sub, l, r),
        BinOp::Mul => em.arith(LlvmOp::Mul, l, r),
        BinOp::Div => em.arith(LlvmOp::SDiv, l, r),
        BinOp::Lt => {
            let c = em.icmp(Predicate::Slt, l, r);
            em.zext(c)
        },
        BinOp::Gt => {
            let c = em.icmp(Predicate::Sgt, l, r);
            em.zext(c)
        },
        BinOp::Le => {
            let c = em.icmp(Predicate::Sle, l, r);
            em.zext(c)
        },
        BinOp::Ge => {
            let c = em.icmp(Predicate::Sge, l, r);
            em.zext(c)
        },
        BinOp::And => {
            let lt = truth(em, l);
            let rt = truth(em, r);
            let both = em.arith(LlvmOp::And, lt, rt);
            em.zext(both)
        },
        BinOp::Or => {
            let lt = truth(em, l);
            let rt = truth(em, r);
            let either = em.arith(LlvmOp::Or, lt, rt);
            em.zext(either)
        },
        BinOp::Assign => {
            return Err(LowerError::InvalidOperator);
        },
    };
    assert(em.log@ =~= start + ops_of(Instr::Binary(op, Operand::Const(0), Operand::Const(0))));
    Ok(v)
}

fn slot_pointer<'ctx>(slots: &Vec<Option<PointerValue<'ctx>>>, k: usize) -> (r: Result<
    PointerValue<'ctx>,
    LowerError,
>)
    ensures
        r is Err ==> r == Err::<PointerValue<'ctx>, LowerError>(LowerError::MissingSlot),
        k < slots@.len() && slots@[k as int] is Some ==> r is Ok,
        r is Ok ==> k < slots@.len() && slots@[k as int] == Some(r->Ok_0),
{
    if k < slots.len() {
        match slots[k] {
            Some(p) => Ok(p),
            None => Err(LowerError::MissingSlot),
        }
    } else {
        Err(LowerError::MissingSlot)
    }
}

/// Lowers `ins`, the instruction at `(b, i)`; the result is its value, if
/// it has one. The builder is asked for exactly `ops_of(ins)`.
fn lower_instr<'ctx>(
    em: &mut Emitter<'ctx>,
    ins: Instr,
    done: &Vec<Vec<Option<IntValue<'ctx>>>>,
    row: &Vec<Option<IntValue<'ctx>>>,
    b: usize,
    slots: &mut Vec<Option<PointerValue<'ctx>>>,
    names: &Vec<String>,
    Ghost(bs): Ghost<Seq<Seq<Instr>>>,
    Ghost(i): Ghost<int>,
) -> (r: Result<Option<IntValue<'ctx>>, LowerError>)
    requires
        old(em).ready(),
        b < bs.len(),
        0 <= i < bs[b as int].len(),
        ins == bs[b as int][i],
        names@.len() == old(slots)@.len(),
        done_ok(done@, bs, b as int),
        row_ok(row@, bs, b as int, i),
        slots_ok(old(slots)@, bs, b as int, i),
        slots_i32(old(slots)@),
    ensures
        final(em).ready(),
        final(em).ty == old(em).ty,
        final(slots)@.len() == old(slots)@.len(),
        slots_i32(final(slots)@),
        r is Ok ==> (r->Ok_0 is Some <==> has_value(ins)),
        r is Ok ==> slots_ok(final(slots)@, bs, b as int, i + 1),
        r is Ok ==> final(em).log@ == old(em).log@ + ops_of(ins),
        instr_ready(ins, bs, b as int, i, old(slots)@.len()) ==> r is Ok,
{
    let ghost start = em.log@;
    match ins {
        Instr::Binary(op, l, r) => {
            let l = operand_value(em, l, done, row, b, Ghost(bs), Ghost(i))?;
            let r = operand_value(em, r, done, row, b, Ghost(bs), Ghost(i))?;
            let v = lower_binary(em, op, l, r)?;
            Ok(Some(v))
        },
        Instr::Not(x) => {
            let x = operand_value(em, x, done, row, b, Ghost(bs), Ghost(i))?;
            let zero = em.constant(0);
            let c = em.icmp(Predicate::Eq, x, zero);
            let v = em.zext(c);
            assert(em.log@ =~= start + ops_of(ins));
            Ok(Some(v))
        },
        Instr::Alloca(k) => {
            if k >= slots.len() || k >= names.len() {
                return Err(LowerError::MissingSlot);
            }
            let p = em.alloca(names[k].as_str());
            slots.set(k, Some(p));
            assert(em.log@ =~= start + ops_of(ins));
            Ok(None)
        },
        Instr::Store(k, v) => {
            let v = operand_value(em, v, done, row, b, Ghost(bs), Ghost(i))?;
            let p = slot_pointer(slots, k)?;
            em.store(p, v);
            assert(em.log@ =~= start + ops_of(ins));
            Ok(None)
        },
        Instr::Load(k) => {
            let p = slot_pointer(slots, k)?;
            if k >= names.len() {
                return Err(LowerError::MissingSlot);
            }
            let v = em.load(p, names[k].as_str());
            assert(em.log@ =~= start + ops_of(ins));
            Ok(Some(v))
        },
        Instr::Ret(v) => {
            let v = operand_value(em, v, done, row, b, Ghost(bs), Ghost(i))?;
            em.ret(v);
            assert(em.log@ =~= start + ops_of(ins));
            Ok(None)
        },
    }
}

/// Builds `compiler`'s `main` through `em` and prints the module; the
/// builder is asked for exactly the operations of the IR, block by block.
fn lower<'ctx>(context: &'ctx Context, em: &mut Emitter<'ctx>, compiler: &Compiler) -> (r: Result<
    String,
    LowerError,
>)
    requires
        is_i32(old(em).ty),
        old(em).log@ == Seq::<LlvmOp>::empty(),
    ensures
        ir_valid(compiler@.blocks, compiler@.slots.len()) ==> r is Ok,
        r is Ok ==> final(em).log@ == module_ops(compiler@.blocks),
{
    let module = create_module(context, compiler.name().as_str());
    let function = add_function(&module, "main", nullary_fn_type(em.ty));
    let blocks = compiler.blocks();
    let names = compiler.slots();
    let ghost bs = compiler@.blocks;
    let ghost valid = ir_valid(bs, compiler@.slots.len());
    assert(bs.len() == blocks@.len());
    assert(names@.len() == compiler@.slots.len());
    let mut llvm_blocks: Vec<BasicBlock<'ctx>> = Vec::new();
    let mut b: usize = 0;
    while b < blocks.len()
        invariant
            b <= blocks.len(),
            llvm_blocks@.len() == b,
        decreases blocks.len() - b,
    {
        let name = if b == 0 {
            "entry"
        } else {
            "block"
        };
        llvm_blocks.push(append_basic_block(context, function, name));
        b = b + 1;
    }
    let mut slots: Vec<Option<PointerValue<'ctx>>> = Vec::new();
    let mut k: usize = 0;
    while k < names.len()
        invariant
            k <= names.len(),
            slots@.len() == k,
            slots_i32(slots@),
        decreases names.len() - k,
    {
        slots.push(None);
        k = k + 1;
    }
    let mut done: Vec<Vec<Option<IntValue<'ctx>>>> = Vec::new();
    b = 0;
    while b < blocks.len()
        invariant
            b <= blocks.len(),
            llvm_blocks@.len() == blocks.len(),
            slots@.len() == names@.len(),
            slots_i32(slots@),
            is_i32(em.ty),
            bs == blocks@.map_values(|v: Vec<Instr>| v@),
            valid == ir_valid(bs, names@.len()),
            names@.len() == compiler@.slots.len(),
            bs == compiler@.blocks,
            done_ok(done@, bs, b as int),
            slots_ok(slots@, bs, b as int, 0),
            em.log@ == module_ops(bs.subrange(0, b as int)),
        decreases blocks.len() - b,
    {
        em.position(llvm_blocks[b]);
        let instrs = &blocks[b];
        assert(instrs@ == bs[b as int]);
        let ghost base = em.log@;
        let mut row: Vec<Option<IntValue<'ctx>>> = Vec::new();
        let mut i: usize = 0;
        while i < instrs.len()
            invariant
                b < blocks.len(),
                i <= instrs.len(),
                instrs@ == bs[b as int],
                em.ready(),
                slots@.len() == names@.len(),
                slots_i32(slots@),
                bs == blocks@.map_values(|v: Vec<Instr>| v@),
                valid == ir_valid(bs, names@.len()),
                names@.len() == compiler@.slots.len(),
                bs == compiler@.blocks,
                done_ok(done@, bs, b as int),
                row_ok(row@, bs, b as int, i as int),
                slots_ok(slots@, bs, b as int, i as int),
                em.log@ == base + block_ops(bs[b as int].subrange(0, i as int)),
            decreases instrs.len() - i,
        {
            proof {
                if valid {
                    assert(instr_ready(bs[b as int][i as int], bs, b as int, i as int, names@.len()));
                }
                let next = bs[b as int].subrange(0, i + 1);
                assert(next.drop_last() =~= bs[b as int].subrange(0, i as int));
            }
            let ghost before_log = em.log@;
            let v = lower_instr(em, instrs[i], &done, &row, b, &mut slots, names, Ghost(bs), Ghost(i as int))?;
            proof {
                let next = bs[b as int].subrange(0, i + 1);
                assert(next.last() == bs[b as int][i as int]);
                assert(block_ops(next) == block_ops(next.drop_last()) + ops_of(next.last()));
                assert(em.log@ =~= base + block_ops(next));
            }
            row.push(v);
            i = i + 1;
        }
        proof {
            let next = bs.subrange(0, b + 1);
            assert(next.drop_last() =~= bs.subrange(0, b as int));
            assert(bs[b as int].subrange(0, bs[b as int].len() as int) =~= bs[b as int]);
        }
        done.push(row);
        b = b + 1;
    }
    assert(bs.subrange(0, bs.len() as int) =~= bs);
    Ok(print_module(&module))
}

/// The `main` function that `compiler` holds, built with LLVM's builder
/// and printed as LLVM assembly. On IR whose instructions read only values
/// and slots made before them (all that the generator emits), it succeeds.
pub fn emit_llvm_ir(compiler: &Compiler) -> (r: Result<String, LowerError>)
    ensures
        ir_valid(compiler@.blocks, compiler@.slots.len()) ==> r is Ok,
{
    let context = create_context();
    let mut em = Emitter::new(&context);
    lower(&context, &mut em, compiler)
}

} // verus!
