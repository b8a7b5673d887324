//! Builders for the MiniRust terms the translation produces.
use vstd::prelude::*;
use crate::num::{Int, Signedness, int_of, lemma_int_of};
use crate::lang::{
    Size, Align, List, IntType, Type, PtrType, PointerMetaKind, Constant, FnName, TraitMethodName,
    ValueExpr, PlaceExpr, UnOp, IntUnOp, BinOp, IntBinOp, CastOp, Terminator, IntrinsicOp,
    ArgumentExpr,
};

verus! {

/// The integer type of `u8`.
pub open spec fn u8_ty() -> IntType {
    IntType { signed: Signedness::Unsigned, size: Size { bytes: 1 } }
}

/// The integer type of `usize` on the default (64-bit) target.
pub open spec fn usize_ty() -> IntType {
    IntType { signed: Signedness::Unsigned, size: Size { bytes: 8 } }
}

/// The integer type of `isize` on the default (64-bit) target.
pub open spec fn isize_ty() -> IntType {
    IntType { signed: Signedness::Signed, size: Size { bytes: 8 } }
}

/// The integer type of `i32`.
pub open spec fn i32_ty() -> IntType {
    IntType { signed: Signedness::Signed, size: Size { bytes: 4 } }
}

pub fn make_u8_ty() -> (r: IntType)
    ensures r == u8_ty(),
{
    IntType { signed: Signedness::Unsigned, size: Size { bytes: 1 } }
}

pub fn make_usize_ty() -> (r: IntType)
    ensures r == usize_ty(),
{
    IntType { signed: Signedness::Unsigned, size: Size { bytes: 8 } }
}

pub fn make_isize_ty() -> (r: IntType)
    ensures r == isize_ty(),
{
    IntType { signed: Signedness::Signed, size: Size { bytes: 8 } }
}

pub fn make_i32_ty() -> (r: IntType)
    ensures r == i32_ty(),
{
    IntType { signed: Signedness::Signed, size: Size { bytes: 4 } }
}

/// The type `()`.
#[verifier::allow_in_spec]
pub fn unit_ty() -> Type
    returns
        (Type::Tuple { fields: List::Nil, size: Size { bytes: 0 }, align: Align { bytes: 1 } }),
{
    Type::Tuple { fields: List::Nil, size: Size { bytes: 0 }, align: Align { bytes: 1 } }
}

/// A thin raw pointer type.
#[verifier::allow_in_spec]
pub fn raw_void_ptr_ty() -> PtrType
    returns
        (PtrType::Raw { meta_kind: PointerMetaKind::Thin }),
{
    PtrType::Raw { meta_kind: PointerMetaKind::Thin }
}

/// A raw pointer type with the given metadata.
#[verifier::allow_in_spec]
pub fn raw_ptr_ty(meta_kind: PointerMetaKind) -> PtrType
    returns
        (PtrType::Raw { meta_kind }),
{
    PtrType::Raw { meta_kind }
}

/// The dangling but well-aligned pointer to a unit value.
pub open spec fn spec_unit_ptr() -> ValueExpr {
    ValueExpr::Constant(Constant::PointerWithoutProvenance(int_of(1)), Type::Ptr(PtrType::Raw { meta_kind: PointerMetaKind::Thin }))
}

pub fn unit_ptr() -> (r: ValueExpr)
    ensures
        r == spec_unit_ptr(),
{
    let one = Int::one();
    proof {
        lemma_int_of(one);
    }
    ValueExpr::Constant(Constant::PointerWithoutProvenance(one), Type::Ptr(raw_void_ptr_ty()))
}

/// A place of unit type, for results nobody reads.
pub open spec fn spec_unit_place() -> PlaceExpr {
    PlaceExpr::Deref { operand: Box::new(spec_unit_ptr()), ty: unit_ty() }
}

pub fn unit_place() -> (r: PlaceExpr)
    ensures
        r == spec_unit_place(),
{
    PlaceExpr::Deref { operand: Box::new(unit_ptr()), ty: unit_ty() }
}

/// The terminator that aborts the program.
pub open spec fn spec_abort() -> Terminator {
    Terminator::Intrinsic { intrinsic: IntrinsicOp::Abort, arguments: List::Nil, ret: spec_unit_place(), next_block: None }
}

pub fn abort() -> (r: Terminator)
    ensures
        r == spec_abort(),
{
    Terminator::Intrinsic { intrinsic: IntrinsicOp::Abort, arguments: List::Nil, ret: unit_place(), next_block: None }
}

/// A pointer to the function with the given name.
#[verifier::allow_in_spec]
pub fn fn_ptr(name: FnName) -> ValueExpr
    returns
        (ValueExpr::Constant(Constant::FnPointer(name), Type::Ptr(PtrType::FnPtr))),
{
    ValueExpr::Constant(Constant::FnPointer(name), Type::Ptr(PtrType::FnPtr))
}

#[verifier::allow_in_spec]
pub fn load(place: PlaceExpr) -> ValueExpr
    returns
        (ValueExpr::Load { source: Box::new(place) }),
{
    ValueExpr::Load { source: Box::new(place) }
}

#[verifier::allow_in_spec]
pub fn addr_of(target: PlaceExpr, ptr_ty: PtrType) -> ValueExpr
    returns
        (ValueExpr::AddrOf { target: Box::new(target), ptr_ty }),
{
    ValueExpr::AddrOf { target: Box::new(target), ptr_ty }
}

#[verifier::allow_in_spec]
pub fn un_op(operator: UnOp, operand: ValueExpr) -> ValueExpr
    returns
        (ValueExpr::UnOp { operator, operand: Box::new(operand) }),
{
    ValueExpr::UnOp { operator, operand: Box::new(operand) }
}

#[verifier::allow_in_spec]
pub fn bin_op(operator: BinOp, left: ValueExpr, right: ValueExpr) -> ValueExpr
    returns
        (ValueExpr::BinOp { operator, left: Box::new(left), right: Box::new(right) }),
{
    ValueExpr::BinOp { operator, left: Box::new(left), right: Box::new(right) }
}

#[verifier::allow_in_spec]
pub fn get_metadata(v: ValueExpr) -> ValueExpr
    returns
        (ValueExpr::UnOp { operator: UnOp::GetMetadata, operand: Box::new(v) }),
{
    ValueExpr::UnOp { operator: UnOp::GetMetadata, operand: Box::new(v) }
}

#[verifier::allow_in_spec]
pub fn get_thin_pointer(v: ValueExpr) -> ValueExpr
    returns
        (ValueExpr::UnOp { operator: UnOp::GetThinPointer, operand: Box::new(v) }),
{
    ValueExpr::UnOp { operator: UnOp::GetThinPointer, operand: Box::new(v) }
}

/// Looks up a method in the vtable that `vtable` points to.
#[verifier::allow_in_spec]
pub fn vtable_method_lookup(vtable: ValueExpr, method: TraitMethodName) -> ValueExpr
    returns
        (ValueExpr::UnOp { operator: UnOp::VTableMethodLookup(method), operand: Box::new(vtable) }),
{
    ValueExpr::UnOp { operator: UnOp::VTableMethodLookup(method), operand: Box::new(vtable) }
}

/// Boolean negation.
#[verifier::allow_in_spec]
pub fn not(v: ValueExpr) -> ValueExpr
    returns
        (ValueExpr::UnOp { operator: UnOp::BoolNot, operand: Box::new(v) }),
{
    ValueExpr::UnOp { operator: UnOp::BoolNot, operand: Box::new(v) }
}

/// Reinterprets the bytes of a value at another type.
#[verifier::allow_in_spec]
pub fn transmute(v: ValueExpr, ty: Type) -> ValueExpr
    returns
        (ValueExpr::UnOp { operator: UnOp::Cast(CastOp::Transmute(ty)), operand: Box::new(v) }),
{
    ValueExpr::UnOp { operator: UnOp::Cast(CastOp::Transmute(ty)), operand: Box::new(v) }
}

/// A boolean as the integer 0 or 1 of type `u8`.
pub open spec fn spec_bool_to_int(v: ValueExpr) -> ValueExpr {
    ValueExpr::UnOp { operator: UnOp::Cast(CastOp::Transmute(Type::Int(u8_ty()))), operand: Box::new(v) }
}

pub fn bool_to_int(v: ValueExpr) -> (r: ValueExpr)
    ensures
        r == spec_bool_to_int(v),
{
    transmute(v, Type::Int(make_u8_ty()))
}

/// A value converted to another integer type.
#[verifier::allow_in_spec]
pub fn int_cast(v: ValueExpr, ity: IntType) -> ValueExpr
    returns
        (ValueExpr::UnOp { operator: UnOp::Cast(CastOp::IntToInt(ity)), operand: Box::new(v) }),
{
    ValueExpr::UnOp { operator: UnOp::Cast(CastOp::IntToInt(ity)), operand: Box::new(v) }
}

#[verifier::allow_in_spec]
pub fn int_bin(op: IntBinOp, l: ValueExpr, r: ValueExpr) -> ValueExpr
    returns
        (ValueExpr::BinOp { operator: BinOp::Int(op), left: Box::new(l), right: Box::new(r) }),
{
    ValueExpr::BinOp { operator: BinOp::Int(op), left: Box::new(l), right: Box::new(r) }
}

#[verifier::allow_in_spec]
pub fn int_un(op: IntUnOp, v: ValueExpr) -> ValueExpr
    returns
        (ValueExpr::UnOp { operator: UnOp::Int(op), operand: Box::new(v) }),
{
    ValueExpr::UnOp { operator: UnOp::Int(op), operand: Box::new(v) }
}

/// An integer constant of the given type.
#[verifier::allow_in_spec]
pub fn const_int_typed(v: Int, ity: IntType) -> ValueExpr
    returns
        (ValueExpr::Constant(Constant::Int(v), Type::Int(ity))),
{
    ValueExpr::Constant(Constant::Int(v), Type::Int(ity))
}

#[verifier::allow_in_spec]
pub fn const_bool(b: bool) -> ValueExpr
    returns
        (ValueExpr::Constant(Constant::Bool(b), Type::Bool)),
{
    ValueExpr::Constant(Constant::Bool(b), Type::Bool)
}

/// A wide pointer of type `ty` made of a thin pointer and metadata.
#[verifier::allow_in_spec]
pub fn construct_wide_pointer(ptr: ValueExpr, meta: ValueExpr, ty: PtrType) -> ValueExpr
    returns
        (ValueExpr::BinOp { operator: BinOp::ConstructWidePointer(ty), left: Box::new(ptr), right: Box::new(meta) }),
{
    ValueExpr::BinOp { operator: BinOp::ConstructWidePointer(ty), left: Box::new(ptr), right: Box::new(meta) }
}

/// A pointer moved by `offset` bytes.
#[verifier::allow_in_spec]
pub fn ptr_offset(ptr: ValueExpr, offset: ValueExpr, inbounds: bool) -> ValueExpr
    returns
        (ValueExpr::BinOp { operator: BinOp::PtrOffset { inbounds }, left: Box::new(ptr), right: Box::new(offset) }),
{
    ValueExpr::BinOp { operator: BinOp::PtrOffset { inbounds }, left: Box::new(ptr), right: Box::new(offset) }
}

/// An argument passed by value.
#[verifier::allow_in_spec]
pub fn by_value(v: ValueExpr) -> ArgumentExpr
    returns
        (ArgumentExpr::ByValue(v)),
{
    ArgumentExpr::ByValue(v)
}

} // verus!
