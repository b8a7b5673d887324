//! The translation of places, operands and rvalues.
//!
//! Each translation is specified by a spec function that gives the MiniRust
//! expression, or `None` for the inputs the translation does not support
//! (the tool stops there with an internal compiler error).
use vstd::prelude::*;
use crate::num::{Int, int_of, lemma_int_of};
use vstd::arithmetic::power2::pow2;
use crate::lang::{
    List, list_from_seq, list_lookup, Type, PtrType, PointerMetaKind, Constant, ValueExpr, PlaceExpr,
    LocalName, BinOp, IntBinOp, IntBinOpWithOverflow, RelOp, BoolBinOp, UnOp, IntUnOp, CastOp,
};
use crate::mir::{RsPlace, RsProj, RsProjKind, RsOperand, RsRvalue, RsBinOp, RsUnOp, RsCastKind, RsNullOp, RsBody};
use crate::rs::{RsTy, RsTyKind, TyId};
use crate::ty::{spec_ty, spec_pointee_info, spec_mutbl, translate_mutbl_smir};
use crate::enums::spec_discriminant;
use crate::builder::{usize_ty, make_usize_ty, u8_ty, make_u8_ty};
use crate::program::{Ctxt, fn_name_of};
use crate::constant::{spec_const, const_keys_in, const_keys_valid, lemma_const_valid, lookup_variant_ty};
use crate::copy::copy_value;
use crate::function::FnCtxt;

verus! {

// ---------------------------------------------------------------------------
// Places
// ---------------------------------------------------------------------------

/// A place with one more projection step applied, or `None` where the step
/// is not supported.
pub open spec fn spec_project(body: RsBody, tys: Seq<RsTy>, root: PlaceExpr, proj: RsProj) -> Option<PlaceExpr> {
    match proj.kind {
        RsProjKind::Field { field } => Some(PlaceExpr::Field { root: Box::new(root), field: field as u64 }),
        RsProjKind::Deref => match spec_ty(tys, proj.ty as int) {
            Some(t) => Some(PlaceExpr::Deref { operand: Box::new(ValueExpr::Load { source: Box::new(root) }), ty: t }),
            None => None,
        },
        RsProjKind::Index { local } => if local < body.local_tys@.len() {
            Some(PlaceExpr::Index {
                root: Box::new(root),
                index: Box::new(ValueExpr::Load { source: Box::new(PlaceExpr::Local(LocalName(local as u32))) }),
            })
        } else {
            None
        },
        RsProjKind::Downcast { variant } => match spec_discriminant(tys, proj.ty as int, variant as int) {
            Some(d) => Some(PlaceExpr::Downcast { root: Box::new(root), discriminant: d }),
            None => None,
        },
        RsProjKind::Other => None,
    }
}

/// The place with the first `n` projections of `p` applied. Local `i` of the
/// body is named `LocalName(i)`.
pub open spec fn spec_place_prefix(body: RsBody, tys: Seq<RsTy>, p: RsPlace, n: int) -> Option<PlaceExpr>
    decreases n,
{
    if n <= 0 {
        if p.local < body.local_tys@.len() {
            Some(PlaceExpr::Local(LocalName(p.local as u32)))
        } else {
            None
        }
    } else {
        match spec_place_prefix(body, tys, p, n - 1) {
            Some(root) => spec_project(body, tys, root, p.projection@[n - 1]),
            None => None,
        }
    }
}

/// The MiniRust place of a MIR place.
pub open spec fn spec_place(body: RsBody, tys: Seq<RsTy>, p: RsPlace) -> Option<PlaceExpr> {
    spec_place_prefix(body, tys, p, p.projection@.len() as int)
}

/// The type of a place: that of the last projection, or of the local.
pub open spec fn spec_place_ty(body: RsBody, p: RsPlace) -> int {
    if p.projection@.len() == 0 {
        body.local_tys@[p.local as int] as int
    } else {
        p.projection@.last().ty as int
    }
}

/// A place that translates is based on a local of the body.
pub proof fn lemma_place_local(body: RsBody, tys: Seq<RsTy>, p: RsPlace)
    requires
        spec_place(body, tys, p) is Some,
    ensures
        p.local < body.local_tys@.len(),
{
    lemma_place_prefix_some(body, tys, p, p.projection@.len() as int, 0);
}

proof fn lemma_place_prefix_some(body: RsBody, tys: Seq<RsTy>, p: RsPlace, n: int, m: int)
    requires
        0 <= m <= n,
        spec_place_prefix(body, tys, p, n) is Some,
    ensures
        spec_place_prefix(body, tys, p, m) is Some,
    decreases n - m,
{
    if m < n {
        lemma_place_prefix_some(body, tys, p, n - 1, m);
    }
}

// ---------------------------------------------------------------------------
// Operands
// ---------------------------------------------------------------------------

/// Loading from a place.
pub open spec fn load_of(p: Option<PlaceExpr>) -> Option<ValueExpr> {
    match p {
        Some(p) => Some(ValueExpr::Load { source: Box::new(p) }),
        None => None,
    }
}

/// The MiniRust value of an operand: a load from its place, or its constant.
pub open spec fn spec_operand(body: RsBody, cx: Ctxt, op: RsOperand) -> Option<ValueExpr> {
    match op {
        RsOperand::Copy(p) => load_of(spec_place(body, cx.tcx.tys@, p)),
        RsOperand::Move(p) => load_of(spec_place(body, cx.tcx.tys@, p)),
        RsOperand::Constant(c) => spec_const(cx, c),
    }
}

/// The type of an operand.
pub open spec fn spec_operand_ty(body: RsBody, op: RsOperand) -> int {
    match op {
        RsOperand::Copy(p) => spec_place_ty(body, p),
        RsOperand::Move(p) => spec_place_ty(body, p),
        RsOperand::Constant(c) => c.ty as int,
    }
}

/// The values of operands `i..` of `ops`.
pub open spec fn spec_operands(body: RsBody, cx: Ctxt, ops: Seq<RsOperand>, i: int) -> Option<List<ValueExpr>>
    decreases ops.len() - i,
{
    if i < 0 || i >= ops.len() {
        Some(List::Nil)
    } else {
        match (spec_operand(body, cx, ops[i]), spec_operands(body, cx, ops, i + 1)) {
            (Some(v), Some(rest)) => Some(List::Cons(Box::new(v), Box::new(rest))),
            _ => None,
        }
    }
}

/// Every allocation of the table that a constant operand points to has a name.
pub open spec fn operand_keys_in(cx: Ctxt, op: RsOperand) -> bool {
    match op {
        RsOperand::Constant(c) => const_keys_valid(c, cx.allocs@.len() as int) ==> const_keys_in(c, cx.alloc_names@),
        _ => true,
    }
}

pub open spec fn operands_keys_in(cx: Ctxt, ops: Seq<RsOperand>) -> bool {
    forall|i: int| 0 <= i < ops.len() ==> operand_keys_in(cx, #[trigger] ops[i])
}

/// Every allocation and function instance that an rvalue refers to has a name.
pub open spec fn rvalue_keys_in(cx: Ctxt, rv: RsRvalue) -> bool {
    match rv {
        RsRvalue::Use(o) => operand_keys_in(cx, o),
        RsRvalue::BinaryOp { left, right, .. } => operand_keys_in(cx, left) && operand_keys_in(cx, right),
        RsRvalue::CheckedBinaryOp { left, right, .. } => operand_keys_in(cx, left) && operand_keys_in(cx, right),
        RsRvalue::UnaryOp { operand, .. } => operand_keys_in(cx, operand),
        RsRvalue::Aggregate { operands, .. } => operands_keys_in(cx, operands@),
        RsRvalue::Repeat { operand, .. } => operand_keys_in(cx, operand),
        RsRvalue::Cast { kind, operand, .. } => {
            &&& operand_keys_in(cx, operand)
            &&& (kind matches RsCastKind::ReifyFnPointer { instance } ==> cx.fn_names@.contains(instance))
        },
        _ => true,
    }
}

// ---------------------------------------------------------------------------
// Rvalues
// ---------------------------------------------------------------------------

/// The MiniRust integer operation of a MIR binary operation on integers.
pub open spec fn int_bin_op_of(op: RsBinOp) -> Option<IntBinOp> {
    match op {
        RsBinOp::Add => Some(IntBinOp::Add),
        RsBinOp::Sub => Some(IntBinOp::Sub),
        RsBinOp::Mul => Some(IntBinOp::Mul),
        RsBinOp::Div => Some(IntBinOp::Div),
        RsBinOp::Rem => Some(IntBinOp::Rem),
        RsBinOp::Shl => Some(IntBinOp::Shl),
        RsBinOp::Shr => Some(IntBinOp::Shr),
        RsBinOp::BitAnd => Some(IntBinOp::BitAnd),
        RsBinOp::BitOr => Some(IntBinOp::BitOr),
        RsBinOp::BitXor => Some(IntBinOp::BitXor),
        RsBinOp::AddUnchecked => Some(IntBinOp::AddUnchecked),
        RsBinOp::SubUnchecked => Some(IntBinOp::SubUnchecked),
        RsBinOp::MulUnchecked => Some(IntBinOp::MulUnchecked),
        RsBinOp::ShlUnchecked => Some(IntBinOp::ShlUnchecked),
        RsBinOp::ShrUnchecked => Some(IntBinOp::ShrUnchecked),
        _ => None,
    }
}

/// The MiniRust comparison of a MIR comparison.
pub open spec fn rel_op_of(op: RsBinOp) -> Option<RelOp> {
    match op {
        RsBinOp::Lt => Some(RelOp::Lt),
        RsBinOp::Le => Some(RelOp::Le),
        RsBinOp::Gt => Some(RelOp::Gt),
        RsBinOp::Ge => Some(RelOp::Ge),
        RsBinOp::Eq => Some(RelOp::Eq),
        RsBinOp::Ne => Some(RelOp::Ne),
        _ => None,
    }
}

/// The MiniRust boolean operation of a MIR bit operation on booleans.
pub open spec fn bool_bin_op_of(op: RsBinOp) -> Option<BoolBinOp> {
    match op {
        RsBinOp::BitAnd => Some(BoolBinOp::BitAnd),
        RsBinOp::BitOr => Some(BoolBinOp::BitOr),
        RsBinOp::BitXor => Some(BoolBinOp::BitXor),
        _ => None,
    }
}

/// The MiniRust operation with overflow check of a checked MIR operation.
pub open spec fn overflow_op_of(op: RsBinOp) -> Option<IntBinOpWithOverflow> {
    match op {
        RsBinOp::Add => Some(IntBinOpWithOverflow::Add),
        RsBinOp::Sub => Some(IntBinOpWithOverflow::Sub),
        RsBinOp::Mul => Some(IntBinOpWithOverflow::Mul),
        _ => None,
    }
}

pub open spec fn mk_bin(operator: BinOp, l: ValueExpr, r: ValueExpr) -> ValueExpr {
    ValueExpr::BinOp { operator, left: Box::new(l), right: Box::new(r) }
}

pub open spec fn mk_un(operator: UnOp, v: ValueExpr) -> ValueExpr {
    ValueExpr::UnOp { operator, operand: Box::new(v) }
}

/// A binary operation, given the translated types and values of its operands.
/// A pointer offset is scaled by the size of the (sized) pointee of the raw
/// pointer type `lt`; a three-way comparison is reinterpreted as `Ordering`.
pub open spec fn spec_bin(
    cx: Ctxt,
    op: RsBinOp,
    lt: int,
    lty: Type,
    rty: Type,
    l: ValueExpr,
    r: ValueExpr,
) -> Option<ValueExpr> {
    let tys = cx.tcx.tys@;
    if op == RsBinOp::Offset {
        if lty is Ptr && 0 <= lt < tys.len() {
            match tys[lt].kind {
                RsTyKind::RawPtr { pointee } => if pointee < tys.len() && tys[pointee as int].layout.sized {
                    let size = ValueExpr::Constant(Constant::Int(int_of(tys[pointee as int].layout.size as int)), rty);
                    Some(mk_bin(BinOp::PtrOffset { inbounds: true }, l, mk_bin(BinOp::Int(IntBinOp::MulUnchecked), r, size)))
                } else {
                    None
                },
                _ => None,
            }
        } else {
            None
        }
    } else if int_bin_op_of(op) is Some && lty is Int {
        Some(mk_bin(BinOp::Int(int_bin_op_of(op).unwrap()), l, r))
    } else if rel_op_of(op) is Some {
        Some(mk_bin(BinOp::Rel(rel_op_of(op).unwrap()), l, r))
    } else if op == RsBinOp::Cmp {
        match spec_ty(tys, cx.session.ordering_ty as int) {
            Some(ot) => Some(mk_un(UnOp::Cast(CastOp::Transmute(ot)), mk_bin(BinOp::Cmp, l, r))),
            None => None,
        }
    } else if bool_bin_op_of(op) is Some && lty is Bool {
        Some(mk_bin(BinOp::Bool(bool_bin_op_of(op).unwrap()), l, r))
    } else {
        None
    }
}

/// A unary operation, given the translated type and value of its operand.
pub open spec fn spec_un(op: RsUnOp, ty: Type, v: ValueExpr) -> Option<ValueExpr> {
    match (op, ty) {
        (RsUnOp::Neg, Type::Int(_)) => Some(mk_un(UnOp::Int(IntUnOp::Neg), v)),
        (RsUnOp::Not, Type::Int(_)) => Some(mk_un(UnOp::Int(IntUnOp::BitNot), v)),
        (RsUnOp::Not, Type::Bool) => Some(mk_un(UnOp::BoolNot, v)),
        (RsUnOp::PtrMetadata, Type::Ptr(_)) => Some(mk_un(UnOp::GetMetadata, v)),
        _ => None,
    }
}

/// `n` copies of `v`.
pub open spec fn repeat_seq(v: ValueExpr, n: nat) -> Seq<ValueExpr> {
    Seq::new(n, |i: int| v)
}

/// A `usize` constant (a `u64` on the default target).
pub open spec fn usize_const(v: int) -> ValueExpr {
    ValueExpr::Constant(Constant::Int(int_of(v)), Type::Int(usize_ty()))
}

/// The value of a nullary operation on the type `ty`.
pub open spec fn spec_nullary(cx: Ctxt, op: RsNullOp, ty: int) -> Option<ValueExpr> {
    let tys = cx.tcx.tys@;
    if 0 <= ty < tys.len() {
        match op {
            RsNullOp::UbChecks => Some(ValueExpr::Constant(Constant::Bool(cx.session.ub_checks), Type::Bool)),
            RsNullOp::SizeOf => Some(usize_const(tys[ty].layout.size as int)),
            RsNullOp::AlignOf => Some(usize_const(tys[ty].layout.align as int)),
            RsNullOp::OffsetOf { offset } => Some(usize_const(offset as int)),
        }
    } else {
        None
    }
}

/// The type a pointer type points to (a reference, raw pointer or box).
pub open spec fn builtin_deref(tys: Seq<RsTy>, ty: int) -> Option<TyId> {
    if 0 <= ty < tys.len() {
        match tys[ty].kind {
            RsTyKind::Ref { pointee, .. } => Some(pointee),
            RsTyKind::RawPtr { pointee } => Some(pointee),
            RsTyKind::Box { pointee } => Some(pointee),
            _ => None,
        }
    } else {
        None
    }
}

/// An aggregate of type `ty` (with translation `t`) built from `ops`.
pub open spec fn spec_aggregate(
    body: RsBody,
    cx: Ctxt,
    ty: int,
    t: Type,
    variant: int,
    union_field: Option<usize>,
    ops: Seq<RsOperand>,
) -> Option<ValueExpr> {
    match t {
        Type::Union { .. } => match union_field {
            Some(f) => if ops.len() == 1 {
                match spec_operand(body, cx, ops[0]) {
                    Some(v) => Some(ValueExpr::Union { field: f as u64, expr: Box::new(v), union_ty: t }),
                    None => None,
                }
            } else {
                None
            },
            None => None,
        },
        Type::Tuple { .. } => match spec_operands(body, cx, ops, 0) {
            Some(l) => Some(ValueExpr::Tuple(l, t)),
            None => None,
        },
        Type::Array { .. } => match spec_operands(body, cx, ops, 0) {
            Some(l) => Some(ValueExpr::Tuple(l, t)),
            None => None,
        },
        // The fields of an enum variant are a MiniRust tuple of the variant's type.
        Type::Enum { variants, .. } => match (spec_discriminant(cx.tcx.tys@, ty, variant), spec_operands(body, cx, ops, 0)) {
            (Some(d), Some(l)) => match list_lookup(variants, d) {
                Some(v) => Some(ValueExpr::Variant { discriminant: d, data: Box::new(ValueExpr::Tuple(l, v.ty)), enum_ty: t }),
                None => None,
            },
            _ => None,
        },
        // A wide raw pointer from its thin part and its metadata.
        Type::Ptr(PtrType::Raw { meta_kind }) => if ops.len() == 2 {
            match (spec_operand(body, cx, ops[0]), spec_operand(body, cx, ops[1])) {
                (Some(p), Some(m)) => Some(mk_bin(BinOp::ConstructWidePointer(PtrType::Raw { meta_kind }), p, m)),
                _ => None,
            }
        } else {
            None
        },
        _ => None,
    }
}

/// A cast of `operand` (of type `ot`) to type `ty`.
pub open spec fn spec_cast(body: RsBody, cx: Ctxt, kind: RsCastKind, operand: RsOperand, ot: int, ty: int) -> Option<ValueExpr> {
    let tys = cx.tcx.tys@;
    match kind {
        RsCastKind::IntToInt => match (spec_ty(tys, ot), spec_operand(body, cx, operand), spec_ty(tys, ty)) {
            (Some(from), Some(v), Some(Type::Int(it))) => match from {
                Type::Int(_) => Some(mk_un(UnOp::Cast(CastOp::IntToInt(it)), v)),
                // A boolean is first reinterpreted as a `u8`.
                Type::Bool => Some(mk_un(
                    UnOp::Cast(CastOp::IntToInt(it)),
                    mk_un(UnOp::Cast(CastOp::Transmute(Type::Int(u8_ty()))), v),
                )),
                _ => None,
            },
            _ => None,
        },
        RsCastKind::PtrToPtr => match (spec_ty(tys, ot), spec_ty(tys, ty), spec_operand(body, cx, operand)) {
            (Some(Type::Ptr(PtrType::Raw { meta_kind: old_mk })), Some(Type::Ptr(PtrType::Raw { meta_kind: new_mk })), Some(v)) =>
                if old_mk == new_mk {
                    Some(v)
                } else if new_mk == PointerMetaKind::Thin {
                    Some(mk_un(UnOp::GetThinPointer, v))
                } else {
                    None
                },
            _ => None,
        },
        // Only unsizing an array to a slice of the same element type is supported.
        RsCastKind::Unsize => match (builtin_deref(tys, ot), builtin_deref(tys, ty)) {
            (Some(op_pointee), Some(new_pointee)) => match (
                spec_ty(tys, op_pointee as int),
                spec_ty(tys, new_pointee as int),
                spec_ty(tys, ty),
                spec_operand(body, cx, operand),
            ) {
                (Some(Type::Array { count, elem: a }), Some(Type::Slice { elem: s }), Some(Type::Ptr(p)), Some(v)) =>
                    if a == s {
                        Some(mk_bin(
                            BinOp::ConstructWidePointer(p),
                            v,
                            ValueExpr::Constant(Constant::Int(count), Type::Int(usize_ty())),
                        ))
                    } else {
                        None
                    },
                _ => None,
            },
            _ => None,
        },
        RsCastKind::Transmute => match (spec_operand(body, cx, operand), spec_ty(tys, ty)) {
            (Some(v), Some(t)) => Some(mk_un(UnOp::Cast(CastOp::Transmute(t)), v)),
            _ => None,
        },
        // Only a function item given as a constant can be reified.
        RsCastKind::ReifyFnPointer { instance } => if operand is Constant {
            Some(ValueExpr::Constant(Constant::FnPointer(fn_name_of(cx.fn_names@, instance)), Type::Ptr(PtrType::FnPtr)))
        } else {
            None
        },
        // Exposing casts are statements of their own; the rest is unsupported.
        _ => None,
    }
}

/// The MiniRust value of an rvalue, or `None` where it is not supported.
pub open spec fn spec_rvalue(body: RsBody, cx: Ctxt, rv: RsRvalue) -> Option<ValueExpr> {
    let tys = cx.tcx.tys@;
    match rv {
        RsRvalue::Use(o) => spec_operand(body, cx, o),
        RsRvalue::BinaryOp { op, left, right } => {
            let lt = spec_operand_ty(body, left);
            match (spec_ty(tys, lt), spec_ty(tys, spec_operand_ty(body, right)), spec_operand(body, cx, left), spec_operand(body, cx, right)) {
                (Some(lty), Some(rty), Some(l), Some(r)) => spec_bin(cx, op, lt, lty, rty, l, r),
                _ => None,
            }
        },
        RsRvalue::CheckedBinaryOp { op, left, right } => match (spec_operand(body, cx, left), spec_operand(body, cx, right), overflow_op_of(op)) {
            (Some(l), Some(r), Some(o)) => Some(mk_bin(BinOp::IntWithOverflow(o), l, r)),
            _ => None,
        },
        RsRvalue::UnaryOp { op, operand } => match (spec_ty(tys, spec_operand_ty(body, operand)), spec_operand(body, cx, operand)) {
            (Some(t), Some(v)) => spec_un(op, t, v),
            _ => None,
        },
        RsRvalue::Ref { mutbl, place } => match (spec_place(body, tys, place), spec_pointee_info(tys, spec_place_ty(body, place))) {
            (Some(target), Some(pointee)) => Some(ValueExpr::AddrOf {
                target: Box::new(target),
                ptr_ty: PtrType::Ref { mutbl: spec_mutbl(mutbl), pointee },
            }),
            _ => None,
        },
        RsRvalue::NullaryOp { op, ty } => spec_nullary(cx, op, ty as int),
        RsRvalue::AddressOf { place } => match (spec_place(body, tys, place), spec_pointee_info(tys, spec_place_ty(body, place))) {
            (Some(target), Some(pointee)) => Some(ValueExpr::AddrOf {
                target: Box::new(target),
                ptr_ty: PtrType::Raw { meta_kind: pointee.layout.spec_meta_kind() },
            }),
            _ => None,
        },
        RsRvalue::Aggregate { ty, variant, union_field, operands } => match spec_ty(tys, ty as int) {
            Some(t) => spec_aggregate(body, cx, ty as int, t, variant as int, union_field, operands@),
            None => None,
        },
        RsRvalue::CopyForDeref(place) => load_of(spec_place(body, tys, place)),
        // The length of an array is its count; that of a slice its metadata.
        RsRvalue::Len(place) => if place.local < body.local_tys@.len() {
            match spec_ty(tys, spec_place_ty(body, place)) {
                Some(Type::Array { count, .. }) => Some(ValueExpr::Constant(Constant::Int(count), Type::Int(usize_ty()))),
                Some(Type::Slice { .. }) => match spec_place(body, tys, place) {
                    Some(target) => Some(mk_un(
                        UnOp::GetMetadata,
                        ValueExpr::AddrOf {
                            target: Box::new(target),
                            ptr_ty: PtrType::Raw { meta_kind: PointerMetaKind::ElementCount },
                        },
                    )),
                    None => None,
                },
                _ => None,
            }
        } else {
            None
        },
        RsRvalue::Discriminant(place) => match spec_place(body, tys, place) {
            Some(p) => Some(ValueExpr::GetDiscriminant { place: Box::new(p) }),
            None => None,
        },
        // An array with `count` copies of the operand.
        RsRvalue::Repeat { operand, count } => match (spec_ty(tys, spec_operand_ty(body, operand)), spec_operand(body, cx, operand)) {
            (Some(elem), Some(v)) => Some(ValueExpr::Tuple(
                list_from_seq(repeat_seq(v, count as nat)),
                Type::Array { elem: Box::new(elem), count: int_of(count as int) },
            )),
            _ => None,
        },
        RsRvalue::Cast { kind, operand, ty } => spec_cast(body, cx, kind, operand, spec_operand_ty(body, operand), ty as int),
        RsRvalue::Unsupported => None,
    }
}

// ---------------------------------------------------------------------------
// The executable translation
// ---------------------------------------------------------------------------

fn int_bin_op(op: RsBinOp) -> (r: Option<IntBinOp>)
    ensures
        r == int_bin_op_of(op),
{
    match op {
        RsBinOp::Add => Some(IntBinOp::Add),
        RsBinOp::Sub => Some(IntBinOp::Sub),
        RsBinOp::Mul => Some(IntBinOp::Mul),
        RsBinOp::Div => Some(IntBinOp::Div),
        RsBinOp::Rem => Some(IntBinOp::Rem),
        RsBinOp::Shl => Some(IntBinOp::Shl),
        RsBinOp::Shr => Some(IntBinOp::Shr),
        RsBinOp::BitAnd => Some(IntBinOp::BitAnd),
        RsBinOp::BitOr => Some(IntBinOp::BitOr),
        RsBinOp::BitXor => Some(IntBinOp::BitXor),
        RsBinOp::AddUnchecked => Some(IntBinOp::AddUnchecked),
        RsBinOp::SubUnchecked => Some(IntBinOp::SubUnchecked),
        RsBinOp::MulUnchecked => Some(IntBinOp::MulUnchecked),
        RsBinOp::ShlUnchecked => Some(IntBinOp::ShlUnchecked),
        RsBinOp::ShrUnchecked => Some(IntBinOp::ShrUnchecked),
        _ => None,
    }
}

fn rel_op(op: RsBinOp) -> (r: Option<RelOp>)
    ensures
        r == rel_op_of(op),
{
    match op {
        RsBinOp::Lt => Some(RelOp::Lt),
        RsBinOp::Le => Some(RelOp::Le),
        RsBinOp::Gt => Some(RelOp::Gt),
        RsBinOp::Ge => Some(RelOp::Ge),
        RsBinOp::Eq => Some(RelOp::Eq),
        RsBinOp::Ne => Some(RelOp::Ne),
        _ => None,
    }
}

fn bool_bin_op(op: RsBinOp) -> (r: Option<BoolBinOp>)
    ensures
        r == bool_bin_op_of(op),
{
    match op {
        RsBinOp::BitAnd => Some(BoolBinOp::BitAnd),
        RsBinOp::BitOr => Some(BoolBinOp::BitOr),
        RsBinOp::BitXor => Some(BoolBinOp::BitXor),
        _ => None,
    }
}

fn overflow_op(op: RsBinOp) -> (r: Option<IntBinOpWithOverflow>)
    ensures
        r == overflow_op_of(op),
{
    match op {
        RsBinOp::Add => Some(IntBinOpWithOverflow::Add),
        RsBinOp::Sub => Some(IntBinOpWithOverflow::Sub),
        RsBinOp::Mul => Some(IntBinOpWithOverflow::Mul),
        _ => None,
    }
}

fn make_usize_const(v: u64) -> (r: ValueExpr)
    ensures
        r == usize_const(v as int),
{
    let i = Int::from_u64(v);
    proof {
        lemma_int_of(i);
    }
    ValueExpr::Constant(Constant::Int(i), Type::Int(make_usize_ty()))
}

/// `n` copies of `v`, as a list.
fn repeat_value(v: &ValueExpr, n: u64) -> (r: List<ValueExpr>)
    ensures
        r == list_from_seq(repeat_seq(*v, n as nat)),
{
    let mut acc: List<ValueExpr> = List::Nil;
    let mut k: u64 = 0;
    proof {
        assert(repeat_seq(*v, 0).len() == 0);
    }
    while k < n
        invariant
            k <= n,
            acc == list_from_seq(repeat_seq(*v, k as nat)),
        decreases n - k,
    {
        let c = copy_value(v);
        proof {
            let s = repeat_seq(*v, (k + 1) as nat);
            assert(s.drop_first() =~= repeat_seq(*v, k as nat));
            assert(s[0] == *v);
        }
        acc = List::Cons(Box::new(c), Box::new(acc));
        k = k + 1;
    }
    acc
}

impl Ctxt {
    /// The type a reference, raw pointer or box type points to.
    fn builtin_deref(&self, ty: TyId) -> (r: TyId)
        requires
            builtin_deref(self.tcx.tys@, ty as int) is Some,
        ensures
            r == builtin_deref(self.tcx.tys@, ty as int).unwrap(),
    {
        match &self.tcx.tys[ty].kind {
            RsTyKind::Ref { pointee, .. } => *pointee,
            RsTyKind::RawPtr { pointee } => *pointee,
            RsTyKind::Box { pointee } => *pointee,
            _ => {
                proof { assert(false); }
                0
            },
        }
    }
}

impl FnCtxt {
    /// The type of a place.
    pub fn place_ty(&self, p: &RsPlace) -> (r: TyId)
        requires
            p.local < self.body.local_tys@.len(),
        ensures
            r == spec_place_ty(self.body, *p),
    {
        let n = p.projection.len();
        if n == 0 {
            self.body.local_tys[p.local]
        } else {
            p.projection[n - 1].ty
        }
    }

    /// The MiniRust place of a MIR place.
    pub fn translate_place(&self, p: &RsPlace) -> (r: PlaceExpr)
        requires
            self.wf(),
            spec_place(self.body, self.cx.tcx.tys@, *p) is Some,
        ensures
            r == spec_place(self.body, self.cx.tcx.tys@, *p).unwrap(),
    {
        let ghost tys = self.cx.tcx.tys@;
        let ghost len = p.projection@.len() as int;
        proof {
            lemma_place_prefix_some(self.body, tys, *p, len, 0);
        }
        let mut expr = PlaceExpr::Local(LocalName(p.local as u32));
        let mut i: usize = 0;
        while i < p.projection.len()
            invariant
                self.wf(),
                tys == self.cx.tcx.tys@,
                len == p.projection@.len(),
                i <= len,
                spec_place_prefix(self.body, tys, *p, len) is Some,
                spec_place_prefix(self.body, tys, *p, i as int) == Some(expr),
            decreases len - i,
        {
            proof {
                lemma_place_prefix_some(self.body, tys, *p, len, i + 1);
            }
            let proj = &p.projection[i];
            expr = match &proj.kind {
                RsProjKind::Field { field } => PlaceExpr::Field { root: Box::new(expr), field: *field as u64 },
                RsProjKind::Deref => {
                    let ty = self.cx.translate_ty(proj.ty);
                    PlaceExpr::Deref { operand: Box::new(ValueExpr::Load { source: Box::new(expr) }), ty }
                },
                RsProjKind::Index { local } => PlaceExpr::Index {
                    root: Box::new(expr),
                    index: Box::new(ValueExpr::Load { source: Box::new(PlaceExpr::Local(LocalName(*local as u32))) }),
                },
                RsProjKind::Downcast { variant } => {
                    let discriminant = self.cx.discriminant_for_variant_smir(proj.ty, *variant);
                    PlaceExpr::Downcast { root: Box::new(expr), discriminant }
                },
                RsProjKind::Other => {
                    proof { assert(false); }
                    expr
                },
            };
            i = i + 1;
        }
        expr
    }

    /// [`FnCtxt::translate_place`], for a place as stable MIR gives it (the
    /// same place here).
    pub fn translate_place_smir(&self, p: &RsPlace) -> (r: PlaceExpr)
        requires
            self.wf(),
            spec_place(self.body, self.cx.tcx.tys@, *p) is Some,
        ensures
            r == spec_place(self.body, self.cx.tcx.tys@, *p).unwrap(),
    {
        self.translate_place(p)
    }

    /// The type of an operand.
    pub fn operand_ty(&self, op: &RsOperand) -> (r: TyId)
        requires
            spec_operand(self.body, self.cx, *op) is Some,
        ensures
            r == spec_operand_ty(self.body, *op),
    {
        match op {
            RsOperand::Copy(p) | RsOperand::Move(p) => {
                proof {
                    lemma_place_prefix_some(self.body, self.cx.tcx.tys@, *p, p.projection@.len() as int, 0);
                }
                self.place_ty(p)
            },
            RsOperand::Constant(c) => c.ty,
        }
    }

    /// The MiniRust value of an operand.
    pub fn translate_operand(&mut self, op: &RsOperand) -> (r: ValueExpr)
        requires
            old(self).wf(),
            spec_operand(old(self).body, old(self).cx, *op) is Some,
            operand_keys_in(old(self).cx, *op),
        ensures
            *final(self) == *old(self),
            r == spec_operand(old(self).body, old(self).cx, *op).unwrap(),
    {
        match op {
            RsOperand::Constant(c) => {
                proof {
                    lemma_const_valid(self.cx, *c);
                }
                self.translate_const(c)
            },
            RsOperand::Copy(p) => ValueExpr::Load { source: Box::new(self.translate_place(p)) },
            RsOperand::Move(p) => ValueExpr::Load { source: Box::new(self.translate_place(p)) },
        }
    }

    /// [`FnCtxt::translate_operand`], for an operand as stable MIR gives it
    /// (it is the same value here).
    pub fn translate_operand_smir(&mut self, op: &RsOperand) -> (r: ValueExpr)
        requires
            old(self).wf(),
            spec_operand(old(self).body, old(self).cx, *op) is Some,
            operand_keys_in(old(self).cx, *op),
        ensures
            *final(self) == *old(self),
            r == spec_operand(old(self).body, old(self).cx, *op).unwrap(),
    {
        self.translate_operand(op)
    }

    /// The values of operands `i..` of `ops`.
    pub fn translate_operands(&mut self, ops: &Vec<RsOperand>, i: usize) -> (r: List<ValueExpr>)
        requires
            old(self).wf(),
            spec_operands(old(self).body, old(self).cx, ops@, i as int) is Some,
            operands_keys_in(old(self).cx, ops@),
        ensures
            *final(self) == *old(self),
            r == spec_operands(old(self).body, old(self).cx, ops@, i as int).unwrap(),
        decreases ops@.len() - i,
    {
        if i >= ops.len() {
            return List::Nil;
        }
        let v = self.translate_operand(&ops[i]);
        let rest = self.translate_operands(ops, i + 1);
        List::Cons(Box::new(v), Box::new(rest))
    }
}

impl FnCtxt {
    /// A binary operation on translated operands (see [`spec_bin`]).
    fn translate_bin(&self, op: RsBinOp, lt: TyId, lty: Type, rty: Type, l: ValueExpr, r: ValueExpr) -> (res: ValueExpr)
        requires
            self.wf(),
            spec_bin(self.cx, op, lt as int, lty, rty, l, r) is Some,
        ensures
            res == spec_bin(self.cx, op, lt as int, lty, rty, l, r).unwrap(),
    {
        let is_int = match &lty {
            Type::Int(_) => true,
            _ => false,
        };
        let ib = int_bin_op(op);
        let ro = rel_op(op);
        if op == RsBinOp::Offset {
            // The offset counts elements; MiniRust wants bytes.
            let pointee = match &self.cx.tcx.tys[lt].kind {
                RsTyKind::RawPtr { pointee } => *pointee,
                _ => {
                    proof { assert(false); }
                    0
                },
            };
            let size = Int::from_u64(self.cx.tcx.tys[pointee].layout.size);
            proof {
                lemma_int_of(size);
            }
            let size = ValueExpr::Constant(Constant::Int(size), rty);
            let offset_bytes = ValueExpr::BinOp {
                operator: BinOp::Int(IntBinOp::MulUnchecked),
                left: Box::new(r),
                right: Box::new(size),
            };
            ValueExpr::BinOp { operator: BinOp::PtrOffset { inbounds: true }, left: Box::new(l), right: Box::new(offset_bytes) }
        } else if ib.is_some() && is_int {
            ValueExpr::BinOp { operator: BinOp::Int(ib.unwrap()), left: Box::new(l), right: Box::new(r) }
        } else if ro.is_some() {
            ValueExpr::BinOp { operator: BinOp::Rel(ro.unwrap()), left: Box::new(l), right: Box::new(r) }
        } else if op == RsBinOp::Cmp {
            // MiniRust's comparison gives an `i8`, MIR's an `Ordering`.
            let ordering_ty = self.cx.translate_ty(self.cx.session.ordering_ty);
            let res = ValueExpr::BinOp { operator: BinOp::Cmp, left: Box::new(l), right: Box::new(r) };
            ValueExpr::UnOp { operator: UnOp::Cast(CastOp::Transmute(ordering_ty)), operand: Box::new(res) }
        } else {
            let bo = bool_bin_op(op);
            ValueExpr::BinOp { operator: BinOp::Bool(bo.unwrap()), left: Box::new(l), right: Box::new(r) }
        }
    }

    /// An aggregate value (see [`spec_aggregate`]).
    fn translate_aggregate(
        &mut self,
        ty: TyId,
        variant: usize,
        union_field: Option<usize>,
        operands: &Vec<RsOperand>,
    ) -> (r: ValueExpr)
        requires
            old(self).wf(),
            spec_ty(old(self).cx.tcx.tys@, ty as int) is Some,
            spec_aggregate(
                old(self).body,
                old(self).cx,
                ty as int,
                spec_ty(old(self).cx.tcx.tys@, ty as int).unwrap(),
                variant as int,
                union_field,
                operands@,
            ) is Some,
            operands_keys_in(old(self).cx, operands@),
        ensures
            *final(self) == *old(self),
            r == spec_aggregate(
                old(self).body,
                old(self).cx,
                ty as int,
                spec_ty(old(self).cx.tcx.tys@, ty as int).unwrap(),
                variant as int,
                union_field,
                operands@,
            ).unwrap(),
    {
        let t = self.cx.translate_ty(ty);
        match &t {
            Type::Union { .. } => {
                let f = match union_field {
                    Some(f) => f,
                    None => {
                        proof { assert(false); }
                        0
                    },
                };
                let v = self.translate_operand(&operands[0]);
                ValueExpr::Union { field: f as u64, expr: Box::new(v), union_ty: t }
            },
            Type::Tuple { .. } | Type::Array { .. } => {
                let l = self.translate_operands(operands, 0);
                ValueExpr::Tuple(l, t)
            },
            Type::Enum { variants, .. } => {
                let discriminant = self.cx.discriminant_for_variant_smir(ty, variant);
                let l = self.translate_operands(operands, 0);
                let vty = lookup_variant_ty(variants, discriminant);
                ValueExpr::Variant { discriminant, data: Box::new(ValueExpr::Tuple(l, vty)), enum_ty: t }
            },
            Type::Ptr(PtrType::Raw { meta_kind }) => {
                let mk = *meta_kind;
                let p = self.translate_operand(&operands[0]);
                let m = self.translate_operand(&operands[1]);
                // MIR pairs the pointer with metadata of the right kind.
                ValueExpr::BinOp {
                    operator: BinOp::ConstructWidePointer(PtrType::Raw { meta_kind: mk }),
                    left: Box::new(p),
                    right: Box::new(m),
                }
            },
            _ => {
                proof { assert(false); }
                ValueExpr::Tuple(List::Nil, t)
            },
        }
    }

    /// A cast (see [`spec_cast`]).
    fn translate_cast(&mut self, kind: RsCastKind, operand: &RsOperand, ty: TyId) -> (r: ValueExpr)
        requires
            old(self).wf(),
            spec_cast(old(self).body, old(self).cx, kind, *operand, spec_operand_ty(old(self).body, *operand), ty as int) is Some,
            operand_keys_in(old(self).cx, *operand),
            kind matches RsCastKind::ReifyFnPointer { instance } ==> old(self).cx.fn_names@.contains(instance),
        ensures
            *final(self) == *old(self),
            r == spec_cast(old(self).body, old(self).cx, kind, *operand, spec_operand_ty(old(self).body, *operand), ty as int).unwrap(),
    {
        match kind {
            RsCastKind::IntToInt => {
                let from = self.cx.translate_ty(self.operand_ty(operand));
                let v = self.translate_operand(operand);
                let it = match self.cx.translate_ty(ty) {
                    Type::Int(it) => it,
                    _ => {
                        proof { assert(false); }
                        return v;
                    },
                };
                let v = match from {
                    Type::Int(_) => v,
                    // `bool` to integer goes through `u8`.
                    _ => ValueExpr::UnOp {
                        operator: UnOp::Cast(CastOp::Transmute(Type::Int(make_u8_ty()))),
                        operand: Box::new(v),
                    },
                };
                ValueExpr::UnOp { operator: UnOp::Cast(CastOp::IntToInt(it)), operand: Box::new(v) }
            },
            RsCastKind::PtrToPtr => {
                let old_mk = match self.cx.translate_ty(self.operand_ty(operand)) {
                    Type::Ptr(PtrType::Raw { meta_kind }) => meta_kind,
                    _ => {
                        proof { assert(false); }
                        PointerMetaKind::Thin
                    },
                };
                let new_mk = match self.cx.translate_ty(ty) {
                    Type::Ptr(PtrType::Raw { meta_kind }) => meta_kind,
                    _ => {
                        proof { assert(false); }
                        PointerMetaKind::Thin
                    },
                };
                let v = self.translate_operand(operand);
                if old_mk == new_mk {
                    // Raw pointers only care about the kind of metadata.
                    v
                } else {
                    ValueExpr::UnOp { operator: UnOp::GetThinPointer, operand: Box::new(v) }
                }
            },
            RsCastKind::Unsize => {
                let old_pointee = self.cx.builtin_deref(self.operand_ty(operand));
                let count = match self.cx.translate_ty(old_pointee) {
                    Type::Array { count, .. } => count,
                    _ => {
                        proof { assert(false); }
                        Int::zero()
                    },
                };
                let p = match self.cx.translate_ty(ty) {
                    Type::Ptr(p) => p,
                    _ => {
                        proof { assert(false); }
                        PtrType::FnPtr
                    },
                };
                let v = self.translate_operand(operand);
                let meta = ValueExpr::Constant(Constant::Int(count), Type::Int(make_usize_ty()));
                ValueExpr::BinOp { operator: BinOp::ConstructWidePointer(p), left: Box::new(v), right: Box::new(meta) }
            },
            RsCastKind::Transmute => {
                let v = self.translate_operand(operand);
                let t = self.cx.translate_ty(ty);
                ValueExpr::UnOp { operator: UnOp::Cast(CastOp::Transmute(t)), operand: Box::new(v) }
            },
            RsCastKind::ReifyFnPointer { instance } => {
                let name = self.cx.get_fn_name_smir(instance);
                ValueExpr::Constant(Constant::FnPointer(name), Type::Ptr(PtrType::FnPtr))
            },
            _ => {
                proof { assert(false); }
                ValueExpr::Tuple(List::Nil, Type::Bool)
            },
        }
    }

    /// The MiniRust value of an rvalue.
    pub fn translate_rvalue(&mut self, rv: &RsRvalue) -> (r: ValueExpr)
        requires
            old(self).wf(),
            spec_rvalue(old(self).body, old(self).cx, *rv) is Some,
            rvalue_keys_in(old(self).cx, *rv),
        ensures
            *final(self) == *old(self),
            r == spec_rvalue(old(self).body, old(self).cx, *rv).unwrap(),
    {
        let ghost tys = self.cx.tcx.tys@;
        match rv {
            RsRvalue::Use(o) => self.translate_operand(o),
            RsRvalue::BinaryOp { op, left, right } => {
                let lt = self.operand_ty(left);
                let lty = self.cx.translate_ty(lt);
                let rty = self.cx.translate_ty(self.operand_ty(right));
                let l = self.translate_operand(left);
                let r = self.translate_operand(right);
                self.translate_bin(*op, lt, lty, rty, l, r)
            },
            RsRvalue::CheckedBinaryOp { op, left, right } => {
                let l = self.translate_operand(left);
                let r = self.translate_operand(right);
                let o = overflow_op(*op);
                ValueExpr::BinOp { operator: BinOp::IntWithOverflow(o.unwrap()), left: Box::new(l), right: Box::new(r) }
            },
            RsRvalue::UnaryOp { op, operand } => {
                let ty = self.cx.translate_ty(self.operand_ty(operand));
                let v = self.translate_operand(operand);
                match (*op, ty) {
                    (RsUnOp::Neg, Type::Int(_)) => ValueExpr::UnOp { operator: UnOp::Int(IntUnOp::Neg), operand: Box::new(v) },
                    (RsUnOp::Not, Type::Int(_)) => ValueExpr::UnOp { operator: UnOp::Int(IntUnOp::BitNot), operand: Box::new(v) },
                    (RsUnOp::Not, Type::Bool) => ValueExpr::UnOp { operator: UnOp::BoolNot, operand: Box::new(v) },
                    (RsUnOp::PtrMetadata, Type::Ptr(_)) => ValueExpr::UnOp { operator: UnOp::GetMetadata, operand: Box::new(v) },
                    _ => {
                        proof { assert(false); }
                        v
                    },
                }
            },
            RsRvalue::Ref { mutbl, place } => {
                proof {
                    lemma_place_prefix_some(self.body, tys, *place, place.projection@.len() as int, 0);
                }
                let pointee = self.cx.pointee_info_of_smir(self.place_ty(place));
                let target = self.translate_place(place);
                let mutbl = translate_mutbl_smir(*mutbl);
                ValueExpr::AddrOf { target: Box::new(target), ptr_ty: PtrType::Ref { mutbl, pointee } }
            },
            RsRvalue::NullaryOp { op, ty } => match op {
                RsNullOp::UbChecks => ValueExpr::Constant(Constant::Bool(self.cx.session.ub_checks), Type::Bool),
                RsNullOp::SizeOf => make_usize_const(self.cx.tcx.tys[*ty].layout.size),
                RsNullOp::AlignOf => make_usize_const(self.cx.tcx.tys[*ty].layout.align),
                RsNullOp::OffsetOf { offset } => make_usize_const(*offset),
            },
            RsRvalue::AddressOf { place } => {
                proof {
                    lemma_place_prefix_some(self.body, tys, *place, place.projection@.len() as int, 0);
                }
                let pointee = self.cx.pointee_info_of_smir(self.place_ty(place));
                let target = self.translate_place(place);
                ValueExpr::AddrOf { target: Box::new(target), ptr_ty: PtrType::Raw { meta_kind: pointee.layout.meta_kind() } }
            },
            RsRvalue::Aggregate { ty, variant, union_field, operands } =>
                self.translate_aggregate(*ty, *variant, *union_field, operands),
            RsRvalue::CopyForDeref(place) => ValueExpr::Load { source: Box::new(self.translate_place(place)) },
            RsRvalue::Len(place) => match self.cx.translate_ty(self.place_ty(place)) {
                // The place is not evaluated for arrays.
                Type::Array { count, .. } => ValueExpr::Constant(Constant::Int(count), Type::Int(make_usize_ty())),
                _ => {
                    let target = self.translate_place(place);
                    let ptr = ValueExpr::AddrOf {
                        target: Box::new(target),
                        ptr_ty: PtrType::Raw { meta_kind: PointerMetaKind::ElementCount },
                    };
                    ValueExpr::UnOp { operator: UnOp::GetMetadata, operand: Box::new(ptr) }
                },
            },
            RsRvalue::Discriminant(place) => ValueExpr::GetDiscriminant { place: Box::new(self.translate_place(place)) },
            RsRvalue::Repeat { operand, count } => {
                let elem = self.cx.translate_ty(self.operand_ty(operand));
                let v = self.translate_operand(operand);
                let ops = repeat_value(&v, *count);
                let c = Int::from_u64(*count);
                proof {
                    lemma_int_of(c);
                }
                ValueExpr::Tuple(ops, Type::Array { elem: Box::new(elem), count: c })
            },
            RsRvalue::Cast { kind, operand, ty } => self.translate_cast(*kind, operand, *ty),
            RsRvalue::Unsupported => {
                proof { assert(false); }
                ValueExpr::Tuple(List::Nil, Type::Bool)
            },
        }
    }
}

impl FnCtxt {
    /// [`FnCtxt::translate_rvalue`], for an rvalue as stable MIR gives it
    /// (the same value here).
    pub fn translate_rvalue_smir(&mut self, rv: &RsRvalue) -> (r: ValueExpr)
        requires
            old(self).wf(),
            spec_rvalue(old(self).body, old(self).cx, *rv) is Some,
            rvalue_keys_in(old(self).cx, *rv),
        ensures
            *final(self) == *old(self),
            r == spec_rvalue(old(self).body, old(self).cx, *rv).unwrap(),
    {
        self.translate_rvalue(rv)
    }
}

// ---------------------------------------------------------------------------
// What the operations mean
// ---------------------------------------------------------------------------

/// Division rounding toward zero, as Rust and MiniRust divide integers.
pub open spec fn trunc_div(a: int, b: int) -> int {
    if b == 0 {
        0
    } else {
        let q = (if a < 0 { -a } else { a }) / (if b < 0 { -b } else { b });
        if (a < 0) != (b < 0) { -q } else { q }
    }
}

/// The remainder that goes with [`trunc_div`].
pub open spec fn trunc_rem(a: int, b: int) -> int {
    a - b * trunc_div(a, b)
}

/// Whether a MIR comparison holds of two integers.
pub open spec fn mir_cmp_holds(op: RsBinOp, a: int, b: int) -> Option<bool> {
    match op {
        RsBinOp::Lt => Some(a < b),
        RsBinOp::Le => Some(a <= b),
        RsBinOp::Gt => Some(a > b),
        RsBinOp::Ge => Some(a >= b),
        RsBinOp::Eq => Some(a == b),
        RsBinOp::Ne => Some(a != b),
        _ => None,
    }
}

/// Whether a MiniRust relation holds of two integers.
pub open spec fn rel_holds(r: RelOp, a: int, b: int) -> bool {
    match r {
        RelOp::Lt => a < b,
        RelOp::Le => a <= b,
        RelOp::Gt => a > b,
        RelOp::Ge => a >= b,
        RelOp::Eq => a == b,
        RelOp::Ne => a != b,
    }
}

/// The mathematical result of a MIR arithmetic, shift or bit operation on
/// integers (before the result is fitted to its type; the bit operations are
/// taken on the two's complement bits), and whether overflow is undefined
/// behaviour rather than wrapping.
pub open spec fn mir_int_meaning(op: RsBinOp, a: int, b: int) -> Option<(int, bool)> {
    match op {
        RsBinOp::Add => Some((a + b, false)),
        RsBinOp::AddUnchecked => Some((a + b, true)),
        RsBinOp::Sub => Some((a - b, false)),
        RsBinOp::SubUnchecked => Some((a - b, true)),
        RsBinOp::Mul => Some((a * b, false)),
        RsBinOp::MulUnchecked => Some((a * b, true)),
        RsBinOp::Div => Some((trunc_div(a, b), false)),
        RsBinOp::Rem => Some((trunc_rem(a, b), false)),
        RsBinOp::Shl => Some((a * pow2(b as nat), false)),
        RsBinOp::ShlUnchecked => Some((a * pow2(b as nat), true)),
        RsBinOp::Shr => Some((a / (pow2(b as nat) as int), false)),
        RsBinOp::ShrUnchecked => Some((a / (pow2(b as nat) as int), true)),
        RsBinOp::BitAnd => Some((((a as u128) & (b as u128)) as int, false)),
        RsBinOp::BitOr => Some((((a as u128) | (b as u128)) as int, false)),
        RsBinOp::BitXor => Some((((a as u128) ^ (b as u128)) as int, false)),
        _ => None,
    }
}

/// The mathematical result of a MiniRust integer operation, in the same
/// terms as [`mir_int_meaning`].
pub open spec fn int_op_meaning(op: IntBinOp, a: int, b: int) -> (int, bool) {
    match op {
        IntBinOp::Add => (a + b, false),
        IntBinOp::AddUnchecked => (a + b, true),
        IntBinOp::Sub => (a - b, false),
        IntBinOp::SubUnchecked => (a - b, true),
        IntBinOp::Mul => (a * b, false),
        IntBinOp::MulUnchecked => (a * b, true),
        IntBinOp::Div => (trunc_div(a, b), false),
        IntBinOp::DivExact => (trunc_div(a, b), true),
        IntBinOp::Rem => (trunc_rem(a, b), false),
        IntBinOp::Shl => (a * pow2(b as nat), false),
        IntBinOp::ShlUnchecked => (a * pow2(b as nat), true),
        IntBinOp::Shr => (a / (pow2(b as nat) as int), false),
        IntBinOp::ShrUnchecked => (a / (pow2(b as nat) as int), true),
        IntBinOp::BitAnd => (((a as u128) & (b as u128)) as int, false),
        IntBinOp::BitOr => (((a as u128) | (b as u128)) as int, false),
        IntBinOp::BitXor => (((a as u128) ^ (b as u128)) as int, false),
    }
}

/// The result of a MIR bit operation on booleans.
pub open spec fn mir_bool_meaning(op: RsBinOp, a: bool, b: bool) -> Option<bool> {
    match op {
        RsBinOp::BitAnd => Some(a && b),
        RsBinOp::BitOr => Some(a || b),
        RsBinOp::BitXor => Some(a != b),
        _ => None,
    }
}

/// The result of a MiniRust boolean operation.
pub open spec fn bool_op_meaning(op: BoolBinOp, a: bool, b: bool) -> bool {
    match op {
        BoolBinOp::BitAnd => a && b,
        BoolBinOp::BitOr => a || b,
        BoolBinOp::BitXor => a != b,
    }
}

/// The mathematical result of a checked MIR operation (whose overflow is
/// reported), and of a MiniRust operation with overflow check.
pub open spec fn mir_checked_meaning(op: RsBinOp, a: int, b: int) -> Option<int> {
    match op {
        RsBinOp::Add => Some(a + b),
        RsBinOp::Sub => Some(a - b),
        RsBinOp::Mul => Some(a * b),
        _ => None,
    }
}

pub open spec fn overflow_op_meaning(op: IntBinOpWithOverflow, a: int, b: int) -> int {
    match op {
        IntBinOpWithOverflow::Add => a + b,
        IntBinOpWithOverflow::Sub => a - b,
        IntBinOpWithOverflow::Mul => a * b,
    }
}

/// A MIR comparison becomes the MiniRust relation on the translated
/// operands that holds of exactly the same integers.
pub proof fn law_comparisons_keep_their_meaning(
    cx: Ctxt,
    op: RsBinOp,
    lt: int,
    lty: Type,
    rty: Type,
    l: ValueExpr,
    r: ValueExpr,
)
    requires
        mir_cmp_holds(op, 0, 0) is Some,
    ensures
        spec_bin(cx, op, lt, lty, rty, l, r) matches Some(ValueExpr::BinOp { operator: BinOp::Rel(rel), left, right }) && {
            &&& *left == l
            &&& *right == r
            &&& forall|a: int, b: int| #[trigger] rel_holds(rel, a, b) == mir_cmp_holds(op, a, b).unwrap()
        },
{
}

/// A MIR arithmetic, shift or bit operation on integers becomes the MiniRust
/// integer operation on the translated operands with the same result and
/// the same behaviour on overflow.
pub proof fn law_int_ops_keep_their_meaning(
    cx: Ctxt,
    op: RsBinOp,
    lt: int,
    lty: Type,
    rty: Type,
    l: ValueExpr,
    r: ValueExpr,
)
    requires
        mir_int_meaning(op, 0, 0) is Some,
        lty is Int,
    ensures
        spec_bin(cx, op, lt, lty, rty, l, r) matches Some(ValueExpr::BinOp { operator: BinOp::Int(o), left, right }) && {
            &&& *left == l
            &&& *right == r
            &&& forall|a: int, b: int| #[trigger] int_op_meaning(o, a, b) == mir_int_meaning(op, a, b).unwrap()
        },
{
}

/// A MIR bit operation on booleans becomes the MiniRust boolean operation
/// on the translated operands with the same truth table.
pub proof fn law_bool_ops_keep_their_meaning(
    cx: Ctxt,
    op: RsBinOp,
    lt: int,
    lty: Type,
    rty: Type,
    l: ValueExpr,
    r: ValueExpr,
)
    requires
        mir_bool_meaning(op, false, false) is Some,
        lty is Bool,
    ensures
        spec_bin(cx, op, lt, lty, rty, l, r) matches Some(ValueExpr::BinOp { operator: BinOp::Bool(o), left, right }) && {
            &&& *left == l
            &&& *right == r
            &&& forall|a: bool, b: bool| #[trigger] bool_op_meaning(o, a, b) == mir_bool_meaning(op, a, b).unwrap()
        },
{
}

/// A checked MIR operation becomes the MiniRust operation with overflow
/// check that computes the same result.
pub proof fn law_checked_ops_keep_their_meaning(body: RsBody, cx: Ctxt, op: RsBinOp, left: RsOperand, right: RsOperand)
    requires
        mir_checked_meaning(op, 0, 0) is Some,
    ensures
        ({
            let rv = RsRvalue::CheckedBinaryOp { op, left, right };
            &&& spec_operand(body, cx, left) is Some && spec_operand(body, cx, right) is Some ==> spec_rvalue(body, cx, rv) is Some
            &&& spec_rvalue(body, cx, rv) matches Some(v) ==> (v matches ValueExpr::BinOp {
                operator: BinOp::IntWithOverflow(o),
                ..
            } && forall|a: int, b: int| #[trigger] overflow_op_meaning(o, a, b) == mir_checked_meaning(op, a, b).unwrap())
        }),
{
}

/// The result of a MIR unary operation on an integer.
pub open spec fn mir_un_meaning(op: RsUnOp, a: int) -> Option<int> {
    match op {
        RsUnOp::Neg => Some(-a),
        RsUnOp::Not => Some(-a - 1),
        _ => None,
    }
}

/// The result of a MiniRust unary integer operation, where it is arithmetic.
pub open spec fn int_un_meaning(op: IntUnOp, a: int) -> Option<int> {
    match op {
        IntUnOp::Neg => Some(-a),
        IntUnOp::BitNot => Some(-a - 1),
        IntUnOp::CountOnes => None,
    }
}

/// Negation and bitwise complement of an integer become the MiniRust
/// integer operation with the same result; `!` on a boolean is boolean
/// negation.
pub proof fn law_unary_ops_keep_their_meaning(op: RsUnOp, ty: Type, v: ValueExpr)
    ensures
        mir_un_meaning(op, 0) is Some && ty is Int ==> (spec_un(op, ty, v) matches Some(
            ValueExpr::UnOp { operator: UnOp::Int(u), operand },
        ) && *operand == v && forall|a: int| #[trigger] int_un_meaning(u, a) == mir_un_meaning(op, a)),
        op == RsUnOp::Not && ty is Bool ==> spec_un(op, ty, v) == Some(
            ValueExpr::UnOp { operator: UnOp::BoolNot, operand: Box::new(v) },
        ),
{
}

/// `size_of`, `align_of` and `offset_of` are `usize` constants with the
/// size, the alignment and the offset rustc computed, and `ub_checks` is the
/// session's setting.
pub proof fn law_nullary_ops_read_the_layout(cx: Ctxt, op: RsNullOp, ty: int)
    requires
        0 <= ty < cx.tcx.tys@.len(),
    ensures
        spec_nullary(cx, op, ty) matches Some(ValueExpr::Constant(k, t)) && {
            &&& op == RsNullOp::UbChecks ==> k == Constant::Bool(cx.session.ub_checks) && t == Type::Bool
            &&& op != RsNullOp::UbChecks ==> (t == Type::Int(usize_ty()) && (k matches Constant::Int(v) && v@ == (match op {
                RsNullOp::SizeOf => cx.tcx.tys@[ty].layout.size as int,
                RsNullOp::AlignOf => cx.tcx.tys@[ty].layout.align as int,
                RsNullOp::OffsetOf { offset } => offset as int,
                RsNullOp::UbChecks => 0,
            })))
        },
{
    crate::num::lemma_int_of_view(cx.tcx.tys@[ty].layout.size as int);
    crate::num::lemma_int_of_view(cx.tcx.tys@[ty].layout.align as int);
    if let RsNullOp::OffsetOf { offset } = op {
        crate::num::lemma_int_of_view(offset as int);
    }
}

/// A cast between integers converts to the destination type (a boolean
/// first becomes its byte); a transmute reinterprets as the destination
/// type; a reified function is a pointer to that function.
pub proof fn law_casts_target_their_type(body: RsBody, cx: Ctxt, kind: RsCastKind, operand: RsOperand, ot: int, ty: int)
    ensures
        kind == RsCastKind::IntToInt ==> (spec_cast(body, cx, kind, operand, ot, ty) matches Some(
            ValueExpr::UnOp { operator: UnOp::Cast(CastOp::IntToInt(it)), operand: inner },
        ) ==> {
            &&& spec_ty(cx.tcx.tys@, ty) == Some(Type::Int(it))
            &&& (spec_ty(cx.tcx.tys@, ot) matches Some(Type::Int(_))) ==> Some(*inner) == spec_operand(body, cx, operand)
            &&& spec_ty(cx.tcx.tys@, ot) == Some(Type::Bool) ==> Some(*inner) == load_or_value_as_u8(spec_operand(body, cx, operand))
        }),
        kind == RsCastKind::IntToInt ==> (spec_cast(body, cx, kind, operand, ot, ty) is Some ==> spec_cast(
            body,
            cx,
            kind,
            operand,
            ot,
            ty,
        ).unwrap() is UnOp),
        kind == RsCastKind::Transmute ==> (spec_cast(body, cx, kind, operand, ot, ty) matches Some(v) ==> v == ValueExpr::UnOp {
            operator: UnOp::Cast(CastOp::Transmute(spec_ty(cx.tcx.tys@, ty).unwrap())),
            operand: Box::new(spec_operand(body, cx, operand).unwrap()),
        }),
        kind matches RsCastKind::ReifyFnPointer { instance } ==> (spec_cast(body, cx, kind, operand, ot, ty) matches Some(v)
            ==> v == ValueExpr::Constant(Constant::FnPointer(fn_name_of(cx.fn_names@, instance)), Type::Ptr(PtrType::FnPtr))),
{
}

/// A boolean value's byte: the value transmuted to `u8`.
pub open spec fn load_or_value_as_u8(v: Option<ValueExpr>) -> Option<ValueExpr> {
    match v {
        Some(v) => Some(mk_un(UnOp::Cast(CastOp::Transmute(Type::Int(u8_ty()))), v)),
        None => None,
    }
}

/// A reference to a place takes the place's address as a reference of the
/// same mutability, recording what is known of the place's type; a raw
/// borrow takes it as a raw pointer; `Discriminant` reads the place's
/// discriminant; `Len` of an array is its element count; `Use` is the
/// operand's value.
pub proof fn law_place_rvalues(body: RsBody, cx: Ctxt, rv: RsRvalue)
    ensures
        rv matches RsRvalue::Ref { mutbl, place } ==> (spec_rvalue(body, cx, rv) matches Some(v) ==> (v matches ValueExpr::AddrOf {
            target,
            ptr_ty: PtrType::Ref { mutbl: m, pointee },
        } && Some(*target) == spec_place(body, cx.tcx.tys@, place) && Some(pointee) == spec_pointee_info(
            cx.tcx.tys@,
            spec_place_ty(body, place),
        ) && (m == crate::lang::Mutability::Mutable <==> mutbl == crate::rs::RsMutability::Mut))),
        rv matches RsRvalue::AddressOf { place } ==> (spec_rvalue(body, cx, rv) matches Some(v) ==> (v matches ValueExpr::AddrOf {
            target,
            ptr_ty: PtrType::Raw { meta_kind },
        } && Some(*target) == spec_place(body, cx.tcx.tys@, place) && meta_kind == spec_pointee_info(
            cx.tcx.tys@,
            spec_place_ty(body, place),
        ).unwrap().layout.spec_meta_kind())),
        rv matches RsRvalue::Discriminant(place) ==> (spec_rvalue(body, cx, rv) matches Some(v) ==> (v matches ValueExpr::GetDiscriminant {
            place: p,
        } && Some(*p) == spec_place(body, cx.tcx.tys@, place))),
        rv matches RsRvalue::Len(place) ==> (spec_rvalue(body, cx, rv) is Some ==> (spec_ty(
            cx.tcx.tys@,
            spec_place_ty(body, place),
        ) matches Some(Type::Array { count, .. }) ==> spec_rvalue(body, cx, rv) == Some(
            ValueExpr::Constant(Constant::Int(count), Type::Int(usize_ty())),
        ))),
        rv matches RsRvalue::Use(o) ==> spec_rvalue(body, cx, rv) == spec_operand(body, cx, o),
{
}

/// A place is its local with its projections applied in order: a field
/// projection selects that field, a dereference goes through the pointer
/// loaded from the place so far, indexing indexes by the index local's
/// value, and a downcast selects the variant by its discriminant.
pub proof fn law_places_apply_their_projections(body: RsBody, tys: Seq<RsTy>, p: RsPlace, n: int)
    requires
        0 <= n <= p.projection@.len(),
    ensures
        n == 0 ==> spec_place_prefix(body, tys, p, n) == (if p.local < body.local_tys@.len() {
            Some(PlaceExpr::Local(LocalName(p.local as u32)))
        } else {
            None
        }),
        n > 0 && spec_place_prefix(body, tys, p, n) is Some ==> ({
            let root = spec_place_prefix(body, tys, p, n - 1).unwrap();
            let proj = p.projection@[n - 1];
            &&& spec_place_prefix(body, tys, p, n - 1) is Some
            &&& proj.kind matches RsProjKind::Field { field } ==> spec_place_prefix(body, tys, p, n) == Some(
                PlaceExpr::Field { root: Box::new(root), field: field as u64 },
            )
            &&& proj.kind is Deref ==> spec_place_prefix(body, tys, p, n) == Some(
                PlaceExpr::Deref {
                    operand: Box::new(ValueExpr::Load { source: Box::new(root) }),
                    ty: spec_ty(tys, proj.ty as int).unwrap(),
                },
            )
            &&& proj.kind matches RsProjKind::Index { local } ==> spec_place_prefix(body, tys, p, n) == Some(
                PlaceExpr::Index {
                    root: Box::new(root),
                    index: Box::new(ValueExpr::Load { source: Box::new(PlaceExpr::Local(LocalName(local as u32))) }),
                },
            )
            &&& proj.kind matches RsProjKind::Downcast { variant } ==> spec_place_prefix(body, tys, p, n) == Some(
                PlaceExpr::Downcast {
                    root: Box::new(root),
                    discriminant: spec_discriminant(tys, proj.ty as int, variant as int).unwrap(),
                },
            )
        }),
{
}

/// The values of operands are the operands' values, in order.
pub proof fn law_operands_in_order(body: RsBody, cx: Ctxt, ops: Seq<RsOperand>, i: int)
    requires
        0 <= i <= ops.len(),
    ensures
        spec_operands(body, cx, ops, i) is Some <==> (forall|j: int| i <= j < ops.len() ==> #[trigger] spec_operand(body, cx, ops[j]) is Some),
        spec_operands(body, cx, ops, i) matches Some(l) ==> {
            &&& l.to_seq().len() == ops.len() - i
            &&& forall|j: int| 0 <= j < l.to_seq().len() ==> Some(#[trigger] l.to_seq()[j]) == spec_operand(body, cx, ops[i + j])
        },
    decreases ops.len() - i,
{
    if i < ops.len() {
        law_operands_in_order(body, cx, ops, i + 1);
        if let Some(l) = spec_operands(body, cx, ops, i) {
            let rest = spec_operands(body, cx, ops, i + 1).unwrap();
            assert(l.to_seq() == seq![spec_operand(body, cx, ops[i]).unwrap()] + rest.to_seq());
            assert forall|j: int| 0 <= j < l.to_seq().len() implies Some(#[trigger] l.to_seq()[j]) == spec_operand(body, cx, ops[i + j]) by {
                if j > 0 {
                    assert(l.to_seq()[j] == rest.to_seq()[j - 1]);
                }
            }
        }
    }
}

/// A tuple or array aggregate is the tuple of its operands' values, in
/// order; an enum aggregate is the variant with the variant's discriminant
/// holding the tuple of its operands' values; a union aggregate stores its
/// one operand's value in the given field; `[x; n]` is `n` copies of `x`.
pub proof fn law_aggregates_hold_their_operands(
    body: RsBody,
    cx: Ctxt,
    ty: int,
    t: Type,
    variant: int,
    union_field: Option<usize>,
    ops: Seq<RsOperand>,
)
    requires
        spec_aggregate(body, cx, ty, t, variant, union_field, ops) is Some,
    ensures
        ({
            let v = spec_aggregate(body, cx, ty, t, variant, union_field, ops).unwrap();
            &&& (t is Tuple || t is Array) ==> v == ValueExpr::Tuple(spec_operands(body, cx, ops, 0).unwrap(), t)
            &&& t is Enum ==> (v matches ValueExpr::Variant { discriminant, data, enum_ty } && {
                &&& Some(discriminant) == spec_discriminant(cx.tcx.tys@, ty, variant)
                &&& enum_ty == t
                &&& *data matches ValueExpr::Tuple(l, _) && l == spec_operands(body, cx, ops, 0).unwrap()
            })
            &&& t is Union ==> (v matches ValueExpr::Union { field, expr, union_ty } && {
                &&& Some(field as usize) == union_field
                &&& ops.len() == 1
                &&& Some(*expr) == spec_operand(body, cx, ops[0])
                &&& union_ty == t
            })
        }),
{
}

/// `[x; n]` is an array of `n` elements, each the value of `x`.
pub proof fn law_repeat_copies_its_operand(body: RsBody, cx: Ctxt, operand: RsOperand, count: u64)
    ensures
        spec_rvalue(body, cx, RsRvalue::Repeat { operand, count }) matches Some(ValueExpr::Tuple(l, Type::Array { count: c, .. }))
            ==> {
            &&& c == int_of(count as int)
            &&& l.to_seq().len() == count
            &&& forall|j: int| 0 <= j < count ==> Some(#[trigger] l.to_seq()[j]) == spec_operand(body, cx, operand)
        },
{
    if let Some(v) = spec_operand(body, cx, operand) {
        crate::lang::lemma_list_from_seq_to_seq(repeat_seq(v, count as nat));
    }
}

} // verus!
