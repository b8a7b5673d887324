//! Copies of MiniRust terms. MiniRust shares its terms by reference counting;
//! here a copy is a new term equal to the original.
use vstd::prelude::*;
use crate::num::Int;
use crate::lang::{
    List, Size, IntType, Type, PtrType, PointeeInfo, UnsafeCellStrategy, Variant, Discriminator,
    ValueExpr, PlaceExpr, UnOp, CastOp, BinOp,
};

verus! {

pub fn copy_cells(l: &List<(Size, Size)>) -> (r: List<(Size, Size)>)
    ensures
        r == *l,
    decreases l,
{
    match l {
        List::Nil => List::Nil,
        List::Cons(x, rest) => List::Cons(Box::new(**x), Box::new(copy_cells(rest))),
    }
}

pub fn copy_pointee(p: &PointeeInfo) -> (r: PointeeInfo)
    ensures
        r == *p,
{
    let unsafe_cells = match &p.unsafe_cells {
        UnsafeCellStrategy::Sized { cells } => UnsafeCellStrategy::Sized { cells: copy_cells(cells) },
        UnsafeCellStrategy::Slice { element_cells } => UnsafeCellStrategy::Slice { element_cells: copy_cells(element_cells) },
        UnsafeCellStrategy::TraitObject => UnsafeCellStrategy::TraitObject,
    };
    PointeeInfo { layout: p.layout, inhabited: p.inhabited, unsafe_cells, freeze: p.freeze, unpin: p.unpin }
}

pub fn copy_ptr_type(p: &PtrType) -> (r: PtrType)
    ensures
        r == *p,
{
    match p {
        PtrType::Ref { mutbl, pointee } => PtrType::Ref { mutbl: *mutbl, pointee: copy_pointee(pointee) },
        PtrType::Box { pointee } => PtrType::Box { pointee: copy_pointee(pointee) },
        PtrType::Raw { meta_kind } => PtrType::Raw { meta_kind: *meta_kind },
        PtrType::FnPtr => PtrType::FnPtr,
        PtrType::VTablePtr(t) => PtrType::VTablePtr(*t),
    }
}

pub fn copy_type(t: &Type) -> (r: Type)
    ensures
        r == *t,
    decreases t,
{
    match t {
        Type::Int(it) => Type::Int(*it),
        Type::Bool => Type::Bool,
        Type::Ptr(p) => Type::Ptr(copy_ptr_type(p)),
        Type::Tuple { fields, size, align } => Type::Tuple { fields: copy_fields(fields), size: *size, align: *align },
        Type::Array { elem, count } => Type::Array { elem: Box::new(copy_type(elem)), count: *count },
        Type::Slice { elem } => Type::Slice { elem: Box::new(copy_type(elem)) },
        Type::Union { fields, size, align, chunks } => Type::Union {
            fields: copy_fields(fields),
            size: *size,
            align: *align,
            chunks: copy_cells(chunks),
        },
        Type::Enum { variants, discriminator, discriminant_ty, size, align } => Type::Enum {
            variants: copy_variants(variants),
            discriminator: copy_discriminator(discriminator),
            discriminant_ty: *discriminant_ty,
            size: *size,
            align: *align,
        },
        Type::TraitObject(n) => Type::TraitObject(*n),
    }
}

pub fn copy_fields(l: &List<(Size, Type)>) -> (r: List<(Size, Type)>)
    ensures
        r == *l,
    decreases l,
{
    match l {
        List::Nil => List::Nil,
        List::Cons(x, rest) => List::Cons(Box::new((x.0, copy_type(&x.1))), Box::new(copy_fields(rest))),
    }
}

pub fn copy_tagger(l: &List<(Size, (IntType, Int))>) -> (r: List<(Size, (IntType, Int))>)
    ensures
        r == *l,
    decreases l,
{
    match l {
        List::Nil => List::Nil,
        List::Cons(x, rest) => List::Cons(Box::new(**x), Box::new(copy_tagger(rest))),
    }
}

pub fn copy_variants(l: &List<(Int, Variant)>) -> (r: List<(Int, Variant)>)
    ensures
        r == *l,
    decreases l,
{
    match l {
        List::Nil => List::Nil,
        List::Cons(x, rest) => List::Cons(
            Box::new((x.0, Variant { ty: copy_type(&x.1.ty), tagger: copy_tagger(&x.1.tagger) })),
            Box::new(copy_variants(rest)),
        ),
    }
}

pub fn copy_discriminator(d: &Discriminator) -> (r: Discriminator)
    ensures
        r == *d,
    decreases d,
{
    match d {
        Discriminator::Known(i) => Discriminator::Known(*i),
        Discriminator::Invalid => Discriminator::Invalid,
        Discriminator::Branch { offset, value_type, fallback, children } => Discriminator::Branch {
            offset: *offset,
            value_type: *value_type,
            fallback: Box::new(copy_discriminator(fallback)),
            children: copy_branches(children),
        },
    }
}

pub fn copy_branches(l: &List<((Int, Int), Discriminator)>) -> (r: List<((Int, Int), Discriminator)>)
    ensures
        r == *l,
    decreases l,
{
    match l {
        List::Nil => List::Nil,
        List::Cons(x, rest) => List::Cons(
            Box::new((x.0, copy_discriminator(&x.1))),
            Box::new(copy_branches(rest)),
        ),
    }
}

pub fn copy_un_op(o: &UnOp) -> (r: UnOp)
    ensures
        r == *o,
{
    match o {
        UnOp::Int(i) => UnOp::Int(*i),
        UnOp::BoolNot => UnOp::BoolNot,
        UnOp::Cast(CastOp::IntToInt(it)) => UnOp::Cast(CastOp::IntToInt(*it)),
        UnOp::Cast(CastOp::Transmute(t)) => UnOp::Cast(CastOp::Transmute(copy_type(t))),
        UnOp::GetThinPointer => UnOp::GetThinPointer,
        UnOp::GetMetadata => UnOp::GetMetadata,
        UnOp::ComputeSize(t) => UnOp::ComputeSize(copy_type(t)),
        UnOp::ComputeAlign(t) => UnOp::ComputeAlign(copy_type(t)),
        UnOp::VTableMethodLookup(m) => UnOp::VTableMethodLookup(*m),
    }
}

pub fn copy_bin_op(o: &BinOp) -> (r: BinOp)
    ensures
        r == *o,
{
    match o {
        BinOp::Int(i) => BinOp::Int(*i),
        BinOp::IntWithOverflow(i) => BinOp::IntWithOverflow(*i),
        BinOp::Rel(i) => BinOp::Rel(*i),
        BinOp::Cmp => BinOp::Cmp,
        BinOp::Bool(i) => BinOp::Bool(*i),
        BinOp::PtrOffset { inbounds } => BinOp::PtrOffset { inbounds: *inbounds },
        BinOp::PtrOffsetFrom { inbounds, nonneg } => BinOp::PtrOffsetFrom { inbounds: *inbounds, nonneg: *nonneg },
        BinOp::ConstructWidePointer(p) => BinOp::ConstructWidePointer(copy_ptr_type(p)),
    }
}

pub fn copy_value(e: &ValueExpr) -> (r: ValueExpr)
    ensures
        r == *e,
    decreases e,
{
    match e {
        ValueExpr::Constant(c, t) => ValueExpr::Constant(*c, copy_type(t)),
        ValueExpr::Tuple(l, t) => ValueExpr::Tuple(copy_values(l), copy_type(t)),
        ValueExpr::Union { field, expr, union_ty } => ValueExpr::Union {
            field: *field,
            expr: Box::new(copy_value(expr)),
            union_ty: copy_type(union_ty),
        },
        ValueExpr::Variant { discriminant, data, enum_ty } => ValueExpr::Variant {
            discriminant: *discriminant,
            data: Box::new(copy_value(data)),
            enum_ty: copy_type(enum_ty),
        },
        ValueExpr::GetDiscriminant { place } => ValueExpr::GetDiscriminant { place: Box::new(copy_place(place)) },
        ValueExpr::Load { source } => ValueExpr::Load { source: Box::new(copy_place(source)) },
        ValueExpr::AddrOf { target, ptr_ty } => ValueExpr::AddrOf {
            target: Box::new(copy_place(target)),
            ptr_ty: copy_ptr_type(ptr_ty),
        },
        ValueExpr::UnOp { operator, operand } => ValueExpr::UnOp {
            operator: copy_un_op(operator),
            operand: Box::new(copy_value(operand)),
        },
        ValueExpr::BinOp { operator, left, right } => ValueExpr::BinOp {
            operator: copy_bin_op(operator),
            left: Box::new(copy_value(left)),
            right: Box::new(copy_value(right)),
        },
    }
}

pub fn copy_values(l: &List<ValueExpr>) -> (r: List<ValueExpr>)
    ensures
        r == *l,
    decreases l,
{
    match l {
        List::Nil => List::Nil,
        List::Cons(x, rest) => List::Cons(Box::new(copy_value(x)), Box::new(copy_values(rest))),
    }
}

pub fn copy_place(p: &PlaceExpr) -> (r: PlaceExpr)
    ensures
        r == *p,
    decreases p,
{
    match p {
        PlaceExpr::Local(l) => PlaceExpr::Local(*l),
        PlaceExpr::Deref { operand, ty } => PlaceExpr::Deref { operand: Box::new(copy_value(operand)), ty: copy_type(ty) },
        PlaceExpr::Field { root, field } => PlaceExpr::Field { root: Box::new(copy_place(root)), field: *field },
        PlaceExpr::Index { root, index } => PlaceExpr::Index {
            root: Box::new(copy_place(root)),
            index: Box::new(copy_value(index)),
        },
        PlaceExpr::Downcast { root, discriminant } => PlaceExpr::Downcast {
            root: Box::new(copy_place(root)),
            discriminant: *discriminant,
        },
    }
}

} // verus!
