//! What the translation reads of rustc's types and layouts, as plain values.
//!
//! Types are stored in a table and referred to by their index in it.
use vstd::prelude::*;
use crate::num::Signedness;

verus! {

/// The index of a type in a [`TyTable`].
pub type TyId = usize;

#[derive(Clone, Copy, PartialEq, Eq, Structural, Debug)]
pub enum RsMutability {
    Mut,
    Not,
}

/// The calling conventions rustc lowers functions to.
#[derive(Clone, Copy, PartialEq, Eq, Structural, Debug)]
pub enum RsCanonAbi {
    C,
    Rust,
    /// Any other convention (interrupts, GPU kernels, ...).
    Other,
}

/// An integer type as rustc's layout describes a tag or discriminant.
#[derive(Clone, Copy, PartialEq, Eq, Structural, Debug)]
pub struct RsIntTy {
    pub signed: Signedness,
    pub bytes: u64,
}

/// One variant of an enum definition.
pub struct RsVariantDef {
    /// The (normalized) types of the variant's fields.
    pub fields: Vec<TyId>,
    /// The raw bits of the variant's discriminant.
    pub discr_bits: u128,
}

/// How the enum tag encodes the variant.
#[derive(Clone, Copy, PartialEq, Eq, Structural, Debug)]
pub enum RsTagEncoding {
    Direct,
    Niche { untagged_variant: usize, niche_variants_start: usize, niche_start: u128 },
}

/// The tag of an enum layout: its integer type and its valid range
/// (which may wrap around).
#[derive(Clone, Copy, PartialEq, Eq, Structural, Debug)]
pub struct RsTag {
    pub ity: RsIntTy,
    pub valid_start: u128,
    pub valid_end: u128,
}

/// The variants part of a layout.
pub enum RsVariants {
    Single { index: usize },
    Multiple {
        tag: RsTag,
        encoding: RsTagEncoding,
        /// The offset of the tag field.
        tag_offset: u64,
        /// For each variant, the offsets of its fields; `None` for an
        /// elided variant, whose fields are all zero-sized at offset zero.
        variant_offsets: Vec<Option<Vec<u64>>>,
    },
}

/// A type's layout.
pub struct RsLayout {
    pub size: u64,
    pub align: u64,
    pub sized: bool,
    pub uninhabited: bool,
    /// The offsets of the fields, in field order.
    pub field_offsets: Vec<u64>,
    pub variants: RsVariants,
}

/// The kinds of types the translation distinguishes.
pub enum RsTyKind {
    Bool,
    /// A signed integer type of the given byte size.
    Int { bytes: u64 },
    /// An unsigned integer type of the given byte size.
    Uint { bytes: u64 },
    Char,
    Tuple { fields: Vec<TyId> },
    Box { pointee: TyId },
    Struct { fields: Vec<TyId>, is_unsafe_cell: bool },
    Union { fields: Vec<TyId> },
    Enum { variants: Vec<RsVariantDef>, discriminant_ty: RsIntTy },
    Ref { pointee: TyId, mutbl: RsMutability },
    RawPtr { pointee: TyId },
    Array { elem: TyId, count: u64 },
    FnPtr,
    FnDef,
    Closure { upvars: Vec<TyId> },
    Never,
    Slice { elem: TyId },
    Str,
    Dynamic { trait_name: u32 },
    /// A kind the translation does not support.
    Other,
}

/// A type: what it is, how it is laid out, and its auto-trait facts.
pub struct RsTy {
    pub kind: RsTyKind,
    pub layout: RsLayout,
    pub freeze: bool,
    pub unpin: bool,
}

} // verus!
