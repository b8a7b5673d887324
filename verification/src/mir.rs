//! What the translation reads of a MIR function body, as plain values.
//!
//! Every type is a [`TyId`] into the type table; functions, allocations and
//! blocks are referred to by keys and indices.
use vstd::prelude::*;
use crate::rs::{TyId, RsMutability, RsCanonAbi};

verus! {

/// The index of a local variable of a body.
pub type Local = usize;

/// The index of a basic block of a body.
pub type BlockId = usize;

/// The key under which a function instance is known.
pub type InstanceKey = u64;

/// The key of a global allocation in the allocation table.
pub type AllocKey = usize;

/// One step of a place projection, with the type of the place after it.
pub enum RsProjKind {
    Field { field: usize },
    Deref,
    Index { local: Local },
    Downcast { variant: usize },
    /// Constant indices, subslices and casts are not supported.
    Other,
}

pub struct RsProj {
    pub kind: RsProjKind,
    pub ty: TyId,
}

/// A place: a local and the projections applied to it.
pub struct RsPlace {
    pub local: Local,
    pub projection: Vec<RsProj>,
}

/// The value of an evaluated constant, with its type.
pub struct RsConst {
    pub ty: TyId,
    pub kind: RsConstKind,
}

pub enum RsConstKind {
    /// An integer, as raw bits.
    Scalar { bits: u128 },
    Bool(bool),
    /// A pointer: into a global allocation, or with no provenance.
    Ptr { alloc: Option<AllocKey>, offset: u64 },
    /// The fields of a tuple or struct, or the elements of an array.
    Fields(Vec<RsConst>),
    /// An enum value: the raw discriminant of its variant and the variant's fields.
    Variant { discr_bits: u128, fields: Vec<RsConst> },
    /// Unions and function pointers cannot be constants here.
    Unsupported,
}

pub enum RsOperand {
    Copy(RsPlace),
    Move(RsPlace),
    Constant(RsConst),
}

#[derive(Clone, Copy, PartialEq, Eq, Structural, Debug)]
pub enum RsBinOp {
    Add,
    Sub,
    Mul,
    Div,
    Rem,
    Shl,
    Shr,
    BitAnd,
    BitOr,
    BitXor,
    AddUnchecked,
    SubUnchecked,
    MulUnchecked,
    ShlUnchecked,
    ShrUnchecked,
    Lt,
    Le,
    Gt,
    Ge,
    Eq,
    Ne,
    Cmp,
    Offset,
}

#[derive(Clone, Copy, PartialEq, Eq, Structural, Debug)]
pub enum RsUnOp {
    Neg,
    Not,
    PtrMetadata,
}

#[derive(Clone, Copy, PartialEq, Eq, Structural, Debug)]
pub enum RsCastKind {
    IntToInt,
    PtrToPtr,
    /// An unsizing pointer coercion.
    Unsize,
    /// Transmutes, function-pointer-to-pointer casts and unsafe-fn-pointer coercions.
    Transmute,
    /// Turning a function item into a pointer to the given instance.
    ReifyFnPointer { instance: InstanceKey },
    ExposeProvenance,
    WithExposedProvenance,
    Unsupported,
}

#[derive(Clone, Copy, PartialEq, Eq, Structural, Debug)]
pub enum RsNullOp {
    UbChecks,
    SizeOf,
    AlignOf,
    /// The offset rustc computed for the field path.
    OffsetOf { offset: u64 },
}

pub enum RsRvalue {
    Use(RsOperand),
    BinaryOp { op: RsBinOp, left: RsOperand, right: RsOperand },
    CheckedBinaryOp { op: RsBinOp, left: RsOperand, right: RsOperand },
    UnaryOp { op: RsUnOp, operand: RsOperand },
    Ref { mutbl: RsMutability, place: RsPlace },
    NullaryOp { op: RsNullOp, ty: TyId },
    AddressOf { place: RsPlace },
    /// An aggregate of type `ty`; for ADTs, the variant and (for unions) the field.
    Aggregate { ty: TyId, variant: usize, union_field: Option<usize>, operands: Vec<RsOperand> },
    CopyForDeref(RsPlace),
    Len(RsPlace),
    Discriminant(RsPlace),
    Repeat { operand: RsOperand, count: u64 },
    Cast { kind: RsCastKind, operand: RsOperand, ty: TyId },
    /// Boxes under construction and thread-local references are not supported.
    Unsupported,
}

pub enum RsStatement {
    Assign { place: RsPlace, rvalue: RsRvalue },
    StorageLive(Local),
    StorageDead(Local),
    Retag { fn_entry: bool, place: RsPlace },
    Deinit(RsPlace),
    SetDiscriminant { place: RsPlace, variant: usize },
    /// The `assume` intrinsic.
    Assume(RsOperand),
    PlaceMention(RsPlace),
    /// Fake reads, user-type ascriptions, coverage, nops, `copy_nonoverlapping`, ...
    Unsupported,
}

#[derive(Clone, Copy, PartialEq, Eq, Structural, Debug)]
pub enum RsUnwindAction {
    Continue,
    Unreachable,
    Terminate,
    Cleanup(BlockId),
}

/// The Rust intrinsics the translation handles, with what it needs of each.
pub enum RsIntrinsic {
    /// `assert_inhabited` and friends, with whether the type fails the check.
    AssertValid { should_panic: bool },
    RawEq,
    /// `arith_offset`.
    ArithOffset,
    /// `ptr_offset_from(_unsigned)`.
    PtrOffsetFrom { unsigned: bool },
    Ctpop,
    ExactDiv,
    SizeOfVal { ty: TyId },
    AlignOfVal { ty: TyId },
    /// `likely` and `unlikely`.
    Likely,
    ColdPath,
    CatchUnwind,
    Abort,
    Unsupported,
}

/// How a call reaches its callee.
pub enum RsCallee {
    /// A call through a function pointer, with the pointer's calling convention.
    FnPtr { func: RsOperand, conv: RsCanonAbi },
    /// A Rust intrinsic.
    Intrinsic(RsIntrinsic),
    /// A call of an instance: `crate_name`, `item_name` and `path` name it,
    /// `conv` is its calling convention, `rust_call` whether it untuples its
    /// last argument, and `virtual_method` the vtable slot of a dynamic call.
    Instance {
        instance: InstanceKey,
        crate_name: String,
        item_name: String,
        path: String,
        conv: RsCanonAbi,
        rust_call: bool,
        virtual_method: Option<u32>,
    },
}

pub enum RsTerminator {
    Return,
    Goto(BlockId),
    Call {
        callee: RsCallee,
        args: Vec<RsOperand>,
        destination: RsPlace,
        target: Option<BlockId>,
        unwind: RsUnwindAction,
    },
    SwitchInt { discr: RsOperand, targets: Vec<(u128, BlockId)>, otherwise: BlockId },
    Unreachable,
    Assert { cond: RsOperand, expected: bool, target: BlockId, unwind: RsUnwindAction },
    /// Drops a place: through the vtable for trait objects, else by calling
    /// the given `drop_in_place` instance.
    Drop { place: RsPlace, target: BlockId, drop_fn: InstanceKey },
    UnwindResume,
    /// Tail calls, coroutines, inline assembly, ... are not supported.
    Unsupported,
}

pub struct RsBlock {
    pub statements: Vec<RsStatement>,
    pub terminator: RsTerminator,
    pub is_cleanup: bool,
}

/// A function body, after instantiation of its generics: its basic blocks,
/// and its declarations.
pub struct RsMir {
    pub blocks: Vec<RsBlock>,
    pub body: RsBody,
}

/// What a function body declares, which is all that the translation of a
/// single block looks at besides the block.
pub struct RsBody {
    /// The types of the locals: the return place, the arguments, then the rest.
    pub local_tys: Vec<TyId>,
    pub arg_count: usize,
    /// The locals that are live throughout the body, in ascending order.
    pub always_live: Vec<Local>,
    /// The function's calling convention.
    pub conv: RsCanonAbi,
}

/// A global allocation: its bytes, which of them are initialized, the
/// pointers stored in it (offset and target), and its alignment.
pub struct RsAllocation {
    pub bytes: Vec<u8>,
    pub init: Vec<bool>,
    pub ptrs: Vec<(u64, AllocKey)>,
    pub align: u64,
}

} // verus!
