//! The part of the MiniRust language that the translation produces.
use vstd::prelude::*;
use crate::num::{Int, Signedness};

verus! {

/// An immutable list, as MiniRust's own `List`.
#[derive(Debug)]
pub enum List<T> {
    Nil,
    Cons(Box<T>, Box<List<T>>),
}

/// The list with the elements of `s`, in order.
pub open spec fn list_from_seq<T>(s: Seq<T>) -> List<T>
    decreases s.len(),
{
    if s.len() == 0 {
        List::Nil
    } else {
        List::Cons(Box::new(s[0]), Box::new(list_from_seq(s.drop_first())))
    }
}

impl<T> List<T> {
    /// The elements of the list, in order.
    pub open spec fn to_seq(self) -> Seq<T>
        decreases self,
    {
        match self {
            List::Nil => Seq::empty(),
            List::Cons(x, rest) => seq![*x] + rest.to_seq(),
        }
    }

    pub fn new() -> (r: List<T>)
        ensures
            r == List::<T>::Nil,
            r.to_seq() == Seq::<T>::empty(),
    {
        List::Nil
    }
}

/// The number of elements of a list.
pub open spec fn list_len<T>(l: List<T>) -> nat
    decreases l,
{
    match l {
        List::Nil => 0,
        List::Cons(_, rest) => 1 + list_len(*rest),
    }
}

/// The value under the first entry with key `k`, if any (MiniRust's `Map::get`).
pub open spec fn list_lookup<K, V>(l: List<(K, V)>, k: K) -> Option<V>
    decreases l,
{
    match l {
        List::Nil => None,
        List::Cons(e, rest) => if e.0 == k {
            Some(e.1)
        } else {
            list_lookup(*rest, k)
        },
    }
}

/// The number of elements of a list.
pub fn list_length<T>(l: &List<T>) -> (r: usize)
    requires
        list_len(*l) <= usize::MAX,
    ensures
        r == list_len(*l),
    decreases l,
{
    match l {
        List::Nil => 0,
        List::Cons(_, rest) => 1 + list_length(rest),
    }
}

/// Building a list from a sequence and reading it back gives the sequence.
pub proof fn lemma_list_from_seq_to_seq<T>(s: Seq<T>)
    ensures
        list_from_seq(s).to_seq() == s,
    decreases s.len(),
{
    if s.len() > 0 {
        lemma_list_from_seq_to_seq(s.drop_first());
        assert(s == seq![s[0]] + s.drop_first());
    }
}

/// Moves the elements of a vector into a list, keeping their order.
pub fn list_from_vec<T>(v: Vec<T>) -> (r: List<T>)
    ensures
        r == list_from_seq(v@),
{
    let ghost orig = v@;
    let mut v = v;
    let mut acc: List<T> = List::Nil;
    while v.len() > 0
        invariant
            v.len() <= orig.len(),
            v@ == orig.subrange(0, v.len() as int),
            acc == list_from_seq(orig.subrange(v.len() as int, orig.len() as int)),
        decreases v.len(),
    {
        let ghost k = v.len() as int;
        let x = v.pop().unwrap();
        proof {
            let tail = orig.subrange(k - 1, orig.len() as int);
            assert(tail.drop_first() =~= orig.subrange(k, orig.len() as int));
            assert(tail[0] == orig[k - 1]);
        }
        acc = List::Cons(Box::new(x), Box::new(acc));
    }
    proof {
        assert(orig.subrange(0, orig.len() as int) =~= orig);
    }
    acc
}

/// A size or offset, in bytes.
#[derive(Clone, Copy, PartialEq, Eq, Structural, Debug)]
pub struct Size {
    pub bytes: u64,
}

/// An alignment, in bytes.
#[derive(Clone, Copy, PartialEq, Eq, Structural, Debug)]
pub struct Align {
    pub bytes: u64,
}

/// A fixed-size integer type.
#[derive(Clone, Copy, PartialEq, Eq, Structural, Debug)]
pub struct IntType {
    pub signed: Signedness,
    pub size: Size,
}

#[derive(Clone, Copy, PartialEq, Eq, Structural, Debug)]
pub enum Mutability {
    Mutable,
    Immutable,
}

#[derive(Clone, Copy, PartialEq, Eq, Structural, Debug)]
pub enum CallingConvention {
    Rust,
    C,
}

#[derive(Clone, Copy, PartialEq, Eq, Structural, Debug)]
pub struct TraitName(pub u32);

#[derive(Clone, Copy, PartialEq, Eq, Structural, Debug)]
pub struct TraitMethodName(pub u32);

#[derive(Clone, Copy, PartialEq, Eq, Structural, Debug)]
pub struct FnName(pub u32);

#[derive(Clone, Copy, PartialEq, Eq, Structural, Debug)]
pub struct BbName(pub u32);

#[derive(Clone, Copy, PartialEq, Eq, Structural, Debug)]
pub struct LocalName(pub u32);

#[derive(Clone, Copy, PartialEq, Eq, Structural, Debug)]
pub struct GlobalName(pub u32);

#[derive(Clone, Copy, PartialEq, Eq, Structural, Debug)]
pub struct VTableName(pub u32);

/// What metadata a pointer to a type carries.
#[derive(Clone, Copy, PartialEq, Eq, Structural, Debug)]
pub enum PointerMetaKind {
    Thin,
    ElementCount,
    VTablePointer(TraitName),
}

/// How the size and alignment of a pointee are determined.
#[derive(Clone, Copy, PartialEq, Eq, Structural, Debug)]
pub enum LayoutStrategy {
    Sized(Size, Align),
    Slice(Size, Align),
    TraitObject(TraitName),
}

impl LayoutStrategy {
    pub open spec fn spec_meta_kind(self) -> PointerMetaKind {
        match self {
            LayoutStrategy::Sized(..) => PointerMetaKind::Thin,
            LayoutStrategy::Slice(..) => PointerMetaKind::ElementCount,
            LayoutStrategy::TraitObject(t) => PointerMetaKind::VTablePointer(t),
        }
    }

    /// The metadata that a pointer to a value with this layout carries.
    pub fn meta_kind(&self) -> (r: PointerMetaKind)
        ensures
            r == self.spec_meta_kind(),
    {
        match self {
            LayoutStrategy::Sized(..) => PointerMetaKind::Thin,
            LayoutStrategy::Slice(..) => PointerMetaKind::ElementCount,
            LayoutStrategy::TraitObject(t) => PointerMetaKind::VTablePointer(*t),
        }
    }
}

/// Where `UnsafeCell`s sit inside a pointee: (offset, length) ranges.
#[derive(Debug)]
pub enum UnsafeCellStrategy {
    Sized { cells: List<(Size, Size)> },
    Slice { element_cells: List<(Size, Size)> },
    TraitObject,
}

/// What a pointer type knows about its pointee.
#[derive(Debug)]
pub struct PointeeInfo {
    pub layout: LayoutStrategy,
    pub inhabited: bool,
    pub unsafe_cells: UnsafeCellStrategy,
    pub freeze: bool,
    pub unpin: bool,
}

#[derive(Debug)]
pub enum PtrType {
    Ref { mutbl: Mutability, pointee: PointeeInfo },
    Box { pointee: PointeeInfo },
    Raw { meta_kind: PointerMetaKind },
    FnPtr,
    VTablePtr(TraitName),
}

/// A MiniRust type.
#[derive(Debug)]
pub enum Type {
    Int(IntType),
    Bool,
    Ptr(PtrType),
    /// Fields are (offset, type) pairs.
    Tuple { fields: List<(Size, Type)>, size: Size, align: Align },
    Array { elem: Box<Type>, count: Int },
    Slice { elem: Box<Type> },
    Union { fields: List<(Size, Type)>, size: Size, align: Align, chunks: List<(Size, Size)> },
    Enum {
        variants: List<(Int, Variant)>,
        discriminator: Discriminator,
        discriminant_ty: IntType,
        size: Size,
        align: Align,
    },
    TraitObject(TraitName),
}

/// One variant of an enum: its data, and the tag bytes it writes.
#[derive(Debug)]
pub struct Variant {
    pub ty: Type,
    pub tagger: List<(Size, (IntType, Int))>,
}

/// How the active variant of an enum is read back from memory.
#[derive(Debug)]
pub enum Discriminator {
    Known(Int),
    Invalid,
    Branch {
        offset: Size,
        value_type: IntType,
        fallback: Box<Discriminator>,
        /// Half-open ranges `[start, end)` of tag values and where they lead.
        children: List<((Int, Int), Discriminator)>,
    },
}

/// A pointer into a global allocation.
#[derive(Clone, Copy, PartialEq, Eq, Structural, Debug)]
pub struct Relocation {
    pub name: GlobalName,
    pub offset: Size,
}

#[derive(Clone, Copy, PartialEq, Eq, Structural, Debug)]
pub enum Constant {
    Int(Int),
    Bool(bool),
    GlobalPointer(Relocation),
    FnPointer(FnName),
    VTablePointer(VTableName),
    PointerWithoutProvenance(Int),
}

#[derive(Clone, Copy, PartialEq, Eq, Structural, Debug)]
pub enum IntBinOp {
    Add,
    AddUnchecked,
    Sub,
    SubUnchecked,
    Mul,
    MulUnchecked,
    Div,
    DivExact,
    Rem,
    Shl,
    ShlUnchecked,
    Shr,
    ShrUnchecked,
    BitAnd,
    BitOr,
    BitXor,
}

#[derive(Clone, Copy, PartialEq, Eq, Structural, Debug)]
pub enum IntBinOpWithOverflow {
    Add,
    Sub,
    Mul,
}

#[derive(Clone, Copy, PartialEq, Eq, Structural, Debug)]
pub enum RelOp {
    Lt,
    Le,
    Gt,
    Ge,
    Eq,
    Ne,
}

#[derive(Clone, Copy, PartialEq, Eq, Structural, Debug)]
pub enum BoolBinOp {
    BitAnd,
    BitOr,
    BitXor,
}

#[derive(Debug)]
pub enum BinOp {
    Int(IntBinOp),
    IntWithOverflow(IntBinOpWithOverflow),
    Rel(RelOp),
    Cmp,
    Bool(BoolBinOp),
    PtrOffset { inbounds: bool },
    PtrOffsetFrom { inbounds: bool, nonneg: bool },
    /// Builds a wide pointer of the given type from a thin pointer and metadata.
    ConstructWidePointer(PtrType),
}

#[derive(Clone, Copy, PartialEq, Eq, Structural, Debug)]
pub enum IntUnOp {
    Neg,
    BitNot,
    CountOnes,
}

#[derive(Debug)]
pub enum CastOp {
    IntToInt(IntType),
    Transmute(Type),
}

#[derive(Debug)]
pub enum UnOp {
    Int(IntUnOp),
    BoolNot,
    Cast(CastOp),
    GetThinPointer,
    GetMetadata,
    ComputeSize(Type),
    ComputeAlign(Type),
    VTableMethodLookup(TraitMethodName),
}

/// An expression that computes a value.
#[derive(Debug)]
pub enum ValueExpr {
    Constant(Constant, Type),
    Tuple(List<ValueExpr>, Type),
    Union { field: u64, expr: Box<ValueExpr>, union_ty: Type },
    Variant { discriminant: Int, data: Box<ValueExpr>, enum_ty: Type },
    GetDiscriminant { place: Box<PlaceExpr> },
    Load { source: Box<PlaceExpr> },
    AddrOf { target: Box<PlaceExpr>, ptr_ty: PtrType },
    UnOp { operator: UnOp, operand: Box<ValueExpr> },
    BinOp { operator: BinOp, left: Box<ValueExpr>, right: Box<ValueExpr> },
}

/// An expression that denotes a place in memory.
#[derive(Debug)]
pub enum PlaceExpr {
    Local(LocalName),
    Deref { operand: Box<ValueExpr>, ty: Type },
    Field { root: Box<PlaceExpr>, field: u64 },
    Index { root: Box<PlaceExpr>, index: Box<ValueExpr> },
    Downcast { root: Box<PlaceExpr>, discriminant: Int },
}

/// A call argument: passed by value, or as the place it lives in.
#[derive(Debug)]
pub enum ArgumentExpr {
    ByValue(ValueExpr),
    InPlace(PlaceExpr),
}

#[derive(Debug)]
pub enum Statement {
    Assign { destination: PlaceExpr, source: ValueExpr },
    PlaceMention(PlaceExpr),
    SetDiscriminant { destination: PlaceExpr, value: Int },
    Validate { place: PlaceExpr, fn_entry: bool },
    Deinit { place: PlaceExpr },
    StorageLive(LocalName),
    StorageDead(LocalName),
}

#[derive(Clone, Copy, PartialEq, Eq, Structural, Debug)]
pub enum IntrinsicLockOp {
    Create,
    Acquire,
    Release,
}

#[derive(Clone, Copy, PartialEq, Eq, Structural, Debug)]
pub enum IntrinsicOp {
    Abort,
    Assume,
    Exit,
    PrintStdout,
    PrintStderr,
    Allocate,
    Deallocate,
    Spawn,
    Join,
    AtomicStore,
    AtomicLoad,
    AtomicCompareExchange,
    AtomicFetchAndOp(IntBinOp),
    Lock(IntrinsicLockOp),
    PointerExposeProvenance,
    PointerWithExposedProvenance,
    RawEq,
    GetUnwindPayload,
}

#[derive(Debug)]
pub enum Terminator {
    Goto(BbName),
    Switch { value: ValueExpr, cases: List<(Int, BbName)>, fallback: BbName },
    Unreachable,
    Intrinsic {
        intrinsic: IntrinsicOp,
        arguments: List<ValueExpr>,
        ret: PlaceExpr,
        next_block: Option<BbName>,
    },
    Call {
        callee: ValueExpr,
        calling_convention: CallingConvention,
        arguments: List<ArgumentExpr>,
        ret: PlaceExpr,
        next_block: Option<BbName>,
        unwind_block: Option<BbName>,
    },
    Return,
    StartUnwind { unwind_payload: ValueExpr, unwind_block: BbName },
    StopUnwind(BbName),
    ResumeUnwind,
}

#[derive(Clone, Copy, PartialEq, Eq, Structural, Debug)]
pub enum BbKind {
    Regular,
    Cleanup,
    Catch,
    Terminate,
}

#[derive(Debug)]
pub struct BasicBlock {
    pub statements: List<Statement>,
    pub terminator: Terminator,
    pub kind: BbKind,
}

/// A function. `locals[i]` is the type of local `i`, and `blocks[i]` the block
/// named `i` (`None` where no block has that name).
pub struct Function {
    pub locals: Vec<Type>,
    pub args: List<LocalName>,
    pub ret: LocalName,
    pub blocks: Vec<Option<BasicBlock>>,
    pub start: BbName,
    pub calling_convention: CallingConvention,
}

/// A global allocation: its bytes (`None` where uninitialized), the pointers
/// stored in it, and its alignment.
pub struct Global {
    pub bytes: Vec<Option<u8>>,
    pub relocations: List<(Size, Relocation)>,
    pub align: Align,
}

/// A vtable: the layout of the concrete type, and its methods.
#[derive(Debug)]
pub struct VTable {
    pub trait_name: TraitName,
    pub size: Size,
    pub align: Align,
    pub methods: List<(TraitMethodName, FnName)>,
}

/// A whole program. Functions and globals are indexed by their names.
pub struct Program {
    pub start: FnName,
    pub functions: Vec<Option<Function>>,
    pub globals: Vec<Global>,
    pub vtables: Vec<VTable>,
}

/// The size of a pointer of the default target, in bytes.
pub const PTR_SIZE: u64 = 8;

impl PtrType {
    /// The metadata a pointer of this type carries.
    pub open spec fn spec_meta_kind(self) -> PointerMetaKind {
        match self {
            PtrType::Ref { pointee, .. } => pointee.layout.spec_meta_kind(),
            PtrType::Box { pointee } => pointee.layout.spec_meta_kind(),
            PtrType::Raw { meta_kind } => meta_kind,
            PtrType::FnPtr => PointerMetaKind::Thin,
            PtrType::VTablePtr(_) => PointerMetaKind::Thin,
        }
    }

    /// Thin pointers take one pointer-sized word, wide ones two.
    pub open spec fn spec_size(self) -> int {
        if self.spec_meta_kind() == PointerMetaKind::Thin {
            PTR_SIZE as int
        } else {
            2 * PTR_SIZE
        }
    }

    pub fn size(&self) -> (r: u64)
        ensures
            r == self.spec_size(),
    {
        let mk = match self {
            PtrType::Ref { pointee, .. } => pointee.layout.meta_kind(),
            PtrType::Box { pointee } => pointee.layout.meta_kind(),
            PtrType::Raw { meta_kind } => *meta_kind,
            PtrType::FnPtr => PointerMetaKind::Thin,
            PtrType::VTablePtr(_) => PointerMetaKind::Thin,
        };
        match mk {
            PointerMetaKind::Thin => PTR_SIZE,
            _ => 2 * PTR_SIZE,
        }
    }
}

impl Type {
    /// The size of a sized type in bytes; `None` for unsized types.
    pub open spec fn spec_size(self) -> Option<int>
        decreases self,
    {
        match self {
            Type::Int(it) => Some(it.size.bytes as int),
            Type::Bool => Some(1),
            Type::Ptr(p) => Some(p.spec_size()),
            Type::Tuple { size, .. } => Some(size.bytes as int),
            Type::Union { size, .. } => Some(size.bytes as int),
            Type::Enum { size, .. } => Some(size.bytes as int),
            Type::Array { elem, count } => match elem.spec_size() {
                Some(es) => Some(es * count@),
                None => None,
            },
            Type::Slice { .. } => None,
            Type::TraitObject(_) => None,
        }
    }

    /// The sizes of the type and of the array element types inside it fit in 64 bits.
    pub open spec fn size_fits(self) -> bool
        decreases self,
    {
        match self {
            Type::Array { elem, count } => {
                &&& 0 <= count@ <= u64::MAX
                &&& elem.size_fits()
                &&& self.spec_size() is Some ==> self.spec_size().unwrap() <= u64::MAX
            },
            _ => true,
        }
    }

    /// The size of a sized type in bytes (MiniRust's `Type::size`); `None` for unsized types.
    pub fn size(&self) -> (r: Option<u64>)
        requires
            self.size_fits(),
        ensures
            r == (match self.spec_size() {
                Some(s) => Some(s as u64),
                None => None::<u64>,
            }),
            self.spec_size() is Some ==> 0 <= self.spec_size().unwrap() <= u64::MAX,
        decreases self,
    {
        match self {
            Type::Int(it) => Some(it.size.bytes),
            Type::Bool => Some(1),
            Type::Ptr(p) => Some(p.size()),
            Type::Tuple { size, .. } => Some(size.bytes),
            Type::Union { size, .. } => Some(size.bytes),
            Type::Enum { size, .. } => Some(size.bytes),
            Type::Array { elem, count } => match elem.size() {
                Some(es) => {
                    let c = count.lo as u64;
                    proof {
                        crate::num::lemma_count_limbs(*count);
                        assert(es == elem.spec_size().unwrap());
                        assert(0 <= es * c) by (nonlinear_arith)
                            requires es >= 0, c >= 0;
                    }
                    Some(es * c)
                },
                None => None,
            },
            Type::Slice { .. } => None,
            Type::TraitObject(_) => None,
        }
    }
}

} // verus!
