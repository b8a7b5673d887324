//! The translation context of a whole program, and the naming of functions.
use vstd::prelude::*;
use crate::lang::{
    Function, Global, VTable, FnName, TraitName, VTableName, Program, Type, List, LocalName, BbName, BasicBlock, BbKind,
    Terminator, IntrinsicOp, CallingConvention, Constant, ValueExpr, PtrType, Size, Align,
};
use crate::mir::{InstanceKey, RsAllocation, AllocKey};
use crate::rs::{TyId, RsTy};
use crate::ty::{TyCtxt, tys_wf, unit_type};
use crate::constant::allocs_wf;
use crate::builder::{spec_unit_place, unit_place, spec_abort, abort, unit_ty};
use crate::fnrefs::{fn_blocks_refs, methods_refs, lemma_refs_closed_grows, lemma_start_fn_refs};

verus! {

/// The index of the first occurrence of `k` in `s`, or -1.
pub open spec fn index_of<K>(s: Seq<K>, k: K) -> int {
    if s.contains(k) {
        first_index(s, k, 0)
    } else {
        -1
    }
}

/// The index of the first occurrence of `k` in `s` at or after `i`, or -1.
pub open spec fn first_index<K>(s: Seq<K>, k: K, i: int) -> int
    decreases s.len() - i,
{
    if i < 0 || i >= s.len() {
        -1
    } else if s[i] == k {
        i
    } else {
        first_index(s, k, i + 1)
    }
}

/// `new` is `old` with more keys appended.
pub open spec fn extends<K>(old: Seq<K>, new: Seq<K>) -> bool {
    &&& old.len() <= new.len()
    &&& new.subrange(0, old.len() as int) == old
}

proof fn lemma_first_index_bounds<K>(s: Seq<K>, k: K, i: int)
    requires
        0 <= i,
        exists|j: int| i <= j < s.len() && s[j] == k,
    ensures
        i <= first_index(s, k, i) < s.len(),
        s[first_index(s, k, i)] == k,
        forall|j: int| i <= j < first_index(s, k, i) ==> s[j] != k,
    decreases s.len() - i,
{
    if s[i] != k {
        lemma_first_index_bounds(s, k, i + 1);
    }
}

/// What `index_of` says of a key that occurs in the sequence.
pub proof fn lemma_index_of<K>(s: Seq<K>, k: K)
    requires
        s.contains(k),
    ensures
        0 <= index_of(s, k) < s.len(),
        s[index_of(s, k)] == k,
        forall|j: int| 0 <= j < index_of(s, k) ==> s[j] != k,
{
    let j = choose|j: int| 0 <= j < s.len() && s[j] == k;
    lemma_first_index_bounds(s, k, 0);
}

/// A key's index does not change when keys are appended.
pub proof fn lemma_index_of_extends<K>(old: Seq<K>, new: Seq<K>, k: K)
    requires
        extends(old, new),
        old.contains(k),
    ensures
        new.contains(k),
        index_of(new, k) == index_of(old, k),
{
    lemma_index_of(old, k);
    let i = index_of(old, k);
    assert(new[i] == old[i]);
    lemma_index_of(new, k);
    let j = index_of(new, k);
    if j < i {
        assert(old[j] == new[j]);
    }
    if i < j {
        assert(new[i] == k);
    }
}

/// The name of a function instance.
pub open spec fn fn_name_of(fns: Seq<InstanceKey>, k: InstanceKey) -> FnName {
    FnName(index_of(fns, k) as u32)
}

/// `b` is `a` with more names given out.
pub open spec fn cx_extends(a: Ctxt, b: Ctxt) -> bool {
    &&& a.tcx == b.tcx
    &&& a.session == b.session
    &&& a.allocs == b.allocs
    &&& a.entry == b.entry
    &&& extends(a.fn_names@, b.fn_names@)
    &&& extends(a.alloc_names@, b.alloc_names@)
}

/// Keys stay named when names are added.
pub proof fn lemma_contains_extends<K>(old: Seq<K>, new: Seq<K>, k: K)
    requires
        extends(old, new),
        old.contains(k),
    ensures
        new.contains(k),
{
    lemma_index_of_extends(old, new, k);
}



/// Function names are given once: different named instances have different
/// names, and an instance keeps its name when more instances are named.
pub proof fn law_fn_names(old_names: Seq<InstanceKey>, new_names: Seq<InstanceKey>, a: InstanceKey, b: InstanceKey)
    requires
        new_names.no_duplicates(),
        extends(old_names, new_names),
        new_names.contains(a),
        new_names.contains(b),
    ensures
        a != b ==> index_of(new_names, a) != index_of(new_names, b),
        old_names.contains(a) ==> index_of(new_names, a) == index_of(old_names, a),
{
    lemma_index_of(new_names, a);
    lemma_index_of(new_names, b);
    if old_names.contains(a) {
        lemma_index_of_extends(old_names, new_names, a);
    }
}

/// Names are handed out by position, once: a key keeps its name when more
/// keys are named, distinct keys have distinct names, and a key named anew
/// gets the next number. Function, vtable and allocation names are all
/// given this way.
pub proof fn law_names_by_position<K>(old_names: Seq<K>, new_names: Seq<K>, a: K, b: K)
    requires
        new_names.no_duplicates(),
        extends(old_names, new_names),
        new_names.contains(a),
        new_names.contains(b),
    ensures
        a != b ==> index_of(new_names, a) != index_of(new_names, b),
        old_names.contains(a) ==> index_of(new_names, a) == index_of(old_names, a),
        !old_names.contains(a) && new_names == old_names.push(a) ==> index_of(new_names, a) == old_names.len(),
{
    lemma_index_of(new_names, a);
    lemma_index_of(new_names, b);
    if old_names.contains(a) {
        lemma_index_of_extends(old_names, new_names, a);
    }
    if !old_names.contains(a) && new_names == old_names.push(a) {
        assert(new_names[old_names.len() as int] == a);
    }
}

/// What rustc reports of the target's data layout.
pub struct TargetLayout {
    pub pointer_size: u64,
    pub pointer_align: u64,
    pub little_endian: bool,
    /// The alignments of the integers of 1, 2, 4, 8 and 16 bytes.
    pub int_aligns: Vec<u64>,
}

/// The target is MiniRust's default one: 64-bit little-endian pointers, and
/// integers aligned to their size.
pub open spec fn layout_ok(layout: TargetLayout) -> bool {
    &&& layout.pointer_size == 8
    &&& layout.pointer_align == 8
    &&& layout.little_endian
    &&& layout.int_aligns@ == seq![1u64, 2, 4, 8, 16]
}

/// Whether the target is MiniRust's default one (see [`layout_ok`]).
pub fn layout_matches(layout: &TargetLayout) -> (r: bool)
    ensures
        r == layout_ok(*layout),
{
    if !(layout.pointer_size == 8 && layout.pointer_align == 8 && layout.little_endian && layout.int_aligns.len() == 5) {
        return false;
    }
    // MiniRust aligns an integer to its size.
    let mut i: usize = 0;
    let mut size: u64 = 1;
    while i < 5
        invariant
            layout.int_aligns@.len() == 5,
            i <= 5,
            size == seq![1u64, 2, 4, 8, 16, 32][i as int],
            forall|j: int| 0 <= j < i ==> layout.int_aligns@[j] == seq![1u64, 2, 4, 8, 16][j],
        decreases 5 - i,
    {
        if layout.int_aligns[i] != size {
            return false;
        }
        i = i + 1;
        size = size * 2;
    }
    assert(layout.int_aligns@ =~= seq![1u64, 2, 4, 8, 16]);
    true
}

/// The environment types are evaluated in: everything is monomorphic.
#[derive(Clone, Copy, PartialEq, Eq, Structural, Debug)]
pub enum TypingEnv {
    FullyMonomorphized,
}

/// `f` is the start function: it calls function `entry` and exits; if the
/// call unwinds, it aborts.
pub open spec fn is_start_fn(f: Function, entry: u32) -> bool {
    &&& f.locals@ == seq![unit_type()]
    &&& f.args == List::<LocalName>::Nil
    &&& f.ret == LocalName(0)
    &&& f.start == BbName(0)
    &&& f.calling_convention == CallingConvention::C
    &&& f.blocks@ == seq![
        Some(BasicBlock {
            statements: List::Nil,
            terminator: Terminator::Call {
                callee: ValueExpr::Constant(Constant::FnPointer(FnName(entry)), Type::Ptr(PtrType::FnPtr)),
                calling_convention: CallingConvention::Rust,
                arguments: List::Nil,
                ret: spec_unit_place(),
                next_block: Some(BbName(1)),
                unwind_block: Some(BbName(2)),
            },
            kind: BbKind::Regular,
        }),
        Some(BasicBlock {
            statements: List::Nil,
            terminator: Terminator::Intrinsic {
                intrinsic: IntrinsicOp::Exit,
                arguments: List::Nil,
                ret: spec_unit_place(),
                next_block: None,
            },
            kind: BbKind::Regular,
        }),
        Some(BasicBlock { statements: List::Nil, terminator: spec_abort(), kind: BbKind::Catch }),
    ]
}

/// The start function begins by calling function `entry` with no
/// arguments (as a C function taking none); when the call returns it goes on
/// to a block that exits the program, and when the call unwinds it goes on
/// to a catch block that aborts.
pub proof fn law_start_fn_runs_the_entry(f: Function, entry: u32)
    requires
        is_start_fn(f, entry),
    ensures
        f.args == List::<LocalName>::Nil,
        f.calling_convention == CallingConvention::C,
        0 <= f.start.0 < f.blocks@.len(),
        f.blocks@[f.start.0 as int] matches Some(b) && (b.terminator matches Terminator::Call {
            callee: ValueExpr::Constant(Constant::FnPointer(callee), _),
            arguments: List::Nil,
            next_block: Some(next),
            unwind_block: Some(unwind),
            ..
        } && {
            &&& callee == FnName(entry)
            &&& 0 <= next.0 < f.blocks@.len()
            &&& 0 <= unwind.0 < f.blocks@.len()
            &&& f.blocks@[next.0 as int] is Some
            &&& f.blocks@[next.0 as int].unwrap().terminator matches Terminator::Intrinsic { intrinsic: IntrinsicOp::Exit, .. }
            &&& f.blocks@[unwind.0 as int] is Some
            &&& f.blocks@[unwind.0 as int].unwrap().terminator == spec_abort()
            &&& f.blocks@[unwind.0 as int].unwrap().kind == BbKind::Catch
        }),
{
}

/// The function that starts the program: calls function `entry`, exits,
/// and aborts if `entry` unwinds.
pub fn mk_start_fn(entry: u32) -> (r: Function)
    ensures
        is_start_fn(r, entry),
{
    let b0 = BasicBlock {
        statements: List::Nil,
        terminator: Terminator::Call {
            callee: ValueExpr::Constant(Constant::FnPointer(FnName(entry)), Type::Ptr(PtrType::FnPtr)),
            calling_convention: CallingConvention::Rust,
            arguments: List::Nil,
            ret: unit_place(),
            next_block: Some(BbName(1)),
            unwind_block: Some(BbName(2)),
        },
        kind: BbKind::Regular,
    };
    let b1 = BasicBlock {
        statements: List::Nil,
        terminator: Terminator::Intrinsic {
            intrinsic: IntrinsicOp::Exit,
            arguments: List::Nil,
            ret: unit_place(),
            next_block: None,
        },
        kind: BbKind::Regular,
    };
    // If `entry` unwinds, we jump here and abort.
    let b2 = BasicBlock { statements: List::Nil, terminator: abort(), kind: BbKind::Catch };
    let mut blocks: Vec<Option<BasicBlock>> = Vec::new();
    blocks.push(Some(b0));
    blocks.push(Some(b1));
    blocks.push(Some(b2));
    let mut locals: Vec<Type> = Vec::new();
    locals.push(unit_ty());
    proof {
        assert(blocks@ =~= seq![Some(b0), Some(b1), Some(b2)]);
        assert(locals@ =~= seq![unit_type()]);
    }
    Function {
        locals,
        args: List::Nil,
        ret: LocalName(0),
        blocks,
        start: BbName(0),
        calling_convention: CallingConvention::C,
    }
}

/// What the translation knows about the target and the compilation session.
pub struct Session {
    /// Whether panics unwind (else they abort).
    pub panic_unwind: bool,
    /// Whether UB checks are enabled.
    pub ub_checks: bool,
    /// The type `core::cmp::Ordering`.
    pub ordering_ty: TyId,
}

/// The state of translating a whole program.
pub struct Ctxt {
    pub tcx: TyCtxt,
    pub session: Session,
    /// `FnName(i)` names the instance `fn_names[i]`.
    pub fn_names: Vec<InstanceKey>,
    /// The translated functions, by name.
    pub functions: Vec<Option<Function>>,
    /// The global allocations that constants point to.
    pub allocs: Vec<RsAllocation>,
    /// `GlobalName(i)` names the allocation `alloc_names[i]`, whose global is `globals[i]`.
    pub alloc_names: Vec<AllocKey>,
    pub globals: Vec<Global>,
    /// `VTableName(i)` names the vtable of `vtable_names[i]`, which is `vtables[i]`.
    pub vtable_names: Vec<(TyId, TraitName)>,
    pub vtables: Vec<VTable>,
    /// The program's entry function, once it is named.
    pub entry: Ghost<Option<InstanceKey>>,
}

impl Ctxt {
    /// The invariants of the naming maps.
    pub open spec fn names_wf(&self) -> bool {
        &&& self.fn_names@.no_duplicates()
        &&& self.fn_names@.len() < u32::MAX
        &&& self.functions@.len() <= self.fn_names@.len()
        &&& (self.entry@ matches Some(e) ==> self.fn_names@.len() > 0 && self.fn_names@[0] == e)
    }

    /// The name of a function instance; a new instance gets the next free name.
    pub fn get_fn_name(&mut self, key: InstanceKey) -> (r: FnName)
        requires
            old(self).names_wf(),
            old(self).fn_names@.contains(key) || old(self).fn_names@.len() + 1 < u32::MAX,
        ensures
            final(self).names_wf(),
            extends(old(self).fn_names@, final(self).fn_names@),
            final(self).fn_names@.contains(key),
            old(self).fn_names@.contains(key) ==> final(self).fn_names@ == old(self).fn_names@,
            !old(self).fn_names@.contains(key) ==> final(self).fn_names@ == old(self).fn_names@.push(key),
            old(self).fn_names@.contains(key) ==> *final(self) == *old(self),
            r == fn_name_of(final(self).fn_names@, key),
            final(self).tcx == old(self).tcx,
            final(self).session == old(self).session,
            final(self).entry == old(self).entry,
            final(self).functions == old(self).functions,
            final(self).allocs == old(self).allocs,
            final(self).alloc_names == old(self).alloc_names,
            final(self).globals == old(self).globals,
            final(self).vtable_names == old(self).vtable_names,
            final(self).vtables == old(self).vtables,
    {
        let mut i: usize = 0;
        while i < self.fn_names.len()
            invariant
                *self == *old(self),
                old(self).names_wf(),
                i <= self.fn_names.len(),
                forall|j: int| 0 <= j < i ==> self.fn_names@[j] != key,
            decreases self.fn_names.len() - i,
        {
            if self.fn_names[i] == key {
                proof {
                    lemma_index_of(self.fn_names@, key);
                    assert(self.fn_names@.subrange(0, self.fn_names@.len() as int) =~= self.fn_names@);
                }
                return FnName(i as u32);
            }
            i = i + 1;
        }
        // Used as the name if the instance is not named yet.
        let len = self.fn_names.len();
        let ghost before = self.fn_names@;
        self.fn_names.push(key);
        proof {
            assert(!before.contains(key));
            assert(self.fn_names@[len as int] == key);
            lemma_index_of(self.fn_names@, key);
            assert(self.fn_names@.subrange(0, before.len() as int) =~= before);
            assert forall|a: int, b: int| 0 <= a < self.fn_names@.len() && 0 <= b < self.fn_names@.len() && a != b
                implies self.fn_names@[a] != self.fn_names@[b] by {
                if a < before.len() && b < before.len() {
                } else if a == len {
                    assert(before[b] == self.fn_names@[b]);
                } else {
                    assert(before[a] == self.fn_names@[a]);
                }
            }
        }
        FnName(len as u32)
    }

    /// [`Ctxt::get_fn_name`], for an instance as stable MIR gives it (the same
    /// key here).
    pub fn get_fn_name_smir(&mut self, key: InstanceKey) -> (r: FnName)
        requires
            old(self).names_wf(),
            old(self).fn_names@.contains(key) || old(self).fn_names@.len() + 1 < u32::MAX,
        ensures
            final(self).names_wf(),
            extends(old(self).fn_names@, final(self).fn_names@),
            final(self).fn_names@.contains(key),
            old(self).fn_names@.contains(key) ==> *final(self) == *old(self),
            !old(self).fn_names@.contains(key) ==> final(self).fn_names@ == old(self).fn_names@.push(key),
            r == fn_name_of(final(self).fn_names@, key),
            final(self).tcx == old(self).tcx,
            final(self).session == old(self).session,
            final(self).entry == old(self).entry,
            final(self).functions == old(self).functions,
            final(self).allocs == old(self).allocs,
            final(self).alloc_names == old(self).alloc_names,
            final(self).globals == old(self).globals,
            final(self).vtable_names == old(self).vtable_names,
            final(self).vtables == old(self).vtables,
    {
        self.get_fn_name(key)
    }
}

impl Ctxt {
    /// A new translation of a program whose types and global allocations
    /// are given; nothing is named or translated yet.
    pub fn new(tys: Vec<RsTy>, allocs: Vec<RsAllocation>, session: Session, layout: &TargetLayout) -> (r: Ctxt)
        requires
            tys_wf(tys@),
            allocs_wf(allocs@),
            allocs@.len() < u32::MAX,
            layout_ok(*layout),
        ensures
            r.wf(),
            r.tcx.tys == tys,
            r.allocs == allocs,
            r.session == session,
            r.fn_names@.len() == 0,
            r.functions@.len() == 0,
            r.alloc_names@.len() == 0,
            r.globals@.len() == 0,
            r.vtable_names@.len() == 0,
            r.vtables@.len() == 0,
            r.entry@ is None,
            r.refs_closed(),
    {
        Ctxt {
            tcx: TyCtxt { tys },
            session,
            fn_names: Vec::new(),
            functions: Vec::new(),
            allocs,
            alloc_names: Vec::new(),
            globals: Vec::new(),
            vtable_names: Vec::new(),
            vtables: Vec::new(),
            entry: Ghost(None),
        }
    }

    /// Names the entry function, first of all: it gets name 0, the function
    /// the program's start function calls.
    pub fn name_entry(&mut self, entry: InstanceKey) -> (r: FnName)
        requires
            old(self).names_wf(),
            old(self).fn_names@.len() == 0,
            old(self).refs_closed(),
        ensures
            r == FnName(0),
            final(self).names_wf(),
            final(self).refs_closed(),
            final(self).fn_names@ == seq![entry],
            final(self).entry@ == Some(entry),
            final(self).tcx == old(self).tcx,
            final(self).session == old(self).session,
            final(self).functions == old(self).functions,
            final(self).allocs == old(self).allocs,
            final(self).alloc_names == old(self).alloc_names,
            final(self).globals == old(self).globals,
            final(self).vtable_names == old(self).vtable_names,
            final(self).vtables == old(self).vtables,
    {
        let r = self.get_fn_name(entry);
        proof {
            assert(self.fn_names@ =~= seq![entry]);
            lemma_index_of(self.fn_names@, entry);
        }
        self.entry = Ghost(Some(entry));
        proof {
            lemma_refs_closed_grows(*old(self), *self);
        }
        r
    }

    /// The environment in which types are evaluated.
    pub fn typing_env(&self) -> (r: TypingEnv)
        ensures
            r == TypingEnv::FullyMonomorphized,
    {
        TypingEnv::FullyMonomorphized
    }

    /// The next function to translate: the first one that has a name but no
    /// body yet, with its instance; `None` when all are translated.
    pub fn next_untranslated(&self) -> (r: Option<(FnName, InstanceKey)>)
        requires
            self.names_wf(),
        ensures
            self.functions@.len() < self.fn_names@.len() ==> r == Some(
                (FnName(self.functions@.len() as u32), self.fn_names@[self.functions@.len() as int]),
            ),
            self.functions@.len() == self.fn_names@.len() ==> r is None,
    {
        let n = self.functions.len();
        if n < self.fn_names.len() {
            Some((FnName(n as u32), self.fn_names[n]))
        } else {
            None
        }
    }

    /// Records the translation of the next function.
    pub fn add_function(&mut self, f: Function)
        requires
            old(self).names_wf(),
            old(self).refs_closed(),
            old(self).functions@.len() < old(self).fn_names@.len(),
            fn_blocks_refs(f.blocks@, old(self).fn_names@.len() as int),
        ensures
            final(self).names_wf(),
            final(self).refs_closed(),
            final(self).functions@ == old(self).functions@.push(Some(f)),
            final(self).tcx == old(self).tcx,
            final(self).session == old(self).session,
            final(self).entry == old(self).entry,
            final(self).fn_names == old(self).fn_names,
            final(self).allocs == old(self).allocs,
            final(self).alloc_names == old(self).alloc_names,
            final(self).globals == old(self).globals,
            final(self).vtable_names == old(self).vtable_names,
            final(self).vtables == old(self).vtables,
    {
        self.functions.push(Some(f));
        proof {
            assert forall|i: int| 0 <= i < self.functions@.len() implies #[trigger] self.functions@[i] is Some by {
                if i < old(self).functions@.len() {
                    assert(self.functions@[i] == old(self).functions@[i]);
                }
            }
            assert forall|i: int| 0 <= i < self.functions@.len() implies fn_blocks_refs(
                #[trigger] self.functions@[i].unwrap().blocks@,
                self.fn_names@.len() as int,
            ) by {
                if i < old(self).functions@.len() {
                    assert(self.functions@[i] == old(self).functions@[i]);
                }
            }
        }
    }

    /// The program, once every named function is translated: it starts in
    /// a new function (named after all the others) that calls function 0,
    /// the entry function.
    pub fn translate(self) -> (r: Program)
        requires
            self.names_wf(),
            self.refs_closed(),
            self.entry@ is Some,
            self.functions@.len() == self.fn_names@.len(),
        ensures
            fn_name_of(self.fn_names@, self.entry@->0) == FnName(0),
            // Every function the program refers to is there.
            forall|i: int| 0 <= i < r.functions@.len() ==> #[trigger] r.functions@[i] is Some,
            forall|i: int| 0 <= i < r.functions@.len()
                ==> fn_blocks_refs(#[trigger] r.functions@[i].unwrap().blocks@, r.functions@.len() as int),
            forall|i: int| 0 <= i < r.vtables@.len() ==> methods_refs(#[trigger] r.vtables@[i].methods, r.functions@.len() as int),
            r.start == FnName(self.fn_names@.len() as u32),
            r.functions@.len() == self.functions@.len() + 1,
            forall|i: int| 0 <= i < self.functions@.len() ==> r.functions@[i] == self.functions@[i],
            r.functions@.last() is Some,
            is_start_fn(r.functions@.last().unwrap(), 0),
            r.globals == self.globals,
            r.vtables == self.vtables,
    {
        proof {
            lemma_index_of(self.fn_names@, self.fn_names@[0]);
        }
        let number_of_fns = self.fn_names.len();
        let start = FnName(number_of_fns as u32);
        let mut functions = self.functions;
        let start_fn = mk_start_fn(0);
        let ghost old_fns = functions@;
        let ghost n = number_of_fns as int;
        functions.push(Some(start_fn));
        proof {
            lemma_start_fn_refs(start_fn, n + 1);
            assert forall|i: int| 0 <= i < functions@.len() implies #[trigger] functions@[i] is Some by {
                if i < n {
                    assert(functions@[i] == old_fns[i]);
                }
            }
            assert forall|i: int| 0 <= i < functions@.len() implies fn_blocks_refs(
                #[trigger] functions@[i].unwrap().blocks@,
                functions@.len() as int,
            ) by {
                if i < n {
                    assert(functions@[i] == old_fns[i]);
                    crate::fnrefs::lemma_fn_blocks_mono(old_fns[i].unwrap().blocks@, n, n + 1);
                }
            }
            assert forall|i: int| 0 <= i < self.vtables@.len() implies methods_refs(
                #[trigger] self.vtables@[i].methods,
                functions@.len() as int,
            ) by {
                crate::fnrefs::lemma_methods_mono(self.vtables@[i].methods, n, n + 1);
            }
        }
        Program { start, functions, globals: self.globals, vtables: self.vtables }
    }
}

} // verus!
