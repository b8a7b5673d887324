//! Vtables: for a type and a trait, the type's layout and the functions
//! that implement the trait's methods.
use vstd::prelude::*;
use crate::lang::{VTable, VTableName, TraitName, TraitMethodName, FnName, Size, Align, list_from_seq, list_from_vec};
use crate::mir::InstanceKey;
use crate::rs::TyId;
use crate::program::{Ctxt, index_of, extends, fn_name_of, lemma_index_of, lemma_index_of_extends};
use crate::constant::lemma_extends_trans;

verus! {

/// The methods of a vtable whose entries `..i` are `entries` (`Some` for a
/// method, with its instance): each method is named by its slot.
pub open spec fn spec_vtable_methods(fn_names: Seq<InstanceKey>, entries: Seq<Option<InstanceKey>>, i: int) -> Seq<(TraitMethodName, FnName)>
    decreases i,
{
    if i <= 0 {
        Seq::empty()
    } else {
        spec_vtable_methods(fn_names, entries, i - 1) + match entries[i - 1] {
            Some(inst) => seq![(TraitMethodName((i - 1) as u32), fn_name_of(fn_names, inst))],
            None => Seq::empty(),
        }
    }
}

/// A method entry's instance has a name.
pub open spec fn entry_named(names: Seq<InstanceKey>, e: Option<InstanceKey>) -> bool {
    match e {
        Some(inst) => names.contains(inst),
        None => true,
    }
}

/// The vtable of type `ty` for a trait, given its entries.
pub open spec fn spec_vtable(cx: Ctxt, ty: TyId, trait_name: TraitName, entries: Seq<Option<InstanceKey>>) -> VTable {
    VTable {
        trait_name,
        size: Size { bytes: cx.tcx.tys@[ty as int].layout.size },
        align: Align { bytes: cx.tcx.tys@[ty as int].layout.align },
        methods: list_from_seq(spec_vtable_methods(cx.fn_names@, entries, entries.len() as int)),
    }
}

impl Ctxt {
    /// The vtable naming map is consistent.
    pub open spec fn vtables_wf(&self) -> bool {
        &&& self.vtable_names@.len() == self.vtables@.len()
        &&& self.vtable_names@.len() < u32::MAX
        &&& self.vtable_names@.no_duplicates()
    }

    /// The method of a vtable entry: a method entry (with its instance) is
    /// the method named by its slot `idx`; other entries are none.
    fn vtable_entry_to_trait_method(&mut self, idx: u32, entry: Option<InstanceKey>) -> (r: Option<(TraitMethodName, FnName)>)
        requires
            old(self).names_wf(),
            old(self).fn_names@.len() + 1 < u32::MAX,
        ensures
            final(self).names_wf(),
            extends(old(self).fn_names@, final(self).fn_names@),
            final(self).fn_names@.len() <= old(self).fn_names@.len() + 1,
            entry matches Some(inst) ==> final(self).fn_names@.contains(inst),
            r == (match entry {
                Some(inst) => Some((TraitMethodName(idx), fn_name_of(final(self).fn_names@, inst))),
                None => None,
            }),
            final(self).tcx == old(self).tcx,
            final(self).session == old(self).session,
            final(self).entry == old(self).entry,
            final(self).functions == old(self).functions,
            final(self).allocs == old(self).allocs,
            final(self).alloc_names == old(self).alloc_names,
            final(self).globals == old(self).globals,
            final(self).vtable_names == old(self).vtable_names,
            final(self).vtables == old(self).vtables,
    {
        match entry {
            Some(func) => Some((TraitMethodName(idx), self.get_fn_name(func))),
            None => {
                proof {
                    assert(self.fn_names@.subrange(0, self.fn_names@.len() as int) =~= self.fn_names@);
                }
                None
            },
        }
    }

    /// The vtable of type `ty` for a trait: the type's size and alignment,
    /// and the methods among `entries` (the trait's vtable entries for `ty`).
    fn generate_vtable(&mut self, ty: TyId, trait_name: TraitName, entries: &Vec<Option<InstanceKey>>) -> (r: VTable)
        requires
            old(self).names_wf(),
            old(self).fn_names@.len() + entries@.len() + 1 < u32::MAX,
            ty < old(self).tcx.tys@.len(),
            // There are no unsized trait objects.
            old(self).tcx.tys@[ty as int].layout.sized,
        ensures
            final(self).names_wf(),
            extends(old(self).fn_names@, final(self).fn_names@),
            final(self).fn_names@.len() <= old(self).fn_names@.len() + entries@.len(),
            r == spec_vtable(*final(self), ty, trait_name, entries@),
            final(self).tcx == old(self).tcx,
            final(self).session == old(self).session,
            final(self).entry == old(self).entry,
            final(self).functions == old(self).functions,
            final(self).allocs == old(self).allocs,
            final(self).alloc_names == old(self).alloc_names,
            final(self).globals == old(self).globals,
            final(self).vtable_names == old(self).vtable_names,
            final(self).vtables == old(self).vtables,
    {
        let size = Size { bytes: self.tcx.tys[ty].layout.size };
        let align = Align { bytes: self.tcx.tys[ty].layout.align };
        let mut methods: Vec<(TraitMethodName, FnName)> = Vec::new();
        let mut i: usize = 0;
        proof {
            assert(self.fn_names@.subrange(0, self.fn_names@.len() as int) =~= self.fn_names@);
        }
        while i < entries.len()
            invariant
                self.names_wf(),
                extends(old(self).fn_names@, self.fn_names@),
                i <= entries@.len(),
                self.fn_names@.len() <= old(self).fn_names@.len() + i,
                old(self).fn_names@.len() + entries@.len() + 1 < u32::MAX,
                forall|j: int| 0 <= j < i ==> entry_named(self.fn_names@, #[trigger] entries@[j]),
                methods@ == spec_vtable_methods(self.fn_names@, entries@, i as int),
                self.tcx == old(self).tcx,
                self.session == old(self).session,
                self.entry == old(self).entry,
                self.functions == old(self).functions,
                self.allocs == old(self).allocs,
                self.alloc_names == old(self).alloc_names,
                self.globals == old(self).globals,
                self.vtable_names == old(self).vtable_names,
                self.vtables == old(self).vtables,
            decreases entries@.len() - i,
        {
            let ghost before = self.fn_names@;
            let m = self.vtable_entry_to_trait_method(i as u32, entries[i]);
            proof {
                lemma_extends_trans(old(self).fn_names@, before, self.fn_names@);
                lemma_vtable_methods_stable(before, self.fn_names@, entries@, i as int);
                assert forall|j: int| 0 <= j < i + 1 implies entry_named(self.fn_names@, #[trigger] entries@[j]) by {
                    if j < i {
                        if let Some(inst) = entries@[j] {
                            lemma_index_of_extends(before, self.fn_names@, inst);
                        }
                    }
                }
            }
            match m {
                Some(m) => methods.push(m),
                None => {},
            }
            i = i + 1;
            proof {
                assert(methods@ =~= spec_vtable_methods(self.fn_names@, entries@, i as int));
            }
        }
        VTable { trait_name, size, align, methods: list_from_vec(methods) }
    }

    /// The name of the vtable of type `ty` for a trait: the one made before
    /// for the same pair, else a new one, the next free name.
    pub fn get_vtable(&mut self, ty: TyId, trait_name: TraitName, entries: &Vec<Option<InstanceKey>>) -> (r: VTableName)
        requires
            old(self).names_wf(),
            old(self).vtables_wf(),
            old(self).vtable_names@.contains((ty, trait_name)) || {
                &&& old(self).vtable_names@.len() + 1 < u32::MAX
                &&& old(self).fn_names@.len() + entries@.len() + 1 < u32::MAX
                &&& ty < old(self).tcx.tys@.len()
                &&& old(self).tcx.tys@[ty as int].layout.sized
            },
        ensures
            final(self).names_wf(),
            final(self).vtables_wf(),
            final(self).vtable_names@.contains((ty, trait_name)),
            r == VTableName(index_of(final(self).vtable_names@, (ty, trait_name)) as u32),
            old(self).vtable_names@.contains((ty, trait_name)) ==> *final(self) == *old(self),
            !old(self).vtable_names@.contains((ty, trait_name)) ==> {
                &&& final(self).vtable_names@ == old(self).vtable_names@.push((ty, trait_name))
                &&& final(self).vtables@ == old(self).vtables@.push(spec_vtable(*final(self), ty, trait_name, entries@))
                &&& extends(old(self).fn_names@, final(self).fn_names@)
            },
            final(self).entry == old(self).entry,
            final(self).tcx == old(self).tcx,
            final(self).functions == old(self).functions,
            final(self).allocs == old(self).allocs,
            final(self).alloc_names == old(self).alloc_names,
            final(self).globals == old(self).globals,
    {
        let mut i: usize = 0;
        while i < self.vtable_names.len()
            invariant
                *self == *old(self),
                old(self).names_wf(),
                old(self).vtables_wf(),
                i <= self.vtable_names@.len(),
                forall|j: int| 0 <= j < i ==> self.vtable_names@[j] != (ty, trait_name),
            decreases self.vtable_names@.len() - i,
        {
            let (t, n) = self.vtable_names[i];
            if t == ty && n == trait_name {
                proof {
                    assert(self.vtable_names@[i as int] == (ty, trait_name));
                    lemma_index_of(self.vtable_names@, (ty, trait_name));
                }
                return VTableName(i as u32);
            }
            i = i + 1;
        }
        proof {
            assert(!self.vtable_names@.contains((ty, trait_name)));
        }
        let fresh_name = VTableName(self.vtable_names.len() as u32);
        let ghost before = self.vtable_names@;
        let vtable = self.generate_vtable(ty, trait_name, entries);
        self.vtable_names.push((ty, trait_name));
        self.vtables.push(vtable);
        proof {
            assert(!before.contains((ty, trait_name)));
            assert(self.vtable_names@[before.len() as int] == (ty, trait_name));
            lemma_index_of(self.vtable_names@, (ty, trait_name));
            assert forall|a: int, b: int| 0 <= a < self.vtable_names@.len() && 0 <= b < self.vtable_names@.len() && a != b
                implies self.vtable_names@[a] != self.vtable_names@[b] by {
                if a < before.len() && b < before.len() {
                } else if a == before.len() {
                    assert(before[b] == self.vtable_names@[b]);
                } else {
                    assert(before[a] == self.vtable_names@[a]);
                }
            }
        }
        fresh_name
    }
}

/// The methods of a vtable keep their names when more functions are named.
proof fn lemma_vtable_methods_stable(a: Seq<InstanceKey>, b: Seq<InstanceKey>, entries: Seq<Option<InstanceKey>>, i: int)
    requires
        extends(a, b),
        0 <= i <= entries.len(),
        forall|j: int| 0 <= j < i ==> entry_named(a, #[trigger] entries[j]),
    ensures
        spec_vtable_methods(a, entries, i) == spec_vtable_methods(b, entries, i),
    decreases i,
{
    if i > 0 {
        lemma_vtable_methods_stable(a, b, entries, i - 1);
        if let Some(inst) = entries[i - 1] {
            lemma_index_of_extends(a, b, inst);
        }
    }
}

/// The vtable of a type for a trait records the trait and the type's size
/// and alignment as rustc laid the type out, and one method for each
/// method entry, in entry order, named by the entry's slot and naming the
/// entry's function.
pub proof fn law_vtable_records_the_type(cx: Ctxt, ty: TyId, trait_name: TraitName, entries: Seq<Option<InstanceKey>>)
    ensures
        ({
            let v = spec_vtable(cx, ty, trait_name, entries);
            &&& v.trait_name == trait_name
            &&& v.size.bytes == cx.tcx.tys@[ty as int].layout.size
            &&& v.align.bytes == cx.tcx.tys@[ty as int].layout.align
            &&& v.methods.to_seq().len() == entry_count(entries, entries.len() as int)
            &&& forall|k: int| 0 <= k < v.methods.to_seq().len() ==> exists|slot: int|
                0 <= slot < entries.len() && #[trigger] v.methods.to_seq()[k] == (
                    TraitMethodName(slot as u32),
                    fn_name_of(cx.fn_names@, entries[slot].unwrap()),
                ) && entries[slot] is Some
        }),
{
    let ms = spec_vtable_methods(cx.fn_names@, entries, entries.len() as int);
    crate::lang::lemma_list_from_seq_to_seq(ms);
    lemma_methods_from_entries(cx.fn_names@, entries, entries.len() as int);
}

/// The number of method entries among entries `..i`.
pub open spec fn entry_count(entries: Seq<Option<InstanceKey>>, i: int) -> int
    decreases i,
{
    if i <= 0 {
        0
    } else {
        entry_count(entries, i - 1) + if entries[i - 1] is Some {
            1int
        } else {
            0int
        }
    }
}

proof fn lemma_methods_from_entries(fn_names: Seq<InstanceKey>, entries: Seq<Option<InstanceKey>>, i: int)
    requires
        0 <= i <= entries.len(),
    ensures
        spec_vtable_methods(fn_names, entries, i).len() == entry_count(entries, i),
        forall|k: int| 0 <= k < spec_vtable_methods(fn_names, entries, i).len() ==> exists|slot: int|
            0 <= slot < i && #[trigger] spec_vtable_methods(fn_names, entries, i)[k] == (
                TraitMethodName(slot as u32),
                fn_name_of(fn_names, entries[slot].unwrap()),
            ) && entries[slot] is Some,
    decreases i,
{
    if i > 0 {
        lemma_methods_from_entries(fn_names, entries, i - 1);
        let prev = spec_vtable_methods(fn_names, entries, i - 1);
        let cur = spec_vtable_methods(fn_names, entries, i);
        assert forall|k: int| 0 <= k < cur.len() implies exists|slot: int|
            0 <= slot < i && #[trigger] cur[k] == (TraitMethodName(slot as u32), fn_name_of(fn_names, entries[slot].unwrap()))
                && entries[slot] is Some by {
            if k < prev.len() {
                assert(cur[k] == prev[k]);
            } else {
                assert(cur[k] == (TraitMethodName((i - 1) as u32), fn_name_of(fn_names, entries[i - 1].unwrap())));
            }
        }
    }
}

} // verus!
