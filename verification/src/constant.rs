//! Global allocations that constants point to, and the translation of constants.
use vstd::prelude::*;
use crate::num::{Int, int_of, wrap_to_bits, lemma_int_of};
use crate::lang::{
    Size, Align, List, Global, GlobalName, Relocation, list_from_seq, list_from_vec, list_len, list_lookup,
    Type, Variant, ValueExpr, Constant,
};
use crate::mir::{RsAllocation, AllocKey, RsConst, RsConstKind};
use crate::program::{Ctxt, index_of, extends, lemma_index_of, lemma_index_of_extends, lemma_contains_extends};
use crate::ty::{is_power_of_two, spec_ty};
use crate::enums::int_from_bits;
use crate::copy::copy_type;
use crate::function::FnCtxt;

verus! {

/// The value of bytes in little-endian order.
pub open spec fn le_value(b: Seq<u8>) -> int
    decreases b.len(),
{
    if b.len() == 0 {
        0
    } else {
        b[0] + 256 * le_value(b.drop_first())
    }
}

/// The allocations are consistent: as many init flags as bytes, pointers
/// stored in initialized bytes inside the allocation, to allocations in the
/// table, and power-of-two alignments.
pub open spec fn allocs_wf(allocs: Seq<RsAllocation>) -> bool {
    forall|a: int| 0 <= a < allocs.len() ==> #[trigger] alloc_wf(allocs, allocs[a])
}

pub open spec fn alloc_wf(allocs: Seq<RsAllocation>, a: RsAllocation) -> bool {
    &&& a.init@.len() == a.bytes@.len()
    &&& is_power_of_two(a.align as nat)
    &&& forall|p: int| 0 <= p < a.ptrs@.len() ==> {
        let (off, target) = #[trigger] a.ptrs@[p];
        &&& off + 8 <= a.bytes@.len()
        &&& target < allocs.len()
        &&& forall|j: int| off <= j < off + 8 ==> a.init@[j]
    }
}

/// Whether `n` is a power of two.
pub fn power_of_two(n: u64) -> (r: bool)
    ensures
        r == is_power_of_two(n as nat),
{
    let mut m = n;
    while m >= 2 && m % 2 == 0
        invariant
            is_power_of_two(m as nat) == is_power_of_two(n as nat),
        decreases m,
    {
        m = m / 2;
    }
    m == 1
}

/// Whether an allocation is consistent in a table of `n` allocations (see
/// [`allocs_wf`]).
pub fn alloc_ok(n: u128, a: &RsAllocation) -> (r: bool)
    ensures
        forall|t: Seq<RsAllocation>| t.len() == n ==> (r == #[trigger] alloc_wf(t, *a)),
{
    if a.init.len() != a.bytes.len() || !power_of_two(a.align) {
        return false;
    }
    let len = a.bytes.len();
    let mut p: usize = 0;
    while p < a.ptrs.len()
        invariant
            len == a.bytes@.len(),
            a.init@.len() == a.bytes@.len(),
            p <= a.ptrs@.len(),
            forall|q: int| 0 <= q < p ==> {
                let (off, target) = #[trigger] a.ptrs@[q];
                &&& off + 8 <= a.bytes@.len()
                &&& target < n
                &&& forall|j: int| off <= j < off + 8 ==> a.init@[j]
            },
        decreases a.ptrs@.len() - p,
    {
        let (off, target) = a.ptrs[p];
        if target as u128 >= n || len < 8 || off > (len - 8) as u64 {
            return false;
        }
        let mut j: usize = off as usize;
        while j < off as usize + 8
            invariant
                a.init@.len() == len,
                p < a.ptrs@.len(),
                a.ptrs@[p as int] == (off, target),
                off + 8 <= len,
                off <= j <= off + 8,
                forall|i: int| off <= i < j ==> a.init@[i],
            decreases off + 8 - j,
        {
            if !a.init[j] {
                return false;
            }
            j = j + 1;
        }
        p = p + 1;
    }
    true
}

/// Whether a table of global allocations is consistent (see [`allocs_wf`]).
pub fn allocs_ok(allocs: &Vec<RsAllocation>) -> (r: bool)
    ensures
        r == allocs_wf(allocs@),
{
    let mut i: usize = 0;
    while i < allocs.len()
        invariant
            i <= allocs@.len(),
            forall|b: int| 0 <= b < i ==> #[trigger] alloc_wf(allocs@, allocs@[b]),
        decreases allocs@.len() - i,
    {
        if !alloc_ok(allocs.len() as u128, &allocs[i]) {
            assert(!alloc_wf(allocs@, allocs@[i as int]));
            return false;
        }
        i = i + 1;
    }
    true
}

impl Ctxt {
    /// Whether the allocations `more` can join the table: whether the table
    /// with them is consistent.
    pub fn allocs_fit(&self, more: &Vec<RsAllocation>) -> (r: bool)
        requires
            allocs_wf(self.allocs@),
        ensures
            r == allocs_wf(self.allocs@ + more@),
    {
        let n = self.allocs.len() as u128 + more.len() as u128;
        let ghost all = self.allocs@ + more@;
        let mut i: usize = 0;
        while i < more.len()
            invariant
                n == all.len(),
                all == self.allocs@ + more@,
                i <= more@.len(),
                forall|b: int| 0 <= b < i ==> #[trigger] alloc_wf(all, more@[b]),
            decreases more@.len() - i,
        {
            if !alloc_ok(n, &more[i]) {
                assert(!alloc_wf(all, more@[i as int]));
                assert(all[self.allocs@.len() + i] == more@[i as int]);
                return false;
            }
            i = i + 1;
        }
        assert forall|a: int| 0 <= a < all.len() implies #[trigger] alloc_wf(all, all[a]) by {
            if a < self.allocs@.len() {
                assert(all[a] == self.allocs@[a]);
                assert(alloc_wf(self.allocs@, self.allocs@[a]));
            } else {
                assert(all[a] == more@[a - self.allocs@.len()]);
            }
        }
        true
    }
}

/// Allocation `a` stores a pointer to allocation `k`.
pub open spec fn points_to(a: RsAllocation, k: AllocKey) -> bool {
    exists|p: int| 0 <= p < a.ptrs@.len() && (#[trigger] a.ptrs@[p]).1 == k
}

/// The names from `from` on were added for `roots` and what they point to:
/// each is a root, or is pointed to by an allocation named before it, from
/// `from` on.
pub open spec fn grown(allocs: Seq<RsAllocation>, names: Seq<AllocKey>, from: int, roots: Set<AllocKey>) -> bool {
    forall|i: int|
        from <= i < names.len() ==> roots.contains(#[trigger] names[i]) || exists|j: int|
            from <= j < i && points_to(allocs[names[j] as int], names[i])
}

/// The bytes of the global for an allocation: `None` where uninitialized.
pub open spec fn spec_global_bytes(a: RsAllocation) -> Seq<Option<u8>> {
    Seq::new(a.bytes@.len(), |i: int| if a.init@[i] { Some(a.bytes@[i]) } else { None })
}

/// The relocations of the global for an allocation: each stored pointer,
/// with the global it points to and the offset its bytes encode.
pub open spec fn spec_relocations(a: RsAllocation, names: Seq<AllocKey>) -> Seq<(Size, Relocation)> {
    Seq::new(a.ptrs@.len(), |p: int| {
        let (off, target) = a.ptrs@[p];
        (
            Size { bytes: off },
            Relocation {
                name: GlobalName(index_of(names, target) as u32),
                offset: Size { bytes: le_value(a.bytes@.subrange(off as int, off + 8)) as u64 },
            },
        )
    })
}

/// `g` is the global for allocation `a`.
pub open spec fn global_ok(g: Global, a: RsAllocation, names: Seq<AllocKey>) -> bool {
    &&& g.bytes@ == spec_global_bytes(a)
    &&& g.relocations == list_from_seq(spec_relocations(a, names))
    &&& g.align == (Align { bytes: a.align })
}

/// Every allocation that `a` points to has a name.
pub open spec fn targets_named(a: RsAllocation, names: Seq<AllocKey>) -> bool {
    forall|p: int| 0 <= p < a.ptrs@.len() ==> names.contains(#[trigger] a.ptrs@[p].1)
}

impl Ctxt {
    /// The global with name `i` has been translated.
    pub open spec fn global_done(&self, i: int) -> bool {
        &&& global_ok(self.globals@[i], self.allocs@[self.alloc_names@[i] as int], self.alloc_names@)
        &&& targets_named(self.allocs@[self.alloc_names@[i] as int], self.alloc_names@)
    }

    /// The invariant of the global naming map.
    pub open spec fn allocs_named_wf(&self) -> bool {
        &&& allocs_wf(self.allocs@)
        &&& self.allocs@.len() < u32::MAX
        &&& self.alloc_names@.no_duplicates()
        &&& forall|i: int| 0 <= i < self.alloc_names@.len() ==> #[trigger] self.alloc_names@[i] < self.allocs@.len()
        &&& self.globals@.len() == self.alloc_names@.len()
    }

    /// Every global is translated but those whose translation is under way.
    pub open spec fn globals_done_except(&self, pending: Set<int>) -> bool {
        forall|i: int| 0 <= i < self.globals@.len() && !pending.contains(i) ==> #[trigger] self.global_done(i)
    }

    /// The name of the next global, with an empty global reserved under it.
    fn fresh_global_name(&mut self) -> (r: GlobalName)
        requires
            old(self).globals@.len() < u32::MAX,
        ensures
            r.0 == old(self).globals@.len(),
            final(self).globals@ == old(self).globals@.push(final(self).globals@.last()),
            final(self).globals@.last().bytes@.len() == 0,
            final(self).globals@.last().relocations == List::<(Size, Relocation)>::Nil,
            final(self).globals@.last().align == (Align { bytes: 1 }),
            final(self).tcx == old(self).tcx,
            final(self).fn_names == old(self).fn_names,
            final(self).allocs == old(self).allocs,
            final(self).alloc_names == old(self).alloc_names,
            final(self).functions == old(self).functions,
            final(self).session == old(self).session,
            final(self).entry == old(self).entry,
            final(self).vtable_names == old(self).vtable_names,
            final(self).vtables == old(self).vtables,
    {
        let name = GlobalName(self.globals.len() as u32);
        // The placeholder makes a second call return a different name.
        let default_global = Global { bytes: Vec::new(), relocations: List::Nil, align: Align { bytes: 1 } };
        self.globals.push(default_global);
        name
    }

    /// The name of the global for an allocation; the first time, the
    /// allocation is translated (and with it, those it points to).
    pub fn translate_alloc_id(&mut self, key: AllocKey, Ghost(pending): Ghost<Set<int>>) -> (r: GlobalName)
        requires
            old(self).allocs_named_wf(),
            old(self).globals_done_except(pending),
            key < old(self).allocs@.len(),
        ensures
            final(self).allocs_named_wf(),
            final(self).globals_done_except(pending),
            extends(old(self).alloc_names@, final(self).alloc_names@),
            final(self).alloc_names@.contains(key),
            r == GlobalName(index_of(final(self).alloc_names@, key) as u32),
            old(self).alloc_names@.contains(key) ==> *final(self) == *old(self),
            !old(self).alloc_names@.contains(key) ==> r == GlobalName(old(self).alloc_names@.len() as u32),
            grown(final(self).allocs@, final(self).alloc_names@, old(self).alloc_names@.len() as int, set![key]),
            final(self).tcx == old(self).tcx,
            final(self).fn_names == old(self).fn_names,
            final(self).allocs == old(self).allocs,
            final(self).functions == old(self).functions,
            final(self).session == old(self).session,
            final(self).entry == old(self).entry,
            final(self).vtable_names == old(self).vtable_names,
            final(self).vtables == old(self).vtables,
        decreases old(self).allocs@.len() - old(self).alloc_names@.len(), 0int,
    {
        proof {
            self.lemma_names_bounded();
        }
        let mut i: usize = 0;
        while i < self.alloc_names.len()
            invariant
                *self == *old(self),
                old(self).allocs_named_wf(),
                old(self).globals_done_except(pending),
                i <= self.alloc_names.len(),
                forall|j: int| 0 <= j < i ==> self.alloc_names@[j] != key,
            decreases self.alloc_names.len() - i,
        {
            if self.alloc_names[i] == key {
                proof {
                    lemma_index_of(self.alloc_names@, key);
                    assert(self.alloc_names@.subrange(0, self.alloc_names@.len() as int) =~= self.alloc_names@);
                }
                return GlobalName(i as u32);
            }
            i = i + 1;
        }
        let ghost before = self.alloc_names@;
        let name = self.fresh_global_name();
        self.alloc_names.push(key);
        proof {
            assert(!before.contains(key));
            assert(self.alloc_names@[before.len() as int] == key);
            lemma_index_of(self.alloc_names@, key);
            assert(self.alloc_names@.subrange(0, before.len() as int) =~= before);
            assert forall|a: int, b: int| 0 <= a < self.alloc_names@.len() && 0 <= b < self.alloc_names@.len() && a != b
                implies self.alloc_names@[a] != self.alloc_names@[b] by {
                if a < before.len() && b < before.len() {
                } else if a == before.len() {
                    assert(before[b] == self.alloc_names@[b]);
                } else {
                    assert(before[a] == self.alloc_names@[a]);
                }
            }
            assert forall|j: int| 0 <= j < self.globals@.len() && !pending.insert(name.0 as int).contains(j)
                implies #[trigger] self.global_done(j) by {
                assert(old(self).global_done(j));
                self.lemma_global_done_extends(*old(self), j);
            }
            assert(self.allocs_named_wf());
            self.lemma_names_bounded();
        }
        let ghost mid = self.alloc_names@;
        self.translate_const_allocation(key, name, Ghost(pending));
        proof {
            lemma_extends_trans(old(self).alloc_names@, mid, self.alloc_names@);
            lemma_index_of_extends(mid, self.alloc_names@, key);
            let from = before.len() as int;
            assert(self.alloc_names@[from] == key) by {
                assert(self.alloc_names@.subrange(0, mid.len() as int) == mid);
                assert(mid[from] == key);
            }
            assert forall|i: int| from <= i < self.alloc_names@.len() implies set![key].contains(#[trigger] self.alloc_names@[i])
                || exists|j: int| from <= j < i && points_to(self.allocs@[self.alloc_names@[j] as int], self.alloc_names@[i]) by {
                if i > from {
                    if points_to(self.allocs@[key as int], self.alloc_names@[i]) {
                        assert(from <= from < i && points_to(self.allocs@[self.alloc_names@[from] as int], self.alloc_names@[i]));
                    }
                }
            }
        }
        name
    }

    /// A translated global stays translated when names are added.
    proof fn lemma_global_done_extends(&self, old_cx: Ctxt, i: int)
        requires
            old_cx.global_done(i),
            0 <= i < old_cx.globals@.len(),
            self.globals@[i] == old_cx.globals@[i],
            self.allocs == old_cx.allocs,
            extends(old_cx.alloc_names@, self.alloc_names@),
            old_cx.globals@.len() == old_cx.alloc_names@.len(),
        ensures
            self.global_done(i),
    {
        let a = self.allocs@[self.alloc_names@[i] as int];
        assert(self.alloc_names@[i] == old_cx.alloc_names@[i]);
        assert forall|p: int| 0 <= p < a.ptrs@.len() implies self.alloc_names@.contains(#[trigger] a.ptrs@[p].1) by {
            lemma_index_of_extends(old_cx.alloc_names@, self.alloc_names@, a.ptrs@[p].1);
        }
        assert forall|p: int| 0 <= p < a.ptrs@.len() implies
            index_of(self.alloc_names@, #[trigger] a.ptrs@[p].1) == index_of(old_cx.alloc_names@, a.ptrs@[p].1) by {
            lemma_index_of_extends(old_cx.alloc_names@, self.alloc_names@, a.ptrs@[p].1);
        }
        assert(spec_relocations(a, self.alloc_names@) =~= spec_relocations(a, old_cx.alloc_names@));
    }

    /// There are no more names than allocations.
    proof fn lemma_names_bounded(&self)
        requires
            self.allocs_named_wf(),
        ensures
            self.alloc_names@.len() <= self.allocs@.len(),
    {
        let s = self.alloc_names@.map_values(|k: AllocKey| k as int);
        assert(s.no_duplicates()) by {
            assert forall|a: int, b: int| 0 <= a < s.len() && 0 <= b < s.len() && a != b implies s[a] != s[b] by {
                assert(self.alloc_names@[a] != self.alloc_names@[b]);
            }
        }
        s.unique_seq_to_set();
        vstd::set_lib::lemma_int_range(0, self.allocs@.len() as int);
        assert(s.to_set().subset_of(vstd::set_lib::set_int_range(0, self.allocs@.len() as int))) by {
            assert forall|x: int| s.to_set().contains(x) implies vstd::set_lib::set_int_range(0, self.allocs@.len() as int).contains(x) by {
                let j = choose|j: int| 0 <= j < s.len() && s[j] == x;
                assert(self.alloc_names@[j] < self.allocs@.len() as int);
            }
        }
        vstd::set_lib::lemma_len_subset(s.to_set(), vstd::set_lib::set_int_range(0, self.allocs@.len() as int));
    }

    /// Fills in the global `name` with the translation of allocation `key`:
    /// its bytes, its relocations (naming the allocations they point to), and
    /// its alignment.
    fn translate_const_allocation(&mut self, key: AllocKey, name: GlobalName, Ghost(pending): Ghost<Set<int>>)
        requires
            old(self).allocs_named_wf(),
            key < old(self).allocs@.len(),
            0 <= name.0 < old(self).alloc_names@.len(),
            old(self).alloc_names@[name.0 as int] == key,
            old(self).globals_done_except(pending.insert(name.0 as int)),
        ensures
            final(self).allocs_named_wf(),
            final(self).globals_done_except(pending),
            extends(old(self).alloc_names@, final(self).alloc_names@),
            forall|i: int|
                old(self).alloc_names@.len() <= i < final(self).alloc_names@.len() ==> points_to(
                    final(self).allocs@[key as int],
                    #[trigger] final(self).alloc_names@[i],
                ) || exists|j: int|
                    old(self).alloc_names@.len() <= j < i && points_to(
                        final(self).allocs@[final(self).alloc_names@[j] as int],
                        final(self).alloc_names@[i],
                    ),
            final(self).tcx == old(self).tcx,
            final(self).fn_names == old(self).fn_names,
            final(self).allocs == old(self).allocs,
            final(self).functions == old(self).functions,
            final(self).session == old(self).session,
            final(self).entry == old(self).entry,
            final(self).vtable_names == old(self).vtable_names,
            final(self).vtables == old(self).vtables,
        decreases old(self).allocs@.len() - old(self).alloc_names@.len(), 1int,
    {
        let ghost a = self.allocs@[key as int];
        let ghost pend2 = pending.insert(name.0 as int);
        proof {
            assert(alloc_wf(self.allocs@, a));
        }
        let size = self.allocs[key].bytes.len();
        let mut bytes: Vec<Option<u8>> = Vec::new();
        let mut i: usize = 0;
        while i < size
            invariant
                *self == *old(self),
                a == self.allocs@[key as int],
                key < self.allocs@.len(),
                size == a.bytes@.len(),
                a.init@.len() == size,
                i <= size,
                bytes@ == spec_global_bytes(a).subrange(0, i as int),
            decreases size - i,
        {
            let b = if self.allocs[key].init[i] { Some(self.allocs[key].bytes[i]) } else { None };
            bytes.push(b);
            assert(bytes@ =~= spec_global_bytes(a).subrange(0, i + 1));
            i = i + 1;
        }
        assert(bytes@ =~= spec_global_bytes(a));
        assert(self.alloc_names@.subrange(0, self.alloc_names@.len() as int) =~= self.alloc_names@);

        let nptrs = self.allocs[key].ptrs.len();
        let mut relocations: Vec<(Size, Relocation)> = Vec::new();
        let mut p: usize = 0;
        while p < nptrs
            invariant
                self.allocs_named_wf(),
                self.globals_done_except(pend2),
                self.allocs == old(self).allocs,
                self.tcx == old(self).tcx,
                self.fn_names == old(self).fn_names,
                self.functions == old(self).functions,
                self.session == old(self).session,
                self.entry == old(self).entry,
                self.vtable_names == old(self).vtable_names,
                self.vtables == old(self).vtables,
                extends(old(self).alloc_names@, self.alloc_names@),
                name.0 < old(self).globals@.len(),
                old(self).globals@.len() <= self.globals@.len(),
                old(self).allocs_named_wf(),
                a == self.allocs@[key as int],
                alloc_wf(self.allocs@, a),
                key < self.allocs@.len(),
                nptrs == a.ptrs@.len(),
                p <= nptrs,
                relocations@ == spec_relocations(a, self.alloc_names@).subrange(0, p as int),
                forall|q: int| 0 <= q < p ==> self.alloc_names@.contains(#[trigger] a.ptrs@[q].1),
                forall|i: int|
                    old(self).alloc_names@.len() <= i < self.alloc_names@.len() ==> points_to(a, #[trigger] self.alloc_names@[i])
                        || exists|j: int|
                        old(self).alloc_names@.len() <= j < i && points_to(self.allocs@[self.alloc_names@[j] as int], self.alloc_names@[i]),
            decreases nptrs - p,
        {
            let (off, target) = self.allocs[key].ptrs[p];
            let blen = self.allocs[key].bytes.len();
            proof {
                assert(a.ptrs@[p as int] == (off, target));
                assert(off + 8 <= a.bytes@.len());
                assert(off + 8 <= blen);
            }
            // The bytes of a pointer hold its offset into the allocation it points to.
            let inner = self.decode_le_u64(key, off as usize);
            let ghost before_names = self.alloc_names@;
            let ghost before_cx = *self;
            proof {
                self.lemma_names_bounded();
            }
            let target_name = self.translate_alloc_id(target, Ghost(pend2));
            let relo = Relocation { name: target_name, offset: Size { bytes: inner } };
            relocations.push((Size { bytes: off }, relo));
            proof {
                let from = before_names.len() as int;
                assert(points_to(a, target)) by {
                    assert(a.ptrs@[p as int].1 == target);
                }
                assert forall|i: int| old(self).alloc_names@.len() <= i < self.alloc_names@.len() implies points_to(
                    a,
                    #[trigger] self.alloc_names@[i],
                ) || exists|j: int|
                    old(self).alloc_names@.len() <= j < i && points_to(self.allocs@[self.alloc_names@[j] as int], self.alloc_names@[i]) by {
                    if i < from {
                        assert(self.alloc_names@[i] == before_names[i]) by {
                            assert(self.alloc_names@.subrange(0, from) == before_names);
                        }
                        if !points_to(a, before_names[i]) {
                            let j = choose|j: int|
                                old(self).alloc_names@.len() <= j < i && points_to(before_cx.allocs@[before_names[j] as int], before_names[i]);
                            assert(self.alloc_names@[j] == before_names[j]) by {
                                assert(self.alloc_names@.subrange(0, from) == before_names);
                            }
                        }
                    } else if !set![target].contains(self.alloc_names@[i]) {
                        let j = choose|j: int| from <= j < i && points_to(self.allocs@[self.alloc_names@[j] as int], self.alloc_names@[i]);
                    }
                }
                assert forall|q: int| 0 <= q < p + 1 implies self.alloc_names@.contains(#[trigger] a.ptrs@[q].1) by {
                    if q < p {
                        lemma_index_of_extends(before_names, self.alloc_names@, a.ptrs@[q].1);
                    }
                }
                assert forall|q: int| 0 <= q < p implies
                    index_of(self.alloc_names@, #[trigger] a.ptrs@[q].1) == index_of(before_names, a.ptrs@[q].1) by {
                    lemma_index_of_extends(before_names, self.alloc_names@, a.ptrs@[q].1);
                }
                assert((off as usize) as int == off as int);
                assert(inner == le_value(a.bytes@.subrange(off as int, off + 8)));
                let sr = spec_relocations(a, self.alloc_names@)[p as int];
                assert(sr.0 == Size { bytes: off });
                assert(sr.1.name == target_name);
                assert(sr.1.offset == Size { bytes: inner });
                assert forall|q: int| 0 <= q < p + 1 implies #[trigger] relocations@[q] == spec_relocations(a, self.alloc_names@)[q] by {
                    if q < p {
                        assert(relocations@[q] == spec_relocations(a, before_names)[q]);
                    }
                }
                assert(relocations@ =~= spec_relocations(a, self.alloc_names@).subrange(0, p + 1));
                lemma_extends_trans(old(self).alloc_names@, before_names, self.alloc_names@);
            }
            p = p + 1;
        }
        proof {
            assert(relocations@ =~= spec_relocations(a, self.alloc_names@));
        }
        let align = crate::ty::translate_align(self.allocs[key].align);
        let global = Global { bytes, relocations: list_from_vec(relocations), align };
        let ghost before_set = *self;
        self.globals.set(name.0 as usize, global);
        proof {
            assert(self.alloc_names@[name.0 as int] == key) by {
                assert(old(self).alloc_names@[name.0 as int] == key);
                assert(self.alloc_names@.subrange(0, old(self).alloc_names@.len() as int) == old(self).alloc_names@);
            }
            assert(self.global_done(name.0 as int));
            assert forall|j: int| 0 <= j < self.globals@.len() && !pending.contains(j) implies #[trigger] self.global_done(j) by {
                if j != name.0 {
                    assert(before_set.global_done(j));
                }
            }
        }
    }

    /// The little-endian value of the 8 bytes at `off` in allocation `key`.
    fn decode_le_u64(&self, key: AllocKey, off: usize) -> (r: u64)
        requires
            key < self.allocs@.len(),
            off + 8 <= self.allocs@[key as int].bytes@.len(),
        ensures
            r == le_value(self.allocs@[key as int].bytes@.subrange(off as int, off + 8)),
    {
        let b = &self.allocs[key].bytes;
        let blen = b.len();
        let mut v: u64 = 0;
        let mut k: usize = 8;
        while k > 0
            invariant
                b@ == self.allocs@[key as int].bytes@,
                blen == b@.len(),
                off + 8 <= b@.len(),
                k <= 8,
                v == le_value(b@.subrange(off + k, off + 8)),
                v < pow256((8 - k) as nat),
            decreases k,
        {
            let idx = off + (k - 1);
            let byte = b[idx];
            proof {
                let s = b@.subrange(off + k - 1, off + 8);
                assert(s.drop_first() =~= b@.subrange(off + k, off + 8));
                assert(s[0] == byte);
                lemma_pow256_step((8 - k) as nat);
                assert(v * 256 + byte < pow256((9 - k) as nat)) by (nonlinear_arith)
                    requires v < pow256((8 - k) as nat), byte < 256, pow256((9 - k) as nat) == 256 * pow256((8 - k) as nat);
                reveal_with_fuel(pow256, 9);
                assert(pow256(8) == 0x1_0000_0000_0000_0000);
                assert(pow256((9 - k) as nat) <= pow256(8)) by {
                    lemma_pow256_mono((9 - k) as nat, 8);
                }
            }
            v = byte as u64 + 256 * v;
            k = k - 1;
        }
        v
    }
}

/// Appending keys twice is appending keys.
pub proof fn lemma_extends_trans<K>(a: Seq<K>, b: Seq<K>, c: Seq<K>)
    requires
        extends(a, b),
        extends(b, c),
    ensures
        extends(a, c),
{
    assert(c.subrange(0, a.len() as int) =~= b.subrange(0, a.len() as int));
}

/// `256^n`.
pub open spec fn pow256(n: nat) -> int
    decreases n,
{
    if n == 0 {
        1
    } else {
        256 * pow256((n - 1) as nat)
    }
}

proof fn lemma_pow256_step(n: nat)
    ensures
        pow256(n + 1) == 256 * pow256(n),
{
}

proof fn lemma_pow256_mono(a: nat, b: nat)
    requires
        a <= b,
    ensures
        1 <= pow256(a) <= pow256(b),
    decreases b,
{
    if a < b {
        lemma_pow256_mono(a, (b - 1) as nat);
    } else if a > 0 {
        lemma_pow256_mono((a - 1) as nat, (a - 1) as nat);
    }
}

} // verus!

verus! {

/// Every allocation the constant points to has a name.
pub open spec fn const_keys_in(c: RsConst, names: Seq<AllocKey>) -> bool
    decreases c, 0int,
{
    match c.kind {
        RsConstKind::Ptr { alloc: Some(a), .. } => names.contains(a),
        RsConstKind::Fields(vs) => consts_keys_in(vs, names, 0),
        RsConstKind::Variant { fields, .. } => consts_keys_in(fields, names, 0),
        _ => true,
    }
}

pub open spec fn consts_keys_in(vs: Vec<RsConst>, names: Seq<AllocKey>, i: int) -> bool
    decreases vs, vs@.len() - i,
{
    if i < 0 || i >= vs@.len() {
        true
    } else {
        const_keys_in(vs[i], names) && consts_keys_in(vs, names, i + 1)
    }
}

/// The constant points to allocation `k`, itself or in a field.
pub open spec fn const_alloc_key(c: RsConst, k: AllocKey) -> bool
    decreases c, 0int,
{
    match c.kind {
        RsConstKind::Ptr { alloc: Some(a), .. } => a == k,
        RsConstKind::Fields(vs) => consts_alloc_key(vs, k, 0),
        RsConstKind::Variant { fields, .. } => consts_alloc_key(fields, k, 0),
        _ => false,
    }
}

/// One of constants `i..` of `vs` points to allocation `k`.
pub open spec fn consts_alloc_key(vs: Vec<RsConst>, k: AllocKey, i: int) -> bool
    decreases vs, vs@.len() - i,
{
    if i < 0 || i >= vs@.len() {
        false
    } else {
        const_alloc_key(vs[i], k) || consts_alloc_key(vs, k, i + 1)
    }
}

/// Growing names in two steps, each for roots among `roots`, is growing
/// them for `roots`.
pub proof fn lemma_grown_compose(
    allocs: Seq<RsAllocation>,
    n1: Seq<AllocKey>,
    n2: Seq<AllocKey>,
    from: int,
    r1: Set<AllocKey>,
    r2: Set<AllocKey>,
    roots: Set<AllocKey>,
)
    requires
        extends(n1, n2),
        0 <= from <= n1.len(),
        grown(allocs, n1, from, r1),
        grown(allocs, n2, n1.len() as int, r2),
        r1.subset_of(roots),
        r2.subset_of(roots),
    ensures
        grown(allocs, n2, from, roots),
{
    assert forall|i: int| from <= i < n2.len() implies roots.contains(#[trigger] n2[i]) || exists|j: int|
        from <= j < i && points_to(allocs[n2[j] as int], n2[i]) by {
        if i < n1.len() {
            assert(n2[i] == n1[i]) by {
                assert(n2.subrange(0, n1.len() as int) == n1);
                assert(n2.subrange(0, n1.len() as int)[i] == n2[i]);
            }
            if !r1.contains(n1[i]) {
                let j = choose|j: int| from <= j < i && points_to(allocs[n1[j] as int], n1[i]);
                assert(n2[j] == n1[j]) by {
                    assert(n2.subrange(0, n1.len() as int) == n1);
                    assert(n2.subrange(0, n1.len() as int)[j] == n2[j]);
                }
            }
        } else if !r2.contains(n2[i]) {
            let j = choose|j: int| n1.len() <= j < i && points_to(allocs[n2[j] as int], n2[i]);
        }
    }
}

/// Nothing added is growing for any roots.
pub proof fn lemma_grown_none(allocs: Seq<RsAllocation>, names: Seq<AllocKey>, roots: Set<AllocKey>)
    ensures
        grown(allocs, names, names.len() as int, roots),
{
}

/// The MiniRust value of a constant, or `None` where it is not supported.
pub open spec fn spec_const(cx: Ctxt, c: RsConst) -> Option<ValueExpr>
    decreases c, 0int,
{
    match spec_ty(cx.tcx.tys@, c.ty as int) {
        None => None,
        Some(ty) => match ty {
            Type::Int(it) => match c.kind {
                RsConstKind::Scalar { bits } => if 1 <= it.size.bytes <= 16 {
                    Some(ValueExpr::Constant(
                        Constant::Int(int_of(wrap_to_bits(bits as int, it.signed, (8 * it.size.bytes) as nat))),
                        ty,
                    ))
                } else {
                    None
                },
                _ => None,
            },
            Type::Bool => match c.kind {
                RsConstKind::Bool(b) => Some(ValueExpr::Constant(Constant::Bool(b), ty)),
                _ => None,
            },
            Type::Ptr(p) => if p is FnPtr {
                // Function pointers are not supported as constants.
                None
            } else {
                match c.kind {
                    RsConstKind::Ptr { alloc: None, offset } => Some(
                        ValueExpr::Constant(Constant::PointerWithoutProvenance(int_of(offset as int)), ty),
                    ),
                    RsConstKind::Ptr { alloc: Some(a), offset } => if a < cx.allocs@.len() {
                        Some(ValueExpr::Constant(
                            Constant::GlobalPointer(Relocation {
                                name: GlobalName(index_of(cx.alloc_names@, a) as u32),
                                offset: Size { bytes: offset },
                            }),
                            ty,
                        ))
                    } else {
                        None
                    },
                    _ => None,
                }
            },
            Type::Tuple { fields, .. } => match c.kind {
                RsConstKind::Fields(vs) => if vs@.len() == list_len(fields) {
                    match spec_consts(cx, vs, 0) {
                        Some(l) => Some(ValueExpr::Tuple(l, ty)),
                        None => None,
                    }
                } else {
                    None
                },
                _ => None,
            },
            Type::Enum { variants, discriminant_ty, .. } => match c.kind {
                RsConstKind::Variant { discr_bits, fields } => if 1 <= discriminant_ty.size.bytes <= 16 {
                    let d = int_of(wrap_to_bits(discr_bits as int, discriminant_ty.signed, (8 * discriminant_ty.size.bytes) as nat));
                    match (list_lookup(variants, d), spec_consts(cx, fields, 0)) {
                        (Some(v), Some(l)) => Some(ValueExpr::Variant {
                            discriminant: d,
                            data: Box::new(ValueExpr::Tuple(l, v.ty)),
                            enum_ty: ty,
                        }),
                        _ => None,
                    }
                } else {
                    None
                },
                _ => None,
            },
            Type::Array { .. } => match c.kind {
                RsConstKind::Fields(vs) => match spec_consts(cx, vs, 0) {
                    Some(l) => Some(ValueExpr::Tuple(l, ty)),
                    None => None,
                },
                _ => None,
            },
            // Unions, slices and trait objects are never constants here.
            _ => None,
        },
    }
}

/// The values of constants `i..` of `vs`.
pub open spec fn spec_consts(cx: Ctxt, vs: Vec<RsConst>, i: int) -> Option<List<ValueExpr>>
    decreases vs, vs@.len() - i,
{
    if i < 0 || i >= vs@.len() {
        Some(List::Nil)
    } else {
        match (spec_const(cx, vs[i]), spec_consts(cx, vs, i + 1)) {
            (Some(v), Some(rest)) => Some(List::Cons(Box::new(v), Box::new(rest))),
            _ => None,
        }
    }
}

/// Names given to the allocations a constant points to stay given.
pub proof fn lemma_const_keys_extends(c: RsConst, a: Seq<AllocKey>, b: Seq<AllocKey>)
    requires
        const_keys_in(c, a),
        extends(a, b),
    ensures
        const_keys_in(c, b),
    decreases c, 0int,
{
    match c.kind {
        RsConstKind::Ptr { alloc: Some(k), .. } => lemma_contains_extends(a, b, k),
        RsConstKind::Fields(vs) => lemma_consts_keys_extends(vs, a, b, 0),
        RsConstKind::Variant { fields, .. } => lemma_consts_keys_extends(fields, a, b, 0),
        _ => {},
    }
}

pub proof fn lemma_consts_keys_extends(vs: Vec<RsConst>, a: Seq<AllocKey>, b: Seq<AllocKey>, i: int)
    requires
        consts_keys_in(vs, a, i),
        extends(a, b),
    ensures
        consts_keys_in(vs, b, i),
    decreases vs, vs@.len() - i,
{
    if 0 <= i < vs@.len() {
        lemma_const_keys_extends(vs[i], a, b);
        lemma_consts_keys_extends(vs, a, b, i + 1);
    }
}

/// The variant under discriminant `d` of an enum's variant list, copied.
pub(crate) fn lookup_variant_ty(variants: &List<(Int, Variant)>, d: Int) -> (r: Type)
    requires
        list_lookup(*variants, d) is Some,
    ensures
        r == list_lookup(*variants, d).unwrap().ty,
    decreases variants,
{
    match variants {
        List::Nil => {
            proof { assert(false); }
            Type::Bool
        },
        List::Cons(e, rest) => if e.0 == d {
            copy_type(&e.1.ty)
        } else {
            lookup_variant_ty(rest, d)
        },
    }
}

impl Ctxt {
    /// Gives names to all allocations a constant points to.
    pub fn intern_const(&mut self, c: &RsConst)
        requires
            old(self).allocs_named_wf(),
            old(self).globals_done_except(Set::empty()),
        ensures
            final(self).allocs_named_wf(),
            final(self).globals_done_except(Set::empty()),
            extends(old(self).alloc_names@, final(self).alloc_names@),
            const_keys_in(*c, final(self).alloc_names@) || !const_keys_valid(*c, final(self).allocs@.len() as int),
            grown(
                final(self).allocs@,
                final(self).alloc_names@,
                old(self).alloc_names@.len() as int,
                Set::new(|k: AllocKey| const_alloc_key(*c, k)),
            ),
            final(self).tcx == old(self).tcx,
            final(self).fn_names == old(self).fn_names,
            final(self).allocs == old(self).allocs,
            final(self).functions == old(self).functions,
            final(self).session == old(self).session,
            final(self).entry == old(self).entry,
            final(self).vtable_names == old(self).vtable_names,
            final(self).vtables == old(self).vtables,
        decreases c, 0int,
    {
        assert(self.alloc_names@.subrange(0, self.alloc_names@.len() as int) =~= self.alloc_names@);
        let ghost roots = Set::new(|k: AllocKey| const_alloc_key(*c, k));
        match &c.kind {
            RsConstKind::Ptr { alloc: Some(a), .. } => {
                if *a < self.allocs.len() {
                    self.translate_alloc_id(*a, Ghost(Set::empty()));
                    proof {
                        assert(set![*a].subset_of(roots));
                        lemma_grown_none(self.allocs@, old(self).alloc_names@, Set::empty());
                        lemma_grown_compose(
                            self.allocs@,
                            old(self).alloc_names@,
                            self.alloc_names@,
                            old(self).alloc_names@.len() as int,
                            Set::empty(),
                            set![*a],
                            roots,
                        );
                    }
                }
            },
            RsConstKind::Fields(vs) => {
                self.intern_consts(vs);
                proof {
                    assert(Set::new(|k: AllocKey| consts_alloc_key(*vs, k, 0)) =~= roots);
                }
            },
            RsConstKind::Variant { fields, .. } => {
                self.intern_consts(fields);
                proof {
                    assert(Set::new(|k: AllocKey| consts_alloc_key(*fields, k, 0)) =~= roots);
                }
            },
            _ => {},
        }
    }

    fn intern_consts(&mut self, vs: &Vec<RsConst>)
        requires
            old(self).allocs_named_wf(),
            old(self).globals_done_except(Set::empty()),
        ensures
            final(self).allocs_named_wf(),
            final(self).globals_done_except(Set::empty()),
            extends(old(self).alloc_names@, final(self).alloc_names@),
            consts_keys_in(*vs, final(self).alloc_names@, 0) || !consts_keys_valid(*vs, final(self).allocs@.len() as int, 0),
            grown(
                final(self).allocs@,
                final(self).alloc_names@,
                old(self).alloc_names@.len() as int,
                Set::new(|k: AllocKey| consts_alloc_key(*vs, k, 0)),
            ),
            final(self).tcx == old(self).tcx,
            final(self).fn_names == old(self).fn_names,
            final(self).allocs == old(self).allocs,
            final(self).functions == old(self).functions,
            final(self).session == old(self).session,
            final(self).entry == old(self).entry,
            final(self).vtable_names == old(self).vtable_names,
            final(self).vtables == old(self).vtables,
        decreases vs, 1int,
    {
        let mut i: usize = vs.len();
        assert(self.alloc_names@.subrange(0, self.alloc_names@.len() as int) =~= self.alloc_names@);
        proof {
            lemma_grown_none(self.allocs@, self.alloc_names@, Set::new(|k: AllocKey| consts_alloc_key(*vs, k, vs@.len() as int)));
        }
        while i > 0
            invariant
                i <= vs@.len(),
                self.allocs_named_wf(),
                self.globals_done_except(Set::empty()),
                extends(old(self).alloc_names@, self.alloc_names@),
                consts_keys_in(*vs, self.alloc_names@, i as int) || !consts_keys_valid(*vs, self.allocs@.len() as int, i as int),
                grown(
                    self.allocs@,
                    self.alloc_names@,
                    old(self).alloc_names@.len() as int,
                    Set::new(|k: AllocKey| consts_alloc_key(*vs, k, i as int)),
                ),
                self.tcx == old(self).tcx,
                self.fn_names == old(self).fn_names,
                self.allocs == old(self).allocs,
                self.functions == old(self).functions,
                self.session == old(self).session,
                self.entry == old(self).entry,
                self.vtable_names == old(self).vtable_names,
                self.vtables == old(self).vtables,
            decreases i,
        {
            let ghost before = self.alloc_names@;
            proof {
                assert(decreases_to!(*vs => vs[i - 1]));
            }
            self.intern_const(&vs[i - 1]);
            proof {
                let r1 = Set::new(|k: AllocKey| consts_alloc_key(*vs, k, i as int));
                let r2 = Set::new(|k: AllocKey| const_alloc_key(vs[i - 1], k));
                let r = Set::new(|k: AllocKey| consts_alloc_key(*vs, k, i - 1));
                assert(r1.subset_of(r));
                assert(r2.subset_of(r));
                lemma_grown_compose(self.allocs@, before, self.alloc_names@, old(self).alloc_names@.len() as int, r1, r2, r);
                lemma_extends_trans(old(self).alloc_names@, before, self.alloc_names@);
                if consts_keys_in(*vs, before, i as int) {
                    lemma_consts_keys_extends(*vs, before, self.alloc_names@, i as int);
                }
            }
            i = i - 1;
        }
    }
}

/// Every allocation the constant points to is in a table of `n` allocations.
pub open spec fn const_keys_valid(c: RsConst, n: int) -> bool
    decreases c, 0int,
{
    match c.kind {
        RsConstKind::Ptr { alloc: Some(a), .. } => a < n,
        RsConstKind::Fields(vs) => consts_keys_valid(vs, n, 0),
        RsConstKind::Variant { fields, .. } => consts_keys_valid(fields, n, 0),
        _ => true,
    }
}

pub open spec fn consts_keys_valid(vs: Vec<RsConst>, n: int, i: int) -> bool
    decreases vs, vs@.len() - i,
{
    if i < 0 || i >= vs@.len() {
        true
    } else {
        const_keys_valid(vs[i], n) && consts_keys_valid(vs, n, i + 1)
    }
}

/// A constant that translates points only into allocations of the table.
pub proof fn lemma_const_valid(cx: Ctxt, c: RsConst)
    requires
        spec_const(cx, c) is Some,
    ensures
        const_keys_valid(c, cx.allocs@.len() as int),
    decreases c, 0int,
{
    match c.kind {
        RsConstKind::Fields(vs) => lemma_consts_valid(cx, vs, 0),
        RsConstKind::Variant { fields, .. } => lemma_consts_valid(cx, fields, 0),
        _ => {},
    }
}

pub proof fn lemma_consts_valid(cx: Ctxt, vs: Vec<RsConst>, i: int)
    requires
        spec_consts(cx, vs, i) is Some,
    ensures
        consts_keys_valid(vs, cx.allocs@.len() as int, i),
    decreases vs, vs@.len() - i,
{
    if 0 <= i < vs@.len() {
        assert(decreases_to!(vs => vs[i]));
        lemma_const_valid(cx, vs[i]);
        lemma_consts_valid(cx, vs, i + 1);
    }
}

impl FnCtxt {
    /// The MiniRust value of a constant operand: the value that rustc's
    /// evaluation gave, translated.
    pub fn translate_const(&mut self, c: &RsConst) -> (r: ValueExpr)
        requires
            old(self).wf(),
            spec_const(old(self).cx, *c) is Some,
            const_keys_in(*c, old(self).cx.alloc_names@),
        ensures
            *final(self) == *old(self),
            r == spec_const(old(self).cx, *c).unwrap(),
    {
        self.translate_const_val(c)
    }

    /// The MiniRust value of an evaluated constant, by its type: integers,
    /// booleans, pointers (into a named global, or without provenance),
    /// tuples and arrays field by field, and enums as their variant.
    fn translate_const_val(&mut self, c: &RsConst) -> (r: ValueExpr)
        requires
            old(self).wf(),
            spec_const(old(self).cx, *c) is Some,
            const_keys_in(*c, old(self).cx.alloc_names@),
        ensures
            *final(self) == *old(self),
            r == spec_const(old(self).cx, *c).unwrap(),
        decreases c, 0int,
    {
        let ty = self.cx.translate_ty(c.ty);
        match ty {
            Type::Int(it) => {
                let bits = match &c.kind {
                    RsConstKind::Scalar { bits } => *bits,
                    _ => {
                        proof { assert(false); }
                        0
                    },
                };
                let v = int_from_bits(bits, it);
                ValueExpr::Constant(Constant::Int(v), Type::Int(it))
            },
            Type::Bool => {
                let b = match &c.kind {
                    RsConstKind::Bool(b) => *b,
                    _ => {
                        proof { assert(false); }
                        false
                    },
                };
                ValueExpr::Constant(Constant::Bool(b), Type::Bool)
            },
            Type::Ptr(p) => {
                let k = match &c.kind {
                    RsConstKind::Ptr { alloc: None, offset } => {
                        let addr = Int::from_u64(*offset);
                        proof {
                            lemma_int_of(addr);
                        }
                        Constant::PointerWithoutProvenance(addr)
                    },
                    RsConstKind::Ptr { alloc: Some(a), offset } => {
                        let name = self.cx.translate_alloc_id(*a, Ghost(Set::empty()));
                        Constant::GlobalPointer(Relocation { name, offset: Size { bytes: *offset } })
                    },
                    _ => {
                        proof { assert(false); }
                        Constant::Bool(false)
                    },
                };
                ValueExpr::Constant(k, Type::Ptr(p))
            },
            Type::Tuple { .. } | Type::Array { .. } => {
                let vs = match &c.kind {
                    RsConstKind::Fields(vs) => vs,
                    _ => {
                        proof { assert(false); }
                        return ValueExpr::Tuple(List::Nil, ty);
                    },
                };
                let l = self.translate_consts(vs, 0);
                ValueExpr::Tuple(l, ty)
            },
            Type::Enum { variants, discriminant_ty, size, align, discriminator } => {
                let (discr_bits, fields) = match &c.kind {
                    RsConstKind::Variant { discr_bits, fields } => (*discr_bits, fields),
                    _ => {
                        proof { assert(false); }
                        return ValueExpr::Tuple(List::Nil, Type::Bool);
                    },
                };
                // The variant index points into the list of variants, while
                // the discriminant is the value that the variant is known by.
                let d = int_from_bits(discr_bits, discriminant_ty);
                let vty = lookup_variant_ty(&variants, d);
                let l = self.translate_consts(fields, 0);
                let enum_ty = Type::Enum { variants, discriminant_ty, size, align, discriminator };
                ValueExpr::Variant { discriminant: d, data: Box::new(ValueExpr::Tuple(l, vty)), enum_ty }
            },
            _ => {
                proof { assert(false); }
                ValueExpr::Tuple(List::Nil, ty)
            },
        }
    }

    /// [`FnCtxt::translate_const`], for a constant as stable MIR gives it
    /// (the same value here).
    pub fn translate_const_smir(&mut self, c: &RsConst) -> (r: ValueExpr)
        requires
            old(self).wf(),
            spec_const(old(self).cx, *c) is Some,
            const_keys_in(*c, old(self).cx.alloc_names@),
        ensures
            *final(self) == *old(self),
            r == spec_const(old(self).cx, *c).unwrap(),
    {
        self.translate_const(c)
    }

    /// The values of constants `i..` of `vs`.
    fn translate_consts(&mut self, vs: &Vec<RsConst>, i: usize) -> (r: List<ValueExpr>)
        requires
            old(self).wf(),
            spec_consts(old(self).cx, *vs, i as int) is Some,
            consts_keys_in(*vs, old(self).cx.alloc_names@, i as int),
        ensures
            *final(self) == *old(self),
            r == spec_consts(old(self).cx, *vs, i as int).unwrap(),
        decreases vs, vs@.len() - i,
    {
        if i >= vs.len() {
            return List::Nil;
        }
        proof {
            assert(decreases_to!(*vs => vs[i as int]));
        }
        let v = self.translate_const_val(&vs[i]);
        let rest = self.translate_consts(vs, i + 1);
        List::Cons(Box::new(v), Box::new(rest))
    }
}

/// An integer constant is the integer of its type whose bits are the
/// constant's: it lies in the type's range and agrees with the raw bits
/// modulo 2 to the type's width.
pub proof fn law_int_constants_read_their_bits(cx: Ctxt, c: RsConst)
    requires
        spec_ty(cx.tcx.tys@, c.ty as int) matches Some(Type::Int(it)) && 1 <= it.size.bytes <= 16,
        c.kind is Scalar,
    ensures
        spec_const(cx, c) matches Some(ValueExpr::Constant(Constant::Int(v), t)) && {
            let it = t->Int_0;
            let bits = (8 * it.size.bytes) as nat;
            &&& t == spec_ty(cx.tcx.tys@, c.ty as int).unwrap()
            &&& crate::num::type_min(it.signed, bits) <= v@ < crate::num::type_end(it.signed, bits)
            &&& (v@ - c.kind->bits) % (vstd::arithmetic::power2::pow2(bits) as int) == 0
        },
{
    if let Some(Type::Int(it)) = spec_ty(cx.tcx.tys@, c.ty as int) {
        let bits = (8 * it.size.bytes) as nat;
        let w = wrap_to_bits(c.kind->bits as int, it.signed, bits);
        crate::num::law_wrap_to_bits(c.kind->bits as int, it.signed, bits);
        crate::num::lemma_wrap_bounds(c.kind->bits as int, it.signed, bits);
        crate::num::lemma_int_of_view(w);
    }
}

/// A boolean constant is its own value.
pub proof fn law_bool_constants_keep_their_value(cx: Ctxt, c: RsConst)
    requires
        spec_ty(cx.tcx.tys@, c.ty as int) == Some(Type::Bool),
        c.kind is Bool,
    ensures
        spec_const(cx, c) == Some(ValueExpr::Constant(Constant::Bool(c.kind->Bool_0), Type::Bool)),
{
}

/// The global for an allocation holds the allocation: the same number of
/// bytes, each initialized byte with its value and every uninitialized one
/// empty; the allocation's alignment; and for each stored pointer, in order,
/// a relocation at the pointer's offset to the global named for the
/// pointer's target, at the offset the pointer's 8 little-endian bytes encode.
pub proof fn law_globals_hold_their_allocation(g: Global, a: RsAllocation, names: Seq<AllocKey>)
    requires
        global_ok(g, a, names),
        targets_named(a, names),
        names.len() < u32::MAX,
    ensures
        g.bytes@.len() == a.bytes@.len(),
        forall|i: int| 0 <= i < a.bytes@.len() ==> #[trigger] g.bytes@[i] == (if a.init@[i] { Some(a.bytes@[i]) } else { None }),
        g.align.bytes == a.align,
        g.relocations.to_seq().len() == a.ptrs@.len(),
        forall|p: int| 0 <= p < a.ptrs@.len() ==> {
            let (off, r) = #[trigger] g.relocations.to_seq()[p];
            &&& off.bytes == a.ptrs@[p].0
            &&& 0 <= r.name.0 < names.len()
            &&& names[r.name.0 as int] == a.ptrs@[p].1
            &&& r.offset.bytes == le_value(a.bytes@.subrange(a.ptrs@[p].0 as int, a.ptrs@[p].0 + 8)) as u64
        },
{
    crate::lang::lemma_list_from_seq_to_seq(spec_relocations(a, names));
    assert forall|p: int| 0 <= p < a.ptrs@.len() implies {
        let (off, r) = #[trigger] g.relocations.to_seq()[p];
        &&& off.bytes == a.ptrs@[p].0
        &&& 0 <= r.name.0 < names.len()
        &&& names[r.name.0 as int] == a.ptrs@[p].1
        &&& r.offset.bytes == le_value(a.bytes@.subrange(a.ptrs@[p].0 as int, a.ptrs@[p].0 + 8)) as u64
    } by {
        assert(names.contains(a.ptrs@[p].1));
        lemma_index_of(names, a.ptrs@[p].1);
    }
}

/// The values of constants `i..` are the constants' values, in order.
pub proof fn law_consts_in_order(cx: Ctxt, vs: Vec<RsConst>, i: int)
    requires
        0 <= i <= vs@.len(),
    ensures
        spec_consts(cx, vs, i) matches Some(l) ==> {
            &&& l.to_seq().len() == vs@.len() - i
            &&& forall|j: int| 0 <= j < l.to_seq().len() ==> Some(#[trigger] l.to_seq()[j]) == spec_const(cx, vs@[i + j])
        },
    decreases vs@.len() - i,
{
    if i < vs@.len() {
        law_consts_in_order(cx, vs, i + 1);
        if let Some(l) = spec_consts(cx, vs, i) {
            let rest = spec_consts(cx, vs, i + 1).unwrap();
            assert(l.to_seq() == seq![spec_const(cx, vs@[i]).unwrap()] + rest.to_seq());
            assert forall|j: int| 0 <= j < l.to_seq().len() implies Some(#[trigger] l.to_seq()[j]) == spec_const(cx, vs@[i + j]) by {
                if j > 0 {
                    assert(l.to_seq()[j] == rest.to_seq()[j - 1]);
                }
            }
        }
    }
}

/// A tuple, struct or array constant is the tuple of its fields' values; an
/// enum constant is the variant whose discriminant its raw discriminant
/// reads as (in the discriminant type), holding its fields' values; a
/// pointer constant into an allocation points into the global named for
/// that allocation, at the constant's offset, and one without provenance is
/// its address.
pub proof fn law_compound_constants(cx: Ctxt, c: RsConst)
    requires
        spec_const(cx, c) is Some,
    ensures
        ({
            let v = spec_const(cx, c).unwrap();
            let t = spec_ty(cx.tcx.tys@, c.ty as int).unwrap();
            &&& (t is Tuple || t is Array) ==> (c.kind matches RsConstKind::Fields(vs) && v == ValueExpr::Tuple(
                spec_consts(cx, vs, 0).unwrap(),
                t,
            ))
            &&& t matches Type::Enum { discriminant_ty, .. } ==> (c.kind matches RsConstKind::Variant { discr_bits, fields } && (
            v matches ValueExpr::Variant { discriminant, data, enum_ty } && {
                let bits = (8 * discriminant_ty.size.bytes) as nat;
                &&& enum_ty == t
                &&& crate::num::type_min(discriminant_ty.signed, bits) <= discriminant@ < crate::num::type_end(discriminant_ty.signed, bits)
                &&& (discriminant@ - discr_bits) % (vstd::arithmetic::power2::pow2(bits) as int) == 0
                &&& *data matches ValueExpr::Tuple(l, _) && l == spec_consts(cx, fields, 0).unwrap()
            }))
            &&& c.kind matches RsConstKind::Ptr { alloc: Some(a), offset } ==> (v matches ValueExpr::Constant(
                Constant::GlobalPointer(r),
                _,
            ) && r.offset.bytes == offset && r.name.0 == index_of(cx.alloc_names@, a) as u32)
            &&& c.kind matches RsConstKind::Ptr { alloc: None, offset } ==> (v matches ValueExpr::Constant(
                Constant::PointerWithoutProvenance(addr),
                _,
            ) && addr@ == offset)
        }),
{
    let t = spec_ty(cx.tcx.tys@, c.ty as int).unwrap();
    if let Type::Enum { discriminant_ty, .. } = t {
        if let RsConstKind::Variant { discr_bits, .. } = c.kind {
            let bits = (8 * discriminant_ty.size.bytes) as nat;
            crate::num::law_wrap_to_bits(discr_bits as int, discriminant_ty.signed, bits);
            crate::num::lemma_wrap_bounds(discr_bits as int, discriminant_ty.signed, bits);
            crate::num::lemma_int_of_view(wrap_to_bits(discr_bits as int, discriminant_ty.signed, bits));
        }
    }
    if let RsConstKind::Ptr { offset, .. } = c.kind {
        crate::num::lemma_int_of_view(offset as int);
    }
}

} // verus!
