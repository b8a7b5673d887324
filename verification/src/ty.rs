//! Translation of rustc types and layouts to MiniRust types.
use vstd::prelude::*;
use crate::num::{Int, Signedness, int_of, wrap_to_bits};
use crate::lang::{
    Size, Align, Mutability, CallingConvention, List, list_from_seq, list_from_vec, LayoutStrategy,
    UnsafeCellStrategy, PointeeInfo, TraitName, Type, IntType, PtrType, Variant, Discriminator,
};
use crate::rs::{TyId, RsMutability, RsCanonAbi, RsTy, RsTyKind, RsVariants, RsTagEncoding, RsIntTy, RsLayout};
use crate::chunks::{fields_fit_in, spec_calc_chunks};
use crate::program::Ctxt;
use vstd::arithmetic::power2::pow2;

verus! {

/// Whether `n` is a power of two.
pub open spec fn is_power_of_two(n: nat) -> bool
    decreases n,
{
    if n == 1 {
        true
    } else if n < 2 || n % 2 != 0 {
        false
    } else {
        is_power_of_two(n / 2)
    }
}

/// A rustc size, in bytes, as a MiniRust size.
pub fn translate_size(bytes: u64) -> (r: Size)
    ensures
        r.bytes == bytes,
{
    Size { bytes }
}

/// A rustc alignment, in bytes, as a MiniRust alignment; rustc alignments
/// are powers of two.
pub fn translate_align(bytes: u64) -> (r: Align)
    requires
        is_power_of_two(bytes as nat),
    ensures
        r.bytes == bytes,
{
    Align { bytes }
}

pub open spec fn spec_mutbl(m: RsMutability) -> Mutability {
    match m {
        RsMutability::Mut => Mutability::Mutable,
        RsMutability::Not => Mutability::Immutable,
    }
}

/// Mutable stays mutable, shared becomes immutable.
pub fn translate_mutbl(mutbl: RsMutability) -> (r: Mutability)
    ensures
        r == spec_mutbl(mutbl),
{
    match mutbl {
        RsMutability::Mut => Mutability::Mutable,
        RsMutability::Not => Mutability::Immutable,
    }
}

/// The same translation for the mutability of StableMIR borrows.
pub fn translate_mutbl_smir(mutbl: RsMutability) -> (r: Mutability)
    ensures
        r == spec_mutbl(mutbl),
{
    translate_mutbl(mutbl)
}

pub open spec fn spec_calling_convention(conv: RsCanonAbi) -> CallingConvention {
    match conv {
        RsCanonAbi::C => CallingConvention::C,
        _ => CallingConvention::Rust,
    }
}

/// The C and Rust conventions map to MiniRust's; the others are not supported.
pub fn translate_calling_convention(conv: RsCanonAbi) -> (r: CallingConvention)
    requires
        conv != RsCanonAbi::Other,
    ensures
        r == spec_calling_convention(conv),
{
    match conv {
        RsCanonAbi::C => CallingConvention::C,
        _ => CallingConvention::Rust,
    }
}

// ---------------------------------------------------------------------------
// Cells: the byte ranges of a type that lie inside an `UnsafeCell`.
// ---------------------------------------------------------------------------

/// (offset, length) ranges, as integers.
pub open spec fn cells_view(v: Seq<(Size, Size)>) -> Seq<(int, int)> {
    v.map_values(|c: (Size, Size)| (c.0.bytes as int, c.1.bytes as int))
}

/// The ranges moved by `off` bytes.
pub open spec fn shift_cells(cells: Seq<(int, int)>, off: int) -> Seq<(int, int)> {
    cells.map_values(|c: (int, int)| (c.0 + off, c.1))
}

/// Every offset and length fits in 64 bits.
pub open spec fn cells_fit(cells: Seq<(int, int)>) -> bool {
    forall|k: int| 0 <= k < cells.len() ==> #[trigger] cells[k].0 <= u64::MAX && cells[k].1 <= u64::MAX
}

/// The cells of a sized type, or `None` where the translation does not
/// support the type.
pub open spec fn spec_cells(tys: Seq<RsTy>, id: int) -> Option<Seq<(int, int)>>
    decreases id, 1int, 0int,
{
    if !(0 <= id < tys.len()) {
        None
    } else {
        let t = tys[id];
        let size = t.layout.size as int;
        match t.kind {
            RsTyKind::Bool | RsTyKind::Int { .. } | RsTyKind::Uint { .. } | RsTyKind::Char
            | RsTyKind::RawPtr { .. } | RsTyKind::Ref { .. } | RsTyKind::Box { .. }
            | RsTyKind::FnPtr | RsTyKind::FnDef | RsTyKind::Never => Some(Seq::empty()),
            RsTyKind::Tuple { fields } => spec_cells_fields(
                tys,
                id,
                fields@,
                t.layout.field_offsets@,
                0,
            ),
            RsTyKind::Struct { fields, is_unsafe_cell } => if is_unsafe_cell {
                Some(seq![(0int, size)])
            } else {
                spec_cells_fields(tys, id, fields@, t.layout.field_offsets@, 0)
            },
            RsTyKind::Union { .. } | RsTyKind::Enum { .. } => if t.freeze {
                Some(Seq::empty())
            } else {
                Some(seq![(0int, size)])
            },
            RsTyKind::Closure { upvars } => spec_cells_fields(
                tys,
                id,
                upvars@,
                t.layout.field_offsets@,
                0,
            ),
            RsTyKind::Array { elem, count } => if elem < id {
                match spec_cells(tys, elem as int) {
                    None => None,
                    Some(r) => if r.len() == 0 {
                        Some(Seq::empty())
                    } else {
                        // One copy at offset 0 and one at offset `elem_size`.
                        Some(shift_cells(r, 0) + shift_cells(r, tys[elem as int].layout.size as int))
                    },
                }
            } else {
                None
            },
            _ => None,
        }
    }
}

/// The cells of fields `i..` of a type with id `parent`, each moved to its offset.
pub open spec fn spec_cells_fields(
    tys: Seq<RsTy>,
    parent: int,
    fields: Seq<TyId>,
    offsets: Seq<u64>,
    i: int,
) -> Option<Seq<(int, int)>>
    decreases parent, 0int, fields.len() - i,
{
    if i < 0 || i >= fields.len() {
        Some(Seq::empty())
    } else if fields[i] < parent && i < offsets.len() {
        match (spec_cells(tys, fields[i] as int), spec_cells_fields(tys, parent, fields, offsets, i + 1)) {
            (Some(a), Some(b)) => Some(shift_cells(a, offsets[i] as int) + b),
            _ => None,
        }
    } else {
        None
    }
}

proof fn lemma_cells_fit_concat(a: Seq<(int, int)>, b: Seq<(int, int)>)
    ensures
        cells_fit(a + b) <==> cells_fit(a) && cells_fit(b),
{
    if cells_fit(a + b) {
        assert forall|k: int| 0 <= k < b.len() implies #[trigger] b[k].0 <= u64::MAX && b[k].1 <= u64::MAX by {
            assert((a + b)[a.len() + k] == b[k]);
        }
        assert forall|k: int| 0 <= k < a.len() implies #[trigger] a[k].0 <= u64::MAX && a[k].1 <= u64::MAX by {
            assert((a + b)[k] == a[k]);
        }
    }
    if cells_fit(a) && cells_fit(b) {
        assert forall|k: int| 0 <= k < (a + b).len() implies #[trigger] (a + b)[k].0 <= u64::MAX && (a + b)[k].1 <= u64::MAX by {
            if k < a.len() {
                assert((a + b)[k] == a[k]);
            } else {
                assert((a + b)[k] == b[k - a.len()]);
            }
        }
    }
}

/// The context the type translation works in: the table of rustc types.
pub struct TyCtxt {
    pub tys: Vec<RsTy>,
}

/// Moves every range of `cells` by `off` bytes, appending the results to `out`.
fn push_shifted(out: &mut Vec<(Size, Size)>, cells: &Vec<(Size, Size)>, off: u64)
    requires
        cells_fit(shift_cells(cells_view(cells@), off as int)),
    ensures
        cells_view(final(out)@) == cells_view(old(out)@) + shift_cells(cells_view(cells@), off as int),
{
    let ghost start = out@;
    let mut j: usize = 0;
    while j < cells.len()
        invariant
            j <= cells.len(),
            cells_fit(shift_cells(cells_view(cells@), off as int)),
            cells_view(out@) == cells_view(start) + shift_cells(cells_view(cells@.subrange(0, j as int)), off as int),
        decreases cells.len() - j,
    {
        let (s, l) = cells[j];
        assert(shift_cells(cells_view(cells@), off as int)[j as int].0 == s.bytes + off);
        let c = (Size { bytes: s.bytes + off }, l);
        let ghost old_out = out@;
        out.push(c);
        assert(cells_view(out@) =~= cells_view(old_out).push((s.bytes + off, l.bytes as int)));
        assert(cells_view(cells@.subrange(0, j + 1)) =~= cells_view(cells@.subrange(0, j as int)).push((s.bytes as int, l.bytes as int)));
        assert(shift_cells(cells_view(cells@.subrange(0, j + 1)), off as int) =~= shift_cells(cells_view(cells@.subrange(0, j as int)), off as int).push((s.bytes + off, l.bytes as int)));
        assert(cells_view(out@) =~= cells_view(start) + shift_cells(cells_view(cells@.subrange(0, j + 1)), off as int));
        j = j + 1;
    }
    assert(cells@.subrange(0, cells.len() as int) =~= cells@);
}

impl Ctxt {
    /// The cells of the fields of a type, each moved to its offset.
    fn cells_from_layout(&self, parent: TyId, fields: &Vec<TyId>, offsets: &Vec<u64>) -> (r: Vec<(Size, Size)>)
        requires
            parent < self.tcx.tys@.len(),
            spec_cells_fields(self.tcx.tys@, parent as int, fields@, offsets@, 0) is Some,
            cells_fit(spec_cells_fields(self.tcx.tys@, parent as int, fields@, offsets@, 0).unwrap()),
        ensures
            cells_view(r@) == spec_cells_fields(self.tcx.tys@, parent as int, fields@, offsets@, 0).unwrap(),
        decreases parent, 0int, 0int,
    {
        let ghost all = spec_cells_fields(self.tcx.tys@, parent as int, fields@, offsets@, 0).unwrap();
        let mut out: Vec<(Size, Size)> = Vec::new();
        let mut i: usize = 0;
        while i < fields.len()
            invariant
                i <= fields.len(),
                parent < self.tcx.tys@.len(),
                spec_cells_fields(self.tcx.tys@, parent as int, fields@, offsets@, i as int) is Some,
                all == cells_view(out@) + spec_cells_fields(self.tcx.tys@, parent as int, fields@, offsets@, i as int).unwrap(),
                cells_fit(all),
            decreases fields.len() - i,
        {
            let ghost rest = spec_cells_fields(self.tcx.tys@, parent as int, fields@, offsets@, i as int).unwrap();
            let f = fields[i];
            let off = offsets[i];
            let ghost a = spec_cells(self.tcx.tys@, f as int).unwrap();
            let ghost b = spec_cells_fields(self.tcx.tys@, parent as int, fields@, offsets@, i + 1).unwrap();
            proof {
                assert(rest == shift_cells(a, off as int) + b);
                lemma_cells_fit_concat(cells_view(out@), rest);
                lemma_cells_fit_concat(shift_cells(a, off as int), b);
                assert forall|k: int| 0 <= k < a.len() implies #[trigger] a[k].0 <= u64::MAX && a[k].1 <= u64::MAX by {
                    assert(shift_cells(a, off as int)[k] == (a[k].0 + off, a[k].1));
                    assert(shift_cells(a, off as int)[k].0 <= u64::MAX);
                    assert(a[k].0 >= 0) by {
                        lemma_cells_nonneg(self.tcx.tys@, f as int);
                    }
                }
            }
            let c = self.cells_in_sized_ty(f);
            push_shifted(&mut out, &c, off);
            proof {
                assert(cells_view(out@) + b =~= all);
            }
            i = i + 1;
        }
        proof {
            assert(cells_view(out@) =~= all);
        }
        out
    }

    /// The byte ranges of a sized type that lie inside an `UnsafeCell`,
    /// in the order of its fields.
    pub fn cells_in_sized_ty(&self, ty: TyId) -> (r: Vec<(Size, Size)>)
        requires
            spec_cells(self.tcx.tys@, ty as int) is Some,
            cells_fit(spec_cells(self.tcx.tys@, ty as int).unwrap()),
        ensures
            cells_view(r@) == spec_cells(self.tcx.tys@, ty as int).unwrap(),
        decreases ty, 1int, 0int,
    {
        let t = &self.tcx.tys[ty];
        let size = t.layout.size;
        match &t.kind {
            RsTyKind::Bool | RsTyKind::Int { .. } | RsTyKind::Uint { .. } | RsTyKind::Char
            | RsTyKind::RawPtr { .. } | RsTyKind::Ref { .. } | RsTyKind::Box { .. }
            | RsTyKind::FnPtr | RsTyKind::FnDef | RsTyKind::Never => {
                let v: Vec<(Size, Size)> = Vec::new();
                assert(cells_view(v@) =~= Seq::empty());
                v
            },
            RsTyKind::Tuple { fields } => self.cells_from_layout(ty, fields, &t.layout.field_offsets),
            RsTyKind::Struct { fields, is_unsafe_cell } => {
                if *is_unsafe_cell {
                    let mut v: Vec<(Size, Size)> = Vec::new();
                    v.push((Size { bytes: 0 }, Size { bytes: size }));
                    assert(cells_view(v@) =~= seq![(0int, size as int)]);
                    v
                } else {
                    self.cells_from_layout(ty, fields, &t.layout.field_offsets)
                }
            },
            RsTyKind::Union { .. } | RsTyKind::Enum { .. } => {
                // If any variant has an `UnsafeCell` somewhere in it, the whole range is non-freeze.
                let mut v: Vec<(Size, Size)> = Vec::new();
                if !t.freeze {
                    v.push((Size { bytes: 0 }, Size { bytes: size }));
                    assert(cells_view(v@) =~= seq![(0int, size as int)]);
                } else {
                    assert(cells_view(v@) =~= Seq::empty());
                }
                v
            },
            RsTyKind::Closure { upvars } => self.cells_from_layout(ty, upvars, &t.layout.field_offsets),
            RsTyKind::Array { elem, count: _ } => {
                let elem = *elem;
                let ghost r = spec_cells(self.tcx.tys@, elem as int).unwrap();
                proof {
                    if r.len() > 0 {
                        lemma_cells_fit_concat(shift_cells(r, 0), shift_cells(r, self.tcx.tys@[elem as int].layout.size as int));
                        assert(shift_cells(r, 0) =~= r);
                    }
                }
                let range = self.cells_in_sized_ty(elem);
                if range.len() > 0 {
                    let esize = self.tcx.tys[elem].layout.size;
                    let mut out: Vec<(Size, Size)> = Vec::new();
                    push_shifted(&mut out, &range, 0);
                    push_shifted(&mut out, &range, esize);
                    assert(cells_view(out@) =~= shift_cells(r, 0) + shift_cells(r, esize as int));
                    out
                } else {
                    let v: Vec<(Size, Size)> = Vec::new();
                    assert(cells_view(v@) =~= Seq::empty());
                    v
                }
            },
            _ => {
                proof { assert(false); }
                Vec::new()
            },
        }
    }
}

/// All offsets and lengths of cells are non-negative, and the lengths fit in 64 bits.
pub proof fn lemma_cells_nonneg(tys: Seq<RsTy>, id: int)
    requires
        spec_cells(tys, id) is Some,
    ensures
        forall|k: int| 0 <= k < spec_cells(tys, id).unwrap().len() ==>
            #[trigger] spec_cells(tys, id).unwrap()[k].0 >= 0 && 0 <= spec_cells(tys, id).unwrap()[k].1 <= u64::MAX,
    decreases id, 1int, 0int,
{
    let t = tys[id];
    match t.kind {
        RsTyKind::Tuple { fields } => lemma_cells_fields_nonneg(tys, id, fields@, t.layout.field_offsets@, 0),
        RsTyKind::Struct { fields, is_unsafe_cell } => if !is_unsafe_cell {
            lemma_cells_fields_nonneg(tys, id, fields@, t.layout.field_offsets@, 0)
        } else {
            assert(spec_cells(tys, id).unwrap()[0].1 == t.layout.size);
        },
        RsTyKind::Union { .. } | RsTyKind::Enum { .. } => if !t.freeze {
            assert(spec_cells(tys, id).unwrap()[0].1 == t.layout.size);
        },
        RsTyKind::Closure { upvars } => lemma_cells_fields_nonneg(tys, id, upvars@, t.layout.field_offsets@, 0),
        RsTyKind::Array { elem, count } => {
            lemma_cells_nonneg(tys, elem as int);
            let r = spec_cells(tys, elem as int).unwrap();
            if r.len() > 0 {
                let s = shift_cells(r, 0) + shift_cells(r, tys[elem as int].layout.size as int);
                assert forall|k: int| 0 <= k < s.len() implies #[trigger] s[k].0 >= 0 && 0 <= s[k].1 <= u64::MAX by {
                    if k < r.len() {
                        assert(s[k] == shift_cells(r, 0)[k]);
                    } else {
                        assert(s[k] == shift_cells(r, tys[elem as int].layout.size as int)[k - r.len()]);
                    }
                }
            }
        },
        _ => {},
    }
}

pub proof fn lemma_cells_fields_nonneg(tys: Seq<RsTy>, parent: int, fields: Seq<TyId>, offsets: Seq<u64>, i: int)
    requires
        spec_cells_fields(tys, parent, fields, offsets, i) is Some,
    ensures
        forall|k: int| 0 <= k < spec_cells_fields(tys, parent, fields, offsets, i).unwrap().len() ==>
            #[trigger] spec_cells_fields(tys, parent, fields, offsets, i).unwrap()[k].0 >= 0
            && 0 <= spec_cells_fields(tys, parent, fields, offsets, i).unwrap()[k].1 <= u64::MAX,
    decreases parent, 0int, fields.len() - i,
{
    if 0 <= i < fields.len() {
        lemma_cells_nonneg(tys, fields[i] as int);
        lemma_cells_fields_nonneg(tys, parent, fields, offsets, i + 1);
        let a = spec_cells(tys, fields[i] as int).unwrap();
        let b = spec_cells_fields(tys, parent, fields, offsets, i + 1).unwrap();
        let s = shift_cells(a, offsets[i] as int) + b;
        assert forall|k: int| 0 <= k < s.len() implies #[trigger] s[k].0 >= 0 && 0 <= s[k].1 <= u64::MAX by {
            if k < a.len() {
                assert(s[k] == shift_cells(a, offsets[i] as int)[k]);
            } else {
                assert(s[k] == b[k - a.len()]);
            }
        }
    }
}

// ---------------------------------------------------------------------------
// Sorting cells by their offset.
// ---------------------------------------------------------------------------

/// `s` with `x` inserted after the last element whose offset is at most `x`'s.
pub open spec fn insert_by_offset(s: Seq<(int, int)>, x: (int, int)) -> Seq<(int, int)>
    decreases s.len(),
{
    if s.len() == 0 {
        seq![x]
    } else if s.last().0 <= x.0 {
        s.push(x)
    } else {
        insert_by_offset(s.drop_last(), x).push(s.last())
    }
}

/// `s` stably sorted by offset.
pub open spec fn sort_by_offset(s: Seq<(int, int)>) -> Seq<(int, int)>
    decreases s.len(),
{
    if s.len() == 0 {
        s
    } else {
        insert_by_offset(sort_by_offset(s.drop_last()), s.last())
    }
}


/// The ranges are in order of their offsets.
pub open spec fn sorted_by_offset(s: Seq<(int, int)>) -> bool {
    forall|i: int, j: int| 0 <= i <= j < s.len() ==> #[trigger] s[i].0 <= #[trigger] s[j].0
}

proof fn lemma_insert_by_offset(s: Seq<(int, int)>, x: (int, int))
    requires
        sorted_by_offset(s),
    ensures
        sorted_by_offset(insert_by_offset(s, x)),
        insert_by_offset(s, x).to_multiset() == s.to_multiset().insert(x),
    decreases s.len(),
{
    broadcast use vstd::seq_lib::group_to_multiset_ensures;
    if s.len() == 0 {
        assert(insert_by_offset(s, x) == s.push(x));
    } else if s.last().0 <= x.0 {
    } else {
        let init = s.drop_last();
        let l = s.last();
        assert(sorted_by_offset(init));
        lemma_insert_by_offset(init, x);
        let r = insert_by_offset(init, x);
        assert(s == init.push(l));
        assert forall|k: int| 0 <= k < r.len() implies #[trigger] r[k].0 <= l.0 by {
            assert(r.contains(r[k]));
            assert(r.to_multiset().count(r[k]) > 0);
            if r[k] != x {
                assert(init.to_multiset().count(r[k]) > 0);
                assert(init.contains(r[k]));
                let t = choose|t: int| 0 <= t < init.len() && init[t] == r[k];
                assert(s[t] == init[t]);
                assert(s[t].0 <= s[s.len() - 1].0);
            }
        }
        assert(r.push(l).to_multiset() =~= s.to_multiset().insert(x)) by {
            assert(s.to_multiset() =~= init.to_multiset().insert(l));
        }
    }
}

/// Sorting ranges by offset gives them in order of their offsets, and the
/// same ranges as before.
pub proof fn law_sort_by_offset(s: Seq<(int, int)>)
    ensures
        sorted_by_offset(sort_by_offset(s)),
        sort_by_offset(s).to_multiset() == s.to_multiset(),
    decreases s.len(),
{
    broadcast use vstd::seq_lib::group_to_multiset_ensures;
    if s.len() > 0 {
        law_sort_by_offset(s.drop_last());
        lemma_insert_by_offset(sort_by_offset(s.drop_last()), s.last());
        assert(s == s.drop_last().push(s.last()));
    }
}

/// Ranges given as integers, as sizes.
pub open spec fn cells_unview(s: Seq<(int, int)>) -> Seq<(Size, Size)> {
    s.map_values(|c: (int, int)| (Size { bytes: c.0 as u64 }, Size { bytes: c.1 as u64 }))
}

/// The list of ranges that the pointee info of a type records.
pub open spec fn cells_list(s: Seq<(int, int)>) -> List<(Size, Size)> {
    list_from_seq(cells_unview(s))
}

fn insert_cell(v: &mut Vec<(Size, Size)>, x: (Size, Size))
    ensures
        cells_view(final(v)@) == insert_by_offset(cells_view(old(v)@), (x.0.bytes as int, x.1.bytes as int)),
    decreases old(v)@.len(),
{
    let ghost xv = (x.0.bytes as int, x.1.bytes as int);
    let ghost ov = cells_view(v@);
    if v.len() == 0 {
        v.push(x);
        assert(cells_view(v@) =~= seq![xv]);
    } else if v[v.len() - 1].0.bytes <= x.0.bytes {
        v.push(x);
        assert(cells_view(v@) =~= ov.push(xv));
    } else {
        let last = v.pop().unwrap();
        assert(cells_view(v@) =~= ov.drop_last());
        insert_cell(v, x);
        let ghost mid = v@;
        v.push(last);
        assert(cells_view(v@) =~= cells_view(mid).push(ov.last()));
    }
}

/// The ranges stably sorted by their offset.
pub fn sort_cells(cells: Vec<(Size, Size)>) -> (r: Vec<(Size, Size)>)
    ensures
        cells_view(r@) == sort_by_offset(cells_view(cells@)),
{
    let mut out: Vec<(Size, Size)> = Vec::new();
    let mut i: usize = 0;
    assert(cells_view(cells@.subrange(0, 0)) =~= Seq::<(int, int)>::empty());
    while i < cells.len()
        invariant
            i <= cells.len(),
            cells_view(out@) == sort_by_offset(cells_view(cells@.subrange(0, i as int))),
        decreases cells.len() - i,
    {
        let c = cells[i];
        insert_cell(&mut out, c);
        proof {
            let p = cells_view(cells@.subrange(0, i + 1));
            assert(p.drop_last() =~= cells_view(cells@.subrange(0, i as int)));
            assert(p.last() == (c.0.bytes as int, c.1.bytes as int));
        }
        i = i + 1;
    }
    assert(cells@.subrange(0, cells.len() as int) =~= cells@);
    out
}

pub proof fn lemma_cells_unview_view(v: Seq<(Size, Size)>)
    ensures
        cells_unview(cells_view(v)) == v,
{
    assert(cells_unview(cells_view(v)) =~= v);
}

// ---------------------------------------------------------------------------
// Well-formed type tables and pointee information.
// ---------------------------------------------------------------------------

/// What a table of rustc types satisfies: alignments are powers of two, the
/// cells of every type fit in 64 bits, and every type mentions by value
/// only types that come before it in the table (pointers may point anywhere).
pub open spec fn tys_wf(tys: Seq<RsTy>) -> bool {
    &&& forall|i: int| 0 <= i < tys.len() ==> #[trigger] is_power_of_two(tys[i].layout.align as nat)
    &&& forall|i: int|
        0 <= i < tys.len() && spec_cells(tys, i) is Some ==> cells_fit(#[trigger] spec_cells(tys, i).unwrap())
}

/// What a pointer type records about its pointee, or `None` where the
/// translation does not support the pointee.
pub open spec fn spec_pointee_info(tys: Seq<RsTy>, id: int) -> Option<PointeeInfo> {
    if !(0 <= id < tys.len()) {
        None
    } else {
        let t = tys[id];
        let inhabited = !t.layout.uninhabited;
        if t.layout.sized {
            match spec_cells(tys, id) {
                Some(c) => Some(PointeeInfo {
                    layout: LayoutStrategy::Sized(Size { bytes: t.layout.size }, Align { bytes: t.layout.align }),
                    inhabited,
                    unsafe_cells: UnsafeCellStrategy::Sized { cells: cells_list(sort_by_offset(c)) },
                    freeze: t.freeze,
                    unpin: t.unpin,
                }),
                None => None,
            }
        } else {
            match t.kind {
                RsTyKind::Slice { elem } => if elem < tys.len() {
                    match spec_cells(tys, elem as int) {
                        Some(c) => Some(PointeeInfo {
                            layout: LayoutStrategy::Slice(
                                Size { bytes: tys[elem as int].layout.size },
                                Align { bytes: tys[elem as int].layout.align },
                            ),
                            inhabited,
                            unsafe_cells: UnsafeCellStrategy::Slice { element_cells: cells_list(sort_by_offset(c)) },
                            freeze: t.freeze,
                            unpin: t.unpin,
                        }),
                        None => None,
                    }
                } else {
                    None
                },
                // `str` is treated like `[u8]`.
                RsTyKind::Str => Some(PointeeInfo {
                    layout: LayoutStrategy::Slice(Size { bytes: 1 }, Align { bytes: 1 }),
                    inhabited,
                    unsafe_cells: UnsafeCellStrategy::Slice { element_cells: List::Nil },
                    freeze: t.freeze,
                    unpin: t.unpin,
                }),
                RsTyKind::Dynamic { trait_name } => Some(PointeeInfo {
                    layout: LayoutStrategy::TraitObject(TraitName(trait_name)),
                    inhabited,
                    unsafe_cells: UnsafeCellStrategy::TraitObject,
                    freeze: t.freeze,
                    unpin: t.unpin,
                }),
                _ => None,
            }
        }
    }
}

impl Ctxt {
    /// The sorted cells of a type, as the list a pointee info records.
    fn sorted_cells_list(&self, ty: TyId) -> (r: List<(Size, Size)>)
        requires
            tys_wf(self.tcx.tys@),
            ty < self.tcx.tys@.len(),
            spec_cells(self.tcx.tys@, ty as int) is Some,
        ensures
            r == cells_list(sort_by_offset(spec_cells(self.tcx.tys@, ty as int).unwrap())),
    {
        let cells = self.cells_in_sized_ty(ty);
        let sorted = sort_cells(cells);
        proof {
            lemma_cells_unview_view(sorted@);
        }
        list_from_vec(sorted)
    }

    /// [`Ctxt::pointee_info_of`], for a type as stable MIR gives it (the same
    /// type id here).
    pub fn pointee_info_of_smir(&self, ty: TyId) -> (r: PointeeInfo)
        requires
            tys_wf(self.tcx.tys@),
            spec_pointee_info(self.tcx.tys@, ty as int) is Some,
        ensures
            r == spec_pointee_info(self.tcx.tys@, ty as int).unwrap(),
    {
        self.pointee_info_of(ty)
    }

    /// What a pointer type records about a pointee: its layout, whether it is
    /// inhabited, where its `UnsafeCell`s are, and whether it is `Freeze` and `Unpin`.
    pub fn pointee_info_of(&self, ty: TyId) -> (r: PointeeInfo)
        requires
            tys_wf(self.tcx.tys@),
            spec_pointee_info(self.tcx.tys@, ty as int) is Some,
        ensures
            r == spec_pointee_info(self.tcx.tys@, ty as int).unwrap(),
    {
        let t = &self.tcx.tys[ty];
        let inhabited = !t.layout.uninhabited;
        let freeze = t.freeze;
        let unpin = t.unpin;
        if t.layout.sized {
            let size = translate_size(t.layout.size);
            let align = translate_align(t.layout.align);
            let layout = LayoutStrategy::Sized(size, align);
            // The cells are computed in field order, not memory order, so they are sorted here.
            let cells = self.sorted_cells_list(ty);
            return PointeeInfo { layout, inhabited, unsafe_cells: UnsafeCellStrategy::Sized { cells }, freeze, unpin };
        }
        match &t.kind {
            RsTyKind::Slice { elem } => {
                let elem = *elem;
                let element_cells = self.sorted_cells_list(elem);
                let size = translate_size(self.tcx.tys[elem].layout.size);
                let align = translate_align(self.tcx.tys[elem].layout.align);
                let layout = LayoutStrategy::Slice(size, align);
                PointeeInfo { layout, inhabited, unsafe_cells: UnsafeCellStrategy::Slice { element_cells }, freeze, unpin }
            },
            RsTyKind::Str => {
                let layout = LayoutStrategy::Slice(Size { bytes: 1 }, Align { bytes: 1 });
                PointeeInfo {
                    layout,
                    inhabited,
                    unsafe_cells: UnsafeCellStrategy::Slice { element_cells: List::Nil },
                    freeze,
                    unpin,
                }
            },
            RsTyKind::Dynamic { trait_name } => {
                let layout = LayoutStrategy::TraitObject(TraitName(*trait_name));
                PointeeInfo { layout, inhabited, unsafe_cells: UnsafeCellStrategy::TraitObject, freeze, unpin }
            },
            _ => {
                proof { assert(false); }
                PointeeInfo {
                    layout: LayoutStrategy::TraitObject(TraitName(0)),
                    inhabited,
                    unsafe_cells: UnsafeCellStrategy::TraitObject,
                    freeze,
                    unpin,
                }
            },
        }
    }
}

// ---------------------------------------------------------------------------
// The translation of types, as a specification.
// ---------------------------------------------------------------------------

/// Inserts `v` under key `k`: replaces the first entry with that key, or
/// appends one (MiniRust's `Map::insert`).
pub open spec fn assoc_insert<K, V>(s: Seq<(K, V)>, k: K, v: V) -> Seq<(K, V)> {
    let idx = key_index(s, k, 0);
    if idx >= 0 {
        s.update(idx, (k, v))
    } else {
        s.push((k, v))
    }
}

/// The index of the first entry at or after `i` with key `k`, or -1.
pub open spec fn key_index<K, V>(s: Seq<(K, V)>, k: K, i: int) -> int
    decreases s.len() - i,
{
    if i < 0 || i >= s.len() {
        -1
    } else if s[i].0 == k {
        i
    } else {
        key_index(s, k, i + 1)
    }
}

/// The MiniRust integer type of a rustc integer type.
pub open spec fn spec_int_ty(it: RsIntTy) -> IntType {
    IntType { signed: it.signed, size: Size { bytes: it.bytes } }
}

/// The integer that `bits` encodes in integer type `it`.
pub open spec fn spec_int_from_bits(bits: int, it: RsIntTy) -> Int {
    int_of(wrap_to_bits(bits, it.signed, (8 * it.bytes) as nat))
}

/// The smallest value of integer type `it`.
pub open spec fn int_min(it: RsIntTy) -> int {
    if it.signed == Signedness::Signed {
        -pow2((8 * it.bytes - 1) as nat)
    } else {
        0
    }
}

/// The largest value of integer type `it`.
pub open spec fn int_max(it: RsIntTy) -> int {
    if it.signed == Signedness::Signed {
        pow2((8 * it.bytes - 1) as nat) - 1
    } else {
        pow2((8 * it.bytes) as nat) - 1
    }
}

/// The unit type `()`.
pub open spec fn unit_type() -> Type {
    Type::Tuple { fields: List::Nil, size: Size { bytes: 0 }, align: Align { bytes: 1 } }
}

/// The MiniRust type of a rustc type, or `None` where the translation does
/// not support it.
pub open spec fn spec_ty(tys: Seq<RsTy>, id: int) -> Option<Type>
    decreases id, 3int, 0int,
{
    if !(0 <= id < tys.len()) {
        None
    } else {
        let t = tys[id];
        let size = Size { bytes: t.layout.size };
        let align = Align { bytes: t.layout.align };
        match t.kind {
            RsTyKind::Bool => Some(Type::Bool),
            RsTyKind::Int { bytes } => Some(Type::Int(IntType { signed: Signedness::Signed, size: Size { bytes } })),
            RsTyKind::Uint { bytes } => Some(Type::Int(IntType { signed: Signedness::Unsigned, size: Size { bytes } })),
            RsTyKind::Char => Some(Type::Int(IntType { signed: Signedness::Unsigned, size: Size { bytes: 4 } })),
            RsTyKind::Tuple { fields } => match spec_fields(tys, id, fields@, Some(t.layout.field_offsets@), 0) {
                Some(fs) => Some(Type::Tuple { fields: fs, size, align }),
                None => None,
            },
            RsTyKind::Closure { upvars } => match spec_fields(tys, id, upvars@, Some(t.layout.field_offsets@), 0) {
                Some(fs) => Some(Type::Tuple { fields: fs, size, align }),
                None => None,
            },
            RsTyKind::Struct { fields, .. } => match spec_fields(tys, id, fields@, Some(t.layout.field_offsets@), 0) {
                Some(fs) => Some(Type::Tuple { fields: fs, size, align }),
                None => None,
            },
            RsTyKind::Union { fields } => match spec_fields(tys, id, fields@, Some(t.layout.field_offsets@), 0) {
                Some(fs) => if t.layout.size <= usize::MAX && fields_fit_in(fs, t.layout.size as int) {
                    Some(Type::Union { fields: fs, size, align, chunks: cells_list(spec_calc_chunks(fs, size)) })
                } else {
                    None
                },
                None => None,
            },
            RsTyKind::Enum { .. } => spec_enum(tys, id),
            RsTyKind::Box { pointee } => match spec_pointee_info(tys, pointee as int) {
                Some(p) => Some(Type::Ptr(PtrType::Box { pointee: p })),
                None => None,
            },
            RsTyKind::Ref { pointee, mutbl } => match spec_pointee_info(tys, pointee as int) {
                Some(p) => Some(Type::Ptr(PtrType::Ref { pointee: p, mutbl: spec_mutbl(mutbl) })),
                None => None,
            },
            RsTyKind::RawPtr { pointee } => match spec_pointee_info(tys, pointee as int) {
                Some(p) => Some(Type::Ptr(PtrType::Raw { meta_kind: p.layout.spec_meta_kind() })),
                None => None,
            },
            RsTyKind::Array { elem, count } => if elem < id {
                match spec_ty(tys, elem as int) {
                    Some(e) => Some(Type::Array { elem: Box::new(e), count: int_of(count as int) }),
                    None => None,
                }
            } else {
                None
            },
            RsTyKind::FnPtr => Some(Type::Ptr(PtrType::FnPtr)),
            // Function items carry no data.
            RsTyKind::FnDef => Some(unit_type()),
            RsTyKind::Never => Some(Type::Enum {
                variants: List::Nil,
                discriminator: Discriminator::Invalid,
                discriminant_ty: IntType { signed: Signedness::Unsigned, size: Size { bytes: 1 } },
                size: Size { bytes: 0 },
                align: Align { bytes: 1 },
            }),
            RsTyKind::Slice { elem } => if elem < id {
                match spec_ty(tys, elem as int) {
                    Some(e) => Some(Type::Slice { elem: Box::new(e) }),
                    None => None,
                }
            } else {
                None
            },
            // `str` is treated like `[u8]`.
            RsTyKind::Str => Some(Type::Slice {
                elem: Box::new(Type::Int(IntType { signed: Signedness::Unsigned, size: Size { bytes: 1 } })),
            }),
            RsTyKind::Dynamic { trait_name } => Some(Type::TraitObject(TraitName(trait_name))),
            RsTyKind::Other => None,
        }
    }
}

/// The (offset, type) list of fields `i..` of the type with id `parent`.
/// Without `offsets` (an elided enum variant) every field must be zero-sized
/// and sits at offset 0.
pub open spec fn spec_fields(
    tys: Seq<RsTy>,
    parent: int,
    fields: Seq<TyId>,
    offsets: Option<Seq<u64>>,
    i: int,
) -> Option<List<(Size, Type)>>
    decreases parent, 0int, fields.len() - i,
{
    if i < 0 || i >= fields.len() {
        Some(List::Nil)
    } else if fields[i] < parent {
        match (spec_ty(tys, fields[i] as int), spec_fields(tys, parent, fields, offsets, i + 1)) {
            (Some(ty), Some(rest)) => match offsets {
                Some(offs) => if i < offs.len() {
                    Some(List::Cons(Box::new((Size { bytes: offs[i] }, ty)), Box::new(rest)))
                } else {
                    None
                },
                None => if ty.size_fits() && ty.spec_size() == Some(0int) {
                    Some(List::Cons(Box::new((Size { bytes: 0 }, ty)), Box::new(rest)))
                } else {
                    None
                },
            },
            _ => None,
        }
    } else {
        None
    }
}

/// The variants and discriminator branches after the first `n` variants of
/// the multi-variant enum with id `id`.
pub open spec fn spec_enum_acc(tys: Seq<RsTy>, id: int, n: nat) -> Option<
    (Seq<(Int, Variant)>, Seq<((Int, Int), Discriminator)>),
>
    decreases id, 1int, n,
{
    if !(0 <= id < tys.len()) {
        None
    } else if n == 0 {
        Some((Seq::empty(), Seq::empty()))
    } else {
        let t = tys[id];
        let size = Size { bytes: t.layout.size };
        let align = Align { bytes: t.layout.align };
        match (t.kind, t.layout.variants) {
            (
                RsTyKind::Enum { variants, discriminant_ty },
                RsVariants::Multiple { tag, encoding, tag_offset, variant_offsets },
            ) => {
                let j = n - 1;
                if j >= variants.len() || j >= variant_offsets.len() {
                    None
                } else {
                    let shape = match variant_offsets@[j] {
                        Some(v) => Some(v@),
                        None => None,
                    };
                    match (spec_enum_acc(tys, id, (n - 1) as nat), spec_fields(tys, id, variants@[j].fields@, shape, 0)) {
                        (Some((vs, bs)), Some(fields)) => {
                            let tag_ty = spec_int_ty(tag.ity);
                            let bits = variants@[j].discr_bits as int;
                            let vty = Type::Tuple { fields, size, align };
                            match encoding {
                                RsTagEncoding::Direct => {
                                    let d = spec_int_from_bits(bits, discriminant_ty);
                                    let tagger = List::Cons(Box::new((Size { bytes: tag_offset }, (tag_ty, d))), Box::new(List::Nil));
                                    Some((
                                        assoc_insert(vs, d, Variant { ty: vty, tagger }),
                                        assoc_insert(bs, (d, int_of(d@ + 1)), Discriminator::Known(d)),
                                    ))
                                },
                                RsTagEncoding::Niche { untagged_variant, niche_variants_start, niche_start } => {
                                    if untagged_variant != j {
                                        let d = spec_int_from_bits(bits, tag.ity);
                                        let tag_int = int_of(
                                            wrap_to_bits(d@ - niche_variants_start + niche_start, tag.ity.signed, (8 * tag.ity.bytes) as nat),
                                        );
                                        let tagger = List::Cons(Box::new((Size { bytes: tag_offset }, (tag_ty, tag_int))), Box::new(List::Nil));
                                        Some((
                                            assoc_insert(vs, d, Variant { ty: vty, tagger }),
                                            assoc_insert(bs, (tag_int, int_of(tag_int@ + 1)), Discriminator::Known(d)),
                                        ))
                                    } else {
                                        // The untagged variant is the fallback, not a branch.
                                        let d = spec_int_from_bits(bits, discriminant_ty);
                                        Some((assoc_insert(vs, d, Variant { ty: vty, tagger: List::Nil }), bs))
                                    }
                                },
                            }
                        },
                        _ => None,
                    }
                }
            },
            _ => None,
        }
    }
}

/// The branches after declaring the tag values outside the niche's valid
/// range invalid, and the fallback for all other tag values.
pub open spec fn spec_enum_fallback(
    bs: Seq<((Int, Int), Discriminator)>,
    tag: crate::rs::RsTag,
    encoding: RsTagEncoding,
) -> (Seq<((Int, Int), Discriminator)>, Discriminator) {
    match encoding {
        // Direct tagging: all other tag values are invalid.
        RsTagEncoding::Direct => (bs, Discriminator::Invalid),
        // Niche tagging: other values mean the untagged variant, except for
        // those outside the valid range of the tag.
        RsTagEncoding::Niche { untagged_variant, .. } => {
            let start = spec_int_from_bits(tag.valid_start as int, tag.ity);
            let end = spec_int_from_bits(tag.valid_end as int, tag.ity);
            let bs2 = if start@ <= end@ {
                let min = int_min(tag.ity);
                let max = int_max(tag.ity);
                let b1 = if end@ < max {
                    assoc_insert(bs, (int_of(end@ + 1), int_of(max + 1)), Discriminator::Invalid)
                } else {
                    bs
                };
                if min < start@ {
                    assoc_insert(b1, (int_of(min), start), Discriminator::Invalid)
                } else {
                    b1
                }
            } else if end@ + 1 < start@ {
                // The valid range wraps around: the values between its ends are invalid.
                assoc_insert(bs, (int_of(end@ + 1), start), Discriminator::Invalid)
            } else {
                bs
            };
            (bs2, Discriminator::Known(int_of(untagged_variant as int)))
        },
    }
}

/// The MiniRust type of the enum with id `id`.
pub open spec fn spec_enum(tys: Seq<RsTy>, id: int) -> Option<Type>
    decreases id, 2int, 0int,
{
    if !(0 <= id < tys.len()) {
        None
    } else {
        let t = tys[id];
        let size = Size { bytes: t.layout.size };
        let align = Align { bytes: t.layout.align };
        match t.kind {
            RsTyKind::Enum { variants, discriminant_ty } => if !(1 <= discriminant_ty.bytes <= 16) {
                None
            } else {
                let dty = spec_int_ty(discriminant_ty);
                match t.layout.variants {
                    RsVariants::Single { index } => if index < variants.len() {
                        match spec_fields(tys, id, variants@[index as int].fields@, Some(t.layout.field_offsets@), 0) {
                            Some(fields) => Some(Type::Enum {
                                variants: List::Cons(
                                    Box::new((int_of(0), Variant { ty: Type::Tuple { fields, size, align }, tagger: List::Nil })),
                                    Box::new(List::Nil),
                                ),
                                discriminator: Discriminator::Known(int_of(0)),
                                discriminant_ty: dty,
                                size,
                                align,
                            }),
                            None => None,
                        }
                    } else {
                        None
                    },
                    RsVariants::Multiple { tag, encoding, tag_offset, .. } => if !(1 <= tag.ity.bytes <= 16) {
                        None
                    } else {
                        match spec_enum_acc(tys, id, variants.len() as nat) {
                            Some((vs, bs)) => {
                                let (bs2, fallback) = spec_enum_fallback(bs, tag, encoding);
                                Some(Type::Enum {
                                    variants: list_from_seq(vs),
                                    discriminator: Discriminator::Branch {
                                        offset: Size { bytes: tag_offset },
                                        value_type: spec_int_ty(tag.ity),
                                        fallback: Box::new(fallback),
                                        children: list_from_seq(bs2),
                                    },
                                    discriminant_ty: dty,
                                    size,
                                    align,
                                })
                            },
                            None => None,
                        }
                    },
                }
            },
            _ => None,
        }
    }
}

impl Ctxt {
    /// The (offset, type) list of fields `i..` of type `parent` (MiniRust's
    /// tuple fields; for ADTs, `translate_adt_variant_fields`).
    pub fn translate_adt_variant_fields(&self, parent: TyId, fields: &Vec<TyId>, offsets: Option<&Vec<u64>>, i: usize) -> (r: List<(Size, Type)>)
        requires
            tys_wf(self.tcx.tys@),
            spec_fields(self.tcx.tys@, parent as int, fields@, match offsets { Some(o) => Some(o@), None => None }, i as int) is Some,
        ensures
            r == spec_fields(self.tcx.tys@, parent as int, fields@, match offsets { Some(o) => Some(o@), None => None }, i as int).unwrap(),
        decreases parent, 0int, fields@.len() - i,
    {
        if i >= fields.len() {
            return List::Nil;
        }
        let f = fields[i];
        let ty = self.translate_ty(f);
        let rest = self.translate_adt_variant_fields(parent, fields, offsets, i + 1);
        let offset = match offsets {
            Some(offs) => translate_size(offs[i]),
            None => {
                // Fields in an elided enum variant must all be zero-sized at offset zero.
                let sz = ty.size();
                assert(sz == Some(0u64));
                translate_size(0)
            },
        };
        List::Cons(Box::new((offset, ty)), Box::new(rest))
    }

    /// The layout of a type.
    pub fn rs_layout_of(&self, ty: TyId) -> (r: &RsLayout)
        requires
            ty < self.tcx.tys@.len(),
        ensures
            *r == self.tcx.tys@[ty as int].layout,
    {
        &self.tcx.tys[ty].layout
    }

    /// [`Ctxt::rs_layout_of`], for a type as stable MIR gives it (the same
    /// type id here).
    pub fn rs_layout_of_smir(&self, ty: TyId) -> (r: &RsLayout)
        requires
            ty < self.tcx.tys@.len(),
        ensures
            *r == self.tcx.tys@[ty as int].layout,
    {
        self.rs_layout_of(ty)
    }

    /// [`Ctxt::translate_ty`], for a type as stable MIR gives it (the same
    /// type id here).
    pub fn translate_ty_smir(&self, ty: TyId) -> (r: Type)
        requires
            tys_wf(self.tcx.tys@),
            spec_ty(self.tcx.tys@, ty as int) is Some,
        ensures
            r == spec_ty(self.tcx.tys@, ty as int).unwrap(),
    {
        self.translate_ty(ty)
    }

    /// The tuple type laid out as type `ty` (a tuple or a closure) is, with
    /// the given fields.
    fn tuple_from_layout(&self, ty: TyId, fields: &Vec<TyId>) -> (r: Type)
        requires
            tys_wf(self.tcx.tys@),
            ty < self.tcx.tys@.len(),
            spec_fields(self.tcx.tys@, ty as int, fields@, Some(self.tcx.tys@[ty as int].layout.field_offsets@), 0) is Some,
        ensures
            r == (Type::Tuple {
                fields: spec_fields(self.tcx.tys@, ty as int, fields@, Some(self.tcx.tys@[ty as int].layout.field_offsets@), 0).unwrap(),
                size: Size { bytes: self.tcx.tys@[ty as int].layout.size },
                align: Align { bytes: self.tcx.tys@[ty as int].layout.align },
            }),
        decreases ty, 2int, 0int,
    {
        let (fields, size, align) = self.translate_non_enum_adt(ty, fields);
        Type::Tuple { fields, size, align }
    }

    /// The fields, size and alignment of a struct or union type `ty`.
    fn translate_non_enum_adt(&self, ty: TyId, fields: &Vec<TyId>) -> (r: (List<(Size, Type)>, Size, Align))
        requires
            tys_wf(self.tcx.tys@),
            ty < self.tcx.tys@.len(),
            spec_fields(self.tcx.tys@, ty as int, fields@, Some(self.tcx.tys@[ty as int].layout.field_offsets@), 0) is Some,
        ensures
            r.0 == spec_fields(self.tcx.tys@, ty as int, fields@, Some(self.tcx.tys@[ty as int].layout.field_offsets@), 0).unwrap(),
            r.1.bytes == self.tcx.tys@[ty as int].layout.size,
            r.2.bytes == self.tcx.tys@[ty as int].layout.align,
        decreases ty, 1int, 0int,
    {
        let layout = self.rs_layout_of(ty);
        let fields = self.translate_adt_variant_fields(ty, fields, Some(&layout.field_offsets), 0);
        (fields, translate_size(layout.size), translate_align(layout.align))
    }

    /// The MiniRust type of a rustc type.
    pub fn translate_ty(&self, ty: TyId) -> (r: Type)
        requires
            tys_wf(self.tcx.tys@),
            spec_ty(self.tcx.tys@, ty as int) is Some,
        ensures
            r == spec_ty(self.tcx.tys@, ty as int).unwrap(),
        decreases ty, 3int, 0int,
    {
        let t = &self.tcx.tys[ty];
        let size = translate_size(t.layout.size);
        let align = translate_align(t.layout.align);
        match &t.kind {
            RsTyKind::Bool => Type::Bool,
            RsTyKind::Int { bytes } => Type::Int(IntType { signed: Signedness::Signed, size: translate_size(*bytes) }),
            RsTyKind::Uint { bytes } => Type::Int(IntType { signed: Signedness::Unsigned, size: translate_size(*bytes) }),
            // Not the right model for `char`: it does not have the right niches.
            RsTyKind::Char => Type::Int(IntType { signed: Signedness::Unsigned, size: Size { bytes: 4 } }),
            RsTyKind::Tuple { fields } => self.tuple_from_layout(ty, fields),
            RsTyKind::Closure { upvars } => self.tuple_from_layout(ty, upvars),
            RsTyKind::Struct { fields, .. } => {
                let (fields, size, align) = self.translate_non_enum_adt(ty, fields);
                Type::Tuple { fields, size, align }
            },
            RsTyKind::Union { fields } => {
                let (fields, size, align) = self.translate_non_enum_adt(ty, fields);
                let chunks = crate::chunks::calc_chunks(&fields, size);
                Type::Union { fields, size, align, chunks }
            },
            RsTyKind::Enum { .. } => self.translate_enum(ty),
            RsTyKind::Box { pointee } => {
                let pointee = self.pointee_info_of(*pointee);
                Type::Ptr(PtrType::Box { pointee })
            },
            RsTyKind::Ref { pointee, mutbl } => {
                let pointee = self.pointee_info_of(*pointee);
                let mutbl = translate_mutbl(*mutbl);
                Type::Ptr(PtrType::Ref { pointee, mutbl })
            },
            RsTyKind::RawPtr { pointee } => {
                let pointee = self.pointee_info_of(*pointee);
                Type::Ptr(PtrType::Raw { meta_kind: pointee.layout.meta_kind() })
            },
            RsTyKind::Array { elem, count } => {
                let c = Int::from_u64(*count);
                proof {
                    crate::num::lemma_int_of(c);
                }
                let elem = Box::new(self.translate_ty(*elem));
                Type::Array { elem, count: c }
            },
            RsTyKind::FnPtr => Type::Ptr(PtrType::FnPtr),
            RsTyKind::FnDef => Type::Tuple { fields: List::Nil, size: Size { bytes: 0 }, align: Align { bytes: 1 } },
            RsTyKind::Never => Type::Enum {
                variants: List::Nil,
                discriminator: Discriminator::Invalid,
                discriminant_ty: IntType { signed: Signedness::Unsigned, size: Size { bytes: 1 } },
                size: Size { bytes: 0 },
                align: Align { bytes: 1 },
            },
            RsTyKind::Slice { elem } => {
                let elem = Box::new(self.translate_ty(*elem));
                Type::Slice { elem }
            },
            RsTyKind::Str => Type::Slice {
                elem: Box::new(Type::Int(IntType { signed: Signedness::Unsigned, size: Size { bytes: 1 } })),
            },
            RsTyKind::Dynamic { trait_name } => Type::TraitObject(TraitName(*trait_name)),
            RsTyKind::Other => {
                proof { assert(false); }
                Type::Bool
            },
        }
    }
}

/// Scalars and pointers keep their kind: a `bool` is a boolean, a signed
/// (unsigned) integer of `n` bytes is a signed (unsigned) integer of `n`
/// bytes, a `char` an unsigned 4-byte integer, a `Box` a box pointer, a
/// reference a reference of the same mutability, a raw pointer a raw
/// pointer, a function pointer a function pointer; a box or reference
/// records what is known of its pointee, and a raw pointer the metadata that
/// its pointee needs.
pub proof fn law_scalar_and_pointer_types_keep_their_kind(tys: Seq<RsTy>, id: int)
    requires
        0 <= id < tys.len(),
        spec_ty(tys, id) is Some,
    ensures
        tys[id].kind == RsTyKind::Bool ==> spec_ty(tys, id) == Some(Type::Bool),
        tys[id].kind matches RsTyKind::Int { bytes } ==> spec_ty(tys, id) == Some(
            Type::Int(IntType { signed: Signedness::Signed, size: Size { bytes } }),
        ),
        tys[id].kind matches RsTyKind::Uint { bytes } ==> spec_ty(tys, id) == Some(
            Type::Int(IntType { signed: Signedness::Unsigned, size: Size { bytes } }),
        ),
        tys[id].kind == RsTyKind::Char ==> spec_ty(tys, id) == Some(
            Type::Int(IntType { signed: Signedness::Unsigned, size: Size { bytes: 4 } }),
        ),
        tys[id].kind matches RsTyKind::Box { pointee } ==> (spec_ty(tys, id) matches Some(Type::Ptr(PtrType::Box { pointee: p }))
            && spec_pointee_info(tys, pointee as int) == Some(p)),
        tys[id].kind matches RsTyKind::Ref { pointee, mutbl } ==> (spec_ty(tys, id) matches Some(
            Type::Ptr(PtrType::Ref { pointee: p, mutbl: m }),
        ) && spec_pointee_info(tys, pointee as int) == Some(p) && (m == Mutability::Mutable <==> mutbl == RsMutability::Mut)),
        tys[id].kind matches RsTyKind::RawPtr { pointee } ==> (spec_ty(tys, id) matches Some(
            Type::Ptr(PtrType::Raw { meta_kind }),
        ) && spec_pointee_info(tys, pointee as int) matches Some(p) && meta_kind == p.layout.spec_meta_kind()),
        tys[id].kind == RsTyKind::FnPtr ==> spec_ty(tys, id) == Some(Type::Ptr(PtrType::FnPtr)),
{
}

/// Tuples, structs, closures and unions keep the size and alignment that
/// rustc laid them out with; an array keeps its element type and count.
pub proof fn law_aggregate_types_keep_their_layout(tys: Seq<RsTy>, id: int)
    requires
        0 <= id < tys.len(),
        spec_ty(tys, id) is Some,
    ensures
        (tys[id].kind is Tuple || tys[id].kind is Struct || tys[id].kind is Closure) ==> (spec_ty(tys, id) matches Some(
            Type::Tuple { size, align, .. },
        ) && size.bytes == tys[id].layout.size && align.bytes == tys[id].layout.align),
        tys[id].kind is Union ==> (spec_ty(tys, id) matches Some(Type::Union { size, align, .. }) && size.bytes
            == tys[id].layout.size && align.bytes == tys[id].layout.align),
        tys[id].kind matches RsTyKind::Array { elem, count } ==> (spec_ty(tys, id) matches Some(Type::Array { elem: e, count: c })
            && spec_ty(tys, elem as int) == Some(*e) && c == int_of(count as int)),
{
}

/// What is known of a pointee: a sized one has the size and alignment of
/// its layout; a slice has the size and alignment of its element, `str`
/// those of a byte; a trait object is laid out by its trait. The pointee's
/// inhabitedness, `Freeze` and `Unpin` are recorded as they are.
pub proof fn law_pointee_info_records_the_pointee(tys: Seq<RsTy>, id: int)
    requires
        spec_pointee_info(tys, id) is Some,
    ensures
        ({
            let p = spec_pointee_info(tys, id).unwrap();
            let t = tys[id];
            &&& p.inhabited == !t.layout.uninhabited
            &&& p.freeze == t.freeze
            &&& p.unpin == t.unpin
            &&& t.layout.sized ==> p.layout == LayoutStrategy::Sized(Size { bytes: t.layout.size }, Align { bytes: t.layout.align })
            &&& !t.layout.sized ==> (t.kind matches RsTyKind::Slice { elem } ==> p.layout == LayoutStrategy::Slice(
                Size { bytes: tys[elem as int].layout.size },
                Align { bytes: tys[elem as int].layout.align },
            ))
            &&& !t.layout.sized ==> (t.kind == RsTyKind::Str ==> p.layout == LayoutStrategy::Slice(Size { bytes: 1 }, Align { bytes: 1 }))
            &&& !t.layout.sized ==> (t.kind matches RsTyKind::Dynamic { trait_name } ==> p.layout == LayoutStrategy::TraitObject(
                TraitName(trait_name),
            ))
        }),
{
}

/// An enum keeps rustc's size and alignment and its discriminant type; a
/// slice is a slice of its element type, `str` a slice of bytes, a trait
/// object is the trait object of its trait, a function item carries no data,
/// and `!` is an enum without variants that no value inhabits.
pub proof fn law_other_types_keep_their_meaning(tys: Seq<RsTy>, id: int)
    requires
        0 <= id < tys.len(),
        spec_ty(tys, id) is Some,
    ensures
        tys[id].kind matches RsTyKind::Enum { discriminant_ty, .. } ==> (spec_ty(tys, id) matches Some(
            Type::Enum { size, align, discriminant_ty: d, .. },
        ) && size.bytes == tys[id].layout.size && align.bytes == tys[id].layout.align && d == spec_int_ty(discriminant_ty)),
        tys[id].kind matches RsTyKind::Slice { elem } ==> (spec_ty(tys, id) matches Some(Type::Slice { elem: e }) && spec_ty(
            tys,
            elem as int,
        ) == Some(*e)),
        tys[id].kind == RsTyKind::Str ==> spec_ty(tys, id) == Some(
            Type::Slice { elem: Box::new(Type::Int(IntType { signed: Signedness::Unsigned, size: Size { bytes: 1 } })) },
        ),
        tys[id].kind matches RsTyKind::Dynamic { trait_name } ==> spec_ty(tys, id) == Some(Type::TraitObject(TraitName(trait_name))),
        tys[id].kind == RsTyKind::FnDef ==> spec_ty(tys, id) == Some(unit_type()),
        tys[id].kind == RsTyKind::Never ==> (spec_ty(tys, id) matches Some(Type::Enum { variants, discriminator, size, .. })
            && variants == List::<(Int, Variant)>::Nil && discriminator == Discriminator::Invalid && size.bytes == 0),
{
    if tys[id].kind is Enum {
        assert(spec_ty(tys, id) == spec_enum(tys, id));
        match tys[id].layout.variants {
            RsVariants::Single { .. } => {},
            RsVariants::Multiple { tag, encoding, .. } => {
                let e = spec_enum(tys, id).unwrap();
                assert(e is Enum);
            },
        }
    }
}

/// Where shared mutation can happen: scalars and pointers have no cells; an
/// `UnsafeCell` is one cell over its whole size; a union or enum is one
/// cell over its whole size unless it is `Freeze`, in which case it has
/// none.
pub proof fn law_unsafe_cells_of_simple_types(tys: Seq<RsTy>, id: int)
    requires
        0 <= id < tys.len(),
    ensures
        (tys[id].kind is Bool || tys[id].kind is Int || tys[id].kind is Uint || tys[id].kind is Char || tys[id].kind is RawPtr
            || tys[id].kind is Ref || tys[id].kind is Box || tys[id].kind is FnPtr) ==> spec_cells(tys, id) == Some(Seq::<(int, int)>::empty()),
        tys[id].kind matches RsTyKind::Struct { is_unsafe_cell: true, .. } ==> spec_cells(tys, id) == Some(seq![(0int, tys[id].layout.size as int)]),
        (tys[id].kind is Union || tys[id].kind is Enum) ==> spec_cells(tys, id) == (if tys[id].freeze {
            Some(Seq::<(int, int)>::empty())
        } else {
            Some(seq![(0int, tys[id].layout.size as int)])
        }),
{
}

/// The fields of a type are its field types, in order, each at the offset
/// rustc laid it out at (at offset 0, and of size 0, where there are no
/// offsets).
pub proof fn law_fields_at_their_offsets(tys: Seq<RsTy>, parent: int, fields: Seq<TyId>, offsets: Option<Seq<u64>>, i: int)
    requires
        0 <= i <= fields.len(),
    ensures
        spec_fields(tys, parent, fields, offsets, i) matches Some(l) ==> {
            &&& l.to_seq().len() == fields.len() - i
            &&& forall|j: int| 0 <= j < l.to_seq().len() ==> {
                let (off, ty) = #[trigger] l.to_seq()[j];
                &&& Some(ty) == spec_ty(tys, fields[i + j] as int)
                &&& (offsets matches Some(offs) ==> off.bytes == offs[i + j])
                &&& (offsets is None ==> off.bytes == 0 && ty.spec_size() == Some(0int))
            }
        },
    decreases fields.len() - i,
{
    if i < fields.len() {
        law_fields_at_their_offsets(tys, parent, fields, offsets, i + 1);
        if let Some(l) = spec_fields(tys, parent, fields, offsets, i) {
            let rest = spec_fields(tys, parent, fields, offsets, i + 1).unwrap();
            if let List::Cons(x, r) = l {
                assert(*r == rest);
                assert(l.to_seq() == seq![*x] + rest.to_seq());
                assert forall|j: int| 0 <= j < l.to_seq().len() implies {
                    let (off, ty) = #[trigger] l.to_seq()[j];
                    &&& Some(ty) == spec_ty(tys, fields[i + j] as int)
                    &&& (offsets matches Some(offs) ==> off.bytes == offs[i + j])
                    &&& (offsets is None ==> off.bytes == 0 && ty.spec_size() == Some(0int))
                } by {
                    if j > 0 {
                        assert(l.to_seq()[j] == rest.to_seq()[j - 1]);
                    }
                }
            }
        }
    }
}

} // verus!
