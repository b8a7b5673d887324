//! The chunks of a union type: the byte ranges that some field stores data in.
use vstd::prelude::*;
use crate::num::Int;
use crate::lang::{List, Size, Type, Variant, IntType, PTR_SIZE, list_from_vec};
use crate::ty::{cells_view, cells_list, lemma_cells_unview_view};

verus! {

/// Whether a value of type `ty` stores data (not padding) in byte `k`.
pub open spec fn marks(ty: Type, k: int) -> bool
    decreases ty, 0int, 0int,
{
    match ty {
        Type::Int(it) => 0 <= k < it.size.bytes,
        Type::Bool => k == 0,
        Type::Ptr(_) => 0 <= k < PTR_SIZE,
        Type::Tuple { fields, .. } => fields_mark(fields, k),
        Type::Union { chunks, .. } => chunks_mark(chunks, k),
        Type::Array { elem, count } => match elem.spec_size() {
            Some(es) => count@ >= 0 && array_marks(*elem, es, count@ as nat, k),
            None => false,
        },
        Type::Enum { variants, .. } => variants_mark(variants, k),
        _ => false,
    }
}

/// One of the first `n` elements of an array, each element `es` bytes, stores data in byte `k`.
pub open spec fn array_marks(elem: Type, es: int, n: nat, k: int) -> bool
    decreases elem, 1int, n,
{
    if n == 0 {
        false
    } else {
        marks(elem, k - (n - 1) * es) || array_marks(elem, es, (n - 1) as nat, k)
    }
}

/// Some field, at its offset, stores data in byte `k`.
pub open spec fn fields_mark(fields: List<(Size, Type)>, k: int) -> bool
    decreases fields, 0int, 0int,
{
    match fields {
        List::Nil => false,
        List::Cons(f, rest) => marks(f.1, k - f.0.bytes) || fields_mark(*rest, k),
    }
}

/// Byte `k` lies in one of the (offset, length) ranges.
pub open spec fn chunks_mark(chunks: List<(Size, Size)>, k: int) -> bool
    decreases chunks, 0int, 0int,
{
    match chunks {
        List::Nil => false,
        List::Cons(c, rest) => (c.0.bytes <= k < c.0.bytes + c.1.bytes) || chunks_mark(*rest, k),
    }
}

/// Some variant stores data or tag bytes in byte `k`.
pub open spec fn variants_mark(variants: List<(Int, Variant)>, k: int) -> bool
    decreases variants, 0int, 0int,
{
    match variants {
        List::Nil => false,
        List::Cons(v, rest) => marks(v.1.ty, k) || tagger_mark(v.1.tagger, k) || variants_mark(*rest, k),
    }
}

/// Byte `k` is one of the tag bytes a variant writes.
pub open spec fn tagger_mark(tagger: List<(Size, (IntType, Int))>, k: int) -> bool
    decreases tagger, 0int, 0int,
{
    match tagger {
        List::Nil => false,
        List::Cons(t, rest) => (t.0.bytes <= k < t.0.bytes + (t.1).0.size.bytes) || tagger_mark(*rest, k),
    }
}

/// Marking the bytes of `ty` in a region of `room` bytes stays inside it:
/// every sub-region starts inside the region and every marked byte lies in it.
pub open spec fn fits_in(ty: Type, room: int) -> bool
    decreases ty, 0int, 0int,
{
    match ty {
        Type::Int(it) => it.size.bytes <= room,
        Type::Bool => 1 <= room,
        Type::Ptr(_) => PTR_SIZE <= room,
        Type::Tuple { fields, .. } => fields_fit_in(fields, room),
        Type::Union { chunks, .. } => chunks_fit_in(chunks, room),
        Type::Array { elem, count } => {
            &&& ty.size_fits()
            &&& elem.spec_size() is Some
            &&& array_fits(*elem, room, elem.spec_size().unwrap(), count@ as nat)
        },
        Type::Enum { variants, .. } => variants_fit_in(variants, room),
        _ => true,
    }
}

/// The first `n` elements of an array, each element `es` bytes, fit in a region of `room` bytes.
pub open spec fn array_fits(elem: Type, room: int, es: int, n: nat) -> bool
    decreases elem, 1int, n,
{
    if n == 0 {
        true
    } else {
        (n - 1) * es <= room && fits_in(elem, room - (n - 1) * es) && array_fits(elem, room, es, (n - 1) as nat)
    }
}

pub open spec fn fields_fit_in(fields: List<(Size, Type)>, room: int) -> bool
    decreases fields, 0int, 0int,
{
    match fields {
        List::Nil => true,
        List::Cons(f, rest) => f.0.bytes <= room && fits_in(f.1, room - f.0.bytes) && fields_fit_in(*rest, room),
    }
}

pub open spec fn chunks_fit_in(chunks: List<(Size, Size)>, room: int) -> bool
    decreases chunks, 0int, 0int,
{
    match chunks {
        List::Nil => true,
        List::Cons(c, rest) => c.0.bytes <= room && c.1.bytes <= room - c.0.bytes && chunks_fit_in(*rest, room),
    }
}

pub open spec fn variants_fit_in(variants: List<(Int, Variant)>, room: int) -> bool
    decreases variants, 0int, 0int,
{
    match variants {
        List::Nil => true,
        List::Cons(v, rest) => fits_in(v.1.ty, room) && tagger_fit_in(v.1.tagger, room) && variants_fit_in(*rest, room),
    }
}

pub open spec fn tagger_fit_in(tagger: List<(Size, (IntType, Int))>, room: int) -> bool
    decreases tagger, 0int, 0int,
{
    match tagger {
        List::Nil => true,
        List::Cons(t, rest) => t.0.bytes <= room && (t.1).0.size.bytes <= room - t.0.bytes && tagger_fit_in(*rest, room),
    }
}

/// `markers` after marking bytes `base..` by `p`: bytes already marked stay marked.
pub open spec fn marked_by(old_m: Seq<bool>, new_m: Seq<bool>, base: int, p: spec_fn(int) -> bool) -> bool {
    &&& new_m.len() == old_m.len()
    &&& forall|j: int| 0 <= j < new_m.len() ==> #[trigger] new_m[j] == (old_m[j] || (j >= base && p(j - base)))
}

proof fn lemma_marked_by_ext(old_m: Seq<bool>, new_m: Seq<bool>, base: int, p: spec_fn(int) -> bool, q: spec_fn(int) -> bool)
    requires
        marked_by(old_m, new_m, base, p),
        forall|k: int| #[trigger] p(k) == q(k),
    ensures
        marked_by(old_m, new_m, base, q),
{
    assert forall|j: int| 0 <= j < new_m.len() implies #[trigger] new_m[j] == (old_m[j] || (j >= base && q(j - base))) by {
        assert(p(j - base) == q(j - base));
    }
}

/// Sizes of types whose sizes fit are non-negative.
pub proof fn lemma_size_nonneg(t: Type)
    requires
        t.size_fits(),
        t.spec_size() is Some,
    ensures
        t.spec_size().unwrap() >= 0,
    decreases t,
{
    if let Type::Array { elem, count } = t {
        lemma_size_nonneg(*elem);
        assert(elem.spec_size().unwrap() * count@ >= 0) by (nonlinear_arith)
            requires elem.spec_size().unwrap() >= 0, count@ >= 0;
    }
}

proof fn lemma_marks_in_room(ty: Type, room: int, k: int)
    requires
        fits_in(ty, room),
        marks(ty, k),
    ensures
        0 <= k < room,
    decreases ty, 0int,
{
    match ty {
        Type::Tuple { fields, .. } => lemma_fields_marks_in_room(fields, room, k),
        Type::Union { chunks, .. } => lemma_chunks_marks_in_room(chunks, room, k),
        Type::Array { elem, count } => {
            lemma_size_nonneg(*elem);
            lemma_array_marks_in_room(*elem, room, elem.spec_size().unwrap(), count@ as nat, k);
        },
        Type::Enum { variants, .. } => lemma_variants_marks_in_room(variants, room, k),
        _ => {},
    }
}

proof fn lemma_array_marks_in_room(elem: Type, room: int, es: int, n: nat, k: int)
    requires
        es >= 0,
        array_fits(elem, room, es, n),
        array_marks(elem, es, n, k),
    ensures
        0 <= k < room,
    decreases elem, n,
{
    if n > 0 {
        assert((n - 1) * es >= 0) by (nonlinear_arith)
            requires n >= 1, es >= 0;
        if marks(elem, k - (n - 1) * es) {
            lemma_marks_in_room(elem, room - (n - 1) * es, k - (n - 1) * es);
        } else {
            lemma_array_marks_in_room(elem, room, es, (n - 1) as nat, k);
        }
    }
}

proof fn lemma_array_fits_at(elem: Type, room: int, es: int, n: nat, i: nat)
    requires
        array_fits(elem, room, es, n),
        i < n,
    ensures
        i * es <= room,
        fits_in(elem, room - i * es),
    decreases n,
{
    if i + 1 < n {
        lemma_array_fits_at(elem, room, es, (n - 1) as nat, i);
    }
}

proof fn lemma_fields_marks_in_room(fields: List<(Size, Type)>, room: int, k: int)
    requires
        fields_fit_in(fields, room),
        fields_mark(fields, k),
    ensures
        0 <= k < room,
    decreases fields, 0int,
{
    match fields {
        List::Nil => {},
        List::Cons(f, rest) => {
            if marks(f.1, k - f.0.bytes) {
                lemma_marks_in_room(f.1, room - f.0.bytes, k - f.0.bytes);
            } else {
                lemma_fields_marks_in_room(*rest, room, k);
            }
        },
    }
}

proof fn lemma_chunks_marks_in_room(chunks: List<(Size, Size)>, room: int, k: int)
    requires
        chunks_fit_in(chunks, room),
        chunks_mark(chunks, k),
    ensures
        0 <= k < room,
    decreases chunks, 0int,
{
    match chunks {
        List::Nil => {},
        List::Cons(c, rest) => {
            if !(c.0.bytes <= k < c.0.bytes + c.1.bytes) {
                lemma_chunks_marks_in_room(*rest, room, k);
            }
        },
    }
}

proof fn lemma_variants_marks_in_room(variants: List<(Int, Variant)>, room: int, k: int)
    requires
        variants_fit_in(variants, room),
        variants_mark(variants, k),
    ensures
        0 <= k < room,
    decreases variants, 0int,
{
    match variants {
        List::Nil => {},
        List::Cons(v, rest) => {
            if marks(v.1.ty, k) {
                lemma_marks_in_room(v.1.ty, room, k);
            } else if tagger_mark(v.1.tagger, k) {
                lemma_tagger_marks_in_room(v.1.tagger, room, k);
            } else {
                lemma_variants_marks_in_room(*rest, room, k);
            }
        },
    }
}

proof fn lemma_tagger_marks_in_room(tagger: List<(Size, (IntType, Int))>, room: int, k: int)
    requires
        tagger_fit_in(tagger, room),
        tagger_mark(tagger, k),
    ensures
        0 <= k < room,
    decreases tagger, 0int,
{
    match tagger {
        List::Nil => {},
        List::Cons(t, rest) => {
            if !(t.0.bytes <= k < t.0.bytes + (t.1).0.size.bytes) {
                lemma_tagger_marks_in_room(*rest, room, k);
            }
        },
    }
}

/// Marks bytes `base..base + size` as used.
fn mark_size(size: u64, markers: &mut Vec<bool>, base: usize)
    requires
        base + size <= old(markers).len(),
    ensures
        marked_by(old(markers)@, final(markers)@, base as int, |k: int| 0 <= k < size),
{
    let mut i: u64 = 0;
    while i < size
        invariant
            i <= size,
            base + size <= markers.len(),
            marked_by(old(markers)@, markers@, base as int, |k: int| 0 <= k < i),
        decreases size - i,
    {
        markers.set(base + i as usize, true);
        i = i + 1;
    }
}

/// Marks the bytes that a value of type `ty` stores data in, starting at `base`.
fn mark_used_bytes(ty: &Type, markers: &mut Vec<bool>, base: usize)
    requires
        base <= old(markers).len(),
        fits_in(*ty, old(markers).len() - base),
    ensures
        marked_by(old(markers)@, final(markers)@, base as int, |k: int| marks(*ty, k)),
    decreases ty,
{
    match ty {
        Type::Int(it) => {
            mark_size(it.size.bytes, markers, base);
            proof {
                lemma_marked_by_ext(old(markers)@, markers@, base as int, |k: int| 0 <= k < it.size.bytes, |k: int| marks(*ty, k));
            }
        },
        Type::Bool => {
            mark_size(1, markers, base);
            proof {
                lemma_marked_by_ext(old(markers)@, markers@, base as int, |k: int| 0 <= k < 1u64, |k: int| marks(*ty, k));
            }
        },
        Type::Ptr(_) => {
            mark_size(PTR_SIZE, markers, base);
            proof {
                lemma_marked_by_ext(old(markers)@, markers@, base as int, |k: int| 0 <= k < PTR_SIZE, |k: int| marks(*ty, k));
            }
        },
        Type::Tuple { fields, .. } => {
            mark_fields(fields, markers, base);
            proof {
                lemma_marked_by_ext(old(markers)@, markers@, base as int, |k: int| fields_mark(*fields, k), |k: int| marks(*ty, k));
            }
        },
        Type::Union { chunks, .. } => {
            mark_chunks(chunks, markers, base);
            proof {
                lemma_marked_by_ext(old(markers)@, markers@, base as int, |k: int| chunks_mark(*chunks, k), |k: int| marks(*ty, k));
            }
        },
        Type::Array { elem, count } => {
            let es = elem.size().unwrap();
            proof {
                crate::num::lemma_count_limbs(*count);
            }
            let n = count.lo as u64;
            let ghost room = old(markers).len() - base;
            let mut i: u64 = 0;
            assert(decreases_to!(*ty => **elem));
            while i < n
                invariant
                    decreases_to!(*ty => **elem),
                    i <= n,
                    n == count@,
                    elem.spec_size() == Some(es as int),
                    base <= markers.len(),
                    markers.len() == old(markers).len(),
                    room == old(markers).len() - base,
                    array_fits(**elem, room, es as int, n as nat),
                    marked_by(old(markers)@, markers@, base as int, |k: int| array_marks(**elem, es as int, i as nat, k)),
                decreases n - i,
            {
                let ghost before = markers@;
                proof {
                    lemma_array_fits_at(**elem, room, es as int, n as nat, i as nat);
                }
                let off = i * es;
                mark_used_bytes(elem, markers, base + off as usize);
                proof {
                    assert forall|j: int| 0 <= j < markers@.len() implies #[trigger] markers@[j] == (old(markers)@[j] || (j >= base && array_marks(**elem, es as int, (i + 1) as nat, j - base))) by {
                        assert(before[j] == (old(markers)@[j] || (j >= base && array_marks(**elem, es as int, i as nat, j - base))));
                        if j >= base && marks(**elem, j - base - i * es) {
                            lemma_marks_in_room(**elem, room - i * es, j - base - i * es);
                        }
                    }
                }
                i = i + 1;
            }
            proof {
                lemma_marked_by_ext(old(markers)@, markers@, base as int,
                    |k: int| array_marks(**elem, es as int, n as nat, k),
                    |k: int| marks(*ty, k));
            }
        },
        Type::Enum { variants, .. } => {
            mark_variants(variants, markers, base);
            proof {
                lemma_marked_by_ext(old(markers)@, markers@, base as int, |k: int| variants_mark(*variants, k), |k: int| marks(*ty, k));
            }
        },
        _ => {},
    }
}

fn mark_fields(fields: &List<(Size, Type)>, markers: &mut Vec<bool>, base: usize)
    requires
        base <= old(markers).len(),
        fields_fit_in(*fields, old(markers).len() - base),
    ensures
        marked_by(old(markers)@, final(markers)@, base as int, |k: int| fields_mark(*fields, k)),
    decreases fields,
{
    match fields {
        List::Nil => {},
        List::Cons(f, rest) => {
            let ghost start = markers@;
            mark_used_bytes(&f.1, markers, base + f.0.bytes as usize);
            let ghost mid = markers@;
            mark_fields(rest, markers, base);
            proof {
                assert forall|j: int| 0 <= j < markers@.len() implies #[trigger] markers@[j] == (start[j] || (j >= base && fields_mark(*fields, j - base))) by {
                    if j >= base && marks(f.1, j - base - f.0.bytes) {
                        lemma_marks_in_room(f.1, start.len() - base - f.0.bytes, j - base - f.0.bytes);
                    }
                    assert(mid[j] == (start[j] || (j >= base + f.0.bytes && marks(f.1, j - (base + f.0.bytes)))));
                }
            }
        },
    }
}

fn mark_chunks(chunks: &List<(Size, Size)>, markers: &mut Vec<bool>, base: usize)
    requires
        base <= old(markers).len(),
        chunks_fit_in(*chunks, old(markers).len() - base),
    ensures
        marked_by(old(markers)@, final(markers)@, base as int, |k: int| chunks_mark(*chunks, k)),
    decreases chunks,
{
    match chunks {
        List::Nil => {},
        List::Cons(c, rest) => {
            let ghost start = markers@;
            mark_size(c.1.bytes, markers, base + c.0.bytes as usize);
            let ghost mid = markers@;
            mark_chunks(rest, markers, base);
            proof {
                assert forall|j: int| 0 <= j < markers@.len() implies #[trigger] markers@[j] == (start[j] || (j >= base && chunks_mark(*chunks, j - base))) by {
                    assert(mid[j] == (start[j] || (j >= base + c.0.bytes && 0 <= j - (base + c.0.bytes) < c.1.bytes)));
                }
            }
        },
    }
}

fn mark_tagger(tagger: &List<(Size, (IntType, Int))>, markers: &mut Vec<bool>, base: usize)
    requires
        base <= old(markers).len(),
        tagger_fit_in(*tagger, old(markers).len() - base),
    ensures
        marked_by(old(markers)@, final(markers)@, base as int, |k: int| tagger_mark(*tagger, k)),
    decreases tagger,
{
    match tagger {
        List::Nil => {},
        List::Cons(t, rest) => {
            let ghost start = markers@;
            mark_size((t.1).0.size.bytes, markers, base + t.0.bytes as usize);
            let ghost mid = markers@;
            mark_tagger(rest, markers, base);
            proof {
                assert forall|j: int| 0 <= j < markers@.len() implies #[trigger] markers@[j] == (start[j] || (j >= base && tagger_mark(*tagger, j - base))) by {
                    assert(mid[j] == (start[j] || (j >= base + t.0.bytes && 0 <= j - (base + t.0.bytes) < (t.1).0.size.bytes)));
                }
            }
        },
    }
}

fn mark_variants(variants: &List<(Int, Variant)>, markers: &mut Vec<bool>, base: usize)
    requires
        base <= old(markers).len(),
        variants_fit_in(*variants, old(markers).len() - base),
    ensures
        marked_by(old(markers)@, final(markers)@, base as int, |k: int| variants_mark(*variants, k)),
    decreases variants,
{
    match variants {
        List::Nil => {},
        List::Cons(v, rest) => {
            let ghost start = markers@;
            mark_used_bytes(&v.1.ty, markers, base);
            let ghost mid = markers@;
            mark_tagger(&v.1.tagger, markers, base);
            let ghost mid2 = markers@;
            mark_variants(rest, markers, base);
            proof {
                assert forall|j: int| 0 <= j < markers@.len() implies #[trigger] markers@[j] == (start[j] || (j >= base && variants_mark(*variants, j - base))) by {
                    assert(mid[j] == (start[j] || (j >= base && marks(v.1.ty, j - base))));
                    assert(mid2[j] == (mid[j] || (j >= base && tagger_mark(v.1.tagger, j - base))));
                }
            }
        },
    }
}

/// Which of the first `s` bytes of a union some field stores data in.
pub open spec fn union_markers(fields: List<(Size, Type)>, s: int) -> Seq<bool> {
    Seq::new(s as nat, |k: int| fields_mark(fields, k))
}

/// The maximal runs of `true` in `m` from index `i` on, as (start, length)
/// pairs; `cur` is the start of the run that is open at `i`, if any.
pub open spec fn runs(m: Seq<bool>, i: int, cur: Option<int>) -> Seq<(int, int)>
    decreases m.len() - i,
{
    if i < 0 || i >= m.len() {
        Seq::empty()
    } else {
        match (m[i], cur) {
            (true, None) => runs(m, i + 1, Some(i)),
            (false, Some(s)) => seq![(s, i - s)] + runs(m, i + 1, None),
            _ => runs(m, i + 1, cur),
        }
    }
}

/// The chunks of a union with these fields and this size: the maximal byte
/// ranges that some field stores data in.
pub open spec fn spec_calc_chunks(fields: List<(Size, Type)>, size: Size) -> Seq<(int, int)> {
    runs(union_markers(fields, size.bytes as int).push(false), 0, None)
}


/// `c` is a maximal run of `true` in `m`: non-empty, all `true`, followed
/// by a `false` and preceded by a `false` or the start.
pub open spec fn maximal_run(m: Seq<bool>, c: (int, int)) -> bool {
    &&& 0 <= c.0
    &&& c.1 > 0
    &&& c.0 + c.1 < m.len()
    &&& forall|k: int| c.0 <= k < c.0 + c.1 ==> m[k]
    &&& !m[c.0 + c.1]
    &&& (c.0 == 0 || !m[c.0 - 1])
}

proof fn lemma_runs(m: Seq<bool>, i: int, cur: Option<int>)
    requires
        m.len() > 0,
        !m.last(),
        0 <= i <= m.len(),
        cur is None ==> (i == 0 || !m[i - 1]),
        cur matches Some(s) ==> {
            &&& 0 <= s < i
            &&& forall|k: int| s <= k < i ==> m[k]
            &&& (s == 0 || !m[s - 1])
        },
    ensures
        forall|j: int| 0 <= j < runs(m, i, cur).len() ==> maximal_run(m, #[trigger] runs(m, i, cur)[j]),
        forall|j: int| 0 <= j < runs(m, i, cur).len() ==> #[trigger] runs(m, i, cur)[j].0 >= match cur {
            Some(s) => s,
            None => i,
        },
        cur matches Some(s) ==> runs(m, i, cur).len() > 0 && runs(m, i, cur)[0].0 == s,
        forall|j: int| 0 <= j < runs(m, i, cur).len() - 1 ==> #[trigger] runs(m, i, cur)[j].0 + runs(m, i, cur)[j].1 < runs(m, i, cur)[j + 1].0,
        forall|k: int| i <= k < m.len() && m[k] ==> exists|j: int| 0 <= j < runs(m, i, cur).len() && #[trigger] runs(m, i, cur)[j].0 <= k < runs(m, i, cur)[j].0 + runs(m, i, cur)[j].1,
    decreases m.len() - i,
{
    let r = runs(m, i, cur);
    if i >= m.len() {
        if let Some(s) = cur {
            assert(m[m.len() - 1]);
        }
    } else {
        match (m[i], cur) {
            (true, None) => {
                lemma_runs(m, i + 1, Some(i));
            },
            (false, Some(s)) => {
                lemma_runs(m, i + 1, None);
                let rest = runs(m, i + 1, None);
                assert(r == seq![(s, i - s)] + rest);
                assert(maximal_run(m, (s, i - s)));
                assert forall|j: int| 0 <= j < r.len() - 1 implies #[trigger] r[j].0 + r[j].1 < r[j + 1].0 by {
                    if j == 0 {
                        assert(r[1] == rest[0]);
                    } else {
                        assert(r[j] == rest[j - 1]);
                        assert(r[j + 1] == rest[j]);
                    }
                }
                assert forall|j: int| 0 <= j < r.len() implies maximal_run(m, #[trigger] r[j]) by {
                    if j > 0 {
                        assert(r[j] == rest[j - 1]);
                    }
                }
                assert forall|j: int| 0 <= j < r.len() implies #[trigger] r[j].0 >= s by {
                    if j > 0 {
                        assert(r[j] == rest[j - 1]);
                    }
                }
                assert forall|k: int| i <= k < m.len() && m[k] implies exists|j: int| 0 <= j < r.len() && #[trigger] r[j].0 <= k < r[j].0 + r[j].1 by {
                    let j = choose|j: int| 0 <= j < rest.len() && #[trigger] rest[j].0 <= k < rest[j].0 + rest[j].1;
                    assert(r[j + 1] == rest[j]);
                }
            },
            (true, Some(s)) => {
                lemma_runs(m, i + 1, cur);
            },
            (false, None) => {
                lemma_runs(m, i + 1, cur);
            },
        }
    }
}

/// The chunks of a union are the maximal runs of bytes that some field
/// stores data in: each chunk is such a run, the chunks come in increasing
/// order with unused bytes between them, and every used byte lies in a chunk.
pub proof fn law_chunks_are_maximal_runs(fields: List<(Size, Type)>, size: Size)
    ensures
        ({
            let m = union_markers(fields, size.bytes as int).push(false);
            let c = spec_calc_chunks(fields, size);
            &&& forall|j: int| 0 <= j < c.len() ==> maximal_run(m, #[trigger] c[j])
            &&& forall|j: int| 0 <= j < c.len() - 1 ==> #[trigger] c[j].0 + c[j].1 < c[j + 1].0
            &&& forall|k: int| 0 <= k < size.bytes && #[trigger] union_markers(fields, size.bytes as int)[k] ==> exists|j: int|
                0 <= j < c.len() && #[trigger] c[j].0 <= k < c[j].0 + c[j].1
        }),
{
    let u = union_markers(fields, size.bytes as int);
    let m = u.push(false);
    let c = spec_calc_chunks(fields, size);
    lemma_runs(m, 0, None);
    assert(c == runs(m, 0, None));
    assert(forall|j: int| 0 <= j < c.len() ==> maximal_run(m, #[trigger] c[j]));
    assert(forall|j: int| 0 <= j < c.len() - 1 ==> #[trigger] c[j].0 + c[j].1 < c[j + 1].0);
    assert forall|k: int| 0 <= k < size.bytes && #[trigger] u[k] implies exists|j: int|
        0 <= j < c.len() && #[trigger] c[j].0 <= k < c[j].0 + c[j].1 by {
        assert(m[k] == u[k]);
        assert(0 <= k < m.len());
    }
}

/// Byte `k` is marked exactly where some field, at its offset, stores data in it.
proof fn lemma_fields_mark_some(fields: List<(Size, Type)>, k: int)
    ensures
        fields_mark(fields, k) <==> exists|i: int|
            0 <= i < fields.to_seq().len() && marks(#[trigger] fields.to_seq()[i].1, k - fields.to_seq()[i].0.bytes),
    decreases fields,
{
    if let List::Cons(f, rest) = fields {
        lemma_fields_mark_some(*rest, k);
        let s = fields.to_seq();
        let r = rest.to_seq();
        assert(s == seq![*f] + r);
        assert(s[0] == *f);
        if marks(f.1, k - f.0.bytes) {
            assert(marks(s[0].1, k - s[0].0.bytes));
        }
        if fields_mark(*rest, k) {
            let i = choose|i: int| 0 <= i < r.len() && marks(#[trigger] r[i].1, k - r[i].0.bytes);
            assert(s[i + 1] == r[i]);
        }
        if exists|i: int| 0 <= i < s.len() && marks(#[trigger] s[i].1, k - s[i].0.bytes) {
            let i = choose|i: int| 0 <= i < s.len() && marks(#[trigger] s[i].1, k - s[i].0.bytes);
            if i > 0 {
                assert(s[i] == r[i - 1]);
            }
        }
    }
}

/// The chunks of a union depend only on which fields it has (each with its
/// offset), not on the order in which they are listed.
pub proof fn law_chunks_ignore_field_order(f1: List<(Size, Type)>, f2: List<(Size, Type)>, size: Size)
    requires
        f1.to_seq().to_set() == f2.to_seq().to_set(),
    ensures
        spec_calc_chunks(f1, size) == spec_calc_chunks(f2, size),
{
    let n = size.bytes as int;
    assert(union_markers(f1, n) =~= union_markers(f2, n)) by {
        assert forall|k: int| 0 <= k < n implies fields_mark(f1, k) == fields_mark(f2, k) by {
            lemma_fields_mark_some(f1, k);
            lemma_fields_mark_some(f2, k);
            let s1 = f1.to_seq();
            let s2 = f2.to_seq();
            if fields_mark(f1, k) {
                let i = choose|i: int| 0 <= i < s1.len() && marks(#[trigger] s1[i].1, k - s1[i].0.bytes);
                assert(s1.to_set().contains(s1[i]));
                assert(s2.to_set().contains(s1[i]));
                let j = choose|j: int| 0 <= j < s2.len() && s2[j] == s1[i];
                assert(marks(s2[j].1, k - s2[j].0.bytes));
            }
            if fields_mark(f2, k) {
                let i = choose|i: int| 0 <= i < s2.len() && marks(#[trigger] s2[i].1, k - s2[i].0.bytes);
                assert(s2.to_set().contains(s2[i]));
                assert(s1.to_set().contains(s2[i]));
                let j = choose|j: int| 0 <= j < s1.len() && s1[j] == s2[i];
                assert(marks(s1[j].1, k - s1[j].0.bytes));
            }
        }
    }
    assert(union_markers(f1, n).push(false) == union_markers(f2, n).push(false));
}

/// Calculates the chunks of a union type: the maximal byte ranges in which
/// some field stores data (not padding).
pub fn calc_chunks(fields: &List<(Size, Type)>, size: Size) -> (r: List<(Size, Size)>)
    requires
        size.bytes <= usize::MAX,
        fields_fit_in(*fields, size.bytes as int),
    ensures
        r == cells_list(spec_calc_chunks(*fields, size)),
{
    let s = size.bytes as usize;
    let mut markers: Vec<bool> = Vec::new();
    let mut k: usize = 0;
    while k < s
        invariant
            k <= s,
            markers@ == Seq::new(k as nat, |j: int| false),
        decreases s - k,
    {
        markers.push(false);
        assert(markers@ =~= Seq::new((k + 1) as nat, |j: int| false));
        k = k + 1;
    }
    mark_fields(fields, &mut markers, 0);
    assert(markers@ =~= union_markers(*fields, size.bytes as int));
    // A trailing `false` makes sure that the last chunk is closed.
    markers.push(false);
    let ghost m = markers@;

    let mut chunks: Vec<(Size, Size)> = Vec::new();
    let mut current_chunk_start: Option<usize> = None;
    let mut i: usize = 0;
    assert(cells_view(chunks@) =~= Seq::empty());
    while i < markers.len()
        invariant
            m == markers@,
            i <= markers.len(),
            markers.len() <= usize::MAX,
            current_chunk_start matches Some(st) ==> st < i,
            runs(m, 0, None) == cells_view(chunks@) + runs(m, i as int, match current_chunk_start {
                Some(st) => Some(st as int),
                None => None,
            }),
        decreases markers.len() - i,
    {
        let b = markers[i];
        match current_chunk_start {
            None => {
                if b {
                    current_chunk_start = Some(i);
                }
            },
            Some(st) => {
                if !b {
                    let ghost before = cells_view(chunks@);
                    chunks.push((Size { bytes: st as u64 }, Size { bytes: (i - st) as u64 }));
                    assert(cells_view(chunks@) =~= before + seq![(st as int, i - st)]);
                    current_chunk_start = None;
                }
            },
        }
        i = i + 1;
    }
    proof {
        lemma_cells_unview_view(chunks@);
    }
    list_from_vec(chunks)
}

} // verus!
