//! Validating a table of types before it is handed to the translation: every
//! alignment is a power of two, and the `UnsafeCell` ranges of every type lie
//! at offsets that fit in 64 bits (what [`tys_wf`] asks).
use vstd::prelude::*;
use crate::rs::{TyId, RsTy, RsTyKind};
use crate::ty::{tys_wf, spec_cells, spec_cells_fields, shift_cells, cells_fit, lemma_cells_nonneg, lemma_cells_fields_nonneg};
use crate::constant::power_of_two;
use crate::program::Ctxt;

verus! {

/// The largest offset among the ranges, or -1 if there are none.
pub open spec fn max_offset(c: Seq<(int, int)>) -> int
    decreases c.len(),
{
    if c.len() == 0 {
        -1
    } else {
        let m = max_offset(c.drop_last());
        if c.last().0 > m {
            c.last().0
        } else {
            m
        }
    }
}

/// `2^64`: the first offset that does not fit in 64 bits.
pub open spec fn too_far() -> int {
    0x1_0000_0000_0000_0000int
}

/// An offset, or `2^64` for any offset that does not fit in 64 bits (and 0
/// for a negative one, which cells never have).
pub open spec fn capped(x: int) -> int {
    if x > u64::MAX {
        too_far()
    } else if x < 0 {
        0
    } else {
        x
    }
}

/// What the validation records of a list of ranges: `None` if there are none,
/// else their largest offset, capped.
pub open spec fn inner_summary(c: Seq<(int, int)>) -> Option<u128> {
    if c.len() == 0 {
        None
    } else {
        Some(capped(max_offset(c)) as u128)
    }
}

/// What the validation records of the cells of a type: `None` where the
/// translation does not support the type, else the summary of its cells.
pub open spec fn cells_summary(c: Option<Seq<(int, int)>>) -> Option<Option<u128>> {
    match c {
        None => None,
        Some(s) => Some(inner_summary(s)),
    }
}

/// The summary of ranges moved by `off` bytes.
pub open spec fn shift_summary(m: Option<u128>, off: u64) -> Option<u128> {
    match m {
        None => None,
        Some(x) => Some(
            if x + off > too_far() {
                too_far() as u128
            } else {
                (x + off) as u128
            },
        ),
    }
}

/// The summary of two lists of ranges together.
pub open spec fn join_summary(x: Option<u128>, y: Option<u128>) -> Option<u128> {
    match (x, y) {
        (None, _) => y,
        (_, None) => x,
        (Some(p), Some(q)) => Some(
            if p >= q {
                p
            } else {
                q
            },
        ),
    }
}

/// Every offset is non-negative.
pub open spec fn offsets_nonneg(c: Seq<(int, int)>) -> bool {
    forall|k: int| 0 <= k < c.len() ==> (#[trigger] c[k]).0 >= 0
}

proof fn lemma_max_offset_bounds(c: Seq<(int, int)>)
    ensures
        max_offset(c) >= -1,
        forall|k: int| 0 <= k < c.len() ==> (#[trigger] c[k]).0 <= max_offset(c),
        c.len() > 0 && offsets_nonneg(c) ==> exists|k: int| 0 <= k < c.len() && (#[trigger] c[k]).0 == max_offset(c),
    decreases c.len(),
{
    if c.len() > 0 {
        let d = c.drop_last();
        lemma_max_offset_bounds(d);
        assert(c[c.len() - 1] == c.last());
        if offsets_nonneg(c) {
            assert(offsets_nonneg(d)) by {
                assert forall|k: int| 0 <= k < d.len() implies (#[trigger] d[k]).0 >= 0 by {
                    assert(d[k] == c[k]);
                }
            }
        }
        assert forall|k: int| 0 <= k < c.len() implies (#[trigger] c[k]).0 <= max_offset(c) by {
            if k < d.len() {
                assert(c[k] == d[k]);
            }
        }
        if c.last().0 <= max_offset(d) && d.len() > 0 && offsets_nonneg(c) {
            let k = choose|k: int| 0 <= k < d.len() && (#[trigger] d[k]).0 == max_offset(d);
            assert(c[k] == d[k]);
        }
    }
}

proof fn lemma_max_offset_concat(a: Seq<(int, int)>, b: Seq<(int, int)>)
    ensures
        max_offset(a + b) == (if max_offset(a) >= max_offset(b) {
            max_offset(a)
        } else {
            max_offset(b)
        }),
    decreases b.len(),
{
    lemma_max_offset_bounds(a);
    if b.len() == 0 {
        assert(a + b =~= a);
    } else {
        lemma_max_offset_concat(a, b.drop_last());
        assert((a + b).drop_last() =~= a + b.drop_last());
        assert((a + b).last() == b.last());
    }
}

proof fn lemma_max_offset_shift(a: Seq<(int, int)>, off: int)
    requires
        offsets_nonneg(a),
        off >= 0,
    ensures
        a.len() > 0 ==> max_offset(shift_cells(a, off)) == max_offset(a) + off,
        a.len() == 0 ==> shift_cells(a, off).len() == 0,
    decreases a.len(),
{
    if a.len() > 0 {
        let d = a.drop_last();
        assert(shift_cells(a, off).drop_last() =~= shift_cells(d, off));
        assert(shift_cells(a, off).last() == (a.last().0 + off, a.last().1));
        assert(offsets_nonneg(d)) by {
            assert forall|k: int| 0 <= k < d.len() implies (#[trigger] d[k]).0 >= 0 by {
                assert(d[k] == a[k]);
            }
        }
        assert(a.last().0 >= 0) by {
            assert(a[a.len() - 1] == a.last());
        }
        lemma_max_offset_shift(d, off);
        lemma_max_offset_bounds(d);
        lemma_max_offset_bounds(shift_cells(d, off));
    }
}

/// The summary of `shift_cells(a, off) + b`, from those of `a` and `b`.
proof fn lemma_summary_shift_concat(a: Seq<(int, int)>, off: u64, b: Seq<(int, int)>)
    requires
        offsets_nonneg(a),
        offsets_nonneg(b),
    ensures
        inner_summary(shift_cells(a, off as int) + b) == join_summary(shift_summary(inner_summary(a), off), inner_summary(b)),
{
    lemma_max_offset_shift(a, off as int);
    lemma_max_offset_concat(shift_cells(a, off as int), b);
    lemma_max_offset_bounds(a);
    lemma_max_offset_bounds(b);
    if a.len() > 0 {
        let k = choose|k: int| 0 <= k < a.len() && (#[trigger] a[k]).0 == max_offset(a);
        assert(max_offset(a) >= 0);
    }
    if b.len() > 0 {
        let k = choose|k: int| 0 <= k < b.len() && (#[trigger] b[k]).0 == max_offset(b);
        assert(max_offset(b) >= 0);
    }
    if a.len() == 0 {
        assert(shift_cells(a, off as int) + b =~= b);
    }
}

/// Cells with non-negative offsets and 64-bit lengths fit exactly when
/// their largest offset does.
proof fn lemma_fit_iff_summary(c: Seq<(int, int)>)
    requires
        forall|k: int| 0 <= k < c.len() ==> (#[trigger] c[k]).0 >= 0 && 0 <= c[k].1 <= u64::MAX,
    ensures
        cells_fit(c) <==> (inner_summary(c) matches Some(m) ==> m <= u64::MAX),
{
    lemma_max_offset_bounds(c);
    if c.len() > 0 {
        let k = choose|k: int| 0 <= k < c.len() && (#[trigger] c[k]).0 == max_offset(c);
        if cells_fit(c) {
            assert(c[k].0 <= u64::MAX);
        }
    }
}

/// One cell at offset 0 is summarized by offset 0.
proof fn lemma_one_cell(size: int)
    ensures
        inner_summary(seq![(0int, size)]) == Some(0u128),
{
    let c = seq![(0int, size)];
    assert(c.drop_last() =~= Seq::<(int, int)>::empty());
    assert(max_offset(c.drop_last()) == -1);
    assert(c.last().0 == 0);
    assert(max_offset(c) == 0);
}

/// The `i`-th type of the table `a` followed by `b`.
fn ty_at<'a>(a: &'a Vec<RsTy>, b: &'a Vec<RsTy>, i: usize) -> (r: &'a RsTy)
    requires
        i < a@.len() + b@.len(),
    ensures
        *r == (a@ + b@)[i as int],
{
    if i < a.len() {
        &a[i]
    } else {
        &b[i - a.len()]
    }
}

fn shift_sum(m: Option<u128>, off: u64) -> (r: Option<u128>)
    requires
        m matches Some(x) ==> x <= too_far(),
    ensures
        r == shift_summary(m, off),
        r matches Some(x) ==> x <= too_far(),
{
    match m {
        None => None,
        Some(x) => {
            let s = x + off as u128;
            if s > 0x1_0000_0000_0000_0000u128 {
                Some(0x1_0000_0000_0000_0000u128)
            } else {
                Some(s)
            }
        },
    }
}

fn join_sum(x: Option<u128>, y: Option<u128>) -> (r: Option<u128>)
    ensures
        r == join_summary(x, y),
{
    match (x, y) {
        (None, _) => y,
        (_, None) => x,
        (Some(p), Some(q)) => Some(
            if p >= q {
                p
            } else {
                q
            },
        ),
    }
}

/// The summaries recorded so far are those of the first types of `all`.
pub open spec fn summaries_ok(all: Seq<RsTy>, sums: Seq<Option<Option<u128>>>) -> bool {
    &&& sums.len() <= all.len()
    &&& forall|j: int| 0 <= j < sums.len() ==> #[trigger] sums[j] == cells_summary(spec_cells(all, j))
}

/// A summary's largest offset is at most `2^64`.
pub open spec fn summary_small(s: Option<Option<u128>>) -> bool {
    s matches Some(Some(x)) ==> x <= too_far()
}

proof fn lemma_summary_small(c: Option<Seq<(int, int)>>)
    ensures
        summary_small(cells_summary(c)),
{
}

/// The summary of the cells of fields `i..` of type `parent`.
fn fields_sum(
    fields: &Vec<TyId>,
    offsets: &Vec<u64>,
    parent: usize,
    sums: &Vec<Option<Option<u128>>>,
    Ghost(all): Ghost<Seq<RsTy>>,
) -> (r: Option<Option<u128>>)
    requires
        parent == sums@.len(),
        parent < all.len(),
        summaries_ok(all, sums@),
    ensures
        r == cells_summary(spec_cells_fields(all, parent as int, fields@, offsets@, 0)),
{
    let mut acc: Option<Option<u128>> = Some(None);
    let mut i: usize = fields.len();
    proof {
        assert(inner_summary(Seq::<(int, int)>::empty()) == None::<u128>);
    }
    while i > 0
        invariant
            i <= fields@.len(),
            parent == sums@.len(),
            parent < all.len(),
            summaries_ok(all, sums@),
            acc == cells_summary(spec_cells_fields(all, parent as int, fields@, offsets@, i as int)),
            summary_small(acc),
        decreases i,
    {
        let k = i - 1;
        let f = fields[k];
        if !(f < parent && k < offsets.len()) {
            acc = None;
        } else {
            let fs = sums[f];
            proof {
                lemma_summary_small(spec_cells(all, f as int));
            }
            acc = match (fs, acc) {
                (Some(fa), Some(ra)) => {
                    let ghost ca = spec_cells(all, f as int).unwrap();
                    let ghost cb = spec_cells_fields(all, parent as int, fields@, offsets@, i as int).unwrap();
                    proof {
                        lemma_cells_nonneg(all, f as int);
                        lemma_cells_fields_nonneg(all, parent as int, fields@, offsets@, i as int);
                        lemma_summary_shift_concat(ca, offsets@[k as int], cb);
                    }
                    Some(join_sum(shift_sum(fa, offsets[k]), ra))
                },
                _ => None,
            };
        }
        i = k;
        proof {
            lemma_summary_small(spec_cells_fields(all, parent as int, fields@, offsets@, i as int));
        }
    }
    acc
}

/// The summary of the cells of the type with id `sums.len()`, which is `t`.
fn cells_sum(
    a: &Vec<RsTy>,
    b: &Vec<RsTy>,
    t: &RsTy,
    sums: &Vec<Option<Option<u128>>>,
) -> (r: Option<Option<u128>>)
    requires
        sums@.len() < a@.len() + b@.len(),
        *t == (a@ + b@)[sums@.len() as int],
        summaries_ok(a@ + b@, sums@),
    ensures
        r == cells_summary(spec_cells(a@ + b@, sums@.len() as int)),
{
    let ghost all = a@ + b@;
    let id = sums.len();
    let size = t.layout.size;
    proof {
        assert(size <= u64::MAX);
    }
    match &t.kind {
        RsTyKind::Bool | RsTyKind::Int { .. } | RsTyKind::Uint { .. } | RsTyKind::Char
        | RsTyKind::RawPtr { .. } | RsTyKind::Ref { .. } | RsTyKind::Box { .. }
        | RsTyKind::FnPtr | RsTyKind::FnDef | RsTyKind::Never => Some(None),
        RsTyKind::Tuple { fields } => fields_sum(fields, &t.layout.field_offsets, id, sums, Ghost(all)),
        RsTyKind::Closure { upvars } => fields_sum(upvars, &t.layout.field_offsets, id, sums, Ghost(all)),
        RsTyKind::Struct { fields, is_unsafe_cell } => {
            if *is_unsafe_cell {
                proof {
                    lemma_one_cell(size as int);
                }
                Some(Some(0))
            } else {
                fields_sum(fields, &t.layout.field_offsets, id, sums, Ghost(all))
            }
        },
        RsTyKind::Union { .. } | RsTyKind::Enum { .. } => {
            if t.freeze {
                Some(None)
            } else {
                proof {
                    lemma_one_cell(size as int);
                }
                Some(Some(0))
            }
        },
        RsTyKind::Array { elem, .. } => {
            let elem = *elem;
            if elem >= id {
                return None;
            }
            match sums[elem] {
                None => None,
                Some(None) => Some(None),
                Some(Some(m)) => {
                    let esize = ty_at(a, b, elem).layout.size;
                    let ghost r = spec_cells(all, elem as int).unwrap();
                    proof {
                        lemma_summary_small(spec_cells(all, elem as int));
                        lemma_cells_nonneg(all, elem as int);
                        assert(offsets_nonneg(shift_cells(r, esize as int))) by {
                            assert forall|k: int| 0 <= k < shift_cells(r, esize as int).len() implies (#[trigger] shift_cells(
                                r,
                                esize as int,
                            )[k]).0 >= 0 by {
                                assert(r[k].0 >= 0);
                            }
                        }
                        lemma_summary_shift_concat(r, esize, Seq::empty());
                        assert(shift_cells(r, esize as int) + Seq::<(int, int)>::empty() =~= shift_cells(r, esize as int));
                        lemma_summary_shift_concat(r, 0, shift_cells(r, esize as int));
                        assert(shift_cells(r, 0) =~= shift_cells(r, 0 as u64 as int));
                    }
                    let second = shift_sum(Some(m), esize);
                    Some(join_sum(shift_sum(Some(m), 0), join_sum(second, None)))
                },
            }
        },
        _ => None,
    }
}

/// Whether the table `a` followed by `b` is a valid type table (see [`tys_wf`]).
fn table_ok(a: &Vec<RsTy>, b: &Vec<RsTy>) -> (r: bool)
    ensures
        r == tys_wf(a@ + b@),
{
    let ghost all = a@ + b@;
    let mut sums: Vec<Option<Option<u128>>> = Vec::new();
    let mut which: usize = 0;
    // The types of `a`, then those of `b`; the id of the next one is `sums.len()`.
    while which < 2
        invariant
            which <= 2,
            sums@.len() == (if which == 0 {
                0
            } else if which == 1 {
                a@.len() as int
            } else {
                all.len() as int
            }),
            all == a@ + b@,
            summaries_ok(all, sums@),
            forall|j: int| 0 <= j < sums@.len() ==> crate::ty::is_power_of_two(#[trigger] all[j].layout.align as nat),
            forall|j: int|
                0 <= j < sums@.len() && spec_cells(all, j) is Some ==> cells_fit(#[trigger] spec_cells(all, j).unwrap()),
        decreases 2 - which,
    {
        let part = if which == 0 { a } else { b };
        let mut i: usize = 0;
        while i < part.len()
            invariant
                which < 2,
                part@ == (if which == 0 { a@ } else { b@ }),
                i <= part@.len(),
                sums@.len() == (if which == 0 { 0 } else { a@.len() as int }) + i,
                all == a@ + b@,
                summaries_ok(all, sums@),
                forall|j: int| 0 <= j < sums@.len() ==> crate::ty::is_power_of_two(#[trigger] all[j].layout.align as nat),
                forall|j: int|
                    0 <= j < sums@.len() && spec_cells(all, j) is Some ==> cells_fit(#[trigger] spec_cells(all, j).unwrap()),
            decreases part@.len() - i,
        {
            let id = sums.len();
            let t = &part[i];
            proof {
                if which == 0 {
                    assert(all[id as int] == a@[i as int]);
                } else {
                    assert(all[id as int] == b@[i as int]);
                }
            }
            if !power_of_two(t.layout.align) {
                return false;
            }
            let s = cells_sum(a, b, t, &sums);
            proof {
                if spec_cells(all, id as int) is Some {
                    lemma_cells_nonneg(all, id as int);
                    lemma_fit_iff_summary(spec_cells(all, id as int).unwrap());
                }
            }
            match s {
                Some(Some(m)) => {
                    if m > u64::MAX as u128 {
                        return false;
                    }
                },
                _ => {},
            }
            let ghost before = sums@;
            sums.push(s);
            proof {
                assert forall|j: int| 0 <= j < sums@.len() implies #[trigger] sums@[j] == cells_summary(spec_cells(all, j)) by {
                    if j < id {
                        assert(sums@[j] == before[j]);
                    }
                }
            }
            i = i + 1;
        }
        which = which + 1;
    }
    true
}

/// Whether a table of types is valid for the translation (see [`tys_wf`]).
pub fn tys_ok(tys: &Vec<RsTy>) -> (r: bool)
    ensures
        r == tys_wf(tys@),
{
    let none: Vec<RsTy> = Vec::new();
    let r = table_ok(tys, &none);
    assert(tys@ + none@ =~= tys@);
    r
}

impl Ctxt {
    /// Whether the types `more` can join the table: whether the table with
    /// them is valid for the translation.
    pub fn types_fit(&self, more: &Vec<RsTy>) -> (r: bool)
        ensures
            r == tys_wf(self.tcx.tys@ + more@),
    {
        table_ok(&self.tcx.tys, more)
    }
}

} // verus!
