//! Translation of enum types: variants, tags and discriminators.
use vstd::prelude::*;
use crate::num::{Int, Signedness, int_of, lemma_int_of, wrap_to_bits, lemma_wrap_bounds, int_from_raw_bits, pow2_u128, lemma_pow2_128, limb};
use crate::lang::{Size, Align, List, Type, IntType, Variant, Discriminator, list_from_vec};
use crate::rs::{TyId, RsTy, RsTyKind, RsVariants, RsTagEncoding, RsIntTy, RsTag};
use crate::program::Ctxt;
use crate::ty::{
    tys_wf, spec_enum, spec_enum_acc, spec_enum_fallback, spec_int_ty, spec_int_from_bits,
    assoc_insert, key_index, int_min, int_max, translate_size, translate_align,
};
use vstd::arithmetic::power2::{pow2, lemma_pow2_unfold};

verus! {

/// The integer that the raw bits `bits` encode in integer type `ity`: the low
/// bits of the type's size, read as unsigned or as two's complement.
pub fn int_from_bits(bits: u128, ity: IntType) -> (r: Int)
    requires
        1 <= ity.size.bytes <= 16,
    ensures
        r == int_of(wrap_to_bits(bits as int, ity.signed, (8 * ity.size.bytes) as nat)),
{
    let r = int_from_raw_bits(bits, ity.signed, ity.size.bytes);
    proof {
        lemma_int_of(r);
    }
    r
}

/// The discriminant of variant `variant` of the enum type `ty`, or `None`
/// where `ty` is no enum with such a variant.
pub open spec fn spec_discriminant(tys: Seq<RsTy>, ty: int, variant: int) -> Option<Int> {
    if 0 <= ty < tys.len() {
        match tys[ty].kind {
            RsTyKind::Enum { variants, discriminant_ty } => if 0 <= variant < variants@.len()
                && 1 <= discriminant_ty.bytes <= 16 {
                Some(spec_int_from_bits(variants@[variant].discr_bits as int, discriminant_ty))
            } else {
                None
            },
            _ => None,
        }
    } else {
        None
    }
}

/// The MiniRust integer type of a rustc integer type.
fn translate_int_ty(it: RsIntTy) -> (r: IntType)
    ensures
        r == spec_int_ty(it),
{
    IntType { signed: it.signed, size: translate_size(it.bytes) }
}

/// Inserts `v` under the integer key `k` (MiniRust's `Map::insert`).
fn insert_by_int<V>(s: &mut Vec<(Int, V)>, k: Int, v: V)
    ensures
        final(s)@ == assoc_insert(old(s)@, k, v),
{
    let mut i: usize = 0;
    while i < s.len()
        invariant
            i <= s.len(),
            s@ == old(s)@,
            key_index(s@, k, 0) == key_index(s@, k, i as int),
        decreases s.len() - i,
    {
        if s[i].0 == k {
            let ghost before = s@;
            s.set(i, (k, v));
            assert(s@ == before.update(i as int, (k, v)));
            return;
        }
        i = i + 1;
    }
    s.push((k, v));
}

/// Inserts `v` under the range key `k` (MiniRust's `Map::insert`).
fn insert_by_range<V>(s: &mut Vec<((Int, Int), V)>, k: (Int, Int), v: V)
    ensures
        final(s)@ == assoc_insert(old(s)@, k, v),
{
    let mut i: usize = 0;
    while i < s.len()
        invariant
            i <= s.len(),
            s@ == old(s)@,
            key_index(s@, k, 0) == key_index(s@, k, i as int),
        decreases s.len() - i,
    {
        if (s[i].0).0 == k.0 && (s[i].0).1 == k.1 {
            let ghost before = s@;
            s.set(i, (k, v));
            assert(s@ == before.update(i as int, (k, v)));
            return;
        }
        i = i + 1;
    }
    s.push((k, v));
}

/// `x + 1` for an integer of at most 128 bits.
fn succ(x: Int) -> (r: Int)
    requires
        -limb() <= x@ <= limb(),
    ensures
        r == int_of(x@ + 1),
{
    let r = x.add(Int::one());
    proof {
        lemma_int_of(r);
    }
    r
}

/// The smallest and largest values of an integer type of `bytes` bytes.
fn int_bounds(it: RsIntTy) -> (r: (Int, Int))
    requires
        1 <= it.bytes <= 16,
    ensures
        r.0@ == int_min(it),
        r.1@ == int_max(it),
        -limb() <= r.0@ <= r.1@ < limb(),
{
    let n: u32 = (8 * it.bytes) as u32;
    let half = pow2_u128(n - 1);
    proof {
        lemma_pow2_128();
        lemma_pow2_unfold(n as nat);
        vstd::arithmetic::power2::lemma_pow2_adds(n as nat, (128 - n) as nat);
        vstd::arithmetic::power2::lemma_pow2_pos((128 - n) as nat);
        vstd::arithmetic::power2::lemma_pow2_pos((n - 1) as nat);
        assert(pow2(n as nat) <= limb()) by (nonlinear_arith)
            requires
                limb() == pow2(n as nat) * pow2((128 - n) as nat),
                pow2((128 - n) as nat) >= 1,
                pow2(n as nat) >= 1,
        ;
    }
    if it.signed == Signedness::Signed {
        let min = Int::zero().sub(Int::from_u128(half));
        let max = Int::from_u128(half - 1);
        (min, max)
    } else {
        let max = if n == 128 {
            Int::from_u128(u128::MAX)
        } else {
            Int::from_u128(pow2_u128(n) - 1)
        };
        (Int::zero(), max)
    }
}

impl Ctxt {
    /// The MiniRust enum type of a rustc enum: its variants with the tag
    /// bytes each one writes, and the discriminator that reads the active
    /// variant back from the tag.
    pub fn translate_enum(&self, ty: TyId) -> (r: Type)
        requires
            tys_wf(self.tcx.tys@),
            spec_enum(self.tcx.tys@, ty as int) is Some,
        ensures
            r == spec_enum(self.tcx.tys@, ty as int).unwrap(),
        decreases ty, 2int, 0int,
    {
        let t = &self.tcx.tys[ty];
        let size = translate_size(t.layout.size);
        let align = translate_align(t.layout.align);
        let (variants, discriminant_ty) = match &t.kind {
            RsTyKind::Enum { variants, discriminant_ty } => (variants, *discriminant_ty),
            _ => {
                proof { assert(false); }
                return Type::Bool;
            },
        };
        let dty = translate_int_ty(discriminant_ty);
        match &t.layout.variants {
            RsVariants::Single { index } => {
                let fields = self.translate_adt_variant_fields(ty, &variants[*index].fields, Some(&t.layout.field_offsets), 0);
                let zero = Int::zero();
                proof {
                    lemma_int_of(zero);
                }
                let variant = Variant { ty: Type::Tuple { fields, size, align }, tagger: List::Nil };
                Type::Enum {
                    variants: List::Cons(Box::new((zero, variant)), Box::new(List::Nil)),
                    discriminator: Discriminator::Known(zero),
                    discriminant_ty: dty,
                    size,
                    align,
                }
            },
            RsVariants::Multiple { tag, encoding, tag_offset, variant_offsets } => {
                let tag = *tag;
                let encoding = *encoding;
                let tag_offset = *tag_offset;
                let tag_ty = translate_int_ty(tag.ity);
                let mut translated_variants: Vec<(Int, Variant)> = Vec::new();
                let mut branches: Vec<((Int, Int), Discriminator)> = Vec::new();
                let mut j: usize = 0;
                while j < variants.len()
                    invariant
                        tys_wf(self.tcx.tys@),
                        ty < self.tcx.tys@.len(),
                        spec_enum(self.tcx.tys@, ty as int) is Some,
                        self.tcx.tys@[ty as int].kind == (RsTyKind::Enum { variants: *variants, discriminant_ty }),
                        self.tcx.tys@[ty as int].layout.variants == (RsVariants::Multiple {
                            tag,
                            encoding,
                            tag_offset,
                            variant_offsets: *variant_offsets,
                        }),
                        1 <= tag.ity.bytes <= 16,
                        1 <= discriminant_ty.bytes <= 16,
                        size == (Size { bytes: self.tcx.tys@[ty as int].layout.size }),
                        align == (Align { bytes: self.tcx.tys@[ty as int].layout.align }),
                        dty == spec_int_ty(discriminant_ty),
                        tag_ty == spec_int_ty(tag.ity),
                        j <= variants.len(),
                        spec_enum_acc(self.tcx.tys@, ty as int, variants.len() as nat) is Some,
                        spec_enum_acc(self.tcx.tys@, ty as int, j as nat) == Some((translated_variants@, branches@)),
                    decreases variants.len() - j,
                {
                    proof {
                        lemma_enum_acc_some(self.tcx.tys@, ty as int, variants.len() as nat, (j + 1) as nat);
                    }
                    let vdef = &variants[j];
                    let shape = match &variant_offsets[j] {
                        Some(v) => Some(v),
                        None => None,
                    };
                    let fields = self.translate_adt_variant_fields(ty, &vdef.fields, shape, 0);
                    let vty = Type::Tuple { fields, size, align };
                    match encoding {
                        RsTagEncoding::Direct => {
                            // Direct tagging places the discriminant in the tag for all variants.
                            let d = int_from_bits(vdef.discr_bits, dty);
                            proof {
                                lemma_wrap_bounds(vdef.discr_bits as int, dty.signed, (8 * dty.size.bytes) as nat);
                                lemma_int_of(d);
                            }
                            let d1 = succ(d);
                            let tagger = List::Cons(Box::new((translate_size(tag_offset), (tag_ty, d))), Box::new(List::Nil));
                            insert_by_int(&mut translated_variants, d, Variant { ty: vty, tagger });
                            insert_by_range(&mut branches, (d, d1), Discriminator::Known(d));
                        },
                        RsTagEncoding::Niche { untagged_variant, niche_variants_start, niche_start } => {
                            if untagged_variant != j {
                                // A tagged variant: it writes its tag and has a discriminator branch.
                                let d = int_from_bits(vdef.discr_bits, tag_ty);
                                proof {
                                    lemma_wrap_bounds(vdef.discr_bits as int, tag_ty.signed, (8 * tag_ty.size.bytes) as nat);
                                    lemma_int_of(d);
                                }
                                let x = d.sub(Int::from_u64(niche_variants_start as u64)).add(Int::from_u128(niche_start));
                                let tag_int = x.bring_in_bounds(tag_ty.signed, tag_ty.size.bytes);
                                proof {
                                    lemma_int_of(tag_int);
                                    lemma_wrap_bounds(x@, tag_ty.signed, (8 * tag_ty.size.bytes) as nat);
                                }
                                let t1 = succ(tag_int);
                                let tagger = List::Cons(Box::new((translate_size(tag_offset), (tag_ty, tag_int))), Box::new(List::Nil));
                                insert_by_range(&mut branches, (tag_int, t1), Discriminator::Known(d));
                                insert_by_int(&mut translated_variants, d, Variant { ty: vty, tagger });
                            } else {
                                // The untagged variant is the fallback, so it gets no branch.
                                let d = int_from_bits(vdef.discr_bits, dty);
                                insert_by_int(&mut translated_variants, d, Variant { ty: vty, tagger: List::Nil });
                            }
                        },
                    }
                    j = j + 1;
                }
                let fallback = self.enum_fallback(&mut branches, tag, encoding);
                Type::Enum {
                    variants: list_from_vec(translated_variants),
                    discriminator: Discriminator::Branch {
                        offset: translate_size(tag_offset),
                        value_type: tag_ty,
                        fallback: Box::new(fallback),
                        children: list_from_vec(branches),
                    },
                    discriminant_ty: dty,
                    size,
                    align,
                }
            },
        }
    }

    /// Adds the branches that declare tag values outside the niche's valid
    /// range invalid, and returns the fallback for all other tag values.
    fn enum_fallback(&self, branches: &mut Vec<((Int, Int), Discriminator)>, tag: RsTag, encoding: RsTagEncoding) -> (r: Discriminator)
        requires
            1 <= tag.ity.bytes <= 16,
        ensures
            (final(branches)@, r) == spec_enum_fallback(old(branches)@, tag, encoding),
    {
        match encoding {
            RsTagEncoding::Direct => Discriminator::Invalid,
            RsTagEncoding::Niche { untagged_variant, .. } => {
                let tag_ty = translate_int_ty(tag.ity);
                let start = int_from_bits(tag.valid_start, tag_ty);
                let end = int_from_bits(tag.valid_end, tag_ty);
                proof {
                    lemma_wrap_bounds(tag.valid_start as int, tag_ty.signed, (8 * tag_ty.size.bytes) as nat);
                    lemma_wrap_bounds(tag.valid_end as int, tag_ty.signed, (8 * tag_ty.size.bytes) as nat);
                    lemma_int_of(start);
                    lemma_int_of(end);
                }
                let e1 = succ(end);
                if start.le(end) {
                    // The valid range is contiguous: the invalid values lie between its ends and the type's bounds.
                    let (min, max) = int_bounds(tag.ity);
                    proof {
                        lemma_int_of(min);
                    }
                    if end.lt(max) {
                        let m1 = succ(max);
                        insert_by_range(branches, (e1, m1), Discriminator::Invalid);
                    }
                    if min.lt(start) {
                        insert_by_range(branches, (min, start), Discriminator::Invalid);
                    }
                } else if e1.lt(start) {
                    // The valid range wraps around: the values between its ends are invalid.
                    insert_by_range(branches, (e1, start), Discriminator::Invalid);
                }
                let u = Int::from_u64(untagged_variant as u64);
                proof {
                    lemma_int_of(u);
                }
                Discriminator::Known(u)
            },
        }
    }

    /// The discriminant of variant `variant` of the enum type `ty`: the raw
    /// discriminant value read in the enum's discriminant type.
    pub fn discriminant_for_variant(&self, ty: TyId, variant: usize) -> (r: Int)
        requires
            spec_discriminant(self.tcx.tys@, ty as int, variant as int) is Some,
        ensures
            r == spec_discriminant(self.tcx.tys@, ty as int, variant as int).unwrap(),
    {
        match &self.tcx.tys[ty].kind {
            RsTyKind::Enum { variants, discriminant_ty } => {
                let it = translate_int_ty(*discriminant_ty);
                int_from_bits(variants[variant].discr_bits, it)
            },
            _ => {
                proof { assert(false); }
                Int::zero()
            },
        }
    }

    /// [`Ctxt::discriminant_for_variant`], for a type and variant index as
    /// stable MIR gives them (they are the same numbers here).
    pub fn discriminant_for_variant_smir(&self, ty: TyId, variant: usize) -> (r: Int)
        requires
            spec_discriminant(self.tcx.tys@, ty as int, variant as int) is Some,
        ensures
            r == spec_discriminant(self.tcx.tys@, ty as int, variant as int).unwrap(),
    {
        self.discriminant_for_variant(ty, variant)
    }
}

/// If the first `n` variants translate, so do the first `m <= n`.
pub proof fn lemma_enum_acc_some(tys: Seq<crate::rs::RsTy>, id: int, n: nat, m: nat)
    requires
        spec_enum_acc(tys, id, n) is Some,
        m <= n,
    ensures
        spec_enum_acc(tys, id, m) is Some,
    decreases n,
{
    if m < n {
        lemma_enum_acc_some(tys, id, (n - 1) as nat, m);
    }
}


/// `key_index` finds an entry with the key, at or after `i`.
proof fn lemma_key_index<K, V>(s: Seq<(K, V)>, k: K, i: int)
    ensures
        key_index(s, k, i) >= 0 ==> i <= key_index(s, k, i) < s.len() && s[key_index(s, k, i)].0 == k,
    decreases s.len() - i,
{
    if 0 <= i < s.len() && s[i].0 != k {
        lemma_key_index(s, k, i + 1);
    }
}

/// After an insertion the new entry is in the list, and every other entry
/// is one that was there, at the same place.
proof fn lemma_assoc_insert<K, V>(s: Seq<(K, V)>, k: K, v: V)
    ensures
        assoc_insert(s, k, v).len() >= s.len(),
        exists|i: int| 0 <= i < assoc_insert(s, k, v).len() && assoc_insert(s, k, v)[i] == (k, v),
        forall|j: int|
            0 <= j < assoc_insert(s, k, v).len() ==> assoc_insert(s, k, v)[j] == (k, v) || (j < s.len()
                && #[trigger] assoc_insert(s, k, v)[j] == s[j]),
        forall|j: int| 0 <= j < s.len() ==> (#[trigger] assoc_insert(s, k, v)[j]).0 == s[j].0,
{
    lemma_key_index(s, k, 0);
    let r = assoc_insert(s, k, v);
    let idx = key_index(s, k, 0);
    if idx >= 0 {
        assert(r[idx] == (k, v));
    } else {
        assert(r[s.len() as int] == (k, v));
    }
}

/// The branches `bs` read tag value `v` as discriminant `d`: some branch's
/// range holds `v`, and every branch whose range holds it leads to `d`.
pub open spec fn branches_read(bs: Seq<((Int, Int), Discriminator)>, v: int, d: Int) -> bool {
    &&& exists|k: int| 0 <= k < bs.len() && (#[trigger] bs[k]).0.0@ <= v < bs[k].0.1@
    &&& forall|k: int| 0 <= k < bs.len() && (#[trigger] bs[k]).0.0@ <= v < bs[k].0.1@ ==> bs[k].1 == Discriminator::Known(d)
}

/// The variants and branches built so far under direct tagging: each
/// variant's tagger writes its discriminant at the tag's offset, each branch
/// sends the one value of a variant's discriminant to that discriminant, and
/// each variant has its branch.
pub open spec fn direct_acc_ok(
    vs: Seq<(Int, Variant)>,
    bs: Seq<((Int, Int), Discriminator)>,
    tag_ty: IntType,
    tag_offset: u64,
) -> bool {
    &&& forall|i: int| 0 <= i < vs.len() ==> (#[trigger] vs[i]).1.tagger == List::Cons(
        Box::new((Size { bytes: tag_offset }, (tag_ty, vs[i].0))),
        Box::new(List::Nil),
    )
    &&& forall|k: int| 0 <= k < bs.len() ==> (#[trigger] bs[k]).1 == Discriminator::Known(bs[k].0.0)
        && bs[k].0.1 == int_of(bs[k].0.0@ + 1)
    &&& forall|i: int| 0 <= i < vs.len() ==> exists|k: int| 0 <= k < bs.len() && (#[trigger] bs[k]).0.0 == (#[trigger] vs[i]).0
    &&& forall|k: int| 0 <= k < bs.len() ==> exists|i: int| 0 <= i < vs.len() && (#[trigger] vs[i]).0 == (#[trigger] bs[k]).0.0
    &&& forall|i: int| 0 <= i < vs.len() ==> -limb() <= (#[trigger] vs[i]).0@ < limb()
}

/// Adding a variant with its branch keeps `direct_acc_ok`.
proof fn lemma_direct_step(
    vs: Seq<(Int, Variant)>,
    bs: Seq<((Int, Int), Discriminator)>,
    tag_ty: IntType,
    tag_offset: u64,
    d: Int,
    variant: Variant,
)
    requires
        direct_acc_ok(vs, bs, tag_ty, tag_offset),
        -limb() <= d@ < limb(),
        variant.tagger == List::Cons(Box::new((Size { bytes: tag_offset }, (tag_ty, d))), Box::new(List::Nil)),
    ensures
        direct_acc_ok(
            assoc_insert(vs, d, variant),
            assoc_insert(bs, (d, int_of(d@ + 1)), Discriminator::Known(d)),
            tag_ty,
            tag_offset,
        ),
{
    let key = (d, int_of(d@ + 1));
    let vs2 = assoc_insert(vs, d, variant);
    let bs2 = assoc_insert(bs, key, Discriminator::Known(d));
    lemma_assoc_insert(vs, d, variant);
    lemma_assoc_insert(bs, key, Discriminator::Known(d));
    let ki = choose|i: int| 0 <= i < bs2.len() && bs2[i] == (key, Discriminator::Known(d));
    let vi = choose|i: int| 0 <= i < vs2.len() && vs2[i] == (d, variant);
    assert forall|i: int| 0 <= i < vs2.len() implies (#[trigger] vs2[i]).1.tagger == List::Cons(
        Box::new((Size { bytes: tag_offset }, (tag_ty, vs2[i].0))),
        Box::new(List::Nil),
    ) by {
        if vs2[i] != (d, variant) {
            assert(vs2[i] == vs[i]);
        }
    }
    assert forall|i: int| 0 <= i < vs2.len() implies -limb() <= (#[trigger] vs2[i]).0@ < limb() by {
        if vs2[i] != (d, variant) {
            assert(vs2[i] == vs[i]);
        }
    }
    assert forall|k: int| 0 <= k < bs2.len() implies (#[trigger] bs2[k]).1 == Discriminator::Known(bs2[k].0.0)
        && bs2[k].0.1 == int_of(bs2[k].0.0@ + 1) by {
        if bs2[k] != (key, Discriminator::Known(d)) {
            assert(bs2[k] == bs[k]);
        }
    }
    assert forall|i: int| 0 <= i < vs2.len() implies exists|k: int| 0 <= k < bs2.len() && (#[trigger] bs2[k]).0.0 == (#[trigger] vs2[i]).0 by {
        if vs2[i] == (d, variant) {
            assert(bs2[ki].0.0 == vs2[i].0);
        } else {
            assert(vs2[i] == vs[i]);
            let k0 = choose|k: int| 0 <= k < bs.len() && (#[trigger] bs[k]).0.0 == (#[trigger] vs[i]).0;
            if bs2[k0] == (key, Discriminator::Known(d)) {
                assert(bs2[k0].0.0 == vs2[i].0);
            } else {
                assert(bs2[k0] == bs[k0]);
                assert(bs2[k0].0.0 == vs2[i].0);
            }
        }
    }
    assert forall|k: int| 0 <= k < bs2.len() implies exists|i: int| 0 <= i < vs2.len() && (#[trigger] vs2[i]).0 == (#[trigger] bs2[k]).0.0 by {
        if bs2[k] == (key, Discriminator::Known(d)) {
            assert(vs2[vi].0 == bs2[k].0.0);
        } else {
            assert(bs2[k] == bs[k]);
            let i0 = choose|i: int| 0 <= i < vs.len() && (#[trigger] vs[i]).0 == (#[trigger] bs[k]).0.0;
            if vs2[i0] == (d, variant) {
                assert(vs2[i0].0 == bs2[k].0.0);
            } else {
                assert(vs2[i0] == vs[i0]);
                assert(vs2[i0].0 == bs2[k].0.0);
            }
        }
    }
}

/// Under direct tagging, the variants and branches built so far satisfy
/// `direct_acc_ok`.
#[verifier::rlimit(40)]
proof fn lemma_direct_acc(tys: Seq<RsTy>, id: int, n: nat)
    requires
        0 <= id < tys.len(),
        spec_enum_acc(tys, id, n) is Some,
        tys[id].layout.variants matches RsVariants::Multiple { encoding: RsTagEncoding::Direct, .. },
        tys[id].kind matches RsTyKind::Enum { discriminant_ty, .. } && 1 <= discriminant_ty.bytes <= 16,
    ensures
        match tys[id].layout.variants {
            RsVariants::Multiple { tag, tag_offset, .. } => direct_acc_ok(
                spec_enum_acc(tys, id, n).unwrap().0,
                spec_enum_acc(tys, id, n).unwrap().1,
                spec_int_ty(tag.ity),
                tag_offset,
            ),
            _ => true,
        },
    decreases n,
{
    if n > 0 {
        lemma_direct_acc(tys, id, (n - 1) as nat);
        match (tys[id].kind, tys[id].layout.variants) {
            (RsTyKind::Enum { variants, discriminant_ty }, RsVariants::Multiple { tag, tag_offset, variant_offsets, .. }) => {
                let (vs, bs) = spec_enum_acc(tys, id, (n - 1) as nat).unwrap();
                let j = n - 1;
                let d = spec_int_from_bits(variants@[j].discr_bits as int, discriminant_ty);
                let tag_ty = spec_int_ty(tag.ity);
                let shape = match variant_offsets@[j] {
                    Some(v) => Some(v@),
                    None => None,
                };
                let fields = crate::ty::spec_fields(tys, id, variants@[j].fields@, shape, 0).unwrap();
                let variant = Variant {
                    ty: Type::Tuple {
                        fields,
                        size: Size { bytes: tys[id].layout.size },
                        align: Align { bytes: tys[id].layout.align },
                    },
                    tagger: List::Cons(Box::new((Size { bytes: tag_offset }, (tag_ty, d))), Box::new(List::Nil)),
                };
                crate::num::lemma_wrap_bounds(
                    variants@[j].discr_bits as int,
                    discriminant_ty.signed,
                    (8 * discriminant_ty.bytes) as nat,
                );
                crate::num::lemma_int_of_view(
                    wrap_to_bits(variants@[j].discr_bits as int, discriminant_ty.signed, (8 * discriminant_ty.bytes) as nat),
                );
                lemma_direct_step(vs, bs, tag_ty, tag_offset, d, variant);
            },
            _ => {},
        }
    }
}


/// Under direct tagging the tag reads back what it was written: each
/// variant's tagger writes exactly its discriminant, in the tag's type at the
/// tag's offset, and the discriminator reads that value as the same
/// discriminant; a tag value that is no variant's discriminant is invalid.
pub proof fn law_direct_tag_read_back(tys: Seq<RsTy>, id: int)
    requires
        spec_enum(tys, id) is Some,
        tys[id].layout.variants matches RsVariants::Multiple { encoding: RsTagEncoding::Direct, .. },
    ensures
        (spec_enum(tys, id).unwrap() matches Type::Enum {
            variants,
            discriminator: Discriminator::Branch { offset, value_type, fallback, children },
            ..
        } && *fallback == Discriminator::Invalid && (forall|i: int|
            0 <= i < variants.to_seq().len() ==> {
                &&& (#[trigger] variants.to_seq()[i]).1.tagger == List::Cons(
                    Box::new((offset, (value_type, variants.to_seq()[i].0))),
                    Box::new(List::Nil),
                )
                &&& branches_read(children.to_seq(), variants.to_seq()[i].0@, variants.to_seq()[i].0)
            }) && (forall|k: int|
            0 <= k < children.to_seq().len() ==> {
                &&& (#[trigger] children.to_seq()[k]).0.1@ == children.to_seq()[k].0.0@ + 1
                &&& exists|i: int| 0 <= i < variants.to_seq().len() && (#[trigger] variants.to_seq()[i]).0 == children.to_seq()[k].0.0
            })),
{
    let t = tys[id];
    match (t.kind, t.layout.variants) {
        (RsTyKind::Enum { variants, discriminant_ty }, RsVariants::Multiple { tag, encoding, tag_offset, .. }) => {
            let (vs, bs) = spec_enum_acc(tys, id, variants.len() as nat).unwrap();
            lemma_direct_acc(tys, id, variants.len() as nat);
            crate::lang::lemma_list_from_seq_to_seq(vs);
            crate::lang::lemma_list_from_seq_to_seq(bs);
            assert forall|i: int| 0 <= i < vs.len() implies branches_read(bs, (#[trigger] vs[i]).0@, vs[i].0) by {
                let d = vs[i].0;
                let k0 = choose|k: int| 0 <= k < bs.len() && (#[trigger] bs[k]).0.0 == (#[trigger] vs[i]).0;
                crate::num::lemma_int_of_view(d@ + 1);
                assert(bs[k0].0.0@ <= d@ < bs[k0].0.1@);
                assert forall|k: int| 0 <= k < bs.len() && (#[trigger] bs[k]).0.0@ <= d@ < bs[k].0.1@ implies bs[k].1
                    == Discriminator::Known(d) by {
                    let e = bs[k].0.0;
                    let i1 = choose|i1: int| 0 <= i1 < vs.len() && (#[trigger] vs[i1]).0 == (#[trigger] bs[k]).0.0;
                    assert(-limb() <= vs[i1].0@ < limb());
                    crate::num::lemma_int_of_view(e@ + 1);
                    crate::num::lemma_int_eq_iff_view_eq(e, d);
                }
            }
            assert forall|k: int| 0 <= k < bs.len() implies (#[trigger] bs[k]).0.1@ == bs[k].0.0@ + 1 by {
                let e = bs[k].0.0;
                let i1 = choose|i1: int| 0 <= i1 < vs.len() && (#[trigger] vs[i1]).0 == (#[trigger] bs[k]).0.0;
                assert(-limb() <= vs[i1].0@ < limb());
                crate::num::lemma_int_of_view(e@ + 1);
            }
        },
        _ => {},
    }
}


/// Inserting keeps the keys of an association list distinct.
proof fn lemma_assoc_insert_distinct<K, V>(s: Seq<(K, V)>, k: K, v: V)
    requires
        forall|a: int, b: int| 0 <= a < s.len() && 0 <= b < s.len() && a != b ==> (#[trigger] s[a]).0 != (#[trigger] s[b]).0,
    ensures
        forall|a: int, b: int|
            0 <= a < assoc_insert(s, k, v).len() && 0 <= b < assoc_insert(s, k, v).len() && a != b
                ==> (#[trigger] assoc_insert(s, k, v)[a]).0 != (#[trigger] assoc_insert(s, k, v)[b]).0,
{
    lemma_key_index(s, k, 0);
    lemma_key_index_none(s, k, 0);
    let r = assoc_insert(s, k, v);
    assert forall|a: int, b: int| 0 <= a < r.len() && 0 <= b < r.len() && a != b implies (#[trigger] r[a]).0 != (#[trigger] r[b]).0 by {
        if key_index(s, k, 0) >= 0 {
            assert(r[a].0 == s[a].0);
            assert(r[b].0 == s[b].0);
        } else {
            if a < s.len() && b < s.len() {
                assert(r[a] == s[a] && r[b] == s[b]);
            } else if a < s.len() {
                assert(r[a] == s[a]);
                assert(s[a].0 != k);
            } else {
                assert(r[b] == s[b]);
                assert(s[b].0 != k);
            }
        }
    }
}

/// Without an entry at or after `i`, no entry from `i` on has the key.
proof fn lemma_key_index_none<K, V>(s: Seq<(K, V)>, k: K, i: int)
    requires
        0 <= i,
    ensures
        key_index(s, k, i) < 0 ==> forall|j: int| i <= j < s.len() ==> (#[trigger] s[j]).0 != k,
    decreases s.len() - i,
{
    if i < s.len() && s[i].0 != k {
        lemma_key_index_none(s, k, i + 1);
    }
}

/// The tag value that variant `j` of the niche-encoded enum type `id` writes.
pub open spec fn variant_niche_tag(tys: Seq<RsTy>, id: int, j: int) -> Int {
    match (tys[id].kind, tys[id].layout.variants) {
        (
            RsTyKind::Enum { variants, .. },
            RsVariants::Multiple { tag, encoding: RsTagEncoding::Niche { niche_variants_start, niche_start, .. }, .. },
        ) => int_of(
            wrap_to_bits(
                spec_int_from_bits(variants@[j].discr_bits as int, tag.ity)@ - niche_variants_start + niche_start,
                tag.ity.signed,
                (8 * tag.ity.bytes) as nat,
            ),
        ),
        _ => int_of(0),
    }
}

/// Variant `j` of the niche-encoded enum type `id` is one of the first `n`,
/// and writes a tag.
pub open spec fn is_tagged(tys: Seq<RsTy>, id: int, j: int, n: int) -> bool {
    match tys[id].layout.variants {
        RsVariants::Multiple { encoding: RsTagEncoding::Niche { untagged_variant, .. }, .. } => 0 <= j < n && j
            != untagged_variant,
        _ => false,
    }
}

/// A tagger that writes `t` in type `ty` at offset `off`.
pub open spec fn one_tag(off: u64, ty: IntType, t: Int) -> List<(Size, (IntType, Int))> {
    List::Cons(Box::new((Size { bytes: off }, (ty, t))), Box::new(List::Nil))
}

/// The value the first entry of a tagger writes.
pub open spec fn tag_written(tagger: List<(Size, (IntType, Int))>) -> Int {
    match tagger {
        List::Cons(e, _) => e.1.1,
        List::Nil => int_of(0),
    }
}

/// The key of the branch for the one tag value `t`.
pub open spec fn one_value(t: Int) -> (Int, Int) {
    (t, int_of(t@ + 1))
}

/// `t` is the tag of a tagged variant among the first `n`.
pub open spec fn tag_of_tagged(tys: Seq<RsTy>, id: int, n: int, t: Int) -> bool {
    exists|j: int| #[trigger] is_tagged(tys, id, j, n) && t == variant_niche_tag(tys, id, j)
}

/// A variant entry under niche tagging: its tagger writes nothing, or writes
/// the tag of a tagged variant, for which there is a branch to its discriminant.
pub open spec fn niche_entry_ok(
    tys: Seq<RsTy>,
    id: int,
    n: int,
    bs: Seq<((Int, Int), Discriminator)>,
    off: u64,
    tag_ty: IntType,
    e: (Int, Variant),
) -> bool {
    let t = tag_written(e.1.tagger);
    e.1.tagger == List::<(Size, (IntType, Int))>::Nil || {
        &&& e.1.tagger == one_tag(off, tag_ty, t)
        &&& tag_of_tagged(tys, id, n, t)
        &&& bs.contains((one_value(t), Discriminator::Known(e.0)))
    }
}

/// The variants and branches after `n` variants under niche tagging: every
/// variant entry is as above, every branch is for the tag of a tagged
/// variant, and the branches have distinct keys.
pub open spec fn niche_acc_ok(
    tys: Seq<RsTy>,
    id: int,
    n: int,
    vs: Seq<(Int, Variant)>,
    bs: Seq<((Int, Int), Discriminator)>,
    off: u64,
    tag_ty: IntType,
) -> bool {
    &&& forall|i: int| 0 <= i < vs.len() ==> niche_entry_ok(tys, id, n, bs, off, tag_ty, #[trigger] vs[i])
    &&& forall|k: int|
        0 <= k < bs.len() ==> tag_of_tagged(tys, id, n, (#[trigger] bs[k]).0.0) && bs[k].0 == one_value(bs[k].0.0)
    &&& forall|a: int, b: int| 0 <= a < bs.len() && 0 <= b < bs.len() && a != b ==> (#[trigger] bs[a]).0 != (#[trigger] bs[b]).0
}

/// The tags of the tagged variants among the first `n` are distinct.
pub open spec fn niche_tags_distinct(tys: Seq<RsTy>, id: int, n: int) -> bool {
    forall|j1: int, j2: int|
        is_tagged(tys, id, j1, n) && is_tagged(tys, id, j2, n) && j1 != j2 ==> #[trigger] variant_niche_tag(tys, id, j1)
            != #[trigger] variant_niche_tag(tys, id, j2)
}

/// A tag of a tagged variant among the first `n - 1` is one among the first `n`.
proof fn lemma_tagged_grow(tys: Seq<RsTy>, id: int, n: int, t: Int)
    requires
        tag_of_tagged(tys, id, n - 1, t),
    ensures
        tag_of_tagged(tys, id, n, t),
{
    let j = choose|j: int| #[trigger] is_tagged(tys, id, j, n - 1) && t == variant_niche_tag(tys, id, j);
    assert(is_tagged(tys, id, j, n));
}

/// Adding a variant keeps `niche_acc_ok`: a tagged one (the `n - 1`-th, with
/// its branch) or the untagged one (with no branch).
proof fn lemma_niche_step(
    tys: Seq<RsTy>,
    id: int,
    n: int,
    vs: Seq<(Int, Variant)>,
    bs: Seq<((Int, Int), Discriminator)>,
    off: u64,
    tag_ty: IntType,
    d: Int,
    variant: Variant,
    bs2: Seq<((Int, Int), Discriminator)>,
)
    requires
        niche_acc_ok(tys, id, n - 1, vs, bs, off, tag_ty),
        niche_tags_distinct(tys, id, n),
        (is_tagged(tys, id, n - 1, n) && variant.tagger == one_tag(off, tag_ty, variant_niche_tag(tys, id, n - 1))
            && bs2 == assoc_insert(bs, one_value(variant_niche_tag(tys, id, n - 1)), Discriminator::Known(d))) || (
        variant.tagger == List::<(Size, (IntType, Int))>::Nil && bs2 == bs),
    ensures
        niche_acc_ok(tys, id, n, assoc_insert(vs, d, variant), bs2, off, tag_ty),
{
    let vs2 = assoc_insert(vs, d, variant);
    lemma_assoc_insert(vs, d, variant);
    let tagged = variant.tagger != List::<(Size, (IntType, Int))>::Nil;
    let t = variant_niche_tag(tys, id, n - 1);
    let entry = (one_value(t), Discriminator::Known(d));
    if tagged {
        lemma_assoc_insert(bs, one_value(t), Discriminator::Known(d));
        lemma_assoc_insert_distinct(bs, one_value(t), Discriminator::Known(d));
        // An old branch is never replaced: its tag belongs to an earlier tagged variant.
        assert forall|k: int| 0 <= k < bs.len() implies #[trigger] bs2[k] == bs[k] by {
            assert(tag_of_tagged(tys, id, n - 1, bs[k].0.0));
            let j = choose|j: int| #[trigger] is_tagged(tys, id, j, n - 1) && bs[k].0.0 == variant_niche_tag(tys, id, j);
            assert(is_tagged(tys, id, j, n));
            assert(variant_niche_tag(tys, id, j) != variant_niche_tag(tys, id, n - 1));
            if bs2[k] != bs[k] {
                assert(bs2[k] == entry);
            }
        }
        assert(tag_written(variant.tagger) == t);
        assert(tag_of_tagged(tys, id, n, t));
        let ki = choose|k: int| 0 <= k < bs2.len() && bs2[k] == entry;
        assert(bs2.contains(entry));
    } else {
        assert(bs2 == bs);
    }
    assert forall|i: int| 0 <= i < vs2.len() implies niche_entry_ok(tys, id, n, bs2, off, tag_ty, #[trigger] vs2[i]) by {
        if vs2[i] != (d, variant) {
            assert(vs2[i] == vs[i]);
            assert(niche_entry_ok(tys, id, n - 1, bs, off, tag_ty, vs[i]));
            if vs[i].1.tagger != List::<(Size, (IntType, Int))>::Nil {
                let tv = tag_written(vs[i].1.tagger);
                lemma_tagged_grow(tys, id, n, tv);
                let k = choose|k: int| 0 <= k < bs.len() && bs[k] == (one_value(tv), Discriminator::Known(vs[i].0));
                assert(bs2[k] == bs[k]);
                assert(bs2.contains((one_value(tv), Discriminator::Known(vs2[i].0))));
            }
        }
    }
    assert forall|k: int| 0 <= k < bs2.len() implies tag_of_tagged(tys, id, n, (#[trigger] bs2[k]).0.0) && bs2[k].0 == one_value(
        bs2[k].0.0,
    ) by {
        if tagged && bs2[k] == entry {
            assert(is_tagged(tys, id, n - 1, n));
        } else {
            assert(bs2[k] == bs[k]);
            lemma_tagged_grow(tys, id, n, bs[k].0.0);
        }
    }
}


/// Under niche tagging, the variants and branches built so far satisfy
/// `niche_acc_ok`, if the tags of the tagged variants are distinct.
#[verifier::rlimit(40)]
proof fn lemma_niche_acc(tys: Seq<RsTy>, id: int, n: nat)
    requires
        0 <= id < tys.len(),
        spec_enum_acc(tys, id, n) is Some,
        tys[id].layout.variants matches RsVariants::Multiple { encoding: RsTagEncoding::Niche { .. }, .. },
        niche_tags_distinct(tys, id, n as int),
    ensures
        match tys[id].layout.variants {
            RsVariants::Multiple { tag, tag_offset, .. } => niche_acc_ok(
                tys,
                id,
                n as int,
                spec_enum_acc(tys, id, n).unwrap().0,
                spec_enum_acc(tys, id, n).unwrap().1,
                tag_offset,
                spec_int_ty(tag.ity),
            ),
            _ => true,
        },
    decreases n,
{
    if n > 0 {
        assert(niche_tags_distinct(tys, id, n - 1)) by {
            assert forall|j1: int, j2: int|
                is_tagged(tys, id, j1, n - 1) && is_tagged(tys, id, j2, n - 1) && j1 != j2 implies #[trigger] variant_niche_tag(
                tys,
                id,
                j1,
            ) != #[trigger] variant_niche_tag(tys, id, j2) by {
                assert(is_tagged(tys, id, j1, n as int) && is_tagged(tys, id, j2, n as int));
            }
        }
        lemma_niche_acc(tys, id, (n - 1) as nat);
        match (tys[id].kind, tys[id].layout.variants) {
            (
                RsTyKind::Enum { variants, discriminant_ty },
                RsVariants::Multiple {
                    tag,
                    tag_offset,
                    variant_offsets,
                    encoding: RsTagEncoding::Niche { untagged_variant, niche_variants_start, niche_start },
                },
            ) => {
                let (vs, bs) = spec_enum_acc(tys, id, (n - 1) as nat).unwrap();
                let j = n - 1;
                let tag_ty = spec_int_ty(tag.ity);
                let shape = match variant_offsets@[j] {
                    Some(v) => Some(v@),
                    None => None,
                };
                let fields = crate::ty::spec_fields(tys, id, variants@[j].fields@, shape, 0).unwrap();
                let vty = Type::Tuple {
                    fields,
                    size: Size { bytes: tys[id].layout.size },
                    align: Align { bytes: tys[id].layout.align },
                };
                if untagged_variant != j {
                    let d = spec_int_from_bits(variants@[j].discr_bits as int, tag.ity);
                    let t = variant_niche_tag(tys, id, j);
                    let variant = Variant { ty: vty, tagger: one_tag(tag_offset, tag_ty, t) };
                    assert(is_tagged(tys, id, j, n as int));
                    lemma_niche_step(
                        tys,
                        id,
                        n as int,
                        vs,
                        bs,
                        tag_offset,
                        tag_ty,
                        d,
                        variant,
                        assoc_insert(bs, one_value(t), Discriminator::Known(d)),
                    );
                } else {
                    let d = spec_int_from_bits(variants@[j].discr_bits as int, discriminant_ty);
                    let variant = Variant { ty: vty, tagger: List::Nil };
                    lemma_niche_step(tys, id, n as int, vs, bs, tag_offset, tag_ty, d, variant, bs);
                }
            },
            _ => {},
        }
    }
}

/// Tag value `v` is a valid value of the tag (whose valid range may wrap around).
pub open spec fn in_valid_range(tag: RsTag, v: int) -> bool {
    let start = spec_int_from_bits(tag.valid_start as int, tag.ity)@;
    let end = spec_int_from_bits(tag.valid_end as int, tag.ity)@;
    if start <= end {
        start <= v <= end
    } else {
        v >= start || v <= end
    }
}

/// The tags of the tagged variants of the niche-encoded enum type `id` are
/// distinct valid values of its tag.
pub open spec fn niche_tags_valid(tys: Seq<RsTy>, id: int) -> bool {
    match (tys[id].kind, tys[id].layout.variants) {
        (RsTyKind::Enum { variants, .. }, RsVariants::Multiple { tag, .. }) => {
            &&& niche_tags_distinct(tys, id, variants.len() as int)
            &&& forall|j: int|
                is_tagged(tys, id, j, variants.len() as int) ==> in_valid_range(tag, (#[trigger] variant_niche_tag(tys, id, j))@)
        },
        _ => false,
    }
}

/// `b` is `bs` followed by branches to `Invalid` whose ranges hold no valid
/// value of the tag.
pub open spec fn extends_invalid(
    bs: Seq<((Int, Int), Discriminator)>,
    b: Seq<((Int, Int), Discriminator)>,
    tag: RsTag,
) -> bool {
    &&& b.len() >= bs.len()
    &&& forall|k: int| 0 <= k < bs.len() ==> #[trigger] b[k] == bs[k]
    &&& forall|k: int|
        bs.len() <= k < b.len() ==> (#[trigger] b[k]).1 == Discriminator::Invalid && forall|v: int|
            #[trigger] in_valid_range(tag, v) ==> !(b[k].0.0@ <= v < b[k].0.1@)
}

/// Inserting a new branch to `Invalid` whose range holds no valid value keeps `extends_invalid`.
proof fn lemma_push_invalid(
    bs: Seq<((Int, Int), Discriminator)>,
    b: Seq<((Int, Int), Discriminator)>,
    tag: RsTag,
    key: (Int, Int),
)
    requires
        extends_invalid(bs, b, tag),
        forall|k: int| 0 <= k < b.len() ==> (#[trigger] b[k]).0 != key,
        forall|v: int| #[trigger] in_valid_range(tag, v) ==> !(key.0@ <= v < key.1@),
    ensures
        extends_invalid(bs, assoc_insert(b, key, Discriminator::Invalid), tag),
        assoc_insert(b, key, Discriminator::Invalid) == b.push((key, Discriminator::Invalid)),
{
    lemma_key_index(b, key, 0);
    assert(key_index(b, key, 0) < 0);
    let r = assoc_insert(b, key, Discriminator::Invalid);
    assert(r == b.push((key, Discriminator::Invalid)));
    assert forall|k: int| 0 <= k < bs.len() implies #[trigger] r[k] == bs[k] by {
        assert(r[k] == b[k]);
    }
    assert forall|k: int| bs.len() <= k < r.len() implies (#[trigger] r[k]).1 == Discriminator::Invalid && forall|v: int|
        #[trigger] in_valid_range(tag, v) ==> !(r[k].0.0@ <= v < r[k].0.1@) by {
        if k < b.len() {
            assert(r[k] == b[k]);
        }
    }
}

/// Under niche tagging, a tagged variant's tag reads back as its
/// discriminant, when the tags of the tagged variants are distinct valid
/// values of the tag: its tagger writes the tag in the tag's type at the
/// tag's offset, and the discriminator's branches read that value as the
/// variant's discriminant. Tag values that no branch holds read as the
/// untagged variant, by the fallback.
#[verifier::rlimit(60)]
pub proof fn law_niche_tag_read_back(tys: Seq<RsTy>, id: int)
    requires
        spec_enum(tys, id) is Some,
        tys[id].layout.variants matches RsVariants::Multiple { encoding: RsTagEncoding::Niche { .. }, .. },
        niche_tags_valid(tys, id),
    ensures
        (spec_enum(tys, id).unwrap() matches Type::Enum {
            variants,
            discriminator: Discriminator::Branch { offset, value_type, fallback, children },
            ..
        } && (tys[id].layout.variants matches RsVariants::Multiple {
            encoding: RsTagEncoding::Niche { untagged_variant, .. },
            ..
        } && *fallback == Discriminator::Known(int_of(untagged_variant as int))) && (forall|i: int|
            0 <= i < variants.to_seq().len() && (#[trigger] variants.to_seq()[i]).1.tagger != List::<
                (Size, (IntType, Int)),
            >::Nil ==> {
                &&& variants.to_seq()[i].1.tagger == one_tag(offset.bytes, value_type, tag_written(variants.to_seq()[i].1.tagger))
                &&& branches_read(
                    children.to_seq(),
                    tag_written(variants.to_seq()[i].1.tagger)@,
                    variants.to_seq()[i].0,
                )
            })),
{
    let t = tys[id];
    match (t.kind, t.layout.variants) {
        (
            RsTyKind::Enum { variants, discriminant_ty },
            RsVariants::Multiple { tag, encoding, tag_offset, .. },
        ) => {
            let n = variants.len() as nat;
            let (vs, bs) = spec_enum_acc(tys, id, n).unwrap();
            let tag_ty = spec_int_ty(tag.ity);
            lemma_niche_acc(tys, id, n);
            let (bs2, fb) = spec_enum_fallback(bs, tag, encoding);
            crate::lang::lemma_list_from_seq_to_seq(vs);
            crate::lang::lemma_list_from_seq_to_seq(bs2);
            let bits = (8 * tag.ity.bytes) as nat;
            crate::num::lemma_wrap_bounds(tag.valid_start as int, tag.ity.signed, bits);
            crate::num::lemma_wrap_bounds(tag.valid_end as int, tag.ity.signed, bits);
            crate::num::lemma_wrap_bounds(0, tag.ity.signed, (bits - 1) as nat);
            let start = spec_int_from_bits(tag.valid_start as int, tag.ity);
            let end = spec_int_from_bits(tag.valid_end as int, tag.ity);
            crate::num::lemma_int_of_view(wrap_to_bits(tag.valid_start as int, tag.ity.signed, bits));
            crate::num::lemma_int_of_view(wrap_to_bits(tag.valid_end as int, tag.ity.signed, bits));
            crate::num::lemma_int_of_view(end@ + 1);
            // Every branch so far is for a valid tag value.
            assert forall|k: int| 0 <= k < bs.len() implies in_valid_range(tag, (#[trigger] bs[k]).0.0@) && -limb() <= bs[k].0.0@ < limb() by {
                assert(tag_of_tagged(tys, id, n as int, bs[k].0.0));
                let j = choose|j: int| #[trigger] is_tagged(tys, id, j, n as int) && bs[k].0.0 == variant_niche_tag(tys, id, j);
                assert(in_valid_range(tag, variant_niche_tag(tys, id, j)@));
                match encoding {
                    RsTagEncoding::Niche { niche_variants_start, niche_start, .. } => {
                        let x = spec_int_from_bits(variants@[j].discr_bits as int, tag.ity)@ - niche_variants_start + niche_start;
                        crate::num::lemma_wrap_bounds(x, tag.ity.signed, bits);
                        crate::num::lemma_int_of_view(wrap_to_bits(x, tag.ity.signed, bits));
                    },
                    _ => {},
                }
            }
            assert(extends_invalid(bs, bs, tag));
            // The branches added for the invalid tag values hold no valid value.
            if start@ <= end@ {
                let min = int_min(tag.ity);
                let max = int_max(tag.ity);
                let key1 = (int_of(end@ + 1), int_of(max + 1));
                let b1 = if end@ < max {
                    let key = key1;
                    assert forall|k: int| 0 <= k < bs.len() implies (#[trigger] bs[k]).0 != key by {
                        assert(in_valid_range(tag, bs[k].0.0@));
                    }
                    lemma_push_invalid(bs, bs, tag, key);
                    assoc_insert(bs, key, Discriminator::Invalid)
                } else {
                    bs
                };
                if min < start@ {
                    let key = (int_of(min), start);
                    assert forall|k: int| 0 <= k < b1.len() implies (#[trigger] b1[k]).0 != key by {
                        if k < bs.len() {
                            assert(b1[k] == bs[k]);
                            crate::num::lemma_int_of_view(bs[k].0.0@ + 1);
                            assert(bs[k].0 == one_value(bs[k].0.0));
                        } else {
                            assert(end@ < max);
                            assert(b1 == bs.push((key1, Discriminator::Invalid)));
                            assert(b1[k] == (key1, Discriminator::Invalid));
                            crate::num::lemma_int_of_view(min);
                            assert(int_of(min)@ != int_of(end@ + 1)@);
                        }
                    }
                    lemma_push_invalid(bs, b1, tag, key);
                }
            } else if end@ + 1 < start@ {
                let key = (int_of(end@ + 1), start);
                assert forall|k: int| 0 <= k < bs.len() implies (#[trigger] bs[k]).0 != key by {
                    assert(in_valid_range(tag, bs[k].0.0@));
                }
                lemma_push_invalid(bs, bs, tag, key);
            }
            assert(extends_invalid(bs, bs2, tag));
            assert forall|i: int| 0 <= i < vs.len() && (#[trigger] vs[i]).1.tagger != List::<(Size, (IntType, Int))>::Nil implies {
                &&& vs[i].1.tagger == one_tag(tag_offset, tag_ty, tag_written(vs[i].1.tagger))
                &&& branches_read(bs2, tag_written(vs[i].1.tagger)@, vs[i].0)
            } by {
                assert(niche_entry_ok(tys, id, n as int, bs, tag_offset, tag_ty, vs[i]));
                let tv = tag_written(vs[i].1.tagger);
                let d = vs[i].0;
                let k0 = choose|k: int| 0 <= k < bs.len() && bs[k] == (one_value(tv), Discriminator::Known(d));
                assert(bs2[k0] == bs[k0]);
                assert(in_valid_range(tag, bs[k0].0.0@) && -limb() <= bs[k0].0.0@ < limb());
                crate::num::lemma_int_of_view(tv@ + 1);
                assert(bs2[k0].0.0@ <= tv@ < bs2[k0].0.1@);
                assert forall|k: int| 0 <= k < bs2.len() && (#[trigger] bs2[k]).0.0@ <= tv@ < bs2[k].0.1@ implies bs2[k].1
                    == Discriminator::Known(d) by {
                    if k < bs.len() {
                        assert(bs2[k] == bs[k]);
                        let t2 = bs[k].0.0;
                        assert(bs[k].0 == one_value(t2));
                        assert(-limb() <= bs[k].0.0@ < limb());
                        crate::num::lemma_int_of_view(t2@ + 1);
                        crate::num::lemma_int_eq_iff_view_eq(t2, tv);
                        if k != k0 {
                            assert(bs[k].0 != bs[k0].0);
                        }
                    } else {
                        assert(in_valid_range(tag, tv@));
                    }
                }
            }
        },
        _ => {},
    }
}


/// Under direct tagging, after `n` variants: the branches have distinct
/// keys, and each of the first `n` variants' discriminants is a variant key.
#[verifier::rlimit(40)]
proof fn lemma_direct_keys(tys: Seq<RsTy>, id: int, n: nat)
    requires
        0 <= id < tys.len(),
        spec_enum_acc(tys, id, n) is Some,
        tys[id].layout.variants matches RsVariants::Multiple { encoding: RsTagEncoding::Direct, .. },
    ensures
        ({
            let (vs, bs) = spec_enum_acc(tys, id, n).unwrap();
            &&& forall|a: int, b: int| 0 <= a < bs.len() && 0 <= b < bs.len() && a != b ==> (#[trigger] bs[a]).0 != (#[trigger] bs[b]).0
            &&& tys[id].kind matches RsTyKind::Enum { variants, discriminant_ty } ==> forall|j: int|
                0 <= j < n ==> exists|i: int|
                    0 <= i < vs.len() && (#[trigger] vs[i]).0 == spec_int_from_bits(
                        (#[trigger] variants@[j]).discr_bits as int,
                        discriminant_ty,
                    )
        }),
    decreases n,
{
    if n > 0 {
        lemma_direct_keys(tys, id, (n - 1) as nat);
        match (tys[id].kind, tys[id].layout.variants) {
            (RsTyKind::Enum { variants, discriminant_ty }, RsVariants::Multiple { tag, tag_offset, variant_offsets, .. }) => {
                let (vs, bs) = spec_enum_acc(tys, id, (n - 1) as nat).unwrap();
                let (vs2, bs2) = spec_enum_acc(tys, id, n).unwrap();
                let j = n - 1;
                let d = spec_int_from_bits(variants@[j].discr_bits as int, discriminant_ty);
                let shape = match variant_offsets@[j] {
                    Some(v) => Some(v@),
                    None => None,
                };
                let fields = crate::ty::spec_fields(tys, id, variants@[j].fields@, shape, 0).unwrap();
                let variant = Variant {
                    ty: Type::Tuple {
                        fields,
                        size: Size { bytes: tys[id].layout.size },
                        align: Align { bytes: tys[id].layout.align },
                    },
                    tagger: List::Cons(Box::new((Size { bytes: tag_offset }, (spec_int_ty(tag.ity), d))), Box::new(List::Nil)),
                };
                let key = (d, int_of(d@ + 1));
                assert(vs2 == assoc_insert(vs, d, variant));
                assert(bs2 == assoc_insert(bs, key, Discriminator::Known(d)));
                lemma_assoc_insert(vs, d, variant);
                lemma_assoc_insert_distinct(bs, key, Discriminator::Known(d));
                assert forall|jj: int| 0 <= jj < n implies exists|i: int|
                    0 <= i < vs2.len() && (#[trigger] vs2[i]).0 == spec_int_from_bits(
                        (#[trigger] variants@[jj]).discr_bits as int,
                        discriminant_ty,
                    ) by {
                    if jj == j {
                        let i = choose|i: int| 0 <= i < vs2.len() && vs2[i] == (d, variant);
                        assert(vs2[i].0 == d);
                    } else {
                        let i = choose|i: int|
                            0 <= i < vs.len() && (#[trigger] vs[i]).0 == spec_int_from_bits(variants@[jj].discr_bits as int, discriminant_ty);
                        assert(vs2[i].0 == vs[i].0);
                    }
                }
            },
            _ => {},
        }
    }
}

/// Under direct tagging, the discriminator's branches do not overlap: no
/// tag value lies in the ranges of two branches.
pub proof fn law_direct_branches_disjoint(tys: Seq<RsTy>, id: int)
    requires
        spec_enum(tys, id) is Some,
        tys[id].layout.variants matches RsVariants::Multiple { encoding: RsTagEncoding::Direct, .. },
    ensures
        (spec_enum(tys, id).unwrap() matches Type::Enum { discriminator: Discriminator::Branch { children, .. }, .. }
            && forall|a: int, b: int|
            0 <= a < children.to_seq().len() && 0 <= b < children.to_seq().len() && a != b ==> (#[trigger] children.to_seq()[a]).0.1@
                <= children.to_seq()[b].0.0@ || (#[trigger] children.to_seq()[b]).0.1@ <= children.to_seq()[a].0.0@),
{
    let t = tys[id];
    match (t.kind, t.layout.variants) {
        (RsTyKind::Enum { variants, .. }, RsVariants::Multiple { .. }) => {
            let n = variants.len() as nat;
            let (vs, bs) = spec_enum_acc(tys, id, n).unwrap();
            lemma_direct_acc(tys, id, n);
            lemma_direct_keys(tys, id, n);
            crate::lang::lemma_list_from_seq_to_seq(bs);
            assert forall|a: int, b: int| 0 <= a < bs.len() && 0 <= b < bs.len() && a != b implies (#[trigger] bs[a]).0.1@
                <= bs[b].0.0@ || (#[trigger] bs[b]).0.1@ <= bs[a].0.0@ by {
                let ia = choose|i: int| 0 <= i < vs.len() && (#[trigger] vs[i]).0 == bs[a].0.0;
                let ib = choose|i: int| 0 <= i < vs.len() && (#[trigger] vs[i]).0 == bs[b].0.0;
                assert(-limb() <= vs[ia].0@ < limb());
                assert(-limb() <= vs[ib].0@ < limb());
                crate::num::lemma_int_of_view(bs[a].0.0@ + 1);
                crate::num::lemma_int_of_view(bs[b].0.0@ + 1);
                crate::num::lemma_int_eq_iff_view_eq(bs[a].0.0, bs[b].0.0);
                assert(bs[a].0 != bs[b].0);
            }
        },
        _ => {},
    }
}

/// The key that variant `j` of the multi-variant enum type `id` gets in the
/// translated enum: its discriminant, read in the tag's type for a variant
/// with a niche tag, else in the discriminant's type.
pub open spec fn variant_key(tys: Seq<RsTy>, id: int, j: int) -> Int {
    match (tys[id].kind, tys[id].layout.variants) {
        (RsTyKind::Enum { variants, discriminant_ty }, RsVariants::Multiple { tag, encoding, .. }) => {
            let bits = variants@[j].discr_bits as int;
            match encoding {
                RsTagEncoding::Niche { untagged_variant, .. } => if untagged_variant != j {
                    spec_int_from_bits(bits, tag.ity)
                } else {
                    spec_int_from_bits(bits, discriminant_ty)
                },
                RsTagEncoding::Direct => spec_int_from_bits(bits, discriminant_ty),
            }
        },
        _ => int_of(0),
    }
}

/// The payload type of variant `j` of the multi-variant enum type `id`: the
/// tuple of its fields, laid out as the enum.
pub open spec fn variant_ty(tys: Seq<RsTy>, id: int, j: int) -> Type {
    match (tys[id].kind, tys[id].layout.variants) {
        (RsTyKind::Enum { variants, .. }, RsVariants::Multiple { variant_offsets, .. }) => {
            let shape = match variant_offsets@[j] {
                Some(v) => Some(v@),
                None => None,
            };
            Type::Tuple {
                fields: crate::ty::spec_fields(tys, id, variants@[j].fields@, shape, 0).unwrap(),
                size: Size { bytes: tys[id].layout.size },
                align: Align { bytes: tys[id].layout.align },
            }
        },
        _ => Type::Bool,
    }
}

/// After `n` variants of a multi-variant enum, each of them has an entry
/// under its key; the entry is its own where no later variant has the same key.
#[verifier::rlimit(40)]
proof fn lemma_variant_keys(tys: Seq<RsTy>, id: int, n: nat)
    requires
        0 <= id < tys.len(),
        spec_enum_acc(tys, id, n) is Some,
    ensures
        forall|j: int|
            0 <= j < n ==> exists|i: int|
                0 <= i < spec_enum_acc(tys, id, n).unwrap().0.len() && (#[trigger] spec_enum_acc(tys, id, n).unwrap().0[i]).0
                    == #[trigger] variant_key(tys, id, j) && ((forall|j2: int| j < j2 < n ==> variant_key(tys, id, j2) != variant_key(tys, id, j))
                    ==> spec_enum_acc(tys, id, n).unwrap().0[i].1.ty == variant_ty(tys, id, j)),
    decreases n,
{
    if n > 0 {
        lemma_variant_keys(tys, id, (n - 1) as nat);
        match (tys[id].kind, tys[id].layout.variants) {
            (RsTyKind::Enum { variants, discriminant_ty }, RsVariants::Multiple { tag, encoding, tag_offset, variant_offsets }) => {
                let (vs, bs) = spec_enum_acc(tys, id, (n - 1) as nat).unwrap();
                let (vs2, bs2) = spec_enum_acc(tys, id, n).unwrap();
                let j = n - 1;
                let key = variant_key(tys, id, j);
                let vty = variant_ty(tys, id, j);
                // The new entry is (key, a variant of payload type `vty`).
                let v = choose|v: Variant| vs2 == assoc_insert(vs, key, v) && v.ty == vty;
                lemma_assoc_insert(vs, key, v);
                assert forall|jj: int| 0 <= jj < n implies exists|i: int|
                    0 <= i < vs2.len() && (#[trigger] vs2[i]).0 == #[trigger] variant_key(tys, id, jj) && ((forall|j2: int|
                        jj < j2 < n ==> variant_key(tys, id, j2) != variant_key(tys, id, jj)) ==> vs2[i].1.ty == variant_ty(tys, id, jj)) by {
                    if jj == j {
                        let i = choose|i: int| 0 <= i < vs2.len() && vs2[i] == (key, v);
                        assert(vs2[i].0 == key);
                    } else {
                        let i = choose|i: int|
                            0 <= i < vs.len() && (#[trigger] vs[i]).0 == #[trigger] variant_key(tys, id, jj) && ((forall|j2: int|
                                jj < j2 < n - 1 ==> variant_key(tys, id, j2) != variant_key(tys, id, jj)) ==> vs[i].1.ty == variant_ty(
                                tys,
                                id,
                                jj,
                            ));
                        assert(vs2[i].0 == vs[i].0);
                        if forall|j2: int| jj < j2 < n ==> variant_key(tys, id, j2) != variant_key(tys, id, jj) {
                            assert(variant_key(tys, id, j) != variant_key(tys, id, jj));
                            if vs2[i] != vs[i] {
                                assert(vs2[i] == (key, v));
                            }
                        }
                    }
                }
            },
            _ => {},
        }
    }
}

/// The discriminant of every variant of a multi-variant enum is the key of
/// one of the translated enum's variants, where the variant reads its
/// discriminant the same in the tag's type as in the discriminant's (so
/// that looking a variant up by its discriminant, as enum aggregates and
/// constants do, finds one); and where no other variant has the same key,
/// the variant under that key has the variant's fields.
pub proof fn law_discriminant_is_key(tys: Seq<RsTy>, id: int, j: int)
    requires
        spec_enum(tys, id) is Some,
        tys[id].layout.variants is Multiple,
        tys[id].kind matches RsTyKind::Enum { variants, .. } && 0 <= j < variants.len(),
        spec_discriminant(tys, id, j) == Some(variant_key(tys, id, j)),
    ensures
        (spec_enum(tys, id).unwrap() matches Type::Enum { variants, .. } && exists|i: int|
            0 <= i < variants.to_seq().len() && (#[trigger] variants.to_seq()[i]).0 == spec_discriminant(tys, id, j).unwrap() && ((
            forall|j2: int| 0 <= j2 < variant_count(tys, id) && j2 != j ==> variant_key(tys, id, j2) != variant_key(tys, id, j))
                ==> variants.to_seq()[i].1.ty == variant_ty(tys, id, j))),
{
    let t = tys[id];
    match (t.kind, t.layout.variants) {
        (RsTyKind::Enum { variants, discriminant_ty }, RsVariants::Multiple { .. }) => {
            let n = variants.len() as nat;
            let (vs, bs) = spec_enum_acc(tys, id, n).unwrap();
            lemma_variant_keys(tys, id, n);
            crate::lang::lemma_list_from_seq_to_seq(vs);
            let i = choose|i: int|
                0 <= i < vs.len() && (#[trigger] vs[i]).0 == #[trigger] variant_key(tys, id, j) && ((forall|j2: int|
                    j < j2 < n ==> variant_key(tys, id, j2) != variant_key(tys, id, j)) ==> vs[i].1.ty == variant_ty(tys, id, j));
        },
        _ => {},
    }
}

/// The number of variants of enum type `id`.
pub open spec fn variant_count(tys: Seq<RsTy>, id: int) -> int {
    match tys[id].kind {
        RsTyKind::Enum { variants, .. } => variants.len() as int,
        _ => 0,
    }
}


/// Under niche tagging, when the tags of the tagged variants are distinct
/// valid values of the tag, no tag value lies in the ranges of two branches
/// of the discriminator.
#[verifier::rlimit(60)]
pub proof fn law_niche_branches_disjoint(tys: Seq<RsTy>, id: int)
    requires
        spec_enum(tys, id) is Some,
        tys[id].layout.variants matches RsVariants::Multiple { encoding: RsTagEncoding::Niche { .. }, .. },
        niche_tags_valid(tys, id),
    ensures
        (spec_enum(tys, id).unwrap() matches Type::Enum { discriminator: Discriminator::Branch { children, .. }, .. }
            && forall|a: int, b: int|
            0 <= a < children.to_seq().len() && 0 <= b < children.to_seq().len() && a != b ==> (#[trigger] children.to_seq()[a]).0.1@
                <= children.to_seq()[b].0.0@ || (#[trigger] children.to_seq()[b]).0.1@ <= children.to_seq()[a].0.0@),
{
    let t = tys[id];
    match (t.kind, t.layout.variants) {
        (
            RsTyKind::Enum { variants, discriminant_ty },
            RsVariants::Multiple { tag, encoding, tag_offset, .. },
        ) => {
            let n = variants.len() as nat;
            let (vs, bs) = spec_enum_acc(tys, id, n).unwrap();
            let tag_ty = spec_int_ty(tag.ity);
            lemma_niche_acc(tys, id, n);
            let (bs2, fb) = spec_enum_fallback(bs, tag, encoding);
            crate::lang::lemma_list_from_seq_to_seq(vs);
            crate::lang::lemma_list_from_seq_to_seq(bs2);
            let bits = (8 * tag.ity.bytes) as nat;
            crate::num::lemma_wrap_bounds(tag.valid_start as int, tag.ity.signed, bits);
            crate::num::lemma_wrap_bounds(tag.valid_end as int, tag.ity.signed, bits);
            crate::num::lemma_wrap_bounds(0, tag.ity.signed, (bits - 1) as nat);
            let start = spec_int_from_bits(tag.valid_start as int, tag.ity);
            let end = spec_int_from_bits(tag.valid_end as int, tag.ity);
            crate::num::lemma_int_of_view(wrap_to_bits(tag.valid_start as int, tag.ity.signed, bits));
            crate::num::lemma_int_of_view(wrap_to_bits(tag.valid_end as int, tag.ity.signed, bits));
            crate::num::lemma_int_of_view(end@ + 1);
            // Every branch so far is for a valid tag value.
            assert forall|k: int| 0 <= k < bs.len() implies in_valid_range(tag, (#[trigger] bs[k]).0.0@) && -limb() <= bs[k].0.0@ < limb() by {
                assert(tag_of_tagged(tys, id, n as int, bs[k].0.0));
                let j = choose|j: int| #[trigger] is_tagged(tys, id, j, n as int) && bs[k].0.0 == variant_niche_tag(tys, id, j);
                assert(in_valid_range(tag, variant_niche_tag(tys, id, j)@));
                match encoding {
                    RsTagEncoding::Niche { niche_variants_start, niche_start, .. } => {
                        let x = spec_int_from_bits(variants@[j].discr_bits as int, tag.ity)@ - niche_variants_start + niche_start;
                        crate::num::lemma_wrap_bounds(x, tag.ity.signed, bits);
                        crate::num::lemma_int_of_view(wrap_to_bits(x, tag.ity.signed, bits));
                    },
                    _ => {},
                }
            }
            assert(extends_invalid(bs, bs, tag));
            // The branches added for the invalid tag values hold no valid value.
            if start@ <= end@ {
                let min = int_min(tag.ity);
                let max = int_max(tag.ity);
                let key1 = (int_of(end@ + 1), int_of(max + 1));
                let b1 = if end@ < max {
                    let key = key1;
                    assert forall|k: int| 0 <= k < bs.len() implies (#[trigger] bs[k]).0 != key by {
                        assert(in_valid_range(tag, bs[k].0.0@));
                    }
                    lemma_push_invalid(bs, bs, tag, key);
                    assoc_insert(bs, key, Discriminator::Invalid)
                } else {
                    bs
                };
                if min < start@ {
                    let key = (int_of(min), start);
                    assert forall|k: int| 0 <= k < b1.len() implies (#[trigger] b1[k]).0 != key by {
                        if k < bs.len() {
                            assert(b1[k] == bs[k]);
                            crate::num::lemma_int_of_view(bs[k].0.0@ + 1);
                            assert(bs[k].0 == one_value(bs[k].0.0));
                        } else {
                            assert(end@ < max);
                            assert(b1 == bs.push((key1, Discriminator::Invalid)));
                            assert(b1[k] == (key1, Discriminator::Invalid));
                            crate::num::lemma_int_of_view(min);
                            assert(int_of(min)@ != int_of(end@ + 1)@);
                        }
                    }
                    lemma_push_invalid(bs, b1, tag, key);
                }
            } else if end@ + 1 < start@ {
                let key = (int_of(end@ + 1), start);
                assert forall|k: int| 0 <= k < bs.len() implies (#[trigger] bs[k]).0 != key by {
                    assert(in_valid_range(tag, bs[k].0.0@));
                }
                lemma_push_invalid(bs, bs, tag, key);
            }
            assert(extends_invalid(bs, bs2, tag));
            assert forall|x: int, y: int| 0 <= x < bs2.len() && 0 <= y < bs2.len() && x != y implies (#[trigger] bs2[x]).0.1@
                <= bs2[y].0.0@ || (#[trigger] bs2[y]).0.1@ <= bs2[x].0.0@ by {
                if x < bs.len() && y < bs.len() {
                    assert(bs2[x] == bs[x] && bs2[y] == bs[y]);
                    assert(bs[x].0 == one_value(bs[x].0.0) && bs[y].0 == one_value(bs[y].0.0));
                    assert(-limb() <= bs[x].0.0@ < limb() && -limb() <= bs[y].0.0@ < limb());
                    crate::num::lemma_int_of_view(bs[x].0.0@ + 1);
                    crate::num::lemma_int_of_view(bs[y].0.0@ + 1);
                    crate::num::lemma_int_eq_iff_view_eq(bs[x].0.0, bs[y].0.0);
                    assert(bs[x].0 != bs[y].0);
                } else if x < bs.len() {
                    assert(bs2[x] == bs[x]);
                    assert(bs[x].0 == one_value(bs[x].0.0));
                    assert(in_valid_range(tag, bs[x].0.0@) && -limb() <= bs[x].0.0@ < limb());
                    crate::num::lemma_int_of_view(bs[x].0.0@ + 1);
                    assert(!(bs2[y].0.0@ <= bs[x].0.0@ < bs2[y].0.1@));
                } else if y < bs.len() {
                    assert(bs2[y] == bs[y]);
                    assert(bs[y].0 == one_value(bs[y].0.0));
                    assert(in_valid_range(tag, bs[y].0.0@) && -limb() <= bs[y].0.0@ < limb());
                    crate::num::lemma_int_of_view(bs[y].0.0@ + 1);
                    assert(!(bs2[x].0.0@ <= bs[y].0.0@ < bs2[x].0.1@));
                } else {
                    // Two branches for invalid values: those below and above the valid range.
                    let min = int_min(tag.ity);
                    let max = int_max(tag.ity);
                    assert(start@ <= end@ && end@ < max && min < start@);
                    let key1 = (int_of(end@ + 1), int_of(max + 1));
                    let key2 = (int_of(min), start);
                    let b1 = bs.push((key1, Discriminator::Invalid));
                    assert(bs2 == b1.push((key2, Discriminator::Invalid)));
                    assert(bs2[bs.len() as int] == (key1, Discriminator::Invalid));
                    assert(bs2[bs.len() as int + 1] == (key2, Discriminator::Invalid));
                }
            }
        },
        _ => {},
    }
}

/// Distinct variants get distinct discriminants, where their discriminant
/// values differ as bits of the discriminant type (as rustc's do): enum
/// aggregates and constants of different variants never share one.
pub proof fn law_distinct_discriminants(tys: Seq<RsTy>, id: int, j1: int, j2: int)
    requires
        0 <= id < tys.len(),
        tys[id].kind matches RsTyKind::Enum { variants, discriminant_ty } && {
            &&& 0 <= j1 < variants@.len()
            &&& 0 <= j2 < variants@.len()
            &&& 1 <= discriminant_ty.bytes <= 16
            &&& (variants@[j1].discr_bits as int) % (pow2((8 * discriminant_ty.bytes) as nat) as int)
                != (variants@[j2].discr_bits as int) % (pow2((8 * discriminant_ty.bytes) as nat) as int)
        },
    ensures
        spec_discriminant(tys, id, j1) is Some,
        spec_discriminant(tys, id, j2) is Some,
        spec_discriminant(tys, id, j1) != spec_discriminant(tys, id, j2),
{
    if let RsTyKind::Enum { variants, discriminant_ty } = tys[id].kind {
        let bits = (8 * discriminant_ty.bytes) as nat;
        let b1 = variants@[j1].discr_bits as int;
        let b2 = variants@[j2].discr_bits as int;
        let w1 = wrap_to_bits(b1, discriminant_ty.signed, bits);
        let w2 = wrap_to_bits(b2, discriminant_ty.signed, bits);
        crate::num::law_wrap_to_bits(b1, discriminant_ty.signed, bits);
        crate::num::law_wrap_to_bits(b2, discriminant_ty.signed, bits);
        lemma_wrap_bounds(b1, discriminant_ty.signed, bits);
        lemma_wrap_bounds(b2, discriminant_ty.signed, bits);
        crate::num::lemma_int_of_view(w1);
        crate::num::lemma_int_of_view(w2);
        if int_of(w1) == int_of(w2) {
            let p = pow2(bits) as int;
            assert(w1 == w2);
            vstd::arithmetic::div_mod::lemma_fundamental_div_mod(w1 - b1, p);
            vstd::arithmetic::div_mod::lemma_fundamental_div_mod(w2 - b2, p);
            // b2 = b1 + p * (q1 - q2), so both leave the same remainder.
            let q = (w1 - b1) / p - (w2 - b2) / p;
            assert(b2 == b1 + p * q) by (nonlinear_arith)
                requires
                    w1 == w2,
                    w1 - b1 == p * ((w1 - b1) / p) + 0,
                    w2 - b2 == p * ((w2 - b2) / p) + 0,
                    q == (w1 - b1) / p - (w2 - b2) / p;
            vstd::arithmetic::div_mod::lemma_mod_multiples_vanish(q, b1, p);
        }
    }
}

/// Under direct tagging, where the variants' discriminant values differ as
/// bits of the discriminant type (as rustc's do), the discriminant of each
/// variant finds that variant, with its fields, in the translated enum.
pub proof fn law_direct_discriminant_finds_its_variant(tys: Seq<RsTy>, id: int, j: int)
    requires
        spec_enum(tys, id) is Some,
        tys[id].layout.variants matches RsVariants::Multiple { encoding: RsTagEncoding::Direct, .. },
        tys[id].kind matches RsTyKind::Enum { variants, discriminant_ty } && {
            &&& 0 <= j < variants@.len()
            &&& 1 <= discriminant_ty.bytes <= 16
            &&& forall|j2: int| 0 <= j2 < variants@.len() && j2 != j
                ==> (#[trigger] variants@[j2].discr_bits as int) % (pow2((8 * discriminant_ty.bytes) as nat) as int)
                != (variants@[j].discr_bits as int) % (pow2((8 * discriminant_ty.bytes) as nat) as int)
        },
    ensures
        spec_enum(tys, id).unwrap() matches Type::Enum { variants, .. } && exists|i: int|
            0 <= i < variants.to_seq().len() && (#[trigger] variants.to_seq()[i]).0 == spec_discriminant(tys, id, j).unwrap()
                && variants.to_seq()[i].1.ty == variant_ty(tys, id, j),
{
    if let RsTyKind::Enum { variants, discriminant_ty } = tys[id].kind {
        assert forall|j2: int| 0 <= j2 < variant_count(tys, id) && j2 != j implies variant_key(tys, id, j2) != variant_key(tys, id, j) by {
            law_distinct_discriminants(tys, id, j2, j);
        }
        law_discriminant_is_key(tys, id, j);
    }
}

/// The discriminant of a variant is the integer of the enum's
/// discriminant type whose bits are the variant's raw discriminant: it lies
/// in that type's range and agrees with the raw bits modulo 2 to the type's
/// width.
pub proof fn law_discriminants_read_their_bits(tys: Seq<RsTy>, ty: int, variant: int)
    requires
        spec_discriminant(tys, ty, variant) is Some,
    ensures
        tys[ty].kind matches RsTyKind::Enum { variants, discriminant_ty } && {
            let d = spec_discriminant(tys, ty, variant).unwrap();
            let bits = (8 * discriminant_ty.bytes) as nat;
            &&& 0 <= variant < variants@.len()
            &&& crate::num::type_min(discriminant_ty.signed, bits) <= d@ < crate::num::type_end(discriminant_ty.signed, bits)
            &&& (d@ - variants@[variant].discr_bits) % (pow2(bits) as int) == 0
        },
{
    if let RsTyKind::Enum { variants, discriminant_ty } = tys[ty].kind {
        let bits = (8 * discriminant_ty.bytes) as nat;
        let b = variants@[variant].discr_bits as int;
        crate::num::law_wrap_to_bits(b, discriminant_ty.signed, bits);
        lemma_wrap_bounds(b, discriminant_ty.signed, bits);
        crate::num::lemma_int_of_view(wrap_to_bits(b, discriminant_ty.signed, bits));
    }
}

/// An enum laid out as a single variant has that one variant, under
/// discriminant 0, untagged, holding its fields with the enum's size and
/// alignment, and its discriminant is always 0.
pub proof fn law_single_variant_enums(tys: Seq<RsTy>, id: int)
    requires
        spec_enum(tys, id) is Some,
        tys[id].layout.variants is Single,
    ensures
        spec_enum(tys, id).unwrap() matches Type::Enum { variants, discriminator, size, align, .. } && {
            &&& discriminator == Discriminator::Known(int_of(0))
            &&& size.bytes == tys[id].layout.size
            &&& align.bytes == tys[id].layout.align
            &&& variants.to_seq().len() == 1
            &&& variants.to_seq()[0].0 == int_of(0)
            &&& variants.to_seq()[0].1.tagger == List::<(Size, (IntType, Int))>::Nil
            &&& variants.to_seq()[0].1.ty matches Type::Tuple { size: s, align: a, .. } && s == size && a == align
        },
{
    if let Type::Enum { variants, .. } = spec_enum(tys, id).unwrap() {
        if let List::Cons(x, rest) = variants {
            assert(rest.to_seq() == Seq::<(Int, Variant)>::empty());
            assert(variants.to_seq() == seq![*x]);
        }
    }
}

} // verus!
