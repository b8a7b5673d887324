use minimize::num::{Int, Signedness};
use minimize::lang::{List, Type, PtrType, PointerMetaKind, LayoutStrategy, UnsafeCellStrategy, Size, Align, Mutability, Discriminator};
use minimize::rs::{RsTy, RsTyKind, RsLayout, RsVariants, RsMutability, RsVariantDef, RsIntTy, RsTag, RsTagEncoding, RsCanonAbi};
use minimize::mir::RsAllocation;
use minimize::constant::allocs_ok;
use minimize::program::{Ctxt, Session, TargetLayout, layout_matches};
use minimize::ty::{translate_mutbl, translate_mutbl_smir, translate_calling_convention};
use minimize::lang::CallingConvention;

fn layout(size: u64, align: u64, offsets: Vec<u64>) -> RsLayout {
    RsLayout { size, align, sized: true, uninhabited: false, field_offsets: offsets, variants: RsVariants::Single { index: 0 } }
}

fn ty(kind: RsTyKind, layout: RsLayout) -> RsTy {
    RsTy { kind, layout, freeze: true, unpin: true }
}

fn target() -> TargetLayout {
    TargetLayout { pointer_size: 8, pointer_align: 8, little_endian: true, int_aligns: vec![1, 2, 4, 8, 16] }
}

fn cx(tys: Vec<RsTy>) -> Ctxt {
    let session = Session { panic_unwind: true, ub_checks: false, ordering_ty: 0 };
    Ctxt::new(tys, Vec::<RsAllocation>::new(), session, &target())
}

fn list<T>(l: &List<T>) -> Vec<&T> {
    let mut out = Vec::new();
    let mut cur = l;
    while let List::Cons(x, rest) = cur {
        out.push(&**x);
        cur = rest;
    }
    out
}

/// 0: bool, 1: i32, 2: u8, 3: (i32, bool), 4: [u8; 3], 5: &i32, 6: [u8],
/// 7: &mut [u8], 8: u16, 9: struct { u8 @0, u16 @2 }, 10: union { u8, 9 },
/// 11: UnsafeCell<u8>, 12: struct { u8 @0, UnsafeCell<u8> @1 }, 13: *const [u8]
fn table() -> Vec<RsTy> {
    let mut slice = layout(0, 1, vec![]);
    slice.sized = false;
    vec![
        ty(RsTyKind::Bool, layout(1, 1, vec![])),
        ty(RsTyKind::Int { bytes: 4 }, layout(4, 4, vec![])),
        ty(RsTyKind::Uint { bytes: 1 }, layout(1, 1, vec![])),
        ty(RsTyKind::Tuple { fields: vec![1, 0] }, layout(8, 4, vec![0, 4])),
        ty(RsTyKind::Array { elem: 2, count: 3 }, layout(3, 1, vec![])),
        ty(RsTyKind::Ref { pointee: 1, mutbl: RsMutability::Not }, layout(8, 8, vec![])),
        ty(RsTyKind::Slice { elem: 2 }, slice),
        ty(RsTyKind::Ref { pointee: 6, mutbl: RsMutability::Mut }, layout(16, 8, vec![])),
        ty(RsTyKind::Uint { bytes: 2 }, layout(2, 2, vec![])),
        ty(RsTyKind::Struct { fields: vec![2, 8], is_unsafe_cell: false }, layout(4, 2, vec![0, 2])),
        ty(RsTyKind::Union { fields: vec![2, 9] }, layout(4, 2, vec![0, 0])),
        ty(RsTyKind::Struct { fields: vec![2], is_unsafe_cell: true }, layout(1, 1, vec![0])),
        ty(RsTyKind::Struct { fields: vec![2, 11], is_unsafe_cell: false }, layout(2, 1, vec![0, 1])),
        ty(RsTyKind::RawPtr { pointee: 6 }, layout(16, 8, vec![])),
    ]
}

#[test]
fn the_default_target_is_recognised() {
    assert!(layout_matches(&target()));
    let mut other = target();
    other.int_aligns = vec![1, 2, 4, 8, 8];
    assert!(!layout_matches(&other));
    let mut big_endian = target();
    big_endian.little_endian = false;
    assert!(!layout_matches(&big_endian));
}

#[test]
fn scalar_types() {
    let c = cx(table());
    assert!(matches!(c.translate_ty(0), Type::Bool));
    match c.translate_ty(1) {
        Type::Int(it) => {
            assert_eq!(it.signed, Signedness::Signed);
            assert_eq!(it.size.bytes, 4);
        },
        _ => panic!(),
    }
    match c.translate_ty_smir(2) {
        Type::Int(it) => assert_eq!((it.signed, it.size.bytes), (Signedness::Unsigned, 1)),
        _ => panic!(),
    }
}

#[test]
fn tuples_and_arrays() {
    let c = cx(table());
    match c.translate_ty(3) {
        Type::Tuple { fields, size, align } => {
            let fs = list(&fields);
            assert_eq!(fs.len(), 2);
            assert_eq!(fs[0].0.bytes, 0);
            assert!(matches!(fs[0].1, Type::Int(_)));
            assert_eq!(fs[1].0.bytes, 4);
            assert!(matches!(fs[1].1, Type::Bool));
            assert_eq!((size.bytes, align.bytes), (8, 4));
        },
        _ => panic!(),
    }
    match c.translate_ty(4) {
        Type::Array { elem, count } => {
            assert!(matches!(*elem, Type::Int(_)));
            assert_eq!(count, Int::from_u64(3));
        },
        _ => panic!(),
    }
}

#[test]
fn references_record_their_pointee() {
    let c = cx(table());
    match c.translate_ty(5) {
        Type::Ptr(PtrType::Ref { mutbl, pointee }) => {
            assert_eq!(mutbl, Mutability::Immutable);
            assert_eq!(pointee.layout, LayoutStrategy::Sized(Size { bytes: 4 }, Align { bytes: 4 }));
            assert!(pointee.inhabited && pointee.freeze && pointee.unpin);
            assert!(matches!(pointee.unsafe_cells, UnsafeCellStrategy::Sized { cells: List::Nil }));
        },
        _ => panic!(),
    }
    match c.translate_ty(7) {
        Type::Ptr(PtrType::Ref { mutbl, pointee }) => {
            assert_eq!(mutbl, Mutability::Mutable);
            assert_eq!(pointee.layout, LayoutStrategy::Slice(Size { bytes: 1 }, Align { bytes: 1 }));
        },
        _ => panic!(),
    }
    match c.translate_ty(13) {
        Type::Ptr(PtrType::Raw { meta_kind }) => assert_eq!(meta_kind, PointerMetaKind::ElementCount),
        _ => panic!(),
    }
}

#[test]
fn union_chunks_skip_padding() {
    let c = cx(table());
    match c.translate_ty(10) {
        Type::Union { chunks, size, .. } => {
            assert_eq!(size.bytes, 4);
            let cs: Vec<(u64, u64)> = list(&chunks).iter().map(|c| (c.0.bytes, c.1.bytes)).collect();
            assert_eq!(cs, vec![(0, 1), (2, 2)]);
        },
        _ => panic!(),
    }
}

#[test]
fn unsafe_cells_are_found_and_sorted() {
    let c = cx(table());
    let cells: Vec<(u64, u64)> = c.cells_in_sized_ty(12).iter().map(|c| (c.0.bytes, c.1.bytes)).collect();
    assert_eq!(cells, vec![(1, 1)]);
    let cells: Vec<(u64, u64)> = c.cells_in_sized_ty(11).iter().map(|c| (c.0.bytes, c.1.bytes)).collect();
    assert_eq!(cells, vec![(0, 1)]);
    assert!(c.cells_in_sized_ty(9).is_empty());
    let info = c.pointee_info_of(12);
    match info.unsafe_cells {
        UnsafeCellStrategy::Sized { cells } => {
            let cs: Vec<(u64, u64)> = list(&cells).iter().map(|c| (c.0.bytes, c.1.bytes)).collect();
            assert_eq!(cs, vec![(1, 1)]);
        },
        _ => panic!(),
    }
    assert!(matches!(c.pointee_info_of_smir(6).unsafe_cells, UnsafeCellStrategy::Slice { element_cells: List::Nil }));
}

#[test]
fn mutability_and_calling_conventions() {
    assert_eq!(translate_mutbl(RsMutability::Mut), Mutability::Mutable);
    assert_eq!(translate_mutbl(RsMutability::Not), Mutability::Immutable);
    assert_eq!(translate_mutbl_smir(RsMutability::Mut), Mutability::Mutable);
    assert_eq!(translate_calling_convention(RsCanonAbi::C), CallingConvention::C);
    assert_eq!(translate_calling_convention(RsCanonAbi::Rust), CallingConvention::Rust);
}

/// enum E { A(u8) = 0, B = 1 }: a `u8` tag at offset 0, A's field at 1.
fn enum_table() -> Vec<RsTy> {
    let mut t = table();
    let variants = vec![
        RsVariantDef { fields: vec![2], discr_bits: 0 },
        RsVariantDef { fields: vec![], discr_bits: 1 },
    ];
    let tag = RsTag { ity: RsIntTy { signed: Signedness::Unsigned, bytes: 1 }, valid_start: 0, valid_end: 1 };
    let mut l = layout(2, 1, vec![0]);
    l.variants = RsVariants::Multiple {
        tag,
        encoding: RsTagEncoding::Direct,
        tag_offset: 0,
        variant_offsets: vec![Some(vec![1]), Some(vec![])],
    };
    t.push(ty(RsTyKind::Enum { variants, discriminant_ty: RsIntTy { signed: Signedness::Signed, bytes: 4 } }, l));
    t
}

#[test]
fn enums_with_a_direct_tag() {
    let c = cx(enum_table());
    let e = enum_table().len() - 1;
    match c.translate_enum(e) {
        Type::Enum { variants, discriminator, discriminant_ty, size, align } => {
            assert_eq!((size.bytes, align.bytes), (2, 1));
            assert_eq!(discriminant_ty.size.bytes, 4);
            let vs = list(&variants);
            assert_eq!(vs.len(), 2);
            assert_eq!(vs[0].0, Int::from_u64(0));
            assert_eq!(vs[1].0, Int::from_u64(1));
            match &vs[0].1.ty {
                Type::Tuple { fields, .. } => assert_eq!(list(fields)[0].0.bytes, 1),
                _ => panic!(),
            }
            let tagger = list(&vs[1].1.tagger);
            assert_eq!(tagger.len(), 1);
            assert_eq!(tagger[0].0.bytes, 0);
            assert_eq!((tagger[0].1).1, Int::from_u64(1));
            match discriminator {
                Discriminator::Branch { offset, children, .. } => {
                    assert_eq!(offset.bytes, 0);
                    assert_eq!(list(&children).len(), 2);
                },
                _ => panic!(),
            }
        },
        _ => panic!(),
    }
    assert_eq!(c.discriminant_for_variant(e, 1), Int::from_u64(1));
    assert_eq!(c.discriminant_for_variant_smir(e, 0), Int::from_u64(0));
}

#[test]
fn a_direct_tag_reads_back_its_variant() {
    let c = cx(enum_table());
    let e = enum_table().len() - 1;
    match c.translate_enum(e) {
        Type::Enum { variants, discriminator: Discriminator::Branch { children, fallback, .. }, .. } => {
            assert!(matches!(*fallback, Discriminator::Invalid));
            let branches = list(&children);
            for (d, v) in list(&variants) {
                let written = (list(&v.tagger)[0].1).1;
                assert_eq!(written, *d);
                // Exactly one branch holds the written value, and it leads back to `d`.
                let hits: Vec<_> = branches.iter().filter(|b| b.0.0.le(written) && written.lt(b.0.1)).collect();
                assert_eq!(hits.len(), 1);
                match &hits[0].1 {
                    Discriminator::Known(k) => assert_eq!(k, d),
                    _ => panic!(),
                }
            }
        },
        _ => panic!(),
    }
}

/// Option<bool>: `None` is stored as the niche value 2 of the `bool` byte.
fn option_bool_table() -> Vec<RsTy> {
    let mut t = table();
    let variants = vec![
        RsVariantDef { fields: vec![], discr_bits: 0 },
        RsVariantDef { fields: vec![0], discr_bits: 1 },
    ];
    let tag = RsTag { ity: RsIntTy { signed: Signedness::Unsigned, bytes: 1 }, valid_start: 0, valid_end: 2 };
    let mut l = layout(1, 1, vec![0]);
    l.variants = RsVariants::Multiple {
        tag,
        encoding: RsTagEncoding::Niche { untagged_variant: 1, niche_variants_start: 0, niche_start: 2 },
        tag_offset: 0,
        variant_offsets: vec![Some(vec![]), Some(vec![0])],
    };
    t.push(ty(RsTyKind::Enum { variants, discriminant_ty: RsIntTy { signed: Signedness::Signed, bytes: 8 } }, l));
    t
}

#[test]
fn a_niche_tag_reads_back_its_variant() {
    let c = cx(option_bool_table());
    let e = option_bool_table().len() - 1;
    match c.translate_enum(e) {
        Type::Enum { variants, discriminator: Discriminator::Branch { children, fallback, .. }, .. } => {
            // Other tag values mean `Some`.
            assert!(matches!(*fallback, Discriminator::Known(k) if k == Int::from_u64(1)));
            let vs = list(&variants);
            assert_eq!(vs.len(), 2);
            // `None` writes 2; `Some` writes nothing.
            assert_eq!(vs[0].0, Int::from_u64(0));
            let tagger = list(&vs[0].1.tagger);
            assert_eq!(tagger.len(), 1);
            assert_eq!((tagger[0].1).1, Int::from_u64(2));
            assert_eq!(list(&vs[1].1.tagger).len(), 0);
            let branches = list(&children);
            let read = |v: u64| -> Vec<&Discriminator> {
                let v = Int::from_u64(v);
                branches.iter().filter(|b| b.0.0.le(v) && v.lt(b.0.1)).map(|b| &b.1).collect()
            };
            // The tag 2 reads back as `None`.
            let hits = read(2);
            assert_eq!(hits.len(), 1);
            assert!(matches!(hits[0], Discriminator::Known(k) if *k == Int::from_u64(0)));
            // 0 and 1 hold no branch: they are `Some(false)` and `Some(true)`.
            assert_eq!(read(0).len(), 0);
            assert_eq!(read(1).len(), 0);
            // Values past the valid range are invalid.
            let hits = read(3);
            assert_eq!(hits.len(), 1);
            assert!(matches!(hits[0], Discriminator::Invalid));
        },
        _ => panic!(),
    }
}

#[test]
fn type_tables_are_validated() {
    assert!(minimize::tables::tys_ok(&table()));
    assert!(minimize::tables::tys_ok(&enum_table()));
    // An alignment that is no power of two.
    let mut bad = table();
    bad.push(ty(RsTyKind::Uint { bytes: 4 }, layout(4, 3, vec![])));
    assert!(!minimize::tables::tys_ok(&bad));
    // A cell at offset 2^64: an `UnsafeCell<u8>` at offset `u64::MAX`, moved by one more byte.
    let mut far = table();
    far.push(ty(RsTyKind::Struct { fields: vec![11], is_unsafe_cell: false }, layout(u64::MAX, 1, vec![u64::MAX])));
    assert!(minimize::tables::tys_ok(&far));
    far.push(ty(RsTyKind::Struct { fields: vec![14], is_unsafe_cell: false }, layout(u64::MAX, 1, vec![1])));
    assert!(!minimize::tables::tys_ok(&far));
    // The same check for types joining a translation's table.
    let c = cx(table());
    let mut more = Vec::new();
    more.push(ty(RsTyKind::Struct { fields: vec![11], is_unsafe_cell: false }, layout(u64::MAX, 1, vec![u64::MAX])));
    more.push(ty(RsTyKind::Struct { fields: vec![14], is_unsafe_cell: false }, layout(u64::MAX, 1, vec![1])));
    assert!(!c.types_fit(&more));
    more.pop();
    assert!(c.types_fit(&more));
}

#[test]
fn allocation_tables_are_validated() {
    let plain = || RsAllocation { bytes: vec![1, 2], init: vec![true, true], ptrs: vec![], align: 2 };
    let pointing = |target: usize| RsAllocation { bytes: vec![0; 8], init: vec![true; 8], ptrs: vec![(0, target)], align: 8 };
    assert!(allocs_ok(&vec![plain(), pointing(0)]));
    // A pointer to an allocation that is not in the table.
    assert!(!allocs_ok(&vec![plain(), pointing(2)]));
    // A pointer stored in uninitialized bytes.
    let mut half = pointing(0);
    half.init[7] = false;
    assert!(!allocs_ok(&vec![plain(), half]));
    // A pointer that does not fit in the allocation.
    assert!(!allocs_ok(&vec![RsAllocation { bytes: vec![0; 4], init: vec![true; 4], ptrs: vec![(0, 0)], align: 4 }]));
    // An init mask of the wrong length, and an alignment that is no power of two.
    assert!(!allocs_ok(&vec![RsAllocation { bytes: vec![1], init: vec![], ptrs: vec![], align: 1 }]));
    assert!(!allocs_ok(&vec![RsAllocation { bytes: vec![1], init: vec![true], ptrs: vec![], align: 6 }]));
    // Allocations joining a translation's table may point into it.
    let c = cx(table());
    assert!(c.allocs_fit(&vec![plain(), pointing(1)]));
    assert!(!c.allocs_fit(&vec![pointing(5)]));
}

#[test]
fn direct_branches_are_disjoint_and_discriminants_are_keys() {
    let c = cx(enum_table());
    let e = enum_table().len() - 1;
    match c.translate_enum(e) {
        Type::Enum { variants, discriminator: Discriminator::Branch { children, .. }, .. } => {
            let b = list(&children);
            for i in 0..b.len() {
                for j in 0..b.len() {
                    if i != j {
                        assert!(b[i].0.1.le(b[j].0.0) || b[j].0.1.le(b[i].0.0));
                    }
                }
            }
            let keys: Vec<Int> = list(&variants).iter().map(|v| v.0).collect();
            for v in 0..2 {
                assert!(keys.contains(&c.discriminant_for_variant(e, v)));
            }
        },
        _ => panic!(),
    }
}

#[test]
fn distinct_variants_get_distinct_discriminants() {
    let c = cx(enum_table());
    let e = enum_table().len() - 1;
    assert_ne!(c.discriminant_for_variant(e, 0), c.discriminant_for_variant(e, 1));
    let c = cx(option_bool_table());
    let e = option_bool_table().len() - 1;
    assert_ne!(c.discriminant_for_variant(e, 0), c.discriminant_for_variant(e, 1));
}

fn cons<T>(x: T, rest: List<T>) -> List<T> {
    List::Cons(Box::new(x), Box::new(rest))
}

fn uint(bytes: u64) -> Type {
    Type::Int(minimize::lang::IntType { signed: Signedness::Unsigned, size: Size { bytes } })
}

#[test]
fn union_chunks_do_not_depend_on_the_order_of_fields() {
    let a = cons((Size { bytes: 0 }, uint(1)), cons((Size { bytes: 2 }, uint(2)), List::Nil));
    let b = cons((Size { bytes: 2 }, uint(2)), cons((Size { bytes: 0 }, uint(1)), List::Nil));
    let ca = minimize::chunks::calc_chunks(&a, Size { bytes: 4 });
    let cb = minimize::chunks::calc_chunks(&b, Size { bytes: 4 });
    let va: Vec<(u64, u64)> = list(&ca).iter().map(|c| (c.0.bytes, c.1.bytes)).collect();
    let vb: Vec<(u64, u64)> = list(&cb).iter().map(|c| (c.0.bytes, c.1.bytes)).collect();
    assert_eq!(va, vec![(0, 1), (2, 2)]);
    assert_eq!(va, vb);
}
