use minimize::num::{Int, Signedness};
use minimize::lang::{IntType, Size};
use minimize::enums::int_from_bits;
use minimize::ty::{translate_size, translate_align};

fn ity(signed: Signedness, bytes: u64) -> IntType {
    IntType { signed, size: Size { bytes } }
}

#[test]
fn int_from_bits_reads_twos_complement() {
    assert_eq!(int_from_bits(0xFF, ity(Signedness::Signed, 1)), Int::from_i128(-1));
    assert_eq!(int_from_bits(0x80, ity(Signedness::Signed, 1)), Int::from_i128(-128));
    assert_eq!(int_from_bits(0x7F, ity(Signedness::Signed, 1)), Int::from_i128(127));
    assert_eq!(int_from_bits(0xFFFF_FFFE, ity(Signedness::Signed, 4)), Int::from_i128(-2));
}

#[test]
fn int_from_bits_keeps_the_low_bits() {
    assert_eq!(int_from_bits(0x1FF, ity(Signedness::Unsigned, 1)), Int::from_u128(255));
    assert_eq!(int_from_bits(0x1_0000_0005, ity(Signedness::Unsigned, 4)), Int::from_u128(5));
    assert_eq!(int_from_bits(u128::MAX, ity(Signedness::Unsigned, 16)), Int::from_u128(u128::MAX));
    assert_eq!(int_from_bits(1u128 << 127, ity(Signedness::Signed, 16)), Int::from_i128(i128::MIN));
}

#[test]
fn int_from_bits_of_a_value_in_range_is_the_value() {
    for v in [0u128, 1, 42, 127] {
        assert_eq!(int_from_bits(v, ity(Signedness::Signed, 1)), Int::from_u128(v));
        assert_eq!(int_from_bits(v, ity(Signedness::Unsigned, 2)), Int::from_u128(v));
    }
}

#[test]
fn int_arithmetic() {
    let a = Int::from_i128(-5);
    let b = Int::from_u64(7);
    assert_eq!(a.add(b), Int::from_i128(2));
    assert_eq!(a.sub(b), Int::from_i128(-12));
    assert_eq!(b.sub(a), Int::from_i128(12));
    assert!(a.lt(b));
    assert!(!b.lt(a));
    assert!(a.le(a));
    assert!(a.eq(Int::from_i128(-5)));
    assert!(!a.eq(b));
    let big = Int::from_u128(u128::MAX);
    assert_eq!(big.add(Int::one()).sub(Int::one()), big);
    assert!(big.lt(big.add(Int::one())));
    assert_eq!(Int::zero(), Int::from_i128(0));
}

#[test]
fn int_bring_in_bounds_wraps() {
    assert_eq!(Int::from_u128(300).bring_in_bounds(Signedness::Unsigned, 1), Int::from_u128(44));
    assert_eq!(Int::from_u128(200).bring_in_bounds(Signedness::Signed, 1), Int::from_i128(-56));
    assert_eq!(Int::from_i128(-1).bring_in_bounds(Signedness::Unsigned, 2), Int::from_u128(0xFFFF));
}

#[test]
fn sizes_and_alignments() {
    assert_eq!(translate_size(12).bytes, 12);
    assert_eq!(translate_align(8).bytes, 8);
}
