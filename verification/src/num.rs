//! MiniRust's unbounded integers, with the fixed-width wrapping that the
//! translation needs for discriminants, tags and switch values.
use vstd::prelude::*;
use vstd::arithmetic::power2::{pow2, lemma_pow2_unfold, lemma_pow2_adds, lemma_pow2_pos};
use vstd::arithmetic::div_mod::{lemma_mod_multiples_vanish, lemma_small_mod};

verus! {

/// 2^128, the weight of the high limb of an [`Int`].
pub open spec fn limb() -> int {
    0x1_0000_0000_0000_0000_0000_0000_0000_0000int
}

/// Values an [`Int`] can always hold and add without overflowing its high limb.
pub open spec fn int_in_range(v: int) -> bool {
    -0x4000_0000_0000_0000int * limb() <= v < 0x4000_0000_0000_0000int * limb()
}

/// A mathematical integer as MiniRust uses it, stored as `hi * 2^128 + lo`.
/// Every integer in range has exactly one such representation, so `==` on the
/// struct is `==` on the value.
#[derive(Clone, Copy, PartialEq, Eq, Structural, Debug)]
pub struct Int {
    pub hi: i64,
    pub lo: u128,
}

impl View for Int {
    type V = int;

    open spec fn view(&self) -> int {
        self.hi * limb() + self.lo
    }
}

/// Whether the value is signed or unsigned.
#[derive(Clone, Copy, PartialEq, Eq, Structural, Debug)]
pub enum Signedness {
    Unsigned,
    Signed,
}

/// What MiniRust's `bring_in_bounds` computes for a `bits`-bit integer type:
/// the value wrapped into the range of that type.
pub open spec fn wrap_to_bits(v: int, signed: Signedness, bits: nat) -> int {
    let m = v % (pow2(bits) as int);
    if signed == Signedness::Signed && m >= pow2((bits - 1) as nat) {
        m - pow2(bits)
    } else {
        m
    }
}

/// The integer with value `v`.
pub open spec fn int_of(v: int) -> Int {
    Int { hi: (v / limb()) as i64, lo: (v % limb()) as u128 }
}

/// An integer is the one `int_of` gives for its value.
pub proof fn lemma_int_of(r: Int)
    ensures
        int_of(r@) == r,
{
    vstd::arithmetic::div_mod::lemma_fundamental_div_mod_converse(r@, limb(), r.hi as int, r.lo as int);
}

/// `int_of` keeps every value within the integers' range.
pub proof fn lemma_int_of_view(v: int)
    requires
        -limb() <= v <= limb(),
    ensures
        int_of(v)@ == v,
{
    vstd::arithmetic::div_mod::lemma_fundamental_div_mod(v, limb());
    assert(-1 <= v / limb() <= 1) by (nonlinear_arith)
        requires
            -limb() <= v <= limb(),
            v == limb() * (v / limb()) + v % limb(),
            0 <= v % limb() < limb(),
            limb() > 0,
    ;
    assert(int_of(v)@ == (v / limb()) * limb() + v % limb()) by (nonlinear_arith)
        requires
            -1 <= v / limb() <= 1,
            0 <= v % limb() < limb(),
            int_of(v).hi == v / limb(),
            int_of(v).lo == v % limb(),
    ;
}

/// An integer between 0 and `u64::MAX` has a zero high limb and its value in the low limb.
pub proof fn lemma_count_limbs(n: Int)
    requires
        0 <= n@ <= u64::MAX,
    ensures
        n.hi == 0,
        n.lo == n@,
        (n.lo as u64) == n@,
{
    assert(n.hi == 0) by (nonlinear_arith)
        requires
            0 <= n.hi * limb() + n.lo <= u64::MAX,
            0 <= n.lo < limb(),
    ;
}

/// Two integers are equal exactly when their values are.
pub proof fn lemma_int_eq_iff_view_eq(a: Int, b: Int)
    ensures
        (a == b) <==> (a@ == b@),
{
    if a@ == b@ {
        assert(a.hi == b.hi) by (nonlinear_arith)
            requires
                a.hi * limb() + a.lo == b.hi * limb() + b.lo,
                0 <= a.lo < limb(),
                0 <= b.lo < limb(),
        ;
    }
}

pub proof fn lemma_pow2_128()
    ensures
        pow2(128) == limb(),
        pow2(127) == 0x8000_0000_0000_0000_0000_0000_0000_0000nat,
        pow2(120) == 0x100_0000_0000_0000_0000_0000_0000_0000nat,
{
    vstd::arithmetic::power2::lemma2_to64_rest();
    lemma_pow2_adds(64, 64);
    lemma_pow2_adds(63, 64);
    lemma_pow2_adds(56, 64);
}

/// `2^n` as a `u128`, for `n < 128`.
pub fn pow2_u128(n: u32) -> (r: u128)
    requires
        n < 128,
    ensures
        r == pow2(n as nat),
{
    let mut p: u128 = 1;
    let mut i: u32 = 0;
    proof {
        vstd::arithmetic::power2::lemma_pow2(0);
        vstd::arithmetic::power::lemma_pow0(2);
    }
    while i < n
        invariant
            i <= n < 128,
            p == pow2(i as nat),
        decreases n - i,
    {
        proof {
            lemma_pow2_unfold((i + 1) as nat);
            lemma_pow2_unfold(127);
            lemma_pow2_128();
            lemma_pow2_adds(i as nat, (126 - i) as nat);
            lemma_pow2_pos((126 - i) as nat);
            assert(pow2(i as nat) <= pow2(126)) by (nonlinear_arith)
                requires
                    pow2(126) == pow2(i as nat) * pow2((126 - i) as nat),
                    pow2((126 - i) as nat) > 0,
                    pow2(i as nat) >= 0,
            ;
        }
        p = p * 2;
        i = i + 1;
    }
    p
}

impl Int {
    pub fn zero() -> (r: Int)
        ensures
            r@ == 0,
    {
        Int { hi: 0, lo: 0 }
    }

    pub fn one() -> (r: Int)
        ensures
            r@ == 1,
    {
        Int { hi: 0, lo: 1 }
    }

    /// The integer with the value of an unsigned 128-bit number.
    pub fn from_u128(x: u128) -> (r: Int)
        ensures
            r@ == x,
    {
        Int { hi: 0, lo: x }
    }

    /// The integer with the value of a signed 128-bit number.
    pub fn from_i128(x: i128) -> (r: Int)
        ensures
            r@ == x,
    {
        if x >= 0 {
            Int { hi: 0, lo: x as u128 }
        } else {
            let m: i128 = -(x + 1);
            Int { hi: -1, lo: u128::MAX - (m as u128) }
        }
    }

    pub fn from_u64(x: u64) -> (r: Int)
        ensures
            r@ == x,
    {
        Int { hi: 0, lo: x as u128 }
    }

    /// Addition; MiniRust integers do not overflow.
    pub fn add(self, other: Int) -> (r: Int)
        requires
            int_in_range(self@),
            int_in_range(other@),
        ensures
            r@ == self@ + other@,
    {
        let (lo, carry): (u128, i64) = if self.lo <= u128::MAX - other.lo {
            (self.lo + other.lo, 0)
        } else {
            (self.lo - (u128::MAX - other.lo) - 1, 1)
        };
        assert(-0x4000_0000_0000_0000 <= self.hi < 0x4000_0000_0000_0000) by (nonlinear_arith)
            requires
                int_in_range(self.hi * limb() + self.lo),
                0 <= self.lo < limb(),
        ;
        assert(-0x4000_0000_0000_0000 <= other.hi < 0x4000_0000_0000_0000) by (nonlinear_arith)
            requires
                int_in_range(other.hi * limb() + other.lo),
                0 <= other.lo < limb(),
        ;
        let hi: i64 = self.hi + other.hi + carry;
        let r = Int { hi, lo };
        assert(r@ == self@ + other@) by (nonlinear_arith)
            requires
                r.hi == self.hi + other.hi + carry,
                r.lo + carry * limb() == self.lo + other.lo,
        ;
        r
    }

    /// Subtraction; MiniRust integers do not overflow.
    pub fn sub(self, other: Int) -> (r: Int)
        requires
            int_in_range(self@),
            int_in_range(other@),
        ensures
            r@ == self@ - other@,
    {
        let (lo, borrow): (u128, i64) = if self.lo >= other.lo {
            (self.lo - other.lo, 0)
        } else {
            (u128::MAX - (other.lo - self.lo) + 1, 1)
        };
        assert(-0x4000_0000_0000_0000 <= self.hi < 0x4000_0000_0000_0000) by (nonlinear_arith)
            requires
                int_in_range(self.hi * limb() + self.lo),
                0 <= self.lo < limb(),
        ;
        assert(-0x4000_0000_0000_0000 <= other.hi < 0x4000_0000_0000_0000) by (nonlinear_arith)
            requires
                int_in_range(other.hi * limb() + other.lo),
                0 <= other.lo < limb(),
        ;
        let hi: i64 = self.hi - other.hi - borrow;
        let r = Int { hi, lo };
        assert(r@ == self@ - other@) by (nonlinear_arith)
            requires
                r.hi == self.hi - other.hi - borrow,
                r.lo - borrow * limb() == self.lo - other.lo,
        ;
        r
    }

    /// `self < other` on the values.
    pub fn lt(self, other: Int) -> (b: bool)
        ensures
            b == (self@ < other@),
    {
        let b = self.hi < other.hi || (self.hi == other.hi && self.lo < other.lo);
        assert(b == (self@ < other@)) by (nonlinear_arith)
            requires
                b == (self.hi < other.hi || (self.hi == other.hi && self.lo < other.lo)),
                0 <= self.lo < limb(),
                0 <= other.lo < limb(),
        ;
        b
    }

    /// `self <= other` on the values.
    pub fn le(self, other: Int) -> (b: bool)
        ensures
            b == (self@ <= other@),
    {
        !other.lt(self)
    }

    /// `self == other` on the values.
    pub fn eq(self, other: Int) -> (b: bool)
        ensures
            b == (self@ == other@),
    {
        proof {
            lemma_int_eq_iff_view_eq(self, other);
        }
        self.hi == other.hi && self.lo == other.lo
    }

    /// Wraps the value into the range of an integer type of `bytes` bytes
    /// (MiniRust's `bring_in_bounds`).
    pub fn bring_in_bounds(self, signed: Signedness, bytes: u64) -> (r: Int)
        requires
            1 <= bytes <= 16,
        ensures
            r@ == wrap_to_bits(self@, signed, (8 * bytes) as nat),
    {
        let n: u32 = (8 * bytes) as u32;
        proof {
            lemma_pow2_128();
            lemma_pow2_adds(n as nat, (128 - n) as nat);
            lemma_pow2_pos(n as nat);
            lemma_pow2_pos((128 - n) as nat);
            lemma_pow2_unfold(n as nat);
            let k = self.hi * pow2((128 - n) as nat);
            assert(self@ == pow2(n as nat) * k + self.lo) by (nonlinear_arith)
                requires
                    limb() == pow2(n as nat) * pow2((128 - n) as nat),
                    self@ == self.hi * limb() + self.lo,
                    k == self.hi * pow2((128 - n) as nat),
            ;
            lemma_mod_multiples_vanish(k, self.lo as int, pow2(n as nat) as int);
        }
        if n == 128 {
            // The low limb already is the value modulo 2^128.
            proof {
                assert(self.lo as int % limb() == self.lo as int) by (nonlinear_arith)
                    requires 0 <= self.lo < limb();
            }
            let m = self.lo;
            if signed == Signedness::Signed && m >= 0x8000_0000_0000_0000_0000_0000_0000_0000u128 {
                Int { hi: -1, lo: m }
            } else {
                Int { hi: 0, lo: m }
            }
        } else {
            let p = pow2_u128(n);
            let m = self.lo % p;
            let half = pow2_u128(n - 1);
            if signed == Signedness::Signed && m >= half {
                proof {
                    assert(pow2(n as nat) <= pow2(120)) by {
                        lemma_pow2_adds(n as nat, (120 - n) as nat);
                        lemma_pow2_pos((120 - n) as nat);
                        assert(pow2(n as nat) <= pow2(n as nat) * pow2((120 - n) as nat)) by (nonlinear_arith)
                            requires pow2((120 - n) as nat) >= 1;
                    }
                }
                let v: i128 = (m as i128) - (p as i128);
                Int::from_i128(v)
            } else {
                Int { hi: 0, lo: m }
            }
        }
    }
}


/// The smallest and one past the largest value of an integer type of
/// `bits` bits.
pub open spec fn type_min(signed: Signedness, bits: nat) -> int {
    if signed == Signedness::Signed {
        -pow2((bits - 1) as nat)
    } else {
        0
    }
}

pub open spec fn type_end(signed: Signedness, bits: nat) -> int {
    if signed == Signedness::Signed {
        pow2((bits - 1) as nat) as int
    } else {
        pow2(bits) as int
    }
}

/// Reading bits as an integer type gives a value of the type that agrees
/// with the bits modulo `2^bits`; a value of the type is read back as
/// itself.
pub proof fn law_wrap_to_bits(v: int, signed: Signedness, bits: nat)
    requires
        bits >= 1,
    ensures
        type_min(signed, bits) <= wrap_to_bits(v, signed, bits) < type_end(signed, bits),
        (wrap_to_bits(v, signed, bits) - v) % (pow2(bits) as int) == 0,
        type_min(signed, bits) <= v < type_end(signed, bits) ==> wrap_to_bits(v, signed, bits) == v,
{
    let p = pow2(bits) as int;
    lemma_pow2_pos(bits);
    lemma_pow2_unfold(bits);
    let m = v % p;
    assert(0 <= m < p);
    assert((v - m) % p == 0) by {
        let q = v / p;
        assert(v == p * q + m) by (nonlinear_arith)
            requires p > 0, q == v / p, m == v % p;
        lemma_mod_multiples_vanish(q, 0, p);
        assert(p * q + 0 == p * q);
    }
    assert((m - p - v) % p == 0) by {
        let q = v / p;
        assert(v == p * q + m) by (nonlinear_arith)
            requires p > 0, q == v / p, m == v % p;
        lemma_mod_multiples_vanish(-q - 1, 0, p);
        assert(m - p - v == p * (-q - 1) + 0) by (nonlinear_arith)
            requires v == p * q + m;
    }
    assert((m - v) % p == 0) by {
        let q = v / p;
        assert(v == p * q + m) by (nonlinear_arith)
            requires p > 0, q == v / p, m == v % p;
        lemma_mod_multiples_vanish(-q, 0, p);
        assert(m - v == p * (-q) + 0) by (nonlinear_arith)
            requires v == p * q + m;
    }
    if type_min(signed, bits) <= v < type_end(signed, bits) {
        if v >= 0 {
            lemma_small_mod(v as nat, p as nat);
        } else {
            lemma_mod_multiples_vanish(1, v, p);
            assert(p * 1 + v == v + p);
            lemma_small_mod((v + p) as nat, p as nat);
        }
    }
}

/// A value wrapped into a type of at most 128 bits lies within one 128-bit limb of zero.
pub proof fn lemma_wrap_bounds(v: int, signed: Signedness, bits: nat)
    requires
        1 <= bits <= 128,
    ensures
        -limb() <= wrap_to_bits(v, signed, bits) < limb(),
        int_in_range(wrap_to_bits(v, signed, bits)),
        1 <= pow2(bits) <= limb(),
{
    lemma_pow2_128();
    lemma_pow2_adds(bits, (128 - bits) as nat);
    lemma_pow2_pos(bits);
    lemma_pow2_pos((128 - bits) as nat);
    assert(pow2(bits) <= limb()) by (nonlinear_arith)
        requires
            limb() == pow2(bits) * pow2((128 - bits) as nat),
            pow2((128 - bits) as nat) >= 1,
            pow2(bits) >= 1,
    ;
}

/// The integer that `bits` encodes in an integer type of `bytes` bytes:
/// the low `8 * bytes` bits, read as unsigned or as two's complement.
pub fn int_from_raw_bits(bits: u128, signed: Signedness, bytes: u64) -> (r: Int)
    requires
        1 <= bytes <= 16,
    ensures
        r@ == wrap_to_bits(bits as int, signed, (8 * bytes) as nat),
{
    Int::from_u128(bits).bring_in_bounds(signed, bytes)
}

} // verus!
