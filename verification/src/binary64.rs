//! IEEE 754 binary64 values, held by their bits.
//!
//! A comparison or a rounding needs no floating-point arithmetic: it is decided
//! on the bits alone. What does need it is left to the caller, who turns bits
//! into a float and back.

use vstd::prelude::*;

verus! {

/// The bits of positive infinity; a larger magnitude is no number.
pub const INFINITE: u64 = 0x7ff0_0000_0000_0000;

/// A binary64 value.
#[derive(Clone, Copy, Debug)]
pub struct Binary64 {
    pub bits: u64,
}

impl Binary64 {
    pub open spec fn is_negative(self) -> bool {
        self.bits >= 0x8000_0000_0000_0000
    }

    /// The bits without the sign.
    pub open spec fn magnitude(self) -> int {
        self.bits as int % 0x8000_0000_0000_0000
    }

    pub open spec fn is_nan(self) -> bool {
        self.magnitude() > INFINITE
    }

    pub open spec fn is_finite(self) -> bool {
        self.magnitude() < INFINITE
    }

    /// An integer that grows with the value; both zeros have rank zero.
    pub open spec fn rank(self) -> int {
        if self.is_negative() {
            -self.magnitude()
        } else {
            self.magnitude()
        }
    }

    /// `self >= other`, which never holds of what is no number.
    pub open spec fn at_least(self, other: Binary64) -> bool {
        !self.is_nan() && !other.is_nan() && self.rank() >= other.rank()
    }

    /// `self > other`, which never holds of what is no number.
    pub open spec fn above(self, other: Binary64) -> bool {
        !self.is_nan() && !other.is_nan() && self.rank() > other.rank()
    }

    /// `self == other`, which never holds of what is no number.
    pub open spec fn equals(self, other: Binary64) -> bool {
        !self.is_nan() && !other.is_nan() && self.rank() == other.rank()
    }

    /// The real value of a finite magnitude, in units of 2^-1074.
    pub open spec fn units(m: int) -> int {
        if m < 0x10_0000_0000_0000 {
            m
        } else {
            (0x10_0000_0000_0000 + m % 0x10_0000_0000_0000) * vstd::arithmetic::power2::pow2(
                (m / 0x10_0000_0000_0000 - 1) as nat,
            )
        }
    }

    /// The real value of a finite number, in units of 2^-1074.
    pub open spec fn value(self) -> int {
        if self.is_negative() {
            -Self::units(self.magnitude())
        } else {
            Self::units(self.magnitude())
        }
    }

    /// The value rounded to the nearest integer, halves away from zero, and
    /// brought into the range of 32 bits; 0 for what is no number.
    pub open spec fn nearest_u32(self) -> int {
        if self.is_nan() || self.is_negative() {
            0
        } else if !self.is_finite() {
            u32::MAX as int
        } else {
            let r = (self.value() + vstd::arithmetic::power2::pow2(1073))
                / vstd::arithmetic::power2::pow2(1074) as int;
            if r > u32::MAX {
                u32::MAX as int
            } else {
                r
            }
        }
    }

    pub fn zero() -> (r: Binary64)
        ensures
            r.bits == 0,
    {
        Binary64 { bits: 0 }
    }

    fn nan(&self) -> (r: bool)
        ensures
            r == self.is_nan(),
    {
        self.bits % 0x8000_0000_0000_0000 > INFINITE
    }

    /// The rank of the value.
    pub fn key(&self) -> (r: i64)
        ensures
            r == self.rank(),
    {
        if self.bits >= 0x8000_0000_0000_0000 {
            -((self.bits % 0x8000_0000_0000_0000) as i64)
        } else {
            self.bits as i64
        }
    }

    pub fn ge(&self, other: Binary64) -> (r: bool)
        ensures
            r == self.at_least(other),
    {
        !self.nan() && !other.nan() && self.key() >= other.key()
    }

    pub fn gt(&self, other: Binary64) -> (r: bool)
        ensures
            r == self.above(other),
    {
        !self.nan() && !other.nan() && self.key() > other.key()
    }

    pub fn same(&self, other: Binary64) -> (r: bool)
        ensures
            r == self.equals(other),
    {
        !self.nan() && !other.nan() && self.key() == other.key()
    }

    /// Rounds to the nearest integer of 32 bits.
    pub fn round_u32(&self) -> (r: u32)
        ensures
            r == self.nearest_u32(),
    {
        let m = self.bits % 0x8000_0000_0000_0000;
        if self.bits >= 0x8000_0000_0000_0000 || m > INFINITE {
            return 0;
        }
        let e = m / 0x10_0000_0000_0000;
        if e < 1022 {
            proof {
                lemma_small(m as int);
                assert(self.is_finite());
            }
            return 0;
        }
        if e >= 1055 {
            proof {
                if self.is_finite() {
                    lemma_large(m as int);
                }
            }
            return 0xffff_ffff;
        }
        let k = 1075 - e;
        let mantissa: u64 = 0x10_0000_0000_0000 + m % 0x10_0000_0000_0000;
        let half: u64 = 1u64 << (k - 1);
        proof {
            lemma_round(m as int, k as int);
            vstd::arithmetic::power2::lemma_pow2_strictly_increases((k - 1) as nat, 53);
            vstd::arithmetic::power2::lemma2_to64_rest();
            vstd::bits::lemma_u64_shl_is_mul(1, (k - 1) as u64);
            vstd::bits::lemma_u64_shr_is_div((mantissa + half) as u64, k);
        }
        let r = (mantissa + half) >> k;
        if r > 0xffff_ffff {
            0xffff_ffff
        } else {
            r as u32
        }
    }
}

/// Magnitudes below one half round to nothing.
proof fn lemma_small(m: int)
    requires
        0 <= m < 1022 * 0x10_0000_0000_0000,
    ensures
        0 <= Binary64::units(m) < vstd::arithmetic::power2::pow2(1073),
        (Binary64::units(m) + vstd::arithmetic::power2::pow2(1073))
            / vstd::arithmetic::power2::pow2(1074) as int == 0,
{
    let p = vstd::arithmetic::power2::pow2(1020) as int;
    vstd::arithmetic::power2::lemma_pow2_pos(1020);
    vstd::arithmetic::power2::lemma_pow2_adds(53, 1020);
    vstd::arithmetic::power2::lemma_pow2_unfold(1074);
    vstd::arithmetic::power2::lemma2_to64_rest();
    if m < 0x10_0000_0000_0000 {
        assert(0x10_0000_0000_0000 < 0x20_0000_0000_0000 * p) by (nonlinear_arith)
            requires
                p >= 1,
        ;
    } else {
        let e = (m / 0x10_0000_0000_0000 - 1) as nat;
        let f = 0x10_0000_0000_0000 + m % 0x10_0000_0000_0000;
        vstd::arithmetic::power2::lemma_pow2_pos(e);
        if e < 1020 {
            vstd::arithmetic::power2::lemma_pow2_strictly_increases(e, 1020);
        }
        let q = vstd::arithmetic::power2::pow2(e) as int;
        assert(0 <= f * q < 0x20_0000_0000_0000 * p) by (nonlinear_arith)
            requires
                0 <= f < 0x20_0000_0000_0000,
                0 < q <= p,
        ;
    }
    let whole = vstd::arithmetic::power2::pow2(1074) as int;
    let x = Binary64::units(m) + vstd::arithmetic::power2::pow2(1073);
    assert(0 <= x < whole);
    vstd::arithmetic::div_mod::lemma_basic_div(x, whole);
}

/// Magnitudes of 2^32 and more round out of range.
proof fn lemma_large(m: int)
    requires
        1055 * 0x10_0000_0000_0000 <= m,
    ensures
        (Binary64::units(m) + vstd::arithmetic::power2::pow2(1073))
            / vstd::arithmetic::power2::pow2(1074) as int > u32::MAX,
{
    let e = (m / 0x10_0000_0000_0000 - 1) as nat;
    let f = 0x10_0000_0000_0000 + m % 0x10_0000_0000_0000;
    let base = vstd::arithmetic::power2::pow2(1054) as int;
    let whole = vstd::arithmetic::power2::pow2(1074) as int;
    vstd::arithmetic::power2::lemma_pow2_pos(1074);
    vstd::arithmetic::power2::lemma_pow2_pos(1054);
    if e > 1054 {
        vstd::arithmetic::power2::lemma_pow2_strictly_increases(1054, e);
    }
    let q = vstd::arithmetic::power2::pow2(e) as int;
    vstd::arithmetic::power2::lemma2_to64();
    vstd::arithmetic::power2::lemma2_to64_rest();
    vstd::arithmetic::power2::lemma_pow2_adds(20, 1054);
    assert(whole == 0x10_0000 * base);
    assert(f * q >= 0x10_0000_0000_0000 * base) by (nonlinear_arith)
        requires
            f >= 0x10_0000_0000_0000,
            q >= base > 0,
    ;
    let x = Binary64::units(m) + vstd::arithmetic::power2::pow2(1073);
    assert(x >= 0x1_0000_0000 * whole);
    vstd::arithmetic::div_mod::lemma_div_is_ordered(0x1_0000_0000 * whole, x, whole);
    vstd::arithmetic::div_mod::lemma_div_by_multiple(0x1_0000_0000, whole);
}

/// In between, rounding is decided on the mantissa.
proof fn lemma_round(m: int, k: int)
    requires
        1022 * 0x10_0000_0000_0000 <= m < 1055 * 0x10_0000_0000_0000,
        k == 1075 - m / 0x10_0000_0000_0000,
    ensures
        21 <= k <= 53,
        (Binary64::units(m) + vstd::arithmetic::power2::pow2(1073))
            / vstd::arithmetic::power2::pow2(1074) as int == (0x10_0000_0000_0000 + m
            % 0x10_0000_0000_0000 + vstd::arithmetic::power2::pow2((k - 1) as nat))
            / vstd::arithmetic::power2::pow2(k as nat) as int,
{
    let e = (m / 0x10_0000_0000_0000 - 1) as nat;
    let f = 0x10_0000_0000_0000 + m % 0x10_0000_0000_0000;
    let q = vstd::arithmetic::power2::pow2(e) as int;
    let half = vstd::arithmetic::power2::pow2((k - 1) as nat) as int;
    let one = vstd::arithmetic::power2::pow2(k as nat) as int;
    vstd::arithmetic::power2::lemma_pow2_pos(e);
    vstd::arithmetic::power2::lemma_pow2_pos(k as nat);
    vstd::arithmetic::power2::lemma_pow2_pos((k - 1) as nat);
    vstd::arithmetic::power2::lemma_pow2_adds(e, (k - 1) as nat);
    vstd::arithmetic::power2::lemma_pow2_adds(e, k as nat);
    assert(f * q + q * half == q * (f + half)) by (nonlinear_arith);
    vstd::arithmetic::div_mod::lemma_div_multiples_vanish_quotient(q, f + half, one);
}

/// A larger magnitude is a larger value.
proof fn lemma_units_increase(a: int, b: int)
    requires
        0 <= a < b,
    ensures
        0 <= Binary64::units(a) < Binary64::units(b),
{
    if b >= 0x10_0000_0000_0000 {
        let eb = (b / 0x10_0000_0000_0000 - 1) as nat;
        let fb = 0x10_0000_0000_0000 + b % 0x10_0000_0000_0000;
        let qb = vstd::arithmetic::power2::pow2(eb) as int;
        vstd::arithmetic::power2::lemma_pow2_pos(eb);
        if a < 0x10_0000_0000_0000 {
            assert(fb * qb >= fb) by (nonlinear_arith)
                requires
                    fb >= 0,
                    qb >= 1,
            ;
        } else {
            let ea = (a / 0x10_0000_0000_0000 - 1) as nat;
            let fa = 0x10_0000_0000_0000 + a % 0x10_0000_0000_0000;
            let qa = vstd::arithmetic::power2::pow2(ea) as int;
            vstd::arithmetic::power2::lemma_pow2_pos(ea);
            if ea == eb {
                assert(fa * qa < fb * qb) by (nonlinear_arith)
                    requires
                        0 <= fa < fb,
                        qa == qb > 0,
                ;
            } else {
                assert(ea < eb);
                vstd::arithmetic::power2::lemma_pow2_unfold(eb);
                if ea + 1 < eb {
                    vstd::arithmetic::power2::lemma_pow2_strictly_increases(ea, (eb - 1) as nat);
                }
                assert(2 * qa <= qb);
                assert(fa * qa < fb * qb) by (nonlinear_arith)
                    requires
                        0 <= fa < 0x20_0000_0000_0000,
                        fb >= 0x10_0000_0000_0000,
                        0 < 2 * qa <= qb,
                ;
            }
            assert(fa * qa >= 0) by (nonlinear_arith)
                requires
                    fa >= 0,
                    qa > 0,
            ;
        }
    }
}

/// Of finite numbers, the rank orders the values: comparing bits is comparing
/// numbers.
pub proof fn law_rank_orders_values(a: Binary64, b: Binary64)
    requires
        a.is_finite(),
        b.is_finite(),
    ensures
        a.rank() < b.rank() <==> a.value() < b.value(),
        a.rank() == b.rank() <==> a.value() == b.value(),
{
    let ma = a.magnitude();
    let mb = b.magnitude();
    if ma > 0 {
        lemma_units_increase(0, ma);
    }
    if mb > 0 {
        lemma_units_increase(0, mb);
    }
    if ma < mb {
        lemma_units_increase(ma, mb);
    } else if mb < ma {
        lemma_units_increase(mb, ma);
    }
}

} // verus!
