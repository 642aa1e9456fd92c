//! Laws of binary64 values.

use crate::binary64;
use crate::binary64::Binary64;
use vstd::arithmetic::power2::pow2;
use vstd::prelude::*;

verus! {

/// Finite numbers compare as their values do, infinities lie beyond them, and what is no
/// number compares with nothing.
pub proof fn law_comparisons(a: Binary64, b: Binary64)
    ensures
        a.is_finite() && b.is_finite() ==> {
            &&& (a.at_least(b) <==> a.value() >= b.value())
            &&& (a.above(b) <==> a.value() > b.value())
            &&& (a.equals(b) <==> a.value() == b.value())
        },
        a.bits == 0x7ff0_0000_0000_0000 && b.is_finite() ==> a.above(b),
        a.bits == 0xfff0_0000_0000_0000 && b.is_finite() ==> b.above(a),
        a.is_nan() ==> !a.at_least(b) && !b.at_least(a) && !a.above(b) && !b.above(a)
            && !a.equals(b) && !b.equals(a),
        a.is_nan() <==> a.bits as int % 0x8000_0000_0000_0000 > 0x7ff0_0000_0000_0000,
        a.is_finite() <==> a.bits as int % 0x8000_0000_0000_0000 < 0x7ff0_0000_0000_0000,
        a.at_least(b) <==> a.above(b) || a.equals(b),
{
    if a.is_finite() && b.is_finite() {
        binary64::law_rank_orders_values(a, b);
    }
}

/// The sign bit negates; each step of the exponent doubles; the smallest step is the unit.
pub proof fn law_values(a: Binary64, b: Binary64)
    ensures
        a.bits < 0x10_0000_0000_0000 ==> a.value() == a.bits,
        0x10_0000_0000_0000 <= a.bits < 0x7fe0_0000_0000_0000 && b.bits == a.bits
            + 0x10_0000_0000_0000 ==> b.value() == 2 * a.value(),
        0x10_0000_0000_0000 <= a.bits < 0x20_0000_0000_0000 ==> a.value() == a.bits,
        a.bits < 0x8000_0000_0000_0000 && b.bits == a.bits + 0x8000_0000_0000_0000 ==> b.value()
            == -a.value(),
{
    vstd::arithmetic::power2::lemma2_to64();
    if 0x10_0000_0000_0000 <= a.bits < 0x20_0000_0000_0000 {
        let m = a.magnitude();
        assert(m == a.bits);
        assert(m / 0x10_0000_0000_0000 - 1 == 0);
        assert(m % 0x10_0000_0000_0000 == m - 0x10_0000_0000_0000);
        let p = pow2((m / 0x10_0000_0000_0000 - 1) as nat) as int;
        assert(p == 1);
        assert(m * p == m) by (nonlinear_arith)
            requires
                p == 1,
        ;
        assert(Binary64::units(m) == (0x10_0000_0000_0000 + m % 0x10_0000_0000_0000) * p);
    }
    if 0x10_0000_0000_0000 <= a.bits < 0x7fe0_0000_0000_0000 && b.bits == a.bits
        + 0x10_0000_0000_0000 {
        let e = (a.bits as int / 0x10_0000_0000_0000 - 1) as nat;
        let f = 0x10_0000_0000_0000 + a.bits as int % 0x10_0000_0000_0000;
        vstd::arithmetic::power2::lemma_pow2_unfold(e + 1);
        assert(b.bits as int % 0x10_0000_0000_0000 == a.bits as int % 0x10_0000_0000_0000);
        assert(b.bits as int / 0x10_0000_0000_0000 - 1 == e + 1);
        assert(b.value() == f * pow2(e + 1));
        assert(f * pow2(e + 1) == 2 * (f * pow2(e))) by (nonlinear_arith)
            requires
                pow2(e + 1) == 2 * pow2(e),
        ;
    }
}

/// Rounding gives the nearest integer, of two equally near ones the larger, as far as 32
/// bits reach; what is negative or no number gives 0.
pub proof fn law_rounding(a: Binary64)
    ensures
        a.is_negative() || a.is_nan() ==> a.nearest_u32() == 0,
        a.bits == 0x7ff0_0000_0000_0000 ==> a.nearest_u32() == u32::MAX,
        a.is_finite() && !a.is_negative() ==> ({
            let one = pow2(1074) as int;
            let r = a.nearest_u32();
            &&& 0 <= r <= u32::MAX
            &&& 2 * r * one <= 2 * a.value() + one
            &&& r < u32::MAX ==> 2 * a.value() < 2 * r * one + one
        }),
{
    if a.is_finite() && !a.is_negative() {
        let one = pow2(1074) as int;
        let half = pow2(1073) as int;
        vstd::arithmetic::power2::lemma_pow2_pos(1074);
        vstd::arithmetic::power2::lemma_pow2_unfold(1074);
        assert(one == 2 * half);
        binary64::law_rank_orders_values(a, Binary64 { bits: 0 });
        assert((Binary64 { bits: 0 }).value() == 0);
        let x = a.value() + half;
        let q = x / one;
        vstd::arithmetic::div_mod::lemma_fundamental_div_mod(x, one);
        vstd::arithmetic::div_mod::lemma_mod_bound(x, one);
        assert(x == one * q + x % one);
        assert(q >= 0) by {
            vstd::arithmetic::div_mod::lemma_div_pos_is_pos(x, one);
        }
        let r = a.nearest_u32();
        assert(r <= q);
        assert(one * r <= one * q) by (nonlinear_arith)
            requires
                r <= q,
                one > 0,
        ;
        assert(2 * r * one == 2 * (one * r)) by (nonlinear_arith);
    }
}

} // verus!
