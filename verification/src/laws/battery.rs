//! Laws of batteries and adapters.

use crate::battery;
use crate::battery::BatteryState;
use crate::battery::Supply;
use crate::binary64::Binary64;
use crate::text;
use vstd::arithmetic::power2::pow2;
use vstd::prelude::*;
use vstd::std_specs::cmp::PartialEqSpec;

verus! {

/// Whether a file can be read and holds this text between white space.
pub open spec fn reads(content: Option<String>, value: Seq<char>) -> bool {
    content is Some && text::trimmed(content->0@) == value
}

/// A system battery makes a battery present; nothing else does, and nothing undoes it.
pub proof fn law_battery_found(before: Seq<Supply>, s: Supply)
    ensures
        battery::state_of(before.push(s)).present <==> battery::state_of(before).present || (reads(
            s.kind,
            "Battery"@,
        ) && !reads(s.scope, "Device"@)),
        !battery::state_of(Seq::empty()).present,
{
    assert(before.push(s).drop_last() =~= before);
}

/// A supply of any kind but a battery that is online delivers power; nothing else does, and
/// nothing undoes it.
pub proof fn law_adapter_found(before: Seq<Supply>, s: Supply)
    ensures
        battery::state_of(before.push(s)).on_ac <==> battery::state_of(before).on_ac || (s.kind is Some
            && !reads(s.kind, "Battery"@) && reads(s.online, "1"@)),
        !battery::state_of(Seq::empty()).on_ac,
{
    assert(before.push(s).drop_last() =~= before);
}

/// The charge is that of the last system battery with a number for its capacity, as it is
/// between 0 and 100, and the nearer end beyond.
pub proof fn law_charge(before: Seq<Supply>, s: Supply, charge: Binary64)
    requires
        s.capacity == Some(charge),
        !charge.is_nan(),
        reads(s.kind, "Battery"@),
        !reads(s.scope, "Device"@),
    ensures
        ({
            let r = battery::state_of(before.push(s)).percent;
            let hundred = Binary64 { bits: 0x4059_0000_0000_0000 };
            let zero = Binary64 { bits: 0 };
            &&& charge.at_least(zero) && hundred.at_least(charge) ==> r == charge
            &&& zero.above(charge) ==> r == zero
            &&& charge.above(hundred) ==> r == hundred
        }),
{
    assert(before.push(s).drop_last() =~= before);
}

/// Any other supply leaves the charge as it is; it is 0 to begin with.
pub proof fn law_charge_kept(before: Seq<Supply>, s: Supply)
    requires
        !reads(s.kind, "Battery"@) || reads(s.scope, "Device"@) || s.capacity is None
            || s.capacity->0.is_nan(),
    ensures
        battery::state_of(before.push(s)).percent == battery::state_of(before).percent,
        battery::state_of(Seq::empty()).percent == (Binary64 { bits: 0 }),
{
    assert(before.push(s).drop_last() =~= before);
}

/// A full charge is 100.
pub proof fn law_full_charge()
    ensures
        battery::FULL == 0x4059_0000_0000_0000,
        (Binary64 { bits: battery::FULL }).value() == 100 * pow2(1074),
{
    vstd::arithmetic::power2::lemma2_to64_rest();
    vstd::arithmetic::power2::lemma_pow2_adds(46, 1028);
    assert(pow2(1074) == 0x4000_0000_0000 * pow2(1028));
    assert((Binary64 { bits: battery::FULL }).value() == 0x19_0000_0000_0000 * pow2(1028));
}

/// Supplies that could not be listed are as good as none.
pub proof fn law_supplies_listed(supplies: Seq<Supply>)
    ensures
        battery::state_read(Some(supplies)) == battery::state_of(supplies),
        battery::state_read(None) == battery::state_of(Seq::empty()),
{
}

/// States are equal if and only if they agree in charge, as a number, in presence and in
/// power.
pub proof fn law_equal_states(a: BatteryState, b: BatteryState)
    ensures
        PartialEqSpec::eq_spec(&a, &b) <==> a.percent.equals(b.percent) && a.present == b.present
            && a.on_ac == b.on_ac,
{
}

} // verus!
