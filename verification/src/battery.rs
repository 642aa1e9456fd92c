//! Batteries and power adapters.

use crate::binary64::Binary64;
use crate::text;
use vstd::prelude::*;

verus! {

/// The bits of 100.0, a full charge.
pub const FULL: u64 = 0x4059_0000_0000_0000;

#[derive(Clone, Copy, Debug)]
pub struct BatteryState {
    /// The charge in percent, 0 to 100. Means something only when `present`.
    pub percent: Binary64,
    /// Whether at least one battery was found.
    pub present: bool,
    /// Whether an adapter delivers power.
    pub on_ac: bool,
}

/// No battery and no adapter.
pub open spec fn no_battery() -> BatteryState {
    BatteryState { percent: Binary64 { bits: 0 }, present: false, on_ac: false }
}

impl Default for BatteryState {
    fn default() -> (r: BatteryState)
        ensures
            r == no_battery(),
    {
        BatteryState { percent: Binary64::zero(), present: false, on_ac: false }
    }
}

impl PartialEq for BatteryState {
    /// Charges are compared as numbers, so what is no number differs from itself.
    fn eq(&self, other: &BatteryState) -> (r: bool) {
        self.percent.same(other.percent) && self.present == other.present && self.on_ac
            == other.on_ac
    }
}

impl vstd::std_specs::cmp::PartialEqSpecImpl for BatteryState {
    open spec fn obeys_eq_spec() -> bool {
        true
    }

    open spec fn eq_spec(&self, other: &BatteryState) -> bool {
        self.percent.equals(other.percent) && self.present == other.present && self.on_ac
            == other.on_ac
    }
}

/// A directory under `/sys/class/power_supply`: what was read of its `type`, `scope` and
/// `online`, and the number in its `capacity`, where that is one.
#[derive(Debug)]
pub struct Supply {
    pub kind: Option<String>,
    pub scope: Option<String>,
    pub capacity: Option<Binary64>,
    pub online: Option<String>,
}

/// Whether a file holds this text, surrounding white space aside.
pub open spec fn holds(content: Option<String>, value: Seq<char>) -> bool {
    content matches Some(c) && text::trimmed(c@) == value
}

/// Whether a supply is a system battery. Batteries of peripherals, whose scope is
/// `Device`, do not count.
pub open spec fn is_battery(s: Supply) -> bool {
    holds(s.kind, "Battery"@) && !holds(s.scope, "Device"@)
}

/// The charge that a system battery reports, where it reports a number.
pub open spec fn charge_of(s: Supply) -> Option<Binary64> {
    match s.capacity {
        Some(charge) if is_battery(s) && !charge.is_nan() => Some(charge),
        _ => None,
    }
}

/// Whether a supply is an adapter of any kind that delivers power.
pub open spec fn delivers(s: Supply) -> bool {
    s.kind is Some && !holds(s.kind, "Battery"@) && holds(s.online, "1"@)
}

/// A charge brought into 0 to 100.
pub open spec fn bounded(charge: Binary64) -> Binary64 {
    if charge.rank() < 0 {
        Binary64 { bits: 0 }
    } else if charge.rank() > FULL {
        Binary64 { bits: FULL }
    } else {
        charge
    }
}

/// The state after one more supply has been seen. The last charge counts.
pub open spec fn with_supply(state: BatteryState, s: Supply) -> BatteryState {
    BatteryState {
        percent: match charge_of(s) {
            Some(charge) => bounded(charge),
            None => state.percent,
        },
        present: state.present || is_battery(s),
        on_ac: state.on_ac || delivers(s),
    }
}

/// The state that supplies make.
pub open spec fn state_of(supplies: Seq<Supply>) -> BatteryState
    decreases supplies.len(),
{
    if supplies.len() == 0 {
        no_battery()
    } else {
        with_supply(state_of(supplies.drop_last()), supplies.last())
    }
}

/// The state that the listed supplies make; none when they could not be listed.
pub open spec fn state_read(supplies: Option<Seq<Supply>>) -> BatteryState {
    match supplies {
        Some(v) => state_of(v),
        None => no_battery(),
    }
}

fn file_holds(content: &Option<String>, value: &str) -> (r: bool)
    ensures
        r == holds(*content, value@),
{
    match content {
        Some(c) => {
            let chars = text::chars_of(c.as_str());
            text::is_text(text::trim(chars.as_slice()), value)
        },
        None => false,
    }
}

fn bound(charge: Binary64) -> (r: Binary64)
    requires
        !charge.is_nan(),
    ensures
        r == bounded(charge),
{
    let full = Binary64 { bits: FULL };
    let zero = Binary64::zero();
    if zero.gt(charge) {
        zero
    } else if charge.gt(full) {
        full
    } else {
        charge
    }
}

/// The state of the system battery and the adapters, given the directories under
/// `/sys/class/power_supply`; none of either when they could not be listed.
pub fn read_battery_from(supplies: Option<&Vec<Supply>>) -> (r: BatteryState)
    ensures
        r == state_read(text::given(supplies)),
{
    let mut state = BatteryState::default();
    if let Some(v) = supplies {
        assert(v@.take(0) =~= Seq::<Supply>::empty());
        for i in 0..v.len()
            invariant
                state == state_of(v@.take(i as int)),
        {
            let s = &v[i];
            proof {
                assert(v@.take(i + 1).drop_last() =~= v@.take(i as int));
                assert(v@.take(i + 1).last() == v@[i as int]);
            }
            if file_holds(&s.kind, "Battery") {
                if !file_holds(&s.scope, "Device") {
                    state.present = true;
                    if let Some(charge) = s.capacity {
                        if charge.same(charge) {
                            state.percent = bound(charge);
                        }
                    }
                }
            } else if s.kind.is_some() && file_holds(&s.online, "1") {
                state.on_ac = true;
            }
        }
        assert(v@.take(v@.len() as int) =~= v@);
    }
    state
}

/// A battery is present if and only if there is some system battery, and there is power if
/// and only if some adapter delivers it: in whatever order the supplies come.
pub proof fn law_presence(supplies: Seq<Supply>)
    ensures
        state_of(supplies).present <==> exists|i: int|
            0 <= i < supplies.len() && is_battery(#[trigger] supplies[i]),
        state_of(supplies).on_ac <==> exists|i: int|
            0 <= i < supplies.len() && delivers(#[trigger] supplies[i]),
    decreases supplies.len(),
{
    if supplies.len() > 0 {
        let rest = supplies.drop_last();
        law_presence(rest);
        assert forall|i: int| 0 <= i < rest.len() implies #[trigger] supplies[i] == rest[i] by {}
        if state_of(rest).present {
            let i = choose|i: int| 0 <= i < rest.len() && is_battery(#[trigger] rest[i]);
            assert(is_battery(supplies[i]));
        }
        if state_of(rest).on_ac {
            let i = choose|i: int| 0 <= i < rest.len() && delivers(#[trigger] rest[i]);
            assert(delivers(supplies[i]));
        }
        assert(supplies[supplies.len() - 1] == supplies.last());
    }
}

/// The charge lies between 0 and 100, and is 0 when there is no battery.
pub proof fn law_charge_in_range(supplies: Seq<Supply>)
    ensures
        !state_of(supplies).percent.is_nan(),
        0 <= state_of(supplies).percent.rank() <= FULL,
        !state_of(supplies).present ==> state_of(supplies).percent == (Binary64 { bits: 0 }),
    decreases supplies.len(),
{
    if supplies.len() > 0 {
        law_charge_in_range(supplies.drop_last());
    }
}

/// A battery of a peripheral changes nothing, wherever it is listed.
pub proof fn law_peripheral_ignored(before: Seq<Supply>, s: Supply, after: Seq<Supply>)
    requires
        holds(s.kind, "Battery"@),
        holds(s.scope, "Device"@),
    ensures
        state_of(before + seq![s] + after) == state_of(before + after),
    decreases after.len(),
{
    let all = before + seq![s] + after;
    if after.len() == 0 {
        assert(all.drop_last() =~= before);
        assert(all.last() == s);
        assert(before + after =~= before);
    } else {
        law_peripheral_ignored(before, s, after.drop_last());
        assert(all.drop_last() =~= before + seq![s] + after.drop_last());
        assert((before + after).drop_last() =~= before + after.drop_last());
        assert(all.last() == after.last());
        assert((before + after).last() == after.last());
    }
}

} // verus!
