//! Laws of hardware sensors.

use crate::binary64::Binary64;
use crate::json;
use crate::json::JsonTree;
use crate::laws;
use crate::sensors;
use crate::sensors::Pick;
use crate::sensors::Reading;
use crate::sensors::Request;
use crate::sensors::SensorReading;
use crate::sensors::SensorSpec;
use crate::sensors::SensorStatus;
use crate::text;
use vstd::prelude::*;

verus! {

/// The number under `value` of a feature of a sensor.
pub open spec fn number_of(sensor: JsonTree, feature: Seq<char>) -> Option<Binary64> {
    match sensor.member(feature) {
        Some(f) => match f.member("value"@) {
            Some(JsonTree::Number(n)) => n.float,
            _ => None,
        },
        None => None,
    }
}

/// The temperature that a member of a chip shows: in degrees Celsius, from 25 to 150.
#[verifier::opaque]
pub open spec fn temperature(m: (Seq<char>, JsonTree)) -> Option<Binary64> {
    match (m.1.member("input"@), number_of(m.1, "input"@)) {
        (Some(input), Some(v)) if m.0 != "Adapter"@ && input.member("unit"@) == Some(
            JsonTree::Text("°C"@),
        ) && v.at_least(Binary64 { bits: 0x4039_0000_0000_0000 }) && (Binary64 {
            bits: 0x4062_c000_0000_0000,
        }).at_least(v) => Some(v),
        _ => None,
    }
}

/// A sensor with a label of its own.
#[verifier::opaque]
pub open spec fn named(m: (Seq<char>, JsonTree)) -> bool {
    m.1.member("label"@) matches Some(JsonTree::Text(label)) && !"temp"@.is_prefix_of(label)
}

/// A sensor without a label, under a generic key.
#[verifier::opaque]
pub open spec fn generic(m: (Seq<char>, JsonTree)) -> bool {
    m.1.member("label"@) is None && "temp"@.is_prefix_of(m.0)
}

/// What a sensor is called: by its label where that is text, else by its key.
#[verifier::opaque]
pub open spec fn called(m: (Seq<char>, JsonTree)) -> Seq<char> {
    match m.1.member("label"@) {
        Some(JsonTree::Text(label)) => label,
        _ => m.0,
    }
}

/// Whether the pick of a chip is this member.
pub open spec fn picked(p: Pick, m: (Seq<char>, JsonTree)) -> bool {
    &&& temperature(m) == Some(p.value)
    &&& p.display == called(m)
    &&& p.status == sensors::status_of(m.1, p.value)
}

proof fn lemma_pick(m: (Seq<char>, JsonTree))
    ensures
        match sensors::pick_of(m) {
            Some(p) => picked(p, m) && p.labelled == (m.1.member("label"@) is Some),
            None => temperature(m) is None,
        },
{
    reveal(temperature);
    reveal(called);
}

/// Whether the temperature sensors of a chip all have either a label of their own or a
/// generic key.
pub open spec fn regular(members: Seq<(Seq<char>, JsonTree)>) -> bool {
    forall|i: int|
        0 <= i < members.len() && temperature(#[trigger] members[i]) is Some ==> named(members[i])
            || generic(members[i])
}

/// Whether the temperature `v` of member `i` is not behind that of member `j`: one with a
/// label comes before one without, a hotter one before a colder one, and of equally hot
/// ones the first.
pub open spec fn leads(members: Seq<(Seq<char>, JsonTree)>, i: int, j: int) -> bool {
    temperature(members[j]) matches Some(w) ==> (temperature(members[i]) matches Some(v) && {
        ||| named(members[i]) && !named(members[j])
        ||| (named(members[i]) == named(members[j]) && v.at_least(w) && (j < i ==> v.above(w)))
    })
}

/// Whether the pick of a chip is member `i`, and no other member comes before it.
pub open spec fn best(members: Seq<(Seq<char>, JsonTree)>, p: Pick, i: int) -> bool {
    &&& 0 <= i < members.len()
    &&& picked(p, members[i])
    &&& forall|j: int| 0 <= j < members.len() ==> #[trigger] leads(members, i, j)
}

proof fn lemma_regular(m: (Seq<char>, JsonTree))
    requires
        temperature(m) is Some,
        named(m) || generic(m),
    ensures
        sensors::pick_of(m) is Some,
        picked(sensors::pick_of(m)->0, m),
        (sensors::pick_of(m)->0).labelled == named(m),
        "temp"@.is_prefix_of(called(m)) == !named(m),
{
    reveal(named);
    reveal(generic);
    reveal(called);
    lemma_pick(m);
}

proof fn lemma_pick_has_number(m: (Seq<char>, JsonTree))
    ensures
        temperature(m) matches Some(v) ==> !v.is_nan(),
{
    reveal(temperature);
}

/// Of a chip whose temperature sensors all have either a label of their own or a generic
/// key, the hottest with a label stands for the chip; where none has a label, the hottest.
/// Of equally hot ones it is the first. A chip without a temperature has none.
pub proof fn law_hottest_stands_for_chip(members: Seq<(Seq<char>, JsonTree)>)
    requires
        regular(members),
    ensures
        match sensors::chosen(members) {
            Some(p) => exists|i: int| #[trigger] best(members, p, i),
            None => forall|i: int|
                0 <= i < members.len() ==> temperature(#[trigger] members[i]) is None,
        },
    decreases members.len(),
{
    if members.len() > 0 {
        let front = members.drop_last();
        let n = members.len() - 1;
        assert(members[n] == members.last());
        assert forall|i: int| 0 <= i < front.len() implies #[trigger] members[i] == front[i] by {}
        assert(regular(front)) by {
            assert forall|i: int|
                0 <= i < front.len() && temperature(#[trigger] front[i]) is Some implies named(
                front[i],
            ) || generic(front[i]) by {
                assert(members[i] == front[i]);
            }
        }
        law_hottest_stands_for_chip(front);
        lemma_pick(members[n]);
        if temperature(members[n]) is Some {
            lemma_regular(members[n]);
            let cur = sensors::pick_of(members[n])->0;
            if let Some(b) = sensors::chosen(front) {
                let k = choose|i: int| #[trigger] best(front, b, i);
                lemma_step(members, cur, b, k);
            } else {
                assert(sensors::chosen(members) == Some(cur));
                assert forall|j: int| 0 <= j < members.len() implies #[trigger] leads(
                    members,
                    n,
                    j,
                ) by {
                    if j < n {
                        assert(members[j] == front[j]);
                    } else {
                        lemma_pick_has_number(members[n]);
                    }
                }
                assert(best(members, cur, n));
            }
        } else if let Some(b) = sensors::chosen(front) {
            let k = choose|i: int| #[trigger] best(front, b, i);
            assert forall|j: int| 0 <= j < members.len() implies #[trigger] leads(members, k, j) by {
                if j < n {
                    assert(leads(front, k, j));
                }
            }
            assert(best(members, b, k));
        } else {
            assert forall|i: int| 0 <= i < members.len() implies temperature(
                #[trigger] members[i],
            ) is None by {
                if i < n {
                    assert(members[i] == front[i]);
                }
            }
        }
    }
}

proof fn lemma_step(members: Seq<(Seq<char>, JsonTree)>, cur: Pick, b: Pick, k: int)
    requires
        members.len() > 0,
        regular(members),
        temperature(members[members.len() - 1]) is Some,
        sensors::pick_of(members.last()) == Some(cur),
        sensors::chosen(members.drop_last()) == Some(b),
        best(members.drop_last(), b, k),
    ensures
        sensors::chosen(members) matches Some(p) && exists|i: int| #[trigger] best(members, p, i),
{
    let front = members.drop_last();
    let n = members.len() - 1;
    assert(members[n] == members.last());
    assert(members[k] == front[k]);
    lemma_regular(members[n]);
    lemma_regular(members[k]);
    lemma_pick_has_number(members[n]);
    lemma_pick_has_number(members[k]);
    if sensors::preferred(cur, b) {
        assert forall|j: int| 0 <= j < members.len() implies #[trigger] leads(members, n, j) by {
            if j < n {
                assert(members[j] == front[j]);
                assert(leads(front, k, j));
            }
        }
        assert(best(members, cur, n));
    } else {
        assert forall|j: int| 0 <= j < members.len() implies #[trigger] leads(members, k, j) by {
            if j < n {
                assert(members[j] == front[j]);
                assert(leads(front, k, j));
            }
        }
        assert(best(members, b, k));
    }
}

/// One more sensor: it replaces the one chosen so far if that is called by a generic name
/// and the new one has a label; it does not if it is the other way round; otherwise if it
/// is hotter. What shows no temperature changes nothing.
pub proof fn law_one_more_sensor(members: Seq<(Seq<char>, JsonTree)>, m: (Seq<char>, JsonTree))
    ensures
        temperature(m) is None ==> sensors::chosen(members.push(m)) == sensors::chosen(members),
        temperature(m) matches Some(v) ==> (match sensors::chosen(members) {
            Some(b) => {
                let newer = m.1.member("label"@) is Some;
                let older = !"temp"@.is_prefix_of(b.display);
                let takes = (newer && !older) || (newer == older && v.above(b.value));
                &&& takes ==> sensors::chosen(members.push(m)) is Some && picked(
                    sensors::chosen(members.push(m))->0,
                    m,
                )
                &&& !takes ==> sensors::chosen(members.push(m)) == Some(b)
            },
            None => sensors::chosen(members.push(m)) is Some && picked(
                sensors::chosen(members.push(m))->0,
                m,
            ),
        }),
        sensors::chosen(Seq::empty()) is None,
{
    assert(members.push(m).drop_last() =~= members);
    lemma_pick(m);
}

/// A chip has a reading if and only if it is not covered, not known for noise, and shows a
/// temperature; the reading is that of its chosen sensor.
pub proof fn law_reading_of_chip(
    chip: Seq<char>,
    members: Seq<(Seq<char>, JsonTree)>,
    covered: Seq<Seq<char>>,
    rest: Seq<char>,
)
    ensures
        match sensors::candidate_of((chip, JsonTree::Object(members)), covered) {
            Some(r) => {
                &&& !covered.contains(chip)
                &&& chip != "acpitz-"@ + rest && chip != "ucsi_"@ + rest
                &&& sensors::chosen(members) matches Some(p) && r.device == chip && r.sensor
                    == sensors::friendly_name(chip) + seq![':', ' '] + p.display && r.value
                    == p.value && r.unit == "°C"@ && r.status == p.status
            },
            None => {
                ||| covered.contains(chip)
                ||| "acpitz-"@.is_prefix_of(chip)
                ||| "ucsi_"@.is_prefix_of(chip)
                ||| forall|i: int|
                    0 <= i < members.len() ==> temperature(#[trigger] members[i]) is None
            },
        },
{
    reveal_strlit(": ");
    assert(": "@ =~= seq![':', ' ']);
    laws::text::law_prefix(chip, "acpitz-"@, rest);
    laws::text::law_prefix(chip, "ucsi_"@, rest);
    lemma_something_chosen(members);
}

proof fn lemma_something_chosen(members: Seq<(Seq<char>, JsonTree)>)
    ensures
        sensors::chosen(members) is None ==> forall|i: int|
            0 <= i < members.len() ==> temperature(#[trigger] members[i]) is None,
    decreases members.len(),
{
    if members.len() > 0 {
        lemma_something_chosen(members.drop_last());
        lemma_pick(members.last());
        if sensors::chosen(members) is None {
            assert forall|i: int| 0 <= i < members.len() implies temperature(
                #[trigger] members[i],
            ) is None by {
                if i < members.len() - 1 {
                    assert(members.drop_last()[i] == members[i]);
                }
            }
        }
    }
}

/// Chips that hold no object have no reading.
pub proof fn law_chip_is_object(chip: Seq<char>, v: JsonTree, covered: Seq<Seq<char>>)
    ensures
        sensors::candidate_of((chip, v), covered) is Some ==> v is Object,
{
}

/// Each chip is looked at on its own, in order.
pub proof fn law_chips_apart(
    a: Seq<(Seq<char>, JsonTree)>,
    b: Seq<(Seq<char>, JsonTree)>,
    chip: (Seq<char>, JsonTree),
    covered: Seq<Seq<char>>,
)
    ensures
        sensors::candidates_of(a + b, covered) == sensors::candidates_of(a, covered)
            + sensors::candidates_of(b, covered),
        sensors::candidates_of(seq![chip], covered) == (match sensors::candidate_of(chip, covered) {
            Some(r) => seq![r],
            None => Seq::empty(),
        }),
    decreases b.len(),
{
    reveal_with_fuel(sensors::candidates_of, 2);
    assert(seq![chip].drop_last() =~= Seq::<(Seq<char>, JsonTree)>::empty());
    assert(sensors::candidates_of(seq![chip], covered) =~= (match sensors::candidate_of(
        chip,
        covered,
    ) {
        Some(r) => seq![r],
        None => Seq::empty(),
    }));
    if b.len() == 0 {
        assert(a + b =~= a);
        assert(sensors::candidates_of(a, covered) + sensors::candidates_of(b, covered)
            =~= sensors::candidates_of(a, covered));
    } else {
        law_chips_apart(a, b.drop_last(), chip, covered);
        assert((a + b).drop_last() =~= a + b.drop_last());
        assert((a + b).last() == b.last());
        assert(sensors::candidates_of(a + b, covered) =~= sensors::candidates_of(a, covered)
            + sensors::candidates_of(b, covered));
    }
}

/// Discovery keeps all readings when there are at most four, and else four, of which none
/// is colder than one that is left out; either way the hottest come first.
pub proof fn law_hottest_four(chips: Seq<(Seq<char>, JsonTree)>, covered: Seq<Seq<char>>)
    ensures
        ({
            let all = sensors::candidates_of(chips, covered);
            let kept = sensors::discovered(chips, covered);
            &&& kept.len() == if all.len() <= 4 {
                all.len()
            } else {
                4
            }
            &&& forall|i: int, j: int|
                0 <= i < j < kept.len() ==> (#[trigger] kept[i]).value.rank() >= (
                #[trigger] kept[j]).value.rank()
            &&& forall|i: int| 0 <= i < kept.len() ==> all.contains(#[trigger] kept[i])
            &&& forall|c: int, i: int|
                0 <= c < all.len() && 0 <= i < kept.len() && !kept.contains(#[trigger] all[c])
                    ==> (#[trigger] kept[i]).value.rank() >= all[c].value.rank()
        }),
{
    let all = sensors::candidates_of(chips, covered);
    let kept = sensors::discovered(chips, covered);
    let sorted = sensors::hottest_first(all);
    sensors::law_sorting(all);
    sensors::law_discovery(chips, covered);
    assert forall|i: int| 0 <= i < kept.len() implies all.contains(#[trigger] kept[i]) by {
        assert(kept[i] == sorted[i]);
        assert(sorted.contains(sorted[i]));
    }
    assert forall|c: int, i: int|
        0 <= c < all.len() && 0 <= i < kept.len() && !kept.contains(#[trigger] all[c]) implies (
    #[trigger] kept[i]).value.rank() >= all[c].value.rank() by {
        assert(all.contains(all[c]));
        assert(sorted.contains(all[c]));
        let k = choose|k: int| 0 <= k < sorted.len() && sorted[k] == all[c];
        if k < kept.len() {
            assert(kept[k] == all[c]);
        }
        assert(kept[i] == sorted[i]);
    }
}

/// Equally hot readings stay in the order of their chips.
pub proof fn law_order_of_equals(chips: Seq<(Seq<char>, JsonTree)>, covered: Seq<Seq<char>>, rank: int)
    requires
        sensors::candidates_of(chips, covered).len() <= 4,
    ensures
        sensors::discovered(chips, covered).filter(|r: Reading| r.value.rank() == rank)
            == sensors::candidates_of(chips, covered).filter(|r: Reading| r.value.rank() == rank),
{
    let all = sensors::candidates_of(chips, covered);
    sensors::law_sorting(all);
    assert(sensors::as_hot_as(sensors::hottest_first(all), rank) == sensors::as_hot_as(all, rank));
}

/// Whether one of the four alarms is raised.
pub open spec fn raised(sensor: JsonTree) -> bool {
    let one = Binary64 { bits: 0x3ff0_0000_0000_0000 };
    ||| (number_of(sensor, "crit_alarm"@) matches Some(v) && v.equals(one))
    ||| (number_of(sensor, "lcrit_alarm"@) matches Some(v) && v.equals(one))
    ||| (number_of(sensor, "max_alarm"@) matches Some(v) && v.equals(one))
    ||| (number_of(sensor, "min_alarm"@) matches Some(v) && v.equals(one))
}

/// Whether a value has reached the sensor's critical limit.
pub open spec fn reached_crit(sensor: JsonTree, value: Binary64) -> bool {
    number_of(sensor, "crit"@) matches Some(crit) && value.at_least(crit)
}

/// Whether a value has reached the sensor's maximum, where it has a positive one.
pub open spec fn reached_max(sensor: JsonTree, value: Binary64) -> bool {
    number_of(sensor, "max"@) matches Some(max) && max.above(Binary64 { bits: 0 })
        && value.at_least(max)
}

/// When a sensor is critical, when it gives a warning, and when all is well. 75 and 90
/// degrees count where the sensor's own maximum does not say otherwise.
pub proof fn law_status(sensor: JsonTree, value: Binary64)
    ensures
        ({
            let status = sensors::status_of(sensor, value);
            let warm = value.at_least(Binary64 { bits: 0x4052_c000_0000_0000 });
            let hot = value.at_least(Binary64 { bits: 0x4056_8000_0000_0000 });
            &&& status == SensorStatus::Critical <==> raised(sensor) || reached_crit(sensor, value)
                || (hot && !reached_max(sensor, value))
            &&& status == SensorStatus::Warning <==> !raised(sensor) && !reached_crit(sensor, value)
                && (reached_max(sensor, value) || (warm && !hot))
        }),
{
}

proof fn lemma_sensor_named(members: Seq<(Seq<char>, JsonTree)>, name: Seq<char>)
    ensures
        match sensors::sensor_named(members, name) {
            Some(x) => exists|i: int|
                {
                    &&& 0 <= i < members.len()
                    &&& (#[trigger] members[i]).1 == x
                    &&& goes_by(members[i], name)
                    &&& forall|j: int| 0 <= j < i ==> !goes_by(#[trigger] members[j], name)
                },
            None => forall|i: int| 0 <= i < members.len() ==> !goes_by(#[trigger] members[i], name),
        },
    decreases members.len(),
{
    if members.len() > 0 && !goes_by(members[0], name) {
        let rest = members.skip(1);
        lemma_sensor_named(rest, name);
        assert forall|i: int| 0 < i < members.len() implies #[trigger] members[i] == rest[i - 1] by {}
        if let Some(x) = sensors::sensor_named(rest, name) {
            let i = choose|i: int|
                {
                    &&& 0 <= i < rest.len()
                    &&& (#[trigger] rest[i]).1 == x
                    &&& goes_by(rest[i], name)
                    &&& forall|j: int| 0 <= j < i ==> !goes_by(#[trigger] rest[j], name)
                };
            assert(members[i + 1] == rest[i]);
            assert forall|j: int| 0 <= j < i + 1 implies !goes_by(#[trigger] members[j], name) by {
                if j > 0 {
                    assert(members[j] == rest[j - 1]);
                }
            }
        }
    }
}

/// Whether a member of a device goes by a name: its key or its label.
pub open spec fn goes_by(m: (Seq<char>, JsonTree), name: Seq<char>) -> bool {
    m.0 == name || m.1.member("label"@) == Some(JsonTree::Text(name))
}

/// A requested sensor is the first of its device that goes by the name. Its reading has
/// the device and the name that were asked for, the number and the unit of its input, 0
/// and nothing where they are missing, and the status at that number.
pub proof fn law_requested_sensor(
    chips: Seq<(Seq<char>, JsonTree)>,
    device: Seq<char>,
    members: Seq<(Seq<char>, JsonTree)>,
    name: Seq<char>,
)
    requires
        json::lookup(chips, device) == Some(JsonTree::Object(members)),
    ensures
        ({
            let r = sensors::requested_readings(
                chips,
                seq![Request { device, sensors: seq![name] }],
            );
            if exists|i: int| 0 <= i < members.len() && goes_by(#[trigger] members[i], name) {
                exists|i: int|
                    {
                        &&& 0 <= i < members.len()
                        &&& goes_by(#[trigger] members[i], name)
                        &&& forall|j: int| 0 <= j < i ==> !goes_by(#[trigger] members[j], name)
                        &&& r.len() == 1
                        &&& r[0].device == device
                        &&& r[0].sensor == name
                        &&& number_of(members[i].1, "input"@) matches Some(v) ==> r[0].value == v
                        &&& number_of(members[i].1, "input"@) is None ==> r[0].value == (Binary64 {
                            bits: 0,
                        })
                        &&& r[0].unit == (match members[i].1.member("input"@) {
                            Some(input) => match input.member("unit"@) {
                                Some(JsonTree::Text(u)) => u,
                                _ => Seq::empty(),
                            },
                            None => Seq::empty(),
                        })
                        &&& r[0].status == sensors::status_of(members[i].1, r[0].value)
                    }
            } else {
                r.len() == 0
            }
        }),
{
    let request = Request { device, sensors: seq![name] };
    let r = sensors::requested_readings(chips, seq![request]);
    reveal_with_fuel(sensors::requested_readings, 2);
    reveal_with_fuel(sensors::named_readings, 2);
    assert(seq![request].drop_last() =~= Seq::<Request>::empty());
    assert(seq![name].drop_last() =~= Seq::<Seq<char>>::empty());
    assert(r =~= sensors::named_readings(device, members, seq![name]));
    lemma_sensor_named(members, name);
    if exists|i: int| 0 <= i < members.len() && goes_by(#[trigger] members[i], name) {
        let x = sensors::sensor_named(members, name)->0;
        let i = choose|i: int|
            {
                &&& 0 <= i < members.len()
                &&& (#[trigger] members[i]).1 == x
                &&& goes_by(members[i], name)
                &&& forall|j: int| 0 <= j < i ==> !goes_by(#[trigger] members[j], name)
            };
        assert(goes_by(members[i], name));
    }
}

/// A device that is not there, or is no object, has no readings.
pub proof fn law_unknown_device(chips: Seq<(Seq<char>, JsonTree)>, request: Request)
    requires
        !(json::lookup(chips, request.device) matches Some(JsonTree::Object(_))),
    ensures
        sensors::requested_readings(chips, seq![request]).len() == 0,
{
    reveal_with_fuel(sensors::requested_readings, 2);
    assert(seq![request].drop_last() =~= Seq::<Request>::empty());
}

/// Requests are read one after the other, and so are the names in one.
pub proof fn law_requests_apart(
    chips: Seq<(Seq<char>, JsonTree)>,
    a: Seq<Request>,
    b: Seq<Request>,
    device: Seq<char>,
    x: Seq<Seq<char>>,
    y: Seq<Seq<char>>,
)
    ensures
        sensors::requested_readings(chips, a + b) == sensors::requested_readings(chips, a)
            + sensors::requested_readings(chips, b),
        sensors::requested_readings(chips, seq![Request { device, sensors: x + y }])
            == sensors::requested_readings(chips, seq![Request { device, sensors: x }])
            + sensors::requested_readings(chips, seq![Request { device, sensors: y }]),
    decreases b.len(),
{
    if b.len() == 0 {
        assert(a + b =~= a);
        assert(sensors::requested_readings(chips, a) + sensors::requested_readings(chips, b)
            =~= sensors::requested_readings(chips, a));
    } else {
        law_requests_apart(chips, a, b.drop_last(), device, x, y);
        assert((a + b).drop_last() =~= a + b.drop_last());
        assert((a + b).last() == b.last());
        assert(sensors::requested_readings(chips, a + b) =~= sensors::requested_readings(chips, a)
            + sensors::requested_readings(chips, b));
    }
    lemma_one_request(chips, Request { device, sensors: x + y });
    lemma_one_request(chips, Request { device, sensors: x });
    lemma_one_request(chips, Request { device, sensors: y });
    if let Some(JsonTree::Object(members)) = json::lookup(chips, device) {
        lemma_names_apart(device, members, x, y);
    } else {
        assert(sensors::requested_readings(chips, seq![Request { device, sensors: x + y }])
            =~= sensors::requested_readings(chips, seq![Request { device, sensors: x }])
            + sensors::requested_readings(chips, seq![Request { device, sensors: y }]));
    }
}

proof fn lemma_one_request(chips: Seq<(Seq<char>, JsonTree)>, r: Request)
    ensures
        sensors::requested_readings(chips, seq![r]) == sensors::device_readings(chips, r),
{
    reveal_with_fuel(sensors::requested_readings, 2);
    assert(seq![r].drop_last() =~= Seq::<Request>::empty());
    assert(sensors::requested_readings(chips, seq![r]) =~= sensors::device_readings(chips, r));
}

proof fn lemma_names_apart(
    device: Seq<char>,
    members: Seq<(Seq<char>, JsonTree)>,
    x: Seq<Seq<char>>,
    y: Seq<Seq<char>>,
)
    ensures
        sensors::named_readings(device, members, x + y) == sensors::named_readings(
            device,
            members,
            x,
        ) + sensors::named_readings(device, members, y),
    decreases y.len(),
{
    if y.len() == 0 {
        assert(x + y =~= x);
    } else {
        lemma_names_apart(device, members, x, y.drop_last());
        assert((x + y).drop_last() =~= x + y.drop_last());
        assert((x + y).last() == y.last());
    }
    assert(sensors::named_readings(device, members, x + y) =~= sensors::named_readings(
        device,
        members,
        x,
    ) + sensors::named_readings(device, members, y));
}

/// Drives, radios and platform hubs have names of their own.
pub proof fn law_known_chips(rest: Seq<char>)
    ensures
        sensors::friendly_name("nvme-"@ + rest) == "NVMe"@,
        sensors::friendly_name("iwlwifi-"@ + rest) == "WiFi"@,
        sensors::friendly_name("iwl-"@ + rest) == "WiFi"@,
        sensors::friendly_name("ath"@ + rest) == "WiFi"@,
        sensors::friendly_name("rtw"@ + rest) == "WiFi"@,
        sensors::friendly_name("pch_"@ + rest) == "PCH"@,
        text::find_of("mt"@ + rest, "phy"@) is Some ==> sensors::friendly_name("mt"@ + rest)
            == "WiFi"@,
{
    reveal_strlit("nvme-");
    reveal_strlit("iwlwifi-");
    reveal_strlit("iwl-");
    reveal_strlit("ath");
    reveal_strlit("rtw");
    reveal_strlit("pch_");
    reveal_strlit("mt");
    lemma_begins("nvme-"@, rest);
    lemma_begins("iwlwifi-"@, rest);
    lemma_begins("iwl-"@, rest);
    lemma_begins("ath"@, rest);
    lemma_begins("rtw"@, rest);
    lemma_begins("pch_"@, rest);
    lemma_begins("mt"@, rest);
    lemma_first_differs("nvme-"@, "iwlwifi-"@ + rest);
    lemma_first_differs("nvme-"@, "iwl-"@ + rest);
    lemma_first_differs("nvme-"@, "ath"@ + rest);
    lemma_first_differs("nvme-"@, "rtw"@ + rest);
    lemma_first_differs("nvme-"@, "pch_"@ + rest);
    lemma_first_differs("nvme-"@, "mt"@ + rest);
    lemma_first_differs("iwlwifi-"@, "pch_"@ + rest);
    lemma_first_differs("iwl-"@, "pch_"@ + rest);
    lemma_first_differs("mt"@, "pch_"@ + rest);
    lemma_first_differs("ath"@, "pch_"@ + rest);
    lemma_first_differs("rtw"@, "pch_"@ + rest);
}

proof fn lemma_begins(pat: Seq<char>, rest: Seq<char>)
    ensures
        pat.is_prefix_of(pat + rest),
{
    assert(pat =~= (pat + rest).subrange(0, pat.len() as int));
}

proof fn lemma_first_differs(pat: Seq<char>, s: Seq<char>)
    requires
        pat.len() > 0,
        s.len() > 0,
        pat[0] != s[0],
    ensures
        !pat.is_prefix_of(s),
{
    if pat.is_prefix_of(s) {
        assert(s.subrange(0, pat.len() as int)[0] == s[0]);
    }
}

/// Any other chip is called by what stands before its first hyphen.
pub proof fn law_other_chips(front: Seq<char>, rest: Seq<char>)
    requires
        forall|i: int| 0 <= i < front.len() ==> #[trigger] front[i] != '-',
        !"nvme-"@.is_prefix_of(front + seq!['-'] + rest),
        !"iwlwifi-"@.is_prefix_of(front + seq!['-'] + rest),
        !"iwl-"@.is_prefix_of(front + seq!['-'] + rest),
        !"mt"@.is_prefix_of(front + seq!['-'] + rest) || text::find_of(
            front + seq!['-'] + rest,
            "phy"@,
        ) is None,
        !"ath"@.is_prefix_of(front + seq!['-'] + rest),
        !"rtw"@.is_prefix_of(front + seq!['-'] + rest),
        !"pch_"@.is_prefix_of(front + seq!['-'] + rest),
    ensures
        sensors::friendly_name(front + seq!['-'] + rest) == front,
{
    let s = front + seq!['-'] + rest;
    text::lemma_index_of(s, '-');
    let n = text::index_of(s, '-');
    assert(s[front.len() as int] == '-');
    if n < front.len() {
        assert(s[n] == front[n]);
    }
    assert(s.take(n) =~= front);
}

/// A chip without a hyphen, and without a name of its own, is called as it is.
pub proof fn law_chip_without_hyphen(chip: Seq<char>)
    requires
        forall|i: int| 0 <= i < chip.len() ==> #[trigger] chip[i] != '-',
        !"mt"@.is_prefix_of(chip),
        !"ath"@.is_prefix_of(chip),
        !"rtw"@.is_prefix_of(chip),
        !"pch_"@.is_prefix_of(chip),
    ensures
        sensors::friendly_name(chip) == chip,
{
    reveal_strlit("nvme-");
    reveal_strlit("iwlwifi-");
    reveal_strlit("iwl-");
    text::lemma_index_of(chip, '-');
    let n = text::index_of(chip, '-');
    assert(n == chip.len());
    assert(chip.take(n) =~= chip);
    if "nvme-"@.is_prefix_of(chip) {
        assert(chip.subrange(0, 5)[4] == chip[4]);
    }
    if "iwlwifi-"@.is_prefix_of(chip) {
        assert(chip.subrange(0, 8)[7] == chip[7]);
    }
    if "iwl-"@.is_prefix_of(chip) {
        assert(chip.subrange(0, 4)[3] == chip[3]);
    }
}

/// Readings, requests and lists of them hold what they are made of.
pub proof fn law_contents(
    r: SensorReading,
    s: SensorSpec,
    rs: Seq<SensorReading>,
    ss: Seq<SensorSpec>,
    names: Seq<String>,
    requests: Seq<Request>,
)
    ensures
        r@.device == r.device@ && r@.sensor == r.sensor@ && r@.value == r.value && r@.unit
            == r.unit@ && r@.status == r.status,
        s@.device == s.device@ && s@.sensors == sensors::strings(s.sensors@),
        sensors::readings(rs).len() == rs.len(),
        forall|i: int| 0 <= i < rs.len() ==> #[trigger] sensors::readings(rs)[i] == rs[i]@,
        sensors::requests(ss).len() == ss.len(),
        forall|i: int| 0 <= i < ss.len() ==> #[trigger] sensors::requests(ss)[i] == ss[i]@,
        sensors::strings(names).len() == names.len(),
        forall|i: int| 0 <= i < names.len() ==> #[trigger] sensors::strings(names)[i] == names[i]@,
        sensors::devices(requests).len() == requests.len(),
        forall|i: int|
            0 <= i < requests.len() ==> #[trigger] sensors::devices(requests)[i]
                == requests[i].device,
{
}

} // verus!
