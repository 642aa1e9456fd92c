//! Hardware sensors, as `sensors -J` reports them.

use crate::binary64::Binary64;
use crate::json;
use crate::json::Json;
use crate::json::JsonTree;
use crate::text;
use vstd::prelude::*;

verus! {

/// The bits of 1.0, the value of a raised alarm.
pub const RAISED: u64 = 0x3ff0_0000_0000_0000;

/// The bits of 25.0, the lowest temperature that is taken for a real one.
pub const COLDEST: u64 = 0x4039_0000_0000_0000;

/// The bits of 75.0, from where a temperature is a warning.
pub const HOT: u64 = 0x4052_c000_0000_0000;

/// The bits of 90.0, from where a temperature is critical.
pub const TOO_HOT: u64 = 0x4056_8000_0000_0000;

/// The bits of 150.0, the highest temperature that is taken for a real one.
pub const HOTTEST: u64 = 0x4062_c000_0000_0000;

/// How many readings discovery keeps.
pub const MAX_EXTRA: usize = 4;

/// The sensors of one device that are asked for.
#[derive(Debug)]
pub struct SensorSpec {
    pub device: String,
    pub sensors: Vec<String>,
}

#[derive(Clone, Copy, Debug, PartialEq, Eq, Structural)]
pub enum SensorStatus {
    Normal,
    Warning,
    Critical,
}

#[derive(Debug)]
pub struct SensorReading {
    pub device: String,
    pub sensor: String,
    pub value: Binary64,
    pub unit: String,
    pub status: SensorStatus,
}

#[derive(Debug)]
pub struct SensorsState {
    pub readings: Vec<SensorReading>,
    /// Discovered temperature sensors of devices that no spec names.
    pub extra: Vec<SensorReading>,
}

/// Why the output of `sensors -J` could not be used.
#[derive(Clone, Copy, Debug, PartialEq, Eq, Structural)]
pub enum SensorsError {
    /// The output is no JSON.
    InvalidJson,
    /// The output is a JSON value other than an object.
    NotAnObject,
}

/// The content of a reading.
pub struct Reading {
    pub device: Seq<char>,
    pub sensor: Seq<char>,
    pub value: Binary64,
    pub unit: Seq<char>,
    pub status: SensorStatus,
}

impl View for SensorReading {
    type V = Reading;

    open spec fn view(&self) -> Reading {
        Reading {
            device: self.device@,
            sensor: self.sensor@,
            value: self.value,
            unit: self.unit@,
            status: self.status,
        }
    }
}

/// The content of a spec: a device and the names of sensors.
pub struct Request {
    pub device: Seq<char>,
    pub sensors: Seq<Seq<char>>,
}

impl View for SensorSpec {
    type V = Request;

    open spec fn view(&self) -> Request {
        Request { device: self.device@, sensors: strings(self.sensors@) }
    }
}

/// The texts of a list of strings.
pub open spec fn strings(v: Seq<String>) -> Seq<Seq<char>> {
    v.map_values(|s: String| s@)
}

pub open spec fn requests(v: Seq<SensorSpec>) -> Seq<Request> {
    v.map_values(|s: SensorSpec| s@)
}

pub open spec fn readings(v: Seq<SensorReading>) -> Seq<Reading> {
    v.map_values(|r: SensorReading| r@)
}

/// The number that a sensor gives for one of its features.
pub open spec fn feature(sensor: JsonTree, key: Seq<char>) -> Option<Binary64> {
    match sensor.member(key) {
        Some(f) => f.member_float("value"@),
        None => None,
    }
}

/// Whether a sensor raises an alarm.
pub open spec fn alarm(sensor: JsonTree, key: Seq<char>) -> bool {
    match feature(sensor, key) {
        Some(v) => v.equals(Binary64 { bits: RAISED }),
        None => false,
    }
}

/// The status of a sensor at a value: any alarm comes first, then the sensor's own
/// limits, of which a maximum counts only when it is positive, then fixed limits.
pub open spec fn status_of(sensor: JsonTree, value: Binary64) -> SensorStatus {
    if alarm(sensor, "crit_alarm"@) || alarm(sensor, "lcrit_alarm"@) || alarm(sensor, "max_alarm"@)
        || alarm(sensor, "min_alarm"@) {
        SensorStatus::Critical
    } else if feature(sensor, "crit"@) matches Some(crit) && value.at_least(crit) {
        SensorStatus::Critical
    } else if feature(sensor, "max"@) matches Some(max) && max.above(Binary64 { bits: 0 })
        && value.at_least(max) {
        SensorStatus::Warning
    } else if value.at_least(Binary64 { bits: TOO_HOT }) {
        SensorStatus::Critical
    } else if value.at_least(Binary64 { bits: HOT }) {
        SensorStatus::Warning
    } else {
        SensorStatus::Normal
    }
}

/// Whether a member of a device is the sensor of this name: by its own name or by
/// its label.
pub open spec fn answers_to(member: (Seq<char>, JsonTree), name: Seq<char>) -> bool {
    member.0 == name || member.1.member_text("label"@) == Some(name)
}

/// The first sensor of a device that goes by this name.
pub open spec fn sensor_named(members: Seq<(Seq<char>, JsonTree)>, name: Seq<char>) -> Option<
    JsonTree,
>
    decreases members.len(),
{
    if members.len() == 0 {
        None
    } else if answers_to(members[0], name) {
        Some(members[0].1)
    } else {
        sensor_named(members.skip(1), name)
    }
}

/// The reading of a sensor under the name that was asked for.
pub open spec fn reading_of(device: Seq<char>, name: Seq<char>, sensor: JsonTree) -> Reading {
    let value = match feature(sensor, "input"@) {
        Some(v) => v,
        None => Binary64 { bits: 0 },
    };
    let unit = match sensor.member("input"@) {
        Some(input) => match input.member_text("unit"@) {
            Some(u) => u,
            None => Seq::empty(),
        },
        None => Seq::empty(),
    };
    Reading { device, sensor: name, value, unit, status: status_of(sensor, value) }
}

/// The readings of the named sensors that a device has.
pub open spec fn named_readings(
    device: Seq<char>,
    members: Seq<(Seq<char>, JsonTree)>,
    names: Seq<Seq<char>>,
) -> Seq<Reading>
    decreases names.len(),
{
    if names.len() == 0 {
        Seq::empty()
    } else {
        let rest = named_readings(device, members, names.drop_last());
        match sensor_named(members, names.last()) {
            Some(sensor) => rest.push(reading_of(device, names.last(), sensor)),
            None => rest,
        }
    }
}

/// The readings of one device, none when the device is unknown or no object.
pub open spec fn device_readings(chips: Seq<(Seq<char>, JsonTree)>, request: Request) -> Seq<
    Reading,
> {
    match json::lookup(chips, request.device) {
        Some(JsonTree::Object(members)) => named_readings(
            request.device,
            members,
            request.sensors,
        ),
        _ => Seq::empty(),
    }
}

/// The readings of all requests, in their order.
pub open spec fn requested_readings(
    chips: Seq<(Seq<char>, JsonTree)>,
    requests: Seq<Request>,
) -> Seq<Reading>
    decreases requests.len(),
{
    if requests.len() == 0 {
        Seq::empty()
    } else {
        requested_readings(chips, requests.drop_last()) + device_readings(chips, requests.last())
    }
}

/// A temperature sensor that discovery may choose for a chip.
pub struct Pick {
    pub display: Seq<char>,
    /// Whether the sensor has a label at all, be it no text.
    pub labelled: bool,
    pub value: Binary64,
    pub status: SensorStatus,
}

/// The temperature sensor that a member of a chip is, if it is one: its input is in
/// degrees Celsius and in the range of real temperatures.
pub open spec fn pick_of(member: (Seq<char>, JsonTree)) -> Option<Pick> {
    match member.1.member("input"@) {
        Some(input) if member.0 != "Adapter"@ && input.member_text("unit"@) == Some(
            "°C"@,
        ) => match input.member_float("value"@) {
            Some(value) if value.at_least(Binary64 { bits: COLDEST }) && (Binary64 {
                bits: HOTTEST,
            }).at_least(value) => Some(
                Pick {
                    display: match member.1.member_text("label"@) {
                        Some(label) => label,
                        None => member.0,
                    },
                    labelled: member.1.member("label"@) is Some,
                    value,
                    status: status_of(member.1, value),
                },
            ),
            _ => None,
        },
        _ => None,
    }
}

/// Whether a sensor is preferred over the one chosen so far: a labelled one over one
/// that is shown under a generic name, and of two of a kind the hotter one.
pub open spec fn preferred(cur: Pick, best: Pick) -> bool {
    let best_labelled = !"temp"@.is_prefix_of(best.display);
    if cur.labelled && !best_labelled {
        true
    } else if !cur.labelled && best_labelled {
        false
    } else {
        cur.value.above(best.value)
    }
}

/// The sensor that is chosen for a chip, its members considered in order.
pub open spec fn chosen(members: Seq<(Seq<char>, JsonTree)>) -> Option<Pick>
    decreases members.len(),
{
    if members.len() == 0 {
        None
    } else {
        let best = chosen(members.drop_last());
        match (pick_of(members.last()), best) {
            (Some(cur), Some(b)) => if preferred(cur, b) {
                Some(cur)
            } else {
                best
            },
            (Some(cur), None) => Some(cur),
            (None, _) => best,
        }
    }
}

/// A short name for a kind of chip.
pub open spec fn friendly_name(chip: Seq<char>) -> Seq<char> {
    if "nvme-"@.is_prefix_of(chip) {
        "NVMe"@
    } else if "iwlwifi-"@.is_prefix_of(chip) || "iwl-"@.is_prefix_of(chip) {
        "WiFi"@
    } else if ("mt"@.is_prefix_of(chip) && text::find_of(chip, "phy"@) is Some)
        || "ath"@.is_prefix_of(chip) || "rtw"@.is_prefix_of(chip) {
        "WiFi"@
    } else if "pch_"@.is_prefix_of(chip) {
        "PCH"@
    } else {
        chip.take(text::index_of(chip, '-'))
    }
}

/// Whether a chip is known to give noise or what other chips give.
pub open spec fn is_noisy(chip: Seq<char>) -> bool {
    "acpitz-"@.is_prefix_of(chip) || "ucsi_"@.is_prefix_of(chip)
}

/// The reading that discovery finds on a chip.
pub open spec fn candidate_of(chip: (Seq<char>, JsonTree), covered: Seq<Seq<char>>) -> Option<
    Reading,
> {
    match chip.1 {
        JsonTree::Object(members) if !covered.contains(chip.0) && !is_noisy(chip.0) => match chosen(
            members,
        ) {
            Some(pick) => Some(
                Reading {
                    device: chip.0,
                    sensor: friendly_name(chip.0) + ": "@ + pick.display,
                    value: pick.value,
                    unit: "°C"@,
                    status: pick.status,
                },
            ),
            None => None,
        },
        _ => None,
    }
}

/// The readings that discovery finds, in the order of the chips.
pub open spec fn candidates_of(chips: Seq<(Seq<char>, JsonTree)>, covered: Seq<Seq<char>>) -> Seq<
    Reading,
>
    decreases chips.len(),
{
    if chips.len() == 0 {
        Seq::empty()
    } else {
        let rest = candidates_of(chips.drop_last(), covered);
        match candidate_of(chips.last(), covered) {
            Some(c) => rest.push(c),
            None => rest,
        }
    }
}

/// `x` put into a list sorted hottest first, behind those that are as hot.
pub open spec fn insert_sorted(s: Seq<Reading>, x: Reading) -> Seq<Reading>
    decreases s.len(),
{
    if s.len() == 0 || s.last().value.rank() >= x.value.rank() {
        s.push(x)
    } else {
        insert_sorted(s.drop_last(), x).push(s.last())
    }
}

/// The readings sorted hottest first; equally hot ones keep their order.
pub open spec fn hottest_first(s: Seq<Reading>) -> Seq<Reading>
    decreases s.len(),
{
    if s.len() == 0 {
        s
    } else {
        insert_sorted(hottest_first(s.drop_last()), s.last())
    }
}

/// The readings that discovery keeps.
pub open spec fn discovered(chips: Seq<(Seq<char>, JsonTree)>, covered: Seq<Seq<char>>) -> Seq<
    Reading,
> {
    let all = hottest_first(candidates_of(chips, covered));
    if all.len() > MAX_EXTRA {
        all.take(MAX_EXTRA as int)
    } else {
        all
    }
}

/// The devices that requests name.
pub open spec fn devices(requests: Seq<Request>) -> Seq<Seq<char>> {
    requests.map_values(|r: Request| r.device)
}

fn get_feature(sensor: &Json, key: &str) -> (r: Option<Binary64>)
    ensures
        r == feature(sensor@, key@),
{
    match sensor.get(key) {
        Some(f) => f.get_float("value"),
        None => None,
    }
}

fn has_alarm(sensor: &Json, key: &str) -> (r: bool)
    ensures
        r == alarm(sensor@, key@),
{
    match get_feature(sensor, key) {
        Some(v) => v.same(Binary64 { bits: RAISED }),
        None => false,
    }
}

/// The status of a sensor at a value.
pub fn compute_status(sensor: &Json, value: Binary64) -> (r: SensorStatus)
    ensures
        r == status_of(sensor@, value),
{
    if has_alarm(sensor, "crit_alarm") || has_alarm(sensor, "lcrit_alarm") || has_alarm(
        sensor,
        "max_alarm",
    ) || has_alarm(sensor, "min_alarm") {
        return SensorStatus::Critical;
    }
    if let Some(crit) = get_feature(sensor, "crit") {
        if value.ge(crit) {
            return SensorStatus::Critical;
        }
    }
    if let Some(max) = get_feature(sensor, "max") {
        if max.gt(Binary64::zero()) && value.ge(max) {
            return SensorStatus::Warning;
        }
    }
    if value.ge(Binary64 { bits: TOO_HOT }) {
        SensorStatus::Critical
    } else if value.ge(Binary64 { bits: HOT }) {
        SensorStatus::Warning
    } else {
        SensorStatus::Normal
    }
}

/// Maps a chip name like "nvme-pci-0100" to a short friendly one ("NVMe"), or else
/// to what precedes its first dash.
pub fn chip_friendly(chip: &str) -> (r: String)
    ensures
        r@ == friendly_name(chip@),
{
    let name = text::chars_of(chip);
    let name = name.as_slice();
    if text::starts_with(name, "nvme-") {
        return text::owned("NVMe");
    }
    if text::starts_with(name, "iwlwifi-") || text::starts_with(name, "iwl-") {
        return text::owned("WiFi");
    }
    assert(name@.skip(0) =~= name@);
    if (text::starts_with(name, "mt") && text::find(name, 0, "phy").is_some()) || text::starts_with(
        name,
        "ath",
    ) || text::starts_with(name, "rtw") {
        return text::owned("WiFi");
    }
    if text::starts_with(name, "pch_") {
        return text::owned("PCH");
    }
    let end = text::position(name, 0, '-');
    text::string_of(&name[0..end])
}

/// A temperature sensor under consideration.
struct Candidate {
    display: String,
    labelled: bool,
    value: Binary64,
    status: SensorStatus,
}

impl View for Candidate {
    type V = Pick;

    closed spec fn view(&self) -> Pick {
        Pick {
            display: self.display@,
            labelled: self.labelled,
            value: self.value,
            status: self.status,
        }
    }
}

fn candidate(key: &String, sensor: &Json) -> (r: Option<Candidate>)
    ensures
        match r {
            Some(c) => pick_of((key@, sensor@)) == Some(c@),
            None => pick_of((key@, sensor@)) is None,
        },
{
    if text::same_text(key.as_str(), "Adapter") {
        return None;
    }
    let input = match sensor.get("input") {
        Some(input) => input,
        None => {
            return None;
        },
    };
    match input.get_str("unit") {
        Some(unit) => {
            if !text::same_text(unit, "°C") {
                return None;
            }
        },
        None => {
            return None;
        },
    }
    let value = match input.get_float("value") {
        Some(value) => value,
        None => {
            return None;
        },
    };
    if !value.ge(Binary64 { bits: COLDEST }) || !(Binary64 { bits: HOTTEST }).ge(value) {
        return None;
    }
    let display = match sensor.get_str("label") {
        Some(label) => text::owned(label),
        None => text::owned(key.as_str()),
    };
    let labelled = sensor.get("label").is_some();
    let status = compute_status(sensor, value);
    Some(Candidate { display, labelled, value, status })
}

fn is_preferred(cur: &Candidate, best: &Candidate) -> (r: bool)
    ensures
        r == preferred(cur@, best@),
{
    let shown = text::chars_of(best.display.as_str());
    let best_labelled = !text::starts_with(shown.as_slice(), "temp");
    if cur.labelled && !best_labelled {
        true
    } else if !cur.labelled && best_labelled {
        false
    } else {
        cur.value.gt(best.value)
    }
}

fn choose_sensor(members: &Vec<(String, Json)>) -> (r: Option<Candidate>)
    ensures
        match r {
            Some(c) => chosen(json::member_trees(members@)) == Some(c@),
            None => chosen(json::member_trees(members@)) is None,
        },
{
    let ghost all = json::member_trees(members@);
    let mut best: Option<Candidate> = None;
    for i in 0..members.len()
        invariant
            all == json::member_trees(members@),
            match best {
                Some(c) => chosen(all.take(i as int)) == Some(c@),
                None => chosen(all.take(i as int)) is None,
            },
    {
        proof {
            assert(all.take(i + 1).drop_last() =~= all.take(i as int));
            assert(all.take(i + 1).last() == (members@[i as int].0@, members@[i as int].1@));
        }
        if let Some(cur) = candidate(&members[i].0, &members[i].1) {
            let better = match &best {
                Some(b) => is_preferred(&cur, b),
                None => true,
            };
            if better {
                best = Some(cur);
            }
        }
    }
    assert(all.take(all.len() as int) =~= all);
    best
}

fn contains_text(list: &Vec<String>, s: &str) -> (r: bool)
    ensures
        r == strings(list@).contains(s@),
{
    for i in 0..list.len()
        invariant
            forall|j: int| 0 <= j < i ==> list@[j]@ != s@,
    {
        if text::same_text(list[i].as_str(), s) {
            assert(strings(list@)[i as int] == s@);
            return true;
        }
    }
    assert forall|j: int| 0 <= j < strings(list@).len() implies strings(list@)[j] != s@ by {
        assert(strings(list@)[j] == list@[j]@);
    }
    false
}

/// `insert_sorted` is an insertion at the place where the colder ones begin.
proof fn lemma_insert_sorted(s: Seq<Reading>, x: Reading, pos: int)
    requires
        0 <= pos <= s.len(),
        pos > 0 ==> s[pos - 1].value.rank() >= x.value.rank(),
        forall|i: int| pos <= i < s.len() ==> (#[trigger] s[i]).value.rank() < x.value.rank(),
    ensures
        insert_sorted(s, x) == s.insert(pos, x),
    decreases s.len() - pos,
{
    if pos == s.len() {
        assert(s.push(x) =~= s.insert(pos, x));
    } else {
        lemma_insert_sorted(s.drop_last(), x, pos);
        assert(s.drop_last().insert(pos, x).push(s.last()) =~= s.insert(pos, x));
    }
}

fn insert_reading(list: &mut Vec<SensorReading>, x: SensorReading)
    ensures
        readings(final(list)@) == insert_sorted(readings(old(list)@), x@),
{
    let ghost before = readings(list@);
    let key = x.value.key();
    let mut pos: usize = list.len();
    while pos > 0 && list[pos - 1].value.key() < key
        invariant
            pos <= list@.len(),
            key == x@.value.rank(),
            before == readings(list@),
            forall|i: int|
                pos <= i < before.len() ==> (#[trigger] before[i]).value.rank() < x@.value.rank(),
        decreases pos,
    {
        assert(before[pos - 1] == list@[pos - 1]@);
        pos -= 1;
    }
    proof {
        if pos > 0 {
            assert(before[pos - 1] == list@[pos - 1]@);
        }
        lemma_insert_sorted(before, x@, pos as int);
    }
    list.insert(pos, x);
    assert(readings(list@) =~= before.insert(pos as int, x@));
}

/// Scans the devices that are not covered for temperature sensors: one per chip, at
/// most four, the hottest first.
pub fn auto_discover(obj: &Vec<(String, Json)>, covered: &Vec<String>) -> (r: Vec<SensorReading>)
    ensures
        readings(r@) == discovered(json::member_trees(obj@), strings(covered@)),
{
    let ghost chips = json::member_trees(obj@);
    let ghost names = strings(covered@);
    let mut out: Vec<SensorReading> = Vec::new();
    assert(readings(out@) =~= Seq::<Reading>::empty());
    for i in 0..obj.len()
        invariant
            chips == json::member_trees(obj@),
            names == strings(covered@),
            readings(out@) == hottest_first(candidates_of(chips.take(i as int), names)),
    {
        proof {
            assert(chips.take(i + 1).drop_last() =~= chips.take(i as int));
            assert(chips.take(i + 1).last() == (obj@[i as int].0@, obj@[i as int].1@));
        }
        let ghost found = candidates_of(chips.take(i as int), names);
        let chip = &obj[i].0;
        let letters = text::chars_of(chip.as_str());
        let noisy = text::starts_with(letters.as_slice(), "acpitz-") || text::starts_with(
            letters.as_slice(),
            "ucsi_",
        );
        if !contains_text(covered, chip.as_str()) && !noisy {
            if let Some(members) = obj[i].1.as_object() {
                if let Some(best) = choose_sensor(members) {
                    let mut label = text::chars_of(chip_friendly(chip.as_str()).as_str());
                    text::append(&mut label, text::chars_of(": ").as_slice());
                    text::append(&mut label, text::chars_of(best.display.as_str()).as_slice());
                    let reading = SensorReading {
                        device: text::owned(chip.as_str()),
                        sensor: text::string_of(label.as_slice()),
                        value: best.value,
                        unit: text::owned("°C"),
                        status: best.status,
                    };
                    proof {
                        assert(candidate_of(chips.take(i + 1).last(), names) == Some(reading@));
                        assert(found.push(reading@).drop_last() =~= found);
                    }
                    insert_reading(&mut out, reading);
                }
            }
        }
    }
    assert(chips.take(chips.len() as int) =~= chips);
    let ghost all = readings(out@);
    out.truncate(MAX_EXTRA);
    assert(all.len() > MAX_EXTRA ==> readings(out@) =~= all.take(MAX_EXTRA as int));
    out
}

fn find_sensor<'a>(members: &'a Vec<(String, Json)>, name: &str) -> (r: Option<&'a Json>)
    ensures
        match r {
            Some(j) => sensor_named(json::member_trees(members@), name@) == Some(j@),
            None => sensor_named(json::member_trees(members@), name@) is None,
        },
{
    let ghost all = json::member_trees(members@);
    assert(all.skip(0) =~= all);
    for i in 0..members.len()
        invariant
            all == json::member_trees(members@),
            sensor_named(all, name@) == sensor_named(all.skip(i as int), name@),
    {
        let labelled = match members[i].1.get_str("label") {
            Some(label) => text::same_text(label, name),
            None => false,
        };
        assert(all.skip(i as int)[0] == (members@[i as int].0@, members@[i as int].1@));
        if text::same_text(members[i].0.as_str(), name) || labelled {
            return Some(&members[i].1);
        }
        assert(all.skip(i as int).skip(1) =~= all.skip(i + 1));
    }
    None
}

fn take_reading(device: &str, name: &str, sensor: &Json) -> (r: SensorReading)
    ensures
        r@ == reading_of(device@, name@, sensor@),
{
    let value = match get_feature(sensor, "input") {
        Some(v) => v,
        None => Binary64::zero(),
    };
    let unit = match sensor.get("input") {
        Some(input) => match input.get_str("unit") {
            Some(u) => text::owned(u),
            None => String::new(),
        },
        None => String::new(),
    };
    let status = compute_status(sensor, value);
    SensorReading {
        device: text::owned(device),
        sensor: text::owned(name),
        value,
        unit,
        status,
    }
}

fn read_device(chips: &Vec<(String, Json)>, device: &Json, spec: &SensorSpec) -> (r: Vec<
    SensorReading,
>)
    requires
        json::lookup(json::member_trees(chips@), spec.device@) == Some(device@),
    ensures
        readings(r@) == device_readings(json::member_trees(chips@), spec@),
{
    let mut out: Vec<SensorReading> = Vec::new();
    assert(readings(out@) =~= Seq::<Reading>::empty());
    let members = match device.as_object() {
        Some(members) => members,
        None => {
            return out;
        },
    };
    let ghost inner = json::member_trees(members@);
    let ghost names = strings(spec.sensors@);
    for i in 0..spec.sensors.len()
        invariant
            inner == json::member_trees(members@),
            names == strings(spec.sensors@),
            readings(out@) == named_readings(spec.device@, inner, names.take(i as int)),
    {
        let ghost before = readings(out@);
        proof {
            assert(names.take(i + 1).drop_last() =~= names.take(i as int));
            assert(names.take(i + 1).last() == spec.sensors@[i as int]@);
        }
        let name = spec.sensors[i].as_str();
        if let Some(sensor) = find_sensor(members, name) {
            let reading = take_reading(spec.device.as_str(), name, sensor);
            out.push(reading);
            assert(readings(out@) =~= before.push(reading@));
        }
    }
    assert(names.take(names.len() as int) =~= names);
    out
}

/// Reads the sensors that the specs ask for, and discovers others on the devices
/// that no spec names.
pub fn parse_sensors(json: &Json, specs: &Vec<SensorSpec>) -> (r: Result<
    SensorsState,
    SensorsError,
>)
    ensures
        match json@ {
            JsonTree::Object(chips) => match r {
                Ok(state) => {
                    &&& readings(state.readings@) == requested_readings(chips, requests(specs@))
                    &&& readings(state.extra@) == discovered(chips, devices(requests(specs@)))
                },
                Err(_) => false,
            },
            _ => r == Err::<SensorsState, SensorsError>(SensorsError::NotAnObject),
        },
{
    let obj = match json.as_object() {
        Some(obj) => obj,
        None => {
            return Err(SensorsError::NotAnObject);
        },
    };
    let ghost chips = json::member_trees(obj@);
    let ghost asked = requests(specs@);
    let mut out: Vec<SensorReading> = Vec::new();
    let mut covered: Vec<String> = Vec::new();
    assert(readings(out@) =~= Seq::<Reading>::empty());
    for i in 0..specs.len()
        invariant
            json@ == JsonTree::Object(chips),
            chips == json::member_trees(obj@),
            asked == requests(specs@),
            strings(covered@) =~= devices(asked.take(i as int)),
            readings(out@) == requested_readings(chips, asked.take(i as int)),
    {
        let ghost before = readings(out@);
        proof {
            assert(asked.take(i + 1).drop_last() =~= asked.take(i as int));
            assert(asked.take(i + 1).last() == specs@[i as int]@);
        }
        let ghost named = strings(covered@);
        covered.push(text::owned(specs[i].device.as_str()));
        proof {
            assert(strings(covered@) =~= named.push(specs@[i as int].device@));
            assert(devices(asked.take(i + 1)) =~= devices(asked.take(i as int)).push(
                asked[i as int].device,
            ));
        }
        if let Some(device) = json.get(specs[i].device.as_str()) {
            let mut found = read_device(obj, device, &specs[i]);
            let ghost more = readings(found@);
            out.append(&mut found);
            assert(readings(out@) =~= before + more);
        } else {
            assert(before + Seq::<Reading>::empty() =~= before);
        }
    }
    assert(asked.take(asked.len() as int) =~= asked);
    let extra = auto_discover(obj, &covered);
    Ok(SensorsState { readings: out, extra })
}

/// Reads the output of `sensors -J`.
pub fn read_sensors(stdout: &[u8], specs: &Vec<SensorSpec>) -> (r: Result<
    SensorsState,
    SensorsError,
>)
    ensures
        match json::document(stdout@) {
            None => r == Err::<SensorsState, SensorsError>(SensorsError::InvalidJson),
            Some(JsonTree::Object(chips)) => match r {
                Ok(state) => {
                    &&& readings(state.readings@) == requested_readings(chips, requests(specs@))
                    &&& readings(state.extra@) == discovered(chips, devices(requests(specs@)))
                },
                Err(_) => false,
            },
            Some(_) => r == Err::<SensorsState, SensorsError>(SensorsError::NotAnObject),
        },
        json::document(stdout@) matches Some(JsonTree::Object(chips)) ==> json::distinct_keys(chips),
{
    match json::parse(stdout) {
        Some(json) => parse_sensors(&json, specs),
        None => Err(SensorsError::InvalidJson),
    }
}

/// Whether no reading is hotter than one before it.
pub open spec fn is_descending(s: Seq<Reading>) -> bool {
    forall|i: int, j: int|
        0 <= i < j < s.len() ==> (#[trigger] s[i]).value.rank() >= (#[trigger] s[j]).value.rank()
}

/// The readings of one temperature, in their order.
pub open spec fn as_hot_as(s: Seq<Reading>, rank: int) -> Seq<Reading> {
    s.filter(|r: Reading| r.value.rank() == rank)
}

proof fn lemma_as_hot_as(s: Seq<Reading>, rank: int)
    requires
        s.len() > 0,
    ensures
        as_hot_as(s, rank) == if s.last().value.rank() == rank {
            as_hot_as(s.drop_last(), rank).push(s.last())
        } else {
            as_hot_as(s.drop_last(), rank)
        },
{
    reveal(Seq::filter);
}

proof fn lemma_insert_keeps(s: Seq<Reading>, x: Reading, rank: int)
    requires
        is_descending(s),
    ensures
        is_descending(insert_sorted(s, x)),
        insert_sorted(s, x).len() == s.len() + 1,
        as_hot_as(insert_sorted(s, x), rank) == if x.value.rank() == rank {
            as_hot_as(s, rank).push(x)
        } else {
            as_hot_as(s, rank)
        },
        forall|r: Reading|
            #![trigger insert_sorted(s, x).contains(r)]
            insert_sorted(s, x).contains(r) <==> s.contains(r) || r == x,
    decreases s.len(),
{
    let all = insert_sorted(s, x);
    if s.len() == 0 || s.last().value.rank() >= x.value.rank() {
        assert(all == s.push(x));
        assert(s.push(x).drop_last() =~= s);
        lemma_as_hot_as(all, rank);
        assert forall|r: Reading| #![trigger all.contains(r)] all.contains(r) <==> s.contains(r)
            || r == x by {
            lemma_push_contains(s, x, r);
        }
    } else {
        let head = s.drop_last();
        let inner = insert_sorted(head, x);
        lemma_insert_keeps(head, x, rank);
        assert(all == inner.push(s.last()));
        assert(all.drop_last() =~= inner);
        assert(head.push(s.last()) =~= s);
        lemma_as_hot_as(all, rank);
        lemma_as_hot_as(s, rank);
        assert forall|r: Reading| #![trigger all.contains(r)] all.contains(r) <==> s.contains(r)
            || r == x by {
            lemma_push_contains(inner, s.last(), r);
            lemma_push_contains(head, s.last(), r);
        }
        assert forall|i: int, j: int| 0 <= i < j < all.len() implies (
        #[trigger] all[i]).value.rank() >= (#[trigger] all[j]).value.rank() by {
            if j == all.len() - 1 {
                assert(inner.contains(inner[i]));
                if head.contains(inner[i]) {
                    let k = choose|k: int| 0 <= k < head.len() && head[k] == inner[i];
                    assert(s[k] == inner[i]);
                    assert(s[s.len() - 1] == s.last());
                }
            }
        }
    }
}

proof fn lemma_push_contains(s: Seq<Reading>, x: Reading, r: Reading)
    ensures
        s.push(x).contains(r) <==> s.contains(r) || r == x,
{
    let t = s.push(x);
    if s.contains(r) {
        let k = choose|k: int| 0 <= k < s.len() && s[k] == r;
        assert(t[k] == r);
    }
    assert(t[s.len() as int] == x);
    if t.contains(r) {
        let k = choose|k: int| 0 <= k < t.len() && t[k] == r;
        if k < s.len() {
            assert(s[k] == r);
        }
    }
}

/// Sorting puts the hottest first, keeps every reading, and keeps the order of those
/// that are equally hot.
pub proof fn law_sorting(s: Seq<Reading>)
    ensures
        is_descending(hottest_first(s)),
        hottest_first(s).len() == s.len(),
        forall|r: Reading|
            #![trigger hottest_first(s).contains(r)]
            #![trigger s.contains(r)]
            hottest_first(s).contains(r) <==> s.contains(r),
        forall|rank: int| as_hot_as(hottest_first(s), rank) == as_hot_as(s, rank),
    decreases s.len(),
{
    if s.len() > 0 {
        let head = s.drop_last();
        law_sorting(head);
        lemma_insert_keeps(hottest_first(head), s.last(), 0);
        assert(head.push(s.last()) =~= s);
        assert forall|r: Reading| hottest_first(s).contains(r) <==> s.contains(r) by {
            lemma_push_contains(head, s.last(), r);
        }
        assert forall|rank: int| as_hot_as(hottest_first(s), rank) == as_hot_as(s, rank) by {
            lemma_insert_keeps(hottest_first(head), s.last(), rank);
            lemma_as_hot_as(s, rank);
            assert(as_hot_as(hottest_first(head), rank) == as_hot_as(head, rank));
        }
    }
}

/// A sensor is chosen among the temperature sensors of its chip.
proof fn lemma_chosen(members: Seq<(Seq<char>, JsonTree)>)
    ensures
        chosen(members) matches Some(p) ==> exists|i: int|
            0 <= i < members.len() && pick_of(#[trigger] members[i]) == Some(p),
    decreases members.len(),
{
    if members.len() > 0 {
        let head = members.drop_last();
        lemma_chosen(head);
        if let Some(p) = chosen(members) {
            if pick_of(members.last()) == Some(p) {
                assert(pick_of(members[members.len() - 1]) == Some(p));
            } else {
                let i = choose|i: int| 0 <= i < head.len() && pick_of(#[trigger] head[i]) == Some(p);
                assert(pick_of(members[i]) == Some(p));
            }
        }
    }
}

proof fn lemma_candidates(chips: Seq<(Seq<char>, JsonTree)>, covered: Seq<Seq<char>>)
    ensures
        forall|k: int|
            0 <= k < candidates_of(chips, covered).len() ==> exists|i: int|
                0 <= i < chips.len() && candidate_of(#[trigger] chips[i], covered) == Some(
                    #[trigger] candidates_of(chips, covered)[k],
                ),
        json::distinct_keys(chips) ==> forall|j: int, k: int|
            0 <= j < k < candidates_of(chips, covered).len() ==> (#[trigger] candidates_of(
                chips,
                covered,
            )[j]).device != (#[trigger] candidates_of(chips, covered)[k]).device,
    decreases chips.len(),
{
    if chips.len() > 0 {
        let head = chips.drop_last();
        let rest = candidates_of(head, covered);
        let all = candidates_of(chips, covered);
        lemma_candidates(head, covered);
        assert forall|k: int| 0 <= k < all.len() implies exists|i: int|
            0 <= i < chips.len() && candidate_of(#[trigger] chips[i], covered) == Some(
                #[trigger] all[k],
            ) by {
            if k < rest.len() {
                assert(all[k] == rest[k]);
                let i = choose|i: int|
                    0 <= i < head.len() && candidate_of(#[trigger] head[i], covered) == Some(
                        rest[k],
                    );
                assert(candidate_of(chips[i], covered) == Some(all[k]));
            } else {
                assert(candidate_of(chips[chips.len() - 1], covered) == Some(all[k]));
            }
        }
        if json::distinct_keys(chips) {
            assert(json::distinct_keys(head)) by {
                assert forall|i: int, j: int| 0 <= i < j < head.len() implies (
                #[trigger] head[i]).0 != (#[trigger] head[j]).0 by {
                    assert(chips[i].0 != chips[j].0);
                }
            }
            assert forall|j: int, k: int| 0 <= j < k < all.len() implies (
            #[trigger] all[j]).device != (#[trigger] all[k]).device by {
                assert(all[j] == rest[j]);
                if k < rest.len() {
                    assert(all[k] == rest[k]);
                } else {
                    let i = choose|i: int|
                        0 <= i < head.len() && candidate_of(#[trigger] head[i], covered) == Some(
                            rest[j],
                        );
                    assert(chips[i].0 != chips[chips.len() - 1].0);
                }
            }
        }
    }
}

/// What discovery gives: at most four readings, hottest first, each in degrees
/// Celsius and in the range of real temperatures, from a chip that is neither covered
/// nor noisy, and no candidate left out is hotter than one that is kept.
pub proof fn law_discovery(chips: Seq<(Seq<char>, JsonTree)>, covered: Seq<Seq<char>>)
    ensures
        discovered(chips, covered).len() <= MAX_EXTRA,
        is_descending(discovered(chips, covered)),
        forall|i: int|
            0 <= i < discovered(chips, covered).len() ==> {
                let r = #[trigger] discovered(chips, covered)[i];
                &&& r.unit == "°C"@
                &&& r.value.at_least(Binary64 { bits: COLDEST })
                &&& (Binary64 { bits: HOTTEST }).at_least(r.value)
                &&& !covered.contains(r.device)
                &&& !is_noisy(r.device)
            },
        forall|c: Reading, i: int|
            candidates_of(chips, covered).contains(c) && !discovered(chips, covered).contains(c)
                && 0 <= i < discovered(chips, covered).len() ==> (#[trigger] discovered(
                chips,
                covered,
            )[i]).value.rank() >= (#[trigger] c.value).rank(),
{
    let cands = candidates_of(chips, covered);
    let all = hottest_first(cands);
    let kept = discovered(chips, covered);
    law_sorting(cands);
    lemma_candidates(chips, covered);
    assert forall|i: int| 0 <= i < kept.len() implies {
        let r = #[trigger] kept[i];
        &&& r.unit == "°C"@
        &&& r.value.at_least(Binary64 { bits: COLDEST })
        &&& (Binary64 { bits: HOTTEST }).at_least(r.value)
        &&& !covered.contains(r.device)
        &&& !is_noisy(r.device)
    } by {
        assert(kept[i] == all[i]);
        assert(all.contains(all[i]));
        let k = choose|k: int| 0 <= k < cands.len() && cands[k] == all[i];
        let c = choose|c: int|
            0 <= c < chips.len() && candidate_of(#[trigger] chips[c], covered) == Some(cands[k]);
        match chips[c].1 {
            JsonTree::Object(members) => {
                lemma_chosen(members);
            },
            _ => {},
        }
    }
    assert forall|c: Reading, i: int|
        cands.contains(c) && !kept.contains(c) && 0 <= i < kept.len() implies (
    #[trigger] kept[i]).value.rank() >= (#[trigger] c.value).rank() by {
        assert(all.contains(c));
        let k = choose|k: int| 0 <= k < all.len() && all[k] == c;
        if k < kept.len() {
            assert(kept[k] == c);
        }
        assert(kept[i] == all[i]);
    }
}

proof fn lemma_insert_distinct(s: Seq<Reading>, x: Reading)
    requires
        forall|i: int, j: int|
            0 <= i < j < s.len() ==> (#[trigger] s[i]).device != (#[trigger] s[j]).device,
        forall|i: int| 0 <= i < s.len() ==> (#[trigger] s[i]).device != x.device,
    ensures
        forall|i: int, j: int|
            0 <= i < j < insert_sorted(s, x).len() ==> (#[trigger] insert_sorted(s, x)[i]).device
                != (#[trigger] insert_sorted(s, x)[j]).device,
        forall|i: int|
            0 <= i < insert_sorted(s, x).len() ==> (#[trigger] insert_sorted(s, x)[i]) == x
                || s.contains(insert_sorted(s, x)[i]),
    decreases s.len(),
{
    let all = insert_sorted(s, x);
    if s.len() == 0 || s.last().value.rank() >= x.value.rank() {
        assert forall|i: int| 0 <= i < all.len() implies (#[trigger] all[i]) == x || s.contains(
            all[i],
        ) by {
            if i < s.len() {
                assert(s[i] == all[i]);
            }
        }
    } else {
        let head = s.drop_last();
        let inner = insert_sorted(head, x);
        assert forall|i: int, j: int| 0 <= i < j < head.len() implies (
        #[trigger] head[i]).device != (#[trigger] head[j]).device by {
            assert(s[i].device != s[j].device);
        }
        assert forall|i: int| 0 <= i < head.len() implies (#[trigger] head[i]).device
            != x.device by {
            assert(s[i].device != x.device);
        }
        lemma_insert_distinct(head, x);
        assert forall|i: int, j: int| 0 <= i < j < all.len() implies (
        #[trigger] all[i]).device != (#[trigger] all[j]).device by {
            assert(all[i] == inner[i]);
            if j < inner.len() {
                assert(all[j] == inner[j]);
            } else if inner[i] != x {
                let k = choose|k: int| 0 <= k < head.len() && head[k] == inner[i];
                assert(s[k].device != s[s.len() - 1].device);
            } else {
                assert(s[s.len() - 1].device != x.device);
            }
        }
        assert forall|i: int| 0 <= i < all.len() implies (#[trigger] all[i]) == x || s.contains(
            all[i],
        ) by {
            if i < inner.len() {
                assert(all[i] == inner[i]);
                if inner[i] != x {
                    let k = choose|k: int| 0 <= k < head.len() && head[k] == inner[i];
                    assert(s[k] == all[i]);
                }
            } else {
                assert(s[s.len() - 1] == all[i]);
            }
        }
    }
}

proof fn lemma_sort_distinct(s: Seq<Reading>)
    requires
        forall|i: int, j: int|
            0 <= i < j < s.len() ==> (#[trigger] s[i]).device != (#[trigger] s[j]).device,
    ensures
        forall|i: int, j: int|
            0 <= i < j < hottest_first(s).len() ==> (#[trigger] hottest_first(s)[i]).device != (
            #[trigger] hottest_first(s)[j]).device,
    decreases s.len(),
{
    if s.len() > 0 {
        let head = s.drop_last();
        assert forall|i: int, j: int| 0 <= i < j < head.len() implies (
        #[trigger] head[i]).device != (#[trigger] head[j]).device by {
            assert(s[i].device != s[j].device);
        }
        lemma_sort_distinct(head);
        law_sorting(head);
        let sorted = hottest_first(head);
        assert forall|i: int| 0 <= i < sorted.len() implies (#[trigger] sorted[i]).device
            != s.last().device by {
            assert(sorted.contains(sorted[i]));
            let k = choose|k: int| 0 <= k < head.len() && head[k] == sorted[i];
            assert(s[k].device != s[s.len() - 1].device);
        }
        lemma_insert_distinct(sorted, s.last());
    }
}

/// Discovery gives no two readings of one device, provided no device occurs twice.
pub proof fn law_one_reading_per_device(
    chips: Seq<(Seq<char>, JsonTree)>,
    covered: Seq<Seq<char>>,
)
    requires
        json::distinct_keys(chips),
    ensures
        forall|i: int, j: int|
            0 <= i < j < discovered(chips, covered).len() ==> (#[trigger] discovered(
                chips,
                covered,
            )[i]).device != (#[trigger] discovered(chips, covered)[j]).device,
{
    let all = hottest_first(candidates_of(chips, covered));
    let kept = discovered(chips, covered);
    lemma_candidates(chips, covered);
    lemma_sort_distinct(candidates_of(chips, covered));
    assert forall|i: int, j: int| 0 <= i < j < kept.len() implies (#[trigger] kept[i]).device != (
    #[trigger] kept[j]).device by {
        assert(kept[i] == all[i] && kept[j] == all[j]);
    }
}

proof fn lemma_named_device(
    device: Seq<char>,
    members: Seq<(Seq<char>, JsonTree)>,
    names: Seq<Seq<char>>,
)
    ensures
        forall|i: int|
            0 <= i < named_readings(device, members, names).len() ==> (#[trigger] named_readings(
                device,
                members,
                names,
            )[i]).device == device,
    decreases names.len(),
{
    if names.len() > 0 {
        lemma_named_device(device, members, names.drop_last());
    }
}

/// Every requested reading is of a device that was asked for, so no device is both
/// read on request and discovered.
pub proof fn law_requested_and_discovered_apart(
    chips: Seq<(Seq<char>, JsonTree)>,
    requests: Seq<Request>,
)
    ensures
        forall|i: int|
            0 <= i < requested_readings(chips, requests).len() ==> devices(requests).contains(
                (#[trigger] requested_readings(chips, requests)[i]).device,
            ),
        forall|i: int, j: int|
            0 <= i < requested_readings(chips, requests).len() && 0 <= j < discovered(
                chips,
                devices(requests),
            ).len() ==> (#[trigger] requested_readings(chips, requests)[i]).device != (
            #[trigger] discovered(chips, devices(requests))[j]).device,
    decreases requests.len(),
{
    law_discovery(chips, devices(requests));
    if requests.len() > 0 {
        let head = requests.drop_last();
        let last = requests.last();
        let first = requested_readings(chips, head);
        let all = requested_readings(chips, requests);
        law_requested_and_discovered_apart(chips, head);
        match json::lookup(chips, last.device) {
            Some(JsonTree::Object(members)) => {
                lemma_named_device(last.device, members, last.sensors);
            },
            _ => {},
        }
        assert forall|i: int| 0 <= i < all.len() implies devices(requests).contains(
            (#[trigger] all[i]).device,
        ) by {
            if i < first.len() {
                assert(all[i] == first[i]);
                assert(devices(head).contains(first[i].device));
                let k = choose|k: int|
                    0 <= k < devices(head).len() && devices(head)[k] == first[i].device;
                assert(devices(requests)[k] == first[i].device);
            } else {
                assert(all[i] == device_readings(chips, last)[i - first.len()]);
                assert(devices(requests)[requests.len() - 1] == last.device);
            }
        }
    }
}

/// A raised alarm makes a sensor critical whatever its value.
pub proof fn law_alarm_takes_precedence(sensor: JsonTree, value: Binary64)
    requires
        alarm(sensor, "crit_alarm"@) || alarm(sensor, "lcrit_alarm"@) || alarm(
            sensor,
            "max_alarm"@,
        ) || alarm(sensor, "min_alarm"@),
    ensures
        status_of(sensor, value) == SensorStatus::Critical,
{
}

/// Without a usable maximum of its own, a sensor is never better off at a higher
/// value.
pub proof fn law_status_worsens(sensor: JsonTree, low: Binary64, high: Binary64)
    requires
        high.at_least(low),
        feature(sensor, "max"@) matches Some(max) ==> !max.above(Binary64 { bits: 0 }),
    ensures
        status_of(sensor, low) == SensorStatus::Critical ==> status_of(sensor, high)
            == SensorStatus::Critical,
        status_of(sensor, low) == SensorStatus::Warning ==> status_of(sensor, high)
            != SensorStatus::Normal,
{
}

/// The fixed limits are what they are meant to be: 1, 25, 75, 90 and 150.
pub proof fn law_limits()
    ensures
        (Binary64 { bits: RAISED }).value() == vstd::arithmetic::power2::pow2(1074),
        (Binary64 { bits: COLDEST }).value() == 25 * vstd::arithmetic::power2::pow2(1074),
        (Binary64 { bits: HOT }).value() == 75 * vstd::arithmetic::power2::pow2(1074),
        (Binary64 { bits: TOO_HOT }).value() == 90 * vstd::arithmetic::power2::pow2(1074),
        (Binary64 { bits: HOTTEST }).value() == 150 * vstd::arithmetic::power2::pow2(1074),
{
    let a = vstd::arithmetic::power2::pow2(1022) as int;
    let b = vstd::arithmetic::power2::pow2(1026) as int;
    let c = vstd::arithmetic::power2::pow2(1028) as int;
    let d = vstd::arithmetic::power2::pow2(1029) as int;
    let one = vstd::arithmetic::power2::pow2(1074) as int;
    vstd::arithmetic::power2::lemma2_to64_rest();
    vstd::arithmetic::power2::lemma_pow2_adds(52, 1022);
    vstd::arithmetic::power2::lemma_pow2_adds(48, 1026);
    vstd::arithmetic::power2::lemma_pow2_adds(46, 1028);
    vstd::arithmetic::power2::lemma_pow2_adds(45, 1029);
    assert(one == 0x10_0000_0000_0000 * a);
    assert(one == 0x1_0000_0000_0000 * b);
    assert(one == 0x4000_0000_0000 * c);
    assert(one == 0x2000_0000_0000 * d);
    assert((Binary64 { bits: COLDEST }).value() == 0x19_0000_0000_0000 * b);
    assert((Binary64 { bits: HOT }).value() == 0x12_c000_0000_0000 * c);
    assert((Binary64 { bits: TOO_HOT }).value() == 0x16_8000_0000_0000 * c);
    assert((Binary64 { bits: HOTTEST }).value() == 0x12_c000_0000_0000 * d);
}

/// The chips on which discovery finds a temperature sensor.
pub open spec fn eligible(chips: Seq<(Seq<char>, JsonTree)>, covered: Seq<Seq<char>>) -> Seq<
    (Seq<char>, JsonTree),
> {
    chips.filter(|c: (Seq<char>, JsonTree)| candidate_of(c, covered) is Some)
}

proof fn lemma_eligible(chips: Seq<(Seq<char>, JsonTree)>, covered: Seq<Seq<char>>)
    ensures
        candidates_of(chips, covered).len() == eligible(chips, covered).len(),
    decreases chips.len(),
{
    reveal(Seq::filter);
    if chips.len() > 0 {
        lemma_eligible(chips.drop_last(), covered);
    }
}

/// Discovery gives a reading for each eligible chip, up to four.
pub proof fn law_number_discovered(chips: Seq<(Seq<char>, JsonTree)>, covered: Seq<Seq<char>>)
    ensures
        discovered(chips, covered).len() == if eligible(chips, covered).len() < MAX_EXTRA {
            eligible(chips, covered).len()
        } else {
            MAX_EXTRA as nat
        },
{
    law_sorting(candidates_of(chips, covered));
    lemma_eligible(chips, covered);
}

} // verus!
