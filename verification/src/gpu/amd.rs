//! AMD cards, as the `amdgpu` driver describes them in sysfs.

use crate::binary64::Binary64;
use crate::gpu;
use crate::gpu::model;
use crate::gpu::Amount;
use crate::gpu::Config;
use crate::gpu::GpuConfig;
use crate::gpu::GpuInfo;
use crate::gpu::GpuProvider;
use crate::gpu::GpuState;
use crate::gpu::Info;
use crate::gpu::Measure;
use crate::gpu::ModelNames;
use crate::number;
use crate::sensors;
use crate::table;
use crate::text;
use crate::util;
use std::collections::HashMap;
use vstd::prelude::*;

verus! {

/// A file in a hwmon directory: its name, where that is text, what was read of it, and the
/// number in the file of `temp_input_name`, where that is one.
#[derive(Debug)]
pub struct HwmonFile {
    pub name: Option<String>,
    pub content: Option<String>,
    pub input: Option<Binary64>,
}

/// A hwmon directory: what was read of its `name`, its files, where they can be listed,
/// and the numbers in `power1_average` and `power1_input`, where they are some.
#[derive(Debug)]
pub struct Hwmon {
    pub name: Option<String>,
    pub files: Option<Vec<HwmonFile>>,
    pub power_average: Option<Binary64>,
    pub power_input: Option<Binary64>,
}

/// A card's directory under `/sys/bus/pci/devices`: the number in `gpu_busy_percent`, what
/// was read of its other files, and its hwmon directories, where they can be listed.
#[derive(Debug)]
pub struct AmdDevice {
    pub busy_percent: Option<Binary64>,
    pub vram_used: Option<String>,
    pub vram_total: Option<String>,
    pub gtt_used: Option<String>,
    pub gtt_total: Option<String>,
    pub device: Option<String>,
    pub hwmon: Option<Vec<Hwmon>>,
}

/// A directory under `/sys/bus/pci/devices`: its name, and what was read of the `name` of
/// each of its hwmon directories.
#[derive(Debug)]
pub struct PciDevice {
    pub name: String,
    pub hwmon_names: Vec<Option<String>>,
}

/// Whether a hwmon's name is that of the AMD driver.
pub open spec fn is_amdgpu(name: Option<Seq<char>>) -> bool {
    name matches Some(n) && text::trimmed(n) == "amdgpu"@
}

/// Whether a PCI device is a card of AMD: it exposes a hwmon of the AMD driver.
pub open spec fn is_amd_card(d: PciDevice) -> bool {
    exists|i: int|
        0 <= i < d.hwmon_names@.len() && is_amdgpu(text::maybe(#[trigger] d.hwmon_names@[i]))
}

/// The addresses of the AMD cards among PCI devices.
pub open spec fn amd_cards(devices: Seq<PciDevice>) -> Seq<Seq<char>>
    decreases devices.len(),
{
    if devices.len() == 0 {
        Seq::empty()
    } else {
        let rest = amd_cards(devices.drop_last());
        if is_amd_card(devices.last()) {
            rest.push(devices.last().name@)
        } else {
            rest
        }
    }
}

/// The addresses of the AMD cards among the listed devices; none when they could not be
/// listed.
pub open spec fn found_cards(devices: Option<Seq<PciDevice>>) -> Seq<Seq<char>> {
    match devices {
        Some(v) => amd_cards(v),
        None => Seq::empty(),
    }
}

fn names_amdgpu(name: &Option<String>) -> (r: bool)
    ensures
        r == is_amdgpu(text::maybe(*name)),
{
    match name {
        Some(n) => {
            let chars = text::chars_of(n.as_str());
            text::is_text(text::trim(chars.as_slice()), "amdgpu")
        },
        None => false,
    }
}

/// The addresses of all PCI devices that expose a hwmon of the AMD driver, for hosts without a
/// configuration; none when the devices could not be listed.
pub fn discover_amd_gpu_ids(devices: Option<&Vec<PciDevice>>) -> (r: Vec<String>)
    ensures
        sensors::strings(r@) == found_cards(text::given(devices)),
{
    let mut out: Vec<String> = Vec::new();
    assert(sensors::strings(out@) =~= Seq::<Seq<char>>::empty());
    if let Some(v) = devices {
        assert(v@.take(0) =~= Seq::<PciDevice>::empty());
        for i in 0..v.len()
            invariant
                sensors::strings(out@) == amd_cards(v@.take(i as int)),
        {
            let d = &v[i];
            let mut found = false;
            for k in 0..d.hwmon_names.len()
                invariant
                    found == exists|j: int|
                        0 <= j < k && is_amdgpu(text::maybe(#[trigger] d.hwmon_names@[j])),
            {
                if names_amdgpu(&d.hwmon_names[k]) {
                    found = true;
                }
            }
            let ghost before = sensors::strings(out@);
            proof {
                assert(v@.take(i + 1).drop_last() =~= v@.take(i as int));
                assert(v@.take(i + 1).last() == v@[i as int]);
            }
            if found {
                out.push(text::owned(d.name.as_str()));
                assert(sensors::strings(out@) =~= before.push(d.name@));
            }
        }
        assert(v@.take(v@.len() as int) =~= v@);
    }
    out
}

/// The configuration of a card that was found.
pub open spec fn found_config(id: Seq<char>) -> Config {
    Config { id, provider: GpuProvider::Amd, sensors: Seq::empty(), bar: true }
}

/// The cards to watch: the configured ones, or all that were found when none is.
pub open spec fn watched(configs: Seq<Config>, found: Seq<Seq<char>>) -> Seq<Config> {
    if configs.len() > 0 {
        configs
    } else {
        found.map_values(|id: Seq<char>| found_config(id))
    }
}

/// The cards to watch: the configured ones, or all that were found when none is. Nothing
/// when there is none either way.
pub fn resolve_configs(configs: Vec<GpuConfig>, found: &Vec<String>) -> (r: Option<Vec<GpuConfig>>)
    ensures
        match r {
            Some(v) => v@.len() > 0 && gpu::configs_of(v@) == watched(
                gpu::configs_of(configs@),
                sensors::strings(found@),
            ),
            None => configs@.len() == 0 && found@.len() == 0,
        },
{
    if configs.len() > 0 {
        return Some(configs);
    }
    if found.len() == 0 {
        return None;
    }
    let mut out: Vec<GpuConfig> = Vec::new();
    let ghost all = sensors::strings(found@).map_values(|id: Seq<char>| found_config(id));
    for i in 0..found.len()
        invariant
            out@.len() == i,
            all == sensors::strings(found@).map_values(|id: Seq<char>| found_config(id)),
            gpu::configs_of(out@) =~= all.take(i as int),
    {
        let ghost before = gpu::configs_of(out@);
        let config = GpuConfig {
            id: text::owned(found[i].as_str()),
            provider: GpuProvider::Amd,
            gpu_temp_sensors: Vec::new(),
            bar: true,
        };
        proof {
            assert(config@.sensors =~= Seq::<sensors::Request>::empty());
            assert(all[i as int] == found_config(found@[i as int]@));
            assert(config@ == all[i as int]);
        }
        out.push(config);
        assert(gpu::configs_of(out@) =~= before.push(config@));
    }
    assert(all.take(all.len() as int) =~= all);
    Some(out)
}

/// What stands between `temp` and `_label` in a file's name.
pub open spec fn label_index(name: Seq<char>) -> Option<Seq<char>> {
    match text::after_prefix(name, "temp"@) {
        Some(rest) => text::before_suffix(rest, "_label"@),
        None => None,
    }
}

/// The name of the file with the temperature that a label is for.
pub open spec fn input_name(name: Seq<char>) -> Option<Seq<char>> {
    match label_index(name) {
        Some(index) => Some("temp"@ + index + "_input"@),
        None => None,
    }
}

/// The name of the file with the temperature that a label file is for; nothing for other
/// files.
pub fn temp_input_name(name: &str) -> (r: Option<String>)
    ensures
        text::maybe(r) == input_name(name@),
{
    let chars = text::chars_of(name);
    if let Some(rest) = text::strip_prefix(chars.as_slice(), "temp") {
        if let Some(index) = text::strip_suffix(rest, "_label") {
            let mut out = text::chars_of("temp");
            text::append(&mut out, index);
            let tail = text::chars_of("_input");
            text::append(&mut out, tail.as_slice());
            return Some(text::string_of(out.as_slice()));
        }
    }
    None
}

/// The label and the temperature, in thousandths of a degree, that a file gives.
pub open spec fn temperature_of(f: HwmonFile) -> Option<(Seq<char>, Binary64)> {
    match (text::maybe(f.name), text::maybe(f.content), f.input) {
        (Some(name), Some(label), Some(milli)) if label_index(name) is Some => Some(
            (text::trimmed(label), milli),
        ),
        _ => None,
    }
}

/// The temperatures that files give, by label. The last one of a label counts.
pub open spec fn temperatures(files: Seq<HwmonFile>) -> Seq<(Seq<char>, Binary64)>
    decreases files.len(),
{
    if files.len() == 0 {
        Seq::empty()
    } else {
        let rest = temperatures(files.drop_last());
        match temperature_of(files.last()) {
            Some((label, milli)) => table::put(rest, label, milli),
            None => rest,
        }
    }
}

/// The temperature that stands for a card: that of the junction, else of the edge, else
/// the one whose label came up first.
pub open spec fn chosen_temperature(temps: Seq<(Seq<char>, Binary64)>) -> Option<Binary64> {
    match table::value_at(temps, "junction"@) {
        Some(milli) => Some(milli),
        None => match table::value_at(temps, "edge"@) {
            Some(milli) => Some(milli),
            None => if temps.len() > 0 {
                Some(temps[0].1)
            } else {
                None
            },
        },
    }
}

/// The temperature of a card in degrees; 0 when its files could not be listed or give
/// none.
pub open spec fn card_temperature(files: Option<Seq<HwmonFile>>) -> Amount {
    match files {
        Some(files) => gpu::amount_of(chosen_temperature(temperatures(files)), 1000),
        None => gpu::no_amount(),
    }
}

pub open spec fn temp_views(v: Seq<(String, Binary64)>) -> Seq<(Seq<char>, Binary64)> {
    v.map_values(|t: (String, Binary64)| (t.0@, t.1))
}

fn temp_at(temps: &Vec<(String, Binary64)>, label: &str) -> (r: Option<Binary64>)
    ensures
        r == table::value_at(temp_views(temps@), label@),
{
    let ghost all = temp_views(temps@);
    assert(all.skip(0) =~= all);
    for i in 0..temps.len()
        invariant
            all == temp_views(temps@),
            table::value_at(all, label@) == table::value_at(all.skip(i as int), label@),
    {
        assert(all.skip(i as int)[0] == all[i as int]);
        if text::same_text(temps[i].0.as_str(), label) {
            return Some(temps[i].1);
        }
        assert(all.skip(i as int).skip(1) =~= all.skip(i + 1));
    }
    None
}

fn put_temp(temps: &mut Vec<(String, Binary64)>, label: String, milli: Binary64)
    ensures
        temp_views(final(temps)@) == table::put(temp_views(old(temps)@), label@, milli),
{
    let ghost all = temp_views(temps@);
    assert(all.skip(0) =~= all);
    assert(all.take(0) + table::put(all.skip(0), label@, milli) =~= table::put(all, label@, milli));
    let n = temps.len();
    for i in 0..n
        invariant
            n == temps@.len(),
            *temps == *old(temps),
            all == temp_views(temps@),
            all.take(i as int) + table::put(all.skip(i as int), label@, milli) == table::put(
                all,
                label@,
                milli,
            ),
    {
        let ghost rest = all.skip(i as int);
        assert(rest[0] == all[i as int]);
        if text::same_text(temps[i].0.as_str(), label.as_str()) {
            temps.set(i, (label, milli));
            assert(temp_views(temps@) =~= all.take(i as int) + table::put(rest, label@, milli));
            return;
        }
        assert(rest.skip(1) =~= all.skip(i + 1));
        assert(all.take(i as int) + table::put(rest, label@, milli) =~= all.take(i + 1)
            + table::put(all.skip(i + 1), label@, milli));
    }
    temps.push((label, milli));
    assert(all.skip(n as int) =~= Seq::<(Seq<char>, Binary64)>::empty());
    assert(temp_views(temps@) =~= all.take(n as int) + table::put(all.skip(n as int), label@, milli));
}

fn read_label(f: &HwmonFile) -> (r: Option<(String, Binary64)>)
    ensures
        match r {
            Some(t) => temperature_of(*f) == Some((t.0@, t.1)),
            None => temperature_of(*f) is None,
        },
{
    if let (Some(name), Some(content), Some(milli)) = (&f.name, &f.content, f.input) {
        if temp_input_name(name.as_str()).is_some() {
            if let Some(label) = util::read_trimmed(Some(content.as_str())) {
                return Some((label, milli));
            }
        }
    }
    None
}

/// The temperature in a hwmon directory: of the junction (the hotspot), else of the edge,
/// else any.
pub fn read_temp(files: Option<&Vec<HwmonFile>>) -> (r: Measure)
    ensures
        r@ == card_temperature(text::given(files)),
{
    let mut temps: Vec<(String, Binary64)> = Vec::new();
    assert(temp_views(temps@) =~= Seq::<(Seq<char>, Binary64)>::empty());
    let v = match files {
        Some(v) => v,
        None => {
            return gpu::measure(None, 1);
        },
    };
    assert(v@.take(0) =~= Seq::<HwmonFile>::empty());
    for i in 0..v.len()
        invariant
            temp_views(temps@) == temperatures(v@.take(i as int)),
    {
        proof {
            assert(v@.take(i + 1).drop_last() =~= v@.take(i as int));
            assert(v@.take(i + 1).last() == v@[i as int]);
        }
        if let Some((label, milli)) = read_label(&v[i]) {
            put_temp(&mut temps, label, milli);
        }
    }
    assert(v@.take(v@.len() as int) =~= v@);
    let chosen = match temp_at(&temps, "junction") {
        Some(milli) => Some(milli),
        None => match temp_at(&temps, "edge") {
            Some(milli) => Some(milli),
            None => if temps.len() > 0 {
                assert(temp_views(temps@)[0] == (temps@[0].0@, temps@[0].1));
                Some(temps[0].1)
            } else {
                None
            },
        },
    };
    gpu::measure(chosen, 1000)
}

/// The power that a card draws in watts: the average, else the current one; 0 when neither
/// is known. sysfs gives millionths of a watt.
pub open spec fn card_power(average: Option<Binary64>, input: Option<Binary64>) -> Amount {
    match average {
        Some(_) => gpu::amount_of(average, 1_000_000),
        None => gpu::amount_of(input, 1_000_000),
    }
}

/// The power in a hwmon directory: the average, else the current one.
pub fn read_power(average: Option<Binary64>, input: Option<Binary64>) -> (r: Measure)
    ensures
        r@ == card_power(average, input),
{
    match average {
        Some(_) => gpu::measure(average, 1_000_000),
        None => gpu::measure(input, 1_000_000),
    }
}

/// The files of a hwmon directory.
pub open spec fn files_of(h: Hwmon) -> Option<Seq<HwmonFile>> {
    match h.files {
        Some(v) => Some(v@),
        None => None,
    }
}

/// Temperature and power in the first hwmon directory of the AMD driver.
pub open spec fn hwmon_values(all: Seq<Hwmon>) -> (Amount, Amount)
    decreases all.len(),
{
    if all.len() == 0 {
        (gpu::no_amount(), gpu::no_amount())
    } else if is_amdgpu(text::maybe(all[0].name)) {
        (card_temperature(files_of(all[0])), card_power(all[0].power_average, all[0].power_input))
    } else {
        hwmon_values(all.skip(1))
    }
}

/// The hwmon directories of a card, none when they could not be listed.
pub open spec fn hwmons_of(d: AmdDevice) -> Seq<Hwmon> {
    match d.hwmon {
        Some(v) => v@,
        None => Seq::empty(),
    }
}

/// Temperature and power of a card; 0 each when no hwmon directory is the AMD driver's.
pub fn read_hwmon(hwmon: &Option<Vec<Hwmon>>) -> (r: (Measure, Measure))
    ensures
        (r.0@, r.1@) == (match *hwmon {
            Some(v) => hwmon_values(v@),
            None => hwmon_values(Seq::empty()),
        }),
{
    if let Some(v) = hwmon {
        assert(v@.skip(0) =~= v@);
        for i in 0..v.len()
            invariant
                *hwmon == Some(*v),
                hwmon_values(v@) == hwmon_values(v@.skip(i as int)),
        {
            let h = &v[i];
            assert(v@.skip(i as int)[0] == v@[i as int]);
            if names_amdgpu(&h.name) {
                let files = match &h.files {
                    Some(files) => Some(files),
                    None => None,
                };
                return (read_temp(files), read_power(h.power_average, h.power_input));
            }
            assert(v@.skip(i as int).skip(1) =~= v@.skip(i + 1));
        }
        assert(v@.skip(v@.len() as int) =~= Seq::<Hwmon>::empty());
    }
    (gpu::measure(None, 1), gpu::measure(None, 1))
}

/// The number of bytes in a file; 0 when there is none.
pub open spec fn bytes_in(content: Option<Seq<char>>) -> u64 {
    match content {
        Some(c) => match number::u64_of(text::trimmed(c)) {
            Some(v) => v,
            None => 0,
        },
        None => 0,
    }
}

fn read_bytes(content: &Option<String>) -> (r: u64)
    ensures
        r == bytes_in(text::maybe(*content)),
{
    match content {
        Some(c) => {
            let chars = text::chars_of(c.as_str());
            match number::parse_u64(text::trim(chars.as_slice())) {
                Some(v) => v,
                None => 0,
            }
        },
        None => 0,
    }
}

/// Whether a card is an integrated one: as Vulkan says of its device id, else, for a card
/// that Vulkan does not list, as its absence from the bar suggests.
pub open spec fn is_integrated(device: Option<u32>, vk_types: Map<u32, bool>, bar: bool) -> bool {
    match device {
        Some(id) if vk_types.dom().contains(id) => vk_types[id],
        _ => !bar,
    }
}

/// The label of a card among `count`: none for a single card, and none without Vulkan's
/// word on any card.
pub open spec fn label_of(
    count: int,
    device: Option<u32>,
    vk_types: Map<u32, bool>,
    bar: bool,
) -> Seq<char> {
    if count <= 1 || vk_types == Map::<u32, bool>::empty() {
        Seq::empty()
    } else if is_integrated(device, vk_types, bar) {
        "iGPU"@
    } else {
        "dGPU"@
    }
}

/// What is known of a card.
pub open spec fn card_info(
    config: Config,
    d: AmdDevice,
    count: int,
    vk_types: Map<u32, bool>,
    names: Map<Seq<char>, Seq<char>>,
) -> Info {
    Info {
        id: config.id,
        label: label_of(count, model::hex_file(text::maybe(d.device)), vk_types, config.bar),
        model: gpu::shown_name(names, config.id),
        provider: GpuProvider::Amd,
        gpu_usage: gpu::amount_of(d.busy_percent, 1),
        mem_used: bytes_in(text::maybe(d.vram_used)),
        mem_total: bytes_in(text::maybe(d.vram_total)),
        gtt_used: bytes_in(text::maybe(d.gtt_used)),
        gtt_total: bytes_in(text::maybe(d.gtt_total)),
        temperature: hwmon_values(hwmons_of(d)).0,
        power_watts: hwmon_values(hwmons_of(d)).1,
        in_bar: config.bar,
    }
}

/// What is known of the first `n` configured cards. Those without a directory are left out.
pub open spec fn card_infos(
    configs: Seq<Config>,
    devices: Seq<Option<AmdDevice>>,
    n: int,
    vk_types: Map<u32, bool>,
    names: Map<Seq<char>, Seq<char>>,
) -> Seq<Info>
    decreases n,
{
    if n <= 0 {
        Seq::empty()
    } else {
        let rest = card_infos(configs, devices, n - 1, vk_types, names);
        match devices[n - 1] {
            Some(d) => rest.push(
                card_info(configs[n - 1], d, configs.len() as int, vk_types, names),
            ),
            None => rest,
        }
    }
}

fn card_label(count: usize, device: Option<u32>, vk_types: &HashMap<u32, bool>, bar: bool) -> (r:
    String)
    ensures
        r@ == label_of(count as int, device, vk_types@, bar),
{
    broadcast use vstd::std_specs::hash::group_hash_axioms;

    proof {
        assert(vk_types@.is_empty() ==> vk_types@ =~= Map::<u32, bool>::empty());
    }
    if count <= 1 || vk_types.is_empty() {
        let r = String::new();
        assert(r@ =~= Seq::<char>::empty());
        return r;
    }
    let integrated = match device {
        Some(id) => match vk_types.get(&id) {
            Some(b) => *b,
            None => !bar,
        },
        None => !bar,
    };
    if integrated {
        text::owned("iGPU")
    } else {
        text::owned("dGPU")
    }
}

/// The state of the configured cards, given what was read of the directory of each.
/// `vk_types` says of a PCI device id whether Vulkan takes it for an integrated card; it
/// serves the labels alone, and an empty one skips them.
pub fn read_state(
    configs: &Vec<GpuConfig>,
    devices: &Vec<Option<AmdDevice>>,
    vk_types: &HashMap<u32, bool>,
    models: &ModelNames,
) -> (r: GpuState)
    requires
        devices@.len() == configs@.len(),
    ensures
        gpu::infos(r.gpus@) == card_infos(
            gpu::configs_of(configs@),
            devices@,
            configs@.len() as int,
            vk_types@,
            models@,
        ),
{
    let mut gpus: Vec<GpuInfo> = Vec::new();
    let ghost all = gpu::configs_of(configs@);
    assert(gpu::infos(gpus@) =~= Seq::<Info>::empty());
    for i in 0..configs.len()
        invariant
            devices@.len() == configs@.len(),
            all == gpu::configs_of(configs@),
            gpu::infos(gpus@) == card_infos(all, devices@, i as int, vk_types@, models@),
    {
        let ghost before = gpu::infos(gpus@);
        let config = &configs[i];
        assert(all[i as int] == config@);
        if let Some(d) = &devices[i] {
            let device = match &d.device {
                Some(content) => model::read_hex(Some(content.as_str())),
                None => None,
            };
            let (temperature, power_watts) = read_hwmon(&d.hwmon);
            let info = GpuInfo {
                id: text::owned(config.id.as_str()),
                label: card_label(configs.len(), device, vk_types, config.bar),
                model: models.shown(config.id.as_str()),
                provider: GpuProvider::Amd,
                gpu_usage: gpu::measure(d.busy_percent, 1),
                mem_used: read_bytes(&d.vram_used),
                mem_total: read_bytes(&d.vram_total),
                gtt_used: read_bytes(&d.gtt_used),
                gtt_total: read_bytes(&d.gtt_total),
                temperature,
                power_watts,
                in_bar: config.bar,
            };
            assert(info@ == card_info(config@, *d, all.len() as int, vk_types@, models@));
            gpus.push(info);
            assert(gpu::infos(gpus@) =~= before.push(info@));
        }
    }
    GpuState { gpus }
}

/// The temperature under a label: that of the last file that gives one.
pub open spec fn labelled_temperature(files: Seq<HwmonFile>, label: Seq<char>) -> Option<Binary64>
    decreases files.len(),
{
    if files.len() == 0 {
        None
    } else {
        match temperature_of(files.last()) {
            Some((l, milli)) if l == label => Some(milli),
            _ => labelled_temperature(files.drop_last(), label),
        }
    }
}

/// No label is listed twice, and each has the temperature of the last file that gives one.
pub proof fn law_last_temperature_counts(files: Seq<HwmonFile>)
    ensures
        table::distinct(temperatures(files)),
        forall|label: Seq<char>| #[trigger]
            table::value_at(temperatures(files), label) == labelled_temperature(files, label),
    decreases files.len(),
{
    if files.len() > 0 {
        let rest = temperatures(files.drop_last());
        law_last_temperature_counts(files.drop_last());
        assert forall|label: Seq<char>| #[trigger]
            table::value_at(temperatures(files), label) == labelled_temperature(files, label) by {
            assert(table::value_at(rest, label) == labelled_temperature(files.drop_last(), label));
            if let Some((l, milli)) = temperature_of(files.last()) {
                table::lemma_put(rest, l, milli);
            }
        }
        if let Some((l, milli)) = temperature_of(files.last()) {
            table::lemma_put(rest, l, milli);
        }
    }
}

/// The junction's temperature stands for a card whenever there is one; else the edge's;
/// else that of some label. Without any label there is none.
pub proof fn law_junction_before_edge_before_any(files: Seq<HwmonFile>)
    ensures
        labelled_temperature(files, "junction"@) is Some ==> chosen_temperature(temperatures(files))
            == labelled_temperature(files, "junction"@),
        labelled_temperature(files, "junction"@) is None && labelled_temperature(
            files,
            "edge"@,
        ) is Some ==> chosen_temperature(temperatures(files)) == labelled_temperature(
            files,
            "edge"@,
        ),
        chosen_temperature(temperatures(files)) is Some ==> exists|label: Seq<char>|
            chosen_temperature(temperatures(files)) == #[trigger] labelled_temperature(
                files,
                label,
            ),
        chosen_temperature(temperatures(files)) is None <==> forall|label: Seq<char>|
            #[trigger] labelled_temperature(files, label) is None,
{
    let temps = temperatures(files);
    law_last_temperature_counts(files);
    assert(table::value_at(temps, "junction"@) == labelled_temperature(files, "junction"@));
    assert(table::value_at(temps, "edge"@) == labelled_temperature(files, "edge"@));
    if temps.len() > 0 {
        assert(table::value_at(temps, temps[0].0) == Some(temps[0].1));
        assert(labelled_temperature(files, temps[0].0) == Some(temps[0].1));
    } else {
        assert forall|label: Seq<char>| #[trigger]
            labelled_temperature(files, label) is None by {
            assert(table::value_at(temps, label) is None);
        }
    }
}

/// What Vulkan says changes the label of a card and nothing else. Without its word there is
/// no label; of a card that it does not list, the label goes by the bar.
pub proof fn law_vulkan_only_labels(
    config: Config,
    d: AmdDevice,
    count: int,
    vk_types: Map<u32, bool>,
    names: Map<Seq<char>, Seq<char>>,
)
    ensures
        card_info(config, d, count, vk_types, names) == (Info {
            label: label_of(count, model::hex_file(text::maybe(d.device)), vk_types, config.bar),
            ..card_info(config, d, count, Map::empty(), names)
        }),
        card_info(config, d, count, Map::empty(), names).label == Seq::<char>::empty(),
        count > 1 && vk_types != Map::<u32, bool>::empty() && (match model::hex_file(
            text::maybe(d.device),
        ) {
            Some(id) => !vk_types.dom().contains(id),
            None => true,
        }) ==> card_info(config, d, count, vk_types, names).label == if config.bar {
            "dGPU"@
        } else {
            "iGPU"@
        },
{
}

/// A label is "iGPU", "dGPU" or nothing.
pub proof fn law_labels(
    config: Config,
    d: AmdDevice,
    count: int,
    vk_types: Map<u32, bool>,
    names: Map<Seq<char>, Seq<char>>,
)
    ensures
        ({
            let label = card_info(config, d, count, vk_types, names).label;
            label == "iGPU"@ || label == "dGPU"@ || label.len() == 0
        }),
{
}

/// Of a host with a single card, the card has no label.
pub proof fn law_single_card_has_no_label(
    config: Config,
    d: AmdDevice,
    vk_types: Map<u32, bool>,
    names: Map<Seq<char>, Seq<char>>,
)
    ensures
        card_info(config, d, 1, vk_types, names).label.len() == 0,
{
}

/// Every configured card with a directory is reported, in the order of the configuration,
/// and no other.
pub proof fn law_cards_with_directory_reported(
    configs: Seq<Config>,
    devices: Seq<Option<AmdDevice>>,
    n: int,
    vk_types: Map<u32, bool>,
    names: Map<Seq<char>, Seq<char>>,
)
    requires
        0 <= n <= configs.len(),
        devices.len() == configs.len(),
    ensures
        card_infos(configs, devices, n, vk_types, names).map_values(|i: Info| i.id)
            == present_ids(configs, devices, n),
    decreases n,
{
    let all = card_infos(configs, devices, n, vk_types, names);
    if n > 0 {
        law_cards_with_directory_reported(configs, devices, n - 1, vk_types, names);
        let rest = card_infos(configs, devices, n - 1, vk_types, names);
        if let Some(d) = devices[n - 1] {
            let last = card_info(configs[n - 1], d, configs.len() as int, vk_types, names);
            assert(rest.push(last).map_values(|i: Info| i.id) =~= rest.map_values(
                |i: Info| i.id,
            ).push(last.id));
        }
    } else {
        assert(all.map_values(|i: Info| i.id) =~= Seq::<Seq<char>>::empty());
    }
}

/// The addresses of those of the first `n` configured cards that have a directory.
pub open spec fn present_ids(
    configs: Seq<Config>,
    devices: Seq<Option<AmdDevice>>,
    n: int,
) -> Seq<Seq<char>>
    decreases n,
{
    if n <= 0 {
        Seq::empty()
    } else {
        let rest = present_ids(configs, devices, n - 1);
        if devices[n - 1] is Some {
            rest.push(configs[n - 1].id)
        } else {
            rest
        }
    }
}

} // verus!
