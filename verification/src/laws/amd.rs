//! Laws of AMD cards.

use crate::binary64::Binary64;
use crate::gpu;
use crate::gpu::amd;
use crate::gpu::amd::AmdDevice;
use crate::gpu::amd::Hwmon;
use crate::gpu::amd::HwmonFile;
use crate::gpu::amd::PciDevice;
use crate::gpu::model;
use crate::gpu::Amount;
use crate::gpu::Config;
use crate::gpu::GpuProvider;
use crate::laws;
use crate::number;
use crate::table;
use crate::text;
use vstd::prelude::*;

verus! {

/// Whether a figure is the number in a file, 0 where the file holds none or could not be
/// read.
pub open spec fn says(file: Option<String>, figure: u64) -> bool {
    match file {
        Some(s) => match number::u64_of(text::trimmed(s@)) {
            Some(n) => figure == n,
            None => figure == 0,
        },
        None => figure == 0,
    }
}

/// Each figure of a card's memory is the number in its own file.
pub proof fn law_memory_figures(
    config: Config,
    d: AmdDevice,
    count: int,
    vk_types: Map<u32, bool>,
    names: Map<Seq<char>, Seq<char>>,
)
    ensures
        ({
            let info = amd::card_info(config, d, count, vk_types, names);
            &&& says(d.vram_used, info.mem_used)
            &&& says(d.vram_total, info.mem_total)
            &&& says(d.gtt_used, info.gtt_used)
            &&& says(d.gtt_total, info.gtt_total)
        }),
{
}

/// Each figure of a card's memory depends on its own file alone: two cards that agree in
/// one of the files agree in its figure, however they differ in the others.
pub proof fn law_own_file_alone(
    a: Config,
    b: Config,
    d: AmdDevice,
    e: AmdDevice,
    count: int,
    vk_types: Map<u32, bool>,
    names: Map<Seq<char>, Seq<char>>,
)
    ensures
        ({
            let x = amd::card_info(a, d, count, vk_types, names);
            let y = amd::card_info(b, e, count, vk_types, names);
            &&& d.vram_used == e.vram_used ==> x.mem_used == y.mem_used
            &&& d.vram_total == e.vram_total ==> x.mem_total == y.mem_total
            &&& d.gtt_used == e.gtt_used ==> x.gtt_used == y.gtt_used
            &&& d.gtt_total == e.gtt_total ==> x.gtt_total == y.gtt_total
            &&& d.busy_percent == e.busy_percent ==> x.gpu_usage == y.gpu_usage
            &&& d.hwmon == e.hwmon ==> x.temperature == y.temperature && x.power_watts
                == y.power_watts
        }),
{
}

/// The digits of a number in a file, with or without the newline behind, give that number.
pub proof fn law_digits_give_the_number(content: Seq<char>, n: u64)
    requires
        content == laws::number::decimal(n as nat) || content == laws::number::decimal(n as nat)
            + seq!['\n'],
    ensures
        amd::bytes_in(Some(content)) == n,
        amd::bytes_in(None) == 0,
{
    let digits = laws::number::decimal(n as nat);
    laws::number::law_decimal_reads_back(n as nat);
    laws::text::law_digits(digits);
    reveal_strlit("0123456789");
    laws::text::law_white_space(digits[0]);
    laws::text::law_white_space(digits.last());
    assert("0123456789"@.contains(digits[0]));
    assert("0123456789"@.contains(digits[digits.len() - 1]));
    laws::text::law_white_space('\n');
    laws::text::law_trimming_undoes_padding(Seq::empty(), digits, seq!['\n']);
    laws::text::law_trimming_undoes_padding(Seq::empty(), digits, Seq::empty());
    assert(Seq::empty() + digits + seq!['\n'] =~= digits + seq!['\n']);
    assert(Seq::empty() + digits + Seq::empty() =~= digits);
}

/// A card keeps its address, its name and its place in the bar, and shows the busy share as
/// it was read.
pub proof fn law_card(
    config: Config,
    d: AmdDevice,
    count: int,
    vk_types: Map<u32, bool>,
    names: Map<Seq<char>, Seq<char>>,
)
    ensures
        ({
            let info = amd::card_info(config, d, count, vk_types, names);
            &&& info.id == config.id
            &&& info.model == gpu::shown_name(names, config.id)
            &&& info.provider == GpuProvider::Amd
            &&& info.in_bar == config.bar
            &&& info.gpu_usage == gpu::amount_of(d.busy_percent, 1)
            &&& match d.hwmon {
                Some(v) => (info.temperature, info.power_watts) == amd::hwmon_values(v@),
                None => info.temperature == gpu::amount_of(None, 1) && info.power_watts
                    == gpu::amount_of(None, 1),
            }
        }),
{
}

/// Whether a `name` is that of the AMD driver.
pub open spec fn names_driver(name: Option<String>) -> bool {
    match name {
        Some(n) => text::trimmed(n@) == "amdgpu"@,
        None => false,
    }
}

/// The first directory of the AMD driver gives temperature and power, whatever stands
/// before or behind it; without one, there are none.
pub proof fn law_first_driver_directory(h: Hwmon, rest: Seq<Hwmon>)
    ensures
        names_driver(h.name) ==> amd::hwmon_values(seq![h] + rest) == (
            amd::card_temperature(
                match h.files {
                    Some(v) => Some(v@),
                    None => None,
                },
            ),
            amd::card_power(h.power_average, h.power_input),
        ),
        !names_driver(h.name) ==> amd::hwmon_values(seq![h] + rest) == amd::hwmon_values(rest),
        amd::hwmon_values(Seq::empty()) == (gpu::amount_of(None, 1), gpu::amount_of(None, 1)),
{
    assert((seq![h] + rest).skip(1) =~= rest);
}

/// The power in watts is the average over a million, else the current one over a million.
pub proof fn law_power(average: Binary64, input: Option<Binary64>, current: Binary64)
    ensures
        amd::card_power(Some(average), input) == (Amount::Scaled {
            value: average,
            divisor: 1_000_000,
        }),
        amd::card_power(None, Some(current)) == (Amount::Scaled {
            value: current,
            divisor: 1_000_000,
        }),
        amd::card_power(None, None) == gpu::amount_of(None, 1),
{
}

/// The file of a label is `temp`, something, `_label`; its temperature is in `temp`, the
/// same, `_input`. Other files are for no temperature.
pub proof fn law_label_file(name: Seq<char>, index: Seq<char>)
    ensures
        amd::input_name("temp"@ + index + "_label"@) == Some("temp"@ + index + "_input"@),
        (forall|i: Seq<char>| name != #[trigger] ("temp"@ + i) + "_label"@) ==> amd::input_name(
            name,
        ) is None,
{
    let n = "temp"@ + index + "_label"@;
    assert(n =~= "temp"@ + (index + "_label"@));
    laws::text::law_prefix(n, "temp"@, index + "_label"@);
    laws::text::law_suffix(index + "_label"@, "_label"@, index);
    if let Some(rest) = text::after_prefix(name, "temp"@) {
        laws::text::law_prefix(name, "temp"@, rest);
        if let Some(i) = text::before_suffix(rest, "_label"@) {
            laws::text::law_suffix(rest, "_label"@, i);
            assert(name =~= ("temp"@ + i) + "_label"@);
        }
    }
}

/// A label file gives the label in it and the number that goes with it, where both were
/// read; any other file gives nothing.
pub proof fn law_labelled(f: HwmonFile)
    ensures
        match (f.name, f.content, f.input) {
            (Some(name), Some(content), Some(milli)) => amd::temperature_of(f) == (
            if amd::input_name(name@) is Some {
                Some((text::trimmed(content@), milli))
            } else {
                None
            }),
            _ => amd::temperature_of(f) is None,
        },
{
}

/// More files: one that gives nothing changes nothing, and one that gives a temperature
/// replaces that of its label, and no other.
pub proof fn law_one_more_file(files: Seq<HwmonFile>, f: HwmonFile, label: Seq<char>)
    ensures
        table::value_at(amd::temperatures(Seq::empty()), label) is None,
        match amd::temperature_of(f) {
            Some((l, milli)) => table::value_at(amd::temperatures(files.push(f)), label) == (
            if l == label {
                Some(milli)
            } else {
                table::value_at(amd::temperatures(files), label)
            }),
            None => amd::temperatures(files.push(f)) == amd::temperatures(files),
        },
{
    assert(files.push(f).drop_last() =~= files);
    if let Some((l, milli)) = amd::temperature_of(f) {
        table::lemma_put(amd::temperatures(files), l, milli);
    }
}

/// The label that came up first stays first.
proof fn lemma_first_label(files: Seq<HwmonFile>, i: int)
    requires
        0 <= i < files.len(),
        amd::temperature_of(files[i]) is Some,
        forall|j: int| 0 <= j < i ==> amd::temperature_of(#[trigger] files[j]) is None,
    ensures
        amd::temperatures(files).len() > 0,
        amd::temperatures(files)[0].0 == (amd::temperature_of(files[i])->0).0,
    decreases files.len(),
{
    let rest = files.drop_last();
    if i < rest.len() {
        assert(rest[i] == files[i]);
        assert forall|j: int| 0 <= j < i implies amd::temperature_of(#[trigger] rest[j]) is None by {
            assert(rest[j] == files[j]);
        }
        lemma_first_label(rest, i);
    } else {
        lemma_no_label(rest);
    }
}

proof fn lemma_no_label(files: Seq<HwmonFile>)
    requires
        forall|j: int| 0 <= j < files.len() ==> amd::temperature_of(#[trigger] files[j]) is None,
    ensures
        amd::temperatures(files).len() == 0,
    decreases files.len(),
{
    if files.len() > 0 {
        let rest = files.drop_last();
        assert forall|j: int| 0 <= j < rest.len() implies amd::temperature_of(
            #[trigger] rest[j],
        ) is None by {
            assert(rest[j] == files[j]);
        }
        lemma_no_label(rest);
        assert(files[files.len() - 1] == files.last());
    }
}

/// The temperature of a card in degrees is that of the junction over a thousand, else of
/// the edge, else of the label that came up first, and zero where there is no label.
pub proof fn law_temperature(files: Seq<HwmonFile>, i: int)
    ensures
        ({
            let temps = amd::temperatures(files);
            let junction = table::value_at(temps, "junction"@);
            let edge = table::value_at(temps, "edge"@);
            let shown = amd::card_temperature(Some(files));
            &&& junction matches Some(milli) ==> shown == (Amount::Scaled {
                value: milli,
                divisor: 1000,
            })
            &&& junction is None ==> (edge matches Some(milli) ==> shown == (Amount::Scaled {
                value: milli,
                divisor: 1000,
            }))
            &&& junction is None && edge is None && 0 <= i < files.len() && amd::temperature_of(
                files[i],
            ) is Some && (forall|j: int|
                0 <= j < i ==> amd::temperature_of(#[trigger] files[j]) is None) ==> shown
                == gpu::amount_of(
                table::value_at(temps, (amd::temperature_of(files[i])->0).0),
                1000,
            ) && table::value_at(temps, (amd::temperature_of(files[i])->0).0) is Some
            &&& (forall|j: int|
                0 <= j < files.len() ==> amd::temperature_of(#[trigger] files[j]) is None)
                ==> shown == gpu::amount_of(None, 1)
        }),
        amd::card_temperature(None) == gpu::amount_of(None, 1),
{
    if forall|j: int| 0 <= j < files.len() ==> amd::temperature_of(#[trigger] files[j]) is None {
        lemma_no_label(files);
    }
    if 0 <= i < files.len() && amd::temperature_of(files[i]) is Some && (forall|j: int|
        0 <= j < i ==> amd::temperature_of(#[trigger] files[j]) is None) {
        lemma_first_label(files, i);
    }
}

/// The label of a card: none where there is one card or Vulkan says nothing of any; else as
/// Vulkan says of the device, or as its place in the bar suggests.
pub proof fn law_label(
    config: Config,
    d: AmdDevice,
    count: int,
    vk_types: Map<u32, bool>,
    names: Map<Seq<char>, Seq<char>>,
)
    ensures
        ({
            let label = amd::card_info(config, d, count, vk_types, names).label;
            let device = match d.device {
                Some(content) => model::hex_file(Some(content@)),
                None => None,
            };
            &&& count <= 1 ==> label.len() == 0
            &&& (forall|id: u32| !#[trigger] vk_types.dom().contains(id)) ==> label.len() == 0
            &&& count > 1 ==> (device matches Some(id) ==> (vk_types.dom().contains(id)
                ==> label == if vk_types[id] {
                "iGPU"@
            } else {
                "dGPU"@
            }))
            &&& count > 1 && (exists|id: u32| #[trigger] vk_types.dom().contains(id)) && (
            device is None || !vk_types.dom().contains(device->0)) ==> label == if config.bar {
                "dGPU"@
            } else {
                "iGPU"@
            }
        }),
{
    if forall|id: u32| !#[trigger] vk_types.dom().contains(id) {
        assert(vk_types =~= Map::<u32, bool>::empty());
    }
}

/// One more configured card: with a directory it is reported behind the others, with the
/// label that goes with the number of configured cards; without one it is left out.
pub proof fn law_one_more_card(
    configs: Seq<Config>,
    devices: Seq<Option<AmdDevice>>,
    n: int,
    vk_types: Map<u32, bool>,
    names: Map<Seq<char>, Seq<char>>,
)
    requires
        0 <= n < configs.len(),
    ensures
        amd::card_infos(configs, devices, 0, vk_types, names).len() == 0,
        amd::card_infos(configs, devices, n + 1, vk_types, names) == (match devices[n] {
            Some(d) => amd::card_infos(configs, devices, n, vk_types, names).push(
                amd::card_info(configs[n], d, configs.len() as int, vk_types, names),
            ),
            None => amd::card_infos(configs, devices, n, vk_types, names),
        }),
{
}

/// The cards among devices are those among the first and then those among the others.
pub proof fn law_cards_follow(a: Seq<PciDevice>, b: Seq<PciDevice>)
    ensures
        amd::amd_cards(a + b) == amd::amd_cards(a) + amd::amd_cards(b),
    decreases b.len(),
{
    if b.len() == 0 {
        assert(a + b =~= a);
        assert(amd::amd_cards(a) + amd::amd_cards(b) =~= amd::amd_cards(a));
    } else {
        law_cards_follow(a, b.drop_last());
        assert((a + b).drop_last() =~= a + b.drop_last());
        assert(amd::amd_cards(a + b) =~= amd::amd_cards(a) + amd::amd_cards(b));
    }
}

/// A device is a card if and only if one of its hwmon directories is the AMD driver's; it
/// is then listed by its name.
pub proof fn law_card_by_driver(d: PciDevice)
    ensures
        (exists|i: int| 0 <= i < d.hwmon_names@.len() && names_driver(#[trigger] d.hwmon_names@[i]))
            ==> amd::amd_cards(seq![d]) == seq![d.name@],
        (forall|i: int|
            0 <= i < d.hwmon_names@.len() ==> !names_driver(#[trigger] d.hwmon_names@[i]))
            ==> amd::amd_cards(seq![d]).len() == 0,
{
    assert(seq![d].drop_last() =~= Seq::<PciDevice>::empty());
    reveal_with_fuel(amd::amd_cards, 2);
    if exists|i: int| 0 <= i < d.hwmon_names@.len() && names_driver(#[trigger] d.hwmon_names@[i]) {
        let i = choose|i: int|
            0 <= i < d.hwmon_names@.len() && names_driver(#[trigger] d.hwmon_names@[i]);
        assert(amd::is_amdgpu(text::maybe(d.hwmon_names@[i])));
        assert(amd::amd_cards(seq![d]) =~= seq![d.name@]);
    }
}

/// A card that was found is watched in the bar, without sensors of its own.
pub proof fn law_found_card(id: Seq<char>)
    ensures
        amd::found_config(id).id == id,
        amd::found_config(id).provider == GpuProvider::Amd,
        amd::found_config(id).sensors.len() == 0,
        amd::found_config(id).bar,
{
}

/// Devices that could not be listed hold no card.
pub proof fn law_devices_listed(devices: Seq<PciDevice>)
    ensures
        amd::found_cards(Some(devices)) == amd::amd_cards(devices),
        amd::found_cards(None).len() == 0,
{
}

/// Configured cards are watched as they are, whatever was found; without any, each card
/// that was found is, and no other.
pub proof fn law_watched(configs: Seq<Config>, found: Seq<Seq<char>>)
    ensures
        configs.len() > 0 ==> amd::watched(configs, found) == configs,
        configs.len() == 0 ==> amd::watched(configs, found).len() == found.len(),
        configs.len() == 0 ==> forall|i: int|
            0 <= i < found.len() ==> #[trigger] amd::watched(configs, found)[i]
                == amd::found_config(found[i]),
{
}

} // verus!
