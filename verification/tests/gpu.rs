//! Graphics cards.

use sysmon::binary64::Binary64;
use sysmon::gpu::amd::{
    discover_amd_gpu_ids, read_hwmon, read_power, read_state, read_temp, resolve_configs,
    temp_input_name, AmdDevice, Hwmon, HwmonFile, PciDevice,
};
use sysmon::gpu::intel::{
    busy_since, parse_i915_fdinfo, scan_fdinfo, GpuClients, IntelMonitor, ProcDir,
};
use sysmon::gpu::model::{
    lookup, parse_amdgpu_ids, parse_pci_ids, read_hex, resolve, resolve_all, Card, Databases,
    PciFiles,
};
use sysmon::gpu::nvidia::{
    info_from_row, parse_gpu_line, parse_rows, poll_nvidia, row_readable, NvidiaError,
};
use sysmon::gpu::{default_true, GpuConfig, GpuProvider, Measure, ModelNames};
use std::collections::HashMap;

fn number(content: &str) -> Option<Binary64> {
    content.trim().parse::<f64>().ok().map(|x| Binary64 { bits: x.to_bits() })
}

fn value(m: &Measure) -> f64 {
    match m {
        Measure::Text(s) => s.parse::<f64>().unwrap_or(0.0),
        Measure::Scaled { value, divisor } => f64::from_bits(value.bits) / *divisor as f64,
        Measure::Share { part, whole } => {
            (*part as f64 / *whole as f64 * 100.0).clamp(0.0, 100.0)
        }
    }
}

fn content(files: &[(&str, &str)], name: &str) -> Option<String> {
    files.iter().find(|f| f.0 == name).map(|f| f.1.to_string())
}

/// A directory with these files.
fn hwmon_files(files: &[(&str, &str)]) -> Vec<HwmonFile> {
    files
        .iter()
        .map(|f| HwmonFile {
            name: Some(f.0.to_string()),
            content: Some(f.1.to_string()),
            input: temp_input_name(f.0)
                .and_then(|input| content(files, &input))
                .and_then(|s| number(&s)),
        })
        .collect()
}

fn hwmon(files: &[(&str, &str)]) -> Hwmon {
    Hwmon {
        name: content(files, "name"),
        files: Some(hwmon_files(files)),
        power_average: content(files, "power1_average").and_then(|s| number(&s)),
        power_input: content(files, "power1_input").and_then(|s| number(&s)),
    }
}

fn power(files: &[(&str, &str)]) -> f64 {
    let h = hwmon(files);
    value(&read_power(h.power_average, h.power_input))
}

fn config(id: &str) -> GpuConfig {
    GpuConfig {
        id: id.to_string(),
        provider: GpuProvider::Nvidia,
        gpu_temp_sensors: vec![],
        bar: true,
    }
}

fn amd_device(device: &str) -> AmdDevice {
    AmdDevice {
        busy_percent: number("12\n"),
        vram_used: Some("100\n".to_string()),
        vram_total: Some("200\n".to_string()),
        gtt_used: None,
        gtt_total: Some("?".to_string()),
        device: Some(device.to_string()),
        hwmon: Some(vec![
            hwmon(&[("name", "other\n"), ("power1_input", "1000000")]),
            hwmon(&[
                ("name", "amdgpu\n"),
                ("temp1_label", "edge\n"),
                ("temp1_input", "44000\n"),
                ("power1_input", "5000000\n"),
            ]),
        ]),
    }
}

#[test]
fn read_temp_prefers_junction_over_edge() {
    let files = hwmon_files(&[
        ("temp1_label", "edge\n"),
        ("temp1_input", "44000\n"),
        ("temp2_label", "junction\n"),
        ("temp2_input", "57000\n"),
        ("temp3_label", "mem\n"),
        ("temp3_input", "64000\n"),
    ]);

    assert_eq!(value(&read_temp(Some(&files))), 57.0);
}

#[test]
fn read_temp_falls_back_to_edge_then_any() {
    let edge = hwmon_files(&[("temp1_label", "edge\n"), ("temp1_input", "40000\n")]);
    assert_eq!(value(&read_temp(Some(&edge))), 40.0);

    let other = hwmon_files(&[("temp1_label", "mem\n"), ("temp1_input", "66000\n")]);
    assert_eq!(value(&read_temp(Some(&other))), 66.0);
}

#[test]
fn read_temp_missing_is_zero() {
    // "/nonexistent/hwmon" cannot be listed.
    assert_eq!(value(&read_temp(None)), 0.0);
}

#[test]
fn read_power_prefers_average_and_converts_micro_watts() {
    let tmp = [("power1_average", "48000000\n"), ("power1_input", "50030000\n")];
    assert_eq!(power(&tmp), 48.0);
}

#[test]
fn read_power_falls_back_to_input() {
    let tmp = [("power1_input", "50030000\n")];
    assert!((power(&tmp) - 50.03).abs() < 1e-9);
}

#[test]
fn read_power_missing_is_zero() {
    // "/nonexistent/hwmon" has no files.
    assert_eq!(power(&[]), 0.0);
}

#[test]
fn unreadable_temperatures_are_passed_over() {
    let files = hwmon_files(&[
        ("temp1_label", "junction\n"),
        ("temp1_input", "hot\n"),
        ("temp2_label", "edge\n"),
        ("temp2_input", "40000\n"),
        ("fan1_label", "junction\n"),
    ]);
    assert_eq!(value(&read_temp(Some(&files))), 40.0);
    assert_eq!(value(&read_temp(Some(&vec![]))), 0.0);
}

#[test]
fn last_temperature_of_a_label_counts() {
    let files = hwmon_files(&[
        ("temp1_label", "mem"),
        ("temp1_input", "1000"),
        ("temp2_label", "mem"),
        ("temp2_input", "2000"),
    ]);
    assert_eq!(value(&read_temp(Some(&files))), 2.0);
}

#[test]
fn labels_name_their_input_file() {
    assert_eq!(temp_input_name("temp12_label").as_deref(), Some("temp12_input"));
    assert_eq!(temp_input_name("temp_label").as_deref(), Some("temp_input"));
    assert_eq!(temp_input_name("temp1_input"), None);
    assert_eq!(temp_input_name("fan1_label"), None);
    assert_eq!(temp_input_name("temp"), None);
}

#[test]
fn hwmon_of_other_drivers_is_passed_over() {
    let (temperature, power) = read_hwmon(&amd_device("0x747e").hwmon);
    assert_eq!(value(&temperature), 44.0);
    assert_eq!(value(&power), 5.0);
    let (temperature, power) = read_hwmon(&None);
    assert_eq!((value(&temperature), value(&power)), (0.0, 0.0));
}

#[test]
fn cards_of_amd_are_discovered() {
    let device = |name: &str, hwmons: &[&str]| PciDevice {
        name: name.to_string(),
        hwmon_names: hwmons.iter().map(|s| Some(s.to_string())).collect(),
    };
    let devices = vec![
        device("0000:03:00.0", &["x\n", "amdgpu\n"]),
        device("0000:04:00.0", &["amdgpu\n"]),
        device("0000:05:00.0", &["nouveau\n"]),
        device("0000:06:00.0", &[]),
        PciDevice { name: "0000:07:00.0".to_string(), hwmon_names: vec![None] },
    ];
    assert_eq!(
        discover_amd_gpu_ids(Some(&devices)),
        vec!["0000:03:00.0".to_string(), "0000:04:00.0".to_string()],
    );
    assert!(discover_amd_gpu_ids(None).is_empty());
}

#[test]
fn discovered_cards_serve_where_none_is_configured() {
    let found = vec!["0000:03:00.0".to_string()];
    let configs = resolve_configs(vec![config("0000:01:00.0")], &found).unwrap();
    assert_eq!(configs.len(), 1);
    assert_eq!(configs[0].id, "0000:01:00.0");
    let configs = resolve_configs(vec![], &found).unwrap();
    assert_eq!(configs[0].id, "0000:03:00.0");
    assert_eq!(configs[0].provider, GpuProvider::Amd);
    assert!(configs[0].bar && configs[0].gpu_temp_sensors.is_empty());
    assert!(resolve_configs(vec![], &vec![]).is_none());
}

#[test]
fn amd_state_reads_every_configured_card() {
    let mut igpu = config("0000:08:00.0");
    igpu.bar = false;
    let configs = vec![config("0000:03:00.0"), config("0000:04:00.0"), igpu];
    let devices = vec![Some(amd_device("0x747e\n")), None, Some(amd_device("0x164e\n"))];
    let mut models = ModelNames::new();
    models.insert("0000:03:00.0".to_string(), "Radeon RX 7800 XT".to_string());
    // Vulkan lists neither card.
    let vk_types = HashMap::from([(0x1, true)]);
    let state = read_state(&configs, &devices, &vk_types, &models);
    assert_eq!(state.gpus.len(), 2);
    let d = &state.gpus[0];
    assert_eq!(d.id, "0000:03:00.0");
    assert_eq!(d.model, "Radeon RX 7800 XT");
    assert_eq!(d.label, "dGPU");
    assert_eq!(d.provider, GpuProvider::Amd);
    assert_eq!(value(&d.gpu_usage), 12.0);
    assert_eq!((d.mem_used, d.mem_total, d.gtt_used, d.gtt_total), (100, 200, 0, 0));
    assert_eq!((value(&d.temperature), value(&d.power_watts)), (44.0, 5.0));
    assert!(d.in_bar);
    let i = &state.gpus[1];
    assert_eq!((i.label.as_str(), i.model.as_str()), ("iGPU", "0000:08:00.0"));
    assert!(!i.in_bar);
}

#[test]
fn vulkan_decides_the_label() {
    let configs = vec![config("a"), config("b")];
    let devices = vec![Some(amd_device("0x164e")), Some(amd_device("0x747e"))];
    let vk_types = HashMap::from([(0x164e, true), (0x747e, false)]);
    let state = read_state(&configs, &devices, &vk_types, &ModelNames::new());
    assert_eq!(state.gpus[0].label, "iGPU");
    assert_eq!(state.gpus[1].label, "dGPU");
}

#[test]
fn empty_vulkan_map_skips_labels() {
    let configs = vec![config("a"), config("b")];
    let devices = vec![Some(amd_device("0x164e")), Some(amd_device("0x747e"))];
    let state = read_state(&configs, &devices, &HashMap::new(), &ModelNames::new());
    assert_eq!(state.gpus.len(), 2);
    assert!(state.gpus.iter().all(|g| g.label.is_empty()));
}

#[test]
fn single_card_has_no_label() {
    let state = read_state(
        &vec![config("a")],
        &vec![Some(amd_device("0x164e"))],
        &HashMap::from([(0x164e, true)]),
        &ModelNames::new(),
    );
    assert_eq!(state.gpus[0].label, "");
}

#[test]
fn cards_are_shown_by_default() {
    assert!(default_true());
}

#[test]
fn parses_real_fdinfo_sample() {
    let sample = "pos:\t0\nflags:\t02100002\nmnt_id:\t38\nino:\t390\n\
        drm-driver:\ti915\ndrm-client-id:\t51\ndrm-pdev:\t0000:00:02.0\n\
        drm-total-system0:\t77412 KiB\ndrm-engine-render:\t218989144816 ns\n\
        drm-engine-copy:\t0 ns\n";
    let (pci_id, client_id, render_ns) = parse_i915_fdinfo(sample).unwrap();
    assert_eq!(pci_id, "0000:00:02.0");
    assert_eq!(client_id, 51);
    assert_eq!(render_ns, 218989144816);
}

#[test]
fn ignores_non_i915_driver() {
    let sample = "drm-driver:\tnouveau\ndrm-client-id:\t1\ndrm-pdev:\t0000:01:00.0\n\
        drm-engine-render:\t123 ns\n";
    assert!(parse_i915_fdinfo(sample).is_none());
}

fn fdinfo(gpu: &str, client: u64, busy: u64) -> String {
    format!(
        "drm-driver:\ti915\ndrm-pdev:\t{gpu}\ndrm-client-id:\t{client}\n\
         drm-engine-render:\t{busy} ns\n"
    )
}

fn process(name: &str, files: Vec<String>) -> ProcDir {
    ProcDir {
        name: Some(name.to_string()),
        fdinfo: Some(files.into_iter().map(Some).collect()),
    }
}

#[test]
fn incomplete_fdinfo_is_ignored() {
    let pdev = "drm-driver:\ti915\ndrm-client-id:\t1\ndrm-engine-render:\t5 ns\n";
    assert!(parse_i915_fdinfo(pdev).is_none());
    let unit = "drm-driver:\ti915\ndrm-pdev:\ta\ndrm-client-id:\t1\ndrm-engine-render:\t5\n";
    assert!(parse_i915_fdinfo(unit).is_none());
    let client = "drm-driver:\ti915\ndrm-pdev:\ta\ndrm-client-id:\tx\ndrm-engine-render:\t5 ns\n";
    assert!(parse_i915_fdinfo(client).is_none());
    assert!(parse_i915_fdinfo("").is_none());
}

#[test]
fn scan_lists_each_client_once() {
    let procs = vec![
        process("12", vec![fdinfo("a", 1, 100), fdinfo("a", 1, 110), fdinfo("b", 1, 7)]),
        process("self", vec![fdinfo("a", 2, 1000)]),
        process("", vec![fdinfo("a", 3, 1000)]),
        ProcDir { name: Some("13".to_string()), fdinfo: None },
        ProcDir { name: None, fdinfo: Some(vec![Some(fdinfo("a", 4, 1000))]) },
        ProcDir { name: Some("14".to_string()), fdinfo: Some(vec![None, Some(fdinfo("a", 5, 9))]) },
    ];
    let sample = scan_fdinfo(Some(&procs));
    assert_eq!(sample.len(), 2);
    assert_eq!(sample[0].gpu, "a");
    assert_eq!(sample[0].clients, vec![(1, 110), (5, 9)]);
    assert_eq!(sample[1].gpu, "b");
    assert_eq!(sample[1].clients, vec![(1, 7)]);
    assert!(scan_fdinfo(None).is_empty());
}

#[test]
fn busy_time_counts_known_clients() {
    assert_eq!(busy_since(&vec![(1, 150), (2, 30)], &vec![(2, 10), (1, 100)]), Some(70));
    // A new client, one whose counter went down, one that is gone.
    assert_eq!(busy_since(&vec![(3, 150), (2, 5)], &vec![(2, 10), (1, 100)]), Some(0));
    let max = u64::MAX;
    assert_eq!(busy_since(&vec![(1, max)], &vec![(1, 0)]), Some(max));
    assert_eq!(busy_since(&vec![(1, max), (2, 1)], &vec![(1, 0), (2, 0)]), None);
}

fn sample(gpu: &str, clients: &[(u64, u64)]) -> Vec<GpuClients> {
    vec![GpuClients { gpu: gpu.to_string(), clients: clients.to_vec() }]
}

#[test]
fn intel_load_is_what_counters_gain() {
    let configs = vec![config("a"), config("b")];
    let mut models = ModelNames::new();
    models.insert("a".to_string(), "UHD Graphics 620".to_string());
    let mut monitor = IntelMonitor::new();
    let first = sample("a", &[(1, 1000)]);
    assert!(monitor.can_poll(&configs, &first));
    let state = monitor.poll(&configs, &first, 0, &models);
    assert_eq!(state.gpus.len(), 2);
    assert_eq!(value(&state.gpus[0].gpu_usage), 0.0);
    assert_eq!(state.gpus[0].model, "UHD Graphics 620");
    assert_eq!(state.gpus[1].model, "b");
    assert_eq!(state.gpus[0].label, "iGPU");
    assert_eq!(state.gpus[0].provider, GpuProvider::Intel);
    let state = monitor.poll(&configs, &sample("a", &[(1, 1250), (2, 9999)]), 1000, &models);
    assert_eq!(value(&state.gpus[0].gpu_usage), 25.0);
    assert_eq!(value(&state.gpus[1].gpu_usage), 0.0);
    let state = monitor.poll(&configs, &sample("a", &[(1, 9999), (2, 9999)]), 10, &models);
    assert_eq!(value(&state.gpus[0].gpu_usage), 100.0);
    assert_eq!(value(&state.gpus[0].temperature), 0.0);
    assert_eq!(value(&state.gpus[0].power_watts), 0.0);
    assert_eq!(state.gpus[0].mem_total, 0);
}

#[test]
fn same_card_twice_counts_once() {
    let configs = vec![config("a"), config("a")];
    let mut monitor = IntelMonitor::new();
    monitor.poll(&configs, &sample("a", &[(1, 0)]), 100, &ModelNames::new());
    let state = monitor.poll(&configs, &sample("a", &[(1, 50)]), 100, &ModelNames::new());
    assert_eq!(value(&state.gpus[0].gpu_usage), 50.0);
    assert_eq!(value(&state.gpus[1].gpu_usage), 0.0);
}

#[test]
fn counters_must_not_overflow() {
    let configs = vec![config("a")];
    let mut monitor = IntelMonitor::new();
    monitor.poll(&configs, &sample("a", &[(1, 0), (2, 0)]), 1, &ModelNames::new());
    assert!(!monitor.can_poll(&configs, &sample("a", &[(1, u64::MAX), (2, 1)])));
}

const AMDGPU_IDS_SAMPLE: &str = "\
# List of AMDGPU IDs
#
1.0.0
747E,\tC8,\tAMD Radeon RX 7800 XT
747E,\tFF,\tAMD Radeon RX 7700 XT
164E,\tD8,\tAMD Radeon 610M
";

#[test]
fn amdgpu_ids_disambiguates_by_revision_and_strips_amd_prefix() {
    assert_eq!(
        parse_amdgpu_ids(AMDGPU_IDS_SAMPLE, 0x747e, 0xc8).as_deref(),
        Some("Radeon RX 7800 XT"),
    );
    assert_eq!(
        parse_amdgpu_ids(AMDGPU_IDS_SAMPLE, 0x747e, 0xff).as_deref(),
        Some("Radeon RX 7700 XT"),
    );
}

#[test]
fn amdgpu_ids_unknown_revision_is_none() {
    // A device present under other revisions but not this one (e.g. the
    // Raphael iGPU at revision 0xc4) must miss and fall back to pci.ids.
    assert_eq!(parse_amdgpu_ids(AMDGPU_IDS_SAMPLE, 0x164e, 0xc4), None);
}

#[test]
fn amdgpu_ids_names_may_hold_commas() {
    let content = "#1,2,3\n1,2\n1, 2 , Radeon, the first \n1,2,second\n";
    assert_eq!(parse_amdgpu_ids(content, 1, 2).as_deref(), Some("Radeon, the first"));
}

const PCI_IDS_SAMPLE: &str = "# comment
10de  NVIDIA Corporation
\t2684  AD102 [GeForce RTX 4090]
1002  Advanced Micro Devices, Inc. [AMD/ATI]
\t164e  Raphael
\t747e  Navi 32 [Radeon RX 7700 XT / 7800 XT]
\t\t1043 0601  Device 0601
14e4  Broadcom Inc. and subsidiaries
\t164e  NetXtreme II BCM57710 10-Gigabit PCIe [Everest]
";

#[test]
fn pci_ids_looks_up_device_within_vendor() {
    assert_eq!(
        parse_pci_ids(PCI_IDS_SAMPLE, 0x1002, 0x747e).as_deref(),
        Some("Navi 32 [Radeon RX 7700 XT / 7800 XT]"),
    );
    assert_eq!(
        parse_pci_ids(PCI_IDS_SAMPLE, 0x10de, 0x2684).as_deref(),
        Some("AD102 [GeForce RTX 4090]"),
    );
}

#[test]
fn pci_ids_scopes_device_id_to_vendor() {
    // 164e exists under both AMD (1002) and Broadcom (14e4); the vendor wins.
    assert_eq!(
        parse_pci_ids(PCI_IDS_SAMPLE, 0x1002, 0x164e).as_deref(),
        Some("Raphael"),
    );
    assert_eq!(
        parse_pci_ids(PCI_IDS_SAMPLE, 0x14e4, 0x164e).as_deref(),
        Some("NetXtreme II BCM57710 10-Gigabit PCIe [Everest]"),
    );
}

#[test]
fn pci_ids_missing_device_and_subsystem_lines_ignored() {
    assert_eq!(parse_pci_ids(PCI_IDS_SAMPLE, 0x1002, 0xffff), None);
}

#[test]
fn pci_ids_are_written_with_four_digits() {
    let content = "0010  Allied\n\t0001  Short\n\n# note\n\t0002  Second \n";
    assert_eq!(parse_pci_ids(content, 0x10, 1).as_deref(), Some("Short"));
    assert_eq!(parse_pci_ids(content, 0x10, 2).as_deref(), Some("Second"));
    assert_eq!(parse_pci_ids(content, 0x11, 1), None);
    let again = "0010  A\n0011  B\n0010  C\n\t0001  Late\n";
    assert_eq!(parse_pci_ids(again, 0x10, 1), None);
}

#[test]
fn hexadecimal_files_may_be_prefixed() {
    assert_eq!(read_hex(Some("0x747e\n")), Some(0x747e));
    assert_eq!(read_hex(Some("747E")), Some(0x747e));
    assert_eq!(read_hex(Some("0x0x10")), Some(0x10));
    assert_eq!(read_hex(Some("0x")), None);
    assert_eq!(read_hex(Some("0x100000000")), None);
    assert_eq!(read_hex(Some("xyz")), None);
    assert_eq!(read_hex(None), None);
}

fn files(device: &str, revision: &str, vendor: &str) -> PciFiles {
    PciFiles {
        device: Some(device.to_string()),
        revision: Some(revision.to_string()),
        vendor: Some(vendor.to_string()),
    }
}

fn databases() -> Databases {
    Databases {
        amdgpu_ids: Some(AMDGPU_IDS_SAMPLE.to_string()),
        pci_ids: Some(PCI_IDS_SAMPLE.to_string()),
    }
}

#[test]
fn names_come_from_amdgpu_ids_before_pci_ids() {
    let card = files("0x747e", "0xc8", "0x1002");
    let amd = lookup(GpuProvider::Amd, &card, &databases());
    assert_eq!(amd.as_deref(), Some("Radeon RX 7800 XT"));
    let other = lookup(GpuProvider::Nvidia, &card, &databases());
    assert_eq!(other.as_deref(), Some("Navi 32 [Radeon RX 7700 XT / 7800 XT]"));
    let raphael = lookup(GpuProvider::Amd, &files("0x164e", "0xc4", "0x1002"), &databases());
    assert_eq!(raphael.as_deref(), Some("Raphael"));
    let none = PciFiles { device: None, revision: None, vendor: None };
    assert_eq!(lookup(GpuProvider::Amd, &none, &databases()), None);
}

#[test]
fn name_is_never_empty() {
    let id = "0000:03:00.0";
    let empty = Databases { amdgpu_ids: None, pci_ids: None };
    let card = files("0x747e", "0xc8", "0x1002");
    assert_eq!(resolve(id, GpuProvider::Amd, &card, &empty), id);
    let blank = Databases { amdgpu_ids: Some("747E,C8,\n".to_string()), pci_ids: None };
    assert_eq!(resolve(id, GpuProvider::Amd, &card, &blank), id);
    assert_eq!(resolve(id, GpuProvider::Amd, &card, &databases()), "Radeon RX 7800 XT");
}

#[test]
fn all_names_are_resolved() {
    let card = |id: &str, provider: GpuProvider, files: PciFiles| Card {
        id: id.to_string(),
        provider,
        files,
    };
    let cards = vec![
        card("a", GpuProvider::Amd, files("0x747e", "0xff", "0x1002")),
        card("b", GpuProvider::Nvidia, files("0x2684", "0xa1", "0x10de")),
        card("c", GpuProvider::Intel, files("0x1", "0x0", "0x8086")),
    ];
    let names = resolve_all(&cards, &databases());
    assert_eq!(names.get("a"), Some("Radeon RX 7700 XT"));
    assert_eq!(names.get("b"), Some("AD102 [GeForce RTX 4090]"));
    assert_eq!(names.get("c"), Some("c"));
    assert_eq!(names.get("d"), None);
    assert_eq!(names.shown("d"), "d");
}

#[test]
fn parses_row_and_matches_bdf_case_insensitively() {
    let configs = vec![config("0000:01:00.0")];
    let mut models = ModelNames::new();
    models.insert("0000:01:00.0".to_string(), "GeForce RTX 4090".to_string());
    let line = "00000000:01:00.0, 37, 2048, 8192, 55, 120.50";
    let info = parse_gpu_line(line, &configs, &models).unwrap();

    assert_eq!(info.id, "0000:01:00.0");
    assert_eq!(info.model, "GeForce RTX 4090");
    assert_eq!(info.provider, GpuProvider::Nvidia);
    assert_eq!(value(&info.gpu_usage), 37.0);
    assert_eq!(info.mem_used, 2048 * 1024 * 1024);
    assert_eq!(info.mem_total, 8192 * 1024 * 1024);
    assert_eq!(value(&info.temperature), 55.0);
    assert!((value(&info.power_watts) - 120.50).abs() < 1e-9);
}

#[test]
fn matches_hex_bus_id_regardless_of_case() {
    let configs = vec![config("0000:0a:00.0")];
    let line = "00000000:0A:00.0, 5, 1, 2, 40, 10";
    assert!(parse_gpu_line(line, &configs, &ModelNames::new()).is_some());
}

#[test]
fn skips_unconfigured_gpu() {
    let configs = vec![config("0000:01:00.0")];
    let line = "00000000:02:00.0, 37, 2048, 8192, 55, 120.50";
    assert!(parse_gpu_line(line, &configs, &ModelNames::new()).is_none());
}

#[test]
fn na_fields_default_to_zero() {
    let configs = vec![config("0000:01:00.0")];
    // power.draw reports "[N/A]" on GPUs without a power sensor.
    let line = "00000000:01:00.0, [N/A], [N/A], 8192, 55, [N/A]";
    let info = parse_gpu_line(line, &configs, &ModelNames::new()).unwrap();
    assert_eq!(value(&info.gpu_usage), 0.0);
    assert_eq!(info.mem_used, 0);
    assert_eq!(value(&info.power_watts), 0.0);
    assert_eq!(info.mem_total, 8192 * 1024 * 1024);
}

#[test]
fn malformed_row_is_skipped() {
    let configs = vec![config("0000:01:00.0")];
    let line = "00000000:01:00.0, 37, 2048";
    assert!(parse_gpu_line(line, &configs, &ModelNames::new()).is_none());
}

#[test]
fn rows_match_the_given_addresses() {
    let configs = vec![config("x"), config("y")];
    let ids = vec!["0000:02:00.0".to_string(), "0000:01:00.0".to_string()];
    let line = " 00000000:01:00.0 , 37, 1, 2, 55, 120.50, more";
    let info = info_from_row(line, &configs, &ids, &ModelNames::new()).unwrap();
    assert_eq!((info.id.as_str(), info.model.as_str(), info.label.as_str()), ("y", "y", "dGPU"));
}

#[test]
fn nvidia_state_lists_configured_cards() {
    let configs = vec![config("0000:0a:00.0")];
    let output = b"00000000:01:00.0, 1, 1, 1, 1, 1\n00000000:0A:00.0, 5, 1, 2, 40, 10\nbad\n";
    let state = poll_nvidia(Some(output.as_slice()), &configs, &ModelNames::new()).unwrap();
    assert_eq!(state.gpus.len(), 1);
    assert_eq!(state.gpus[0].id, "0000:0a:00.0");
    assert_eq!(state.gpus[0].mem_total, 2 * 1024 * 1024);
}

#[test]
fn nvidia_errors_are_told_apart() {
    let configs = vec![config("0000:0a:00.0")];
    let missing = poll_nvidia(None, &configs, &ModelNames::new());
    assert!(matches!(missing, Err(NvidiaError::NotRun)));
    let rows = "00000000:0A:00.0, 5, 17592186044416, 2, 40, 10\n";
    let huge = parse_rows(rows, &configs, &ModelNames::new());
    assert!(matches!(huge, Err(NvidiaError::TooMuchMemory)));
    let other = "00000000:0B:00.0, 5, 17592186044416, 2, 40, 10\n";
    assert!(parse_rows(other, &configs, &ModelNames::new()).unwrap().gpus.is_empty());
    let ids = vec!["0000:0A:00.0".to_string()];
    assert!(!row_readable(rows, &ids));
    assert!(row_readable("00000000:0A:00.0, 5, 17592186044415, 2, 40, 10", &ids));
}
