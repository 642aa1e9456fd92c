//! CPU load, model names and clock speeds.

use sysmon::binary64::Binary64;
use sysmon::cpu::{
    clean_model_name, cpuinfo_speed_texts, is_core_count, khz_to_mhz, parse_cpuinfo_models,
    parse_cpuinfo_speeds, parse_lscpu_extended_models, parse_stat, read_cpuinfo_speeds,
    read_models_from_cpuinfo, read_models_from_lscpu, read_speeds, read_sysfs_speeds,
    resolve_models, speeds_fit, usage_deltas, CoreModel, CpuDir, CpuMonitor, CpuTimes, CpuUsage,
};
use sysmon::json;
use std::collections::HashMap;

/// The numbers that the speeds in a `/proc/cpuinfo` stand for.
fn mhz(content: &str) -> Vec<Option<Binary64>> {
    cpuinfo_speed_texts(content)
        .iter()
        .map(|t| t.mhz.parse::<f64>().ok())
        .map(|v| v.map(|x| Binary64 { bits: x.to_bits() }))
        .collect()
}

fn speeds(content: &str) -> HashMap<u32, u32> {
    parse_cpuinfo_speeds(content, &mhz(content))
}

fn model_of(cpu: u32, model: &str) -> CoreModel {
    CoreModel { cpu, model: model.to_string() }
}

fn listing(text: &str) -> json::Json {
    json::parse(text.as_bytes()).unwrap()
}

fn dir(name: Option<&str>, frequency: Option<&str>) -> CpuDir {
    CpuDir {
        name: name.map(|s| s.to_string()),
        frequency: frequency.map(|s| s.to_string()),
    }
}

fn percent(usage: CpuUsage) -> f64 {
    if usage.total > 0 {
        ((1.0 - usage.idle as f64 / usage.total as f64) * 100.0).clamp(0.0, 100.0)
    } else {
        0.0
    }
}

#[test]
fn parses_proc_stat_first_line() {
    let content = "cpu  4705 0 1235 98452 12 0 34 0 0 0\n\
        cpu0 100 0 50 2000 1 0 2 0 0 0\n";
    let t = parse_stat(content).unwrap();
    assert_eq!(t.user, 4705);
    assert_eq!(t.idle, 98452);
    assert_eq!(t.steal, 0);
    assert_eq!(t.total(), 4705 + 1235 + 98452 + 12 + 34);
}

#[test]
fn rejects_truncated_lines() {
    assert!(parse_stat("cpu 1 2 3 4\n").is_none());
    assert!(parse_stat("cpu 1 2\n").is_none());
    assert!(parse_stat("").is_none());
}

#[test]
fn rejects_counters_that_are_no_numbers() {
    assert!(parse_stat("cpu 1 2 3 4 x 6 7 8\n").is_none());
    assert!(parse_stat("cpu 1 2 3 4 -5 6 7 8\n").is_none());
    assert!(parse_stat("cpu 1 2 3 18446744073709551616 5 6 7 8\n").is_none());
    assert_eq!(parse_stat("cpu 1 2 3 18446744073709551615 5 6 7 8\n").unwrap().idle, u64::MAX);
}

#[test]
fn usage_from_deltas() {
    // 50% idle over the window -> 50% usage.
    let prev = parse_stat("cpu 100 0 100 800 0 0 0 0\n").unwrap();
    let curr = parse_stat("cpu 150 0 150 900 0 0 0 0\n").unwrap();
    let total_delta = curr.total() - prev.total();
    let idle_delta = curr.idle - prev.idle;
    let usage = (1.0 - idle_delta as f64 / total_delta as f64) * 100.0;
    assert_eq!(usage, 50.0);
    let deltas = usage_deltas(&prev, &curr);
    assert_eq!(deltas, CpuUsage { idle: idle_delta, total: total_delta });
    assert_eq!(percent(deltas), 50.0);
}

#[test]
fn counters_that_went_down_count_for_nothing() {
    let prev = parse_stat("cpu 150 0 150 900 0 0 0 0\n").unwrap();
    let curr = parse_stat("cpu 100 0 100 800 0 0 0 0\n").unwrap();
    assert_eq!(usage_deltas(&prev, &curr), CpuUsage { idle: 0, total: 0 });
    assert_eq!(percent(usage_deltas(&prev, &prev)), 0.0);
}

#[test]
fn total_fits_until_it_overflows() {
    let mut t = CpuTimes::default();
    assert!(t.total_fits());
    t.user = u64::MAX;
    assert!(t.total_fits());
    assert_eq!(t.total(), u64::MAX);
    t.steal = 1;
    assert!(!t.total_fits());
}

#[test]
fn monitor_compares_with_the_last_sample() {
    let first = parse_stat("cpu 100 0 100 800 0 0 0 0\n");
    let mut monitor = CpuMonitor::new(vec![model_of(0, "Cortex-A72")], first);
    assert!(monitor.observe(None).is_none());
    let state = monitor.observe(parse_stat("cpu 150 0 150 900 0 0 0 0\n")).unwrap();
    assert_eq!(state.models, vec![model_of(0, "Cortex-A72")]);
    assert_eq!(state.usage, CpuUsage { idle: 100, total: 200 });
    let state = monitor.observe(parse_stat("cpu 150 0 150 910 0 0 0 0\n")).unwrap();
    assert_eq!(state.usage, CpuUsage { idle: 10, total: 10 });
    assert_eq!(percent(state.usage), 0.0);
}

#[test]
fn monitor_without_first_sample_starts_from_zero() {
    let mut monitor = CpuMonitor::new(vec![], None);
    let state = monitor.observe(parse_stat("cpu 1 2 3 4 5 6 7 8\n")).unwrap();
    assert_eq!(state.usage, CpuUsage { idle: 4, total: 36 });
}

#[test]
fn parses_per_core_model_from_cpuinfo() {
    let content = "processor\t: 0\n\
        model name\t: AMD Ryzen Embedded V1605B with Radeon Vega Gfx\n\
        cpu MHz\t: 2000.0\n\
        \n\
        processor\t: 1\n\
        model name\t: AMD Ryzen Embedded V1605B with Radeon Vega Gfx\n\
        cpu MHz\t: 2100.0\n";
    assert_eq!(
        parse_cpuinfo_models(content),
        vec![
            CoreModel {
                cpu: 0,
                model: "AMD Ryzen Embedded V1605B".to_string()
            },
            CoreModel {
                cpu: 1,
                model: "AMD Ryzen Embedded V1605B".to_string()
            },
        ],
    );
}

#[test]
fn parses_heterogeneous_cores_from_cpuinfo() {
    // Distinct "model name" values per core, e.g. an Intel P-core/E-core
    // split, must not collapse into a single reported model.
    let content = "processor\t: 0\nmodel name\t: Intel P-Core\n\
        \n\
        processor\t: 1\nmodel name\t: Intel E-Core\n";
    assert_eq!(
        parse_cpuinfo_models(content),
        vec![
            CoreModel {
                cpu: 0,
                model: "Intel P-Core".to_string()
            },
            CoreModel {
                cpu: 1,
                model: "Intel E-Core".to_string()
            },
        ],
    );
}

#[test]
fn returns_empty_for_arm_cpuinfo_without_model_name() {
    let content = "processor\t: 0\nBogoMIPS\t: 108.00\nCPU implementer\t: 0x41\nCPU part\t: 0xd08\n";
    assert_eq!(parse_cpuinfo_models(content), Vec::new());
}

#[test]
fn joined_cpuinfo_gives_the_models_of_both() {
    let a = "processor: 0\nmodel name: A\n\nprocessor: 1\nmodel name: B\n";
    let b = "processor: 2\nmodel name: C";
    let mut both = parse_cpuinfo_models(a);
    both.extend(parse_cpuinfo_models(b));
    assert_eq!(parse_cpuinfo_models(&format!("{a}\n{b}")), both);
    assert_eq!(both.len(), 3);
}

#[test]
fn last_field_of_a_block_counts() {
    let content = "processor: 0\nprocessor: 7\nmodel name: A\nmodel name: B\n\nmodel name: C\n";
    assert_eq!(parse_cpuinfo_models(content), vec![model_of(7, "B")]);
    let content = "processor: 0\nprocessor: x\nmodel name: A\n";
    assert_eq!(parse_cpuinfo_models(content), Vec::new());
}

#[test]
fn parses_per_core_models_from_lscpu_extended_json() {
    let json = listing(
        r#"{
            "cpus": [
                {"cpu": 0, "modelname": "Cortex-A72"},
                {"cpu": 1, "modelname": "Cortex-A72"}
            ]
        }"#,
    );
    assert_eq!(
        parse_lscpu_extended_models(&json),
        vec![
            CoreModel {
                cpu: 0,
                model: "Cortex-A72".to_string()
            },
            CoreModel {
                cpu: 1,
                model: "Cortex-A72".to_string()
            },
        ],
    );
}

#[test]
fn parses_heterogeneous_cores_from_lscpu_extended_json() {
    // A big.LITTLE SoC (e.g. RK3588's 4x A55 + 4x A76) reports a distinct
    // model per cpu row; each core's own model must survive, not just
    // the first one seen.
    let json = listing(
        r#"{
            "cpus": [
                {"cpu": 0, "modelname": "Cortex-A55"},
                {"cpu": 1, "modelname": "Cortex-A55"},
                {"cpu": 2, "modelname": "Cortex-A76"},
                {"cpu": 3, "modelname": "Cortex-A76"}
            ]
        }"#,
    );
    assert_eq!(
        parse_lscpu_extended_models(&json),
        vec![
            CoreModel {
                cpu: 0,
                model: "Cortex-A55".to_string()
            },
            CoreModel {
                cpu: 1,
                model: "Cortex-A55".to_string()
            },
            CoreModel {
                cpu: 2,
                model: "Cortex-A76".to_string()
            },
            CoreModel {
                cpu: 3,
                model: "Cortex-A76".to_string()
            },
        ],
    );
}

#[test]
fn lscpu_extended_models_cleans_raw_names() {
    let json = listing(
        r#"{
            "cpus": [
                {"cpu": 0, "modelname": "AMD Ryzen 9 7900 12-Core Processor"}
            ]
        }"#,
    );
    assert_eq!(
        parse_lscpu_extended_models(&json),
        vec![CoreModel {
            cpu: 0,
            model: "AMD Ryzen 9 7900".to_string()
        }],
    );
}

#[test]
fn lscpu_extended_models_empty_without_cpus_field() {
    assert_eq!(parse_lscpu_extended_models(&listing("{}")), Vec::new());
}

#[test]
fn lscpu_entries_without_index_or_name_are_skipped() {
    let json = listing(
        r#"{"cpus": [
            {"cpu": "0", "modelname": "A"},
            {"modelname": "B"},
            {"cpu": 2},
            {"cpu": 3, "modelname": 4},
            {"cpu": -1, "modelname": "C"},
            {"cpu": 4294967301, "modelname": "D"}
        ]}"#,
    );
    assert_eq!(parse_lscpu_extended_models(&json), vec![model_of(5, "D")]);
    assert_eq!(parse_lscpu_extended_models(&listing(r#"{"cpus": {}}"#)), Vec::new());
}

#[test]
fn models_come_from_cpuinfo_before_lscpu() {
    let cpuinfo = "processor: 0\nmodel name: X\n";
    let arm = "processor: 0\nCPU part: 0xd08\n";
    let lscpu = br#"{"cpus": [{"cpu": 0, "modelname": "Cortex-A72"}]}"#.as_slice();
    assert_eq!(resolve_models(Some(cpuinfo), Some(lscpu)), vec![model_of(0, "X")]);
    assert_eq!(resolve_models(Some(arm), Some(lscpu)), vec![model_of(0, "Cortex-A72")]);
    assert_eq!(resolve_models(None, Some(lscpu)), vec![model_of(0, "Cortex-A72")]);
    assert_eq!(resolve_models(None, Some(b"no json".as_slice())), Vec::new());
    assert_eq!(resolve_models(None, None), Vec::new());
    assert_eq!(read_models_from_cpuinfo(None), Vec::new());
    assert_eq!(read_models_from_lscpu(None), Vec::new());
}

#[test]
fn strips_radeon_gpu_suffix() {
    assert_eq!(
        clean_model_name("AMD Ryzen Embedded V1605B with Radeon Vega Gfx"),
        "AMD Ryzen Embedded V1605B",
    );
    assert_eq!(
        clean_model_name("AMD Ryzen 7 5700G with Radeon Graphics"),
        "AMD Ryzen 7 5700G",
    );
}

#[test]
fn strips_amd_core_count_suffix() {
    assert_eq!(
        clean_model_name("AMD Ryzen 9 7900 12-Core Processor"),
        "AMD Ryzen 9 7900",
    );
}

#[test]
fn leaves_processor_suffix_without_core_count_untouched() {
    assert_eq!(
        clean_model_name("Some Weird Processor"),
        "Some Weird Processor",
    );
}

#[test]
fn strips_intel_clock_speed_and_trademark_markers() {
    assert_eq!(
        clean_model_name("Intel(R) Core(TM) i7-9700K CPU @ 3.60GHz"),
        "Intel Core i7-9700K",
    );
}

#[test]
fn leaves_plain_model_names_untouched() {
    assert_eq!(
        clean_model_name("AMD Ryzen 9 7950X3D"),
        "AMD Ryzen 9 7950X3D",
    );
}

#[test]
fn collapses_white_space_in_model_names() {
    assert_eq!(clean_model_name("  Intel(R)\u{a0} Xeon(R)   E5 \t"), "Intel Xeon E5");
    assert_eq!(clean_model_name("12-Core Processor"), "");
    assert_eq!(clean_model_name("Processor"), "Processor");
    assert_eq!(clean_model_name(""), "");
}

#[test]
fn core_counts_are_digits_before_core() {
    assert!(is_core_count("12-Core"));
    assert!(!is_core_count("-Core"));
    assert!(!is_core_count("x12-Core"));
    assert!(!is_core_count("12-core"));
    assert!(!is_core_count("12"));
}

#[test]
fn parses_per_core_speeds_from_cpuinfo() {
    let content = "processor\t: 0\n\
        model name\t: AMD Ryzen Embedded V1605B\n\
        cpu MHz\t: 2000.0\n\
        \n\
        processor\t: 1\n\
        model name\t: AMD Ryzen Embedded V1605B\n\
        cpu MHz\t: 2100.0\n";
    let speeds = speeds(content);
    assert_eq!(speeds.get(&0), Some(&2000));
    assert_eq!(speeds.get(&1), Some(&2100));
}

#[test]
fn rounds_fractional_mhz() {
    let content = "processor\t: 0\ncpu MHz\t: 2399.6\n";
    assert_eq!(speeds(content).get(&0), Some(&2400));
}

#[test]
fn empty_without_cpu_mhz_field() {
    let content = "processor\t: 0\nBogoMIPS\t: 108.00\n";
    assert!(speeds(content).is_empty());
}

#[test]
fn speeds_that_are_no_numbers_are_skipped() {
    let content = "processor: 0\ncpu MHz: fast\n\nprocessor: 1\ncpu MHz: 1500.5\n";
    let speeds = speeds(content);
    assert_eq!(speeds.len(), 1);
    assert_eq!(speeds.get(&1), Some(&1501));
}

#[test]
fn khz_to_mhz_rounds_to_nearest() {
    assert_eq!(khz_to_mhz(1_500_000), 1500);
    assert_eq!(khz_to_mhz(2_399_600), 2400);
    assert_eq!(khz_to_mhz(600_000), 600);
}

#[test]
fn khz_to_mhz_up_to_32_bits() {
    assert_eq!(khz_to_mhz(4_294_967_295_499), u32::MAX);
    assert_eq!(khz_to_mhz(4_294_967_295_500), 0);
    assert_eq!(khz_to_mhz(499), 0);
    assert_eq!(khz_to_mhz(500), 1);
}

#[test]
fn sysfs_speeds_go_by_directory_name() {
    let dirs = vec![
        dir(Some("cpu0"), Some("1500000\n")),
        dir(Some("cpu11"), Some("2399600")),
        dir(Some("cpufreq"), Some("1\n")),
        dir(Some("cpu2"), None),
        dir(Some("cpu3"), Some("unknown")),
        dir(None, Some("600000")),
    ];
    assert!(speeds_fit(&dirs));
    let speeds = read_sysfs_speeds(Some(&dirs));
    assert_eq!(speeds.len(), 2);
    assert_eq!(speeds.get(&0), Some(&1500));
    assert_eq!(speeds.get(&11), Some(&2400));
    assert!(read_sysfs_speeds(None).is_empty());
    assert!(!speeds_fit(&vec![dir(Some("cpu0"), Some("18446744073709551615"))]));
}

#[test]
fn speeds_come_from_cpuinfo_before_sysfs() {
    let content = "processor: 0\ncpu MHz: 2000.0\n";
    let dirs = vec![dir(Some("cpu0"), Some("600000"))];
    let x86 = read_speeds(Some(content), &mhz(content), Some(&dirs));
    assert_eq!(x86.get(&0), Some(&2000));
    let arm = "processor: 0\n";
    assert_eq!(read_speeds(Some(arm), &mhz(arm), Some(&dirs)).get(&0), Some(&600));
    assert_eq!(read_speeds(None, &vec![], Some(&dirs)).get(&0), Some(&600));
    assert!(read_speeds(None, &vec![], None).is_empty());
    assert!(read_cpuinfo_speeds(None, &vec![]).is_empty());
}
