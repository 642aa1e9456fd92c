//! Memory and swap.

use sysmon::memory::{
    meminfo_readable, parse_meminfo, read_meminfo, read_zram, zram_readable, BlockDevice, Ratio,
    ZramStats,
};

fn value(r: Ratio) -> f64 {
    if r.whole > 0 {
        r.part as f64 / r.whole as f64
    } else {
        0.0
    }
}

fn device(name: &str, mm_stat: Option<&str>, disksize: Option<&str>) -> BlockDevice {
    BlockDevice {
        name: name.to_string(),
        mm_stat: mm_stat.map(|s| s.to_string()),
        disksize: disksize.map(|s| s.to_string()),
    }
}

#[test]
fn computes_used_and_swap() {
    let content = "MemTotal:       16000000 kB\n\
        MemFree:         2000000 kB\n\
        MemAvailable:    8000000 kB\n\
        SwapTotal:       4000000 kB\n\
        SwapFree:        3000000 kB\n";
    let s = parse_meminfo(content).unwrap();
    assert_eq!(s.total_bytes, 16_000_000 * 1024);
    assert_eq!(s.used_bytes, (16_000_000 - 8_000_000) * 1024);
    assert!((value(s.usage) - 0.5).abs() < 1e-9);
    assert_eq!(s.swap_used_bytes, 1_000_000 * 1024);
    assert!((value(s.swap_usage) - 0.25).abs() < 1e-9);
}

#[test]
fn no_swap_reports_zero_usage() {
    let content = "MemTotal: 16000000 kB\nMemAvailable: 8000000 kB\n";
    let s = parse_meminfo(content).unwrap();
    assert_eq!(s.swap_total_bytes, 0);
    assert_eq!(value(s.swap_usage), 0.0);
}

#[test]
fn missing_required_field_is_none() {
    assert!(parse_meminfo("MemFree: 100 kB\n").is_none());
    assert!(parse_meminfo("MemTotal: 16000000 kB\n").is_none());
}

#[test]
fn parses_zswap_when_present() {
    let content = "MemTotal: 16000000 kB\n\
        MemAvailable: 8000000 kB\n\
        Zswap: 1024 kB\n\
        Zswapped: 4096 kB\n";
    let s = parse_meminfo(content).unwrap();
    assert_eq!(s.zswap_bytes, Some(1024 * 1024));
    assert_eq!(s.zswapped_bytes, Some(4096 * 1024));
}

#[test]
fn omits_zswap_when_absent() {
    let content = "MemTotal: 16000000 kB\nMemAvailable: 8000000 kB\n";
    let s = parse_meminfo(content).unwrap();
    assert_eq!(s.zswap_bytes, None);
    assert_eq!(s.zswapped_bytes, None);
}

#[test]
fn last_number_of_a_name_counts() {
    let content = "MemTotal: 1\nMemTotal: 10\nMemTotal: x\nMemTotal:\nMemAvailable: 4\n";
    let s = parse_meminfo(content).unwrap();
    assert_eq!((s.total_bytes, s.used_bytes), (10 * 1024, 6 * 1024));
}

#[test]
fn more_available_than_total_is_nothing_used() {
    let s = parse_meminfo("MemTotal: 4 kB\nMemAvailable: 8 kB\nSwapFree: 3 kB\n").unwrap();
    assert_eq!((s.used_bytes, s.swap_used_bytes), (0, 0));
}

#[test]
fn amounts_must_fit_in_bytes() {
    assert!(meminfo_readable("MemTotal: 18014398509481983\nMemAvailable: 0\n"));
    assert!(!meminfo_readable("MemTotal: 18014398509481984\nMemAvailable: 0\n"));
    assert!(!meminfo_readable("MemTotal: 1\nMemAvailable: 0\nZswap: 18446744073709551615\n"));
    assert!(meminfo_readable("MemTotal: 18446744073709551615\n"));
}

#[test]
fn zram_devices_add_up() {
    let devices = vec![
        device("zram0", Some("100 50 60 0 70\n"), Some("1000\n")),
        device("sda", Some("1 1 1\n"), Some("1\n")),
        device("zram", Some("1 1 1\n"), Some("1\n")),
        device("zramx", Some("1 1 1\n"), Some("1\n")),
        device("zram2", None, Some("1\n")),
        device("zram13", Some("  7 x"), None),
    ];
    assert!(zram_readable(Some(&devices)));
    assert_eq!(
        read_zram(Some(&devices)),
        Some(ZramStats {
            mem_used_bytes: 60,
            compr_data_bytes: 50,
            orig_data_bytes: 107,
            disk_size_bytes: 1000,
        }),
    );
}

#[test]
fn no_zram_device_is_none() {
    assert_eq!(read_zram(Some(&vec![device("sda", Some("1 1 1"), None)])), None);
    assert_eq!(read_zram(Some(&vec![])), None);
    assert_eq!(read_zram(None), None);
}

#[test]
fn zram_sums_must_fit() {
    let max = "18446744073709551615 0 0";
    let devices = vec![device("zram0", Some(max), None), device("zram1", Some("1 0 0"), None)];
    assert!(!zram_readable(Some(&devices)));
    assert!(zram_readable(None));
}

#[test]
fn state_holds_meminfo_and_zram() {
    let content = "MemTotal: 4 kB\nMemAvailable: 1 kB\n";
    let devices = vec![device("zram0", Some("1 2 3"), Some("4"))];
    let s = read_meminfo(Some(content), Some(&devices)).unwrap();
    assert_eq!(s.used_bytes, 3 * 1024);
    assert_eq!(s.zram.unwrap().mem_used_bytes, 3);
    assert!(read_meminfo(Some(content), None).unwrap().zram.is_none());
    assert!(read_meminfo(Some(""), Some(&devices)).is_none());
    assert!(read_meminfo(None, Some(&devices)).is_none());
}
