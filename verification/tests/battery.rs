//! Batteries and power adapters.

use sysmon::battery::{read_battery_from, BatteryState, Supply};
use sysmon::binary64::Binary64;

fn supply(_name: &str, files: &[(&str, &str)]) -> Supply {
    let file = |name: &str| files.iter().find(|f| f.0 == name).map(|f| f.1.to_string());
    Supply {
        kind: file("type"),
        scope: file("scope"),
        capacity: file("capacity")
            .and_then(|s| s.trim().parse::<f64>().ok())
            .map(|x| Binary64 { bits: x.to_bits() }),
        online: file("online"),
    }
}

/// The charge between 0 and 1.
fn charge(s: &BatteryState) -> f64 {
    f64::from_bits(s.percent.bits) / 100.0
}

#[test]
fn on_battery_reports_percent_not_ac() {
    let supplies = vec![
        supply("ACAD", &[("type", "Mains\n"), ("online", "0\n")]),
        supply("BAT1", &[("type", "Battery\n"), ("capacity", "78\n")]),
    ];

    let s = read_battery_from(Some(&supplies));
    assert!(s.present);
    assert!(!s.on_ac);
    assert!((charge(&s) - 0.78).abs() < 1e-9);
}

#[test]
fn online_adapter_reports_ac() {
    let supplies = vec![
        supply("ACAD", &[("type", "Mains\n"), ("online", "1\n")]),
        supply("BAT0", &[("type", "Battery\n"), ("capacity", "42\n")]),
    ];

    let s = read_battery_from(Some(&supplies));
    assert!(s.present);
    assert!(s.on_ac);
    assert!((charge(&s) - 0.42).abs() < 1e-9);
}

#[test]
fn device_scoped_battery_is_ignored() {
    let supplies = vec![supply(
        "hidpp_battery",
        &[("type", "Battery\n"), ("scope", "Device\n"), ("capacity", "55\n")],
    )];

    let s = read_battery_from(Some(&supplies));
    assert!(!s.present);
    assert_eq!(charge(&s), 0.0);
}

#[test]
fn missing_dir_is_empty_state() {
    let s = read_battery_from(None);
    assert_eq!(s, BatteryState::default());
}

#[test]
fn charge_is_brought_into_range() {
    let with = |capacity: &str| {
        let supplies = vec![supply("BAT0", &[("type", "Battery"), ("capacity", capacity)])];
        charge(&read_battery_from(Some(&supplies)))
    };
    assert_eq!(with("-3"), 0.0);
    assert_eq!(with("0"), 0.0);
    assert_eq!(with("100"), 1.0);
    assert_eq!(with("250.5"), 1.0);
    assert_eq!(with("inf"), 1.0);
    assert_eq!(with("99.5"), 0.995);
    assert_eq!(with("nan"), 0.0);
}

#[test]
fn any_kind_of_adapter_counts_but_not_a_battery() {
    let usb = vec![supply("usb", &[("type", "USB\n"), ("online", "1\n")])];
    assert!(read_battery_from(Some(&usb)).on_ac);
    let battery = vec![supply("BAT0", &[("type", "Battery\n"), ("online", "1\n")])];
    assert!(!read_battery_from(Some(&battery)).on_ac);
    let unknown = vec![supply("x", &[("online", "1\n")])];
    assert!(!read_battery_from(Some(&unknown)).on_ac);
}

#[test]
fn battery_without_capacity_is_present() {
    let supplies = vec![supply("BAT0", &[("type", "Battery\n")])];
    let s = read_battery_from(Some(&supplies));
    assert!(s.present);
    assert_eq!(charge(&s), 0.0);
}

#[test]
fn last_charge_counts() {
    let supplies = vec![
        supply("BAT0", &[("type", "Battery"), ("capacity", "10")]),
        supply("BAT1", &[("type", "Battery"), ("capacity", "20")]),
        supply("BAT2", &[("type", "Battery"), ("capacity", "full")]),
        supply("mouse", &[("type", "Battery"), ("scope", "Device"), ("capacity", "90")]),
    ];
    assert_eq!(charge(&read_battery_from(Some(&supplies))), 0.2);
}

#[test]
fn states_compare_as_numbers() {
    let percent = |x: f64| Binary64 { bits: x.to_bits() };
    let state = BatteryState { percent: percent(0.0), present: true, on_ac: false };
    assert_eq!(state, BatteryState { percent: percent(-0.0), present: true, on_ac: false });
    assert_ne!(state, BatteryState { percent: percent(5.0), present: true, on_ac: false });
    assert_ne!(state, BatteryState { percent: percent(0.0), present: false, on_ac: false });
    assert_ne!(state, BatteryState { percent: percent(0.0), present: true, on_ac: true });
    let unknown = BatteryState { percent: percent(f64::NAN), present: true, on_ac: false };
    assert_ne!(unknown, unknown);
}
