//! Hardware sensors, JSON and numbers.

use sysmon::binary64::Binary64;
use sysmon::json::{parse, Json};
use sysmon::sensors::{
    auto_discover, chip_friendly, compute_status, parse_sensors, read_sensors, SensorSpec,
    SensorStatus, SensorsError,
};

const SAMPLE: &str = r#"{
    "amdgpu-pci-0300": {
        "Adapter": "PCI adapter",
        "temp1": {
            "label": "edge",
            "input": {"unit": "°C", "value": 44.0},
            "crit": {"value": 100.0}
        },
        "temp2": {
            "label": "junction",
            "input": {"unit": "°C", "value": 57.0},
            "crit": {"value": 110.0}
        }
    },
    "nvme-pci-1300": {
        "Adapter": "PCI adapter",
        "temp1": {"label": "Composite", "input": {"unit": "°C", "value": 29.85}},
        "temp3": {"label": "Sensor 2", "input": {"unit": "°C", "value": 48.85}}
    },
    "k10temp-pci-00c3": {
        "Adapter": "PCI adapter",
        "temp1": {"label": "Tctl", "input": {"unit": "°C", "value": 46.875}}
    },
    "acpitz-acpi-0": {
        "temp1": {"input": {"unit": "°C", "value": 55.0}}
    },
    "ucsi_source_psy-i2c-1": {
        "temp1": {"input": {"unit": "°C", "value": 40.0}}
    },
    "nct6799-isa-0290": {
        "in0": {"input": {"unit": "V", "value": 0.88}}
    },
    "bogus-hot": {
        "temp1": {"input": {"unit": "°C", "value": 200.0}}
    },
    "bogus-cold": {
        "temp1": {"input": {"unit": "°C", "value": 10.0}}
    }
}"#;

fn json(text: &str) -> Json {
    parse(text.as_bytes()).unwrap()
}

fn sample() -> Json {
    json(SAMPLE)
}

fn float(x: f64) -> Binary64 {
    Binary64 { bits: x.to_bits() }
}

fn value(x: Binary64) -> f64 {
    f64::from_bits(x.bits)
}

fn spec(device: &str, sensors: &[&str]) -> SensorSpec {
    SensorSpec {
        device: device.to_string(),
        sensors: sensors.iter().map(|s| s.to_string()).collect(),
    }
}

#[test]
fn configured_sensor_matched_by_label() {
    let specs = vec![SensorSpec {
        device: "amdgpu-pci-0300".to_string(),
        sensors: vec!["junction".to_string()],
    }];
    let state = parse_sensors(&sample(), &specs).unwrap();

    assert_eq!(state.readings.len(), 1);
    let r = &state.readings[0];
    assert_eq!(r.sensor, "junction");
    assert_eq!(value(r.value), 57.0);
    assert_eq!(r.unit, "°C");
    assert_eq!(r.status, SensorStatus::Normal);
}

#[test]
fn auto_discover_filters_and_labels() {
    // No specs: everything goes through auto-discovery.
    let state = parse_sensors(&sample(), &vec![]).unwrap();

    let names: Vec<&str> = state.extra.iter().map(|r| r.sensor.as_str()).collect();
    // acpitz/ucsi are dropped, voltage-only and out-of-range chips too.
    assert!(state.extra.iter().all(|r| r.unit == "°C"));
    assert!(names.iter().any(|n| n.starts_with("NVMe: ")));
    assert!(names.iter().any(|n| n.starts_with("k10temp: Tctl")));
    assert!(!names.iter().any(|n| n.contains("acpitz")));
    assert!(state.extra.iter().all(|r| value(r.value) >= 25.0 && value(r.value) <= 150.0));
    // amdgpu, nvme, k10temp survive; acpitz, ucsi, nct6799(V), bogus-* dropped.
    assert_eq!(state.extra.len(), 3);
    // Sorted hottest first.
    assert!(state.extra.windows(2).all(|w| value(w[0].value) >= value(w[1].value)));
}

#[test]
fn configured_device_excluded_from_extra() {
    let specs = vec![SensorSpec {
        device: "amdgpu-pci-0300".to_string(),
        sensors: vec!["junction".to_string()],
    }];
    let state = parse_sensors(&sample(), &specs).unwrap();
    assert!(!state.extra.iter().any(|r| r.device == "amdgpu-pci-0300"));
}

#[test]
fn status_alarm_takes_precedence() {
    let sensor = json(r#"{"crit_alarm": {"value": 1.0}, "input": {"value": 30.0}}"#);
    assert_eq!(compute_status(&sensor, float(30.0)), SensorStatus::Critical);
}

#[test]
fn status_crit_and_max_thresholds() {
    let crit = json(r#"{"crit": {"value": 100.0}}"#);
    assert_eq!(compute_status(&crit, float(100.0)), SensorStatus::Critical);

    let max = json(r#"{"max": {"value": 50.0}}"#);
    assert_eq!(compute_status(&max, float(60.0)), SensorStatus::Warning);

    // A zero max (common on sensors without a real limit) is ignored.
    let zero_max = json(r#"{"max": {"value": 0.0}}"#);
    assert_eq!(compute_status(&zero_max, float(60.0)), SensorStatus::Normal);
}

#[test]
fn status_absolute_fallbacks() {
    let bare = json("{}");
    assert_eq!(compute_status(&bare, float(92.0)), SensorStatus::Critical);
    assert_eq!(compute_status(&bare, float(80.0)), SensorStatus::Warning);
    assert_eq!(compute_status(&bare, float(50.0)), SensorStatus::Normal);
}

#[test]
fn status_limits_are_inclusive() {
    let bare = json("{}");
    assert_eq!(compute_status(&bare, float(90.0)), SensorStatus::Critical);
    assert_eq!(compute_status(&bare, float(89.999)), SensorStatus::Warning);
    assert_eq!(compute_status(&bare, float(75.0)), SensorStatus::Warning);
    assert_eq!(compute_status(&bare, float(74.999)), SensorStatus::Normal);
    assert_eq!(compute_status(&bare, float(f64::NAN)), SensorStatus::Normal);
}

#[test]
fn output_must_be_a_json_object() {
    let specs = vec![];
    assert!(matches!(read_sensors(b"", &specs), Err(SensorsError::InvalidJson)));
    assert!(matches!(read_sensors(b"{", &specs), Err(SensorsError::InvalidJson)));
    assert!(matches!(read_sensors(b"[1]", &specs), Err(SensorsError::NotAnObject)));
    let state = read_sensors(SAMPLE.as_bytes(), &specs).unwrap();
    assert_eq!(state.extra.len(), 3);
    assert!(state.readings.is_empty());
}

#[test]
fn discovery_keeps_the_four_hottest_in_order() {
    let chips = r#"{
        "a-1": {"temp1": {"input": {"unit": "°C", "value": 30}}},
        "b-1": {"temp1": {"input": {"unit": "°C", "value": 70}}},
        "c-1": {"temp1": {"input": {"unit": "°C", "value": 50}}},
        "d-1": {"temp1": {"input": {"unit": "°C", "value": 40}}},
        "e-1": {"temp1": {"input": {"unit": "°C", "value": 60}}}
    }"#;
    let state = read_sensors(chips.as_bytes(), &vec![]).unwrap();
    let temps: Vec<f64> = state.extra.iter().map(|r| value(r.value)).collect();
    assert_eq!(temps, vec![70.0, 60.0, 50.0, 40.0]);
}

#[test]
fn discovery_takes_one_reading_per_chip() {
    let chips = sample();
    let members = chips.as_object().unwrap();
    let found = auto_discover(members, &vec![]);
    for a in 0..found.len() {
        for b in 0..a {
            assert!(found[a].device != found[b].device);
        }
    }
    let covered = vec!["nvme-pci-1300".to_string(), "amdgpu-pci-0300".to_string()];
    let found = auto_discover(members, &covered);
    assert_eq!(found.len(), 1);
    assert_eq!(found[0].device, "k10temp-pci-00c3");
}

#[test]
fn requests_for_unknown_devices_give_nothing() {
    let state =
        parse_sensors(&sample(), &vec![spec("none", &["x"]), spec("nvme-pci-1300", &["temp9"])]);
    assert!(state.unwrap().readings.is_empty());
}

#[test]
fn friendly_names_of_known_chips() {
    assert_eq!(chip_friendly("nvme-pci-1300"), "NVMe");
    assert_eq!(chip_friendly("k10temp-pci-00c3"), "k10temp");
}

#[test]
fn json_is_read_as_written() {
    let j = json(r#"{"a": [1, -2, 3.5, true, null, "xé"], "b": 18446744073709551615}"#);
    let items = j.get("a").unwrap().as_array().unwrap();
    assert_eq!(items.len(), 6);
    assert_eq!(items[0].as_u64(), Some(1));
    assert_eq!(items[1].as_u64(), None);
    assert_eq!(value(items[1].as_float().unwrap()), -2.0);
    assert_eq!(value(items[2].as_float().unwrap()), 3.5);
    assert!(matches!(items[3], Json::Bool(true)));
    assert!(matches!(items[4], Json::Null));
    assert_eq!(items[5].as_str(), Some("xé"));
    assert_eq!(j.get("b").unwrap().as_u64(), Some(u64::MAX));
    assert!(j.get("c").is_none());
    assert!(parse(b"{\"a\": }").is_none());
    assert!(parse(b"1 2").is_none());
    assert!(parse(b"\"\xff\"").is_none());
}

#[test]
fn comparisons_agree_with_floats() {
    let xs = [
        0.0, -0.0, 1.0, -1.0, 1.5, f64::MIN_POSITIVE, 5e-324, -5e-324, f64::MAX, f64::MIN,
        f64::INFINITY, f64::NEG_INFINITY, f64::NAN, 74.9, 75.0,
    ];
    for a in xs {
        for b in xs {
            assert_eq!(float(a).ge(float(b)), a >= b);
            assert_eq!(float(a).gt(float(b)), a > b);
            assert_eq!(float(a).same(float(b)), a == b);
        }
    }
}

#[test]
fn rounding_agrees_with_floats() {
    let xs = [
        0.0, 0.25, 0.49999999999999994, 0.5, 1.0, 1.4999, 1.5, 2.5, 2399.6, 2399.5, 4294967294.5,
        4294967295.0, 4294967295.4, 4294967295.5, 4294967296.0, 1e10, 1e300, -0.0, -0.7, -5.0,
        f64::INFINITY, f64::NEG_INFINITY, f64::NAN, 5e-324, f64::MAX,
    ];
    for x in xs {
        assert_eq!(float(x).round_u32(), x.round() as u32);
    }
}
