use gpuctl::curve::CurvePoint;
use gpuctl::hw_mon::{write_outcome, HWMon, HWMonError};

fn default_curve() -> Vec<CurvePoint> {
    vec![
        CurvePoint { temp: 20, duty: 0 },
        CurvePoint { temp: 40, duty: 0 },
        CurvePoint { temp: 60, duty: 50_000 },
        CurvePoint { temp: 80, duty: 80_000 },
        CurvePoint { temp: 100, duty: 100_000 },
    ]
}

fn monitor() -> HWMon {
    HWMon::new(&String::from("card0-hwmon"), default_curve())
}

#[test]
fn temperature_converts_millidegrees() {
    assert_eq!(monitor().get_gpu_temp(Some("45000\n")), Some(45));
    assert_eq!(monitor().get_gpu_temp(Some("-2500\n")), Some(-2));
}

#[test]
fn clocks_convert_to_mhz() {
    assert_eq!(monitor().get_mem_freq(Some("800000000\n")), Some(800));
    assert_eq!(monitor().get_gpu_freq(Some("1340000000\n")), Some(1340));
}

#[test]
fn verbatim_sensors() {
    assert_eq!(monitor().get_fan_max_speed(Some("3200\n")), Some(3200));
    assert_eq!(monitor().get_fan_speed(Some("1250\n")), Some(1250));
    assert_eq!(monitor().get_voltage(Some("850\n")), Some(850));
}

#[test]
fn power_readings_convert_to_watts() {
    assert_eq!(monitor().get_power_cap(Some("90000000\n")), Some(90));
    assert_eq!(monitor().get_power_avg(Some("87654321\n")), Some(87));
}

#[test]
fn absent_sensor_reads_none() {
    assert_eq!(monitor().get_gpu_temp(None), None);
    assert_eq!(monitor().get_power_cap_max(None), None);
}

#[test]
fn unparsable_sensor_reads_none() {
    assert_eq!(monitor().get_gpu_temp(Some("whirr")), None);
    assert_eq!(monitor().get_fan_speed(Some("")), None);
    assert_eq!(monitor().get_power_cap(Some("12 34")), None);
}

#[test]
fn power_cap_max_of_150_megawatt_units() {
    assert_eq!(monitor().get_power_cap_max(Some("150000000\n")), Some(150));
}

#[test]
fn set_power_cap_above_max_is_invalid() {
    assert_eq!(
        monitor().set_power_cap(200, Some("150000000\n")),
        Err(HWMonError::InvalidValue)
    );
}

#[test]
fn set_power_cap_without_max_is_unsupported() {
    assert_eq!(monitor().set_power_cap(100, None), Err(HWMonError::Unsupported));
    assert_eq!(
        monitor().set_power_cap(100, Some("not a number")),
        Err(HWMonError::Unsupported)
    );
}

#[test]
fn set_power_cap_converts_to_raw_units() {
    assert_eq!(monitor().set_power_cap(100, Some("150000000\n")), Ok(100_000_000));
}

#[test]
fn rejected_write_is_permission_denied() {
    assert_eq!(write_outcome(false), Err(HWMonError::PermissionDenied));
    assert_eq!(write_outcome(true), Ok(()));
}

#[test]
fn start_twice_is_noop_success() {
    let mut hw = monitor();
    assert_eq!(hw.start_fan_control(true), Ok(()));
    // The second start does not touch hardware at all: its outcome slot
    // is ignored and the one worker keeps running.
    assert_eq!(hw.start_fan_control(false), Ok(()));
    assert!(hw.get_fan_control().0);
}

#[test]
fn stop_then_start_leaves_one_worker() {
    let mut hw = monitor();
    assert_eq!(hw.start_fan_control(true), Ok(()));
    assert_eq!(hw.stop_fan_control(true), Ok(()));
    assert!(!hw.get_fan_control().0);
    assert_eq!(hw.start_fan_control(true), Ok(()));
    assert!(hw.get_fan_control().0);
}

#[test]
fn failed_mode_switches_change_nothing() {
    let mut hw = monitor();
    assert_eq!(hw.start_fan_control(false), Err(HWMonError::PermissionDenied));
    assert!(!hw.get_fan_control().0);
    assert_eq!(hw.start_fan_control(true), Ok(()));
    assert_eq!(hw.stop_fan_control(false), Err(HWMonError::PermissionDenied));
    assert!(hw.get_fan_control().0);
}

#[test]
fn set_fan_curve_replaces_wholesale() {
    let mut hw = monitor();
    let flat = vec![
        CurvePoint { temp: 0, duty: 30_000 },
        CurvePoint { temp: 90, duty: 30_000 },
    ];
    hw.set_fan_curve(flat.clone());
    let (_, curve) = hw.get_fan_control();
    assert_eq!(curve, flat);
}

#[test]
fn control_tick_interpolates_and_skips() {
    let hw = monitor();
    assert_eq!(hw.control_tick(Some("70000\n")), Some(166));
    // An unreadable temperature skips the tick rather than ending the loop.
    assert_eq!(hw.control_tick(None), None);
    assert_eq!(hw.control_tick(Some("garbled")), None);
    // Out of the curve's domain nothing is written.
    assert_eq!(hw.control_tick(Some("150000\n")), None);
}
