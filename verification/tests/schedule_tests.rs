use heating::config::{Config, Settings};
use heating::pin::{percent_to_analog, PinState, PinValue, Temperature};
use heating::zone::{Interval, Zone};

fn tod(h: u32, m: u32, s: u32) -> u32 {
    h * 3600 + m * 60 + s
}

fn scheduled_zone() -> Zone {
    let intervals = vec![
        Interval::new(tod(8, 0, 0), tod(9, 0, 0), Temperature::new(20000)),
        Interval::new(tod(23, 1, 0), tod(23, 3, 3), Temperature::new(30500)),
    ];
    Zone::new("zone1".to_string(), 1, intervals, 2)
}

#[test]
fn interval_lookup_first_match() {
    let zone = scheduled_zone();
    let cases = [
        (tod(8, 0, 0), 20000),
        (tod(8, 30, 0), 20000),
        (tod(8, 59, 59), 20000),
        (tod(23, 2, 59), 30500),
    ];
    for (t, expected) in cases {
        assert_eq!(zone.get_expected_temperature(t), Some(Temperature::new(expected)));
    }
}

#[test]
fn interval_lookup_outside_schedule() {
    let zone = scheduled_zone();
    for h in [9u32, 20] {
        assert_eq!(zone.get_expected_temperature(tod(h, 0, 0)), None);
    }
    // The end of an interval is exclusive, the start inclusive.
    assert_eq!(zone.get_expected_temperature(tod(9, 0, 0)), None);
    assert_eq!(zone.get_expected_temperature(tod(23, 3, 3)), None);
    assert_eq!(zone.get_expected_temperature(tod(23, 1, 0)), Some(Temperature::new(30500)));
}

#[test]
fn overlapping_intervals_first_listed_wins() {
    let intervals = vec![
        Interval::new(tod(8, 0, 0), tod(10, 0, 0), Temperature::new(21000)),
        Interval::new(tod(9, 0, 0), tod(11, 0, 0), Temperature::new(19000)),
    ];
    let zone = Zone::new("overlap".to_string(), 1, intervals, 2);
    assert_eq!(zone.get_expected_temperature(tod(9, 30, 0)), Some(Temperature::new(21000)));
    assert_eq!(zone.get_expected_temperature(tod(10, 30, 0)), Some(Temperature::new(19000)));
}

#[test]
fn percent_scale_conversion() {
    assert_eq!(percent_to_analog(0), 0);
    assert_eq!(percent_to_analog(30), 306);
    assert_eq!(percent_to_analog(70), 716);
    assert_eq!(percent_to_analog(100), 1023);
}

#[test]
fn settings_defaults_and_getters() {
    let settings = Settings::new(Config::new(
        "sild".to_string(),
        "192.168.0.140".to_string(),
        "main_control".to_string(),
        83,
    ));
    assert_eq!(settings.name(), "sild");
    assert_eq!(settings.host(), "192.168.0.140");
    assert_eq!(settings.heater_control_name(), "main_control");
    assert_eq!(settings.heater_control_pin(), 83);
    assert_eq!(settings.acctuator_warmup_time(), 300);
    assert_eq!(settings.heater_pump_stop_time(), 600);
    assert_eq!(settings.constant_temperature_expected(), Temperature::new(20000));
    assert_eq!(settings.min_pwm_state(), 30);
    assert_eq!(settings.min_temperature_diff_for_pwm(), Temperature::new(300));
    assert_eq!(settings.temperature_drop_wait(), Temperature::new(700));
    assert_eq!(settings.version(), 0);
}

#[test]
fn settings_replace_swaps_whole_snapshot() {
    let mut settings = Settings::new(Config::new(
        "old".to_string(),
        "old-host".to_string(),
        "main".to_string(),
        1,
    ));
    let mut newer = Config::new(
        "new".to_string(),
        "new-host".to_string(),
        "central".to_string(),
        2,
    );
    newer.version = 7;
    settings.replace(newer);
    assert_eq!(settings.name(), "new");
    assert_eq!(settings.heater_control_name(), "central");
    assert_eq!(settings.heater_control_pin(), 2);
    assert_eq!(settings.version(), 7);
}

#[test]
fn pin_values_on_and_wire_levels() {
    assert!(PinValue::Digital(true).is_on());
    assert!(!PinValue::Digital(false).is_on());
    assert!(PinValue::Analog(1).is_on());
    assert!(!PinValue::Analog(0).is_on());
    assert!(!PinValue::Temperature(Temperature::new(22000)).is_on());
    assert_eq!(PinValue::Digital(true).as_u16(), 1);
    assert_eq!(PinValue::Digital(false).as_u16(), 0);
    assert_eq!(PinValue::Analog(716).as_u16(), 716);
    let state = PinState::new(3, PinValue::Analog(5), 1000);
    assert!(state.is_on());
}
