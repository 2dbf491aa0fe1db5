use heating::config::{Config, ControlNode, Settings};
use heating::deciders::{HeaterDecider, TemperatureStateDecider, ZoneStateDecider};
use heating::pin::{LocalInstant, PinOperation, PinState, PinValue, Temperature};
use heating::repository::PinStateRepository;
use heating::zone::{Interval, Zone};

fn dt(day: i64, h: i64, m: i64, s: i64) -> i64 {
    day * 86400 + h * 3600 + m * 60 + s
}

fn at(day: i64, h: i64, m: i64, s: i64) -> LocalInstant {
    LocalInstant::new(dt(day, h, m, s), (h * 3600 + m * 60 + s) as u32)
}

fn test_settings() -> Settings {
    Settings::new(Config::new(
        "test".to_string(),
        "host".to_string(),
        "main".to_string(),
        34,
    ))
}

fn test_zone() -> Zone {
    let intervals = vec![
        Interval::new(8 * 3600, 9 * 3600, Temperature::new(20000)),
        Interval::new(23 * 3600 + 60, 23 * 3600 + 3 * 60 + 3, Temperature::new(30500)),
    ];
    Zone::new("zone1".to_string(), 1, intervals, 2)
}

#[test]
fn proportional_law_values() {
    let settings = test_settings();
    let decider = TemperatureStateDecider::new(&settings);
    let zone = test_zone();
    // (expected analog, temperature in thousandths, hour)
    let cases = [
        (1023u16, 19000, 8i64),
        (306, 19800, 8),
        (716, 19300, 8),
        (1023, 2300, 8),
        (0, 20000, 8),
        (0, 20000, 9),
    ];
    for (expected, millis, hour) in cases {
        let v = decider.get_expected_value(&Temperature::new(millis), &zone, &at(1, hour, 0, 0));
        assert_eq!(v, PinValue::Analog(expected), "temperature {} at hour {}", millis, hour);
    }
}

#[test]
fn hysteresis_law() {
    let settings = test_settings();
    let temp_decider = TemperatureStateDecider::new(&settings);
    let zone_decider = ZoneStateDecider::new(&temp_decider, &settings);
    let zone = test_zone();
    // (expected, last analog value, temperature in thousandths, hour)
    let cases = [
        (true, 1023u16, 19000, 8i64),
        (true, 0, 19000, 8),
        (true, 306, 19800, 8),
        (true, 716, 19300, 8),
        (true, 0, 19250, 8),
        // Setpoint 20.0, band 0.7: a zone last off stays off at 19.4
        // and turns on at 19.3 or below.
        (false, 0, 19400, 8),
        (true, 0, 19300, 8),
        // A zone last on stays on just below the setpoint and turns
        // off once it is reached.
        (true, 716, 19990, 8),
        (false, 716, 20000, 8),
        // No setpoint scheduled: off regardless of state.
        (false, 716, 19000, 9),
        (false, 0, 19000, 9),
    ];
    for (expected, value, millis, hour) in cases {
        let last = PinState::new(1, PinValue::Analog(value), dt(1, 8, 0, 0));
        let r = zone_decider.should_be_on(
            &last,
            &zone,
            &Temperature::new(millis),
            &at(1, hour, 0, 0),
        );
        assert_eq!(r, expected, "value {} temperature {} hour {}", value, millis, hour);
    }
}

#[test]
fn edge_law_emits_only_on_edges() {
    let settings = test_settings();
    let temp_decider = TemperatureStateDecider::new(&settings);
    let zone_decider = ZoneStateDecider::new(&temp_decider, &settings);
    let zone = test_zone();
    let now = at(1, 8, 0, 0);
    let on = PinState::new(1, PinValue::Analog(1023), dt(1, 7, 0, 0));
    let off = PinState::new(1, PinValue::Analog(0), dt(1, 7, 0, 0));
    // On and still wanted: steady state, nothing emitted.
    assert_eq!(zone_decider.get_value_to_change_to(&on, &zone, &Temperature::new(19000), &now), None);
    // On and satisfied: the off command.
    assert_eq!(
        zone_decider.get_value_to_change_to(&on, &zone, &Temperature::new(20000), &now),
        Some(PinValue::Analog(0))
    );
    // Off and far below the band: the proportional command.
    assert_eq!(
        zone_decider.get_value_to_change_to(&off, &zone, &Temperature::new(19000), &now),
        Some(PinValue::Analog(1023))
    );
    // Off and within the band: nothing emitted.
    assert_eq!(zone_decider.get_value_to_change_to(&off, &zone, &Temperature::new(19400), &now), None);
}

fn demand_fixture() -> PinStateRepository {
    let mut repo = PinStateRepository::new();
    // Zone 1 actuator turns on at day 2, 08:00.
    repo.save_state(&PinOperation::new(
        PinState::new(1, PinValue::Analog(0), dt(1, 8, 0, 0)),
        "main".to_string(),
    ));
    repo.save_state(&PinOperation::new(
        PinState::new(1, PinValue::Analog(255), dt(2, 8, 0, 0)),
        "main".to_string(),
    ));
    repo
}

fn demand_nodes() -> Vec<ControlNode> {
    let zone = Zone::new(
        "zone1".to_string(),
        4,
        vec![Interval::new(8 * 3600, 9 * 3600, Temperature::new(20000))],
        1,
    );
    vec![ControlNode::new("main".to_string(), 34, vec![zone])]
}

#[test]
fn heater_engages_after_warmup() {
    let settings = test_settings();
    let repo = demand_fixture();
    let decider = HeaterDecider::new(&repo, &settings);
    let nodes = demand_nodes();
    // Demand began at day 2, 08:00; warm-up is 300 seconds.
    assert!(decider.should_be_on(&nodes, &at(2, 8, 5, 1)));
    assert!(!decider.should_be_on(&nodes, &at(2, 8, 5, 0)));
    // Within the 24-hour look-back the demand still counts...
    assert!(decider.should_be_on(&nodes, &at(3, 7, 0, 0)));
    // ...but once it left the window there is no demand to honour.
    assert!(!decider.should_be_on(&nodes, &at(4, 7, 0, 0)));
}

#[test]
fn heater_stays_off_without_demand() {
    let settings = test_settings();
    let repo = PinStateRepository::new();
    let decider = HeaterDecider::new(&repo, &settings);
    let nodes = demand_nodes();
    assert!(!decider.should_be_on(&nodes, &at(2, 9, 0, 0)));
}

#[test]
fn cool_down_guard_boundaries() {
    let settings = test_settings();
    let repo = PinStateRepository::new();
    let decider = HeaterDecider::new(&repo, &settings);
    // Pump-stop time is 600 seconds; the actuator went off at 08:00.
    let off = PinState::new(34, PinValue::Analog(0), dt(1, 8, 0, 0));
    assert!(!decider.can_turn_zones_off(&off, &at(1, 8, 0, 0)));
    assert!(!decider.can_turn_zones_off(&off, &at(1, 8, 10, 0)));
    assert!(decider.can_turn_zones_off(&off, &at(1, 8, 10, 1)));
    // While the actuator is on, decisions never resume.
    let on = PinState::new(34, PinValue::Digital(true), dt(1, 8, 0, 0));
    assert!(!decider.can_turn_zones_off(&on, &at(1, 9, 0, 0)));
}
