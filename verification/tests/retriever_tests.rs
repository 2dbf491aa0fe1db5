use heating::config::{Config, ControlNode, ControlNodes, Settings};
use heating::deciders::{HeaterDecider, TemperatureStateDecider, ZoneStateDecider};
use heating::pin::{LocalInstant, PinOperation, PinState, PinValue, Temperature};
use heating::repository::PinStateRepository;
use heating::state_retriever::{NodeChanges, PinChange, PinChanges, StateRetriever};
use heating::zone::{Interval, Zone};

fn epoch(day: i64, h: i64, m: i64, s: i64) -> i64 {
    day * 86400 + h * 3600 + m * 60 + s
}

fn clock(day: i64, h: i64, m: i64, s: i64) -> LocalInstant {
    LocalInstant::new(epoch(day, h, m, s), (h * 3600 + m * 60 + s) as u32)
}

fn main_settings() -> Settings {
    Settings::new(Config::new(
        "test".to_string(),
        "host".to_string(),
        "main".to_string(),
        34,
    ))
}

/// One node "main" with central pin 34 and one scheduled zone: sensor
/// pin 4 under the zone's name, actuator pin 1 under the node's name,
/// setpoint 20.0 degrees from 08:00 to 21:00.
fn one_zone_nodes() -> ControlNodes {
    let zone = Zone::new(
        "zone1".to_string(),
        4,
        vec![Interval::new(8 * 3600, 21 * 3600, Temperature::new(20000))],
        1,
    );
    vec![ControlNode::new("main".to_string(), 34, vec![zone])]
}

fn put(repo: &mut PinStateRepository, node: &str, pin: u8, value: PinValue, dt: i64) {
    repo.save_state(&PinOperation::new(PinState::new(pin, value, dt), node.to_string()));
}

fn heater_command(value: bool) -> PinChanges {
    vec![NodeChanges {
        name: "main".to_string(),
        changes: vec![PinChange { pin: 34, value: PinValue::Digital(value) }],
    }]
}

#[test]
fn shutoff_overrides_zone_edges() {
    let settings = main_settings();
    let mut repo = PinStateRepository::new();
    // Central actuator is on; the zone's actuator is on too, but at
    // 22:00 nothing is scheduled, so every zone computes "off".
    put(&mut repo, "main", 34, PinValue::Digital(true), epoch(2, 8, 10, 0));
    put(&mut repo, "main", 1, PinValue::Analog(255), epoch(2, 8, 0, 0));
    put(
        &mut repo,
        "zone1",
        4,
        PinValue::Temperature(Temperature::new(19000)),
        epoch(2, 21, 30, 0),
    );
    let temp_decider = TemperatureStateDecider::new(&settings);
    let zone_decider = ZoneStateDecider::new(&temp_decider, &settings);
    let heater_decider = HeaterDecider::new(&repo, &settings);
    let retriever = StateRetriever::new(&repo, &heater_decider, &zone_decider, &settings);
    let nodes = one_zone_nodes();
    let now = clock(2, 22, 0, 0);
    // The zone alone would emit an on-to-off edge for pin 1, but the
    // global shutoff wins: exactly the central-off command comes out.
    assert!(retriever.all_zones_should_be_off(&nodes, &now));
    let changes = retriever.get_pins_expected_to_change(&nodes, &now);
    assert_eq!(changes, heater_command(false));
}

#[test]
fn cool_down_suppresses_everything() {
    let settings = main_settings();
    let mut repo = PinStateRepository::new();
    // Central actuator went off at 09:00; the zone is cold and would
    // demand heat, but 09:03 is within the 600-second pump stop.
    put(&mut repo, "main", 34, PinValue::Digital(false), epoch(2, 9, 0, 0));
    put(&mut repo, "main", 1, PinValue::Analog(0), epoch(2, 8, 0, 0));
    put(
        &mut repo,
        "zone1",
        4,
        PinValue::Temperature(Temperature::new(18000)),
        epoch(2, 8, 50, 0),
    );
    let temp_decider = TemperatureStateDecider::new(&settings);
    let zone_decider = ZoneStateDecider::new(&temp_decider, &settings);
    let heater_decider = HeaterDecider::new(&repo, &settings);
    let retriever = StateRetriever::new(&repo, &heater_decider, &zone_decider, &settings);
    let nodes = one_zone_nodes();
    let now = clock(2, 9, 3, 0);
    let changes = retriever.get_pins_expected_to_change(&nodes, &now);
    assert_eq!(changes.len(), 0);
    // Once the pump stop has fully elapsed the zone edge comes through.
    let later = clock(2, 9, 10, 1);
    let changes = retriever.get_pins_expected_to_change(&nodes, &later);
    assert_eq!(
        changes,
        vec![NodeChanges {
            name: "main".to_string(),
            changes: vec![PinChange { pin: 1, value: PinValue::Analog(1023) }],
        }]
    );
}

#[test]
fn zone_edges_take_priority_over_heater_on() {
    let settings = main_settings();
    let mut repo = PinStateRepository::new();
    // Central actuator long off; zone actuator on since 08:00 with the
    // room already satisfied: the off edge must be emitted, and the
    // heater-on decision must not fire in the same tick.
    put(&mut repo, "main", 34, PinValue::Digital(false), epoch(2, 6, 0, 0));
    put(&mut repo, "main", 1, PinValue::Analog(306), epoch(2, 8, 0, 0));
    put(
        &mut repo,
        "zone1",
        4,
        PinValue::Temperature(Temperature::new(21000)),
        epoch(2, 9, 30, 0),
    );
    let temp_decider = TemperatureStateDecider::new(&settings);
    let zone_decider = ZoneStateDecider::new(&temp_decider, &settings);
    let heater_decider = HeaterDecider::new(&repo, &settings);
    let retriever = StateRetriever::new(&repo, &heater_decider, &zone_decider, &settings);
    let nodes = one_zone_nodes();
    let now = clock(2, 10, 0, 0);
    let changes = retriever.get_pins_expected_to_change(&nodes, &now);
    assert_eq!(
        changes,
        vec![NodeChanges {
            name: "main".to_string(),
            changes: vec![PinChange { pin: 1, value: PinValue::Analog(0) }],
        }]
    );
}

#[test]
fn heater_turns_on_after_sustained_demand() {
    let settings = main_settings();
    let mut repo = PinStateRepository::new();
    // Central actuator off since 06:00; zone actuator on since 08:00
    // and the room still cold: no zone edge, demand outlasted the
    // warm-up, so the central actuator is commanded on.
    put(&mut repo, "main", 34, PinValue::Digital(false), epoch(2, 6, 0, 0));
    put(&mut repo, "main", 1, PinValue::Analog(1023), epoch(2, 8, 0, 0));
    put(
        &mut repo,
        "zone1",
        4,
        PinValue::Temperature(Temperature::new(18500)),
        epoch(2, 9, 0, 0),
    );
    let temp_decider = TemperatureStateDecider::new(&settings);
    let zone_decider = ZoneStateDecider::new(&temp_decider, &settings);
    let heater_decider = HeaterDecider::new(&repo, &settings);
    let retriever = StateRetriever::new(&repo, &heater_decider, &zone_decider, &settings);
    let nodes = one_zone_nodes();
    let now = clock(2, 9, 30, 0);
    let changes = retriever.get_pins_expected_to_change(&nodes, &now);
    assert_eq!(changes, heater_command(true));
}

#[test]
fn no_data_no_command() {
    let settings = main_settings();
    let repo = PinStateRepository::new();
    let temp_decider = TemperatureStateDecider::new(&settings);
    let zone_decider = ZoneStateDecider::new(&temp_decider, &settings);
    let heater_decider = HeaterDecider::new(&repo, &settings);
    let retriever = StateRetriever::new(&repo, &heater_decider, &zone_decider, &settings);
    let nodes = one_zone_nodes();
    let now = clock(2, 8, 30, 0);
    // An empty store: no zone was ever observed, so nothing is emitted.
    let changes = retriever.get_pins_expected_to_change(&nodes, &now);
    assert_eq!(changes.len(), 0);
    assert!(retriever.get_zone_pins_to_change("main", &nodes[0].zones, &now).is_empty());
}

#[test]
fn zone_without_temperature_fact_is_skipped() {
    let settings = main_settings();
    let mut repo = PinStateRepository::new();
    // The zone's actuator is known but no temperature was ever
    // reported: no decision can be made, so nothing is emitted.
    put(&mut repo, "main", 34, PinValue::Digital(false), epoch(2, 6, 0, 0));
    put(&mut repo, "main", 1, PinValue::Analog(255), epoch(2, 8, 0, 0));
    let temp_decider = TemperatureStateDecider::new(&settings);
    let zone_decider = ZoneStateDecider::new(&temp_decider, &settings);
    let heater_decider = HeaterDecider::new(&repo, &settings);
    let retriever = StateRetriever::new(&repo, &heater_decider, &zone_decider, &settings);
    let nodes = one_zone_nodes();
    let now = clock(2, 22, 0, 0);
    let zone_changes = retriever.get_zone_pins_to_change("main", &nodes[0].zones, &now);
    assert!(zone_changes.is_empty());
}

fn run_tick(repo: &PinStateRepository, settings: &Settings, nodes: &ControlNodes, now: &LocalInstant) -> PinChanges {
    let temp_decider = TemperatureStateDecider::new(settings);
    let zone_decider = ZoneStateDecider::new(&temp_decider, settings);
    let heater_decider = HeaterDecider::new(repo, settings);
    let retriever = StateRetriever::new(repo, &heater_decider, &zone_decider, settings);
    retriever.get_pins_expected_to_change(nodes, now)
}

fn run_all_off(repo: &PinStateRepository, settings: &Settings, nodes: &ControlNodes, now: &LocalInstant) -> bool {
    let temp_decider = TemperatureStateDecider::new(settings);
    let zone_decider = ZoneStateDecider::new(&temp_decider, settings);
    let heater_decider = HeaterDecider::new(repo, settings);
    let retriever = StateRetriever::new(repo, &heater_decider, &zone_decider, settings);
    retriever.all_zones_should_be_off(nodes, now)
}

/// A two-day history driven through a whole day of ticks: morning
/// shutoff, the cool-down, the evening schedule re-engaging both
/// observed zones at full drive, and the heater following once demand
/// has stood long enough. Temperatures read far earlier in the day
/// still count: the loop averages over the whole recorded history.
#[test]
fn evening_schedule_full_sequence() {
    let settings = main_settings();
    let mut repo = PinStateRepository::new();
    // Zone 1 actuator (pin 1): off through day 1, on at day 2 08:00.
    put(&mut repo, "main", 1, PinValue::Analog(0), epoch(1, 8, 0, 0));
    put(&mut repo, "main", 1, PinValue::Analog(0), epoch(1, 8, 1, 0));
    put(&mut repo, "main", 1, PinValue::Analog(0), epoch(1, 8, 2, 0));
    put(&mut repo, "main", 1, PinValue::Analog(255), epoch(2, 8, 0, 0));
    // Zone 1 temperatures, morning of day 2; they average to 18.6.
    for (h, m, millis) in [(7, 40, 18500), (8, 3, 17000), (8, 30, 18500), (8, 50, 19500), (8, 55, 19500)] {
        put(
            &mut repo,
            "zone1",
            4,
            PinValue::Temperature(Temperature::new(millis)),
            epoch(2, h, m, 0),
        );
    }
    // Zone 2 actuator (pin 2): briefly on early day 1, off since.
    put(&mut repo, "main", 2, PinValue::Analog(122), epoch(1, 8, 0, 0));
    put(&mut repo, "main", 2, PinValue::Analog(0), epoch(1, 9, 0, 0));
    put(&mut repo, "main", 2, PinValue::Analog(0), epoch(1, 10, 0, 0));
    put(&mut repo, "main", 2, PinValue::Analog(0), epoch(1, 11, 0, 0));
    put(&mut repo, "zone2", 4, PinValue::Temperature(Temperature::new(20500)), epoch(1, 8, 50, 0));
    // Zone 4's temperature exists but its actuator (pin 4) was never
    // observed; central actuator (pin 34) on since day 2 08:10.
    put(&mut repo, "zone4", 4, PinValue::Temperature(Temperature::new(22500)), epoch(2, 8, 30, 0));
    for m in [10i64, 11, 12] {
        put(&mut repo, "main", 34, PinValue::Digital(true), epoch(2, 8, m, 0));
    }
    // Each zone: setpoint 20.0 from 08:00 to 09:00 and 30.5 from 23:01
    // to 23:31; zone names address the sensors, pins the actuators.
    let make_zone = |n: u8| {
        Zone::new(
            format!("zone{}", n),
            4,
            vec![
                Interval::new(8 * 3600, 9 * 3600, Temperature::new(20000)),
                Interval::new(23 * 3600 + 60, 23 * 3600 + 31 * 60, Temperature::new(30500)),
            ],
            n,
        )
    };
    let nodes: ControlNodes = vec![ControlNode::new(
        "main".to_string(),
        34,
        vec![make_zone(1), make_zone(2), make_zone(4)],
    )];

    // 08:20: zone 1 is on and cold, so not every zone is content; the
    // heater is on, so the cool-down guard suppresses any change.
    let now = clock(2, 8, 20, 0);
    assert!(!run_all_off(&repo, &settings, &nodes, &now));
    assert_eq!(run_tick(&repo, &settings, &nodes, &now).len(), 0);

    // 09:03: no setpoint anywhere, every zone computes off while the
    // heater is still on: the global shutoff fires, and keeps firing
    // until the store sees the heater off.
    let now = clock(2, 9, 3, 0);
    assert!(run_all_off(&repo, &settings, &nodes, &now));
    assert_eq!(run_tick(&repo, &settings, &nodes, &now), heater_command(false));
    assert_eq!(run_tick(&repo, &settings, &nodes, &clock(2, 9, 30, 0)), heater_command(false));

    // The heater's off state is echoed back at 09:00: 09:03 is inside
    // the 600-second pump stop, so nothing may change yet.
    put(&mut repo, "main", 34, PinValue::Digital(false), epoch(2, 9, 0, 0));
    assert!(run_all_off(&repo, &settings, &nodes, &clock(2, 9, 3, 0)));
    assert_eq!(run_tick(&repo, &settings, &nodes, &clock(2, 9, 3, 0)).len(), 0);

    // 09:10:01, one second past the pump stop: zone 1's on-to-off edge
    // comes through.
    let changes = run_tick(&repo, &settings, &nodes, &clock(2, 9, 10, 1));
    assert_eq!(
        changes,
        vec![NodeChanges {
            name: "main".to_string(),
            changes: vec![PinChange { pin: 1, value: PinValue::Analog(0) }],
        }]
    );

    // Zone 1's off state is echoed. At 23:02:01 the evening interval
    // asks for 30.5: both observed zones are far below it, so both
    // valves open at full drive; zone 4 has no actuator data and no
    // command. The morning's temperature readings still decide.
    put(&mut repo, "main", 1, PinValue::Analog(0), epoch(2, 9, 10, 0));
    let expected = vec![NodeChanges {
        name: "main".to_string(),
        changes: vec![
            PinChange { pin: 1, value: PinValue::Analog(1023) },
            PinChange { pin: 2, value: PinValue::Analog(1023) },
        ],
    }];
    assert_eq!(run_tick(&repo, &settings, &nodes, &clock(2, 23, 2, 1)), expected);
    // Not yet echoed: the same edges are emitted again later.
    assert_eq!(run_tick(&repo, &settings, &nodes, &clock(2, 23, 20, 1)), expected);

    // Both zone commands are echoed at 23:02:02. At 23:03:01 demand is
    // only 59 seconds old: no edge, no heater yet.
    put(&mut repo, "main", 1, PinValue::Analog(1023), epoch(2, 23, 2, 2));
    put(&mut repo, "main", 2, PinValue::Analog(1023), epoch(2, 23, 2, 2));
    assert_eq!(run_tick(&repo, &settings, &nodes, &clock(2, 23, 3, 1)).len(), 0);

    // 23:08:02: demand has outlasted the 300-second warm-up, so the
    // heater is commanded on.
    assert_eq!(run_tick(&repo, &settings, &nodes, &clock(2, 23, 8, 2)), heater_command(true));
}

#[test]
fn tick_is_stateless() {
    let settings = main_settings();
    let mut repo = PinStateRepository::new();
    put(&mut repo, "main", 34, PinValue::Digital(false), epoch(2, 6, 0, 0));
    put(&mut repo, "main", 1, PinValue::Analog(0), epoch(2, 8, 0, 0));
    put(
        &mut repo,
        "zone1",
        4,
        PinValue::Temperature(Temperature::new(18000)),
        epoch(2, 8, 50, 0),
    );
    let temp_decider = TemperatureStateDecider::new(&settings);
    let zone_decider = ZoneStateDecider::new(&temp_decider, &settings);
    let heater_decider = HeaterDecider::new(&repo, &settings);
    let retriever = StateRetriever::new(&repo, &heater_decider, &zone_decider, &settings);
    let nodes = one_zone_nodes();
    let now = clock(2, 9, 0, 0);
    // With no intervening writes, two ticks over the same facts agree:
    // the loop keeps no memory of its own.
    let first = retriever.get_pins_expected_to_change(&nodes, &now);
    let second = retriever.get_pins_expected_to_change(&nodes, &now);
    assert_eq!(first, second);
    assert_eq!(
        first,
        vec![NodeChanges {
            name: "main".to_string(),
            changes: vec![PinChange { pin: 1, value: PinValue::Analog(1023) }],
        }]
    );
}
