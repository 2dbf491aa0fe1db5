//! The policies: pure decision functions from current facts, schedule
//! and configuration to a desired output value or boolean. No data is
//! treated as no decision — absent facts never produce a command.
use vstd::prelude::*;

use crate::config::{Config, ControlNodes, Settings};
use crate::pin::{
    percent_to_analog,
    percent_to_analog_spec,
    LocalInstant,
    PinState,
    PinValue,
    Temperature,
    MAX_TIMESTAMP,
};
use crate::repository::{first_zone_on_spec, PinStateRepository};
use crate::zone::{expected_temperature_spec, Zone};

verus! {

/// Seconds in the window over which sustained demand is sought.
pub const DEMAND_LOOKBACK: i64 = 86400;

/// The hysteresis law. With no setpoint scheduled now the zone must be
/// off. A zone currently on stays on while the temperature is below the
/// setpoint, turning off only once the setpoint is reached; a zone
/// currently off turns on only once the temperature has dropped to or
/// below the setpoint less the configured band.
pub open spec fn zone_should_be_on_spec(
    cfg: Config,
    last_on: bool,
    zone: Zone,
    current: Temperature,
    tod: u32,
) -> bool {
    match expected_temperature_spec(zone.times@, tod) {
        None => false,
        Some(sp) => if last_on {
            (current.millis as int) < sp.millis as int
        } else {
            (current.millis as int) <= sp.millis - cfg.temperature_drop_wait.millis
        },
    }
}

/// The proportional-with-floor-and-saturation control law, on the
/// analog scale. Zero when nothing is scheduled or the setpoint is
/// reached; the floor percent for deficits within the deadband; the
/// deficit in degrees read as a fraction of full drive for deficits
/// under one degree; full drive from one degree up.
pub open spec fn expected_value_spec(cfg: Config, zone: Zone, current: Temperature, tod: u32) -> u16 {
    match expected_temperature_spec(zone.times@, tod) {
        None => 0u16,
        Some(sp) => if current.millis >= sp.millis {
            0u16
        } else {
            let diff = sp.millis - current.millis;
            if diff <= cfg.min_temperature_diff_for_pwm.millis {
                percent_to_analog_spec(cfg.min_pwm_state)
            } else if diff < 1000 {
                percent_to_analog_spec((diff / 10) as u8)
            } else {
                percent_to_analog_spec(100)
            }
        },
    }
}

/// The edge law: a command is emitted only when the desired state
/// differs from the last known one — off on an on-to-off edge, the
/// proportional value on an off-to-on edge, nothing in steady state.
pub open spec fn value_to_change_spec(
    cfg: Config,
    last_on: bool,
    zone: Zone,
    current: Temperature,
    tod: u32,
) -> Option<PinValue> {
    let should = zone_should_be_on_spec(cfg, last_on, zone, current, tod);
    if last_on && !should {
        Some(PinValue::Analog(0u16))
    } else if !last_on && should {
        Some(PinValue::Analog(expected_value_spec(cfg, zone, current, tod)))
    } else {
        None
    }
}

/// The central actuator engages only after continuous zone demand has
/// outlasted the warm-up time; with no demand in the look-back window
/// it stays off.
pub open spec fn heater_should_be_on_spec(
    rows: Seq<crate::repository::PinRecord>,
    nodes: Seq<crate::config::ControlNode>,
    cfg: Config,
    now: LocalInstant,
) -> bool {
    match first_zone_on_spec(rows, nodes, now.ts - DEMAND_LOOKBACK) {
        Some(d) => now.ts - d > cfg.acctuator_warmup_time,
        None => false,
    }
}

/// Zone-level decisions may resume only while the central actuator is
/// off and has been off for longer than the pump-stop time.
pub open spec fn can_turn_zones_off_spec(cfg: Config, state: PinState, now: LocalInstant) -> bool {
    !state.spec_is_on() && now.ts - state.dt > cfg.heater_pump_stop_time
}

/// Decides the analog value a zone's actuator should be driven at.
pub struct TemperatureStateDecider<'a> {
    pub config: &'a Settings,
}

impl<'a> TemperatureStateDecider<'a> {
    pub fn new(config: &'a Settings) -> (r: TemperatureStateDecider<'a>)
        ensures
            r.config == config,
    {
        TemperatureStateDecider { config }
    }

    /// The proportional-with-floor output for a zone at an instant.
    pub fn get_expected_value(
        &self,
        current_temperature: &Temperature,
        zone: &Zone,
        now: &LocalInstant,
    ) -> (r: PinValue)
        ensures
            r == PinValue::Analog(
                expected_value_spec(self.config.spec_config(), *zone, *current_temperature, now.tod),
            ),
    {
        let sp = match zone.get_expected_temperature(now.tod) {
            Some(t) => t,
            None => {
                return PinValue::Analog(0);
            },
        };
        if current_temperature.millis >= sp.millis {
            return PinValue::Analog(0);
        }
        let diff: i64 = (sp.millis as i64) - (current_temperature.millis as i64);
        let value: u16 = if diff <= self.config.min_temperature_diff_for_pwm().millis as i64 {
            percent_to_analog(self.config.min_pwm_state())
        } else if diff < 1000 {
            percent_to_analog(((diff as u32) / 10) as u8)
        } else {
            percent_to_analog(100)
        };
        PinValue::Analog(value)
    }
}

/// Decides whether a zone should be heating, and whether its actuator
/// must be commanded to a new value.
pub struct ZoneStateDecider<'a> {
    pub temp_decider: &'a TemperatureStateDecider<'a>,
    pub config: &'a Settings,
}

impl<'a> ZoneStateDecider<'a> {
    /// The decider and its temperature decider read the same settings.
    pub open spec fn wf(&self) -> bool {
        self.temp_decider.config == self.config
    }

    pub fn new(temp_decider: &'a TemperatureStateDecider<'a>, config: &'a Settings) -> (r:
        ZoneStateDecider<'a>)
        ensures
            r.temp_decider == temp_decider,
            r.config == config,
    {
        ZoneStateDecider { temp_decider, config }
    }

    /// The hysteresis decision for one zone given its last known state
    /// and current temperature.
    pub fn should_be_on(
        &self,
        last_state: &PinState,
        zone: &Zone,
        current_temperature: &Temperature,
        now: &LocalInstant,
    ) -> (r: bool)
        ensures
            r == zone_should_be_on_spec(
                self.config.spec_config(),
                last_state.spec_is_on(),
                *zone,
                *current_temperature,
                now.tod,
            ),
    {
        if let Some(sp) = zone.get_expected_temperature(now.tod) {
            if last_state.is_on() {
                current_temperature.millis < sp.millis
            } else {
                (current_temperature.millis as i64) <= (sp.millis as i64) - (
                self.config.temperature_drop_wait().millis as i64)
            }
        } else {
            false
        }
    }

    /// The command for one zone, if an edge calls for one: `0` on an
    /// on-to-off edge, the proportional output on an off-to-on edge,
    /// nothing in steady state — a steady state is never re-emitted.
    pub fn get_value_to_change_to(
        &self,
        last_state: &PinState,
        zone: &Zone,
        current_temperature: &Temperature,
        now: &LocalInstant,
    ) -> (r: Option<PinValue>)
        requires
            self.wf(),
        ensures
            r == value_to_change_spec(
                self.config.spec_config(),
                last_state.spec_is_on(),
                *zone,
                *current_temperature,
                now.tod,
            ),
    {
        let zone_should_be_on = self.should_be_on(last_state, zone, current_temperature, now);
        if last_state.is_on() && !zone_should_be_on {
            return Some(PinValue::Analog(0u16));
        }
        if !last_state.is_on() && zone_should_be_on {
            return Some(self.temp_decider.get_expected_value(current_temperature, zone, now));
        }
        None
    }
}

/// Decides when the shared central actuator (boiler/pump) may engage
/// and when zone decisions may resume, guarding against short cycling.
pub struct HeaterDecider<'a> {
    pub repository: &'a PinStateRepository,
    pub config: &'a Settings,
}

impl<'a> HeaterDecider<'a> {
    pub fn new(repository: &'a PinStateRepository, config: &'a Settings) -> (r: HeaterDecider<'a>)
        ensures
            r.repository == repository,
            r.config == config,
    {
        HeaterDecider { repository, config }
    }

    /// Whether continuous zone demand has outlasted the warm-up time.
    pub fn should_be_on(&self, nodes: &ControlNodes, now: &LocalInstant) -> (r: bool)
        requires
            self.repository.wf(),
            now.wf(),
        ensures
            r == heater_should_be_on_spec(
                self.repository.pins(),
                nodes@,
                self.config.spec_config(),
                *now,
            ),
    {
        if let Some(first_zone_on) = self.repository.get_first_zone_on_dt(
            nodes,
            now.ts - DEMAND_LOOKBACK,
        ) {
            return now.ts - first_zone_on > self.config.acctuator_warmup_time() as i64;
        }
        false
    }

    /// Whether the central actuator is off and has been off for longer
    /// than the pump-stop time, so zone decisions may resume.
    pub fn can_turn_zones_off(&self, state: &PinState, now: &LocalInstant) -> (r: bool)
        requires
            now.wf(),
            0 <= state.dt <= MAX_TIMESTAMP,
        ensures
            r == can_turn_zones_off_spec(self.config.spec_config(), *state, *now),
    {
        !state.is_on() && now.ts - state.dt > self.config.heater_pump_stop_time() as i64
    }
}

} // verus!
