//! Static configuration: the thresholds the deciders consult, and the
//! tree of control nodes with their zones. A `Settings` value is the
//! atomically replaceable snapshot the rest of the engine reads.
use vstd::prelude::*;

use crate::pin::Temperature;
use crate::zone::{Zone, Zones};

verus! {

/// Default seconds of sustained demand before the central actuator engages.
pub const DEFAULT_WARMUP_TIME: u16 = 300;

/// Default seconds the central actuator must stay off before decisions resume.
pub const DEFAULT_PUMP_STOP_TIME: u16 = 600;

/// Default setpoint, thousandths of a degree.
pub const DEFAULT_CONSTANT_TEMPERATURE: i32 = 20000;

/// Default floor drive, in percent.
pub const DEFAULT_MIN_PWM_STATE: u8 = 30;

/// Default deadband under which the floor drive is used, thousandths of a degree.
pub const DEFAULT_MIN_DIFF_FOR_PWM: i32 = 300;

/// Default hysteresis band below the setpoint, thousandths of a degree.
pub const DEFAULT_TEMPERATURE_DROP_WAIT: i32 = 700;

/// One complete configuration snapshot.
#[derive(Clone, Debug)]
pub struct Config {
    pub name: String,
    pub host: String,
    pub heater_control_name: String,
    pub heater_control_pin: u8,
    /// Seconds a central actuator must see continuous demand before turning on.
    pub acctuator_warmup_time: u16,
    /// Seconds the central actuator must stay off before decisions resume.
    pub heater_pump_stop_time: u16,
    /// Setpoint used when a deployment runs without a schedule.
    pub constant_temperature_expected: Temperature,
    /// Floor percent: the least drive emitted whenever heat is called for.
    pub min_pwm_state: u8,
    /// Deficits up to this deadband are driven at the floor percent.
    pub min_temperature_diff_for_pwm: Temperature,
    /// How far below the setpoint a zone must drop before re-engaging.
    pub temperature_drop_wait: Temperature,
    /// Modification time of the backing definition, for hot-reload detection.
    pub version: u64,
}

impl Config {
    /// A snapshot with the given identity and every threshold at its default.
    pub fn new(name: String, host: String, heater_control_name: String, heater_control_pin: u8) -> (r:
        Config)
        ensures
            r.name == name,
            r.host == host,
            r.heater_control_name == heater_control_name,
            r.heater_control_pin == heater_control_pin,
            r.acctuator_warmup_time == DEFAULT_WARMUP_TIME,
            r.heater_pump_stop_time == DEFAULT_PUMP_STOP_TIME,
            r.constant_temperature_expected.millis == DEFAULT_CONSTANT_TEMPERATURE,
            r.min_pwm_state == DEFAULT_MIN_PWM_STATE,
            r.min_temperature_diff_for_pwm.millis == DEFAULT_MIN_DIFF_FOR_PWM,
            r.temperature_drop_wait.millis == DEFAULT_TEMPERATURE_DROP_WAIT,
            r.version == 0,
    {
        Config {
            name,
            host,
            heater_control_name,
            heater_control_pin,
            acctuator_warmup_time: DEFAULT_WARMUP_TIME,
            heater_pump_stop_time: DEFAULT_PUMP_STOP_TIME,
            constant_temperature_expected: Temperature { millis: DEFAULT_CONSTANT_TEMPERATURE },
            min_pwm_state: DEFAULT_MIN_PWM_STATE,
            min_temperature_diff_for_pwm: Temperature { millis: DEFAULT_MIN_DIFF_FOR_PWM },
            temperature_drop_wait: Temperature { millis: DEFAULT_TEMPERATURE_DROP_WAIT },
            version: 0,
        }
    }
}

/// The configuration snapshot the engine reads. Replacing it swaps the
/// whole snapshot at once: a reader sees either the old or the new
/// configuration, never a half-updated one.
#[derive(Debug)]
pub struct Settings {
    config: Config,
}

impl Settings {
    /// The snapshot currently visible to readers.
    pub closed spec fn spec_config(&self) -> Config {
        self.config
    }

    pub fn new(config: Config) -> (r: Settings)
        ensures
            r.spec_config() == config,
    {
        Settings { config }
    }

    /// Swap in a whole new snapshot.
    pub fn replace(&mut self, config: Config)
        ensures
            final(self).spec_config() == config,
    {
        self.config = config;
    }

    pub fn name(&self) -> (r: String)
        ensures
            r == self.spec_config().name,
    {
        self.config.name.clone()
    }

    pub fn host(&self) -> (r: String)
        ensures
            r == self.spec_config().host,
    {
        self.config.host.clone()
    }

    pub fn heater_control_name(&self) -> (r: String)
        ensures
            r == self.spec_config().heater_control_name,
    {
        self.config.heater_control_name.clone()
    }

    pub fn heater_control_pin(&self) -> (r: u8)
        ensures
            r == self.spec_config().heater_control_pin,
    {
        self.config.heater_control_pin
    }

    pub fn acctuator_warmup_time(&self) -> (r: u16)
        ensures
            r == self.spec_config().acctuator_warmup_time,
    {
        self.config.acctuator_warmup_time
    }

    pub fn heater_pump_stop_time(&self) -> (r: u16)
        ensures
            r == self.spec_config().heater_pump_stop_time,
    {
        self.config.heater_pump_stop_time
    }

    pub fn constant_temperature_expected(&self) -> (r: Temperature)
        ensures
            r == self.spec_config().constant_temperature_expected,
    {
        self.config.constant_temperature_expected
    }

    pub fn min_pwm_state(&self) -> (r: u8)
        ensures
            r == self.spec_config().min_pwm_state,
    {
        self.config.min_pwm_state
    }

    pub fn min_temperature_diff_for_pwm(&self) -> (r: Temperature)
        ensures
            r == self.spec_config().min_temperature_diff_for_pwm,
    {
        self.config.min_temperature_diff_for_pwm
    }

    pub fn temperature_drop_wait(&self) -> (r: Temperature)
        ensures
            r == self.spec_config().temperature_drop_wait,
    {
        self.config.temperature_drop_wait
    }

    pub fn version(&self) -> (r: u64)
        ensures
            r == self.spec_config().version,
    {
        self.config.version
    }
}

/// A control node: the owner of a shared central actuator (pin 0 means
/// none) and of the zones it serves. Readings and commands for a zone's
/// actuator are addressed under the node's name.
#[derive(Clone, Debug)]
pub struct ControlNode {
    pub name: String,
    pub control_pin: u8,
    pub zones: Zones,
}

impl ControlNode {
    pub fn new(name: String, control_pin: u8, zones: Zones) -> (r: ControlNode)
        ensures
            r.name == name,
            r.control_pin == control_pin,
            r.zones == zones,
    {
        ControlNode { name, control_pin, zones }
    }
}

/// The whole schedule tree.
pub type ControlNodes = Vec<ControlNode>;

} // verus!
