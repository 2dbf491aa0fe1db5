//! Plain-value models of the readings the engine works on: temperatures
//! in thousandths of a degree, pin values, timestamped pin states and
//! the instants the reconciliation loop runs at.
use vstd::prelude::*;

verus! {

/// Seconds in one day; times of day stay strictly below this.
pub const SECONDS_PER_DAY: u32 = 86400;

/// Upper bound on timestamps the engine accepts, far beyond any wall
/// clock this installation will see; it keeps duration arithmetic on
/// `i64` free of overflow.
pub const MAX_TIMESTAMP: i64 = 0x2000_0000_0000_0000;

/// A temperature, held as thousandths of a degree Celsius.
#[derive(Clone, Copy, Debug, PartialEq, Eq, Structural)]
pub struct Temperature {
    pub millis: i32,
}

impl Temperature {
    pub fn new(millis: i32) -> (r: Temperature)
        ensures
            r.millis == millis,
    {
        Temperature { millis }
    }
}

/// An instant of local time: seconds since the epoch together with the
/// second of the local day, the two facts of a wall-clock reading that
/// the schedule and the guards consult.
#[derive(Clone, Copy, Debug, PartialEq, Eq, Structural)]
pub struct LocalInstant {
    /// Seconds since the epoch.
    pub ts: i64,
    /// Seconds since local midnight.
    pub tod: u32,
}

impl LocalInstant {
    /// A usable instant: non-negative, bounded, with a valid time of day.
    pub open spec fn wf(self) -> bool {
        0 <= self.ts <= MAX_TIMESTAMP && self.tod < SECONDS_PER_DAY
    }

    pub fn new(ts: i64, tod: u32) -> (r: LocalInstant)
        ensures
            r.ts == ts,
            r.tod == tod,
    {
        LocalInstant { ts, tod }
    }
}

/// The full scale of an analog command, the actuators' native range.
pub const ANALOG_FULL_SCALE: u16 = 1023;

/// What a percentage maps to on the analog scale.
pub open spec fn percent_to_analog_spec(percent: u8) -> u16 {
    ((percent as int) * 1023 / 100) as u16
}

/// Convert a percentage of drive into the actuator's native analog range.
pub fn percent_to_analog(percent: u8) -> (r: u16)
    ensures
        r == percent_to_analog_spec(percent),
{
    ((percent as u32) * 1023 / 100) as u16
}

/// The value a pin reports or is commanded to: a relay level, a PWM
/// level on the analog scale, or a measured temperature.
#[derive(Clone, Copy, Debug, PartialEq, Eq, Structural)]
pub enum PinValue {
    Digital(bool),
    Analog(u16),
    Temperature(Temperature),
}

impl PinValue {
    /// Whether the value counts as "on": a set relay or a non-zero drive.
    pub open spec fn spec_is_on(self) -> bool {
        match self {
            PinValue::Digital(v) => v,
            PinValue::Analog(v) => v > 0,
            PinValue::Temperature(_) => false,
        }
    }

    pub fn is_on(&self) -> (r: bool)
        ensures
            r == self.spec_is_on(),
    {
        match self {
            PinValue::Digital(v) => *v,
            PinValue::Analog(v) => *v > 0,
            PinValue::Temperature(_) => false,
        }
    }

    /// The raw level a command carries on the wire: `0`/`1` for a relay,
    /// the analog level itself for a drive. Temperatures are readings,
    /// never commands, and carry no level.
    pub fn as_u16(&self) -> (r: u16)
        ensures
            r == (match *self {
                PinValue::Digital(v) => if v {
                    1u16
                } else {
                    0u16
                },
                PinValue::Analog(v) => v,
                PinValue::Temperature(_) => 0u16,
            }),
    {
        match self {
            PinValue::Digital(v) => if *v {
                1
            } else {
                0
            },
            PinValue::Analog(v) => *v,
            PinValue::Temperature(_) => 0,
        }
    }
}

/// A pin's state at an instant: the derived fact queries hand back, and
/// the payload of every inbound reading.
#[derive(Clone, Copy, Debug, PartialEq, Eq, Structural)]
pub struct PinState {
    pub pin: u8,
    pub value: PinValue,
    /// Seconds since the epoch.
    pub dt: i64,
}

impl PinState {
    pub open spec fn spec_is_on(self) -> bool {
        self.value.spec_is_on()
    }

    pub fn new(pin: u8, value: PinValue, dt: i64) -> (r: PinState)
        ensures
            r == (PinState { pin, value, dt }),
    {
        PinState { pin, value, dt }
    }

    pub fn is_on(&self) -> (r: bool)
        ensures
            r == self.spec_is_on(),
    {
        self.value.is_on()
    }
}

/// One decoded inbound reading: a pin state reported by a named node.
#[derive(Clone, Debug)]
pub struct PinOperation {
    pub pin_state: PinState,
    pub node: String,
}

impl PinOperation {
    pub fn new(pin_state: PinState, node: String) -> (r: PinOperation)
        ensures
            r.pin_state == pin_state,
            r.node == node,
    {
        PinOperation { pin_state, node }
    }
}

} // verus!
