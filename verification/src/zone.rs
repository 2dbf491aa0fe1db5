//! The schedule model: a zone is a heated area with a sensor pin, an
//! actuator pin and a daily list of intervals, each asking for a
//! temperature between a start and an end time of day.
use vstd::prelude::*;

use crate::pin::Temperature;

verus! {

/// One entry of a zone's daily schedule, half-open: it applies from
/// `start` (inclusive) to `end` (exclusive), both in seconds of the day.
#[derive(Clone, Copy, Debug, PartialEq, Eq, Structural)]
pub struct Interval {
    pub start: u32,
    pub end: u32,
    pub expected_temperature: Temperature,
}

impl Interval {
    pub fn new(start: u32, end: u32, expected_temperature: Temperature) -> (r: Interval)
        ensures
            r == (Interval { start, end, expected_temperature }),
    {
        Interval { start, end, expected_temperature }
    }

    /// Whether this interval covers the given second of the day.
    pub open spec fn contains(self, tod: u32) -> bool {
        self.start <= tod < self.end
    }
}

/// The setpoint a schedule asks for at a time of day: the first listed
/// interval that covers it wins, and none means no heat is scheduled.
pub open spec fn expected_temperature_spec(times: Seq<Interval>, tod: u32) -> Option<Temperature>
    decreases times.len(),
{
    if times.len() == 0 {
        None
    } else if times[0].contains(tod) {
        Some(times[0].expected_temperature)
    } else {
        expected_temperature_spec(times.drop_first(), tod)
    }
}

/// A heating area: its temperature readings arrive under `name` and
/// `sensor_pin`, its actuator is driven through `control_pin` of the
/// node that owns it, and `times` is its daily schedule.
#[derive(Clone, Debug)]
pub struct Zone {
    pub name: String,
    pub sensor_pin: u8,
    pub times: Vec<Interval>,
    pub control_pin: u8,
}

impl Zone {
    pub fn new(name: String, sensor_pin: u8, times: Vec<Interval>, control_pin: u8) -> (r: Zone)
        ensures
            r.name == name,
            r.sensor_pin == sensor_pin,
            r.times == times,
            r.control_pin == control_pin,
    {
        Zone { name, sensor_pin, times, control_pin }
    }

    /// The setpoint scheduled at `tod` seconds into the day, if any;
    /// when intervals overlap, the first listed one wins.
    pub fn get_expected_temperature(&self, tod: u32) -> (r: Option<Temperature>)
        ensures
            r == expected_temperature_spec(self.times@, tod),
    {
        let n = self.times.len();
        assert(self.times@.skip(0) =~= self.times@);
        for i in 0..n
            invariant
                n == self.times@.len(),
                expected_temperature_spec(self.times@, tod) == expected_temperature_spec(
                    self.times@.skip(i as int),
                    tod,
                ),
        {
            let iv = self.times[i];
            assert(self.times@.skip(i as int)[0] == iv);
            if iv.start <= tod && tod < iv.end {
                return Some(iv.expected_temperature);
            }
            assert(self.times@.skip(i as int).drop_first() =~= self.times@.skip(i + 1));
        }
        assert(self.times@.skip(n as int).len() == 0);
        None
    }
}

/// The zones served by one control node.
pub type Zones = Vec<Zone>;

} // verus!
