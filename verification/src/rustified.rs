//! Rustified counterparts of raw firmware structures.
//!
//! `EfiTime` mirrors the firmware's sixteen-byte time record field for
//! field, padding included; `Time` is the validated form without the
//! padding, the one the rest of the code works with.

use vstd::prelude::*;

use crate::protocol_utility::RustProtocolError;

verus! {

/// Daylight flag: the time may be adjusted for daylight saving.
pub const TIME_ADJUST_DAYLIGHT: u8 = 0x01;

/// Daylight flag: the time is currently inside daylight saving.
pub const TIME_IN_DAYLIGHT: u8 = 0x02;

/// The raw wall-clock record as the firmware lays it out: sixteen bytes,
/// padding included.
#[derive(Debug, Clone, Copy, PartialEq, Eq, Structural)]
pub struct EfiTime {
    /// Calendar year.
    pub year: u16,
    /// Calendar month, 1 through 12.
    pub month: u8,
    /// Day of the month.
    pub day: u8,
    /// Hour of the day.
    pub hour: u8,
    /// Minute of the hour.
    pub minute: u8,
    /// Second of the minute.
    pub second: u8,
    /// Layout padding; zero.
    pub pad1: u8,
    /// Nanoseconds within the second.
    pub nanosecond: u32,
    /// Offset from UTC in minutes.
    pub timezone: i16,
    /// Daylight saving flags.
    pub daylight: u8,
    /// Layout padding; zero.
    pub pad2: u8,
}

/// A wall-clock time whose daylight flags have been checked: no unknown
/// bits, and "in daylight" only together with "adjusts for daylight".
#[derive(Debug, Clone, Copy, PartialEq, Eq, Structural)]
pub struct Time {
    /// Calendar year.
    pub year: u16,
    /// Calendar month, 1 through 12.
    pub month: u8,
    /// Day of the month.
    pub day: u8,
    /// Hour of the day.
    pub hour: u8,
    /// Minute of the hour.
    pub minute: u8,
    /// Second of the minute.
    pub second: u8,
    /// Nanoseconds within the second.
    pub nanosecond: u32,
    /// Offset from UTC in minutes.
    pub timezone: i16,
    /// Daylight saving flags.
    pub daylight: u8,
}

/// Acceptable daylight flags: no bit outside the two defined ones, and
/// "in daylight" only when "adjusts for daylight" is set too.
pub open spec fn daylight_valid(d: u8) -> bool {
    &&& d & 0xFC == 0
    &&& !((d & TIME_IN_DAYLIGHT == TIME_IN_DAYLIGHT) && !(d & TIME_ADJUST_DAYLIGHT
        == TIME_ADJUST_DAYLIGHT))
}

impl Time {
    /// Lay this time out as the raw firmware record, padding zeroed.
    pub fn to_efi(&self) -> (r: EfiTime)
        ensures
            r == (EfiTime {
                year: self.year,
                month: self.month,
                day: self.day,
                hour: self.hour,
                minute: self.minute,
                second: self.second,
                pad1: 0,
                nanosecond: self.nanosecond,
                timezone: self.timezone,
                daylight: self.daylight,
                pad2: 0,
            }),
    {
        EfiTime {
            year: self.year,
            month: self.month,
            day: self.day,
            hour: self.hour,
            minute: self.minute,
            second: self.second,
            pad1: 0,
            nanosecond: self.nanosecond,
            timezone: self.timezone,
            daylight: self.daylight,
            pad2: 0,
        }
    }

    /// Validate a raw firmware record: accepted exactly when its
    /// daylight flags are well-formed, with every field carried over.
    pub fn try_from_efi(tf: &EfiTime) -> (r: Result<Time, RustProtocolError>)
        ensures
            daylight_valid(tf.daylight) ==> r == Result::<Time, RustProtocolError>::Ok(
                Time {
                    year: tf.year,
                    month: tf.month,
                    day: tf.day,
                    hour: tf.hour,
                    minute: tf.minute,
                    second: tf.second,
                    nanosecond: tf.nanosecond,
                    timezone: tf.timezone,
                    daylight: tf.daylight,
                },
            ),
            !daylight_valid(tf.daylight) ==> r == Result::<Time, RustProtocolError>::Err(
                RustProtocolError::InvalidParameter,
            ),
    {
        let tad = (tf.daylight & TIME_ADJUST_DAYLIGHT) == TIME_ADJUST_DAYLIGHT;
        let tid = (tf.daylight & TIME_IN_DAYLIGHT) == TIME_IN_DAYLIGHT;
        if ((tf.daylight & 0xFC) != 0) || (tid && !tad) {
            return Err(RustProtocolError::InvalidParameter);
        }
        Ok(
            Time {
                year: tf.year,
                month: tf.month,
                day: tf.day,
                hour: tf.hour,
                minute: tf.minute,
                second: tf.second,
                nanosecond: tf.nanosecond,
                timezone: tf.timezone,
                daylight: tf.daylight,
            },
        )
    }
}

impl Default for Time {
    /// The zero time: every field zero.
    fn default() -> (r: Time)
        ensures
            r == (Time {
                year: 0,
                month: 0,
                day: 0,
                hour: 0,
                minute: 0,
                second: 0,
                nanosecond: 0,
                timezone: 0,
                daylight: 0,
            }),
    {
        Time {
            year: 0,
            month: 0,
            day: 0,
            hour: 0,
            minute: 0,
            second: 0,
            nanosecond: 0,
            timezone: 0,
            daylight: 0,
        }
    }
}

} // verus!
