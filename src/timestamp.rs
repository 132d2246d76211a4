use vstd::prelude::*;

verus! {

#[verifier::external_type_specification]
#[verifier::external_body]
pub struct ExInstant(std::time::Instant);

#[verifier::external_type_specification]
#[verifier::external_body]
pub struct ExSystemTime(std::time::SystemTime);

#[verifier::external_type_specification]
#[verifier::external_body]
pub struct ExSystemTimeError(std::time::SystemTimeError);

/// Relies on `Instant::now`: a reading of the monotonic clock.
pub assume_specification[ std::time::Instant::now ]() -> std::time::Instant;

/// Relies on `Instant`'s `Clone`: a copy of the same reading.
pub assume_specification[ <std::time::Instant as Clone>::clone ](
    this: &std::time::Instant,
) -> std::time::Instant;

/// Relies on `Instant::elapsed`: the time passed since the reading.
pub assume_specification[ std::time::Instant::elapsed ](
    this: &std::time::Instant,
) -> std::time::Duration;

/// Relies on `Duration::as_millis`: the whole milliseconds of a duration.
pub assume_specification[ std::time::Duration::as_millis ](
    this: &std::time::Duration,
) -> u128;

/// Relies on `Duration::as_secs`: the whole seconds of a duration.
pub assume_specification[ std::time::Duration::as_secs ](this: &std::time::Duration) -> u64;

/// Relies on `SystemTime::now`: a reading of the wall clock.
pub assume_specification[ std::time::SystemTime::now ]() -> std::time::SystemTime;

/// Relies on `SystemTime::duration_since`: the time from `earlier` to the
/// reading, or an error when `earlier` is later.
pub assume_specification[ std::time::SystemTime::duration_since ](
    this: &std::time::SystemTime,
    earlier: std::time::SystemTime,
) -> Result<std::time::Duration, std::time::SystemTimeError>;

/// Relies on `std::time::UNIX_EPOCH`: the wall-clock reading of the epoch.
#[verifier::external_body]
fn unix_epoch() -> std::time::SystemTime {
    std::time::UNIX_EPOCH
}

/// A moment in wall-clock time, in whole seconds since the Unix epoch.
#[derive(Copy, Clone, Debug, PartialEq, Eq, Structural)]
pub struct Timestamp {
    time: u64,
}

impl Timestamp {
    /// The current moment, read from the wall clock as `from_clock_reading`
    /// says.
    pub fn now() -> (r: Timestamp) {
        let reading = match std::time::SystemTime::now().duration_since(unix_epoch()) {
            Ok(since) => Some(since.as_secs()),
            Err(_) => None,
        };
        Timestamp::from_clock_reading(reading)
    }

    /// The moment for a clock reading: the whole seconds since the epoch, or
    /// `None` for a clock set before the epoch, which reads as the epoch
    /// itself (a timestamp cannot be earlier).
    pub fn from_clock_reading(seconds_since_epoch: Option<u64>) -> (r: Timestamp)
        ensures
            r.secs() == match seconds_since_epoch {
                Some(secs) => secs,
                None => 0,
            },
    {
        match seconds_since_epoch {
            Some(secs) => Timestamp { time: secs },
            None => Timestamp { time: 0 },
        }
    }

    /// Whole seconds since the Unix epoch.
    pub closed spec fn secs(&self) -> u64 {
        self.time
    }

    /// Whole seconds since the Unix epoch.
    pub fn seconds(&self) -> (r: u64)
        ensures
            r == self.secs(),
    {
        self.time
    }
}

/// Milliseconds passed since `start` on the monotonic clock; durations past
/// the range of `u64` read as `u64::MAX`.
pub fn millis_since(start: &std::time::Instant) -> (r: u64) {
    let ms = start.elapsed().as_millis();
    if ms > u64::MAX as u128 {
        u64::MAX
    } else {
        ms as u64
    }
}

} // verus!
