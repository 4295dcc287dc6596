use vstd::prelude::*;

verus! {

/// A reading of the system clock, in whole seconds since the Unix epoch.
/// Its field is private: the only way to get one is to read the clock with
/// `unix_now`, so a contract that speaks of some `ClockReading` speaks of a
/// value that the clock gave.
#[derive(Debug)]
pub struct ClockReading {
    seconds: i64,
}

impl ClockReading {
    /// The seconds since the epoch that this reading holds.
    pub closed spec fn secs(self) -> int {
        self.seconds as int
    }

    /// The seconds of this reading, as an integer.
    pub fn seconds(&self) -> (r: i64)
        ensures
            r == self.secs(),
    {
        self.seconds
    }
}

/// `chrono::Utc::now().timestamp()`: the current time in seconds since the
/// epoch, as a reading of the clock. Nothing is claimed of its value.
#[verifier::external_body]
pub fn unix_now() -> (r: ClockReading) {
    ClockReading { seconds: chrono::Utc::now().timestamp() }
}

} // verus!
