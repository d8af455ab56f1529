//! Points in time.
use vstd::prelude::*;

verus! {

/// Nanoseconds in a second.
pub const NANOS: i128 = 1_000_000_000;

/// A point in time, in nanoseconds since the Unix epoch; negative before it.
#[derive(Clone, Copy, Debug, PartialEq, Eq, Structural)]
pub struct Timestamp {
    pub nanos: i128,
}

impl Timestamp {
    /// The point `secs` seconds after the Unix epoch.
    pub open spec fn at_secs(secs: int) -> Timestamp {
        Timestamp { nanos: (secs * NANOS) as i128 }
    }

    /// The whole seconds since the epoch: 0 before it, at most `u64::MAX`.
    pub open spec fn whole_secs(self) -> u64 {
        if self.nanos < 0 {
            0
        } else if self.nanos / NANOS > u64::MAX {
            u64::MAX
        } else {
            (self.nanos / NANOS) as u64
        }
    }

    /// The point `secs` seconds after the Unix epoch.
    pub fn from_secs(secs: u64) -> (r: Timestamp)
        ensures
            r == Timestamp::at_secs(secs as int),
            r.nanos == secs * NANOS,
    {
        Timestamp { nanos: secs as i128 * NANOS }
    }

    /// The whole seconds since the epoch.
    pub fn to_secs(self) -> (r: u64)
        ensures
            r == self.whole_secs(),
    {
        if self.nanos < 0 {
            0
        } else {
            let secs: i128 = self.nanos / NANOS;
            if secs > 0xffff_ffff_ffff_ffffi128 {
                u64::MAX
            } else {
                secs as u64
            }
        }
    }

    /// The point `secs` seconds later, or the last one that can be written.
    pub open spec fn later(self, secs: int) -> Timestamp {
        if self.nanos + secs * NANOS <= i128::MAX {
            Timestamp { nanos: (self.nanos + secs * NANOS) as i128 }
        } else {
            Timestamp { nanos: i128::MAX }
        }
    }

    /// The point `secs` seconds later.
    pub fn plus_secs(self, secs: u64) -> (r: Timestamp)
        ensures
            r == self.later(secs as int),
    {
        match self.nanos.checked_add(secs as i128 * NANOS) {
            Some(nanos) => Timestamp { nanos },
            None => Timestamp { nanos: i128::MAX },
        }
    }
}

/// A whole second survives the way to seconds and back.
pub proof fn law_seconds_round_trip(secs: u64)
    ensures
        Timestamp::at_secs(secs as int).whole_secs() == secs,
{
    assert((secs * NANOS) / NANOS as int == secs as int) by (nonlinear_arith);
}

} // verus!
