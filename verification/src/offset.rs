//! Fixed timezone offsets.

use vstd::prelude::*;

use crate::Error;

verus! {

/// The timezone with a fixed offset from UTC, from -23:59:59 to +23:59:59.
#[derive(PartialEq, Eq, Hash, Copy, Clone, Debug, Structural)]
pub struct FixedOffset {
    /// The offset in seconds east of UTC; negative values lie west.
    pub local_minus_utc: i32,
}

impl FixedOffset {
    /// The representation invariant: the offset is less than a day in
    /// either direction.
    pub open spec fn wf(self) -> bool {
        -86_400 < self.local_minus_utc < 86_400
    }

    /// Makes a new `FixedOffset` for the Eastern Hemisphere with the given
    /// timezone difference, in seconds. Fails with [`Error::OutOfRange`]
    /// when the offset is a day or more in either direction.
    pub fn east(secs: i32) -> (r: Result<FixedOffset, Error>)
        ensures
            -86_400 < secs < 86_400 ==> (r matches Ok(o) && o.wf() && o.local_minus_utc == secs),
            !(-86_400 < secs < 86_400) ==> r == Err::<FixedOffset, Error>(Error::OutOfRange),
    {
        if secs <= -86_400 || secs >= 86_400 {
            return Err(Error::OutOfRange);
        }
        Ok(FixedOffset { local_minus_utc: secs })
    }

    /// Makes a new `FixedOffset` for the Western Hemisphere with the given
    /// timezone difference, in seconds. Fails with [`Error::OutOfRange`]
    /// when the offset is a day or more in either direction.
    pub fn west(secs: i32) -> (r: Result<FixedOffset, Error>)
        ensures
            -86_400 < secs < 86_400 ==> (r matches Ok(o) && o.wf() && o.local_minus_utc
                == -secs),
            !(-86_400 < secs < 86_400) ==> r == Err::<FixedOffset, Error>(Error::OutOfRange),
    {
        if secs <= -86_400 || secs >= 86_400 {
            return Err(Error::OutOfRange);
        }
        Ok(FixedOffset { local_minus_utc: -secs })
    }

    /// Returns the number of seconds to add to convert from UTC to the
    /// local time.
    pub fn local_minus_utc(&self) -> (r: i32)
        ensures
            r == self.local_minus_utc,
    {
        self.local_minus_utc
    }

    /// Returns the number of seconds to add to convert from the local time
    /// to UTC.
    pub fn utc_minus_local(&self) -> (r: i32)
        requires
            self.wf(),
        ensures
            r == -self.local_minus_utc,
    {
        -self.local_minus_utc
    }
}

} // verus!
