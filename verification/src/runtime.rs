//! The firmware clock, as the process subsystem reads it.
//!
//! Only what the time syscall consumes is modeled: the wall-clock hour,
//! minute and second that the UEFI runtime services report. The caller that
//! owns the real firmware handle constructs this value.

use vstd::prelude::*;

verus! {

/// A wall-clock time of day.
#[derive(Clone, Copy, PartialEq, Eq, Structural, Debug)]
pub struct Time {
    pub hour: u8,
    pub minute: u8,
    pub second: u8,
}

/// Handle to the firmware's runtime services; holds the time they reported.
pub struct UefiRuntime {
    pub time: Time,
}

impl UefiRuntime {
    /// A handle reporting the given time.
    pub fn new(time: Time) -> (rt: UefiRuntime)
        ensures
            rt.time == time,
    {
        UefiRuntime { time }
    }

    /// The current wall-clock time.
    pub fn get_time(&self) -> (t: Time)
        ensures
            t == self.time,
    {
        self.time
    }
}

} // verus!
