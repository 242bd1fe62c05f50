//! The basic system state the shell layer reports on.

use vstd::prelude::*;

verus! {

/// Battery level and running-application counters of the device.
///
/// Bringing the services up and printing the status report are the
/// console layer's concern; the state itself never changes there.
#[derive(Clone, Copy, PartialEq, Eq, Structural, Debug)]
pub struct MobileSystem {
    pub battery_level: u8,
    pub apps_running: u8,
}

impl MobileSystem {
    /// A fresh system: a mostly charged battery, no application yet.
    pub fn new() -> (s: MobileSystem)
        ensures
            s.battery_level == 85,
            s.apps_running == 0,
    {
        MobileSystem { battery_level: 85, apps_running: 0 }
    }
}

} // verus!
