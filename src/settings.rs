//! The user's display settings: whether the orbits are drawn, and how much
//! simulated time passes in one real second.
use vstd::prelude::*;

verus! {

/// How much simulated time passes in one real second.
#[derive(Clone, Copy, Debug, PartialEq, Eq, Structural)]
pub enum TimeScale {
    Day,
    Month,
    Year,
}

impl TimeScale {
    /// The length of the scale's span, in seconds: a day, a twelfth of a
    /// Julian year, a Julian year.
    pub open spec fn seconds(self) -> u64 {
        match self {
            TimeScale::Day => 86_400,
            TimeScale::Month => 2_629_800,
            TimeScale::Year => 31_557_600,
        }
    }

    pub fn to_seconds(&self) -> (s: u64)
        ensures
            s == self.seconds(),
    {
        match self {
            TimeScale::Day => 86_400,
            TimeScale::Month => 2_629_800,
            TimeScale::Year => 31_557_600,
        }
    }
}

/// The settings that the settings window edits.
#[derive(Clone, Copy, Debug, PartialEq, Eq, Structural)]
pub struct Gui {
    pub open: bool,
    pub show_performance: bool,
    pub time_scale: TimeScale,
    pub show_orbits: bool,
}

impl Default for Gui {
    fn default() -> (g: Self)
        ensures
            g.open,
            !g.show_performance,
            g.time_scale == TimeScale::Day,
            g.show_orbits,
    {
        Gui { open: true, show_performance: false, time_scale: TimeScale::Day, show_orbits: true }
    }
}

} // verus!
