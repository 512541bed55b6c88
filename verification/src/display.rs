//! What a level display shows of a strip.

use vstd::prelude::*;
use crate::channel::{MixChannel, Strip};
use crate::fixed::ONE;

verus! {

/// Where a displayed level lies.
#[derive(Clone, Copy, Debug, PartialEq, Eq, Structural)]
pub enum LevelZone {
    /// Below unity.
    Normal,
    /// From unity up to the gain ceiling.
    Hot,
    /// At or above the gain ceiling.
    Over,
}

impl Strip {
    /// The reading on display: the RMS level, or else the smoothed peak.
    pub open spec fn displayed(self) -> int {
        if self.show_rms {
            self.rms as int
        } else {
            self.meter.smoothed as int
        }
    }

    /// The zone of the reading on display.
    pub open spec fn zone(self) -> LevelZone {
        if self.displayed() < ONE {
            LevelZone::Normal
        } else if self.displayed() < self.max_gain {
            LevelZone::Hot
        } else {
            LevelZone::Over
        }
    }

    /// The strip did not reach the bus in the last block, as far as its own
    /// flags tell: it is muted, or another strip was soloed and this one is not.
    pub open spec fn dimmed(self) -> bool {
        !self.audible(self.others_solo)
    }
}

impl MixChannel {
    /// The reading on display: the RMS level if `show_rms` is set, else the
    /// smoothed peak.
    pub fn displayed_level(&self) -> (r: i64)
        ensures
            r == self@.displayed(),
    {
        if self.show_rms {
            self.last_rms as i64
        } else {
            self.last_smoothed as i64
        }
    }

    /// The zone of the reading on display.
    pub fn level_zone(&self) -> (r: LevelZone)
        ensures
            r == self@.zone(),
    {
        let level: i64 = self.displayed_level();
        if level < ONE as i64 {
            LevelZone::Normal
        } else if level < self.max_gain as i64 {
            LevelZone::Hot
        } else {
            LevelZone::Over
        }
    }

    /// Whether the display shows the strip as silenced.
    pub fn dimmed(&self) -> (r: bool)
        ensures
            r == self@.dimmed(),
    {
        !self.audible(self.others_solo)
    }
}

} // verus!
