//! Watching the receiver's output pin for level changes.
use vstd::prelude::*;

verus! {

/// The level of the pin.
#[derive(Debug, Clone, Copy, PartialEq, Eq, Structural)]
pub enum Level {
    Low,
    High,
}

/// One level change of the pin.
#[derive(Debug, Clone, Copy, PartialEq, Eq, Structural)]
pub struct Edge {
    /// Microseconds since the change before this one.
    pub duration: u64,
    /// The level that the pin changed to.
    pub level: Level,
}

impl Edge {
    /// Whether the pin went from high to low, so that `duration` measures a
    /// pulse.
    pub open spec fn is_falling(self) -> bool {
        self.level == Level::Low
    }

    /// Whether the pin went from high to low.
    pub fn falling(&self) -> (falling: bool)
        ensures
            falling == self.is_falling(),
    {
        self.level == Level::Low
    }
}

/// Remembers the level that the pin had when it was last looked at.
///
/// The caller polls the pin and hands each level to `observe`. When
/// `observe` reports a change, the caller reads the counter, sets it back to
/// zero and makes an `Edge` of the count and the new level.
#[derive(Debug, Clone, Copy, PartialEq, Eq, Structural)]
pub struct EdgeSampler {
    /// The level last seen.
    pub level: Level,
}

impl EdgeSampler {
    /// A sampler for a pin that idles high.
    pub fn new() -> (sampler: Self)
        ensures
            sampler.level == Level::High,
    {
        EdgeSampler { level: Level::High }
    }

    /// Takes the present level of the pin and says whether it differs from
    /// the level seen before. The level seen is the present one afterwards.
    pub fn observe(&mut self, level: Level) -> (changed: bool)
        ensures
            changed == (level != old(self).level),
            final(self).level == level,
    {
        let changed = level != self.level;
        self.level = level;
        changed
    }

    /// Takes the present level of the pin and the count of microseconds
    /// since the pin last changed. Where the level differs from the one seen
    /// before, the change is returned; where it does not, nothing is.
    pub fn sample(&mut self, level: Level, elapsed: u64) -> (edge: Option<Edge>)
        ensures
            final(self).level == level,
            edge == if level != old(self).level {
                Some(Edge { duration: elapsed, level })
            } else {
                None
            },
    {
        if self.observe(level) {
            Some(Edge { duration: elapsed, level })
        } else {
            None
        }
    }
}

} // verus!
