//! Tells when the player has not moved for a while.

use vstd::prelude::*;
use crate::protocol::Vec2f;

verus! {

/// The time, in nanoseconds, that a position has to be held before it
/// counts as stuck.
pub const MIN_DURATION: u64 = 1_000_000_000;

/// The last position seen and when it was seen, in nanoseconds.
#[derive(Debug, Clone, Copy, PartialEq, Eq, Structural)]
pub struct StuckDetector {
    pub last_position: Option<Vec2f>,
    pub last_update: Option<u64>,
}

impl StuckDetector {
    pub fn new() -> (result: Self)
        ensures
            result == (StuckDetector { last_position: None, last_update: None }),
    {
        StuckDetector { last_position: None, last_update: None }
    }

    /// Records `position` as seen at `now`.
    pub fn update(&mut self, position: Vec2f, now: u64)
        ensures
            *final(self) == (StuckDetector { last_position: Some(position), last_update: Some(now) }),
    {
        self.last_position = Some(position);
        self.last_update = Some(now);
    }

    /// Whether `position` compares equal, as a pair of doubles, to the
    /// position last seen and more than `MIN_DURATION` has gone by since.
    pub open spec fn stuck(self, position: Vec2f, now: u64) -> bool {
        match self.last_update {
            Some(seen) => (match self.last_position {
                Some(last) => last.same_point(position),
                None => false,
            }) && now - seen > MIN_DURATION,
            None => false,
        }
    }

    /// Whether the player, found at `position` at the time `now`, is stuck.
    pub fn check(&self, position: Vec2f, now: u64) -> (result: bool)
        ensures
            result == self.stuck(position, now),
    {
        match self.last_update {
            Some(seen) => {
                let same = match self.last_position {
                    Some(last) => last.equals(&position),
                    None => false,
                };
                same && now > seen && now - seen > MIN_DURATION
            },
            None => false,
        }
    }
}

} // verus!
