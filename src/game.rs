//! What every game shares: the outcome of an update, the score and the keys.
use vstd::prelude::*;

verus! {

/// What a game reports after one update.
#[derive(Clone, Copy, Debug, PartialEq, Eq, Structural)]
pub enum UpdateEvent {
    GameOver,
    GameContinue,
}

/// The score that a game reports when it ends.
#[derive(Clone, Copy, Debug, PartialEq, Eq, Structural)]
pub struct Score {
    pub value: i64,
}

/// A key as the games read it.
#[derive(Clone, Copy, Debug, PartialEq, Eq, Structural)]
pub enum Key {
    Up,
    Down,
    Left,
    Right,
    Esc,
    Char(char),
    Other,
}

/// `a + b`, or `u64::MAX` where that sum would be larger.
pub open spec fn sat_add(a: u64, b: int) -> u64 {
    if a + b > u64::MAX {
        u64::MAX
    } else {
        (a + b) as u64
    }
}

} // verus!
