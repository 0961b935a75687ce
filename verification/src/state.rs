//! The persisted record: a settled balance, the active accrual mode, and the
//! wall-clock time at which that mode began.

use vstd::prelude::*;

verus! {

/// The active accrual regime. `Idle` accrues nothing; `Work` earns credit at
/// one millisecond of credit per elapsed millisecond; `Research` spends it at
/// four milliseconds of credit per elapsed millisecond.
#[derive(Clone, Copy, PartialEq, Eq, Structural, Debug)]
pub enum Mode {
    Idle,
    Work,
    Research,
}

/// The sole persisted entity.
///
/// `balance` is the credit settled as of the last mutating command, in
/// milliseconds of credit (3_600_000 per hour, negative for debt); it never
/// includes the open accrual of the mode currently running. `start_time` is
/// the wall-clock time (milliseconds since the epoch) at which the current
/// mode began; it is meaningless while `mode` is `Idle`.
#[derive(Clone, Copy, PartialEq, Eq, Structural, Debug)]
pub struct State {
    pub balance: i64,
    pub mode: Mode,
    pub start_time: i64,
}

impl Default for State {
    /// The state a fresh installation starts from, and the state every
    /// unreadable or malformed persisted file falls back to.
    fn default() -> (r: Self)
        ensures
            r == (State { balance: 0, mode: Mode::Idle, start_time: 0 }),
    {
        State { balance: 0, mode: Mode::Idle, start_time: 0 }
    }
}

} // verus!
