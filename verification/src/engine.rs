//! The accrual engine: the live balance of a state at a given wall-clock
//! time, and the mode-transition state machine that settles the open accrual
//! interval before every switch.

use vstd::prelude::*;
use crate::state::{Mode, State};
use crate::text::str_eq;

verus! {

/// Milliseconds of credit per hour; also milliseconds per hour of wall time.
pub const MS_PER_HOUR: i64 = 3_600_000;

/// Credit accrued per elapsed millisecond while the given mode runs: working
/// earns one for one, researching costs four for one, idling accrues nothing.
pub open spec fn rate_of(m: Mode) -> int {
    match m {
        Mode::Idle => 0,
        Mode::Work => 1,
        Mode::Research => -4,
    }
}

/// The balance of `s` as of time `now`: the settled balance plus the accrual
/// of the currently open interval. Idle states accrue nothing, so their live
/// balance is the settled balance itself, whatever `now` is.
pub open spec fn spec_live_balance(s: State, now: int) -> int {
    if s.mode == Mode::Idle {
        s.balance as int
    } else {
        s.balance + (now - s.start_time) * rate_of(s.mode)
    }
}

/// The live balance of `s` at wall-clock time `now` (milliseconds since the
/// epoch). The requirement only keeps the mathematical result representable.
pub fn live_balance(s: &State, now: i64) -> (r: i64)
    requires
        i64::MIN <= spec_live_balance(*s, now as int) <= i64::MAX,
    ensures
        r as int == spec_live_balance(*s, now as int),
{
    match s.mode {
        Mode::Idle => s.balance,
        Mode::Work => {
            let total: i128 = s.balance as i128 + (now as i128 - s.start_time as i128);
            total as i64
        },
        Mode::Research => {
            let total: i128 = s.balance as i128 - 4 * (now as i128 - s.start_time as i128);
            total as i64
        },
    }
}

/// A mode-transition command. Every recognized command settles the balance
/// first; `Other` stands for any unrecognized command word, which transitions
/// nowhere but is still settled.
#[derive(Clone, Copy, PartialEq, Eq, Structural, Debug)]
pub enum Command {
    Stop,
    Work,
    Research,
    Reset,
    Other,
}

/// The command a command word names; any unrecognized word maps to `Other`.
pub open spec fn spec_command_of(a: Seq<char>) -> Command {
    if a == "stop"@ {
        Command::Stop
    } else if a == "work"@ {
        Command::Work
    } else if a == "research"@ {
        Command::Research
    } else if a == "reset"@ {
        Command::Reset
    } else {
        Command::Other
    }
}

/// Maps a command word to the command it names.
pub fn parse_command(action: &str) -> (c: Command)
    ensures
        c == spec_command_of(action@),
{
    if str_eq(action, "stop") {
        Command::Stop
    } else if str_eq(action, "work") {
        Command::Work
    } else if str_eq(action, "research") {
        Command::Research
    } else if str_eq(action, "reset") {
        Command::Reset
    } else {
        Command::Other
    }
}

/// The balance a command leaves behind: zero for `Reset`, which discards any
/// unsettled accrual outright, and the settled live balance for every other
/// command.
pub open spec fn spec_balance_after(s: State, c: Command, now: int) -> int {
    if c == Command::Reset {
        0
    } else {
        spec_live_balance(s, now)
    }
}

/// The mode a command switches to; `Other` leaves the mode unchanged.
pub open spec fn spec_mode_after(m: Mode, c: Command) -> Mode {
    match c {
        Command::Stop => Mode::Idle,
        Command::Work => Mode::Work,
        Command::Research => Mode::Research,
        Command::Reset => Mode::Idle,
        Command::Other => m,
    }
}

/// The start time a command leaves behind: the commands that open a new
/// accrual interval stamp it with `now`; the rest leave the old stamp, which
/// is meaningless once the mode is `Idle`.
pub open spec fn spec_start_after(s: State, c: Command, now: int) -> int {
    match c {
        Command::Work => now,
        Command::Research => now,
        _ => s.start_time as int,
    }
}

/// Applies a mode-transition command to `s` at time `now`. Every command but
/// `Reset` first settles the balance — folds the accrual of the interval open
/// under the previous mode into `balance` — so that no interval is counted
/// twice or dropped across a switch; `Reset` clears the ledger outright.
pub fn apply_command(s: &State, c: Command, now: i64) -> (r: State)
    requires
        c != Command::Reset ==> i64::MIN <= spec_live_balance(*s, now as int) <= i64::MAX,
    ensures
        r.balance as int == spec_balance_after(*s, c, now as int),
        r.mode == spec_mode_after(s.mode, c),
        r.start_time as int == spec_start_after(*s, c, now as int),
{
    match c {
        Command::Stop => State { balance: live_balance(s, now), mode: Mode::Idle, start_time: s.start_time },
        Command::Work => State { balance: live_balance(s, now), mode: Mode::Work, start_time: now },
        Command::Research => State {
            balance: live_balance(s, now),
            mode: Mode::Research,
            start_time: now,
        },
        Command::Reset => State { balance: 0, mode: Mode::Idle, start_time: s.start_time },
        Command::Other => State { balance: live_balance(s, now), mode: s.mode, start_time: s.start_time },
    }
}

/// Applies the command named by `action` to `s` at time `now`: the one-shot
/// mutating invocation, minus the loading and saving around it.
pub fn handle_action(s: &State, action: &str, now: i64) -> (r: State)
    requires
        spec_command_of(action@) != Command::Reset ==> i64::MIN <= spec_live_balance(
            *s,
            now as int,
        ) <= i64::MAX,
    ensures
        r.balance as int == spec_balance_after(*s, spec_command_of(action@), now as int),
        r.mode == spec_mode_after(s.mode, spec_command_of(action@)),
        r.start_time as int == spec_start_after(*s, spec_command_of(action@), now as int),
{
    let c = parse_command(action);
    apply_command(s, c, now)
}

/// Idle stability: an idle state's live balance is its settled balance,
/// whatever the clock reads.
pub proof fn lemma_idle_stability(s: State, now: int)
    requires
        s.mode == Mode::Idle,
    ensures
        spec_live_balance(s, now) == s.balance,
{
}

/// Accrual linearity: while a mode runs, the live balance is affine in the
/// clock, with slope `rate_of` the mode — one millisecond of credit per
/// elapsed millisecond while working, minus four while researching.
pub proof fn lemma_accrual_linearity(s: State, n1: int, n2: int)
    requires
        s.mode != Mode::Idle,
    ensures
        spec_live_balance(s, n2) - spec_live_balance(s, n1) == (n2 - n1) * rate_of(s.mode),
{
    let t = s.start_time as int;
    let r = rate_of(s.mode);
    assert((n2 - t) * r - (n1 - t) * r == (n2 - n1) * r) by (nonlinear_arith);
}

/// No double counting: working from `t0`, switching to research at `t1` and
/// stopping at `t2` attributes each interval to the mode active during it —
/// the work interval once at rate one, the research interval once at rate
/// minus four — on top of whatever balance the opening switch settled.
pub proof fn lemma_no_double_counting(s: State, s1: State, s2: State, t0: int, t1: int, t2: int)
    requires
        s1.balance == spec_live_balance(s, t0),
        s1.mode == Mode::Work,
        s1.start_time == t0,
        s2.balance == spec_live_balance(s1, t1),
        s2.mode == Mode::Research,
        s2.start_time == t1,
    ensures
        spec_live_balance(s2, t2) == spec_live_balance(s, t0) + (t1 - t0) - 4 * (t2 - t1),
{
}

/// Reset is absolute: whatever the prior state, `Reset` leaves a zero balance
/// and an idle mode.
pub proof fn lemma_reset_absolute(s: State, now: int)
    ensures
        spec_balance_after(s, Command::Reset, now) == 0,
        spec_mode_after(s.mode, Command::Reset) == Mode::Idle,
{
}

} // verus!
