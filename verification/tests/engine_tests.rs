use time_hedge::engine::{apply_command, handle_action, live_balance, parse_command, Command};
use time_hedge::state::{Mode, State};

const HOUR: i64 = 3_600_000;

#[test]
fn idle_balance_is_stable() {
    let s = State { balance: 1234, mode: Mode::Idle, start_time: 777 };
    assert_eq!(live_balance(&s, 0), 1234);
    assert_eq!(live_balance(&s, 1_000_000), 1234);
    assert_eq!(live_balance(&s, 9_999_999_999), 1234);
}

#[test]
fn work_accrues_one_for_one() {
    let s = State { balance: 0, mode: Mode::Work, start_time: 1_000 };
    assert_eq!(live_balance(&s, 1_000), 0);
    assert_eq!(live_balance(&s, 1_001), 1);
    assert_eq!(live_balance(&s, 1_000 + HOUR), HOUR);
}

#[test]
fn work_slope_is_constant() {
    let s = State { balance: 42, mode: Mode::Work, start_time: 5_000 };
    let n1: i64 = 8_000;
    let n2: i64 = 9_500;
    assert_eq!(live_balance(&s, n2) - live_balance(&s, n1), n2 - n1);
}

#[test]
fn research_costs_four_for_one() {
    let s = State { balance: 0, mode: Mode::Research, start_time: 0 };
    assert_eq!(live_balance(&s, 1), -4);
    assert_eq!(live_balance(&s, HOUR), -4 * HOUR);
    let n1: i64 = 100;
    let n2: i64 = 350;
    assert_eq!(live_balance(&s, n2) - live_balance(&s, n1), -4 * (n2 - n1));
}

#[test]
fn stop_settles_then_idles() {
    // Two hours of work settle to two hours of credit.
    let t: i64 = 50_000;
    let s = State { balance: 0, mode: Mode::Work, start_time: t };
    let r = apply_command(&s, Command::Stop, t + 2 * HOUR);
    assert_eq!(r.balance, 2 * HOUR);
    assert_eq!(r.mode, Mode::Idle);
}

#[test]
fn no_double_counting_across_switches() {
    // Work an hour, research an hour, stop: one hour earned, four spent.
    let t0: i64 = 10_000;
    let s0 = State { balance: 0, mode: Mode::Idle, start_time: 0 };
    let s1 = apply_command(&s0, Command::Work, t0);
    assert_eq!(s1.balance, 0);
    assert_eq!(s1.mode, Mode::Work);
    assert_eq!(s1.start_time, t0);
    let s2 = apply_command(&s1, Command::Research, t0 + HOUR);
    assert_eq!(s2.balance, HOUR);
    assert_eq!(s2.mode, Mode::Research);
    assert_eq!(s2.start_time, t0 + HOUR);
    let s3 = apply_command(&s2, Command::Stop, t0 + 2 * HOUR);
    assert_eq!(s3.balance, HOUR - 4 * HOUR);
    assert_eq!(s3.mode, Mode::Idle);
}

#[test]
fn reset_is_absolute() {
    let deep_in_work = State { balance: -987_654, mode: Mode::Work, start_time: 4_000 };
    let r = apply_command(&deep_in_work, Command::Reset, 123_456_789);
    assert_eq!(r.balance, 0);
    assert_eq!(r.mode, Mode::Idle);
    let idle_debt = State { balance: -5 * HOUR, mode: Mode::Idle, start_time: 0 };
    let r2 = apply_command(&idle_debt, Command::Reset, 7);
    assert_eq!(r2.balance, 0);
    assert_eq!(r2.mode, Mode::Idle);
}

#[test]
fn unrecognized_command_settles_without_transition() {
    let t: i64 = 1_000;
    let s = State { balance: 100, mode: Mode::Research, start_time: t };
    let r = handle_action(&s, "frobnicate", t + 1_000);
    assert_eq!(r.balance, 100 - 4_000);
    assert_eq!(r.mode, Mode::Research);
    assert_eq!(r.start_time, t);
}

#[test]
fn command_words_parse() {
    assert_eq!(parse_command("stop"), Command::Stop);
    assert_eq!(parse_command("work"), Command::Work);
    assert_eq!(parse_command("research"), Command::Research);
    assert_eq!(parse_command("reset"), Command::Reset);
    assert_eq!(parse_command(""), Command::Other);
    assert_eq!(parse_command("Work"), Command::Other);
    assert_eq!(parse_command("working"), Command::Other);
}

#[test]
fn handle_action_runs_the_transition() {
    let s = State { balance: 0, mode: Mode::Idle, start_time: 0 };
    let r = handle_action(&s, "work", 99);
    assert_eq!(r.mode, Mode::Work);
    assert_eq!(r.start_time, 99);
    assert_eq!(r.balance, 0);
    let r2 = handle_action(&r, "stop", 99 + HOUR / 2);
    assert_eq!(r2.mode, Mode::Idle);
    assert_eq!(r2.balance, HOUR / 2);
}

#[test]
fn reset_needs_no_settleable_balance() {
    // Even a state whose live balance no longer fits the ledger can be reset:
    // reset discards the open accrual instead of settling it.
    let s = State { balance: i64::MAX, mode: Mode::Work, start_time: 0 };
    let r = handle_action(&s, "reset", i64::MAX);
    assert_eq!(r.balance, 0);
    assert_eq!(r.mode, Mode::Idle);
}

#[test]
fn default_state_is_idle_zero() {
    let d = State::default();
    assert_eq!(d.balance, 0);
    assert_eq!(d.mode, Mode::Idle);
    assert_eq!(d.start_time, 0);
}

#[test]
fn clock_running_backwards_unaccrues() {
    // The engine is total in `now`; an earlier clock simply accrues negatively.
    let s = State { balance: 0, mode: Mode::Work, start_time: 10_000 };
    assert_eq!(live_balance(&s, 9_000), -1_000);
}
