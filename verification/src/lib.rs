//! A personal time-tracking library built around a persistent "balance": a
//! ledger of credit, measured in milliseconds of credit (3_600_000 equals one
//! hour), that grows while working and shrinks four times as fast while
//! researching. A host program loads the persisted state, asks the engine for
//! the live balance at the current wall-clock time (milliseconds since the
//! epoch), applies a mode-transition command, and persists the result.
//!
//! - [`state`] holds the persisted record: balance, mode, start of the
//!   current mode.
//! - [`engine`] computes live balances and applies transition commands,
//!   settling the open accrual interval before every switch.
//! - [`format`] renders a balance as a signed `HH:MM:SS` string.
//! - [`codec`] encodes the record as a single-line JSON object and parses it
//!   back, falling back to the default state on any malformed input.
//! - [`dec`] and [`text`] are the verified decimal and string helpers the
//!   other modules share.

pub mod codec;
pub mod dec;
pub mod engine;
pub mod format;
pub mod state;
pub mod text;
