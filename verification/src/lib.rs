//! Admission control for concurrent work.
//!
//! A [`limiter::Limiter`] combines a cap on simultaneous executions, a minimum
//! spacing between admissions and any number of rolling windows. The library is
//! a deterministic core: every function takes the current reading of the
//! caller's monotonic clock as a plain number of ticks and answers with the new
//! state and with what the caller has to do next (run, sleep, wait for a
//! release, signal a release). Locks, timers and wake-ups stay with the caller.
pub mod admission;
pub mod history;
pub mod invariants;
pub mod limiter;
pub mod order;
pub mod progress;
