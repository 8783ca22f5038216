//! A single-threaded, poll-based cooperative task scheduler.
//!
//! Tasks implement [`promises::Promise`]; a [`poller::Poller`] owns the active
//! set of tasks, polls them in sweeps, removes each one as soon as it reaches a
//! terminal outcome and schedules whatever its continuation returns.
//! [`timers`] holds one-shot and recurring timer tasks; [`reply`] and
//! [`clients`] hold the request handling and connection bookkeeping of a
//! small non-blocking HTTP greeter built on the scheduler.

pub mod clients;
pub mod poller;
pub mod promises;
pub mod reply;
pub mod timers;
