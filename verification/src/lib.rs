//! Core of a distributed task-execution worker: a typed task registry, the
//! per-delivery tracer state machine (timeouts, retries, ETA handling,
//! acknowledgement discipline), the dispatcher's delivery plan, and the
//! consume loop with two-phase graceful shutdown.
//!
//! The asynchronous transport (broker adapters, signal handling, timers)
//! lives outside this crate; every decision the worker makes is a verified
//! function here, from plain values to plain values.
pub mod celery;
pub mod codec;
pub mod consume;
pub mod dispatch;
pub mod errors;
pub mod events;
pub mod options;
pub mod protocol;
pub mod registry;
pub mod tracer;
