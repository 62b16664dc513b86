//! Hand-built futures, timers and executors, modelled on integer time.
//!
//! Time is counted in nanoseconds (`u64`) from an origin that the caller picks.
//! The clock is read by the caller and handed in; every decision that a poll, a
//! combinator or a runtime loop takes on that time is verified here.
pub mod poll;
pub mod context;
pub mod future;
pub mod sleep;
pub mod work;
pub mod start_end;
pub mod combinators;
pub mod wakers;
pub mod job;
pub mod echo;
pub mod executor;
