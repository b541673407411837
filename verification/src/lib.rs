//! Per-client request admission control.
//!
//! Four interchangeable rate-limiting algorithms decide, for a client
//! identifier, whether a request is admitted: a fixed window counter, a
//! sliding window counter, a sliding window log and a token bucket. They share
//! one capability, [`domain::Limiter`], so that callers need not know which
//! algorithm backs them.
//!
//! Every decision is a verified function of the limiter's state, the client
//! identifier and, for the time-based algorithms, the instant of the request.
//! The only thing taken on trust is the reading of the clock.

pub mod clock;
pub mod domain;
pub mod window_counter;
pub mod sliding_window_counter;
pub mod sliding_window_log;
pub mod token_bucket;
