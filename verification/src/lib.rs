//! A bounded-concurrency dispatch protocol with structured event logging.
//!
//! The heart of the crate is [`dispatch::Dispatcher`], a step-by-step model of
//! a loop that submits work items in order, holds the number of in-flight
//! operations under a configurable ceiling by waiting (with a timeout) for
//! completions, and finally drains every remaining operation without a bound.
//! The surrounding modules cover the scalar configuration knobs and the
//! single-line JSON records the flow emits.

pub mod dispatch;
pub mod json;
pub mod level;
pub mod record;
pub mod startup;
