//! Instrumented locks that record when they are entered and left, and a
//! renderer that lays the recorded spans out on a time axis.
//!
//! A [`TracingContext`] holds the capture state and the recorded events,
//! sharded by thread slot. Lock wrappers call [`TracingContext::acquire`]
//! when they are locked and [`TracingContext::leave`] when their guard is
//! released. [`TracingContext::drain`] takes the events out, and
//! [`html::render`] lays them out as a document.

pub mod event;
pub mod fake_context;
pub mod html;
pub mod tracing_context;

pub use self::event::{Event, EventBacktrace, EventId, Events, Leave, LockId, LockKind};
pub use self::tracing_context::{capture, drain, EventIdsExhausted, ThreadStorage, TracingContext};
