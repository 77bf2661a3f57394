//! A TCP tarpit engine: connection admission, a timer wheel that schedules
//! one trickle write per connection per rotation, and the bookkeeping that
//! turns sustained backpressure into a bounded timeout.
//!
//! The library holds all decisions; sockets, timers and signals are driven
//! by the caller, which reports what happened and acts on what it is told.

pub mod banner;
pub mod connection;
pub mod control;
pub mod elapsed;
pub mod error;
pub mod peer_addr;
pub mod retain_unordered;
pub mod seq_facts;
pub mod wheel;
