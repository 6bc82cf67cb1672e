//! The core of an edge-triggered TCP server: framed messages are read
//! from many connections as they become readable, and each complete
//! message is routed to a pool of workers.
//!
//! The core does no I/O. It holds the list of live connections and the
//! counters, cuts the received bytes into messages, and decides what the
//! listener and the readiness loop do next; they perform it and report
//! back.
//!
//! - `frame`: the wire format of a message, and its laws.
//! - `stream`: a connection's receive buffer and the course of a receive.
//! - `registry`: the list of live connections.
//! - `readiness`: event masks and return values of the readiness facility.
//! - `task`: what is handed to the workers, and the request for statistics.
//! - `pool`: the turn among the workers.
//! - `stats`: the counters.
//! - `server`: the admission of a connection and the handling of an event.
//! - `laws`: what is delivered, in what order, and what never is.
//! - `history`: what holds after every sequence of operations.

pub mod frame;
pub mod history;
pub mod laws;
pub mod pool;
pub mod readiness;
pub mod registry;
pub mod server;
pub mod stats;
pub mod stream;
pub mod task;
