//! A single-worker actor wrapper: a value is moved into a `Subsystem`,
//! all access to it is funnelled through a FIFO dispatch queue, and each
//! scheduled operation delivers its result back through a per-call handle.
//!
//! The `subsystem` module holds the wrapper itself; `substringer` and
//! `counter` are two small payload types that exercise it.

pub mod counter;
pub mod substringer;
pub mod subsystem;
