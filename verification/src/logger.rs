//! A sink for debug messages.
//!
//! Logging is advisory: nothing that the library computes depends on it.
use vstd::prelude::*;

verus! {

/// A sink for debug messages.
pub trait Logger {
    /// Takes one message.
    fn log_debug(&self, message: &str);
}

/// A logger that discards every message.
pub struct NullLogger;

impl Logger for NullLogger {
    fn log_debug(&self, _message: &str) {
    }
}

} // verus!
