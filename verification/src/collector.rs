//! A bounded-by-memory side channel of stringified parser messages.
//!
//! The ingest loop pushes every recoverable parse failure here so that a
//! user-facing shell can display them for diagnosis.

use vstd::prelude::*;

verus! {

/// Accumulates diagnostic log lines in arrival order.
pub struct LogCollector {
    logs: Vec<String>,
}

impl View for LogCollector {
    type V = Seq<String>;

    closed spec fn view(&self) -> Seq<String> {
        self.logs@
    }
}

impl LogCollector {
    /// Creates an empty collector.
    pub fn new() -> (c: LogCollector)
        ensures
            c@.len() == 0,
    {
        LogCollector { logs: Vec::new() }
    }

    /// Appends one message; earlier messages are kept in order.
    pub fn ingest(&mut self, log: String)
        ensures
            final(self)@ == old(self)@.push(log),
    {
        self.logs.push(log);
    }

    /// All messages collected so far, oldest first.
    pub fn get(&self) -> (r: &Vec<String>)
        ensures
            r@ == self@,
    {
        &self.logs
    }
}

} // verus!
