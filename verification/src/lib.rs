//! Reconstruction of completed card-game matches from a continuously written
//! play log.
//!
//! The library is organised around a small pipeline: an incremental log
//! tailer turns a growing file into completed lines, an event decoder turns
//! lines into typed events, and a replay assembler folds events into a
//! completed match replay.  Completed replays are handed to storage sinks;
//! the relational sink is modelled here table by table, together with its
//! migration ladder, so that the query surface can be specified exactly.

pub mod cards;
pub mod cli;
pub mod collector;
pub mod deck;
pub mod display;
pub mod events;
pub mod json;
pub mod mana;
pub mod migrations;
pub mod pipeline;
pub mod proto;
pub mod proto_utils;
pub mod replay;
pub mod storage;
pub mod store;
pub mod tailer;
pub mod text;
pub mod wire;

use vstd::prelude::*;

verus! {

/// Relies on `core::mem::replace`: moves `src` into `dest` and returns
/// the value `dest` held before.
pub assume_specification<T>[ core::mem::replace ](dest: &mut T, src: T) -> (r: T)
    ensures
        *final(dest) == src,
        r == *old(dest),
;

/// Errors raised while turning raw log lines into events.
#[derive(Debug)]
pub enum ParseError {
    /// No further event is available from the source.
    NoEvent,
    /// A line could not be understood; the message is kept for diagnostics.
    Error(String),
}

/// Errors of the card reference database and its catalog file.
#[derive(Debug)]
pub enum Error {
    /// The catalog file cannot be opened.
    DatabaseNotFound,
    /// The catalog bytes do not spell a valid collection.
    DecodeError,
    /// The named item is not stored.
    NotFound(String),
}

} // verus!
