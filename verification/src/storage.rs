//! The storage capability and the directory sink's pure core.
//!
//! Sinks consume completed replays; they are invoked in registration
//! order and a failure in one does not skip the next.  The relational
//! store implements the capability directly; the directory sink's file
//! writing happens outside the library, which only fixes the file name
//! and the document.

use vstd::prelude::*;

verus! {

use vstd::string::StringExecFns;
use crate::replay::MatchReplay;
use crate::store::MatchDB;
use crate::store::MatchDBError;

/// Why a sink could not persist a replay.
#[derive(Debug)]
pub enum StorageError {
    /// The sink already holds a replay with this match id.
    DuplicateMatch(String),
    /// The sink could not be written; the message says why.
    WriteFailed(String),
}

/// A consumer of completed replays.
pub trait Storage {
    /// Persists one replay, or reports why it could not be persisted.
    fn write(&mut self, match_replay: &MatchReplay) -> Result<(), StorageError>;
}

impl Storage for MatchDB {
    /// Writes the replay into the relational tables as one transaction;
    /// a repeated match id is a duplicate error, and any failure changes
    /// nothing.
    fn write(&mut self, match_replay: &MatchReplay) -> (r: Result<(), StorageError>)
        ensures
            r is Ok <==> (match_replay.decklists@.len() <= u32::MAX && !crate::store::spec_has_match(
                old(self)@.matches,
                match_replay@.match_id,
            )),
            r is Ok ==> final(self)@ == crate::store::insert_spec(old(self)@, match_replay@),
            r is Err ==> final(self)@ == old(self)@,
            r is Err && match_replay.decklists@.len() <= u32::MAX ==> (r->Err_0 matches StorageError::DuplicateMatch(
                id,
            ) && id@ == match_replay@.match_id),
    {
        if match_replay.decklists.len() > 0xffff_ffff {
            return Err(
                StorageError::WriteFailed("too many decklist submissions".to_owned()),
            );
        }
        match self.insert_replay(match_replay) {
            Ok(()) => Ok(()),
            Err(MatchDBError::DuplicateMatch(id)) => Err(StorageError::DuplicateMatch(id)),
            Err(MatchDBError::NotFound(id)) => Err(StorageError::WriteFailed(id)),
        }
    }
}

/// The file a replay is written to: one JSON document per match id.
pub fn replay_file_name(match_id: &str) -> (r: String)
    ensures
        r@ == match_id@ + ".json"@,
{
    let mut name = match_id.to_owned();
    name.append(".json");
    name
}

/// The filesystem sink: one JSON document per replay in a caller-provided
/// directory, re-writing overwrites, no indexing.  The surrounding
/// program performs the file writes; the backend fixes the directory.
pub struct DirectoryStorageBackend {
    path: String,
}

impl View for DirectoryStorageBackend {
    type V = Seq<char>;

    closed spec fn view(&self) -> Seq<char> {
        self.path@
    }
}

impl DirectoryStorageBackend {
    /// A backend writing into the given directory.
    pub fn new(path: String) -> (b: DirectoryStorageBackend)
        ensures
            b@ == path@,
    {
        DirectoryStorageBackend { path }
    }

    /// The directory written into.
    pub fn path(&self) -> (r: &String)
        ensures
            r@ == self@,
    {
        &self.path
    }
}

/// The same filesystem sink, as the storage layer names it.
pub struct DirectoryStorage {
    path: String,
}

impl View for DirectoryStorage {
    type V = Seq<char>;

    closed spec fn view(&self) -> Seq<char> {
        self.path@
    }
}

impl DirectoryStorage {
    /// A sink writing into the given directory.
    pub fn new(path: String) -> (b: DirectoryStorage)
        ensures
            b@ == path@,
    {
        DirectoryStorage { path }
    }

    /// The directory written into.
    pub fn path(&self) -> (r: &String)
        ensures
            r@ == self@,
    {
        &self.path
    }
}

} // verus!
