//! The command surface, as plain data.
//!
//! The option parser lives outside the library and hands over one of
//! these values; the library fixes what each command carries.  Setup
//! failures of the surrounding shell are classified here too.

use vstd::prelude::*;

verus! {

/// One invocation of the tool.
#[derive(Debug)]
pub enum Commands {
    /// Parse the play log, persisting completed replays.
    Parse {
        player_log: String,
        output_dir: Option<String>,
        db: Option<String>,
        cards_db: Option<String>,
        debug: bool,
        follow: bool,
    },
    /// Fetch card data from the public sources.
    Scrape { scryfall_host: String, seventeen_lands_host: String, output_dir: String },
    /// Merge fetched card data into a catalog file.
    Process {
        scryfall_cards_file: String,
        seventeen_lands_file: String,
        reduced_arena_out: String,
        merged_out: String,
    },
    /// Empty the scrape data directory.
    Clean { dir: String },
    /// Convert card data between formats.
    Convert { action: ConvertAction },
}

/// The conversion sub-commands.
#[derive(Debug)]
pub enum ConvertAction {
    /// Convert JSON card data to the binary catalog format.
    JsonToProto { input: String, output: String },
    /// Summarize a catalog file.
    Info { file: String },
}

/// Why the surrounding shell could not start.
#[derive(Clone, Copy, Debug, PartialEq, Eq, Structural)]
pub enum ArenaBuddySetupError {
    CorruptedAppData,
    LogSetupFailure,
    MatchesDatabaseInitializationFailure,
    NoCardsDatabase,
    NoHomeDir,
    NoMathchesDatabase,
    UnsupportedOS,
}

impl ArenaBuddySetupError {
    /// A short description of the failure.
    pub fn message(&self) -> (r: String)
        ensures
            r@ == match self {
                ArenaBuddySetupError::CorruptedAppData => "App data is corrupted"@,
                ArenaBuddySetupError::LogSetupFailure => "Could not setup logging"@,
                ArenaBuddySetupError::MatchesDatabaseInitializationFailure => {
                    "Matches db initialization failure"@
                },
                ArenaBuddySetupError::NoCardsDatabase => "Cards database not found"@,
                ArenaBuddySetupError::NoHomeDir => "Home directory not found"@,
                ArenaBuddySetupError::NoMathchesDatabase => "Matches database not found"@,
                ArenaBuddySetupError::UnsupportedOS => "Unsupported operating system"@,
            },
    {
        let text: &str = match self {
            ArenaBuddySetupError::CorruptedAppData => "App data is corrupted",
            ArenaBuddySetupError::LogSetupFailure => "Could not setup logging",
            ArenaBuddySetupError::MatchesDatabaseInitializationFailure => {
                "Matches db initialization failure"
            },
            ArenaBuddySetupError::NoCardsDatabase => "Cards database not found",
            ArenaBuddySetupError::NoHomeDir => "Home directory not found",
            ArenaBuddySetupError::NoMathchesDatabase => "Matches database not found",
            ArenaBuddySetupError::UnsupportedOS => "Unsupported operating system",
        };
        text.to_owned()
    }
}

} // verus!
