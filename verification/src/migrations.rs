//! The relational schema's declarative migration ladder.
//!
//! Each step has an index and an idempotent `up` statement; `init`
//! obtains the current schema index, applies the missing steps in order
//! and records the new index.  The ladder is monotonic: a database at the
//! latest index gets an empty plan, so running `init` twice is
//! observationally equivalent to running it once.

use vstd::prelude::*;

verus! {

/// How many steps the ladder has.
pub open spec fn spec_migration_count() -> int {
    4
}

/// The number of steps in the ladder.
pub fn migration_count() -> (n: u32)
    ensures
        n == spec_migration_count(),
{
    4
}

/// The `up` statement of each step: the schema is the contract, so the
/// statements themselves are fixed here, text for text.
pub open spec fn spec_migration_statement(index: int) -> Seq<char> {
    if index == 0 {
        "CREATE TABLE IF NOT EXISTS matches (id TEXT PRIMARY KEY, controller_seat_id INTEGER, controller_player_name TEXT, opponent_player_name TEXT, created_at TEXT)"@
    } else if index == 1 {
        "CREATE TABLE IF NOT EXISTS decks (match_id TEXT, deck_index INTEGER, main_deck BLOB, sideboard BLOB, FOREIGN KEY(match_id) REFERENCES matches(id))"@
    } else if index == 2 {
        "CREATE TABLE IF NOT EXISTS mulligans (match_id TEXT, game_number INTEGER, hand TEXT, opponent_identity TEXT, number_to_keep INTEGER, play_draw TEXT, decision TEXT, FOREIGN KEY(match_id) REFERENCES matches(id))"@
    } else {
        "CREATE TABLE IF NOT EXISTS game_results (match_id TEXT, game_number INTEGER, winning_seat_id INTEGER, result_reason TEXT, FOREIGN KEY(match_id) REFERENCES matches(id))"@
    }
}

/// The `up` statement of one step.
fn migration_step(index: u32) -> (s: String)
    requires
        index < spec_migration_count(),
    ensures
        s@ == spec_migration_statement(index as int),
{
    if index == 0 {
        "CREATE TABLE IF NOT EXISTS matches (id TEXT PRIMARY KEY, controller_seat_id INTEGER, controller_player_name TEXT, opponent_player_name TEXT, created_at TEXT)".to_owned()
    } else if index == 1 {
        "CREATE TABLE IF NOT EXISTS decks (match_id TEXT, deck_index INTEGER, main_deck BLOB, sideboard BLOB, FOREIGN KEY(match_id) REFERENCES matches(id))".to_owned()
    } else if index == 2 {
        "CREATE TABLE IF NOT EXISTS mulligans (match_id TEXT, game_number INTEGER, hand TEXT, opponent_identity TEXT, number_to_keep INTEGER, play_draw TEXT, decision TEXT, FOREIGN KEY(match_id) REFERENCES matches(id))".to_owned()
    } else {
        "CREATE TABLE IF NOT EXISTS game_results (match_id TEXT, game_number INTEGER, winning_seat_id INTEGER, result_reason TEXT, FOREIGN KEY(match_id) REFERENCES matches(id))".to_owned()
    }
}

/// The `up` statements still missing from a database whose schema index
/// is `current`, in the order they must run, each fixed text for text.
/// A database already at the latest index gets an empty plan.
pub fn migration_plan(current: u32) -> (steps: Vec<String>)
    ensures
        current < spec_migration_count() ==> steps@.len() == spec_migration_count() - current,
        current >= spec_migration_count() ==> steps@.len() == 0,
        forall|i: int|
            0 <= i < steps@.len() ==> #[trigger] steps@[i]@ == spec_migration_statement(
                current + i,
            ),
{
    let mut steps: Vec<String> = Vec::new();
    let total = migration_count();
    let mut i: u32 = current;
    while i < total
        invariant
            current <= i,
            i <= total || i == current,
            total == spec_migration_count(),
            steps@.len() == i - current,
            forall|k: int|
                0 <= k < steps@.len() ==> #[trigger] steps@[k]@ == spec_migration_statement(
                    current + k,
                ),
        decreases total - i,
    {
        steps.push(migration_step(i));
        i = i + 1;
    }
    steps
}

} // verus!
