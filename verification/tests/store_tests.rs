//! The relational store: the controller-win derivation, the write/query
//! round trip, and the migration ladder.

use arenabuddy::cards::CardsDatabase;
use arenabuddy::deck::Deck;
use arenabuddy::migrations::migration_count;
use arenabuddy::migrations::migration_plan;
use arenabuddy::proto::CardCollection;
use arenabuddy::replay::GameResult;
use arenabuddy::replay::MatchReplay;
use arenabuddy::replay::MulliganInfo;
use arenabuddy::store::MatchDB;
use arenabuddy::store::MatchDBError;

fn fresh_db() -> MatchDB {
    let mut db = MatchDB::new(CardsDatabase::from_collection(CardCollection::new()));
    db.init();
    db
}

fn replay_with_results(id: &str, seat: u8, winners: &[u8]) -> MatchReplay {
    MatchReplay {
        match_id: id.to_string(),
        controller_seat_id: seat,
        controller_player_name: "Alice".to_string(),
        opponent_player_name: "Bob".to_string(),
        created_at: "T0".to_string(),
        game_results: winners
            .iter()
            .enumerate()
            .map(|(i, w)| GameResult {
                game_number: (i + 1) as u32,
                winning_seat_id: *w,
                result_reason: "Concede".to_string(),
            })
            .collect(),
        mulligans: vec![MulliganInfo {
            game_number: 1,
            hand: "101,102".to_string(),
            number_to_keep: 6,
            play_draw: "Play".to_string(),
            decision: "keep".to_string(),
            opponent_identity: "Bob".to_string(),
        }],
        decklists: vec![Deck {
            main_deck: vec![(101, 4), (102, 20)],
            sideboard: vec![(103, 2)],
        }],
        raw_events: Vec::new(),
    }
}

#[test]
fn controller_win_is_a_strict_majority() {
    // (winners, controller seat, expected flag)
    let cases: [(&[u8], u8, bool); 6] = [
        (&[1], 1, true),
        (&[2], 1, false),
        (&[1, 2], 1, false),
        (&[1, 2, 1], 1, true),
        (&[2, 2, 1], 1, false),
        (&[], 1, false),
    ];
    for (i, (winners, seat, expected)) in cases.iter().enumerate() {
        let mut db = fresh_db();
        let id = format!("M{i}");
        db.insert_replay(&replay_with_results(&id, *seat, winners))
            .expect("stored");
        let (_, did_controller_win) = db.get_match(&id).expect("found");
        assert_eq!(did_controller_win, *expected, "case {i}");
    }
}

#[test]
fn write_then_read_reconstructs_the_aggregate() {
    let mut db = fresh_db();
    let replay = replay_with_results("M1", 1, &[1, 2, 1]);
    db.insert_replay(&replay).expect("stored");

    let (header, _) = db.get_match("M1").expect("found");
    assert_eq!(header.id, "M1");
    assert_eq!(header.controller_seat_id, 1);
    assert_eq!(header.controller_player_name, "Alice");
    assert_eq!(header.opponent_player_name, "Bob");
    assert_eq!(header.created_at, "T0");

    let decks = db.get_decklists("M1");
    assert_eq!(decks.len(), 1);
    assert_eq!(decks[0].main_deck, vec![(101, 4), (102, 20)]);
    assert_eq!(decks[0].sideboard, vec![(103, 2)]);

    let mulligans = db.get_mulligans("M1");
    assert_eq!(mulligans.len(), 1);
    assert_eq!(mulligans[0].hand, "101,102");

    let results = db.get_match_results("M1");
    assert_eq!(results.len(), 3);
    assert_eq!(results[0].winning_seat_id, 1);
    assert_eq!(results[1].winning_seat_id, 2);
    assert_eq!(results[2].winning_seat_id, 1);
}

#[test]
fn queries_separate_matches() {
    let mut db = fresh_db();
    db.insert_replay(&replay_with_results("A", 1, &[1])).unwrap();
    db.insert_replay(&replay_with_results("B", 2, &[1, 1])).unwrap();
    assert_eq!(db.get_matches().len(), 2);
    assert_eq!(db.get_match_results("A").len(), 1);
    assert_eq!(db.get_match_results("B").len(), 2);
    assert!(matches!(
        db.get_match("C"),
        Err(MatchDBError::NotFound(id)) if id == "C"
    ));
}

#[test]
fn init_twice_is_init_once() {
    let mut db = fresh_db();
    db.insert_replay(&replay_with_results("M1", 1, &[1])).unwrap();
    let version_before = db.schema_version();
    let matches_before = db.get_matches().len();

    db.init();
    assert_eq!(db.schema_version(), version_before);
    assert_eq!(db.get_matches().len(), matches_before);
    assert_eq!(db.get_decklists("M1").len(), 1);
    assert_eq!(db.get_match_results("M1").len(), 1);
}

#[test]
fn migration_plan_is_monotonic_and_idempotent() {
    let total = migration_count();
    assert_eq!(migration_plan(0).len() as u32, total);
    assert_eq!(migration_plan(1).len() as u32, total - 1);
    assert_eq!(migration_plan(total).len(), 0, "a migrated schema gets no step");
    assert_eq!(migration_plan(total + 5).len(), 0);
    let all = migration_plan(0);
    assert!(all[0].contains("matches"));
    assert!(all[1].contains("decks"));
    assert!(all[2].contains("mulligans"));
    assert!(all[3].contains("game_results"));
    assert!(all.iter().all(|s| s.starts_with("CREATE TABLE IF NOT EXISTS")));
}
