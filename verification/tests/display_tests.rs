//! Display records, hands, and the assembled match details.

use arenabuddy::cards::CardType;
use arenabuddy::cards::CardsDatabase;
use arenabuddy::display::match_details;
use arenabuddy::display::CardDisplayRecord;
use arenabuddy::display::Mulligan;
use arenabuddy::deck::Deck;
use arenabuddy::proto::Card;
use arenabuddy::proto::CardCollection;
use arenabuddy::replay::GameResult;
use arenabuddy::replay::MatchReplay;
use arenabuddy::replay::MulliganInfo;
use arenabuddy::store::MatchDB;

fn ruby_db() -> CardsDatabase {
    let mut collection = CardCollection::new();
    let mut card = Card::new(101, "one".to_string(), "Ruby".to_string());
    card.cmc = 2;
    card.type_line = "Creature Gem".to_string();
    card.image_uri = "uri".to_string();
    collection.add_card(card);
    CardsDatabase::from_collection(collection)
}

#[test]
fn records_resolve_known_ids_and_fall_back() {
    let db = ruby_db();
    let mulligan = Mulligan::new(
        "101,9,junk,101",
        "Bob".to_string(),
        1,
        6,
        "Play".to_string(),
        "keep".to_string(),
        &db,
    );
    // "junk" is dropped; the other three resolve or fall back.
    assert_eq!(mulligan.hand.len(), 3);
    assert_eq!(mulligan.hand[0].name, "Ruby");
    assert_eq!(mulligan.hand[0].type_field, CardType::Creature);
    assert_eq!(mulligan.hand[0].mana_value, 2);
    assert_eq!(mulligan.hand[0].quantity, 1);
    assert_eq!(mulligan.hand[1].name, "9");
    assert_eq!(mulligan.hand[1].type_field, CardType::Unknown);
    assert_eq!(mulligan.hand[2].name, "Ruby");
}

#[test]
fn new_record_defaults() {
    let r = CardDisplayRecord::new("X".to_string());
    assert_eq!(r.name, "X");
    assert_eq!(r.type_field, CardType::Unknown);
    assert_eq!(r.quantity, 0);
    let d = CardDisplayRecord::default();
    assert_eq!(d.name, "Unknown");
}

#[test]
fn match_details_assembles_the_aggregate() {
    let mut db = MatchDB::new(ruby_db());
    db.init();
    let replay = MatchReplay {
        match_id: "M1".to_string(),
        controller_seat_id: 1,
        controller_player_name: "Alice".to_string(),
        opponent_player_name: "Bob".to_string(),
        created_at: "T0".to_string(),
        game_results: vec![GameResult {
            game_number: 1,
            winning_seat_id: 1,
            result_reason: "Concede".to_string(),
        }],
        mulligans: vec![MulliganInfo {
            game_number: 1,
            hand: "101".to_string(),
            number_to_keep: 6,
            play_draw: "Play".to_string(),
            decision: "keep".to_string(),
            opponent_identity: "Bob".to_string(),
        }],
        decklists: vec![
            Deck { main_deck: vec![(101, 4)], sideboard: vec![] },
            Deck { main_deck: vec![(101, 2), (102, 2)], sideboard: vec![] },
        ],
        raw_events: Vec::new(),
    };
    db.insert_replay(&replay).expect("stored");

    let details = match_details(&db, "M1");
    assert_eq!(details.id, "M1");
    assert!(details.did_controller_win);
    assert_eq!(details.controller_player_name, "Alice");
    assert_eq!(details.decklists.len(), 2);
    assert!(details.primary_decklist.is_some());
    assert_eq!(
        details.primary_decklist.as_ref().unwrap().main_deck,
        vec![(101, 4)]
    );
    let diffs = details.differences.expect("both lists are diffable");
    assert_eq!(diffs.len(), 1);
    assert_eq!(diffs[0].added, vec![(102, 2)]);
    assert_eq!(diffs[0].removed, vec![(101, 2)]);
    assert_eq!(details.game_results.len(), 1);
    assert_eq!(details.mulligans.len(), 1);
    assert_eq!(details.mulligans[0].hand[0].name, "Ruby");

    let missing = match_details(&db, "nope");
    assert_eq!(missing.id, "nope");
    assert!(!missing.did_controller_win);
    assert!(missing.decklists.is_empty());
    assert!(missing.primary_decklist.is_none());
}
