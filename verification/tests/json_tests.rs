//! The directory sink's document and file naming.

use arenabuddy::deck::Deck;
use arenabuddy::replay::GameResult;
use arenabuddy::replay::MatchReplay;
use arenabuddy::storage::replay_file_name;
use arenabuddy::storage::DirectoryStorage;
use arenabuddy::storage::DirectoryStorageBackend;
use arenabuddy::json::replay_document;

#[test]
fn file_name_is_the_match_id() {
    assert_eq!(replay_file_name("M1"), "M1.json");
    assert_eq!(replay_file_name(""), ".json");
}

#[test]
fn backends_keep_their_paths() {
    let b = DirectoryStorageBackend::new("/tmp/replays".to_string());
    assert_eq!(b.path(), "/tmp/replays");
    let d = DirectoryStorage::new("out".to_string());
    assert_eq!(d.path(), "out");
}

#[test]
fn document_spells_the_aggregate() {
    let replay = MatchReplay {
        match_id: "M1".to_string(),
        controller_seat_id: 1,
        controller_player_name: "Alice".to_string(),
        opponent_player_name: "Bob \"B\"".to_string(),
        created_at: "T0".to_string(),
        game_results: vec![GameResult {
            game_number: 1,
            winning_seat_id: 1,
            result_reason: "Concede".to_string(),
        }],
        mulligans: Vec::new(),
        decklists: vec![Deck { main_deck: vec![(101, 4), (102, 20)], sideboard: vec![] }],
        raw_events: Vec::new(),
    };
    let document = replay_document(&replay);
    let mut expected = String::new();
    expected.push_str("{\"match_id\":\"M1\",\"controller_seat_id\":1,");
    expected.push_str("\"controller_player_name\":\"Alice\",");
    expected.push_str("\"opponent_player_name\":\"Bob \\\"B\\\"\",");
    expected.push_str("\"created_at\":\"T0\",");
    expected.push_str("\"game_results\":[{\"game_number\":1,\"winning_seat_id\":1,");
    expected.push_str("\"result_reason\":\"Concede\"}],");
    expected.push_str("\"mulligans\":[],");
    expected.push_str("\"decklists\":[{\"main_deck\":[[101,4],[102,20]],\"sideboard\":[]}],");
    expected.push_str("\"raw_events\":[]}");
    assert_eq!(document, expected);
}

#[test]
fn control_characters_are_escaped() {
    let replay = MatchReplay {
        match_id: "a\nb".to_string(),
        controller_seat_id: 2,
        controller_player_name: String::new(),
        opponent_player_name: String::new(),
        created_at: String::new(),
        game_results: Vec::new(),
        mulligans: Vec::new(),
        decklists: Vec::new(),
        raw_events: Vec::new(),
    };
    let document = replay_document(&replay);
    assert!(document.starts_with("{\"match_id\":\"a\\u000ab\""));
}
