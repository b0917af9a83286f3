//! End-to-end scenarios: the event fixtures are fed through the decoder
//! and the assembler, and the outcome is checked against the expected
//! replay and store behaviour.

use arenabuddy::cards::CardsDatabase;
use arenabuddy::display::Mulligan;
use arenabuddy::events::Decoder;
use arenabuddy::events::Event;
use arenabuddy::pipeline::ingest_line;
use arenabuddy::proto::CardCollection;
use arenabuddy::replay::BuilderPhase;
use arenabuddy::replay::MatchReplay;
use arenabuddy::replay::MatchReplayBuilder;
use arenabuddy::store::MatchDB;
use arenabuddy::store::MatchDBError;
use arenabuddy::tailer::Tailer;

fn empty_cards() -> CardsDatabase {
    CardsDatabase::from_collection(CardCollection::new())
}

fn run_lines(lines: &[&str]) -> Option<MatchReplay> {
    let mut decoder = Decoder::new();
    let mut builder = MatchReplayBuilder::new();
    let mut replay = None;
    for line in lines {
        if let Some(result) = ingest_line(&mut decoder, &mut builder, line) {
            replay = Some(result.expect("replay should build"));
        }
    }
    replay
}

const S1_LINES: [&str; 4] = [
    "MatchStart|M1|1|Alice|Bob|T0",
    "DecklistSubmission|101:4,102:20|",
    "GameEnd|1|1|Concede",
    "MatchEnd",
];

#[test]
fn s1_minimal_match() {
    let mut decoder = Decoder::new();
    let mut builder = MatchReplayBuilder::new();
    for line in &S1_LINES[..3] {
        let ev = decoder.decode(line);
        assert!(!builder.ingest(ev));
    }
    let ev = decoder.decode(S1_LINES[3]);
    assert!(builder.ingest(ev), "MatchEnd completes the match");
    let replay = builder.build().expect("S1 builds");
    assert_eq!(replay.match_id, "M1");
    assert_eq!(replay.controller_seat_id, 1);
    assert_eq!(replay.controller_player_name, "Alice");
    assert_eq!(replay.opponent_player_name, "Bob");
    assert_eq!(replay.created_at, "T0");
    assert_eq!(replay.decklists.len(), 1);
    assert_eq!(replay.decklists[0].main_deck, vec![(101, 4), (102, 20)]);
    assert_eq!(replay.game_results.len(), 1);
    assert_eq!(replay.game_results[0].winning_seat_id, 1);
    assert_eq!(replay.game_results[0].result_reason, "Concede");

    let mut db = MatchDB::new(empty_cards());
    db.init();
    db.insert_replay(&replay).expect("first write succeeds");
    let (header, did_controller_win) = db.get_match("M1").expect("stored");
    assert_eq!(header.controller_player_name, "Alice");
    assert!(did_controller_win);
}

#[test]
fn s2_mulligan_path() {
    let lines = [
        "MatchStart|M1|1|Alice|Bob|T0",
        "MulliganDecision|1|101,101,102,102,102,102,102|6|Play|mulligan|Bob",
        "DecklistSubmission|101:4,102:20|",
        "GameEnd|1|1|Concede",
        "MatchEnd",
    ];
    let replay = run_lines(&lines).expect("S2 completes");
    assert_eq!(replay.mulligans.len(), 1);
    let info = &replay.mulligans[0];
    assert_eq!(info.game_number, 1);
    assert_eq!(info.number_to_keep, 6);
    assert_eq!(info.play_draw, "Play");
    assert_eq!(info.decision, "mulligan");
    let shown = Mulligan::from_mulligan_info(info, &empty_cards());
    assert_eq!(shown.hand.len(), 7, "hand length is 7");
}

#[test]
fn s3_rotation_mid_match() {
    let mut tailer = Tailer::new();
    let mut decoder = Decoder::new();
    let mut builder = MatchReplayBuilder::new();
    let mut emitted = None;

    // The first two events arrive before the rotation.
    let first = format!("{}\n{}\n", S1_LINES[0], S1_LINES[1]);
    let start = tailer.read_from(first.len() as u64);
    assert_eq!(start, 0);
    for line in tailer.feed(&first) {
        if let Some(result) = ingest_line(&mut decoder, &mut builder, &line) {
            emitted = Some(result.expect("builds"));
        }
    }

    // The file is rotated: the tailer restarts at offset zero of the new
    // content.
    tailer.reset();
    let second = format!("{}\n{}\n", S1_LINES[2], S1_LINES[3]);
    let start = tailer.read_from(second.len() as u64);
    assert_eq!(start, 0);
    for line in tailer.feed(&second) {
        if let Some(result) = ingest_line(&mut decoder, &mut builder, &line) {
            emitted = Some(result.expect("builds"));
        }
    }

    let replay = emitted.expect("S3 completes");
    let direct = run_lines(&S1_LINES).expect("S1 completes");
    assert_eq!(replay.match_id, direct.match_id);
    assert_eq!(replay.controller_seat_id, direct.controller_seat_id);
    assert_eq!(replay.controller_player_name, direct.controller_player_name);
    assert_eq!(replay.opponent_player_name, direct.opponent_player_name);
    assert_eq!(replay.created_at, direct.created_at);
    assert_eq!(replay.decklists.len(), direct.decklists.len());
    assert_eq!(replay.decklists[0].main_deck, direct.decklists[0].main_deck);
    assert_eq!(replay.game_results.len(), direct.game_results.len());
    assert_eq!(
        replay.game_results[0].winning_seat_id,
        direct.game_results[0].winning_seat_id
    );
    assert_eq!(replay.raw_events.len(), direct.raw_events.len());
}

#[test]
fn s4_malformed_line() {
    let garbage = "\u{0}garbage\u{0}";
    let lines = [
        "MatchStart|M1|1|Alice|Bob|T0",
        garbage,
        "DecklistSubmission|101:4,102:20|",
        "GameEnd|1|1|Concede",
        "MatchEnd",
    ];
    let mut decoder = Decoder::new();
    let probe = decoder.decode(garbage);
    assert!(matches!(probe.event, Event::Unknown { .. }));

    let replay = run_lines(&lines).expect("S4 still builds");
    assert_eq!(replay.raw_events.len(), 5);
    assert_eq!(replay.raw_events[1].raw, garbage);
    assert!(matches!(replay.raw_events[1].event, Event::Unknown { .. }));
}

#[test]
fn checkpointed_assembler_matches_fresh() {
    // Feeding the stream in two halves leaves the assembler exactly
    // where feeding it whole does.
    let fresh = run_lines(&S1_LINES).expect("whole stream completes");

    let mut decoder = Decoder::new();
    let mut builder = MatchReplayBuilder::new();
    for line in &S1_LINES[..2] {
        let ev = decoder.decode(line);
        builder.ingest(ev);
    }
    // The checkpoint: the assembler simply holds its state between
    // halves.
    let mut halved = None;
    for line in &S1_LINES[2..] {
        let ev = decoder.decode(line);
        if builder.ingest(ev) {
            halved = Some(builder.build().expect("builds"));
        }
    }
    let halved = halved.expect("second half completes");
    assert_eq!(halved.match_id, fresh.match_id);
    assert_eq!(halved.controller_seat_id, fresh.controller_seat_id);
    assert_eq!(halved.decklists.len(), fresh.decklists.len());
    assert_eq!(halved.decklists[0].main_deck, fresh.decklists[0].main_deck);
    assert_eq!(halved.game_results.len(), fresh.game_results.len());
    assert_eq!(halved.mulligans.len(), fresh.mulligans.len());
    assert_eq!(halved.raw_events.len(), fresh.raw_events.len());
}

#[test]
fn s5_missing_match_id() {
    let mut decoder = Decoder::new();
    let mut builder = MatchReplayBuilder::new();
    let ev = decoder.decode("DecklistSubmission|101:4|");
    assert!(!builder.ingest(ev), "no match is open");
    let ev = decoder.decode("MatchEnd");
    assert!(!builder.ingest(ev), "ingest never returns true");
    assert_eq!(builder.phase(), BuilderPhase::Idle);
    assert_eq!(builder.discarded(), 2);
}

#[test]
fn s6_duplicate_match_id() {
    let first = run_lines(&S1_LINES).expect("S1 completes");
    let second = run_lines(&S1_LINES).expect("S1 completes again");

    let mut db = MatchDB::new(empty_cards());
    db.init();
    db.insert_replay(&first).expect("first copy stored");
    let err = db.insert_replay(&second);
    assert!(matches!(err, Err(MatchDBError::DuplicateMatch(id)) if id == "M1"));

    // The first copy is unchanged.
    assert_eq!(db.get_matches().len(), 1);
    let (header, did_controller_win) = db.get_match("M1").expect("still stored");
    assert_eq!(header.controller_player_name, "Alice");
    assert!(did_controller_win);
}
