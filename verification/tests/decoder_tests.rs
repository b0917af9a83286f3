//! Decoder totality and field extraction on concrete lines.

use arenabuddy::events::AnnotationType;
use arenabuddy::events::Decoder;
use arenabuddy::events::Event;

#[test]
fn every_line_decodes() {
    let mut d = Decoder::new();
    let lines = [
        "",
        "|",
        "garbage",
        "\u{0}\u{1}\u{2}",
        "MatchStart",
        "MatchStart|too|few",
        "MatchEnd|extra",
        "GameEnd|x|1|Concede",
        "DecklistSubmission|101:|",
    ];
    for (i, line) in lines.iter().enumerate() {
        let ev = d.decode(line);
        assert_eq!(ev.seq, i as u64, "sequence number counts calls");
        assert_eq!(ev.raw, *line);
        assert!(matches!(ev.event, Event::Unknown { .. }));
    }
}

#[test]
fn sequence_strictly_increases() {
    let mut d = Decoder::new();
    let a = d.decode("MatchEnd");
    let b = d.decode("MatchEnd");
    let c = d.decode("anything");
    assert!(a.seq < b.seq && b.seq < c.seq);
}

#[test]
fn match_start_fields() {
    let mut d = Decoder::new();
    let ev = d.decode("MatchStart|M7|2|Ann|Ben|2024-01-01T00:00:00Z");
    match ev.event {
        Event::MatchStart {
            id,
            controller_seat_id,
            controller,
            opponent,
            created_at,
        } => {
            assert_eq!(id, "M7");
            assert_eq!(controller_seat_id, 2);
            assert_eq!(controller, "Ann");
            assert_eq!(opponent, "Ben");
            assert_eq!(created_at, "2024-01-01T00:00:00Z");
        }
        other => panic!("wrong event: {other:?}"),
    }
}

#[test]
fn framing_noise_is_stripped() {
    let mut d = Decoder::new();
    let ev = d.decode("[12:00:01] [INFO] MatchEnd");
    assert!(matches!(ev.event, Event::MatchEnd));

    let ev = d.decode("  [UTC 2024] GameStart|2");
    assert!(matches!(ev.event, Event::GameStart { game_number: 2 }));
}

#[test]
fn seat_ids_are_range_checked() {
    let mut d = Decoder::new();
    let ev = d.decode("MatchStart|M1|3|A|B|T0");
    assert!(matches!(ev.event, Event::Unknown { malformed: true }));
    let ev = d.decode("GameEnd|1|0|Concede");
    assert!(matches!(ev.event, Event::Unknown { malformed: true }));
}

#[test]
fn decklist_pairs_parse() {
    let mut d = Decoder::new();
    let ev = d.decode("DecklistSubmission|1:4,2:2|9:15");
    match ev.event {
        Event::DecklistSubmission { deck } => {
            assert_eq!(deck.main_deck, vec![(1, 4), (2, 2)]);
            assert_eq!(deck.sideboard, vec![(9, 15)]);
        }
        other => panic!("wrong event: {other:?}"),
    }

    let ev = d.decode("DecklistSubmission||");
    match ev.event {
        Event::DecklistSubmission { deck } => {
            assert!(deck.main_deck.is_empty());
            assert!(deck.sideboard.is_empty());
        }
        other => panic!("wrong event: {other:?}"),
    }
}

#[test]
fn annotations_and_reveals() {
    let mut d = Decoder::new();
    let ev = d.decode("AnnotationResolution|AnnotationType_ResolutionStart|payload");
    match ev.event {
        Event::AnnotationResolution { kind, payload } => {
            assert_eq!(kind, AnnotationType::ResolutionStart);
            assert_eq!(payload, "payload");
        }
        other => panic!("wrong event: {other:?}"),
    }
    let ev = d.decode("CardRevealed|93958");
    assert!(matches!(ev.event, Event::CardRevealed { grp_id: 93958 }));
    let ev = d.decode("AnnotationResolution|AnnotationType_Nonsense|x");
    assert!(matches!(ev.event, Event::Unknown { malformed: true }));
}
