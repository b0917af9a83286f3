//! The ingest loop's decisions, the assembler's edges, and the text
//! helpers behind the parsers.

use arenabuddy::cli::ArenaBuddySetupError;
use arenabuddy::events::Decoder;
use arenabuddy::pipeline::ingest_line;
use arenabuddy::pipeline::loop_decision;
use arenabuddy::pipeline::LoopAction;
use arenabuddy::pipeline::LoopSignal;
use arenabuddy::replay::BuildError;
use arenabuddy::replay::BuilderPhase;
use arenabuddy::replay::MatchReplayBuilder;
use arenabuddy::text::i64_to_string;
use arenabuddy::text::parse_u64;
use arenabuddy::text::u64_to_string;

#[test]
fn each_signal_has_its_action() {
    assert_eq!(loop_decision(LoopSignal::Rotation), LoopAction::ResetTailer);
    assert_eq!(loop_decision(LoopSignal::Interrupt), LoopAction::Exit);
    assert_eq!(loop_decision(LoopSignal::PollTick), LoopAction::Drain);
}

#[test]
fn a_match_without_decklists_fails_structurally() {
    let mut decoder = Decoder::new();
    let mut builder = MatchReplayBuilder::new();
    assert!(ingest_line(&mut decoder, &mut builder, "MatchStart|M1|1|A|B|T0").is_none());
    let outcome = ingest_line(&mut decoder, &mut builder, "MatchEnd")
        .expect("the boundary completes the match");
    match outcome {
        Err(BuildError::MissingField(field)) => assert_eq!(field, "decklists"),
        other => panic!("expected a structural failure, got {other:?}"),
    }
    // The assembler reset so the loop can continue.
    assert_eq!(builder.phase(), BuilderPhase::Idle);
}

#[test]
fn a_match_without_an_id_fails_structurally() {
    let mut decoder = Decoder::new();
    let mut builder = MatchReplayBuilder::new();
    assert!(ingest_line(&mut decoder, &mut builder, "MatchStart||1|A|B|T0").is_none());
    assert!(ingest_line(&mut decoder, &mut builder, "DecklistSubmission|1:1|").is_none());
    let outcome = ingest_line(&mut decoder, &mut builder, "MatchEnd").expect("completes");
    match outcome {
        Err(BuildError::MissingField(field)) => assert_eq!(field, "match_id"),
        other => panic!("expected a structural failure, got {other:?}"),
    }
}

#[test]
fn setup_errors_describe_themselves() {
    assert_eq!(
        ArenaBuddySetupError::NoCardsDatabase.message(),
        "Cards database not found"
    );
    assert_eq!(
        ArenaBuddySetupError::UnsupportedOS.message(),
        "Unsupported operating system"
    );
}

#[test]
fn number_parsing_is_range_checked() {
    assert_eq!(parse_u64("0"), Some(0));
    assert_eq!(parse_u64("18446744073709551615"), Some(u64::MAX));
    assert_eq!(parse_u64("18446744073709551616"), None, "one past the range");
    assert_eq!(parse_u64(""), None);
    assert_eq!(parse_u64("12a"), None);
    assert_eq!(parse_u64("-1"), None);
}

#[test]
fn numbers_render_in_decimal() {
    assert_eq!(u64_to_string(0), "0");
    assert_eq!(u64_to_string(90210), "90210");
    assert_eq!(u64_to_string(u64::MAX), "18446744073709551615");
    assert_eq!(i64_to_string(-42), "-42");
    assert_eq!(i64_to_string(i64::MIN), "-9223372036854775808");
}
