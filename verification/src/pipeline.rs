//! The ingest loop's decisions.
//!
//! The loop itself sleeps on a multi-way wait — a rotation notification,
//! an interrupt, or the poll interval — and performs file reads and sink
//! writes; those stay outside the library.  What the library fixes is
//! every decision: which action each wakeup demands, and how one
//! completed line moves the decoder and the assembler forward.

use vstd::prelude::*;

verus! {

use crate::events::DecodedEventModel;
use crate::events::Decoder;
use crate::events::decode_spec;
use crate::replay::BuildError;
use crate::replay::MatchReplay;
use crate::replay::MatchReplayBuilder;
use crate::replay::builder_step;
use crate::replay::initial_builder;

/// What woke the ingest loop up.
#[derive(Clone, Copy, Debug, PartialEq, Eq, Structural)]
pub enum LoopSignal {
    /// The watcher reported that the log file was rotated.
    Rotation,
    /// The interrupt handler fired.
    Interrupt,
    /// The poll interval elapsed.
    PollTick,
}

/// What the loop must do for a wakeup.
#[derive(Clone, Copy, Debug, PartialEq, Eq, Structural)]
pub enum LoopAction {
    /// Discard the tailer's state and reopen the path at offset zero.
    ResetTailer,
    /// Drain the tailer through the decoder into the assembler.
    Drain,
    /// Let in-flight writes finish and exit cleanly.
    Exit,
}

/// The loop's decision for each wakeup: a rotation rebuilds the tailer,
/// an interrupt exits, a tick drains.
pub fn loop_decision(signal: LoopSignal) -> (a: LoopAction)
    ensures
        signal is Rotation ==> a is ResetTailer,
        signal is Interrupt ==> a is Exit,
        signal is PollTick ==> a is Drain,
{
    match signal {
        LoopSignal::Rotation => LoopAction::ResetTailer,
        LoopSignal::Interrupt => LoopAction::Exit,
        LoopSignal::PollTick => LoopAction::Drain,
    }
}

/// The event model one line contributes, given the decoder's counter.
pub open spec fn line_event(counter: u64, line: Seq<char>) -> DecodedEventModel {
    DecodedEventModel { seq: counter, raw: line, event: decode_spec(line) }
}

/// Feeds one completed line through the decoder into the assembler.
/// When the line completes a match the assembler is built and reset, and
/// the outcome — the replay, or the structural failure — is returned;
/// otherwise the assembler simply advances.
pub fn ingest_line(decoder: &mut Decoder, builder: &mut MatchReplayBuilder, line: &str) -> (r:
    Option<Result<MatchReplay, BuildError>>)
    ensures
        old(decoder)@ < u64::MAX ==> final(decoder)@ == old(decoder)@ + 1,
        old(decoder)@ == u64::MAX ==> final(decoder)@ == old(decoder)@,
        r is Some <==> (old(builder)@.phase is InMatch && decode_spec(line@) is MatchEnd),
        r is None ==> final(builder)@ == builder_step(
            old(builder)@,
            line_event(old(decoder)@, line@),
        ),
        r is Some ==> final(builder)@ == initial_builder(),
        r is Some ==> {
            let frozen = builder_step(old(builder)@, line_event(old(decoder)@, line@));
            &&& (r->0 is Ok <==> frozen.match_id.len() > 0 && frozen.decklists.len() > 0)
            &&& (r->0 is Ok ==> {
                let rep = (r->0)->Ok_0@;
                &&& rep.match_id == frozen.match_id
                &&& rep.controller_seat_id == frozen.controller_seat_id
                &&& rep.controller_player_name == frozen.controller_player_name
                &&& rep.opponent_player_name == frozen.opponent_player_name
                &&& rep.created_at == frozen.created_at
                &&& rep.game_results == frozen.game_results
                &&& rep.mulligans == frozen.mulligans
                &&& rep.decklists == frozen.decklists
                &&& rep.raw_events == frozen.raw_events
            })
        },
{
    let ev = decoder.decode(line);
    proof {
        assert(ev@ == line_event(old(decoder)@, line@));
    }
    let completed = builder.ingest(ev);
    if completed {
        Some(builder.build())
    } else {
        None
    }
}

} // verus!
