//! The match-replay assembler.
//!
//! A state machine folds decoded events into a completed replay.  It is
//! `Idle` until a match opens, `InMatch` while events for the current
//! match accumulate, and `Ready` once the closing boundary arrives; every
//! event observed between the boundaries, the boundaries included, is
//! kept in the raw stream.  `build` consumes the accumulated state,
//! validates the required fields and resets the assembler.

use vstd::prelude::*;

verus! {

use crate::deck::Deck;
use crate::deck::DeckModel;
use crate::events::DecodedEvent;
use crate::events::DecodedEventModel;
use crate::events::Event;
use crate::events::EventModel;

/// One game's outcome within a match.
#[derive(Debug)]
pub struct GameResult {
    pub game_number: u32,
    pub winning_seat_id: u8,
    pub result_reason: String,
}

impl Clone for GameResult {
    /// A clone holds the same outcome.
    fn clone(&self) -> (r: GameResult)
        ensures
            r@ == self@,
    {
        GameResult {
            game_number: self.game_number,
            winning_seat_id: self.winning_seat_id,
            result_reason: self.result_reason.clone(),
        }
    }
}

/// The mathematical content of a game result.
pub ghost struct GameResultModel {
    pub game_number: u32,
    pub winning_seat_id: u8,
    pub result_reason: Seq<char>,
}

impl View for GameResult {
    type V = GameResultModel;

    open spec fn view(&self) -> GameResultModel {
        GameResultModel {
            game_number: self.game_number,
            winning_seat_id: self.winning_seat_id,
            result_reason: self.result_reason@,
        }
    }
}

/// One pre-game mulligan decision, the offered hand kept as the
/// comma-separated card-id list the log carries.
#[derive(Debug)]
pub struct MulliganInfo {
    pub game_number: u32,
    pub hand: String,
    pub number_to_keep: u32,
    pub play_draw: String,
    pub decision: String,
    pub opponent_identity: String,
}

/// The mathematical content of a mulligan decision.
pub ghost struct MulliganInfoModel {
    pub game_number: u32,
    pub hand: Seq<char>,
    pub number_to_keep: u32,
    pub play_draw: Seq<char>,
    pub decision: Seq<char>,
    pub opponent_identity: Seq<char>,
}

impl Clone for MulliganInfo {
    /// A clone holds the same decision.
    fn clone(&self) -> (r: MulliganInfo)
        ensures
            r@ == self@,
    {
        MulliganInfo {
            game_number: self.game_number,
            hand: self.hand.clone(),
            number_to_keep: self.number_to_keep,
            play_draw: self.play_draw.clone(),
            decision: self.decision.clone(),
            opponent_identity: self.opponent_identity.clone(),
        }
    }
}

impl View for MulliganInfo {
    type V = MulliganInfoModel;

    open spec fn view(&self) -> MulliganInfoModel {
        MulliganInfoModel {
            game_number: self.game_number,
            hand: self.hand@,
            number_to_keep: self.number_to_keep,
            play_draw: self.play_draw@,
            decision: self.decision@,
            opponent_identity: self.opponent_identity@,
        }
    }
}

/// The completed aggregate for one match.
#[derive(Debug)]
pub struct MatchReplay {
    pub match_id: String,
    pub controller_seat_id: u8,
    pub controller_player_name: String,
    pub opponent_player_name: String,
    pub created_at: String,
    pub game_results: Vec<GameResult>,
    pub mulligans: Vec<MulliganInfo>,
    pub decklists: Vec<Deck>,
    pub raw_events: Vec<DecodedEvent>,
}

/// The mathematical content of a completed replay.
pub ghost struct MatchReplayModel {
    pub match_id: Seq<char>,
    pub controller_seat_id: u8,
    pub controller_player_name: Seq<char>,
    pub opponent_player_name: Seq<char>,
    pub created_at: Seq<char>,
    pub game_results: Seq<GameResultModel>,
    pub mulligans: Seq<MulliganInfoModel>,
    pub decklists: Seq<DeckModel>,
    pub raw_events: Seq<DecodedEventModel>,
}

impl View for MatchReplay {
    type V = MatchReplayModel;

    open spec fn view(&self) -> MatchReplayModel {
        MatchReplayModel {
            match_id: self.match_id@,
            controller_seat_id: self.controller_seat_id,
            controller_player_name: self.controller_player_name@,
            opponent_player_name: self.opponent_player_name@,
            created_at: self.created_at@,
            game_results: self.game_results@.map_values(|g: GameResult| g@),
            mulligans: self.mulligans@.map_values(|m: MulliganInfo| m@),
            decklists: self.decklists@.map_values(|d: Deck| d@),
            raw_events: self.raw_events@.map_values(|e: DecodedEvent| e@),
        }
    }
}

impl MatchReplay {
    /// The structural invariant `build` establishes: the match id is set
    /// and at least one decklist exists.
    pub open spec fn wf(&self) -> bool {
        self.match_id@.len() > 0 && self.decklists@.len() > 0
    }
}

/// Why a replay could not be built.
#[derive(Debug)]
pub enum BuildError {
    /// A required field of the aggregate is missing; the name says which.
    MissingField(String),
}

/// Where the assembler stands.
#[derive(Clone, Copy, Debug, PartialEq, Eq, Structural)]
pub enum BuilderPhase {
    /// No match is open; events are discarded but counted.
    Idle,
    /// A match is open and accumulating events.
    InMatch,
    /// The closing boundary arrived; the replay awaits `build`.
    Ready,
}

/// The mathematical content of the assembler.
pub ghost struct BuilderModel {
    pub phase: BuilderPhase,
    pub match_id: Seq<char>,
    pub controller_seat_id: u8,
    pub controller_player_name: Seq<char>,
    pub opponent_player_name: Seq<char>,
    pub created_at: Seq<char>,
    pub game_results: Seq<GameResultModel>,
    pub mulligans: Seq<MulliganInfoModel>,
    pub decklists: Seq<DeckModel>,
    pub raw_events: Seq<DecodedEventModel>,
    pub discarded: u64,
}

/// The empty assembler state.
pub open spec fn initial_builder() -> BuilderModel {
    BuilderModel {
        phase: BuilderPhase::Idle,
        match_id: Seq::empty(),
        controller_seat_id: 0u8,
        controller_player_name: Seq::empty(),
        opponent_player_name: Seq::empty(),
        created_at: Seq::empty(),
        game_results: Seq::empty(),
        mulligans: Seq::empty(),
        decklists: Seq::empty(),
        raw_events: Seq::empty(),
        discarded: 0u64,
    }
}

/// The assembler's transition relation, one event at a time.
///
/// Idle: a match start records the header and opens the raw stream; any
/// other event is discarded but counted.  In a match: decklists,
/// mulligans and game results are appended to their lists, the closing
/// boundary freezes the state, and every event — recognized or not — is
/// appended to the raw stream.  A frozen assembler ignores events until
/// it is built.
pub open spec fn builder_step(m: BuilderModel, e: DecodedEventModel) -> BuilderModel {
    match m.phase {
        BuilderPhase::Idle => match e.event {
            EventModel::MatchStart { id, controller_seat_id, controller, opponent, created_at } => {
                BuilderModel {
                    phase: BuilderPhase::InMatch,
                    match_id: id,
                    controller_seat_id,
                    controller_player_name: controller,
                    opponent_player_name: opponent,
                    created_at,
                    game_results: Seq::empty(),
                    mulligans: Seq::empty(),
                    decklists: Seq::empty(),
                    raw_events: seq![e],
                    discarded: m.discarded,
                }
            },
            _ => BuilderModel {
                discarded: if m.discarded < u64::MAX {
                    (m.discarded + 1) as u64
                } else {
                    m.discarded
                },
                ..m
            },
        },
        BuilderPhase::InMatch => match e.event {
            EventModel::DecklistSubmission { main_deck, sideboard } => BuilderModel {
                decklists: m.decklists.push(DeckModel { main_deck, sideboard }),
                raw_events: m.raw_events.push(e),
                ..m
            },
            EventModel::MulliganDecision {
                game_number,
                hand,
                number_to_keep,
                play_draw,
                decision,
                opponent_identity,
            } => BuilderModel {
                mulligans: m.mulligans.push(
                    MulliganInfoModel {
                        game_number,
                        hand,
                        number_to_keep,
                        play_draw,
                        decision,
                        opponent_identity,
                    },
                ),
                raw_events: m.raw_events.push(e),
                ..m
            },
            EventModel::GameEnd { game_number, winning_seat_id, result_reason } => BuilderModel {
                game_results: m.game_results.push(
                    GameResultModel { game_number, winning_seat_id, result_reason },
                ),
                raw_events: m.raw_events.push(e),
                ..m
            },
            EventModel::MatchEnd => BuilderModel {
                phase: BuilderPhase::Ready,
                raw_events: m.raw_events.push(e),
                ..m
            },
            _ => BuilderModel { raw_events: m.raw_events.push(e), ..m },
        },
        BuilderPhase::Ready => m,
    }
}

/// The assembler run over a whole event stream.
pub open spec fn builder_run(m: BuilderModel, es: Seq<DecodedEventModel>) -> BuilderModel
    decreases es.len(),
{
    if es.len() == 0 {
        m
    } else {
        builder_run(builder_step(m, es[0]), es.drop_first())
    }
}

/// Checkpoint law: feeding a stream in two halves leaves the assembler
/// exactly where feeding the concatenation does, so a checkpointed
/// assembler and a fresh one fed the full stream build the same replay.
pub proof fn lemma_run_split(m: BuilderModel, xs: Seq<DecodedEventModel>, ys: Seq<
    DecodedEventModel,
>)
    ensures
        builder_run(m, xs + ys) == builder_run(builder_run(m, xs), ys),
    decreases xs.len(),
{
    if xs.len() == 0 {
        assert(xs + ys =~= ys);
    } else {
        assert((xs + ys).drop_first() =~= xs.drop_first() + ys);
        lemma_run_split(builder_step(m, xs[0]), xs.drop_first(), ys);
    }
}

/// Stateful assembler of match replays.
pub struct MatchReplayBuilder {
    phase: BuilderPhase,
    match_id: String,
    controller_seat_id: u8,
    controller_player_name: String,
    opponent_player_name: String,
    created_at: String,
    game_results: Vec<GameResult>,
    mulligans: Vec<MulliganInfo>,
    decklists: Vec<Deck>,
    raw_events: Vec<DecodedEvent>,
    discarded: u64,
}

impl View for MatchReplayBuilder {
    type V = BuilderModel;

    closed spec fn view(&self) -> BuilderModel {
        BuilderModel {
            phase: self.phase,
            match_id: self.match_id@,
            controller_seat_id: self.controller_seat_id,
            controller_player_name: self.controller_player_name@,
            opponent_player_name: self.opponent_player_name@,
            created_at: self.created_at@,
            game_results: self.game_results@.map_values(|g: GameResult| g@),
            mulligans: self.mulligans@.map_values(|m: MulliganInfo| m@),
            decklists: self.decklists@.map_values(|d: Deck| d@),
            raw_events: self.raw_events@.map_values(|e: DecodedEvent| e@),
            discarded: self.discarded,
        }
    }
}

impl MatchReplayBuilder {
    /// A fresh, idle assembler.
    pub fn new() -> (b: MatchReplayBuilder)
        ensures
            b@ == initial_builder(),
    {
        let b = MatchReplayBuilder {
            phase: BuilderPhase::Idle,
            match_id: String::new(),
            controller_seat_id: 0,
            controller_player_name: String::new(),
            opponent_player_name: String::new(),
            created_at: String::new(),
            game_results: Vec::new(),
            mulligans: Vec::new(),
            decklists: Vec::new(),
            raw_events: Vec::new(),
            discarded: 0,
        };
        proof {
            assert(b@.game_results =~= initial_builder().game_results);
            assert(b@.mulligans =~= initial_builder().mulligans);
            assert(b@.decklists =~= initial_builder().decklists);
            assert(b@.raw_events =~= initial_builder().raw_events);
        }
        b
    }

    /// Where the assembler stands.
    pub fn phase(&self) -> (p: BuilderPhase)
        ensures
            p == self@.phase,
    {
        self.phase
    }

    /// How many events arrived while no match was open.
    pub fn discarded(&self) -> (n: u64)
        ensures
            n == self@.discarded,
    {
        self.discarded
    }

    /// Folds one event into the assembler, following the transition
    /// relation exactly.  Returns true iff this event just completed a
    /// match: the assembler is then ready to emit.
    pub fn ingest(&mut self, ev: DecodedEvent) -> (completed: bool)
        ensures
            final(self)@ == builder_step(old(self)@, ev@),
            completed <==> (old(self)@.phase is InMatch && ev@.event is MatchEnd),
    {
        let ghost m0 = self@;
        let ghost evm = ev@;
        match self.phase {
            BuilderPhase::Idle => {
                match &ev.event {
                    Event::MatchStart { id, controller_seat_id, controller, opponent, created_at } => {
                        self.phase = BuilderPhase::InMatch;
                        self.match_id = id.clone();
                        self.controller_seat_id = *controller_seat_id;
                        self.controller_player_name = controller.clone();
                        self.opponent_player_name = opponent.clone();
                        self.created_at = created_at.clone();
                        self.game_results = Vec::new();
                        self.mulligans = Vec::new();
                        self.decklists = Vec::new();
                        self.raw_events = Vec::new();
                        self.raw_events.push(ev);
                        proof {
                            assert(self@.game_results =~= builder_step(m0, evm).game_results);
                            assert(self@.mulligans =~= builder_step(m0, evm).mulligans);
                            assert(self@.decklists =~= builder_step(m0, evm).decklists);
                            assert(self@.raw_events =~= builder_step(m0, evm).raw_events);
                        }
                        false
                    },
                    _ => {
                        if self.discarded < u64::MAX {
                            self.discarded = self.discarded + 1;
                        }
                        false
                    },
                }
            },
            BuilderPhase::InMatch => {
                match &ev.event {
                    Event::DecklistSubmission { deck } => {
                        self.decklists.push(deck.clone());
                        self.raw_events.push(ev);
                        proof {
                            assert(self@.decklists =~= builder_step(m0, evm).decklists);
                            assert(self@.raw_events =~= builder_step(m0, evm).raw_events);
                        }
                        false
                    },
                    Event::MulliganDecision {
                        game_number,
                        hand,
                        number_to_keep,
                        play_draw,
                        decision,
                        opponent_identity,
                    } => {
                        let info = MulliganInfo {
                            game_number: *game_number,
                            hand: hand.clone(),
                            number_to_keep: *number_to_keep,
                            play_draw: play_draw.clone(),
                            decision: decision.clone(),
                            opponent_identity: opponent_identity.clone(),
                        };
                        self.mulligans.push(info);
                        self.raw_events.push(ev);
                        proof {
                            assert(self@.mulligans =~= builder_step(m0, evm).mulligans);
                            assert(self@.raw_events =~= builder_step(m0, evm).raw_events);
                        }
                        false
                    },
                    Event::GameEnd { game_number, winning_seat_id, result_reason } => {
                        let result = GameResult {
                            game_number: *game_number,
                            winning_seat_id: *winning_seat_id,
                            result_reason: result_reason.clone(),
                        };
                        self.game_results.push(result);
                        self.raw_events.push(ev);
                        proof {
                            assert(self@.game_results =~= builder_step(m0, evm).game_results);
                            assert(self@.raw_events =~= builder_step(m0, evm).raw_events);
                        }
                        false
                    },
                    Event::MatchEnd => {
                        self.phase = BuilderPhase::Ready;
                        self.raw_events.push(ev);
                        proof {
                            assert(self@.raw_events =~= builder_step(m0, evm).raw_events);
                        }
                        true
                    },
                    _ => {
                        self.raw_events.push(ev);
                        proof {
                            assert(self@.raw_events =~= builder_step(m0, evm).raw_events);
                        }
                        false
                    },
                }
            },
            BuilderPhase::Ready => false,
        }
    }

    /// Consumes the accumulated state.  In the frozen state with the
    /// required fields present it yields the aggregate; a missing match
    /// id or a match without any decklist is a structural failure naming
    /// the field.  Either way the assembler is reset to the empty state
    /// so the surrounding loop can continue.
    pub fn build(&mut self) -> (r: Result<MatchReplay, BuildError>)
        requires
            old(self)@.phase is Ready,
        ensures
            final(self)@ == initial_builder(),
            r is Ok <==> old(self)@.match_id.len() > 0 && old(self)@.decklists.len() > 0,
            r is Ok ==> {
                let rep = r->Ok_0@;
                &&& rep.match_id == old(self)@.match_id
                &&& rep.controller_seat_id == old(self)@.controller_seat_id
                &&& rep.controller_player_name == old(self)@.controller_player_name
                &&& rep.opponent_player_name == old(self)@.opponent_player_name
                &&& rep.created_at == old(self)@.created_at
                &&& rep.game_results == old(self)@.game_results
                &&& rep.mulligans == old(self)@.mulligans
                &&& rep.decklists == old(self)@.decklists
                &&& rep.raw_events == old(self)@.raw_events
            },
            r is Ok ==> r->Ok_0.wf(),
            r is Err ==> (r->Err_0 matches BuildError::MissingField(f) && (f@ == "match_id"@
                || f@ == "decklists"@)),
            r is Err && old(self)@.match_id.len() == 0 ==> (r->Err_0 matches BuildError::MissingField(
                f,
            ) && f@ == "match_id"@),
    {
        let fresh = MatchReplayBuilder::new();
        let prev = core::mem::replace(self, fresh);
        if prev.match_id.as_str().unicode_len() == 0 {
            return Err(BuildError::MissingField("match_id".to_owned()));
        }
        if prev.decklists.len() == 0 {
            return Err(BuildError::MissingField("decklists".to_owned()));
        }
        Ok(
            MatchReplay {
                match_id: prev.match_id,
                controller_seat_id: prev.controller_seat_id,
                controller_player_name: prev.controller_player_name,
                opponent_player_name: prev.opponent_player_name,
                created_at: prev.created_at,
                game_results: prev.game_results,
                mulligans: prev.mulligans,
                decklists: prev.decklists,
                raw_events: prev.raw_events,
            },
        )
    }
}

} // verus!
