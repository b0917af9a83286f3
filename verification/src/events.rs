//! The event decoder.
//!
//! Every log line is a self-delimited record: optional framing noise —
//! leading spaces and bracketed groups such as timestamps or log-level
//! prefixes — followed by `|`-separated fields whose first field is the
//! event tag.  Decoding is total: a line with an unrecognized tag becomes
//! `Unknown` and is kept, a line with a recognized tag but invalid fields
//! becomes `Unknown` with the malformed marker set.  Each decoded event
//! carries the sequence number assigned at decode time and the raw line.

use vstd::prelude::*;

verus! {

use vstd::string::StrSliceExecFns;
use crate::text::all_digits;
use crate::text::dec_value;
use crate::text::parse_u64;
use crate::text::split_all;
use crate::text::split_on;
use crate::text::str_eq;
use crate::deck::Deck;

/// The resolution annotations the client writes for spell and ability
/// resolution.
#[derive(Clone, Copy, Debug, PartialEq, Eq, Structural)]
pub enum AnnotationType {
    ResolutionStart,
    ResolutionComplete,
    CardRevealed,
}

/// The annotation a tag name spells, if any.
pub open spec fn spec_annotation_of(f: Seq<char>) -> Option<AnnotationType> {
    if f == "AnnotationType_ResolutionStart"@ {
        Some(AnnotationType::ResolutionStart)
    } else if f == "AnnotationType_ResolutionComplete"@ {
        Some(AnnotationType::ResolutionComplete)
    } else if f == "AnnotationType_CardRevealed"@ {
        Some(AnnotationType::CardRevealed)
    } else {
        None
    }
}

impl AnnotationType {
    /// Reads an annotation from its full tag name.
    pub fn from_name(s: &str) -> (r: Option<AnnotationType>)
        ensures
            r == spec_annotation_of(s@),
    {
        if str_eq(s, "AnnotationType_ResolutionStart") {
            Some(AnnotationType::ResolutionStart)
        } else if str_eq(s, "AnnotationType_ResolutionComplete") {
            Some(AnnotationType::ResolutionComplete)
        } else if str_eq(s, "AnnotationType_CardRevealed") {
            Some(AnnotationType::CardRevealed)
        } else {
            None
        }
    }
}

/// The index of the first `]` in `s`, or a negative value if there is none.
pub open spec fn frame_close(s: Seq<char>) -> int
    decreases s.len(),
{
    if s.len() == 0 {
        -1
    } else if s[0] == ']' {
        0
    } else {
        let r = frame_close(s.drop_first());
        if r < 0 {
            -1
        } else {
            r + 1
        }
    }
}

proof fn lemma_frame_close_at(s: Seq<char>, i: int)
    requires
        0 <= i < s.len(),
        s[i] == ']',
        forall|j: int| 0 <= j < i ==> s[j] != ']',
    ensures
        frame_close(s) == i,
    decreases i,
{
    if i > 0 {
        assert(forall|j: int| 0 <= j < i - 1 ==> s.drop_first()[j] == s[j + 1]);
        assert(s.drop_first()[i - 1] == s[i]);
        lemma_frame_close_at(s.drop_first(), i - 1);
    }
}

proof fn lemma_frame_close_none(s: Seq<char>)
    requires
        forall|j: int| 0 <= j < s.len() ==> s[j] != ']',
    ensures
        frame_close(s) < 0,
    decreases s.len(),
{
    if s.len() > 0 {
        assert(forall|j: int| 0 <= j < s.len() - 1 ==> s.drop_first()[j] == s[j + 1]);
        lemma_frame_close_none(s.drop_first());
    }
}

/// `s` with leading spaces and complete bracketed groups removed.
pub open spec fn strip_frame(s: Seq<char>) -> Seq<char>
    decreases s.len(),
{
    if s.len() > 0 && s[0] == ' ' {
        strip_frame(s.drop_first())
    } else if s.len() > 0 && s[0] == '[' && 0 <= frame_close(s) < s.len() {
        strip_frame(s.subrange(frame_close(s) + 1, s.len() as int))
    } else {
        s
    }
}

/// Removes the framing noise in front of the record: leading spaces and
/// bracketed prefixes such as timestamps and log levels.
pub fn strip_frame_exec(s: &str) -> (r: String)
    ensures
        r@ == strip_frame(s@),
    decreases s@.len(),
{
    let n = s.unicode_len();
    if n == 0 {
        let r = String::new();
        proof {
            assert(r@ =~= strip_frame(s@));
        }
        return r;
    }
    let c0 = s.get_char(0);
    if c0 == ' ' {
        let rest = s.substring_char(1, n);
        proof {
            assert(rest@ =~= s@.drop_first());
        }
        return strip_frame_exec(rest);
    }
    if c0 == '[' {
        let mut i: usize = 0;
        while i < n
            invariant
                0 <= i <= n,
                n == s@.len(),
                s@.len() > 0,
                s@[0] == '[',
                forall|j: int| 0 <= j < i ==> s@[j] != ']',
            decreases n - i,
        {
            if s.get_char(i) == ']' {
                proof {
                    lemma_frame_close_at(s@, i as int);
                }
                let rest = s.substring_char(i + 1, n);
                proof {
                    assert(rest@ =~= s@.subrange(i + 1, n as int));
                }
                return strip_frame_exec(rest);
            }
            i = i + 1;
        }
        proof {
            lemma_frame_close_none(s@);
        }
        return s.to_owned();
    }
    s.to_owned()
}

/// True iff `f` spells a number that fits a `u64`.
pub open spec fn valid_u64_field(f: Seq<char>) -> bool {
    f.len() > 0 && all_digits(f) && dec_value(f) <= u64::MAX
}

/// True iff `f` spells a number that fits a `u32`.
pub open spec fn valid_u32_field(f: Seq<char>) -> bool {
    f.len() > 0 && all_digits(f) && dec_value(f) <= u32::MAX
}

/// True iff `f` spells a seat id: the log knows seats 1 and 2 only.
pub open spec fn valid_seat_field(f: Seq<char>) -> bool {
    f.len() > 0 && all_digits(f) && 1 <= dec_value(f) <= 2
}

fn parse_u32_field(f: &str) -> (r: Option<u32>)
    ensures
        r is Some <==> valid_u32_field(f@),
        r is Some ==> r->0 == dec_value(f@),
{
    match parse_u64(f) {
        Some(v) => if v <= u32::MAX as u64 {
            Some(v as u32)
        } else {
            None
        },
        None => None,
    }
}

fn parse_seat_field(f: &str) -> (r: Option<u8>)
    ensures
        r is Some <==> valid_seat_field(f@),
        r is Some ==> r->0 == dec_value(f@),
{
    match parse_u64(f) {
        Some(v) => if 1 <= v && v <= 2 {
            Some(v as u8)
        } else {
            None
        },
        None => None,
    }
}

/// The (card id, quantity) a `id:qty` piece spells, if any.
pub open spec fn spec_parse_pair(p: Seq<char>) -> Option<(u64, u32)> {
    let kv = split_all(p, ':');
    if kv.len() == 2 && valid_u64_field(kv[0]) && valid_u32_field(kv[1]) {
        Some(((dec_value(kv[0]) as u64), (dec_value(kv[1]) as u32)))
    } else {
        None
    }
}

/// The pairs of a piece sequence, or nothing if any piece is invalid.
pub open spec fn spec_parse_pair_list(ps: Seq<Seq<char>>) -> Option<Seq<(u64, u32)>>
    decreases ps.len(),
{
    if ps.len() == 0 {
        Some(Seq::empty())
    } else {
        match spec_parse_pair_list(ps.drop_last()) {
            None => None,
            Some(r) => match spec_parse_pair(ps.last()) {
                None => None,
                Some(p) => Some(r.push(p)),
            },
        }
    }
}

/// The pair list a `id:qty,id:qty,…` field spells: the empty field is the
/// empty list.
pub open spec fn spec_parse_pairs(s: Seq<char>) -> Option<Seq<(u64, u32)>> {
    if s.len() == 0 {
        Some(Seq::empty())
    } else {
        spec_parse_pair_list(split_all(s, ','))
    }
}

proof fn lemma_pair_list_prefix_none(ps: Seq<Seq<char>>, i: int)
    requires
        0 <= i <= ps.len(),
        spec_parse_pair_list(ps.take(i)) is None,
    ensures
        spec_parse_pair_list(ps) is None,
    decreases ps.len() - i,
{
    if i < ps.len() {
        assert(ps.take(i + 1).drop_last() =~= ps.take(i));
        lemma_pair_list_prefix_none(ps, i + 1);
    } else {
        assert(ps.take(i) =~= ps);
    }
}

fn parse_pair(p: &str) -> (r: Option<(u64, u32)>)
    ensures
        r == spec_parse_pair(p@),
{
    let kv = split_on(p, ':');
    proof {
        assert(kv@.map_values(|x: String| x@) == split_all(p@, ':'));
        assert(kv@.len() == split_all(p@, ':').len());
    }
    if kv.len() != 2 {
        return None;
    }
    proof {
        assert(kv@.map_values(|x: String| x@)[0] == kv@[0]@);
        assert(kv@.map_values(|x: String| x@)[1] == kv@[1]@);
    }
    let id = match parse_u64(kv[0].as_str()) {
        Some(v) => v,
        None => {
            return None;
        },
    };
    let qty = match parse_u32_field(kv[1].as_str()) {
        Some(v) => v,
        None => {
            return None;
        },
    };
    Some((id, qty))
}

/// Reads a `id:qty,id:qty,…` field; the empty field is the empty list.
pub fn parse_pairs(s: &str) -> (r: Option<Vec<(u64, u32)>>)
    ensures
        r is Some <==> spec_parse_pairs(s@) is Some,
        r is Some ==> r->0@ == spec_parse_pairs(s@)->0,
{
    if s.unicode_len() == 0 {
        let v: Vec<(u64, u32)> = Vec::new();
        return Some(v);
    }
    let pieces = split_on(s, ',');
    let ghost ps = split_all(s@, ',');
    let mut out: Vec<(u64, u32)> = Vec::new();
    let mut i: usize = 0;
    while i < pieces.len()
        invariant
            0 <= i <= pieces@.len(),
            s@.len() > 0,
            ps == split_all(s@, ','),
            pieces@.map_values(|x: String| x@) == ps,
            spec_parse_pair_list(ps.take(i as int)) == Some(out@),
        decreases pieces@.len() - i,
    {
        proof {
            assert(ps.take(i + 1).drop_last() =~= ps.take(i as int));
            assert(ps[i as int] == pieces@.map_values(|x: String| x@)[i as int]);
        }
        match parse_pair(pieces[i].as_str()) {
            Some(pair) => {
                out.push(pair);
            },
            None => {
                proof {
                    assert(ps.take(i + 1).last() == ps[i as int]);
                    assert(spec_parse_pair_list(ps.take(i + 1)) is None);
                    lemma_pair_list_prefix_none(ps, i + 1);
                }
                return None;
            },
        }
        i = i + 1;
    }
    proof {
        assert(ps.take(pieces@.len() as int) =~= ps);
    }
    Some(out)
}

/// A typed event extracted from one log line.
#[derive(Debug)]
pub enum Event {
    /// A match opened: the header the assembler records.
    MatchStart {
        id: String,
        controller_seat_id: u8,
        controller: String,
        opponent: String,
        created_at: String,
    },
    /// The closing boundary of the current match.
    MatchEnd,
    /// A game within the match began.
    GameStart { game_number: u32 },
    /// A game ended with a winner and a reason tag.
    GameEnd { game_number: u32, winning_seat_id: u8, result_reason: String },
    /// A pre-game decision about the opening hand.
    MulliganDecision {
        game_number: u32,
        hand: String,
        number_to_keep: u32,
        play_draw: String,
        decision: String,
        opponent_identity: String,
    },
    /// A decklist snapshot was submitted.
    DecklistSubmission { deck: Deck },
    /// A resolution annotation.
    AnnotationResolution { kind: AnnotationType, payload: String },
    /// A card was revealed.
    CardRevealed { grp_id: u64 },
    /// Anything else; `malformed` marks a recognized tag whose fields
    /// could not be read.
    Unknown { malformed: bool },
}

/// The mathematical content of an event.
pub ghost enum EventModel {
    MatchStart {
        id: Seq<char>,
        controller_seat_id: u8,
        controller: Seq<char>,
        opponent: Seq<char>,
        created_at: Seq<char>,
    },
    MatchEnd,
    GameStart { game_number: u32 },
    GameEnd { game_number: u32, winning_seat_id: u8, result_reason: Seq<char> },
    MulliganDecision {
        game_number: u32,
        hand: Seq<char>,
        number_to_keep: u32,
        play_draw: Seq<char>,
        decision: Seq<char>,
        opponent_identity: Seq<char>,
    },
    DecklistSubmission { main_deck: Seq<(u64, u32)>, sideboard: Seq<(u64, u32)> },
    AnnotationResolution { kind: AnnotationType, payload: Seq<char> },
    CardRevealed { grp_id: u64 },
    Unknown { malformed: bool },
}

impl View for Event {
    type V = EventModel;

    open spec fn view(&self) -> EventModel {
        match self {
            Event::MatchStart { id, controller_seat_id, controller, opponent, created_at } => {
                EventModel::MatchStart {
                    id: id@,
                    controller_seat_id: *controller_seat_id,
                    controller: controller@,
                    opponent: opponent@,
                    created_at: created_at@,
                }
            },
            Event::MatchEnd => EventModel::MatchEnd,
            Event::GameStart { game_number } => EventModel::GameStart {
                game_number: *game_number,
            },
            Event::GameEnd { game_number, winning_seat_id, result_reason } => {
                EventModel::GameEnd {
                    game_number: *game_number,
                    winning_seat_id: *winning_seat_id,
                    result_reason: result_reason@,
                }
            },
            Event::MulliganDecision {
                game_number,
                hand,
                number_to_keep,
                play_draw,
                decision,
                opponent_identity,
            } => EventModel::MulliganDecision {
                game_number: *game_number,
                hand: hand@,
                number_to_keep: *number_to_keep,
                play_draw: play_draw@,
                decision: decision@,
                opponent_identity: opponent_identity@,
            },
            Event::DecklistSubmission { deck } => EventModel::DecklistSubmission {
                main_deck: deck.main_deck@,
                sideboard: deck.sideboard@,
            },
            Event::AnnotationResolution { kind, payload } => {
                EventModel::AnnotationResolution { kind: *kind, payload: payload@ }
            },
            Event::CardRevealed { grp_id } => EventModel::CardRevealed { grp_id: *grp_id },
            Event::Unknown { malformed } => EventModel::Unknown { malformed: *malformed },
        }
    }
}

/// What the decoder yields for one line, as a function of the line alone.
pub open spec fn decode_spec(raw: Seq<char>) -> EventModel {
    let fs = split_all(strip_frame(raw), '|');
    if fs[0] == "MatchStart"@ {
        if fs.len() == 6 && valid_seat_field(fs[2]) {
            EventModel::MatchStart {
                id: fs[1],
                controller_seat_id: dec_value(fs[2]) as u8,
                controller: fs[3],
                opponent: fs[4],
                created_at: fs[5],
            }
        } else {
            EventModel::Unknown { malformed: true }
        }
    } else if fs[0] == "MatchEnd"@ {
        if fs.len() == 1 {
            EventModel::MatchEnd
        } else {
            EventModel::Unknown { malformed: true }
        }
    } else if fs[0] == "GameStart"@ {
        if fs.len() == 2 && valid_u32_field(fs[1]) {
            EventModel::GameStart { game_number: dec_value(fs[1]) as u32 }
        } else {
            EventModel::Unknown { malformed: true }
        }
    } else if fs[0] == "GameEnd"@ {
        if fs.len() == 4 && valid_u32_field(fs[1]) && valid_seat_field(fs[2]) {
            EventModel::GameEnd {
                game_number: dec_value(fs[1]) as u32,
                winning_seat_id: dec_value(fs[2]) as u8,
                result_reason: fs[3],
            }
        } else {
            EventModel::Unknown { malformed: true }
        }
    } else if fs[0] == "MulliganDecision"@ {
        if fs.len() == 7 && valid_u32_field(fs[1]) && valid_u32_field(fs[3]) {
            EventModel::MulliganDecision {
                game_number: dec_value(fs[1]) as u32,
                hand: fs[2],
                number_to_keep: dec_value(fs[3]) as u32,
                play_draw: fs[4],
                decision: fs[5],
                opponent_identity: fs[6],
            }
        } else {
            EventModel::Unknown { malformed: true }
        }
    } else if fs[0] == "DecklistSubmission"@ {
        if fs.len() == 3 && spec_parse_pairs(fs[1]) is Some && spec_parse_pairs(fs[2]) is Some {
            EventModel::DecklistSubmission {
                main_deck: spec_parse_pairs(fs[1])->0,
                sideboard: spec_parse_pairs(fs[2])->0,
            }
        } else {
            EventModel::Unknown { malformed: true }
        }
    } else if fs[0] == "AnnotationResolution"@ {
        if fs.len() == 3 && spec_annotation_of(fs[1]) is Some {
            EventModel::AnnotationResolution { kind: spec_annotation_of(fs[1])->0, payload: fs[2] }
        } else {
            EventModel::Unknown { malformed: true }
        }
    } else if fs[0] == "CardRevealed"@ {
        if fs.len() == 2 && valid_u64_field(fs[1]) {
            EventModel::CardRevealed { grp_id: dec_value(fs[1]) as u64 }
        } else {
            EventModel::Unknown { malformed: true }
        }
    } else {
        EventModel::Unknown { malformed: false }
    }
}

/// An event together with its decode-time sequence number and the raw
/// line it came from.
#[derive(Debug)]
pub struct DecodedEvent {
    pub seq: u64,
    pub raw: String,
    pub event: Event,
}

/// The mathematical content of a decoded event.
pub ghost struct DecodedEventModel {
    pub seq: u64,
    pub raw: Seq<char>,
    pub event: EventModel,
}

impl View for DecodedEvent {
    type V = DecodedEventModel;

    open spec fn view(&self) -> DecodedEventModel {
        DecodedEventModel { seq: self.seq, raw: self.raw@, event: self.event@ }
    }
}

/// Turns lines into typed events, numbering them as they arrive.
pub struct Decoder {
    counter: u64,
}

impl View for Decoder {
    type V = u64;

    closed spec fn view(&self) -> u64 {
        self.counter
    }
}

impl Decoder {
    /// A decoder whose next event gets sequence number zero.
    pub fn new() -> (d: Decoder)
        ensures
            d@ == 0u64,
    {
        Decoder { counter: 0 }
    }

    /// Decodes one line.  Decoding is total: every line yields an event,
    /// the event is a function of the line alone, and the sequence number
    /// strictly increases with each call until the counter is exhausted.
    pub fn decode(&mut self, line: &str) -> (ev: DecodedEvent)
        ensures
            ev@.event == decode_spec(line@),
            ev@.raw == line@,
            ev@.seq == old(self)@,
            old(self)@ < u64::MAX ==> final(self)@ == old(self)@ + 1,
            old(self)@ == u64::MAX ==> final(self)@ == old(self)@,
    {
        let body = strip_frame_exec(line);
        let fields = split_on(body.as_str(), '|');
        let ghost fs = split_all(strip_frame(line@), '|');
        proof {
            assert(fields@.map_values(|x: String| x@) == fs);
            assert(fs.len() >= 1);
            assert forall|i: int| 0 <= i < fields@.len() implies #[trigger] fields@[i]@ == fs[i] by {
                assert(fields@.map_values(|x: String| x@)[i] == fields@[i]@);
            }
        }
        let tag = fields[0].as_str();
        let event: Event = if str_eq(tag, "MatchStart") {
            if fields.len() == 6 {
                match parse_seat_field(fields[2].as_str()) {
                    Some(seat) => Event::MatchStart {
                        id: fields[1].clone(),
                        controller_seat_id: seat,
                        controller: fields[3].clone(),
                        opponent: fields[4].clone(),
                        created_at: fields[5].clone(),
                    },
                    None => Event::Unknown { malformed: true },
                }
            } else {
                Event::Unknown { malformed: true }
            }
        } else if str_eq(tag, "MatchEnd") {
            if fields.len() == 1 {
                Event::MatchEnd
            } else {
                Event::Unknown { malformed: true }
            }
        } else if str_eq(tag, "GameStart") {
            if fields.len() == 2 {
                match parse_u32_field(fields[1].as_str()) {
                    Some(game_number) => Event::GameStart { game_number },
                    None => Event::Unknown { malformed: true },
                }
            } else {
                Event::Unknown { malformed: true }
            }
        } else if str_eq(tag, "GameEnd") {
            if fields.len() == 4 {
                let game = parse_u32_field(fields[1].as_str());
                let seat = parse_seat_field(fields[2].as_str());
                match (game, seat) {
                    (Some(game_number), Some(winning_seat_id)) => Event::GameEnd {
                        game_number,
                        winning_seat_id,
                        result_reason: fields[3].clone(),
                    },
                    _ => Event::Unknown { malformed: true },
                }
            } else {
                Event::Unknown { malformed: true }
            }
        } else if str_eq(tag, "MulliganDecision") {
            if fields.len() == 7 {
                let game = parse_u32_field(fields[1].as_str());
                let keep = parse_u32_field(fields[3].as_str());
                match (game, keep) {
                    (Some(game_number), Some(number_to_keep)) => Event::MulliganDecision {
                        game_number,
                        hand: fields[2].clone(),
                        number_to_keep,
                        play_draw: fields[4].clone(),
                        decision: fields[5].clone(),
                        opponent_identity: fields[6].clone(),
                    },
                    _ => Event::Unknown { malformed: true },
                }
            } else {
                Event::Unknown { malformed: true }
            }
        } else if str_eq(tag, "DecklistSubmission") {
            if fields.len() == 3 {
                let main = parse_pairs(fields[1].as_str());
                let side = parse_pairs(fields[2].as_str());
                match (main, side) {
                    (Some(main_deck), Some(sideboard)) => Event::DecklistSubmission {
                        deck: Deck { main_deck, sideboard },
                    },
                    _ => Event::Unknown { malformed: true },
                }
            } else {
                Event::Unknown { malformed: true }
            }
        } else if str_eq(tag, "AnnotationResolution") {
            if fields.len() == 3 {
                match AnnotationType::from_name(fields[1].as_str()) {
                    Some(kind) => Event::AnnotationResolution {
                        kind,
                        payload: fields[2].clone(),
                    },
                    None => Event::Unknown { malformed: true },
                }
            } else {
                Event::Unknown { malformed: true }
            }
        } else if str_eq(tag, "CardRevealed") {
            if fields.len() == 2 {
                match parse_u64(fields[1].as_str()) {
                    Some(grp_id) => Event::CardRevealed { grp_id },
                    None => Event::Unknown { malformed: true },
                }
            } else {
                Event::Unknown { malformed: true }
            }
        } else {
            Event::Unknown { malformed: false }
        };
        let seq = self.counter;
        if self.counter < u64::MAX {
            self.counter = self.counter + 1;
        }
        DecodedEvent { seq, raw: line.to_owned(), event }
    }
}

} // verus!
