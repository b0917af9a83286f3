//! Display records for the user-facing shell.
//!
//! Numeric card ids are resolved against the reference database into
//! display records; a mulligan's comma-separated hand becomes a list of
//! such records; and a whole match is assembled from the relational
//! store's query surface into one aggregate for the shell to show.

use vstd::prelude::*;

verus! {

use crate::cards::CardType;
use crate::cards::CardsDatabase;
use crate::cards::spec_dominant_type;
use crate::cards::spec_lookup;
use crate::deck::Deck;
use crate::deck::DeckDifference;
use crate::deck::counts_bounded;
use crate::deck::diff;
use crate::proto::CardModel;
use crate::replay::GameResult;
use crate::replay::MulliganInfo;
use crate::store::MatchDB;
use crate::store::MatchDBError;
use crate::store::decks_for;
use crate::store::mulligans_for;
use crate::store::results_for;
use crate::store::spec_did_controller_win;
use crate::store::spec_has_match;
use crate::store::spec_match_of;
use crate::text::all_digits;
use crate::text::dec_signed_chars;
use crate::text::dec_value;
use crate::text::parse_u64;
use crate::text::split_all;
use crate::text::split_on;

/// One card as the shell displays it.
#[derive(Debug)]
pub struct CardDisplayRecord {
    pub name: String,
    pub type_field: CardType,
    pub mana_value: u8,
    pub quantity: u16,
    pub image_uri: String,
}

/// The mathematical content of a display record.
pub ghost struct CardDisplayRecordModel {
    pub name: Seq<char>,
    pub type_field: CardType,
    pub mana_value: u8,
    pub quantity: u16,
    pub image_uri: Seq<char>,
}

impl View for CardDisplayRecord {
    type V = CardDisplayRecordModel;

    open spec fn view(&self) -> CardDisplayRecordModel {
        CardDisplayRecordModel {
            name: self.name@,
            type_field: self.type_field,
            mana_value: self.mana_value,
            quantity: self.quantity,
            image_uri: self.image_uri@,
        }
    }
}

impl Clone for CardDisplayRecord {
    /// A clone holds the same record.
    fn clone(&self) -> (r: CardDisplayRecord)
        ensures
            r@ == self@,
    {
        CardDisplayRecord {
            name: self.name.clone(),
            type_field: self.type_field,
            mana_value: self.mana_value,
            quantity: self.quantity,
            image_uri: self.image_uri.clone(),
        }
    }
}

impl Default for CardDisplayRecord {
    /// The record shown for a card nothing is known about.
    fn default() -> (r: CardDisplayRecord)
        ensures
            r@.name == "Unknown"@,
            r@.type_field == CardType::Unknown,
            r@.mana_value == 0,
            r@.quantity == 0,
            r@.image_uri == Seq::<char>::empty(),
    {
        CardDisplayRecord {
            name: "Unknown".to_owned(),
            type_field: CardType::Unknown,
            mana_value: 0,
            quantity: 0,
            image_uri: String::new(),
        }
    }
}

/// What a catalog card looks like as a display record: a multi-faced
/// card shows its front face's name.
pub open spec fn spec_record_of_card(c: CardModel) -> CardDisplayRecordModel {
    CardDisplayRecordModel {
        name: if c.card_faces.len() == 0 {
            c.name
        } else {
            c.card_faces[0].name
        },
        type_field: match spec_dominant_type(c.type_line) {
            Some(t) => t,
            None => CardType::Unknown,
        },
        mana_value: if 0 <= c.cmc <= 255 {
            c.cmc as u8
        } else {
            0
        },
        quantity: 1,
        image_uri: c.image_uri,
    }
}

/// The record shown for an id: the resolved card, or a placeholder
/// carrying the stringified id.
pub open spec fn spec_record_for_id(db: Seq<CardModel>, id: i64) -> CardDisplayRecordModel {
    match spec_lookup(db, id) {
        Some(c) => spec_record_of_card(c),
        None => CardDisplayRecordModel {
            name: dec_signed_chars(id as int),
            type_field: CardType::Unknown,
            mana_value: 0,
            quantity: 0,
            image_uri: Seq::empty(),
        },
    }
}

impl CardDisplayRecord {
    /// A record naming a card, everything else unknown.
    pub fn new(name: String) -> (r: CardDisplayRecord)
        ensures
            r@.name == name@,
            r@.type_field == CardType::Unknown,
            r@.mana_value == 0,
            r@.quantity == 0,
            r@.image_uri == Seq::<char>::empty(),
    {
        CardDisplayRecord {
            name,
            type_field: CardType::Unknown,
            mana_value: 0,
            quantity: 0,
            image_uri: String::new(),
        }
    }

    /// The display record of a catalog card.
    pub fn from_card(card: &crate::proto::Card) -> (r: CardDisplayRecord)
        ensures
            r@ == spec_record_of_card(card@),
    {
        let name = if card.card_faces.len() == 0 {
            card.name.clone()
        } else {
            proof {
                assert(card@.card_faces[0] == card.card_faces@[0]@);
            }
            card.card_faces[0].name.clone()
        };
        let type_field = match card.dominant_type() {
            Some(t) => t,
            None => CardType::Unknown,
        };
        CardDisplayRecord {
            name,
            type_field,
            mana_value: card.mana_value(),
            quantity: 1,
            image_uri: card.image_uri.clone(),
        }
    }
}

/// The display record for one id.
pub fn record_for_id(db: &CardsDatabase, id: i64) -> (r: CardDisplayRecord)
    ensures
        r@ == spec_record_for_id(db@, id),
{
    match db.get(id) {
        Some(card) => CardDisplayRecord::from_card(card),
        None => CardDisplayRecord::new(crate::text::i64_to_string(id)),
    }
}

/// True iff a hand piece spells a usable card id.
pub open spec fn valid_id_piece(p: Seq<char>) -> bool {
    p.len() > 0 && all_digits(p) && dec_value(p) <= i64::MAX
}

/// The display records of a hand's pieces: unreadable pieces are
/// dropped, the rest resolve against the database.
pub open spec fn spec_hand(db: Seq<CardModel>, pieces: Seq<Seq<char>>) -> Seq<
    CardDisplayRecordModel,
>
    decreases pieces.len(),
{
    if pieces.len() == 0 {
        Seq::empty()
    } else if valid_id_piece(pieces.last()) {
        spec_hand(db, pieces.drop_last()).push(
            spec_record_for_id(db, dec_value(pieces.last()) as i64),
        )
    } else {
        spec_hand(db, pieces.drop_last())
    }
}

/// One mulligan as the shell displays it: the hand resolved to records.
#[derive(Debug)]
pub struct Mulligan {
    pub hand: Vec<CardDisplayRecord>,
    pub opponent_identity: String,
    pub game_number: u32,
    pub number_to_keep: u32,
    pub play_draw: String,
    pub decision: String,
}

/// The mathematical content of a displayed mulligan.
pub ghost struct MulliganViewModel {
    pub hand: Seq<CardDisplayRecordModel>,
    pub opponent_identity: Seq<char>,
    pub game_number: u32,
    pub number_to_keep: u32,
    pub play_draw: Seq<char>,
    pub decision: Seq<char>,
}

impl View for Mulligan {
    type V = MulliganViewModel;

    open spec fn view(&self) -> MulliganViewModel {
        MulliganViewModel {
            hand: self.hand@.map_values(|c: CardDisplayRecord| c@),
            opponent_identity: self.opponent_identity@,
            game_number: self.game_number,
            number_to_keep: self.number_to_keep,
            play_draw: self.play_draw@,
            decision: self.decision@,
        }
    }
}

impl Mulligan {
    /// Resolves a comma-separated hand against the reference database.
    pub fn new(
        hand: &str,
        opponent_identity: String,
        game_number: u32,
        number_to_keep: u32,
        play_draw: String,
        decision: String,
        cards_database: &CardsDatabase,
    ) -> (m: Mulligan)
        ensures
            m@.hand == spec_hand(cards_database@, split_all(hand@, ',')),
            m@.opponent_identity == opponent_identity@,
            m@.game_number == game_number,
            m@.number_to_keep == number_to_keep,
            m@.play_draw == play_draw@,
            m@.decision == decision@,
    {
        let pieces = split_on(hand, ',');
        let ghost ps = split_all(hand@, ',');
        let mut records: Vec<CardDisplayRecord> = Vec::new();
        let mut i: usize = 0;
        while i < pieces.len()
            invariant
                0 <= i <= pieces@.len(),
                ps == split_all(hand@, ','),
                pieces@.map_values(|p: String| p@) == ps,
                records@.map_values(|c: CardDisplayRecord| c@) =~= spec_hand(
                    cards_database@,
                    ps.take(i as int),
                ),
            decreases pieces@.len() - i,
        {
            proof {
                assert(ps.take(i + 1).drop_last() =~= ps.take(i as int));
                assert(ps.take(i + 1).last() == ps[i as int]);
                assert(ps[i as int] == pieces@.map_values(|p: String| p@)[i as int]);
            }
            let ghost pre = records@;
            match parse_u64(pieces[i].as_str()) {
                Some(v) => {
                    if v <= i64::MAX as u64 {
                        let rec = record_for_id(cards_database, v as i64);
                        let ghost rv = rec@;
                        proof {
                            assert(pre.map_values(|c: CardDisplayRecord| c@).len()
                                == pre.len());
                        }
                        records.push(rec);
                        proof {
                            assert forall|k: int|
                                0 <= k < records@.len() implies #[trigger] records@[k]@
                                == spec_hand(cards_database@, ps.take(i + 1))[k] by {
                                if k < pre.len() {
                                    assert(records@[k] == pre[k]);
                                    assert(pre.map_values(|c: CardDisplayRecord| c@)[k]
                                        == pre[k]@);
                                } else {
                                    assert(records@[k] == records@.last());
                                }
                            }
                            assert(records@.map_values(|c: CardDisplayRecord| c@) =~= spec_hand(
                                cards_database@,
                                ps.take(i + 1),
                            ));
                        }
                    }
                },
                None => {},
            }
            proof {
                if !valid_id_piece(ps[i as int]) || dec_value(ps[i as int]) > i64::MAX {
                    assert(records@.map_values(|c: CardDisplayRecord| c@) =~= spec_hand(
                        cards_database@,
                        ps.take(i + 1),
                    ));
                }
            }
            i = i + 1;
        }
        proof {
            assert(ps.take(pieces@.len() as int) =~= ps);
        }
        Mulligan {
            hand: records,
            opponent_identity,
            game_number,
            number_to_keep,
            play_draw,
            decision,
        }
    }

    /// Resolves a stored mulligan for display.
    pub fn from_mulligan_info(mulligan_info: &MulliganInfo, cards_database: &CardsDatabase) -> (m:
        Mulligan)
        ensures
            m@.hand == spec_hand(cards_database@, split_all(mulligan_info@.hand, ',')),
            m@.opponent_identity == mulligan_info@.opponent_identity,
            m@.game_number == mulligan_info@.game_number,
            m@.number_to_keep == mulligan_info@.number_to_keep,
            m@.play_draw == mulligan_info@.play_draw,
            m@.decision == mulligan_info@.decision,
    {
        Mulligan::new(
            mulligan_info.hand.as_str(),
            mulligan_info.opponent_identity.clone(),
            mulligan_info.game_number,
            mulligan_info.number_to_keep,
            mulligan_info.play_draw.clone(),
            mulligan_info.decision.clone(),
            cards_database,
        )
    }
}

/// A whole match as the shell displays it.
#[derive(Debug)]
pub struct MatchDetails {
    pub id: String,
    pub did_controller_win: bool,
    pub controller_seat_id: u8,
    pub controller_player_name: String,
    pub opponent_player_name: String,
    pub created_at: String,
    pub primary_decklist: Option<Deck>,
    pub differences: Option<Vec<DeckDifference>>,
    pub game_results: Vec<GameResult>,
    pub decklists: Vec<Deck>,
    pub mulligans: Vec<Mulligan>,
}

/// Assembles everything the shell shows about one match from the query
/// surface: the header and derived controller-win flag, the decklists in
/// submission order with the first as primary and the pairwise
/// main-deck differences, the resolved mulligans, and the game results.
/// An id that is not stored yields an empty aggregate carrying the id.
pub fn match_details(db: &MatchDB, match_id: &str) -> (r: MatchDetails)
    ensures
        r.id@ == match_id@,
        spec_has_match(db@.matches, match_id@) ==> {
            let m = spec_match_of(db@.matches, match_id@);
            &&& r.controller_seat_id == m.controller_seat_id
            &&& r.controller_player_name@ == m.controller_player_name
            &&& r.opponent_player_name@ == m.opponent_player_name
            &&& r.created_at@ == m.created_at
            &&& r.did_controller_win == spec_did_controller_win(db@, match_id@)
        },
        !spec_has_match(db@.matches, match_id@) ==> !r.did_controller_win,
        r.decklists@.map_values(|d: Deck| d@) == decks_for(db@.decks, match_id@),
        r.game_results@.map_values(|g: GameResult| g@) == results_for(
            db@.game_results,
            match_id@,
        ),
        r.mulligans@.map_values(|m: Mulligan| m@) == mulligans_for(
            db@.mulligans,
            match_id@,
        ).map_values(
            |mi: crate::replay::MulliganInfoModel| MulliganViewModel {
                hand: spec_hand(db.cards_database@, split_all(mi.hand, ',')),
                opponent_identity: mi.opponent_identity,
                game_number: mi.game_number,
                number_to_keep: mi.number_to_keep,
                play_draw: mi.play_draw,
                decision: mi.decision,
            },
        ),
        r.primary_decklist is Some <==> decks_for(db@.decks, match_id@).len() > 0,
        r.primary_decklist is Some ==> r.primary_decklist->0@ == decks_for(
            db@.decks,
            match_id@,
        )[0],
        r.differences is Some <==> (r.decklists@.len() > 0 && forall|k: int|
            0 <= k < r.decklists@.len() - 1 ==> diffable_pair(
                #[trigger] r.decklists@[k],
                r.decklists@[k + 1],
            )),
        r.differences is Some ==> r.differences->0@.len() + 1 == decks_for(
            db@.decks,
            match_id@,
        ).len(),
        r.differences is Some ==> forall|k: int|
            0 <= k < r.differences->0@.len() ==> pair_diff_ok(
                r.decklists@,
                #[trigger] r.differences->0@[k],
                k,
            ),
{
    let (header, did_controller_win) = match db.get_match(match_id) {
        Ok(pair) => pair,
        Err(MatchDBError::NotFound(_)) => {
            (
                crate::store::MTGAMatch {
                    id: match_id.to_owned(),
                    controller_seat_id: 0,
                    controller_player_name: String::new(),
                    opponent_player_name: String::new(),
                    created_at: String::new(),
                },
                false,
            )
        },
        Err(MatchDBError::DuplicateMatch(_)) => {
            (
                crate::store::MTGAMatch {
                    id: match_id.to_owned(),
                    controller_seat_id: 0,
                    controller_player_name: String::new(),
                    opponent_player_name: String::new(),
                    created_at: String::new(),
                },
                false,
            )
        },
    };
    let decklists = db.get_decklists(match_id);
    let primary_decklist = if decklists.len() > 0 {
        proof {
            assert(decklists@[0]@ == decks_for(db@.decks, match_id@)[0]);
        }
        Some(decklists[0].clone())
    } else {
        None
    };
    let differences = compute_differences(&decklists);
    let raw_mulligans = db.get_mulligans(match_id);
    let ghost mull_models = mulligans_for(db@.mulligans, match_id@);
    let mut mulligans: Vec<Mulligan> = Vec::new();
    let mut i: usize = 0;
    while i < raw_mulligans.len()
        invariant
            0 <= i <= raw_mulligans@.len(),
            raw_mulligans@.map_values(|m: MulliganInfo| m@) == mull_models,
            mulligans@.map_values(|m: Mulligan| m@) =~= mull_models.take(i as int).map_values(
                |mi: crate::replay::MulliganInfoModel| MulliganViewModel {
                    hand: spec_hand(db.cards_database@, split_all(mi.hand, ',')),
                    opponent_identity: mi.opponent_identity,
                    game_number: mi.game_number,
                    number_to_keep: mi.number_to_keep,
                    play_draw: mi.play_draw,
                    decision: mi.decision,
                },
            ),
        decreases raw_mulligans@.len() - i,
    {
        let m = Mulligan::from_mulligan_info(&raw_mulligans[i], &db.cards_database);
        let ghost mv = m@;
        let ghost pre = mulligans@;
        proof {
            assert(pre.map_values(|m: Mulligan| m@).len() == pre.len());
            assert(raw_mulligans@[i as int]@ == mull_models[i as int]);
        }
        mulligans.push(m);
        proof {
            assert forall|k: int|
                0 <= k < mulligans@.len() implies #[trigger] mulligans@[k]@ == mull_models.take(
                i + 1,
            ).map_values(
                |mi: crate::replay::MulliganInfoModel| MulliganViewModel {
                    hand: spec_hand(db.cards_database@, split_all(mi.hand, ',')),
                    opponent_identity: mi.opponent_identity,
                    game_number: mi.game_number,
                    number_to_keep: mi.number_to_keep,
                    play_draw: mi.play_draw,
                    decision: mi.decision,
                },
            )[k] by {
                if k < pre.len() {
                    assert(mulligans@[k] == pre[k]);
                    assert(pre.map_values(|m: Mulligan| m@)[k] == pre[k]@);
                    assert(mull_models.take(i as int)[k] == mull_models[k]);
                } else {
                    assert(mulligans@[k] == mulligans@.last());
                }
            }
            assert(mulligans@.map_values(|m: Mulligan| m@) =~= mull_models.take(
                i + 1,
            ).map_values(
                |mi: crate::replay::MulliganInfoModel| MulliganViewModel {
                    hand: spec_hand(db.cards_database@, split_all(mi.hand, ',')),
                    opponent_identity: mi.opponent_identity,
                    game_number: mi.game_number,
                    number_to_keep: mi.number_to_keep,
                    play_draw: mi.play_draw,
                    decision: mi.decision,
                },
            ));
        }
        i = i + 1;
    }
    proof {
        assert(mull_models.take(raw_mulligans@.len() as int) =~= mull_models);
    }
    let game_results = db.get_match_results(match_id);
    MatchDetails {
        id: match_id.to_owned(),
        did_controller_win,
        controller_seat_id: header.controller_seat_id,
        controller_player_name: header.controller_player_name,
        opponent_player_name: header.opponent_player_name,
        created_at: header.created_at,
        primary_decklist,
        differences,
        game_results,
        decklists,
        mulligans,
    }
}

/// True iff an adjacent pair of submissions is within the diff bounds:
/// each main deck fits the index range and no card's total count
/// exceeds one entry.
pub open spec fn diffable_pair(a: Deck, b: Deck) -> bool {
    &&& a@.main_deck.len() <= u32::MAX
    &&& b@.main_deck.len() <= u32::MAX
    &&& crate::deck::bounded_counts(a@.main_deck)
    &&& crate::deck::bounded_counts(b@.main_deck)
}

/// True iff `d` is exactly the multiset delta from submission `k` to
/// submission `k + 1` of the given decklists.
pub open spec fn pair_diff_ok(ds: Seq<Deck>, d: DeckDifference, k: int) -> bool {
    &&& forall|id: u64|
        #[trigger] crate::deck::count_of(d.added@, id) == crate::deck::surplus(
            ds[k]@.main_deck,
            ds[k + 1]@.main_deck,
            id,
        )
    &&& forall|id: u64|
        #[trigger] crate::deck::count_of(d.removed@, id) == crate::deck::deficit(
            ds[k]@.main_deck,
            ds[k + 1]@.main_deck,
            id,
        )
}

/// The pairwise differences between successive submissions: one delta
/// per adjacent pair, each exactly the multiset delta of its pair.  The
/// delta covers the main deck — sideboard moves between games show up
/// there — while the stored decklists keep both lists verbatim.  The
/// deltas exist exactly when there is at least one submission and every
/// adjacent pair is within the diff bounds.
fn compute_differences(decklists: &Vec<Deck>) -> (r: Option<Vec<DeckDifference>>)
    ensures
        r is Some <==> (decklists@.len() > 0 && forall|k: int|
            0 <= k < decklists@.len() - 1 ==> diffable_pair(
                #[trigger] decklists@[k],
                decklists@[k + 1],
            )),
        r is Some ==> r->0@.len() + 1 == decklists@.len(),
        r is Some ==> forall|k: int|
            0 <= k < r->0@.len() ==> pair_diff_ok(decklists@, #[trigger] r->0@[k], k),
{
    if decklists.len() == 0 {
        return None;
    }
    let n = decklists.len();
    let mut out: Vec<DeckDifference> = Vec::new();
    let mut i: usize = 0;
    while i + 1 < n
        invariant
            0 <= i,
            n == decklists@.len(),
            n > 0,
            i + 1 <= n,
            out@.len() == i,
            forall|k: int| 0 <= k < i ==> pair_diff_ok(decklists@, #[trigger] out@[k], k),
            forall|k: int|
                0 <= k < i ==> diffable_pair(#[trigger] decklists@[k], decklists@[k + 1]),
        decreases n - i,
    {
        let prev = &decklists[i].main_deck;
        let next = &decklists[i + 1].main_deck;
        proof {
            assert(prev@ == decklists@[i as int]@.main_deck);
            assert(next@ == decklists@[i + 1]@.main_deck);
        }
        if prev.len() > 0xffff_ffff || next.len() > 0xffff_ffff {
            proof {
                assert(!diffable_pair(decklists@[i as int], decklists@[i + 1]));
            }
            return None;
        }
        if !counts_bounded(prev) || !counts_bounded(next) {
            proof {
                assert(!diffable_pair(decklists@[i as int], decklists@[i + 1]));
            }
            return None;
        }
        proof {
            assert(diffable_pair(decklists@[i as int], decklists@[i + 1]));
        }
        let d = diff(prev, next);
        let ghost pre = out@;
        out.push(d);
        proof {
            assert forall|k: int| 0 <= k < out@.len() implies pair_diff_ok(
                decklists@,
                #[trigger] out@[k],
                k,
            ) by {
                if k < i {
                    assert(out@[k] == pre[k]);
                } else {
                    assert(out@[k] == out@.last());
                }
            }
        }
        i = i + 1;
    }
    Some(out)
}

} // verus!
