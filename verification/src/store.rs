//! The relational sink, modelled table by table.
//!
//! The schema is the contract: completed replays are decomposed into the
//! `matches`, `decks`, `mulligans` and `game_results` tables, one write
//! is one transaction — all sub-tables inserted together or not at all —
//! and a repeated match id is rejected with a typed error, the first copy
//! unchanged.  The query surface reads the tables back; the controller-win
//! flag is derived from the recorded game results by strict majority.

use vstd::prelude::*;

verus! {

use crate::deck::Deck;
use crate::deck::DeckModel;
use crate::migrations::spec_migration_count;
use crate::migrations::migration_count;
use crate::replay::GameResult;
use crate::replay::GameResultModel;
use crate::replay::MatchReplay;
use crate::replay::MatchReplayModel;
use crate::replay::MulliganInfo;
use crate::replay::MulliganInfoModel;
use crate::text::str_eq;

/// One match header, as the `matches` table stores it.
#[derive(Debug)]
pub struct MTGAMatch {
    pub id: String,
    pub controller_seat_id: u8,
    pub controller_player_name: String,
    pub opponent_player_name: String,
    pub created_at: String,
}

/// The mathematical content of a match header.
pub ghost struct MTGAMatchModel {
    pub id: Seq<char>,
    pub controller_seat_id: u8,
    pub controller_player_name: Seq<char>,
    pub opponent_player_name: Seq<char>,
    pub created_at: Seq<char>,
}

impl View for MTGAMatch {
    type V = MTGAMatchModel;

    open spec fn view(&self) -> MTGAMatchModel {
        MTGAMatchModel {
            id: self.id@,
            controller_seat_id: self.controller_seat_id,
            controller_player_name: self.controller_player_name@,
            opponent_player_name: self.opponent_player_name@,
            created_at: self.created_at@,
        }
    }
}

impl Clone for MTGAMatch {
    /// A clone holds the same header.
    fn clone(&self) -> (r: MTGAMatch)
        ensures
            r@ == self@,
    {
        MTGAMatch {
            id: self.id.clone(),
            controller_seat_id: self.controller_seat_id,
            controller_player_name: self.controller_player_name.clone(),
            opponent_player_name: self.opponent_player_name.clone(),
            created_at: self.created_at.clone(),
        }
    }
}

/// One row of the `decks` table.
#[derive(Debug)]
pub struct DeckRow {
    pub match_id: String,
    pub deck_index: u32,
    pub deck: Deck,
}

/// The mathematical content of a deck row.
pub ghost struct DeckRowModel {
    pub match_id: Seq<char>,
    pub deck_index: u32,
    pub deck: DeckModel,
}

impl View for DeckRow {
    type V = DeckRowModel;

    open spec fn view(&self) -> DeckRowModel {
        DeckRowModel { match_id: self.match_id@, deck_index: self.deck_index, deck: self.deck@ }
    }
}

/// One row of the `mulligans` table.
#[derive(Debug)]
pub struct MulliganRow {
    pub match_id: String,
    pub mulligan: MulliganInfo,
}

/// The mathematical content of a mulligan row.
pub ghost struct MulliganRowModel {
    pub match_id: Seq<char>,
    pub mulligan: MulliganInfoModel,
}

impl View for MulliganRow {
    type V = MulliganRowModel;

    open spec fn view(&self) -> MulliganRowModel {
        MulliganRowModel { match_id: self.match_id@, mulligan: self.mulligan@ }
    }
}

/// One row of the `game_results` table.
#[derive(Debug)]
pub struct GameResultRow {
    pub match_id: String,
    pub result: GameResult,
}

/// The mathematical content of a game-result row.
pub ghost struct GameResultRowModel {
    pub match_id: Seq<char>,
    pub result: GameResultModel,
}

impl View for GameResultRow {
    type V = GameResultRowModel;

    open spec fn view(&self) -> GameResultRowModel {
        GameResultRowModel { match_id: self.match_id@, result: self.result@ }
    }
}

/// Why the relational sink rejected an operation.
#[derive(Debug)]
pub enum MatchDBError {
    /// A match with this id is already stored.
    DuplicateMatch(String),
    /// No match with this id is stored.
    NotFound(String),
}

/// The mathematical content of the store: the schema index reached and
/// the four tables in insertion order.
pub ghost struct StoreModel {
    pub version: u32,
    pub matches: Seq<MTGAMatchModel>,
    pub decks: Seq<DeckRowModel>,
    pub mulligans: Seq<MulliganRowModel>,
    pub game_results: Seq<GameResultRowModel>,
}

/// True iff a match with this id is stored.
pub open spec fn spec_has_match(matches: Seq<MTGAMatchModel>, id: Seq<char>) -> bool {
    exists|i: int| 0 <= i < matches.len() && (#[trigger] matches[i]).id == id
}

/// The first stored match with this id.
pub open spec fn spec_match_of(matches: Seq<MTGAMatchModel>, id: Seq<char>) -> MTGAMatchModel
    decreases matches.len(),
{
    if matches.len() == 0 {
        MTGAMatchModel {
            id: Seq::empty(),
            controller_seat_id: 0u8,
            controller_player_name: Seq::empty(),
            opponent_player_name: Seq::empty(),
            created_at: Seq::empty(),
        }
    } else if matches[0].id == id {
        matches[0]
    } else {
        spec_match_of(matches.drop_first(), id)
    }
}

/// The decklists stored for this match, in submission order.
pub open spec fn decks_for(rows: Seq<DeckRowModel>, id: Seq<char>) -> Seq<DeckModel>
    decreases rows.len(),
{
    if rows.len() == 0 {
        Seq::empty()
    } else if rows.last().match_id == id {
        decks_for(rows.drop_last(), id).push(rows.last().deck)
    } else {
        decks_for(rows.drop_last(), id)
    }
}

/// The mulligans stored for this match, in insertion order.
pub open spec fn mulligans_for(rows: Seq<MulliganRowModel>, id: Seq<char>) -> Seq<
    MulliganInfoModel,
>
    decreases rows.len(),
{
    if rows.len() == 0 {
        Seq::empty()
    } else if rows.last().match_id == id {
        mulligans_for(rows.drop_last(), id).push(rows.last().mulligan)
    } else {
        mulligans_for(rows.drop_last(), id)
    }
}

/// The game results stored for this match, in insertion order.
pub open spec fn results_for(rows: Seq<GameResultRowModel>, id: Seq<char>) -> Seq<
    GameResultModel,
>
    decreases rows.len(),
{
    if rows.len() == 0 {
        Seq::empty()
    } else if rows.last().match_id == id {
        results_for(rows.drop_last(), id).push(rows.last().result)
    } else {
        results_for(rows.drop_last(), id)
    }
}

/// How many of these results the given seat won.
pub open spec fn wins_in(rs: Seq<GameResultModel>, seat: u8) -> int
    decreases rs.len(),
{
    if rs.len() == 0 {
        0
    } else {
        wins_in(rs.drop_last(), seat) + if rs.last().winning_seat_id == seat {
            1int
        } else {
            0
        }
    }
}

/// Controller-win derivation: true iff a strict majority of the recorded
/// game results name the controller's seat as the winner.
pub open spec fn spec_did_controller_win(s: StoreModel, id: Seq<char>) -> bool {
    let m = spec_match_of(s.matches, id);
    let rs = results_for(s.game_results, id);
    wins_in(rs, m.controller_seat_id) > rs.len() / 2
}

/// The header a replay contributes to the `matches` table.
pub open spec fn header_of(r: MatchReplayModel) -> MTGAMatchModel {
    MTGAMatchModel {
        id: r.match_id,
        controller_seat_id: r.controller_seat_id,
        controller_player_name: r.controller_player_name,
        opponent_player_name: r.opponent_player_name,
        created_at: r.created_at,
    }
}

/// The rows a decklist sequence contributes, indexed in submission order.
pub open spec fn deck_rows_of(id: Seq<char>, ds: Seq<DeckModel>) -> Seq<DeckRowModel>
    decreases ds.len(),
{
    if ds.len() == 0 {
        Seq::empty()
    } else {
        deck_rows_of(id, ds.drop_last()).push(
            DeckRowModel { match_id: id, deck_index: (ds.len() - 1) as u32, deck: ds.last() },
        )
    }
}

/// The rows a mulligan sequence contributes.
pub open spec fn mulligan_rows_of(id: Seq<char>, ms: Seq<MulliganInfoModel>) -> Seq<
    MulliganRowModel,
>
    decreases ms.len(),
{
    if ms.len() == 0 {
        Seq::empty()
    } else {
        mulligan_rows_of(id, ms.drop_last()).push(
            MulliganRowModel { match_id: id, mulligan: ms.last() },
        )
    }
}

/// The rows a game-result sequence contributes.
pub open spec fn result_rows_of(id: Seq<char>, rs: Seq<GameResultModel>) -> Seq<
    GameResultRowModel,
>
    decreases rs.len(),
{
    if rs.len() == 0 {
        Seq::empty()
    } else {
        result_rows_of(id, rs.drop_last()).push(
            GameResultRowModel { match_id: id, result: rs.last() },
        )
    }
}

/// One write is one transaction: the header and every sub-table row are
/// appended together.
pub open spec fn insert_spec(s: StoreModel, r: MatchReplayModel) -> StoreModel {
    StoreModel {
        version: s.version,
        matches: s.matches.push(header_of(r)),
        decks: s.decks + deck_rows_of(r.match_id, r.decklists),
        mulligans: s.mulligans + mulligan_rows_of(r.match_id, r.mulligans),
        game_results: s.game_results + result_rows_of(r.match_id, r.game_results),
    }
}

/// Applying the migration ladder brings the schema index to the latest
/// step and leaves every table as it was.
pub open spec fn init_spec(s: StoreModel) -> StoreModel {
    StoreModel { version: spec_migration_count() as u32, ..s }
}

/// Migration idempotence: running `init` twice is observationally
/// equivalent to running it once.
pub proof fn lemma_init_idempotent(s: StoreModel)
    ensures
        init_spec(init_spec(s)) == init_spec(s),
{
}

/// The store invariant: match ids are unique, and every sub-table row
/// points at a stored match.
pub open spec fn store_wf(s: StoreModel) -> bool {
    &&& forall|i: int, j: int|
        0 <= i < j < s.matches.len() ==> (#[trigger] s.matches[i]).id != (
        #[trigger] s.matches[j]).id
    &&& forall|i: int|
        0 <= i < s.decks.len() ==> spec_has_match(s.matches, (#[trigger] s.decks[i]).match_id)
    &&& forall|i: int|
        0 <= i < s.mulligans.len() ==> spec_has_match(
            s.matches,
            (#[trigger] s.mulligans[i]).match_id,
        )
    &&& forall|i: int|
        0 <= i < s.game_results.len() ==> spec_has_match(
            s.matches,
            (#[trigger] s.game_results[i]).match_id,
        )
}

proof fn lemma_wins_nonneg(rs: Seq<GameResultModel>, seat: u8)
    ensures
        wins_in(rs, seat) >= 0,
        wins_in(rs, seat) <= rs.len(),
    decreases rs.len(),
{
    if rs.len() > 0 {
        lemma_wins_nonneg(rs.drop_last(), seat);
    }
}

proof fn lemma_match_of_at(ms: Seq<MTGAMatchModel>, i: int, id: Seq<char>)
    requires
        0 <= i < ms.len(),
        ms[i].id == id,
        forall|j: int| 0 <= j < i ==> (#[trigger] ms[j]).id != id,
    ensures
        spec_match_of(ms, id) == ms[i],
        spec_has_match(ms, id),
    decreases i,
{
    if i > 0 {
        assert(forall|j: int| 0 <= j < i - 1 ==> (#[trigger] ms.drop_first()[j]) == ms[j + 1]);
        assert(ms.drop_first()[i - 1] == ms[i]);
        lemma_match_of_at(ms.drop_first(), i - 1, id);
    }
}

/// A pushed header is found, and anything found before is still found.
proof fn lemma_has_match_push(ms: Seq<MTGAMatchModel>, m: MTGAMatchModel, id: Seq<char>)
    ensures
        spec_has_match(ms.push(m), id) <==> (spec_has_match(ms, id) || m.id == id),
{
    if spec_has_match(ms.push(m), id) {
        let i = choose|i: int|
            0 <= i < ms.push(m).len() && (#[trigger] ms.push(m)[i]).id == id;
        if i < ms.len() {
            assert(ms[i].id == id);
        }
    }
    if spec_has_match(ms, id) {
        let i = choose|i: int| 0 <= i < ms.len() && (#[trigger] ms[i]).id == id;
        assert(ms.push(m)[i].id == id);
    }
    if m.id == id {
        assert(ms.push(m)[ms.len() as int].id == id);
    }
}

/// Looking a fresh id up after a push reaches the pushed header.
proof fn lemma_match_of_push_fresh(ms: Seq<MTGAMatchModel>, m: MTGAMatchModel)
    requires
        !spec_has_match(ms, m.id),
    ensures
        spec_match_of(ms.push(m), m.id) == m,
    decreases ms.len(),
{
    if ms.len() == 0 {
        assert(ms.push(m)[0] == m);
    } else {
        assert(ms[0].id != m.id) by {
            if ms[0].id == m.id {
                assert(spec_has_match(ms, m.id));
            }
        }
        assert(!spec_has_match(ms.drop_first(), m.id)) by {
            if spec_has_match(ms.drop_first(), m.id) {
                let i = choose|i: int|
                    0 <= i < ms.drop_first().len() && (#[trigger] ms.drop_first()[i]).id
                        == m.id;
                assert(ms[i + 1].id == m.id);
            }
        }
        assert(ms.push(m).drop_first() =~= ms.drop_first().push(m));
        lemma_match_of_push_fresh(ms.drop_first(), m);
    }
}

/// Filtering distributes over appending rows.
proof fn lemma_decks_for_app(a: Seq<DeckRowModel>, b: Seq<DeckRowModel>, id: Seq<char>)
    ensures
        decks_for(a + b, id) == decks_for(a, id) + decks_for(b, id),
    decreases b.len(),
{
    if b.len() == 0 {
        assert(a + b =~= a);
        assert(decks_for(a, id) + decks_for(b, id) =~= decks_for(a, id));
    } else {
        assert((a + b).drop_last() =~= a + b.drop_last());
        assert((a + b).last() == b.last());
        lemma_decks_for_app(a, b.drop_last(), id);
        if b.last().match_id == id {
            assert(decks_for(a, id) + decks_for(b.drop_last(), id).push(b.last().deck)
                =~= (decks_for(a, id) + decks_for(b.drop_last(), id)).push(b.last().deck));
        }
    }
}

proof fn lemma_mulligans_for_app(a: Seq<MulliganRowModel>, b: Seq<MulliganRowModel>, id: Seq<
    char,
>)
    ensures
        mulligans_for(a + b, id) == mulligans_for(a, id) + mulligans_for(b, id),
    decreases b.len(),
{
    if b.len() == 0 {
        assert(a + b =~= a);
        assert(mulligans_for(a, id) + mulligans_for(b, id) =~= mulligans_for(a, id));
    } else {
        assert((a + b).drop_last() =~= a + b.drop_last());
        assert((a + b).last() == b.last());
        lemma_mulligans_for_app(a, b.drop_last(), id);
        if b.last().match_id == id {
            assert(mulligans_for(a, id) + mulligans_for(b.drop_last(), id).push(
                b.last().mulligan,
            ) =~= (mulligans_for(a, id) + mulligans_for(b.drop_last(), id)).push(
                b.last().mulligan,
            ));
        }
    }
}

proof fn lemma_results_for_app(a: Seq<GameResultRowModel>, b: Seq<GameResultRowModel>, id: Seq<
    char,
>)
    ensures
        results_for(a + b, id) == results_for(a, id) + results_for(b, id),
    decreases b.len(),
{
    if b.len() == 0 {
        assert(a + b =~= a);
        assert(results_for(a, id) + results_for(b, id) =~= results_for(a, id));
    } else {
        assert((a + b).drop_last() =~= a + b.drop_last());
        assert((a + b).last() == b.last());
        lemma_results_for_app(a, b.drop_last(), id);
        if b.last().match_id == id {
            assert(results_for(a, id) + results_for(b.drop_last(), id).push(b.last().result)
                =~= (results_for(a, id) + results_for(b.drop_last(), id)).push(
                b.last().result,
            ));
        }
    }
}

/// Rows that all carry other ids filter to nothing.
proof fn lemma_decks_for_absent(rows: Seq<DeckRowModel>, id: Seq<char>)
    requires
        forall|i: int| 0 <= i < rows.len() ==> (#[trigger] rows[i]).match_id != id,
    ensures
        decks_for(rows, id) == Seq::<DeckModel>::empty(),
    decreases rows.len(),
{
    if rows.len() > 0 {
        assert(rows[rows.len() - 1] == rows.last());
        assert(forall|i: int|
            0 <= i < rows.len() - 1 ==> (#[trigger] rows.drop_last()[i]) == rows[i]);
        lemma_decks_for_absent(rows.drop_last(), id);
    }
}

proof fn lemma_mulligans_for_absent(rows: Seq<MulliganRowModel>, id: Seq<char>)
    requires
        forall|i: int| 0 <= i < rows.len() ==> (#[trigger] rows[i]).match_id != id,
    ensures
        mulligans_for(rows, id) == Seq::<MulliganInfoModel>::empty(),
    decreases rows.len(),
{
    if rows.len() > 0 {
        assert(rows[rows.len() - 1] == rows.last());
        assert(forall|i: int|
            0 <= i < rows.len() - 1 ==> (#[trigger] rows.drop_last()[i]) == rows[i]);
        lemma_mulligans_for_absent(rows.drop_last(), id);
    }
}

proof fn lemma_results_for_absent(rows: Seq<GameResultRowModel>, id: Seq<char>)
    requires
        forall|i: int| 0 <= i < rows.len() ==> (#[trigger] rows[i]).match_id != id,
    ensures
        results_for(rows, id) == Seq::<GameResultModel>::empty(),
    decreases rows.len(),
{
    if rows.len() > 0 {
        assert(rows[rows.len() - 1] == rows.last());
        assert(forall|i: int|
            0 <= i < rows.len() - 1 ==> (#[trigger] rows.drop_last()[i]) == rows[i]);
        lemma_results_for_absent(rows.drop_last(), id);
    }
}

/// The rows a replay contributes all carry its id, and filtering them by
/// that id gives the original sequences back.
proof fn lemma_deck_rows_of(id: Seq<char>, ds: Seq<DeckModel>)
    ensures
        decks_for(deck_rows_of(id, ds), id) == ds,
        forall|i: int|
            0 <= i < deck_rows_of(id, ds).len() ==> (#[trigger] deck_rows_of(id, ds)[i]).match_id
                == id,
        deck_rows_of(id, ds).len() == ds.len(),
    decreases ds.len(),
{
    if ds.len() > 0 {
        lemma_deck_rows_of(id, ds.drop_last());
        let rows = deck_rows_of(id, ds);
        assert(rows.drop_last() =~= deck_rows_of(id, ds.drop_last()));
        assert(decks_for(rows, id) =~= ds);
        assert forall|i: int| 0 <= i < rows.len() implies (#[trigger] rows[i]).match_id
            == id by {
            if i < rows.len() - 1 {
                assert(rows[i] == deck_rows_of(id, ds.drop_last())[i]);
            } else {
                assert(rows[i] == rows.last());
            }
        }
    }
}

proof fn lemma_mulligan_rows_of(id: Seq<char>, ms: Seq<MulliganInfoModel>)
    ensures
        mulligans_for(mulligan_rows_of(id, ms), id) == ms,
        forall|i: int|
            0 <= i < mulligan_rows_of(id, ms).len() ==> (#[trigger] mulligan_rows_of(
                id,
                ms,
            )[i]).match_id == id,
        mulligan_rows_of(id, ms).len() == ms.len(),
    decreases ms.len(),
{
    if ms.len() > 0 {
        lemma_mulligan_rows_of(id, ms.drop_last());
        let rows = mulligan_rows_of(id, ms);
        assert(rows.drop_last() =~= mulligan_rows_of(id, ms.drop_last()));
        assert(mulligans_for(rows, id) =~= ms);
        assert forall|i: int| 0 <= i < rows.len() implies (#[trigger] rows[i]).match_id
            == id by {
            if i < rows.len() - 1 {
                assert(rows[i] == mulligan_rows_of(id, ms.drop_last())[i]);
            } else {
                assert(rows[i] == rows.last());
            }
        }
    }
}

proof fn lemma_result_rows_of(id: Seq<char>, rs: Seq<GameResultModel>)
    ensures
        results_for(result_rows_of(id, rs), id) == rs,
        forall|i: int|
            0 <= i < result_rows_of(id, rs).len() ==> (#[trigger] result_rows_of(
                id,
                rs,
            )[i]).match_id == id,
        result_rows_of(id, rs).len() == rs.len(),
    decreases rs.len(),
{
    if rs.len() > 0 {
        lemma_result_rows_of(id, rs.drop_last());
        let rows = result_rows_of(id, rs);
        assert(rows.drop_last() =~= result_rows_of(id, rs.drop_last()));
        assert(results_for(rows, id) =~= rs);
        assert forall|i: int| 0 <= i < rows.len() implies (#[trigger] rows[i]).match_id
            == id by {
            if i < rows.len() - 1 {
                assert(rows[i] == result_rows_of(id, rs.drop_last())[i]);
            } else {
                assert(rows[i] == rows.last());
            }
        }
    }
}

/// Inserting a fresh replay keeps the store invariant.
proof fn lemma_insert_preserves_wf(s: StoreModel, r: MatchReplayModel)
    requires
        store_wf(s),
        !spec_has_match(s.matches, r.match_id),
    ensures
        store_wf(insert_spec(s, r)),
{
    let s2 = insert_spec(s, r);
    lemma_deck_rows_of(r.match_id, r.decklists);
    lemma_mulligan_rows_of(r.match_id, r.mulligans);
    lemma_result_rows_of(r.match_id, r.game_results);
    assert forall|i: int, j: int| 0 <= i < j < s2.matches.len() implies (
    #[trigger] s2.matches[i]).id != (#[trigger] s2.matches[j]).id by {
        if j == s2.matches.len() - 1 {
            assert(s2.matches[i] == s.matches[i]);
            if s.matches[i].id == r.match_id {
                assert(spec_has_match(s.matches, r.match_id));
            }
        } else {
            assert(s2.matches[i] == s.matches[i]);
            assert(s2.matches[j] == s.matches[j]);
        }
    }
    assert forall|i: int| 0 <= i < s2.decks.len() implies spec_has_match(
        s2.matches,
        (#[trigger] s2.decks[i]).match_id,
    ) by {
        if i < s.decks.len() {
            assert(s2.decks[i] == s.decks[i]);
            lemma_has_match_push(s.matches, header_of(r), s.decks[i].match_id);
        } else {
            assert(s2.decks[i] == deck_rows_of(r.match_id, r.decklists)[i - s.decks.len()]);
            lemma_has_match_push(s.matches, header_of(r), r.match_id);
        }
    }
    assert forall|i: int| 0 <= i < s2.mulligans.len() implies spec_has_match(
        s2.matches,
        (#[trigger] s2.mulligans[i]).match_id,
    ) by {
        if i < s.mulligans.len() {
            assert(s2.mulligans[i] == s.mulligans[i]);
            lemma_has_match_push(s.matches, header_of(r), s.mulligans[i].match_id);
        } else {
            assert(s2.mulligans[i] == mulligan_rows_of(r.match_id, r.mulligans)[i
                - s.mulligans.len()]);
            lemma_has_match_push(s.matches, header_of(r), r.match_id);
        }
    }
    assert forall|i: int| 0 <= i < s2.game_results.len() implies spec_has_match(
        s2.matches,
        (#[trigger] s2.game_results[i]).match_id,
    ) by {
        if i < s.game_results.len() {
            assert(s2.game_results[i] == s.game_results[i]);
            lemma_has_match_push(s.matches, header_of(r), s.game_results[i].match_id);
        } else {
            assert(s2.game_results[i] == result_rows_of(r.match_id, r.game_results)[i
                - s.game_results.len()]);
            lemma_has_match_push(s.matches, header_of(r), r.match_id);
        }
    }
}

/// Relational round-trip: after a replay is written under a fresh match
/// id, the query surface reconstructs its aggregate exactly — the header,
/// the decklists in submission order, the mulligans and the game results.
pub proof fn lemma_write_round_trip(s: StoreModel, r: MatchReplayModel)
    requires
        store_wf(s),
        !spec_has_match(s.matches, r.match_id),
    ensures
        spec_has_match(insert_spec(s, r).matches, r.match_id),
        spec_match_of(insert_spec(s, r).matches, r.match_id) == header_of(r),
        decks_for(insert_spec(s, r).decks, r.match_id) == r.decklists,
        mulligans_for(insert_spec(s, r).mulligans, r.match_id) == r.mulligans,
        results_for(insert_spec(s, r).game_results, r.match_id) == r.game_results,
{
    let s2 = insert_spec(s, r);
    lemma_has_match_push(s.matches, header_of(r), r.match_id);
    lemma_match_of_push_fresh(s.matches, header_of(r));
    lemma_deck_rows_of(r.match_id, r.decklists);
    lemma_mulligan_rows_of(r.match_id, r.mulligans);
    lemma_result_rows_of(r.match_id, r.game_results);
    lemma_decks_for_app(s.decks, deck_rows_of(r.match_id, r.decklists), r.match_id);
    lemma_mulligans_for_app(s.mulligans, mulligan_rows_of(r.match_id, r.mulligans), r.match_id);
    lemma_results_for_app(
        s.game_results,
        result_rows_of(r.match_id, r.game_results),
        r.match_id,
    );
    assert forall|i: int| 0 <= i < s.decks.len() implies (#[trigger] s.decks[i]).match_id
        != r.match_id by {
        if s.decks[i].match_id == r.match_id {
            assert(spec_has_match(s.matches, s.decks[i].match_id));
        }
    }
    lemma_decks_for_absent(s.decks, r.match_id);
    assert forall|i: int| 0 <= i < s.mulligans.len() implies (
    #[trigger] s.mulligans[i]).match_id != r.match_id by {
        if s.mulligans[i].match_id == r.match_id {
            assert(spec_has_match(s.matches, s.mulligans[i].match_id));
        }
    }
    lemma_mulligans_for_absent(s.mulligans, r.match_id);
    assert forall|i: int| 0 <= i < s.game_results.len() implies (
    #[trigger] s.game_results[i]).match_id != r.match_id by {
        if s.game_results[i].match_id == r.match_id {
            assert(spec_has_match(s.matches, s.game_results[i].match_id));
        }
    }
    lemma_results_for_absent(s.game_results, r.match_id);
    assert(decks_for(s2.decks, r.match_id) =~= r.decklists);
    assert(mulligans_for(s2.mulligans, r.match_id) =~= r.mulligans);
    assert(results_for(s2.game_results, r.match_id) =~= r.game_results);
}

/// The relational store, together with the card reference database its
/// consumers resolve ids against.
pub struct MatchDB {
    pub cards_database: crate::cards::CardsDatabase,
    pub version: u32,
    pub matches: Vec<MTGAMatch>,
    pub decks: Vec<DeckRow>,
    pub mulligans: Vec<MulliganRow>,
    pub game_results: Vec<GameResultRow>,
}

impl View for MatchDB {
    type V = StoreModel;

    closed spec fn view(&self) -> StoreModel {
        StoreModel {
            version: self.version,
            matches: self.matches@.map_values(|m: MTGAMatch| m@),
            decks: self.decks@.map_values(|d: DeckRow| d@),
            mulligans: self.mulligans@.map_values(|m: MulliganRow| m@),
            game_results: self.game_results@.map_values(|g: GameResultRow| g@),
        }
    }
}

impl MatchDB {
    /// An empty store whose schema has not been migrated yet, resolving
    /// card ids against the given reference database.
    pub fn new(cards_database: crate::cards::CardsDatabase) -> (db: MatchDB)
        ensures
            db@.version == 0,
            db@.matches.len() == 0,
            db@.decks.len() == 0,
            db@.mulligans.len() == 0,
            db@.game_results.len() == 0,
            db.cards_database@ == cards_database@,
            store_wf(db@),
    {
        MatchDB {
            cards_database,
            version: 0,
            matches: Vec::new(),
            decks: Vec::new(),
            mulligans: Vec::new(),
            game_results: Vec::new(),
        }
    }

    /// Brings the schema to the latest index by applying the missing
    /// migration steps; the tables are untouched, so a second run
    /// changes nothing.
    pub fn init(&mut self)
        ensures
            final(self)@ == init_spec(old(self)@),
            store_wf(old(self)@) ==> store_wf(final(self)@),
    {
        self.version = migration_count();
        proof {
            assert(self@.matches == old(self)@.matches);
            assert(self@.decks == old(self)@.decks);
            assert(self@.mulligans == old(self)@.mulligans);
            assert(self@.game_results == old(self)@.game_results);
        }
    }

    /// The schema index reached so far.
    pub fn schema_version(&self) -> (v: u32)
        ensures
            v == self@.version,
    {
        self.version
    }

    /// Writes one replay as one transaction: the header row and every
    /// sub-table row are appended together, or — when the match id is
    /// already stored — nothing changes and the duplicate is reported
    /// with a typed error.
    pub fn insert_replay(&mut self, replay: &MatchReplay) -> (r: Result<(), MatchDBError>)
        requires
            replay.decklists@.len() <= u32::MAX,
        ensures
            r is Ok <==> !spec_has_match(old(self)@.matches, replay@.match_id),
            r is Err ==> final(self)@ == old(self)@,
            r is Err ==> (r->Err_0 matches MatchDBError::DuplicateMatch(m) && m@
                == replay@.match_id),
            r is Ok ==> final(self)@ == insert_spec(old(self)@, replay@),
            store_wf(old(self)@) ==> store_wf(final(self)@),
    {
        let ghost s0 = self@;
        let ghost rm = replay@;
        if self.has_match(replay.match_id.as_str()) {
            return Err(MatchDBError::DuplicateMatch(replay.match_id.clone()));
        }
        self.matches.push(
            MTGAMatch {
                id: replay.match_id.clone(),
                controller_seat_id: replay.controller_seat_id,
                controller_player_name: replay.controller_player_name.clone(),
                opponent_player_name: replay.opponent_player_name.clone(),
                created_at: replay.created_at.clone(),
            },
        );
        proof {
            assert(self@.matches =~= s0.matches.push(header_of(rm)));
        }
        let mut i: usize = 0;
        while i < replay.decklists.len()
            invariant
                0 <= i <= replay.decklists@.len(),
                replay.decklists@.len() <= u32::MAX,
                rm == replay@,
                self@.decks =~= s0.decks + deck_rows_of(rm.match_id, rm.decklists.take(i as int)),
                self@.matches == s0.matches.push(header_of(rm)),
                self@.mulligans == s0.mulligans,
                self@.game_results == s0.game_results,
                self@.version == s0.version,
            decreases replay.decklists@.len() - i,
        {
            let row = DeckRow {
                match_id: replay.match_id.clone(),
                deck_index: i as u32,
                deck: replay.decklists[i].clone(),
            };
            let ghost rowm = row@;
            let ghost decks_pre = self@.decks;
            self.decks.push(row);
            proof {
                assert(rm.decklists.take(i + 1).drop_last() =~= rm.decklists.take(i as int));
                assert(rm.decklists.take(i + 1).last() == rm.decklists[i as int]);
                assert(rm.decklists[i as int] == replay.decklists@.map_values(|d: Deck| d@)[i as int]);
                assert(self@.decks =~= decks_pre.push(rowm));
                assert(rowm.match_id == rm.match_id);
                assert(rowm.deck_index == (rm.decklists.take(i + 1).len() - 1) as u32);
                assert(rowm.deck == rm.decklists.take(i + 1).last());
                assert(deck_rows_of(rm.match_id, rm.decklists.take(i + 1)) == deck_rows_of(
                    rm.match_id,
                    rm.decklists.take(i as int),
                ).push(rowm));
                assert(self@.decks =~= s0.decks + deck_rows_of(
                    rm.match_id,
                    rm.decklists.take(i + 1),
                ));
            }
            i = i + 1;
        }
        proof {
            assert(rm.decklists.take(replay.decklists@.len() as int) =~= rm.decklists);
        }
        let mut j: usize = 0;
        while j < replay.mulligans.len()
            invariant
                0 <= j <= replay.mulligans@.len(),
                rm == replay@,
                self@.mulligans =~= s0.mulligans + mulligan_rows_of(
                    rm.match_id,
                    rm.mulligans.take(j as int),
                ),
                self@.matches == s0.matches.push(header_of(rm)),
                self@.decks == s0.decks + deck_rows_of(rm.match_id, rm.decklists),
                self@.game_results == s0.game_results,
                self@.version == s0.version,
            decreases replay.mulligans@.len() - j,
        {
            let row = MulliganRow {
                match_id: replay.match_id.clone(),
                mulligan: replay.mulligans[j].clone(),
            };
            let ghost rowm = row@;
            let ghost mulls_pre = self@.mulligans;
            self.mulligans.push(row);
            proof {
                assert(rm.mulligans.take(j + 1).drop_last() =~= rm.mulligans.take(j as int));
                assert(rm.mulligans.take(j + 1).last() == rm.mulligans[j as int]);
                assert(rm.mulligans[j as int] == replay.mulligans@.map_values(
                    |m: MulliganInfo| m@,
                )[j as int]);
                assert(self@.mulligans =~= mulls_pre.push(rowm));
                assert(rowm.match_id == rm.match_id);
                assert(rowm.mulligan == rm.mulligans.take(j + 1).last());
                assert(mulligan_rows_of(rm.match_id, rm.mulligans.take(j + 1))
                    == mulligan_rows_of(rm.match_id, rm.mulligans.take(j as int)).push(rowm));
                assert(self@.mulligans =~= s0.mulligans + mulligan_rows_of(
                    rm.match_id,
                    rm.mulligans.take(j + 1),
                ));
            }
            j = j + 1;
        }
        proof {
            assert(rm.mulligans.take(replay.mulligans@.len() as int) =~= rm.mulligans);
        }
        let mut k: usize = 0;
        while k < replay.game_results.len()
            invariant
                0 <= k <= replay.game_results@.len(),
                rm == replay@,
                self@.game_results =~= s0.game_results + result_rows_of(
                    rm.match_id,
                    rm.game_results.take(k as int),
                ),
                self@.matches == s0.matches.push(header_of(rm)),
                self@.decks == s0.decks + deck_rows_of(rm.match_id, rm.decklists),
                self@.mulligans == s0.mulligans + mulligan_rows_of(rm.match_id, rm.mulligans),
                self@.version == s0.version,
            decreases replay.game_results@.len() - k,
        {
            let row = GameResultRow {
                match_id: replay.match_id.clone(),
                result: replay.game_results[k].clone(),
            };
            let ghost rowm = row@;
            let ghost results_pre = self@.game_results;
            self.game_results.push(row);
            proof {
                assert(rm.game_results.take(k + 1).drop_last() =~= rm.game_results.take(
                    k as int,
                ));
                assert(rm.game_results.take(k + 1).last() == rm.game_results[k as int]);
                assert(rm.game_results[k as int] == replay.game_results@.map_values(
                    |g: GameResult| g@,
                )[k as int]);
                assert(self@.game_results =~= results_pre.push(rowm));
                assert(rowm.match_id == rm.match_id);
                assert(rowm.result == rm.game_results.take(k + 1).last());
                assert(result_rows_of(rm.match_id, rm.game_results.take(k + 1))
                    == result_rows_of(rm.match_id, rm.game_results.take(k as int)).push(rowm));
                assert(self@.game_results =~= s0.game_results + result_rows_of(
                    rm.match_id,
                    rm.game_results.take(k + 1),
                ));
            }
            k = k + 1;
        }
        proof {
            assert(rm.game_results.take(replay.game_results@.len() as int) =~= rm.game_results);
            assert(self@ == insert_spec(s0, rm));
            if store_wf(s0) {
                lemma_insert_preserves_wf(s0, rm);
            }
        }
        Ok(())
    }

    /// All stored match headers, in insertion order.
    pub fn get_matches(&self) -> (r: Vec<MTGAMatch>)
        ensures
            r@.map_values(|m: MTGAMatch| m@) == self@.matches,
    {
        let mut out: Vec<MTGAMatch> = Vec::new();
        let mut i: usize = 0;
        while i < self.matches.len()
            invariant
                0 <= i <= self.matches@.len(),
                out@.map_values(|m: MTGAMatch| m@) =~= self@.matches.take(i as int),
            decreases self.matches@.len() - i,
        {
            let m = self.matches[i].clone();
            let ghost mm = m@;
            let ghost pre = out@;
            proof {
                assert(pre.map_values(|x: MTGAMatch| x@).len() == pre.len());
                assert(pre.len() == i as int);
                assert(mm == self@.matches[i as int]);
            }
            out.push(m);
            proof {
                assert(out@.len() == i + 1);
                assert forall|k: int|
                    0 <= k < out@.len() implies #[trigger] out@[k]@ == self@.matches.take(
                    i + 1,
                )[k] by {
                    if k < i {
                        assert(out@[k] == pre[k]);
                        assert(pre.map_values(|x: MTGAMatch| x@)[k] == pre[k]@);
                        assert(pre[k]@ == self@.matches.take(i as int)[k]);
                    } else {
                        assert(out@[k] == m);
                        assert(out@[k]@ == mm);
                    }
                }
                assert(out@.map_values(|x: MTGAMatch| x@) =~= self@.matches.take(i + 1));
            }
            i = i + 1;
        }
        proof {
            assert(self@.matches.take(self.matches@.len() as int) =~= self@.matches);
        }
        out
    }

    /// The stored header for this id, together with the derived
    /// controller-win flag: true iff a strict majority of the recorded
    /// game results name the controller's seat as the winner.
    pub fn get_match(&self, id: &str) -> (r: Result<(MTGAMatch, bool), MatchDBError>)
        ensures
            r is Ok <==> spec_has_match(self@.matches, id@),
            r is Err ==> (r->Err_0 matches MatchDBError::NotFound(m) && m@ == id@),
            r is Ok ==> r->Ok_0.0@ == spec_match_of(self@.matches, id@),
            r is Ok ==> r->Ok_0.1 == spec_did_controller_win(self@, id@),
    {
        let header = match self.find_match(id) {
            Some(m) => m,
            None => {
                return Err(MatchDBError::NotFound(id.to_owned()));
            },
        };
        let seat = header.controller_seat_id;
        let mut total: u64 = 0;
        let mut wins: u64 = 0;
        let mut k: usize = 0;
        while k < self.game_results.len()
            invariant
                0 <= k <= self.game_results@.len(),
                total == results_for(self@.game_results.take(k as int), id@).len(),
                wins == wins_in(results_for(self@.game_results.take(k as int), id@), seat),
                total <= k,
            decreases self.game_results@.len() - k,
        {
            proof {
                assert(self@.game_results.take(k + 1).drop_last() =~= self@.game_results.take(
                    k as int,
                ));
                assert(self@.game_results.take(k + 1).last() == self@.game_results[k as int]);
                assert(self@.game_results[k as int] == self.game_results@[k as int]@);
                lemma_wins_nonneg(
                    results_for(self@.game_results.take(k as int), id@),
                    seat,
                );
            }
            let row = &self.game_results[k];
            if str_eq(row.match_id.as_str(), id) {
                total = total + 1;
                if row.result.winning_seat_id == seat {
                    wins = wins + 1;
                }
                proof {
                    let prev = results_for(self@.game_results.take(k as int), id@);
                    let cur = results_for(self@.game_results.take(k + 1), id@);
                    assert(cur == prev.push(self@.game_results[k as int].result));
                    assert(cur.drop_last() =~= prev);
                    lemma_wins_nonneg(prev, seat);
                }
            }
            k = k + 1;
        }
        proof {
            assert(self@.game_results.take(self.game_results@.len() as int)
                =~= self@.game_results);
        }
        let did_controller_win = wins > total / 2;
        Ok((header, did_controller_win))
    }

    /// The decklists stored for this match, in submission order.
    pub fn get_decklists(&self, id: &str) -> (r: Vec<Deck>)
        ensures
            r@.map_values(|d: Deck| d@) == decks_for(self@.decks, id@),
    {
        let mut out: Vec<Deck> = Vec::new();
        let mut i: usize = 0;
        while i < self.decks.len()
            invariant
                0 <= i <= self.decks@.len(),
                out@.map_values(|d: Deck| d@) =~= decks_for(self@.decks.take(i as int), id@),
            decreases self.decks@.len() - i,
        {
            proof {
                assert(self@.decks.take(i + 1).drop_last() =~= self@.decks.take(i as int));
                assert(self@.decks.take(i + 1).last() == self@.decks[i as int]);
                assert(self@.decks[i as int] == self.decks@[i as int]@);
            }
            let row = &self.decks[i];
            if str_eq(row.match_id.as_str(), id) {
                out.push(row.deck.clone());
            }
            proof {
                assert(out@.map_values(|d: Deck| d@) =~= decks_for(
                    self@.decks.take(i + 1),
                    id@,
                ));
            }
            i = i + 1;
        }
        proof {
            assert(self@.decks.take(self.decks@.len() as int) =~= self@.decks);
        }
        out
    }

    /// The mulligans stored for this match, in insertion order.
    pub fn get_mulligans(&self, id: &str) -> (r: Vec<MulliganInfo>)
        ensures
            r@.map_values(|m: MulliganInfo| m@) == mulligans_for(self@.mulligans, id@),
    {
        let mut out: Vec<MulliganInfo> = Vec::new();
        let mut i: usize = 0;
        while i < self.mulligans.len()
            invariant
                0 <= i <= self.mulligans@.len(),
                out@.map_values(|m: MulliganInfo| m@) =~= mulligans_for(
                    self@.mulligans.take(i as int),
                    id@,
                ),
            decreases self.mulligans@.len() - i,
        {
            proof {
                assert(self@.mulligans.take(i + 1).drop_last() =~= self@.mulligans.take(
                    i as int,
                ));
                assert(self@.mulligans.take(i + 1).last() == self@.mulligans[i as int]);
                assert(self@.mulligans[i as int] == self.mulligans@[i as int]@);
            }
            let row = &self.mulligans[i];
            if str_eq(row.match_id.as_str(), id) {
                out.push(row.mulligan.clone());
            }
            proof {
                assert(out@.map_values(|m: MulliganInfo| m@) =~= mulligans_for(
                    self@.mulligans.take(i + 1),
                    id@,
                ));
            }
            i = i + 1;
        }
        proof {
            assert(self@.mulligans.take(self.mulligans@.len() as int) =~= self@.mulligans);
        }
        out
    }

    /// The game results stored for this match, in insertion order.
    pub fn get_match_results(&self, id: &str) -> (r: Vec<GameResult>)
        ensures
            r@.map_values(|g: GameResult| g@) == results_for(self@.game_results, id@),
    {
        let mut out: Vec<GameResult> = Vec::new();
        let mut i: usize = 0;
        while i < self.game_results.len()
            invariant
                0 <= i <= self.game_results@.len(),
                out@.map_values(|g: GameResult| g@) =~= results_for(
                    self@.game_results.take(i as int),
                    id@,
                ),
            decreases self.game_results@.len() - i,
        {
            proof {
                assert(self@.game_results.take(i + 1).drop_last() =~= self@.game_results.take(
                    i as int,
                ));
                assert(self@.game_results.take(i + 1).last() == self@.game_results[i as int]);
                assert(self@.game_results[i as int] == self.game_results@[i as int]@);
            }
            let row = &self.game_results[i];
            if str_eq(row.match_id.as_str(), id) {
                out.push(row.result.clone());
            }
            proof {
                assert(out@.map_values(|g: GameResult| g@) =~= results_for(
                    self@.game_results.take(i + 1),
                    id@,
                ));
            }
            i = i + 1;
        }
        proof {
            assert(self@.game_results.take(self.game_results@.len() as int)
                =~= self@.game_results);
        }
        out
    }

    /// The first stored header with this id, if any.
    fn find_match(&self, id: &str) -> (r: Option<MTGAMatch>)
        ensures
            r is Some <==> spec_has_match(self@.matches, id@),
            r is Some ==> r->0@ == spec_match_of(self@.matches, id@),
    {
        let mut i: usize = 0;
        while i < self.matches.len()
            invariant
                0 <= i <= self.matches@.len(),
                forall|j: int| 0 <= j < i ==> (#[trigger] self.matches@[j])@.id != id@,
            decreases self.matches@.len() - i,
        {
            if str_eq(self.matches[i].id.as_str(), id) {
                proof {
                    lemma_match_of_at(self@.matches, i as int, id@);
                }
                return Some(self.matches[i].clone());
            }
            i = i + 1;
        }
        proof {
            if spec_has_match(self@.matches, id@) {
                let j = choose|j: int|
                    0 <= j < self@.matches.len() && (#[trigger] self@.matches[j]).id == id@;
                assert(self.matches@[j]@.id == id@);
            }
        }
        None
    }

    /// Looks up whether a match with this id is stored.
    fn has_match(&self, id: &str) -> (r: bool)
        ensures
            r == spec_has_match(self@.matches, id@),
    {
        let mut i: usize = 0;
        while i < self.matches.len()
            invariant
                0 <= i <= self.matches@.len(),
                forall|j: int| 0 <= j < i ==> (#[trigger] self.matches@[j])@.id != id@,
            decreases self.matches@.len() - i,
        {
            if str_eq(self.matches[i].id.as_str(), id) {
                proof {
                    assert(self@.matches[i as int].id == id@);
                }
                return true;
            }
            i = i + 1;
        }
        proof {
            if spec_has_match(self@.matches, id@) {
                let j = choose|j: int|
                    0 <= j < self@.matches.len() && (#[trigger] self@.matches[j]).id == id@;
                assert(self.matches@[j]@.id == id@);
            }
        }
        false
    }
}

} // verus!
