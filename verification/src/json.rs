//! The directory sink's document: one JSON serialization of a completed
//! replay, specified character by character.
//!
//! Strings are escaped as JSON requires — quotes, backslashes and
//! control characters — and the aggregate is written as one object with
//! the header fields, the game results, the mulligans, the decklists as
//! (card id, quantity) pair arrays, and the raw event stream.

use vstd::prelude::*;

verus! {

use vstd::string::StrSliceExecFns;
use vstd::string::StringExecFns;
use crate::deck::DeckModel;
use crate::replay::GameResultModel;
use crate::replay::MatchReplay;
use crate::replay::MatchReplayModel;
use crate::replay::MulliganInfoModel;
use crate::events::DecodedEventModel;
use crate::text::dec_chars;
use crate::text::digit_char;
use crate::text::push_char;
use crate::text::u64_to_string;

/// The hexadecimal digit for a value in `0..16`.
pub open spec fn hex_char(d: int) -> char {
    if d < 10 {
        digit_char(d)
    } else if d == 10 {
        'a'
    } else if d == 11 {
        'b'
    } else if d == 12 {
        'c'
    } else if d == 13 {
        'd'
    } else if d == 14 {
        'e'
    } else {
        'f'
    }
}

/// How one character is written inside a JSON string.
pub open spec fn esc_char(c: char) -> Seq<char> {
    if c == '"' {
        seq!['\\', '"']
    } else if c == '\\' {
        seq!['\\', '\\']
    } else if (c as u32) < 0x20 {
        seq!['\\', 'u', '0', '0', hex_char((c as u32) as int / 16), hex_char((c as u32) as int % 16)]
    } else {
        seq![c]
    }
}

/// The escaped body of a JSON string.
pub open spec fn json_escape(s: Seq<char>) -> Seq<char>
    decreases s.len(),
{
    if s.len() == 0 {
        Seq::empty()
    } else {
        json_escape(s.drop_last()) + esc_char(s.last())
    }
}

/// A JSON string: the escaped text in quotes.
pub open spec fn json_str(s: Seq<char>) -> Seq<char> {
    seq!['"'] + json_escape(s) + seq!['"']
}

fn hex_digit(d: u32) -> (c: char)
    requires
        d < 16,
    ensures
        c == hex_char(d as int),
{
    if d == 0 { '0' }
    else if d == 1 { '1' }
    else if d == 2 { '2' }
    else if d == 3 { '3' }
    else if d == 4 { '4' }
    else if d == 5 { '5' }
    else if d == 6 { '6' }
    else if d == 7 { '7' }
    else if d == 8 { '8' }
    else if d == 9 { '9' }
    else if d == 10 { 'a' }
    else if d == 11 { 'b' }
    else if d == 12 { 'c' }
    else if d == 13 { 'd' }
    else if d == 14 { 'e' }
    else { 'f' }
}

/// Appends a JSON string for `s` to `out`.
fn write_json_str(out: &mut String, s: &str)
    ensures
        final(out)@ == old(out)@ + json_str(s@),
{
    push_char(out, '"');
    let n = s.unicode_len();
    let mut i: usize = 0;
    while i < n
        invariant
            0 <= i <= n,
            n == s@.len(),
            out@ == old(out)@ + seq!['"'] + json_escape(s@.take(i as int)),
        decreases n - i,
    {
        let c = s.get_char(i);
        proof {
            assert(s@.take(i + 1).drop_last() =~= s@.take(i as int));
            assert(s@.take(i + 1).last() == s@[i as int]);
        }
        if c == '"' {
            push_char(out, '\\');
            push_char(out, '"');
            proof {
                assert(out@ =~= old(out)@ + seq!['"'] + json_escape(s@.take(i + 1)));
            }
        } else if c == '\\' {
            push_char(out, '\\');
            push_char(out, '\\');
            proof {
                assert(out@ =~= old(out)@ + seq!['"'] + json_escape(s@.take(i + 1)));
            }
        } else if (c as u32) < 0x20 {
            let v = c as u32;
            push_char(out, '\\');
            push_char(out, 'u');
            push_char(out, '0');
            push_char(out, '0');
            push_char(out, hex_digit(v / 16));
            push_char(out, hex_digit(v % 16));
            proof {
                assert(out@ =~= old(out)@ + seq!['"'] + json_escape(s@.take(i + 1)));
            }
        } else {
            push_char(out, c);
            proof {
                assert(out@ =~= old(out)@ + seq!['"'] + json_escape(s@.take(i + 1)));
            }
        }
        i = i + 1;
    }
    proof {
        assert(s@.take(n as int) =~= s@);
    }
    push_char(out, '"');
    proof {
        assert(out@ =~= old(out)@ + json_str(s@));
    }
}

/// One game result as a JSON object.
pub open spec fn json_game_result(g: GameResultModel) -> Seq<char> {
    "{\"game_number\":"@ + dec_chars(g.game_number as int) + ",\"winning_seat_id\":"@
        + dec_chars(g.winning_seat_id as int) + ",\"result_reason\":"@ + json_str(
        g.result_reason,
    ) + "}"@
}

/// One mulligan as a JSON object.
pub open spec fn json_mulligan(m: MulliganInfoModel) -> Seq<char> {
    "{\"game_number\":"@ + dec_chars(m.game_number as int) + ",\"hand\":"@ + json_str(m.hand)
        + ",\"number_to_keep\":"@ + dec_chars(m.number_to_keep as int) + ",\"play_draw\":"@
        + json_str(m.play_draw) + ",\"decision\":"@ + json_str(m.decision)
        + ",\"opponent_identity\":"@ + json_str(m.opponent_identity) + "}"@
}

/// A pair list as a JSON array of two-element arrays.
pub open spec fn json_pairs(ps: Seq<(u64, u32)>) -> Seq<char>
    decreases ps.len(),
{
    if ps.len() == 0 {
        Seq::empty()
    } else if ps.len() == 1 {
        json_pair(ps.last())
    } else {
        json_pairs(ps.drop_last()) + ","@ + json_pair(ps.last())
    }
}

/// One (card id, quantity) pair as a JSON array.
pub open spec fn json_pair(p: (u64, u32)) -> Seq<char> {
    "["@ + dec_chars(p.0 as int) + ","@ + dec_chars(p.1 as int) + "]"@
}

/// One decklist as a JSON object.
pub open spec fn json_deck(d: DeckModel) -> Seq<char> {
    "{\"main_deck\":["@ + json_pairs(d.main_deck) + "],\"sideboard\":["@ + json_pairs(
        d.sideboard,
    ) + "]}"@
}

/// One raw event as a JSON object carrying its sequence number and line.
pub open spec fn json_event(e: DecodedEventModel) -> Seq<char> {
    "{\"seq\":"@ + dec_chars(e.seq as int) + ",\"raw\":"@ + json_str(e.raw) + "}"@
}

/// A comma-separated JSON list, rendered with one spec function per
/// element kind.
pub open spec fn json_list_results(gs: Seq<GameResultModel>) -> Seq<char>
    decreases gs.len(),
{
    if gs.len() == 0 {
        Seq::empty()
    } else if gs.len() == 1 {
        json_game_result(gs.last())
    } else {
        json_list_results(gs.drop_last()) + ","@ + json_game_result(gs.last())
    }
}

pub open spec fn json_list_mulligans(ms: Seq<MulliganInfoModel>) -> Seq<char>
    decreases ms.len(),
{
    if ms.len() == 0 {
        Seq::empty()
    } else if ms.len() == 1 {
        json_mulligan(ms.last())
    } else {
        json_list_mulligans(ms.drop_last()) + ","@ + json_mulligan(ms.last())
    }
}

pub open spec fn json_list_decks(ds: Seq<DeckModel>) -> Seq<char>
    decreases ds.len(),
{
    if ds.len() == 0 {
        Seq::empty()
    } else if ds.len() == 1 {
        json_deck(ds.last())
    } else {
        json_list_decks(ds.drop_last()) + ","@ + json_deck(ds.last())
    }
}

pub open spec fn json_list_events(es: Seq<DecodedEventModel>) -> Seq<char>
    decreases es.len(),
{
    if es.len() == 0 {
        Seq::empty()
    } else if es.len() == 1 {
        json_event(es.last())
    } else {
        json_list_events(es.drop_last()) + ","@ + json_event(es.last())
    }
}

/// The whole replay document.
pub open spec fn replay_json(m: MatchReplayModel) -> Seq<char> {
    "{\"match_id\":"@ + json_str(m.match_id) + ",\"controller_seat_id\":"@ + dec_chars(
        m.controller_seat_id as int,
    ) + ",\"controller_player_name\":"@ + json_str(m.controller_player_name)
        + ",\"opponent_player_name\":"@ + json_str(m.opponent_player_name) + ",\"created_at\":"@
        + json_str(m.created_at) + ",\"game_results\":["@ + json_list_results(m.game_results)
        + "],\"mulligans\":["@ + json_list_mulligans(m.mulligans) + "],\"decklists\":["@
        + json_list_decks(m.decklists) + "],\"raw_events\":["@ + json_list_events(m.raw_events)
        + "]}"@
}

fn write_u64(out: &mut String, n: u64)
    ensures
        final(out)@ == old(out)@ + dec_chars(n as int),
{
    let digits = u64_to_string(n);
    out.append(digits.as_str());
}

fn write_pairs(out: &mut String, ps: &Vec<(u64, u32)>)
    ensures
        final(out)@ == old(out)@ + json_pairs(ps@),
{
    let mut i: usize = 0;
    while i < ps.len()
        invariant
            0 <= i <= ps@.len(),
            out@ == old(out)@ + json_pairs(ps@.take(i as int)),
        decreases ps@.len() - i,
    {
        proof {
            assert(ps@.take(i + 1).drop_last() =~= ps@.take(i as int));
            assert(ps@.take(i + 1).last() == ps@[i as int]);
        }
        if i > 0 {
            out.append(",");
        }
        let p = ps[i];
        out.append("[");
        write_u64(out, p.0);
        out.append(",");
        write_u64(out, p.1 as u64);
        out.append("]");
        proof {
            assert(out@ =~= old(out)@ + json_pairs(ps@.take(i + 1)));
        }
        i = i + 1;
    }
    proof {
        assert(ps@.take(ps@.len() as int) =~= ps@);
    }
}

/// Serializes the aggregate as the directory sink writes it, character
/// for character as the document specification spells it.
#[verifier::rlimit(100)]
pub fn replay_document(replay: &MatchReplay) -> (r: String)
    ensures
        r@ == replay_json(replay@),
{
    let mut out = String::new();
    out.append("{\"match_id\":");
    write_json_str(&mut out, replay.match_id.as_str());
    out.append(",\"controller_seat_id\":");
    write_u64(&mut out, replay.controller_seat_id as u64);
    out.append(",\"controller_player_name\":");
    write_json_str(&mut out, replay.controller_player_name.as_str());
    out.append(",\"opponent_player_name\":");
    write_json_str(&mut out, replay.opponent_player_name.as_str());
    out.append(",\"created_at\":");
    write_json_str(&mut out, replay.created_at.as_str());
    out.append(",\"game_results\":[");
    let ghost results = replay@.game_results;
    let mut i: usize = 0;
    while i < replay.game_results.len()
        invariant
            0 <= i <= replay.game_results@.len(),
            results == replay@.game_results,
            out@ == replay_json_prefix_results(replay@) + json_list_results(
                results.take(i as int),
            ),
        decreases replay.game_results@.len() - i,
    {
        proof {
            assert(results.take(i + 1).drop_last() =~= results.take(i as int));
            assert(results.take(i + 1).last() == results[i as int]);
            assert(results[i as int] == replay.game_results@[i as int]@);
        }
        if i > 0 {
            out.append(",");
        }
        let g = &replay.game_results[i];
        out.append("{\"game_number\":");
        write_u64(&mut out, g.game_number as u64);
        out.append(",\"winning_seat_id\":");
        write_u64(&mut out, g.winning_seat_id as u64);
        out.append(",\"result_reason\":");
        write_json_str(&mut out, g.result_reason.as_str());
        out.append("}");
        proof {
            assert(out@ =~= replay_json_prefix_results(replay@) + json_list_results(
                results.take(i + 1),
            ));
        }
        i = i + 1;
    }
    proof {
        assert(results.take(replay.game_results@.len() as int) =~= results);
    }
    out.append("],\"mulligans\":[");
    let ghost mulls = replay@.mulligans;
    let mut j: usize = 0;
    while j < replay.mulligans.len()
        invariant
            0 <= j <= replay.mulligans@.len(),
            mulls == replay@.mulligans,
            out@ == replay_json_prefix_results(replay@) + json_list_results(
                replay@.game_results,
            ) + "],\"mulligans\":["@ + json_list_mulligans(mulls.take(j as int)),
        decreases replay.mulligans@.len() - j,
    {
        proof {
            assert(mulls.take(j + 1).drop_last() =~= mulls.take(j as int));
            assert(mulls.take(j + 1).last() == mulls[j as int]);
            assert(mulls[j as int] == replay.mulligans@[j as int]@);
        }
        if j > 0 {
            out.append(",");
        }
        let m = &replay.mulligans[j];
        out.append("{\"game_number\":");
        write_u64(&mut out, m.game_number as u64);
        out.append(",\"hand\":");
        write_json_str(&mut out, m.hand.as_str());
        out.append(",\"number_to_keep\":");
        write_u64(&mut out, m.number_to_keep as u64);
        out.append(",\"play_draw\":");
        write_json_str(&mut out, m.play_draw.as_str());
        out.append(",\"decision\":");
        write_json_str(&mut out, m.decision.as_str());
        out.append(",\"opponent_identity\":");
        write_json_str(&mut out, m.opponent_identity.as_str());
        out.append("}");
        proof {
            assert(out@ =~= replay_json_prefix_results(replay@) + json_list_results(
                replay@.game_results,
            ) + "],\"mulligans\":["@ + json_list_mulligans(mulls.take(j + 1)));
        }
        j = j + 1;
    }
    proof {
        assert(mulls.take(replay.mulligans@.len() as int) =~= mulls);
    }
    out.append("],\"decklists\":[");
    let ghost decks = replay@.decklists;
    let mut k: usize = 0;
    while k < replay.decklists.len()
        invariant
            0 <= k <= replay.decklists@.len(),
            decks == replay@.decklists,
            out@ == replay_json_prefix_decks(replay@) + json_list_decks(decks.take(k as int)),
        decreases replay.decklists@.len() - k,
    {
        proof {
            assert(decks.take(k + 1).drop_last() =~= decks.take(k as int));
            assert(decks.take(k + 1).last() == decks[k as int]);
            assert(decks[k as int] == replay.decklists@[k as int]@);
        }
        if k > 0 {
            out.append(",");
        }
        let d = &replay.decklists[k];
        out.append("{\"main_deck\":[");
        write_pairs(&mut out, &d.main_deck);
        out.append("],\"sideboard\":[");
        write_pairs(&mut out, &d.sideboard);
        out.append("]}");
        proof {
            assert(out@ =~= replay_json_prefix_decks(replay@) + json_list_decks(
                decks.take(k + 1),
            ));
        }
        k = k + 1;
    }
    proof {
        assert(decks.take(replay.decklists@.len() as int) =~= decks);
    }
    out.append("],\"raw_events\":[");
    let ghost evs = replay@.raw_events;
    let mut e: usize = 0;
    while e < replay.raw_events.len()
        invariant
            0 <= e <= replay.raw_events@.len(),
            evs == replay@.raw_events,
            out@ == replay_json_prefix_events(replay@) + json_list_events(evs.take(e as int)),
        decreases replay.raw_events@.len() - e,
    {
        proof {
            assert(evs.take(e + 1).drop_last() =~= evs.take(e as int));
            assert(evs.take(e + 1).last() == evs[e as int]);
            assert(evs[e as int] == replay.raw_events@[e as int]@);
        }
        if e > 0 {
            out.append(",");
        }
        let ev = &replay.raw_events[e];
        out.append("{\"seq\":");
        write_u64(&mut out, ev.seq);
        out.append(",\"raw\":");
        write_json_str(&mut out, ev.raw.as_str());
        out.append("}");
        proof {
            assert(out@ =~= replay_json_prefix_events(replay@) + json_list_events(
                evs.take(e + 1),
            ));
        }
        e = e + 1;
    }
    proof {
        assert(evs.take(replay.raw_events@.len() as int) =~= evs);
    }
    out.append("]}");
    proof {
        assert(out@ =~= replay_json(replay@));
    }
    out
}

/// The document up to and including the opening of the results list.
pub open spec fn replay_json_prefix_results(m: MatchReplayModel) -> Seq<char> {
    "{\"match_id\":"@ + json_str(m.match_id) + ",\"controller_seat_id\":"@ + dec_chars(
        m.controller_seat_id as int,
    ) + ",\"controller_player_name\":"@ + json_str(m.controller_player_name)
        + ",\"opponent_player_name\":"@ + json_str(m.opponent_player_name) + ",\"created_at\":"@
        + json_str(m.created_at) + ",\"game_results\":["@
}

/// The document up to and including the opening of the decklist list.
pub open spec fn replay_json_prefix_decks(m: MatchReplayModel) -> Seq<char> {
    replay_json_prefix_results(m) + json_list_results(m.game_results) + "],\"mulligans\":["@
        + json_list_mulligans(m.mulligans) + "],\"decklists\":["@
}

/// The document up to and including the opening of the raw event list.
pub open spec fn replay_json_prefix_events(m: MatchReplayModel) -> Seq<char> {
    replay_json_prefix_decks(m) + json_list_decks(m.decklists) + "],\"raw_events\":["@
}

} // verus!
