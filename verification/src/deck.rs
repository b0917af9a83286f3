//! Decklists and their differences.
//!
//! A decklist is an ordered sequence of (card id, quantity) pairs for the
//! main deck and the sideboard.  Successive submissions within a match are
//! compared pairwise; the difference is a multiset delta keyed by card id:
//! what the next submission added and what it removed.

use vstd::prelude::*;

verus! {

/// An ordered decklist snapshot: one submission.
#[derive(Debug)]
pub struct Deck {
    pub main_deck: Vec<(u64, u32)>,
    pub sideboard: Vec<(u64, u32)>,
}

/// Copies a pair list element by element.
pub fn clone_pairs(v: &Vec<(u64, u32)>) -> (r: Vec<(u64, u32)>)
    ensures
        r@ == v@,
{
    let mut r: Vec<(u64, u32)> = Vec::new();
    let mut i: usize = 0;
    while i < v.len()
        invariant
            0 <= i <= v@.len(),
            r@ == v@.take(i as int),
        decreases v@.len() - i,
    {
        r.push(v[i]);
        proof {
            assert(r@ =~= v@.take(i + 1));
        }
        i = i + 1;
    }
    proof {
        assert(v@.take(v@.len() as int) =~= v@);
    }
    r
}

impl Clone for Deck {
    /// A clone holds the same pairs.
    fn clone(&self) -> (r: Deck)
        ensures
            r@ == self@,
    {
        Deck { main_deck: clone_pairs(&self.main_deck), sideboard: clone_pairs(&self.sideboard) }
    }
}

/// The mathematical content of a decklist.
pub ghost struct DeckModel {
    pub main_deck: Seq<(u64, u32)>,
    pub sideboard: Seq<(u64, u32)>,
}

impl View for Deck {
    type V = DeckModel;

    open spec fn view(&self) -> DeckModel {
        DeckModel { main_deck: self.main_deck@, sideboard: self.sideboard@ }
    }
}

/// How many copies of `id` a pair list holds: the multiset reading.
pub open spec fn count_of(s: Seq<(u64, u32)>, id: u64) -> int
    decreases s.len(),
{
    if s.len() == 0 {
        0
    } else {
        count_of(s.drop_last(), id) + if s.last().0 == id {
            s.last().1 as int
        } else {
            0
        }
    }
}

/// A count never is negative.
pub proof fn lemma_count_nonneg(s: Seq<(u64, u32)>, id: u64)
    ensures
        count_of(s, id) >= 0,
    decreases s.len(),
{
    if s.len() > 0 {
        lemma_count_nonneg(s.drop_last(), id);
    }
}

/// Appending one pair raises exactly that id's count.
pub proof fn lemma_count_push(s: Seq<(u64, u32)>, e: (u64, u32), id: u64)
    ensures
        count_of(s.push(e), id) == count_of(s, id) + if e.0 == id {
            e.1 as int
        } else {
            0
        },
{
    assert(s.push(e).drop_last() =~= s);
    assert(s.push(e).last() == e);
}

/// True iff some pair of `s` carries `id`.
pub open spec fn has_id(s: Seq<(u64, u32)>, id: u64) -> bool {
    exists|i: int| 0 <= i < s.len() && (#[trigger] s[i]).0 == id
}

proof fn lemma_has_push(s: Seq<(u64, u32)>, e: (u64, u32), x: u64)
    ensures
        has_id(s.push(e), x) <==> (has_id(s, x) || e.0 == x),
{
    if has_id(s.push(e), x) {
        let i = choose|i: int| 0 <= i < s.push(e).len() && (#[trigger] s.push(e)[i]).0 == x;
        if i < s.len() {
            assert(s[i].0 == x);
        }
    }
    if has_id(s, x) {
        let i = choose|i: int| 0 <= i < s.len() && (#[trigger] s[i]).0 == x;
        assert(s.push(e)[i].0 == x);
    }
    if e.0 == x {
        assert(s.push(e)[s.len() as int].0 == x);
    }
}

proof fn lemma_has_take_step(s: Seq<(u64, u32)>, i: int, x: u64)
    requires
        0 <= i < s.len(),
    ensures
        has_id(s.take(i + 1), x) <==> (has_id(s.take(i), x) || s[i].0 == x),
{
    if has_id(s.take(i + 1), x) {
        let k = choose|k: int|
            0 <= k < s.take(i + 1).len() && (#[trigger] s.take(i + 1)[k]).0 == x;
        if k < i {
            assert(s.take(i)[k].0 == x);
        } else {
            assert(s.take(i + 1)[i] == s[i]);
        }
    }
    if has_id(s.take(i), x) {
        let k = choose|k: int| 0 <= k < s.take(i).len() && (#[trigger] s.take(i)[k]).0 == x;
        assert(s.take(i + 1)[k].0 == x);
    }
    if s[i].0 == x {
        assert(s.take(i + 1)[i].0 == x);
    }
}

/// An id that appears nowhere counts zero.
pub proof fn lemma_absent_counts_zero(s: Seq<(u64, u32)>, id: u64)
    requires
        !has_id(s, id),
    ensures
        count_of(s, id) == 0,
    decreases s.len(),
{
    if s.len() > 0 {
        assert(!has_id(s.drop_last(), id)) by {
            assert(forall|i: int|
                0 <= i < s.len() - 1 ==> (#[trigger] s.drop_last()[i]).0 == s[i].0);
        }
        assert(s.last().0 != id) by {
            assert(s[s.len() - 1] == s.last());
        }
        lemma_absent_counts_zero(s.drop_last(), id);
    }
}

/// A non-empty pair list counts at least its last quantity for the last id.
pub proof fn lemma_count_at_least_last(s: Seq<(u64, u32)>)
    requires
        s.len() > 0,
    ensures
        count_of(s, s.last().0) >= s.last().1,
{
    lemma_count_nonneg(s.drop_last(), s.last().0);
}

/// What the next submission added on top of the previous one.
pub open spec fn surplus(a: Seq<(u64, u32)>, b: Seq<(u64, u32)>, id: u64) -> int {
    if count_of(b, id) > count_of(a, id) {
        count_of(b, id) - count_of(a, id)
    } else {
        0
    }
}

/// What the next submission removed from the previous one.
pub open spec fn deficit(a: Seq<(u64, u32)>, b: Seq<(u64, u32)>, id: u64) -> int {
    if count_of(a, id) > count_of(b, id) {
        count_of(a, id) - count_of(b, id)
    } else {
        0
    }
}

/// The decklist diff law: starting from the previous counts, adding the
/// surplus and removing the deficit yields exactly the next counts —
/// applying `diff(a, b)` to `a` reconstructs `b` as a multiset.
pub proof fn lemma_diff_round_trip(a: Seq<(u64, u32)>, b: Seq<(u64, u32)>, id: u64)
    ensures
        count_of(a, id) + surplus(a, b, id) - deficit(a, b, id) == count_of(b, id),
{
}

/// The delta between successive decklists, keyed by card id.  Each entry
/// carries a positive quantity and no id repeats.
#[derive(Debug)]
pub struct DeckDifference {
    pub added: Vec<(u64, u32)>,
    pub removed: Vec<(u64, u32)>,
}

/// True iff no id appears twice.
pub open spec fn unique_ids(s: Seq<(u64, u32)>) -> bool {
    forall|i: int, j: int| 0 <= i < j < s.len() ==> (#[trigger] s[i]).0 != (#[trigger] s[j]).0
}

/// True iff every quantity is positive.
pub open spec fn positive_qty(s: Seq<(u64, u32)>) -> bool {
    forall|i: int| 0 <= i < s.len() ==> (#[trigger] s[i]).1 > 0
}

/// True iff no id's total count exceeds what one entry can carry.
pub open spec fn bounded_counts(s: Seq<(u64, u32)>) -> bool {
    forall|id: u64| #[trigger] count_of(s, id) <= u32::MAX
}

/// True iff some slot of `ids` holds `id`.
pub open spec fn elem_of(ids: Seq<u64>, id: u64) -> bool {
    exists|i: int| 0 <= i < ids.len() && ids[i] == id
}

proof fn lemma_elem_push(ids: Seq<u64>, id: u64, x: u64)
    ensures
        elem_of(ids.push(id), x) <==> (elem_of(ids, x) || x == id),
{
    if elem_of(ids.push(id), x) {
        let i = choose|i: int| 0 <= i < ids.push(id).len() && #[trigger] ids.push(id)[i] == x;
        if i < ids.len() {
            assert(ids[i] == x);
        }
    }
    if elem_of(ids, x) {
        let i = choose|i: int| 0 <= i < ids.len() && #[trigger] ids[i] == x;
        assert(ids.push(id)[i] == x);
    }
    if x == id {
        assert(ids.push(id)[ids.len() as int] == x);
    }
}

proof fn lemma_elem_take_step(ids: Seq<u64>, k: int, x: u64)
    requires
        0 <= k < ids.len(),
    ensures
        elem_of(ids.take(k + 1), x) <==> (elem_of(ids.take(k), x) || ids[k] == x),
{
    if elem_of(ids.take(k + 1), x) {
        let p = choose|p: int| 0 <= p < ids.take(k + 1).len() && #[trigger] ids.take(k + 1)[p] == x;
        if p < k {
            assert(ids.take(k)[p] == x);
        } else {
            assert(ids.take(k + 1)[k] == ids[k]);
        }
    }
    if elem_of(ids.take(k), x) {
        let p = choose|p: int| 0 <= p < ids.take(k).len() && #[trigger] ids.take(k)[p] == x;
        assert(ids.take(k + 1)[p] == x);
    }
    if ids[k] == x {
        assert(ids.take(k + 1)[k] == x);
    }
}

/// No slot of a distinct sequence's prefix repeats the element at its end.
proof fn lemma_distinct_not_in_prefix(ids: Seq<u64>, k: int)
    requires
        0 <= k < ids.len(),
        forall|p: int, q: int| 0 <= p < q < ids.len() ==> ids[p] != ids[q],
    ensures
        !elem_of(ids.take(k), ids[k]),
{
    if elem_of(ids.take(k), ids[k]) {
        let p = choose|p: int| 0 <= p < ids.take(k).len() && #[trigger] ids.take(k)[p] == ids[k];
        assert(ids[p] == ids[k]);
    }
}

fn contains_id(ids: &Vec<u64>, id: u64) -> (r: bool)
    ensures
        r == elem_of(ids@, id),
{
    let mut i: usize = 0;
    while i < ids.len()
        invariant
            0 <= i <= ids@.len(),
            forall|j: int| 0 <= j < i ==> ids@[j] != id,
        decreases ids@.len() - i,
    {
        if ids[i] == id {
            return true;
        }
        i = i + 1;
    }
    false
}

/// Adds `id` to the set unless it is already there.
fn insert_id(ids: &mut Vec<u64>, id: u64)
    requires
        forall|p: int, q: int| 0 <= p < q < old(ids)@.len() ==> old(ids)@[p] != old(ids)@[q],
    ensures
        forall|x: u64|
            #[trigger] elem_of(final(ids)@, x) <==> (elem_of(old(ids)@, x) || x == id),
        forall|p: int, q: int|
            0 <= p < q < final(ids)@.len() ==> final(ids)@[p] != final(ids)@[q],
{
    let ghost ids0 = ids@;
    if !contains_id(ids, id) {
        ids.push(id);
        proof {
            assert forall|x: u64| #[trigger] elem_of(ids@, x) <==> (elem_of(ids0, x) || x
                == id) by {
                lemma_elem_push(ids0, id, x);
            }
            assert forall|p: int, q: int| 0 <= p < q < ids@.len() implies ids@[p] != ids@[q] by {
                if q == ids@.len() - 1 {
                    assert(ids@[p] == ids0[p]);
                    if ids0[p] == id {
                        assert(elem_of(ids0, id));
                    }
                } else {
                    assert(ids@[p] == ids0[p]);
                    assert(ids@[q] == ids0[q]);
                }
            }
        }
    }
}

/// The distinct card ids of `a` followed by those only in `b`.
fn collect_ids(a: &Vec<(u64, u32)>, b: &Vec<(u64, u32)>) -> (ids: Vec<u64>)
    ensures
        forall|id: u64| #[trigger] elem_of(ids@, id) <==> (has_id(a@, id) || has_id(b@, id)),
        forall|i: int, j: int| 0 <= i < j < ids@.len() ==> ids@[i] != ids@[j],
{
    let mut ids: Vec<u64> = Vec::new();
    let mut i: usize = 0;
    while i < a.len()
        invariant
            0 <= i <= a@.len(),
            forall|id: u64| #[trigger] elem_of(ids@, id) <==> has_id(a@.take(i as int), id),
            forall|p: int, q: int| 0 <= p < q < ids@.len() ==> ids@[p] != ids@[q],
        decreases a@.len() - i,
    {
        let id = a[i].0;
        insert_id(&mut ids, id);
        proof {
            assert forall|x: u64| #[trigger] elem_of(ids@, x) <==> has_id(a@.take(i + 1), x) by {
                lemma_has_take_step(a@, i as int, x);
            }
        }
        i = i + 1;
    }
    proof {
        assert(a@.take(a@.len() as int) =~= a@);
    }
    let mut j: usize = 0;
    while j < b.len()
        invariant
            0 <= j <= b@.len(),
            forall|id: u64|
                #[trigger] elem_of(ids@, id) <==> (has_id(a@, id) || has_id(
                    b@.take(j as int),
                    id,
                )),
            forall|p: int, q: int| 0 <= p < q < ids@.len() ==> ids@[p] != ids@[q],
        decreases b@.len() - j,
    {
        let id = b[j].0;
        insert_id(&mut ids, id);
        proof {
            assert forall|x: u64| #[trigger] elem_of(ids@, x) <==> (has_id(a@, x) || has_id(
                b@.take(j + 1),
                x,
            )) by {
                lemma_has_take_step(b@, j as int, x);
            }
        }
        j = j + 1;
    }
    proof {
        assert(b@.take(b@.len() as int) =~= b@);
    }
    ids
}

/// The total number of copies of `id` in the list.
pub fn count_copies(entries: &Vec<(u64, u32)>, id: u64) -> (r: u64)
    requires
        entries@.len() <= u32::MAX,
    ensures
        r == count_of(entries@, id),
{
    let mut acc: u64 = 0;
    let mut i: usize = 0;
    while i < entries.len()
        invariant
            0 <= i <= entries@.len(),
            entries@.len() <= u32::MAX,
            acc == count_of(entries@.take(i as int), id),
            acc <= i * (u32::MAX as int),
        decreases entries@.len() - i,
    {
        proof {
            assert(entries@.take(i + 1).drop_last() =~= entries@.take(i as int));
            assert(entries@.take(i + 1).last() == entries@[i as int]);
        }
        let e = entries[i];
        if e.0 == id {
            acc = acc + e.1 as u64;
        }
        i = i + 1;
    }
    proof {
        assert(entries@.take(entries@.len() as int) =~= entries@);
    }
    acc
}

/// Decides whether every id's total count fits one entry, as `diff` and
/// `apply` require.
pub fn counts_bounded(v: &Vec<(u64, u32)>) -> (r: bool)
    requires
        v@.len() <= u32::MAX,
    ensures
        r == bounded_counts(v@),
{
    let empty: Vec<(u64, u32)> = Vec::new();
    let ids = collect_ids(v, &empty);
    let mut k: usize = 0;
    while k < ids.len()
        invariant
            0 <= k <= ids@.len(),
            v@.len() <= u32::MAX,
            forall|id: u64| #[trigger] elem_of(ids@, id) <==> (has_id(v@, id) || has_id(
                empty@,
                id,
            )),
            forall|id: u64|
                elem_of(ids@.take(k as int), id) ==> #[trigger] count_of(v@, id) <= u32::MAX,
        decreases ids@.len() - k,
    {
        let id = ids[k];
        let c = count_copies(v, id);
        if c > 0xffff_ffff {
            return false;
        }
        proof {
            assert forall|x: u64|
                elem_of(ids@.take(k + 1), x) implies #[trigger] count_of(v@, x)
                <= u32::MAX by {
                lemma_elem_take_step(ids@, k as int, x);
            }
        }
        k = k + 1;
    }
    proof {
        assert(ids@.take(ids@.len() as int) =~= ids@);
        assert forall|id: u64| true implies #[trigger] count_of(v@, id) <= u32::MAX by {
            if elem_of(ids@, id) {
            } else {
                lemma_absent_counts_zero(v@, id);
            }
        }
    }
    true
}

/// Computes the multiset delta from `a` to `b`: `added` holds each id
/// whose count grew, with the growth; `removed` each id whose count
/// shrank, with the loss.  Lists with equal counts yield two empty deltas.
pub fn diff(a: &Vec<(u64, u32)>, b: &Vec<(u64, u32)>) -> (d: DeckDifference)
    requires
        a@.len() <= u32::MAX,
        b@.len() <= u32::MAX,
        bounded_counts(a@),
        bounded_counts(b@),
    ensures
        forall|id: u64| #[trigger] count_of(d.added@, id) == surplus(a@, b@, id),
        forall|id: u64| #[trigger] count_of(d.removed@, id) == deficit(a@, b@, id),
        unique_ids(d.added@),
        unique_ids(d.removed@),
        positive_qty(d.added@),
        positive_qty(d.removed@),
        (forall|id: u64| #[trigger] count_of(a@, id) == count_of(b@, id)) ==> d.added@.len()
            == 0 && d.removed@.len() == 0,
{
    let ids = collect_ids(a, b);
    let mut added: Vec<(u64, u32)> = Vec::new();
    let mut removed: Vec<(u64, u32)> = Vec::new();
    let mut k: usize = 0;
    while k < ids.len()
        invariant
            0 <= k <= ids@.len(),
            a@.len() <= u32::MAX,
            b@.len() <= u32::MAX,
            bounded_counts(a@),
            bounded_counts(b@),
            forall|id: u64|
                #[trigger] elem_of(ids@, id) <==> (has_id(a@, id) || has_id(b@, id)),
            forall|p: int, q: int| 0 <= p < q < ids@.len() ==> ids@[p] != ids@[q],
            forall|id: u64|
                #[trigger] count_of(added@, id) == if elem_of(ids@.take(k as int), id) {
                    surplus(a@, b@, id)
                } else {
                    0
                },
            forall|id: u64|
                #[trigger] count_of(removed@, id) == if elem_of(ids@.take(k as int), id) {
                    deficit(a@, b@, id)
                } else {
                    0
                },
            unique_ids(added@),
            unique_ids(removed@),
            positive_qty(added@),
            positive_qty(removed@),
            forall|id: u64|
                #[trigger] has_id(added@, id) ==> elem_of(ids@.take(k as int), id),
            forall|id: u64|
                #[trigger] has_id(removed@, id) ==> elem_of(ids@.take(k as int), id),
        decreases ids@.len() - k,
    {
        let id = ids[k];
        let ca = count_copies(a, id);
        let cb = count_copies(b, id);
        proof {
            lemma_count_nonneg(a@, id);
            lemma_count_nonneg(b@, id);
            lemma_distinct_not_in_prefix(ids@, k as int);
        }
        let ghost added0 = added@;
        let ghost removed0 = removed@;
        if cb > ca {
            let q = cb - ca;
            proof {
                assert(!has_id(added0, id));
            }
            added.push((id, q as u32));
            proof {
                assert forall|p: int, q2: int|
                    0 <= p < q2 < added@.len() implies (#[trigger] added@[p]).0 != (
                #[trigger] added@[q2]).0 by {
                    if q2 == added@.len() - 1 {
                        assert(added@[p] == added0[p]);
                        if added0[p].0 == id {
                            assert(has_id(added0, id));
                        }
                    } else {
                        assert(added@[p] == added0[p]);
                        assert(added@[q2] == added0[q2]);
                    }
                }
                assert(positive_qty(added@)) by {
                    assert(forall|p: int|
                        0 <= p < added@.len() - 1 ==> (#[trigger] added@[p]) == added0[p]);
                    assert(added@[added@.len() - 1].1 > 0);
                }
            }
        } else if ca > cb {
            let q = ca - cb;
            proof {
                assert(!has_id(removed0, id));
            }
            removed.push((id, q as u32));
            proof {
                assert forall|p: int, q2: int|
                    0 <= p < q2 < removed@.len() implies (#[trigger] removed@[p]).0 != (
                #[trigger] removed@[q2]).0 by {
                    if q2 == removed@.len() - 1 {
                        assert(removed@[p] == removed0[p]);
                        if removed0[p].0 == id {
                            assert(has_id(removed0, id));
                        }
                    } else {
                        assert(removed@[p] == removed0[p]);
                        assert(removed@[q2] == removed0[q2]);
                    }
                }
                assert(positive_qty(removed@)) by {
                    assert(forall|p: int|
                        0 <= p < removed@.len() - 1 ==> (#[trigger] removed@[p]) == removed0[p]);
                    assert(removed@[removed@.len() - 1].1 > 0);
                }
            }
        }
        proof {
            assert forall|x: u64| #[trigger] count_of(added@, x) == (if elem_of(
                ids@.take(k + 1),
                x,
            ) {
                surplus(a@, b@, x)
            } else {
                0
            }) by {
                lemma_elem_take_step(ids@, k as int, x);
                if added@ == added0 {
                    if x == id {
                        assert(count_of(added@, x) == 0);
                        assert(surplus(a@, b@, x) == 0);
                    }
                } else {
                    lemma_count_push(added0, (id, (cb - ca) as u32), x);
                }
            }
            assert forall|x: u64| #[trigger] count_of(removed@, x) == (if elem_of(
                ids@.take(k + 1),
                x,
            ) {
                deficit(a@, b@, x)
            } else {
                0
            }) by {
                lemma_elem_take_step(ids@, k as int, x);
                if removed@ == removed0 {
                    if x == id {
                        assert(count_of(removed@, x) == 0);
                        assert(deficit(a@, b@, x) == 0);
                    }
                } else {
                    lemma_count_push(removed0, (id, (ca - cb) as u32), x);
                }
            }
            assert forall|x: u64| #[trigger] has_id(added@, x) implies elem_of(
                ids@.take(k + 1),
                x,
            ) by {
                lemma_elem_take_step(ids@, k as int, x);
                if added@ != added0 {
                    lemma_has_push(added0, (id, (cb - ca) as u32), x);
                }
            }
            assert forall|x: u64| #[trigger] has_id(removed@, x) implies elem_of(
                ids@.take(k + 1),
                x,
            ) by {
                lemma_elem_take_step(ids@, k as int, x);
                if removed@ != removed0 {
                    lemma_has_push(removed0, (id, (ca - cb) as u32), x);
                }
            }
        }
        k = k + 1;
    }
    proof {
        assert(ids@.take(ids@.len() as int) =~= ids@);
        assert forall|id: u64| #[trigger] count_of(added@, id) == surplus(a@, b@, id) by {
            if !elem_of(ids@, id) {
                lemma_absent_counts_zero(a@, id);
                lemma_absent_counts_zero(b@, id);
            }
        }
        assert forall|id: u64| #[trigger] count_of(removed@, id) == deficit(a@, b@, id) by {
            if !elem_of(ids@, id) {
                lemma_absent_counts_zero(a@, id);
                lemma_absent_counts_zero(b@, id);
            }
        }
        if forall|id: u64| #[trigger] count_of(a@, id) == count_of(b@, id) {
            assert(added@.len() == 0) by {
                if added@.len() > 0 {
                    lemma_count_at_least_last(added@);
                    let last_id = added@.last().0;
                    assert(added@[added@.len() - 1] == added@.last());
                    assert(count_of(added@, last_id) > 0);
                    assert(count_of(a@, last_id) == count_of(b@, last_id));
                    assert(surplus(a@, b@, last_id) == 0);
                }
            }
            assert(removed@.len() == 0) by {
                if removed@.len() > 0 {
                    lemma_count_at_least_last(removed@);
                    let last_id = removed@.last().0;
                    assert(removed@[removed@.len() - 1] == removed@.last());
                    assert(count_of(removed@, last_id) > 0);
                    assert(count_of(a@, last_id) == count_of(b@, last_id));
                    assert(deficit(a@, b@, last_id) == 0);
                }
            }
        }
    }
    DeckDifference { added, removed }
}

/// Applies a delta to a decklist: the result holds, for every id, the
/// original count plus what was added minus what was removed.
pub fn apply(d: &DeckDifference, a: &Vec<(u64, u32)>) -> (r: Vec<(u64, u32)>)
    requires
        a@.len() <= u32::MAX,
        d.added@.len() <= u32::MAX,
        d.removed@.len() <= u32::MAX,
        bounded_counts(a@),
        bounded_counts(d.added@),
        forall|id: u64|
            #[trigger] count_of(d.removed@, id) <= count_of(a@, id) + count_of(d.added@, id),
        forall|id: u64|
            #[trigger] count_of(a@, id) + count_of(d.added@, id) - count_of(d.removed@, id)
                <= u32::MAX,
    ensures
        forall|id: u64|
            #[trigger] count_of(r@, id) == count_of(a@, id) + count_of(d.added@, id) - count_of(
                d.removed@,
                id,
            ),
{
    let ids = collect_ids(a, &d.added);
    let mut out: Vec<(u64, u32)> = Vec::new();
    let mut k: usize = 0;
    while k < ids.len()
        invariant
            0 <= k <= ids@.len(),
            a@.len() <= u32::MAX,
            d.added@.len() <= u32::MAX,
            d.removed@.len() <= u32::MAX,
            bounded_counts(a@),
            bounded_counts(d.added@),
            forall|id: u64|
                #[trigger] count_of(d.removed@, id) <= count_of(a@, id) + count_of(
                    d.added@,
                    id,
                ),
            forall|id: u64|
                #[trigger] count_of(a@, id) + count_of(d.added@, id) - count_of(d.removed@, id)
                    <= u32::MAX,
            forall|id: u64|
                #[trigger] elem_of(ids@, id) <==> (has_id(a@, id) || has_id(d.added@, id)),
            forall|p: int, q: int| 0 <= p < q < ids@.len() ==> ids@[p] != ids@[q],
            forall|id: u64|
                #[trigger] count_of(out@, id) == if elem_of(ids@.take(k as int), id) {
                    count_of(a@, id) + count_of(d.added@, id) - count_of(d.removed@, id)
                } else {
                    0
                },
        decreases ids@.len() - k,
    {
        let id = ids[k];
        let ca = count_copies(a, id);
        let cadd = count_copies(&d.added, id);
        let crem = count_copies(&d.removed, id);
        proof {
            lemma_count_nonneg(a@, id);
            lemma_count_nonneg(d.added@, id);
            lemma_count_nonneg(d.removed@, id);
            lemma_distinct_not_in_prefix(ids@, k as int);
        }
        let total = ca + cadd - crem;
        let ghost out0 = out@;
        if total > 0 {
            out.push((id, total as u32));
        }
        proof {
            assert forall|x: u64| #[trigger] count_of(out@, x) == (if elem_of(
                ids@.take(k + 1),
                x,
            ) {
                count_of(a@, x) + count_of(d.added@, x) - count_of(d.removed@, x)
            } else {
                0
            }) by {
                lemma_elem_take_step(ids@, k as int, x);
                if out@ == out0 {
                    if x == id {
                        assert(count_of(out@, x) == 0);
                    }
                } else {
                    lemma_count_push(out0, (id, total as u32), x);
                }
            }
        }
        k = k + 1;
    }
    proof {
        assert(ids@.take(ids@.len() as int) =~= ids@);
        assert forall|id: u64| #[trigger] count_of(out@, id) == count_of(a@, id) + count_of(
            d.added@,
            id,
        ) - count_of(d.removed@, id) by {
            if !elem_of(ids@, id) {
                lemma_absent_counts_zero(a@, id);
                lemma_absent_counts_zero(d.added@, id);
                lemma_count_nonneg(d.removed@, id);
            }
        }
    }
    out
}

} // verus!
