//! The incremental log reader.
//!
//! A log file is appended to by a process outside our control, and may be
//! truncated in place or replaced.  The surrounding loop reads raw chunks
//! from the file; the tailer holds the reading position and the partial
//! line left over by the previous read, and turns chunks into completed
//! lines.  A line is complete once its separator has been seen; the
//! partial tail is retained and concatenated with the next chunk.

use vstd::prelude::*;

verus! {

use vstd::string::StrSliceExecFns;
use vstd::string::StringExecFns;
use vstd::string::StringSliceAdditionalSpecFns;
use crate::text::push_char;
use crate::text::split_fold;
use crate::text::split_step;

/// The length in bytes of a chunk, as the offset bookkeeping counts it.
pub open spec fn byte_len(s: &str) -> u64 {
    ((s.spec_bytes().len() as usize) as u64)
}

/// The line separator the tailer splits on.
pub open spec fn sep() -> char {
    '\n'
}

/// True iff `l` holds no separator.
pub open spec fn no_sep(l: Seq<char>) -> bool {
    forall|i: int| 0 <= i < l.len() ==> l[i] != sep()
}

/// The concatenation of `ls`, one separator after each piece.
pub open spec fn join_lines(ls: Seq<Seq<char>>) -> Seq<char>
    decreases ls.len(),
{
    if ls.len() == 0 {
        Seq::empty()
    } else {
        join_lines(ls.drop_last()) + ls.last() + seq![sep()]
    }
}

/// What the tailer returns for a chunk, given the pending partial line:
/// the completed lines and the new partial tail.
pub open spec fn tail_split(pending: Seq<char>, chunk: Seq<char>) -> (Seq<Seq<char>>, Seq<char>) {
    split_fold((Seq::empty(), pending), chunk, sep())
}

/// Nothing is lost or invented: the returned lines, each closed by its
/// separator, followed by the new partial tail, reconstruct exactly the
/// pending tail plus the chunk that was read.
pub proof fn lemma_split_reconstructs(acc: (Seq<Seq<char>>, Seq<char>), s: Seq<char>)
    ensures
        join_lines(split_fold(acc, s, sep()).0) + split_fold(acc, s, sep()).1 == join_lines(acc.0)
            + acc.1 + s,
    decreases s.len(),
{
    if s.len() == 0 {
        assert(join_lines(acc.0) + acc.1 + s =~= join_lines(acc.0) + acc.1);
    } else {
        let c = s[0];
        let acc2 = split_step(acc, c, sep());
        lemma_split_reconstructs(acc2, s.drop_first());
        if c == sep() {
            assert(acc.0.push(acc.1).drop_last() =~= acc.0);
            assert(join_lines(acc2.0) + acc2.1 =~= join_lines(acc.0) + acc.1 + seq![c]);
        } else {
            assert(join_lines(acc2.0) + acc2.1 =~= join_lines(acc.0) + acc.1 + seq![c]);
        }
        assert(join_lines(acc.0) + acc.1 + seq![c] + s.drop_first() =~= join_lines(acc.0) + acc.1
            + s);
    }
}

/// No returned line and no partial tail ever holds a separator.
pub proof fn lemma_split_pieces_clean(acc: (Seq<Seq<char>>, Seq<char>), s: Seq<char>)
    requires
        forall|i: int| 0 <= i < acc.0.len() ==> no_sep(#[trigger] acc.0[i]),
        no_sep(acc.1),
    ensures
        forall|i: int|
            0 <= i < split_fold(acc, s, sep()).0.len() ==> no_sep(
                #[trigger] split_fold(acc, s, sep()).0[i],
            ),
        no_sep(split_fold(acc, s, sep()).1),
    decreases s.len(),
{
    if s.len() > 0 {
        let c = s[0];
        let acc2 = split_step(acc, c, sep());
        assert(forall|i: int| 0 <= i < acc2.0.len() ==> no_sep(#[trigger] acc2.0[i]));
        lemma_split_pieces_clean(acc2, s.drop_first());
    }
}

/// Append-safety: reading the written content in two chunks yields the
/// same lines, in the same order, as reading it in one; so any
/// interleaving of writes and polls returns every line exactly once.
pub proof fn lemma_append_safety(pending: Seq<char>, a: Seq<char>, b: Seq<char>)
    ensures
        tail_split(pending, a + b).0 == tail_split(pending, a).0 + tail_split(
            tail_split(pending, a).1,
            b,
        ).0,
        tail_split(pending, a + b).1 == tail_split(tail_split(pending, a).1, b).1,
{
    crate::text::lemma_split_fold_app((Seq::empty(), pending), a, b, sep());
    let mid = tail_split(pending, a);
    // Folding `b` from the intermediate state only appends to the lines
    // already closed.
    lemma_split_fold_lines_prefix(mid.0, mid.1, b);
}

/// What a whole sequence of polls returns: each chunk is fed in turn,
/// the partial tail carried from one poll to the next.
pub open spec fn poll_all(pending: Seq<char>, chunks: Seq<Seq<char>>) -> (Seq<Seq<char>>, Seq<
    char,
>)
    decreases chunks.len(),
{
    if chunks.len() == 0 {
        (Seq::empty(), pending)
    } else {
        let first = tail_split(pending, chunks[0]);
        let rest = poll_all(first.1, chunks.drop_first());
        (first.0 + rest.0, rest.1)
    }
}

/// The complete written content: all chunks in order.
pub open spec fn concat_chunks(chunks: Seq<Seq<char>>) -> Seq<char>
    decreases chunks.len(),
{
    if chunks.len() == 0 {
        Seq::empty()
    } else {
        chunks[0] + concat_chunks(chunks.drop_first())
    }
}

/// Append-safety over any interleaving: however the writes were chunked
/// between polls, the concatenation of all returned lines equals the
/// complete written content split on separators — no line duplicated or
/// lost — and the same partial tail remains.
pub proof fn lemma_poll_all_append_safety(pending: Seq<char>, chunks: Seq<Seq<char>>)
    ensures
        poll_all(pending, chunks).0 == tail_split(pending, concat_chunks(chunks)).0,
        poll_all(pending, chunks).1 == tail_split(pending, concat_chunks(chunks)).1,
    decreases chunks.len(),
{
    if chunks.len() == 0 {
        assert(poll_all(pending, chunks).0 =~= tail_split(pending, concat_chunks(chunks)).0);
    } else {
        let first = tail_split(pending, chunks[0]);
        lemma_poll_all_append_safety(first.1, chunks.drop_first());
        lemma_append_safety(pending, chunks[0], concat_chunks(chunks.drop_first()));
    }
}

/// Lines already closed are never revisited: folding more input onto an
/// accumulator extends its line sequence on the right.
proof fn lemma_split_fold_lines_prefix(ls: Seq<Seq<char>>, p: Seq<char>, s: Seq<char>)
    ensures
        split_fold((ls, p), s, sep()).0 == ls + split_fold((Seq::empty(), p), s, sep()).0,
        split_fold((ls, p), s, sep()).1 == split_fold((Seq::empty(), p), s, sep()).1,
    decreases s.len(),
{
    if s.len() == 0 {
        assert(ls + Seq::<Seq<char>>::empty() =~= ls);
    } else {
        let c = s[0];
        if c == sep() {
            lemma_split_fold_lines_prefix(ls.push(p), Seq::empty(), s.drop_first());
            lemma_split_fold_lines_prefix(seq![p], Seq::empty(), s.drop_first());
            let tail0 = split_fold((Seq::<Seq<char>>::empty(), Seq::<char>::empty()), s.drop_first(), sep()).0;
            assert(ls.push(p) + tail0 =~= ls + (seq![p] + tail0));
            assert(Seq::<Seq<char>>::empty().push(p) =~= seq![p]);
        } else {
            lemma_split_fold_lines_prefix(ls, p.push(c), s.drop_first());
        }
    }
}

/// The incremental reader's state: the byte offset up to which the file
/// has been consumed, and the partial line awaiting its separator.
pub struct Tailer {
    offset: u64,
    pending: String,
}

impl View for Tailer {
    type V = (u64, Seq<char>);

    closed spec fn view(&self) -> (u64, Seq<char>) {
        (self.offset, self.pending@)
    }
}

impl Tailer {
    /// The partial line never holds a separator.
    pub open spec fn wf(&self) -> bool {
        no_sep(self@.1)
    }

    /// A tailer for a freshly opened file: offset zero, nothing pending,
    /// so historical lines are emitted first.
    pub fn new() -> (t: Tailer)
        ensures
            t@ == (0u64, Seq::<char>::empty()),
            t.wf(),
    {
        Tailer { offset: 0, pending: String::new() }
    }

    /// Discards all state, as after a rotation notification: reading
    /// resumes at offset zero of the (new) file.
    pub fn reset(&mut self)
        ensures
            final(self)@ == (0u64, Seq::<char>::empty()),
            final(self).wf(),
    {
        self.offset = 0;
        self.pending = String::new();
    }

    /// The offset the next read should start from.
    pub fn offset(&self) -> (r: u64)
        ensures
            r == self@.0,
    {
        self.offset
    }

    /// Decides where to read given the current file length.  A length
    /// below the last observed offset means the file was truncated in
    /// place: the tailer resets and the next lines come from offset zero
    /// of the new content.
    pub fn read_from(&mut self, file_len: u64) -> (start: u64)
        ensures
            file_len < old(self)@.0 ==> start == 0 && final(self)@ == (
                0u64,
                Seq::<char>::empty(),
            ),
            file_len >= old(self)@.0 ==> start == old(self)@.0 && final(self)@ == old(self)@,
            old(self).wf() ==> final(self).wf(),
    {
        if file_len < self.offset {
            self.reset();
            0
        } else {
            self.offset
        }
    }

    /// Consumes the chunk read from the file at the current offset and
    /// returns the lines completed by it, separators stripped.  The tail
    /// after the last separator is retained for the next poll.
    pub fn feed(&mut self, chunk: &str) -> (lines: Vec<String>)
        requires
            old(self).wf(),
            old(self)@.0 + byte_len(chunk) <= u64::MAX,
        ensures
            final(self).wf(),
            lines@.map_values(|l: String| l@) == tail_split(old(self)@.1, chunk@).0,
            final(self)@.1 == tail_split(old(self)@.1, chunk@).1,
            final(self)@.0 == old(self)@.0 + byte_len(chunk),
            forall|i: int| 0 <= i < lines@.len() ==> no_sep(#[trigger] lines@[i]@),
    {
        let n = chunk.unicode_len();
        let mut lines: Vec<String> = Vec::new();
        let mut cur = self.pending.clone();
        let mut i: usize = 0;
        while i < n
            invariant
                *self == *old(self),
                0 <= i <= n,
                n == chunk@.len(),
                (lines@.map_values(|l: String| l@), cur@) == split_fold(
                    (Seq::<Seq<char>>::empty(), old(self)@.1),
                    chunk@.take(i as int),
                    sep(),
                ),
            decreases n - i,
        {
            let c = chunk.get_char(i);
            proof {
                assert(chunk@.take(i + 1) =~= chunk@.take(i as int).push(chunk@[i as int]));
                crate::text::lemma_split_fold_push(
                    (Seq::<Seq<char>>::empty(), old(self)@.1),
                    chunk@.take(i as int),
                    chunk@[i as int],
                    sep(),
                );
            }
            if c == '\n' {
                lines.push(cur);
                cur = String::new();
            } else {
                let ghost old_cur = cur@;
                push_char(&mut cur, c);
                proof {
                    assert(cur@ =~= old_cur.push(c));
                }
            }
            proof {
                assert(lines@.map_values(|l: String| l@) =~= split_fold(
                    (Seq::<Seq<char>>::empty(), old(self)@.1),
                    chunk@.take(i + 1),
                    sep(),
                ).0);
            }
            i = i + 1;
        }
        proof {
            assert(chunk@.take(n as int) =~= chunk@);
            lemma_split_pieces_clean((Seq::<Seq<char>>::empty(), old(self)@.1), chunk@);
            assert forall|j: int| 0 <= j < lines@.len() implies no_sep(#[trigger] lines@[j]@) by {
                assert(lines@.map_values(|l: String| l@)[j] == lines@[j]@);
                assert(no_sep(split_fold((Seq::<Seq<char>>::empty(), old(self)@.1), chunk@, sep()).0[j]));
            }
        }
        self.pending = cur;
        self.offset = self.offset + chunk.len() as u64;
        lines
    }
}

} // verus!
