//! The binary wire format of the card catalog.
//!
//! The catalog file is a length-delimited binary encoding following the
//! standard wire-format layout: a record is a sequence of fields, each a
//! key varint holding the field number and wire type, followed by a
//! varint value or a length-delimited byte string.  Encoding is specified
//! byte for byte; decoding consumes the buffer front to back and rejects
//! truncated or oversized numbers.

use vstd::prelude::*;

verus! {

/// The k-th power of 128.
pub open spec fn pow128(k: int) -> int
    decreases k,
{
    if k <= 0 {
        1
    } else {
        pow128(k - 1) * 0x80
    }
}

/// The base-128 varint encoding of `n`, least significant group first.
pub open spec fn varint(n: int) -> Seq<u8>
    decreases n,
{
    if n < 0x80 || n < 0 {
        seq![(n % 0x80) as u8]
    } else {
        seq![(n % 0x80 + 0x80) as u8] + varint(n / 0x80)
    }
}

proof fn lemma_varint_len_bounded(n: int, k: int)
    requires
        0 <= n,
        1 <= k,
        n < pow128(k),
    ensures
        varint(n).len() <= k,
    decreases k,
{
    if n >= 0x80 {
        assert(pow128(k) == pow128(k - 1) * 0x80);
        if k == 1 {
            assert(pow128(0int) == 1);
            assert(false);
        } else {
            assert(n / 0x80 < pow128(k - 1)) by (nonlinear_arith)
                requires
                    n < pow128(k),
                    pow128(k) == pow128(k - 1) * 0x80,
                    n >= 0,
            ;
            lemma_varint_len_bounded(n / 0x80, k - 1);
        }
    }
}

/// A varint takes at most ten bytes for a 64-bit value.
pub proof fn lemma_varint_len(n: int)
    requires
        0 <= n <= u64::MAX,
    ensures
        1 <= varint(n).len() <= 10,
{
    assert(u64::MAX < pow128(10)) by {
        reveal_with_fuel(pow128, 11);
    }
    lemma_varint_len_bounded(n, 10);
}

/// Appends the varint encoding of `n` to `out`.
pub fn write_varint(out: &mut Vec<u8>, n: u64)
    ensures
        final(out)@ == old(out)@ + varint(n as int),
    decreases n,
{
    if n < 0x80 {
        out.push(n as u8);
        proof {
            assert(old(out)@ + varint(n as int) =~= old(out)@.push((n as int % 0x80) as u8));
        }
    } else {
        let b = (n % 0x80 + 0x80) as u8;
        out.push(b);
        let ghost mid = out@;
        write_varint(out, n / 0x80);
        proof {
            assert(mid =~= old(out)@.push(b));
            assert(out@ =~= old(out)@ + varint(n as int));
        }
    }
}

/// What reading a varint from `s` at offset `i` yields: the value and the
/// offset after it, or nothing if the buffer ends or ten groups did not
/// finish the number.
pub open spec fn read_varint_spec(s: Seq<u8>, i: int) -> Option<(int, int)> {
    read_varint_rec(s, i, 0, 0)
}

/// Reads varint groups one at a time: `acc` holds the value so far,
/// `count` the groups read.
pub open spec fn read_varint_rec(s: Seq<u8>, i: int, acc: int, count: int) -> Option<(int, int)>
    decreases s.len() - i,
{
    if i < 0 || i >= s.len() || count >= 10 {
        None
    } else if s[i] < 0x80 {
        Some((acc + s[i] * pow128(count), i + 1))
    } else {
        read_varint_rec(s, i + 1, acc + (s[i] - 0x80) * pow128(count), count + 1)
    }
}

/// The accumulated value always stays below the weight of the next group.
proof fn lemma_acc_bound(acc: int, b: int, count: int)
    requires
        0 <= acc < pow128(count),
        0 <= b < 0x80,
        count >= 0,
    ensures
        acc + b * pow128(count) < pow128(count + 1),
        acc + b * pow128(count) >= 0,
{
    assert(acc + b * pow128(count) < pow128(count) * 0x80) by (nonlinear_arith)
        requires
            0 <= acc < pow128(count),
            0 <= b < 0x80,
            pow128(count) > 0,
    ;
    assert(pow128(count + 1) == pow128(count) * 0x80);
    assert(b * pow128(count) >= 0) by (nonlinear_arith)
        requires
            b >= 0,
            pow128(count) > 0,
    ;
}

proof fn lemma_pow128_pos(k: int)
    ensures
        pow128(k) >= 1,
    decreases k,
{
    if k > 0 {
        lemma_pow128_pos(k - 1);
    }
}

/// Reads a varint from `s` at offset `i`, rejecting values above the
/// 64-bit range.
pub fn read_varint(s: &[u8], i: usize) -> (r: Option<(u64, usize)>)
    ensures
        r is Some ==> {
            let sp = read_varint_spec(s@, i as int);
            &&& sp is Some
            &&& (r->0).0 == (sp->0).0
            &&& (r->0).1 == (sp->0).1
            &&& i < (r->0).1 <= s@.len()
        },
        r is None ==> read_varint_spec(s@, i as int) is None || (read_varint_spec(
            s@,
            i as int,
        )->0).0 > u64::MAX,
{
    let mut acc: u128 = 0;
    let mut scale: u128 = 1;
    let mut pos: usize = i;
    let mut count: u32 = 0;
    loop
        invariant
            i <= pos,
            pos == i + count,
            count <= 9,
            scale == pow128(count as int),
            0 <= acc < scale,
            read_varint_spec(s@, i as int) == read_varint_rec(
                s@,
                pos as int,
                acc as int,
                count as int,
            ),
        decreases s@.len() - pos,
    {
        proof {
            lemma_pow128_pos(count as int);
            assert(pow128(9int) < u128::MAX) by {
                reveal_with_fuel(pow128, 10);
            }
            lemma_varint_scale_bound(count as int);
        }
        if pos >= s.len() {
            return None;
        }
        let b = s[pos];
        if b < 0x80 {
            proof {
                lemma_acc_bound(acc as int, b as int, count as int);
                lemma_varint_scale_bound(count as int + 1);
                assert(0 <= (b as int) * (scale as int)) by (nonlinear_arith)
                    requires
                        0 <= b,
                        0 < scale,
                ;
                assert(pow128(10int) < u128::MAX) by {
                    reveal_with_fuel(pow128, 11);
                }
            }
            let v = acc + (b as u128) * scale;
            if v > u64::MAX as u128 {
                return None;
            }
            return Some((v as u64, pos + 1));
        }
        if count == 9 {
            proof {
                assert(read_varint_rec(s@, pos as int + 1, acc as int + (s@[pos as int] - 0x80)
                    * pow128(9), 10) is None);
            }
            return None;
        }
        proof {
            lemma_acc_bound(acc as int, b as int - 0x80, count as int);
            lemma_varint_scale_bound(count as int + 1);
            assert(0 <= (b - 0x80) as int * (scale as int)) by (nonlinear_arith)
                requires
                    0x80 <= b,
                    0 < scale,
            ;
            assert(pow128(10int) < u128::MAX) by {
                reveal_with_fuel(pow128, 11);
            }
        }
        acc = acc + ((b - 0x80) as u128) * scale;
        scale = scale * 0x80;
        count = count + 1;
        pos = pos + 1;
    }
}

proof fn lemma_varint_scale_bound(k: int)
    requires
        0 <= k <= 10,
    ensures
        pow128(k) <= pow128(10int),
    decreases 10 - k,
{
    if k < 10 {
        lemma_varint_scale_bound(k + 1);
        lemma_pow128_pos(k);
        assert(pow128(k + 1) == pow128(k) * 0x80);
        assert(pow128(k) <= pow128(k) * 0x80) by (nonlinear_arith)
            requires
                pow128(k) >= 1,
        ;
    }
}

/// A successful read yields a non-negative number and ends strictly
/// past where it began, inside the buffer.
pub proof fn lemma_read_advances(s: Seq<u8>, i: int, acc: int, count: int)
    requires
        0 <= acc,
        0 <= count,
        read_varint_rec(s, i, acc, count) is Some,
    ensures
        i < (read_varint_rec(s, i, acc, count)->0).1 <= s.len(),
        0 <= (read_varint_rec(s, i, acc, count)->0).0,
    decreases s.len() - i,
{
    lemma_pow128_pos(count);
    if s[i] >= 0x80 {
        assert((s[i] - 0x80) * pow128(count) >= 0) by (nonlinear_arith)
            requires
                s[i] >= 0x80,
                pow128(count) >= 1,
        ;
        lemma_read_advances(s, i + 1, acc + (s[i] - 0x80) * pow128(count), count + 1);
    } else {
        assert(s[i] * pow128(count) >= 0) by (nonlinear_arith)
            requires
                s[i] >= 0,
                pow128(count) >= 1,
        ;
    }
}

/// Reading back what was written: a varint placed at offset `i` of a
/// buffer decodes to the number it encodes, ending right after it.
pub proof fn lemma_varint_round_trip(s: Seq<u8>, i: int, n: int)
    requires
        0 <= n <= u64::MAX,
        0 <= i,
        i + varint(n).len() <= s.len(),
        s.subrange(i, i + varint(n).len()) == varint(n),
    ensures
        read_varint_spec(s, i) == Some((n, i + varint(n).len())),
{
    lemma_varint_len(n);
    lemma_varint_round_trip_rec(s, i, n, 0, 0);
}

proof fn lemma_varint_round_trip_rec(s: Seq<u8>, i: int, n: int, acc: int, count: int)
    requires
        0 <= n,
        0 <= acc,
        0 <= count,
        count + varint(n).len() <= 10,
        0 <= i,
        i + varint(n).len() <= s.len(),
        s.subrange(i, i + varint(n).len()) == varint(n),
    ensures
        read_varint_rec(s, i, acc, count) == Some(
            (acc + n * pow128(count), i + varint(n).len()),
        ),
    decreases n,
{
    lemma_pow128_pos(count);
    if n < 0x80 {
        assert(varint(n).len() == 1);
        assert(s.subrange(i, i + 1)[0] == s[i]);
        assert(s[i] == (n % 0x80) as u8);
        assert(n % 0x80 == n);
        assert(read_varint_rec(s, i, acc, count) == Some((acc + s[i] * pow128(count), i + 1)));
    } else {
        let w = varint(n);
        let tail = varint(n / 0x80);
        assert(w == seq![(n % 0x80 + 0x80) as u8] + tail);
        assert(w[0] == (n % 0x80 + 0x80) as u8);
        assert(s.subrange(i, i + w.len())[0] == s[i]);
        assert(s[i] == (n % 0x80 + 0x80) as u8);
        assert(s[i] >= 0x80);
        assert(s.subrange(i + 1, i + 1 + tail.len()) =~= tail) by {
            assert(forall|k: int|
                0 <= k < tail.len() ==> s.subrange(i + 1, i + 1 + tail.len())[k] == s[i + 1 + k]
                    && w[k + 1] == tail[k] && s.subrange(i, i + w.len())[k + 1] == s[i + 1 + k]);
        }
        let acc2 = acc + (s[i] - 0x80) * pow128(count);
        lemma_varint_round_trip_rec(s, i + 1, n / 0x80, acc2, count + 1);
        assert(acc2 + (n / 0x80) * pow128(count + 1) == acc + n * pow128(count)) by (
        nonlinear_arith)
            requires
                acc2 == acc + (n % 0x80) * pow128(count),
                pow128(count + 1) == pow128(count) * 0x80,
                n >= 0,
                pow128(count) >= 1,
        ;
    }
}

/// Appends a length-delimited byte string: its length as a varint, then
/// the bytes themselves.
pub open spec fn len_delimited(payload: Seq<u8>) -> Seq<u8> {
    varint(payload.len() as int) + payload
}

/// The key of a field: its number shifted left three times, plus the wire
/// type.
pub open spec fn field_key(field: int, wire_type: int) -> int {
    field * 8 + wire_type
}

/// Appends the key of a field.
pub fn write_key(out: &mut Vec<u8>, field: u32, wire_type: u32)
    requires
        wire_type < 8,
        field < 0x1000_0000,
    ensures
        final(out)@ == old(out)@ + varint(field_key(field as int, wire_type as int)),
{
    write_varint(out, (field as u64) * 8 + wire_type as u64);
}

} // verus!
