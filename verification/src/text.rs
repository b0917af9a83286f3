//! Character-level text helpers shared by the decoder, the mana-cost
//! grammar and the JSON writer: equality, decimal parsing with explicit
//! range checks, decimal rendering, and separator splitting.

use vstd::prelude::*;

verus! {

use vstd::string::StrSliceExecFns;
use vstd::string::StringExecFns;

/// Appends one character to a string.
///
/// Relies on `String::push`: pushes the given character onto the end of the
/// string and changes nothing else.
#[verifier::external_body]
pub fn push_char(s: &mut String, c: char)
    ensures
        final(s)@ == old(s)@.push(c),
{
    s.push(c);
}

/// True iff `c` is a decimal digit.
pub open spec fn is_digit(c: char) -> bool {
    48 <= c as u32 <= 57
}

/// The numeric value of a digit character.
pub open spec fn digit_val(c: char) -> int {
    c as u32 - 48
}

/// True iff every character of `s` is a decimal digit.
pub open spec fn all_digits(s: Seq<char>) -> bool {
    forall|i: int| 0 <= i < s.len() ==> is_digit(#[trigger] s[i])
}

/// The value of a digit string read in base ten.
pub open spec fn dec_value(s: Seq<char>) -> int
    decreases s.len(),
{
    if s.len() == 0 {
        0
    } else {
        dec_value(s.drop_last()) * 10 + digit_val(s.last())
    }
}

/// A digit string has a non-negative value.
pub proof fn lemma_dec_value_nonneg(s: Seq<char>)
    requires
        all_digits(s),
    ensures
        dec_value(s) >= 0,
    decreases s.len(),
{
    if s.len() > 0 {
        assert(all_digits(s.drop_last())) by {
            assert(forall|i: int|
                0 <= i < s.len() - 1 ==> is_digit(#[trigger] s.drop_last()[i]) == is_digit(s[i]));
        }
        lemma_dec_value_nonneg(s.drop_last());
    }
}

/// Every prefix of a digit string has a value no larger than the whole.
pub proof fn lemma_dec_value_prefix(s: Seq<char>, i: int)
    requires
        all_digits(s),
        0 <= i <= s.len(),
    ensures
        dec_value(s.take(i)) <= dec_value(s),
    decreases s.len() - i,
{
    if i < s.len() {
        lemma_dec_value_prefix(s, i + 1);
        let t = s.take(i + 1);
        assert(t.drop_last() =~= s.take(i));
        assert(dec_value(t) == dec_value(s.take(i)) * 10 + digit_val(t.last()));
        lemma_dec_value_nonneg_take(s, i);
    } else {
        assert(s.take(i) =~= s);
    }
}

proof fn lemma_dec_value_nonneg_take(s: Seq<char>, i: int)
    requires
        all_digits(s),
        0 <= i <= s.len(),
    ensures
        dec_value(s.take(i)) >= 0,
{
    assert(all_digits(s.take(i)));
    lemma_dec_value_nonneg(s.take(i));
}

/// Parses an unsigned decimal number, rejecting empty input, any
/// non-digit character, and values that do not fit in a `u64`.
pub fn parse_u64(s: &str) -> (r: Option<u64>)
    ensures
        r is Some <==> s@.len() > 0 && all_digits(s@) && dec_value(s@) <= u64::MAX,
        r is Some ==> r->0 == dec_value(s@),
{
    let n = s.unicode_len();
    if n == 0 {
        return None;
    }
    let mut acc: u64 = 0;
    let mut i: usize = 0;
    while i < n
        invariant
            0 <= i <= n,
            n == s@.len(),
            all_digits(s@.take(i as int)),
            acc == dec_value(s@.take(i as int)),
        decreases n - i,
    {
        let c = s.get_char(i);
        let d32 = c as u32;
        if d32 < 48 || d32 > 57 {
            assert(!is_digit(s@[i as int]));
            return None;
        }
        let d = (d32 - 48) as u64;
        if acc > (u64::MAX - d) / 10 {
            // The prefix read so far already exceeds the range.
            proof {
                assert(acc * 10 + d > u64::MAX) by (nonlinear_arith)
                    requires
                        acc > (u64::MAX - d) / 10,
                        d <= 9,
                ;
                assert(s@.take(i + 1).drop_last() =~= s@.take(i as int));
                assert(dec_value(s@.take(i + 1)) == acc * 10 + d);
                if all_digits(s@) && dec_value(s@) <= u64::MAX {
                    lemma_dec_value_prefix(s@, i + 1);
                }
            }
            return None;
        }
        proof {
            assert(acc * 10 + d <= u64::MAX) by (nonlinear_arith)
                requires
                    acc <= (u64::MAX - d) / 10,
                    d <= 9,
            ;
            assert(s@.take(i + 1).drop_last() =~= s@.take(i as int));
        }
        acc = acc * 10 + d;
        i = i + 1;
    }
    proof {
        assert(s@.take(n as int) =~= s@);
    }
    Some(acc)
}

/// The decimal digit character for a value in `0..10`.
pub open spec fn digit_char(d: int) -> char {
    if d == 0 { '0' }
    else if d == 1 { '1' }
    else if d == 2 { '2' }
    else if d == 3 { '3' }
    else if d == 4 { '4' }
    else if d == 5 { '5' }
    else if d == 6 { '6' }
    else if d == 7 { '7' }
    else if d == 8 { '8' }
    else { '9' }
}

/// The decimal rendering of a natural number, most significant digit first.
pub open spec fn dec_chars(n: int) -> Seq<char>
    decreases n,
{
    if n < 10 {
        seq![digit_char(n)]
    } else {
        dec_chars(n / 10).push(digit_char(n % 10))
    }
}

fn digit_to_char(d: u64) -> (c: char)
    requires
        d < 10,
    ensures
        c == digit_char(d as int),
{
    if d == 0 { '0' }
    else if d == 1 { '1' }
    else if d == 2 { '2' }
    else if d == 3 { '3' }
    else if d == 4 { '4' }
    else if d == 5 { '5' }
    else if d == 6 { '6' }
    else if d == 7 { '7' }
    else if d == 8 { '8' }
    else { '9' }
}

/// Renders a number in decimal.
pub fn u64_to_string(n: u64) -> (s: String)
    ensures
        s@ == dec_chars(n as int),
    decreases n,
{
    if n < 10 {
        let mut s = String::new();
        push_char(&mut s, digit_to_char(n));
        proof {
            assert(s@ =~= dec_chars(n as int));
        }
        s
    } else {
        let mut s = u64_to_string(n / 10);
        push_char(&mut s, digit_to_char(n % 10));
        s
    }
}

/// The decimal rendering of a signed number: a minus sign for negative
/// values, then the magnitude.
pub open spec fn dec_signed_chars(n: int) -> Seq<char> {
    if n >= 0 {
        dec_chars(n)
    } else {
        seq!['-'] + dec_chars(-n)
    }
}

/// Renders a signed number in decimal.
pub fn i64_to_string(n: i64) -> (s: String)
    ensures
        s@ == dec_signed_chars(n as int),
{
    if n >= 0 {
        u64_to_string(n as u64)
    } else {
        let magnitude: u64 = ((-(n + 1)) as u64) + 1;
        let mut s = String::new();
        push_char(&mut s, '-');
        let digits = u64_to_string(magnitude);
        s.append(digits.as_str());
        proof {
            assert(s@ =~= dec_signed_chars(n as int));
        }
        s
    }
}

/// Builds a string from bytes.
///
/// Relies on `String::from_utf8`: succeeds exactly on valid UTF-8 input
/// and keeps the bytes as the string's content.
#[verifier::external_body]
pub fn string_from_utf8(v: Vec<u8>) -> (r: Option<String>)
    ensures
        r is Some <==> vstd::utf8::valid_utf8(v@),
        r is Some ==> vstd::utf8::encode_utf8(r->0@) == v@,
{
    String::from_utf8(v).ok()
}

/// True iff two string slices hold the same characters.
pub fn str_eq(a: &str, b: &str) -> (r: bool)
    ensures
        r <==> a@ == b@,
{
    let na = a.unicode_len();
    let nb = b.unicode_len();
    if na != nb {
        return false;
    }
    let mut i: usize = 0;
    while i < na
        invariant
            0 <= i <= na,
            na == a@.len(),
            na == b@.len(),
            forall|j: int| 0 <= j < i ==> a@[j] == b@[j],
        decreases na - i,
    {
        if a.get_char(i) != b.get_char(i) {
            return false;
        }
        i = i + 1;
    }
    proof {
        assert(a@ =~= b@);
    }
    true
}

/// One step of splitting: a separator closes the piece built so far,
/// any other character extends it.
pub open spec fn split_step(acc: (Seq<Seq<char>>, Seq<char>), c: char, sep: char) -> (Seq<
    Seq<char>,
>, Seq<char>) {
    if c == sep {
        (acc.0.push(acc.1), Seq::empty())
    } else {
        (acc.0, acc.1.push(c))
    }
}

/// Folds `split_step` over `s` from the left: `.0` holds the closed
/// pieces, `.1` the piece still open.
pub open spec fn split_fold(acc: (Seq<Seq<char>>, Seq<char>), s: Seq<char>, sep: char) -> (Seq<
    Seq<char>,
>, Seq<char>)
    decreases s.len(),
{
    if s.len() == 0 {
        acc
    } else {
        split_fold(split_step(acc, s[0], sep), s.drop_first(), sep)
    }
}

/// The pieces of `s` between occurrences of `sep`, the open tail included.
pub open spec fn split_all(s: Seq<char>, sep: char) -> Seq<Seq<char>> {
    let r = split_fold((Seq::empty(), Seq::empty()), s, sep);
    r.0.push(r.1)
}

/// Splitting distributes over concatenation of the input.
pub proof fn lemma_split_fold_app(
    acc: (Seq<Seq<char>>, Seq<char>),
    a: Seq<char>,
    b: Seq<char>,
    sep: char,
)
    ensures
        split_fold(acc, a + b, sep) == split_fold(split_fold(acc, a, sep), b, sep),
    decreases a.len(),
{
    if a.len() == 0 {
        assert(a + b =~= b);
    } else {
        assert((a + b).drop_first() =~= a.drop_first() + b);
        lemma_split_fold_app(split_step(acc, a[0], sep), a.drop_first(), b, sep);
    }
}

proof fn lemma_split_fold_single(acc: (Seq<Seq<char>>, Seq<char>), c: char, sep: char)
    ensures
        split_fold(acc, seq![c], sep) == split_step(acc, c, sep),
{
    let s = seq![c];
    assert(s.len() == 1);
    assert(s[0] == c);
    assert(s.drop_first() =~= Seq::<char>::empty());
    assert(split_fold(acc, s, sep) == split_fold(split_step(acc, c, sep), s.drop_first(), sep));
}

/// Folding one more character is one more step.
pub proof fn lemma_split_fold_push(
    acc: (Seq<Seq<char>>, Seq<char>),
    s: Seq<char>,
    c: char,
    sep: char,
)
    ensures
        split_fold(acc, s.push(c), sep) == split_step(split_fold(acc, s, sep), c, sep),
{
    assert(s.push(c) =~= s + seq![c]);
    lemma_split_fold_app(acc, s, seq![c], sep);
    let acc2 = split_fold(acc, s, sep);
    lemma_split_fold_single(acc2, c, sep);
}

/// Splits a string on a separator character; the piece after the last
/// separator is included, so the result never is empty.
pub fn split_on(s: &str, sep: char) -> (r: Vec<String>)
    ensures
        r@.map_values(|p: String| p@) == split_all(s@, sep),
{
    let n = s.unicode_len();
    let mut pieces: Vec<String> = Vec::new();
    let mut cur = String::new();
    let mut i: usize = 0;
    while i < n
        invariant
            0 <= i <= n,
            n == s@.len(),
            (pieces@.map_values(|p: String| p@), cur@) == split_fold(
                (Seq::<Seq<char>>::empty(), Seq::<char>::empty()),
                s@.take(i as int),
                sep,
            ),
        decreases n - i,
    {
        let c = s.get_char(i);
        proof {
            assert(s@.take(i + 1).drop_last() =~= s@.take(i as int));
            assert(s@.take(i + 1) =~= s@.take(i as int).push(s@[i as int]));
            lemma_split_fold_push(
                (Seq::<Seq<char>>::empty(), Seq::<char>::empty()),
                s@.take(i as int),
                s@[i as int],
                sep,
            );
        }
        if c == sep {
            pieces.push(cur);
            cur = String::new();
        } else {
            let ghost old_cur = cur@;
            push_char(&mut cur, c);
            proof {
                assert(cur@ =~= old_cur.push(c));
            }
        }
        proof {
            assert(pieces@.map_values(|p: String| p@) =~= split_fold(
                (Seq::<Seq<char>>::empty(), Seq::<char>::empty()),
                s@.take(i + 1),
                sep,
            ).0);
        }
        i = i + 1;
    }
    proof {
        assert(s@.take(n as int) =~= s@);
    }
    pieces.push(cur);
    proof {
        assert(pieces@.map_values(|p: String| p@) =~= split_all(s@, sep));
    }
    pieces
}

} // verus!
