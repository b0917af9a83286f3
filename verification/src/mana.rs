//! The mana-cost grammar.
//!
//! A cost is written as a sequence of brace-enclosed symbols such as
//! `{2}{W}{U}`.  Brace groups are extracted first — text outside groups is
//! ignored, a brace group is the content between the last unmatched `{`
//! and the next `}`, and must be non-empty — and each group is then read
//! as one symbol.

use vstd::prelude::*;

verus! {

use vstd::string::StrSliceExecFns;
use vstd::string::StringExecFns;
use crate::text::all_digits;
use crate::text::dec_chars;
use crate::text::dec_value;
use crate::text::parse_u64;
use crate::text::push_char;
use crate::text::u64_to_string;

/// One of the five mana colors.
#[derive(Clone, Copy, Debug, PartialEq, Eq, Structural)]
pub enum Color {
    White,
    Blue,
    Black,
    Red,
    Green,
}

/// One symbol of a mana cost.
#[derive(Clone, Copy, Debug, PartialEq, Eq, Structural)]
pub enum CostSymbol {
    /// A generic amount, written as a number.
    Colorless { n: u8 },
    /// A single colored symbol.
    Color { color: Color },
    /// A symbol payable with the color or with life, written `{W/P}`.
    Phyrexian { color: Color },
    /// A hybrid symbol payable with either color, written `{W/U}`.
    Fuse { color1: Color, color2: Color },
    /// A variable amount, written `{X}`.
    Variable,
    /// Snow mana, written `{S}`.
    Snow,
}

/// Why a cost string was rejected.
#[derive(Clone, Copy, Debug, PartialEq, Eq, Structural)]
pub enum CostParseError {
    /// A brace group does not spell any known symbol.
    InvalidSymbol,
    /// The string is non-empty yet holds no brace group.
    InvalidCost,
}

/// The single-letter spelling of a color.
pub open spec fn color_char(c: Color) -> char {
    match c {
        Color::White => 'W',
        Color::Blue => 'U',
        Color::Black => 'B',
        Color::Red => 'R',
        Color::Green => 'G',
    }
}

/// The color a single letter spells, if any.
pub open spec fn spec_parse_color(c: char) -> Option<Color> {
    if c == 'W' {
        Some(Color::White)
    } else if c == 'U' {
        Some(Color::Blue)
    } else if c == 'B' {
        Some(Color::Black)
    } else if c == 'R' {
        Some(Color::Red)
    } else if c == 'G' {
        Some(Color::Green)
    } else {
        None
    }
}

/// The spelling of one symbol, braces not included.
pub open spec fn symbol_chars(s: CostSymbol) -> Seq<char> {
    match s {
        CostSymbol::Colorless { n } => dec_chars(n as int),
        CostSymbol::Color { color } => seq![color_char(color)],
        CostSymbol::Phyrexian { color } => seq![color_char(color), '/', 'P'],
        CostSymbol::Fuse { color1, color2 } => seq![
            color_char(color1),
            '/',
            color_char(color2),
        ],
        CostSymbol::Variable => seq!['X'],
        CostSymbol::Snow => seq!['S'],
    }
}

/// The spelling of one symbol, braces included.
pub open spec fn symbol_braced(s: CostSymbol) -> Seq<char> {
    seq!['{'] + symbol_chars(s) + seq!['}']
}

/// The spelling of a whole cost.
pub open spec fn cost_chars(syms: Seq<CostSymbol>) -> Seq<char>
    decreases syms.len(),
{
    if syms.len() == 0 {
        Seq::empty()
    } else {
        cost_chars(syms.drop_last()) + symbol_braced(syms.last())
    }
}

/// One step of brace-group extraction.  `{` opens a fresh group
/// (abandoning any group already open), `}` closes the open group if it
/// is non-empty, and any other character extends the open group.
pub open spec fn group_step(acc: (Seq<Seq<char>>, Option<Seq<char>>), c: char) -> (Seq<
    Seq<char>,
>, Option<Seq<char>>) {
    if c == '{' {
        (acc.0, Some(Seq::empty()))
    } else if c == '}' {
        match acc.1 {
            Some(g) => if g.len() > 0 {
                (acc.0.push(g), None)
            } else {
                (acc.0, None)
            },
            None => (acc.0, None),
        }
    } else {
        match acc.1 {
            Some(g) => (acc.0, Some(g.push(c))),
            None => acc,
        }
    }
}

/// Folds `group_step` over `s` from the left.
pub open spec fn group_fold(acc: (Seq<Seq<char>>, Option<Seq<char>>), s: Seq<char>) -> (Seq<
    Seq<char>,
>, Option<Seq<char>>)
    decreases s.len(),
{
    if s.len() == 0 {
        acc
    } else {
        group_fold(group_step(acc, s[0]), s.drop_first())
    }
}

/// The brace groups of `s`, in order.
pub open spec fn brace_groups(s: Seq<char>) -> Seq<Seq<char>> {
    group_fold((Seq::empty(), None), s).0
}

/// Group extraction distributes over concatenation of the input.
pub proof fn lemma_group_fold_app(
    acc: (Seq<Seq<char>>, Option<Seq<char>>),
    a: Seq<char>,
    b: Seq<char>,
)
    ensures
        group_fold(acc, a + b) == group_fold(group_fold(acc, a), b),
    decreases a.len(),
{
    if a.len() == 0 {
        assert(a + b =~= b);
    } else {
        assert((a + b).drop_first() =~= a.drop_first() + b);
        lemma_group_fold_app(group_step(acc, a[0]), a.drop_first(), b);
    }
}

proof fn lemma_group_fold_single(acc: (Seq<Seq<char>>, Option<Seq<char>>), c: char)
    ensures
        group_fold(acc, seq![c]) == group_step(acc, c),
{
    let s = seq![c];
    assert(s.len() == 1);
    assert(s[0] == c);
    assert(s.drop_first() =~= Seq::<char>::empty());
    assert(group_fold(acc, s) == group_fold(group_step(acc, c), s.drop_first()));
}

/// Folding one more character is one more step.
pub proof fn lemma_group_fold_push(
    acc: (Seq<Seq<char>>, Option<Seq<char>>),
    s: Seq<char>,
    c: char,
)
    ensures
        group_fold(acc, s.push(c)) == group_step(group_fold(acc, s), c),
{
    assert(s.push(c) =~= s + seq![c]);
    lemma_group_fold_app(acc, s, seq![c]);
    lemma_group_fold_single(group_fold(acc, s), c);
}

/// True iff `g` holds a `/` anywhere.
pub open spec fn has_slash(g: Seq<char>) -> bool {
    exists|i: int| 0 <= i < g.len() && g[i] == '/'
}

/// True iff `g` holds the two-character sequence `/P`.
pub open spec fn has_slash_p(g: Seq<char>) -> bool {
    exists|i: int| 0 <= i < g.len() - 1 && #[trigger] g[i] == '/' && g[i + 1] == 'P'
}

/// The symbol a brace group spells, if any.  The readings are tried in
/// order: variable, snow, a number, a Phyrexian pair, a hybrid pair, a
/// single color.
pub open spec fn spec_parse_symbol(g: Seq<char>) -> Option<CostSymbol> {
    if g =~= seq!['X'] {
        Some(CostSymbol::Variable)
    } else if g =~= seq!['S'] {
        Some(CostSymbol::Snow)
    } else if g.len() > 0 && all_digits(g) {
        if dec_value(g) <= 255 {
            Some(CostSymbol::Colorless { n: dec_value(g) as u8 })
        } else {
            None
        }
    } else if g.len() == 3 && g[1] == '/' && g[2] == 'P' && spec_parse_color(g[0]) is Some {
        Some(CostSymbol::Phyrexian { color: spec_parse_color(g[0])->0 })
    } else if has_slash(g) && !has_slash_p(g) {
        if g.len() == 3 && g[1] == '/' && spec_parse_color(g[0]) is Some && spec_parse_color(
            g[2],
        ) is Some {
            Some(
                CostSymbol::Fuse {
                    color1: spec_parse_color(g[0])->0,
                    color2: spec_parse_color(g[2])->0,
                },
            )
        } else {
            None
        }
    } else if g.len() == 1 && spec_parse_color(g[0]) is Some {
        Some(CostSymbol::Color { color: spec_parse_color(g[0])->0 })
    } else {
        None
    }
}

/// The symbols of a group sequence, or nothing if any group is invalid.
pub open spec fn spec_parse_groups(gs: Seq<Seq<char>>) -> Option<Seq<CostSymbol>>
    decreases gs.len(),
{
    if gs.len() == 0 {
        Some(Seq::empty())
    } else {
        match spec_parse_groups(gs.drop_last()) {
            None => None,
            Some(ps) => match spec_parse_symbol(gs.last()) {
                None => None,
                Some(p) => Some(ps.push(p)),
            },
        }
    }
}

/// The symbols a whole cost string spells: the empty string is the empty
/// cost, otherwise there must be at least one brace group and every
/// group must spell a symbol.
pub open spec fn spec_parse_cost(s: Seq<char>) -> Option<Seq<CostSymbol>> {
    if s.len() == 0 {
        Some(Seq::empty())
    } else {
        let gs = brace_groups(s);
        if gs.len() == 0 {
            None
        } else {
            spec_parse_groups(gs)
        }
    }
}

/// A failed prefix fails the whole group sequence.
proof fn lemma_parse_groups_prefix_none(gs: Seq<Seq<char>>, i: int)
    requires
        0 <= i <= gs.len(),
        spec_parse_groups(gs.take(i)) is None,
    ensures
        spec_parse_groups(gs) is None,
    decreases gs.len() - i,
{
    if i < gs.len() {
        assert(gs.take(i + 1).drop_last() =~= gs.take(i));
        lemma_parse_groups_prefix_none(gs, i + 1);
    } else {
        assert(gs.take(i) =~= gs);
    }
}

fn parse_color(c: char) -> (r: Option<Color>)
    ensures
        r == spec_parse_color(c),
{
    if c == 'W' {
        Some(Color::White)
    } else if c == 'U' {
        Some(Color::Blue)
    } else if c == 'B' {
        Some(Color::Black)
    } else if c == 'R' {
        Some(Color::Red)
    } else if c == 'G' {
        Some(Color::Green)
    } else {
        None
    }
}

fn has_slash_exec(g: &str) -> (r: bool)
    ensures
        r == has_slash(g@),
{
    let n = g.unicode_len();
    let mut i: usize = 0;
    while i < n
        invariant
            0 <= i <= n,
            n == g@.len(),
            forall|j: int| 0 <= j < i ==> g@[j] != '/',
        decreases n - i,
    {
        if g.get_char(i) == '/' {
            return true;
        }
        i = i + 1;
    }
    false
}

fn has_slash_p_exec(g: &str) -> (r: bool)
    ensures
        r == has_slash_p(g@),
{
    let n = g.unicode_len();
    if n < 2 {
        return false;
    }
    let mut i: usize = 0;
    while i + 1 < n
        invariant
            0 <= i,
            i + 1 <= n,
            n == g@.len(),
            forall|j: int| 0 <= j < i ==> !(#[trigger] g@[j] == '/' && g@[j + 1] == 'P'),
        decreases n - i,
    {
        if g.get_char(i) == '/' && g.get_char(i + 1) == 'P' {
            return true;
        }
        i = i + 1;
    }
    false
}

fn is_all_digits(g: &str) -> (r: bool)
    ensures
        r == all_digits(g@),
{
    let n = g.unicode_len();
    let mut i: usize = 0;
    while i < n
        invariant
            0 <= i <= n,
            n == g@.len(),
            forall|j: int| 0 <= j < i ==> crate::text::is_digit(#[trigger] g@[j]),
        decreases n - i,
    {
        let c = g.get_char(i);
        let d = c as u32;
        if d < 48 || d > 57 {
            return false;
        }
        i = i + 1;
    }
    true
}

/// Reads one brace group as a symbol.
pub fn parse_symbol(g: &str) -> (r: Option<CostSymbol>)
    ensures
        r == spec_parse_symbol(g@),
{
    let n = g.unicode_len();
    if n == 1 && g.get_char(0) == 'X' {
        proof {
            assert(g@ =~= seq!['X']);
        }
        return Some(CostSymbol::Variable);
    }
    proof {
        assert(!(g@ =~= seq!['X']));
    }
    if n == 1 && g.get_char(0) == 'S' {
        proof {
            assert(g@ =~= seq!['S']);
        }
        return Some(CostSymbol::Snow);
    }
    proof {
        assert(!(g@ =~= seq!['S']));
    }
    if n > 0 && is_all_digits(g) {
        match parse_u64(g) {
            Some(v) => {
                if v <= 255 {
                    return Some(CostSymbol::Colorless { n: v as u8 });
                } else {
                    return None;
                }
            },
            None => {
                // All digits but out of the 64-bit range: certainly above 255.
                proof {
                    crate::text::lemma_dec_value_nonneg(g@);
                }
                return None;
            },
        }
    }
    if n == 3 && g.get_char(1) == '/' && g.get_char(2) == 'P' {
        if let Some(color) = parse_color(g.get_char(0)) {
            return Some(CostSymbol::Phyrexian { color });
        }
    }
    if has_slash_exec(g) && !has_slash_p_exec(g) {
        if n == 3 && g.get_char(1) == '/' {
            let c1 = parse_color(g.get_char(0));
            let c2 = parse_color(g.get_char(2));
            if c1.is_some() && c2.is_some() {
                return Some(
                    CostSymbol::Fuse { color1: c1.unwrap(), color2: c2.unwrap() },
                );
            }
        }
        return None;
    }
    if n == 1 {
        if let Some(color) = parse_color(g.get_char(0)) {
            return Some(CostSymbol::Color { color });
        }
    }
    None
}

/// Extracts the brace groups of a cost string, in order.
pub fn extract_groups(s: &str) -> (r: Vec<String>)
    ensures
        r@.map_values(|g: String| g@) == brace_groups(s@),
{
    let n = s.unicode_len();
    let mut groups: Vec<String> = Vec::new();
    let mut open: Option<String> = None;
    let mut i: usize = 0;
    while i < n
        invariant
            0 <= i <= n,
            n == s@.len(),
            (groups@.map_values(|g: String| g@), match open {
                Some(ref o) => Some(o@),
                None => None,
            }) == group_fold((Seq::<Seq<char>>::empty(), None), s@.take(i as int)),
        decreases n - i,
    {
        let c = s.get_char(i);
        proof {
            assert(s@.take(i + 1) =~= s@.take(i as int).push(s@[i as int]));
            lemma_group_fold_push(
                (Seq::<Seq<char>>::empty(), None),
                s@.take(i as int),
                s@[i as int],
            );
        }
        if c == '{' {
            open = Some(String::new());
        } else if c == '}' {
            match open {
                Some(g) => {
                    if g.unicode_len() > 0 {
                        groups.push(g);
                    }
                },
                None => {},
            }
            open = None;
        } else {
            match &mut open {
                Some(g) => {
                    let ghost old_g = g@;
                    push_char(g, c);
                    proof {
                        assert(g@ =~= old_g.push(c));
                    }
                },
                None => {},
            }
        }
        proof {
            assert(groups@.map_values(|g: String| g@) =~= group_fold(
                (Seq::<Seq<char>>::empty(), None),
                s@.take(i + 1),
            ).0);
        }
        i = i + 1;
    }
    proof {
        assert(s@.take(n as int) =~= s@);
    }
    groups
}

/// A mana cost: a sequence of symbols.
pub struct Cost {
    inner: Vec<CostSymbol>,
}

impl View for Cost {
    type V = Seq<CostSymbol>;

    closed spec fn view(&self) -> Seq<CostSymbol> {
        self.inner@
    }
}

impl Default for Cost {
    /// The empty cost.
    fn default() -> (c: Cost)
        ensures
            c@.len() == 0,
    {
        Cost { inner: Vec::new() }
    }
}

impl Cost {
    /// Reads a cost string.  The empty string is the empty cost; a
    /// non-empty string must hold at least one brace group, and every
    /// group must spell a symbol.
    pub fn from_str(s: &str) -> (r: Result<Cost, CostParseError>)
        ensures
            r is Ok <==> spec_parse_cost(s@) is Some,
            r is Ok ==> r->Ok_0@ == spec_parse_cost(s@)->0,
    {
        if s.unicode_len() == 0 {
            return Ok(Cost { inner: Vec::new() });
        }
        let groups = extract_groups(s);
        if groups.len() == 0 {
            return Err(CostParseError::InvalidCost);
        }
        let ghost gs = brace_groups(s@);
        let mut inner: Vec<CostSymbol> = Vec::new();
        let mut i: usize = 0;
        while i < groups.len()
            invariant
                0 <= i <= groups@.len(),
                s@.len() > 0,
                gs == brace_groups(s@),
                gs.len() > 0,
                groups@.map_values(|g: String| g@) == gs,
                spec_parse_groups(gs.take(i as int)) == Some(inner@),
            decreases groups@.len() - i,
        {
            proof {
                assert(gs.take(i + 1).drop_last() =~= gs.take(i as int));
                assert(gs[i as int] == groups@.map_values(|g: String| g@)[i as int]);
            }
            match parse_symbol(groups[i].as_str()) {
                Some(sym) => {
                    inner.push(sym);
                },
                None => {
                    proof {
                        assert(gs.take(i + 1).last() == gs[i as int]);
                        assert(spec_parse_symbol(gs[i as int]) is None);
                        assert(spec_parse_groups(gs.take(i + 1)) is None);
                        lemma_parse_groups_prefix_none(gs, i + 1);
                    }
                    return Err(CostParseError::InvalidSymbol);
                },
            }
            i = i + 1;
        }
        proof {
            assert(gs.take(groups@.len() as int) =~= gs);
        }
        Ok(Cost { inner })
    }

    /// Writes the cost back out, each symbol in braces.
    pub fn render(&self) -> (r: String)
        ensures
            r@ == cost_chars(self@),
    {
        let mut out = String::new();
        let mut i: usize = 0;
        while i < self.inner.len()
            invariant
                0 <= i <= self.inner@.len(),
                self.inner@ == self@,
                out@ == cost_chars(self@.take(i as int)),
            decreases self.inner@.len() - i,
        {
            proof {
                assert(self@.take(i + 1).drop_last() =~= self@.take(i as int));
            }
            push_char(&mut out, '{');
            let sym = self.inner[i];
            match sym {
                CostSymbol::Colorless { n } => {
                    let digits = u64_to_string(n as u64);
                    out.append(digits.as_str());
                },
                CostSymbol::Color { color } => {
                    push_char(&mut out, color_letter(color));
                },
                CostSymbol::Phyrexian { color } => {
                    push_char(&mut out, color_letter(color));
                    push_char(&mut out, '/');
                    push_char(&mut out, 'P');
                },
                CostSymbol::Fuse { color1, color2 } => {
                    push_char(&mut out, color_letter(color1));
                    push_char(&mut out, '/');
                    push_char(&mut out, color_letter(color2));
                },
                CostSymbol::Variable => {
                    push_char(&mut out, 'X');
                },
                CostSymbol::Snow => {
                    push_char(&mut out, 'S');
                },
            }
            push_char(&mut out, '}');
            proof {
                assert(out@ =~= cost_chars(self@.take(i + 1)));
            }
            i = i + 1;
        }
        proof {
            assert(self@.take(self.inner@.len() as int) =~= self@);
        }
        out
    }

    /// The symbols of the cost, in order.
    pub fn symbols(&self) -> (r: &Vec<CostSymbol>)
        ensures
            r@ == self@,
    {
        &self.inner
    }
}

/// The letter a color is written with.
pub fn color_letter(c: Color) -> (r: char)
    ensures
        r == color_char(c),
{
    match c {
        Color::White => 'W',
        Color::Blue => 'U',
        Color::Black => 'B',
        Color::Red => 'R',
        Color::Green => 'G',
    }
}

} // verus!
