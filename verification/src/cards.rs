//! The card reference database and the card types it classifies.
//!
//! The database is a read-only mapping from numeric card id to catalog
//! card, built once from the decoded catalog; a later entry with the same
//! id shadows an earlier one, as a map built by insertion would have it.
//! Lookups answer by id; the pretty name falls back to the stringified
//! id when the card is unknown.

use vstd::prelude::*;

verus! {

use vstd::string::StrSliceExecFns;
use crate::Error;
use crate::mana::Cost;
use crate::proto::CardCollection;
use crate::proto::CardModel;
use crate::text::dec_signed_chars;
use crate::text::i64_to_string;
use crate::text::str_eq;

/// The broad type of a card, read from the first token of its type line.
#[derive(Clone, Copy, Debug, PartialEq, Eq, Hash, Structural)]
pub enum CardType {
    Creature,
    Land,
    Artifact,
    Enchantment,
    Planeswalker,
    Instant,
    Sorcery,
    Battle,
    Unknown,
}

/// True iff `c` is blank space.
pub open spec fn is_ws(c: char) -> bool {
    c == ' ' || c == '\t' || c == '\r' || c == '\n'
}

/// `s` without its leading blank space.
pub open spec fn skip_ws(s: Seq<char>) -> Seq<char>
    decreases s.len(),
{
    if s.len() > 0 && is_ws(s[0]) {
        skip_ws(s.drop_first())
    } else {
        s
    }
}

/// `s` without its trailing blank space.
pub open spec fn trim_end_ws(s: Seq<char>) -> Seq<char>
    decreases s.len(),
{
    if s.len() > 0 && is_ws(s.last()) {
        trim_end_ws(s.drop_last())
    } else {
        s
    }
}

/// `s` without blank space on either side.
pub open spec fn trim_ws(s: Seq<char>) -> Seq<char> {
    trim_end_ws(skip_ws(s))
}

/// The leading run of non-blank characters.
pub open spec fn take_token(s: Seq<char>) -> Seq<char>
    decreases s.len(),
{
    if s.len() > 0 && !is_ws(s[0]) {
        seq![s[0]] + take_token(s.drop_first())
    } else {
        Seq::empty()
    }
}

/// The first blank-separated token of `s`.
pub open spec fn first_token(s: Seq<char>) -> Seq<char> {
    take_token(skip_ws(s))
}

proof fn lemma_skip_ws_at(s: Seq<char>, k: int)
    requires
        0 <= k <= s.len(),
        forall|j: int| 0 <= j < k ==> is_ws(#[trigger] s[j]),
        k == s.len() || !is_ws(s[k]),
    ensures
        skip_ws(s) == s.subrange(k, s.len() as int),
    decreases k,
{
    if k == 0 {
        assert(s.subrange(0, s.len() as int) =~= s);
    } else {
        assert(is_ws(s[0]));
        assert(forall|j: int| 0 <= j < k - 1 ==> s.drop_first()[j] == s[j + 1]);
        if k < s.len() {
            assert(s.drop_first()[k - 1] == s[k]);
        }
        lemma_skip_ws_at(s.drop_first(), k - 1);
        assert(s.drop_first().subrange(k - 1, s.drop_first().len() as int) =~= s.subrange(
            k,
            s.len() as int,
        ));
    }
}

proof fn lemma_trim_end_at(s: Seq<char>, k: int)
    requires
        0 <= k <= s.len(),
        forall|j: int| k <= j < s.len() ==> is_ws(#[trigger] s[j]),
        k == 0 || !is_ws(s[k - 1]),
    ensures
        trim_end_ws(s) == s.subrange(0, k),
    decreases s.len(),
{
    if k == s.len() {
        assert(s.subrange(0, k) =~= s);
    } else {
        assert(is_ws(s.last())) by {
            assert(s[s.len() - 1] == s.last());
        }
        assert(forall|j: int| 0 <= j < s.len() - 1 ==> s.drop_last()[j] == s[j]);
        lemma_trim_end_at(s.drop_last(), k);
        assert(s.drop_last().subrange(0, k) =~= s.subrange(0, k));
    }
}

proof fn lemma_take_token_at(s: Seq<char>, k: int)
    requires
        0 <= k <= s.len(),
        forall|j: int| 0 <= j < k ==> !is_ws(#[trigger] s[j]),
        k == s.len() || is_ws(s[k]),
    ensures
        take_token(s) == s.subrange(0, k),
    decreases k,
{
    if k == 0 {
        assert(s.subrange(0, 0) =~= Seq::<char>::empty());
    } else {
        assert(!is_ws(s[0]));
        assert(forall|j: int| 0 <= j < k - 1 ==> s.drop_first()[j] == s[j + 1]);
        if k < s.len() {
            assert(s.drop_first()[k - 1] == s[k]);
        }
        lemma_take_token_at(s.drop_first(), k - 1);
        assert(seq![s[0]] + s.drop_first().subrange(0, k - 1) =~= s.subrange(0, k));
    }
}

/// The card type a single name spells, if any.
pub open spec fn spec_card_type_of(t: Seq<char>) -> Option<CardType> {
    if t == "Creature"@ {
        Some(CardType::Creature)
    } else if t == "Land"@ || t == "Basic Land"@ {
        Some(CardType::Land)
    } else if t == "Artifact"@ {
        Some(CardType::Artifact)
    } else if t == "Enchantment"@ {
        Some(CardType::Enchantment)
    } else if t == "Planeswalker"@ {
        Some(CardType::Planeswalker)
    } else if t == "Instant"@ {
        Some(CardType::Instant)
    } else if t == "Sorcery"@ {
        Some(CardType::Sorcery)
    } else if t == "Battle"@ {
        Some(CardType::Battle)
    } else {
        None
    }
}

/// The dominant type of a type line: derived from its first token; a
/// blank line has none; an unrecognized token is `Unknown`.
pub open spec fn spec_dominant_type(line: Seq<char>) -> Option<CardType> {
    let tok = first_token(line);
    if tok.len() == 0 {
        None
    } else {
        match spec_card_type_of(tok) {
            Some(t) => Some(t),
            None => Some(CardType::Unknown),
        }
    }
}

fn card_type_of_token(t: &str) -> (r: Option<CardType>)
    ensures
        r == spec_card_type_of(t@),
{
    if str_eq(t, "Creature") {
        Some(CardType::Creature)
    } else if str_eq(t, "Land") || str_eq(t, "Basic Land") {
        Some(CardType::Land)
    } else if str_eq(t, "Artifact") {
        Some(CardType::Artifact)
    } else if str_eq(t, "Enchantment") {
        Some(CardType::Enchantment)
    } else if str_eq(t, "Planeswalker") {
        Some(CardType::Planeswalker)
    } else if str_eq(t, "Instant") {
        Some(CardType::Instant)
    } else if str_eq(t, "Sorcery") {
        Some(CardType::Sorcery)
    } else if str_eq(t, "Battle") {
        Some(CardType::Battle)
    } else {
        None
    }
}

impl CardType {
    /// Reads a card type from its name, blank space around it ignored.
    pub fn from_str(s: &str) -> (r: Result<CardType, CardType>)
        ensures
            r == match spec_card_type_of(trim_ws(s@)) {
                Some(t) => Result::<CardType, CardType>::Ok(t),
                None => Result::<CardType, CardType>::Err(CardType::Unknown),
            },
    {
        let n = s.unicode_len();
        let mut start: usize = 0;
        while start < n && is_ws_exec(s.get_char(start))
            invariant
                0 <= start <= n,
                n == s@.len(),
                forall|j: int| 0 <= j < start ==> is_ws(#[trigger] s@[j]),
            decreases n - start,
        {
            start = start + 1;
        }
        proof {
            lemma_skip_ws_at(s@, start as int);
        }
        let mut end: usize = n;
        while end > start && is_ws_exec(s.get_char(end - 1))
            invariant
                start <= end <= n,
                n == s@.len(),
                forall|j: int| end <= j < n ==> is_ws(#[trigger] s@[j]),
            decreases end,
        {
            end = end - 1;
        }
        proof {
            let suffix = s@.subrange(start as int, n as int);
            assert(forall|j: int|
                end - start <= j < suffix.len() ==> is_ws(#[trigger] suffix[j]));
            if end > start {
                assert(suffix[end - start - 1] == s@[end - 1]);
            }
            lemma_trim_end_at(suffix, end - start);
            assert(trim_ws(s@) == suffix.subrange(0, end - start));
            assert(suffix.subrange(0, end - start) =~= s@.subrange(start as int, end as int));
        }
        let token = s.substring_char(start, end);
        match card_type_of_token(token) {
            Some(t) => Ok(t),
            None => Err(CardType::Unknown),
        }
    }
}

fn is_ws_exec(c: char) -> (r: bool)
    ensures
        r == is_ws(c),
{
    c == ' ' || c == '\t' || c == '\r' || c == '\n'
}

/// The dominant type of a type line, per its first token.
pub fn dominant_type_of(line: &str) -> (r: Option<CardType>)
    ensures
        r == spec_dominant_type(line@),
{
    let n = line.unicode_len();
    let mut start: usize = 0;
    while start < n && is_ws_exec(line.get_char(start))
        invariant
            0 <= start <= n,
            n == line@.len(),
            forall|j: int| 0 <= j < start ==> is_ws(#[trigger] line@[j]),
        decreases n - start,
    {
        start = start + 1;
    }
    proof {
        lemma_skip_ws_at(line@, start as int);
    }
    if start == n {
        proof {
            assert(skip_ws(line@) =~= Seq::<char>::empty());
            assert(first_token(line@).len() == 0);
        }
        return None;
    }
    let mut end: usize = start;
    while end < n && !is_ws_exec(line.get_char(end))
        invariant
            start <= end <= n,
            n == line@.len(),
            forall|j: int| start <= j < end ==> !is_ws(#[trigger] line@[j]),
        decreases n - end,
    {
        end = end + 1;
    }
    proof {
        let suffix = line@.subrange(start as int, n as int);
        assert(forall|j: int| 0 <= j < end - start ==> suffix[j] == line@[start + j]);
        if end < n {
            assert(suffix[end - start] == line@[end as int]);
        }
        lemma_take_token_at(suffix, end - start);
        assert(first_token(line@) == suffix.subrange(0, end - start));
        assert(suffix.subrange(0, end - start) =~= line@.subrange(start as int, end as int));
        assert(first_token(line@).len() > 0) by {
            assert(!is_ws(line@[start as int]));
            assert(suffix[0] == line@[start as int]);
        }
    }
    let token = line.substring_char(start, end);
    match card_type_of_token(token) {
        Some(t) => Some(t),
        None => Some(CardType::Unknown),
    }
}

/// One face of a multi-faced card, in the reduced form older catalog
/// files carried: absent text is absent rather than empty.
#[derive(Debug)]
pub struct CardFace {
    pub name: String,
    pub type_line: String,
    pub mana_cost: Option<String>,
    pub image_uri: Option<String>,
    pub colors: Option<Vec<String>>,
}

/// The mathematical content of a reduced card face.
pub ghost struct LegacyFaceModel {
    pub name: Seq<char>,
    pub type_line: Seq<char>,
    pub mana_cost: Option<Seq<char>>,
    pub image_uri: Option<Seq<char>>,
    pub colors: Option<Seq<Seq<char>>>,
}

impl View for CardFace {
    type V = LegacyFaceModel;

    open spec fn view(&self) -> LegacyFaceModel {
        LegacyFaceModel {
            name: self.name@,
            type_line: self.type_line@,
            mana_cost: match self.mana_cost {
                Some(ref s) => Some(s@),
                None => None,
            },
            image_uri: match self.image_uri {
                Some(ref s) => Some(s@),
                None => None,
            },
            colors: match self.colors {
                Some(ref v) => Some(v@.map_values(|s: String| s@)),
                None => None,
            },
        }
    }
}

/// One card in the reduced form older catalog files carried.
#[derive(Debug)]
pub struct Card {
    pub id: i32,
    pub set: String,
    pub name: String,
    pub lang: String,
    pub image_uri: Option<String>,
    pub mana_cost: Option<String>,
    pub cmc: u8,
    pub type_line: String,
    pub layout: String,
    pub colors: Option<Vec<String>>,
    pub color_identity: Vec<String>,
    pub card_faces: Option<Vec<CardFace>>,
}

/// The mathematical content of a reduced card.
pub ghost struct LegacyCardModel {
    pub id: i32,
    pub set: Seq<char>,
    pub name: Seq<char>,
    pub lang: Seq<char>,
    pub image_uri: Option<Seq<char>>,
    pub mana_cost: Option<Seq<char>>,
    pub cmc: u8,
    pub type_line: Seq<char>,
    pub layout: Seq<char>,
    pub colors: Option<Seq<Seq<char>>>,
    pub color_identity: Seq<Seq<char>>,
    pub card_faces: Option<Seq<LegacyFaceModel>>,
}

impl View for Card {
    type V = LegacyCardModel;

    open spec fn view(&self) -> LegacyCardModel {
        LegacyCardModel {
            id: self.id,
            set: self.set@,
            name: self.name@,
            lang: self.lang@,
            image_uri: match self.image_uri {
                Some(ref s) => Some(s@),
                None => None,
            },
            mana_cost: match self.mana_cost {
                Some(ref s) => Some(s@),
                None => None,
            },
            cmc: self.cmc,
            type_line: self.type_line@,
            layout: self.layout@,
            colors: match self.colors {
                Some(ref v) => Some(v@.map_values(|s: String| s@)),
                None => None,
            },
            color_identity: self.color_identity@.map_values(|s: String| s@),
            card_faces: match self.card_faces {
                Some(ref v) => Some(v@.map_values(|f: CardFace| f@)),
                None => None,
            },
        }
    }
}

impl Card {
    /// The image to show: the card's own, else the front face's, else
    /// nothing.
    pub fn image_uri(&self) -> (r: &str)
        ensures
            self@.image_uri is Some ==> r@ == self@.image_uri->0,
            self@.image_uri is None && self@.card_faces is Some && self@.card_faces->0.len() > 0
                && self@.card_faces->0[0].image_uri is Some ==> r@ == self@.card_faces->0[0].image_uri->0,
            self@.image_uri is None && !(self@.card_faces is Some && self@.card_faces->0.len()
                > 0 && self@.card_faces->0[0].image_uri is Some) ==> r@.len() == 0,
    {
        proof {
            reveal_strlit("");
        }
        match &self.image_uri {
            Some(s) => s.as_str(),
            None => {
                match &self.card_faces {
                    Some(faces) => {
                        if faces.len() > 0 {
                            proof {
                                assert(self@.card_faces->0[0] == faces@[0]@);
                            }
                            match &faces[0].image_uri {
                                Some(u) => u.as_str(),
                                None => "",
                            }
                        } else {
                            ""
                        }
                    },
                    None => "",
                }
            },
        }
    }

    /// The parsed mana cost, if the card has one and it reads cleanly.
    pub fn cost(&self) -> (r: Option<Cost>)
        ensures
            r is Some <==> (self@.mana_cost is Some && crate::mana::spec_parse_cost(
                self@.mana_cost->0,
            ) is Some),
            r is Some ==> r->0@ == crate::mana::spec_parse_cost(self@.mana_cost->0)->0,
    {
        match &self.mana_cost {
            Some(s) => match Cost::from_str(s.as_str()) {
                Ok(c) => Some(c),
                Err(_) => None,
            },
            None => None,
        }
    }

    /// The converted cost.
    pub fn mana_value(&self) -> (r: u8)
        ensures
            r == self@.cmc,
    {
        self.cmc
    }

    /// The card's dominant type, per the first token of its type line;
    /// a blank or unrecognized line is `Unknown`.
    pub fn dominant_type(&self) -> (r: CardType)
        ensures
            r == match spec_dominant_type(self@.type_line) {
                Some(t) => t,
                None => CardType::Unknown,
            },
    {
        match dominant_type_of(self.type_line.as_str()) {
            Some(t) => t,
            None => CardType::Unknown,
        }
    }
}

/// The card a lookup answers for an id: the last stored entry with it.
pub open spec fn spec_lookup(cards: Seq<CardModel>, id: i64) -> Option<CardModel>
    decreases cards.len(),
{
    if cards.len() == 0 {
        None
    } else if cards.last().id == id {
        Some(cards.last())
    } else {
        spec_lookup(cards.drop_last(), id)
    }
}

/// The read-only card reference database.
pub struct CardsDatabase {
    pub db: Vec<crate::proto::Card>,
}

impl View for CardsDatabase {
    type V = Seq<CardModel>;

    open spec fn view(&self) -> Seq<CardModel> {
        self.db@.map_values(|c: crate::proto::Card| c@)
    }
}

impl CardsDatabase {
    /// Builds the database from a decoded catalog.
    pub fn from_collection(collection: CardCollection) -> (db: CardsDatabase)
        ensures
            db@ == collection@,
    {
        CardsDatabase { db: collection.cards }
    }

    /// The card stored under this id, if any; a later catalog entry with
    /// the same id shadows an earlier one.
    pub fn get(&self, grp_id: i64) -> (r: Option<&crate::proto::Card>)
        ensures
            r is Some <==> spec_lookup(self@, grp_id) is Some,
            r is Some ==> r->0@ == spec_lookup(self@, grp_id)->0,
    {
        let n = self.db.len();
        let mut i: usize = n;
        proof {
            assert(self@.take(n as int) =~= self@);
        }
        while i > 0
            invariant
                0 <= i <= n,
                n == self.db@.len(),
                spec_lookup(self@, grp_id) == spec_lookup(self@.take(i as int), grp_id),
            decreases i,
        {
            proof {
                assert(self@.take(i as int).last() == self@[i - 1]);
                assert(self@.take(i as int).drop_last() =~= self@.take(i - 1));
                assert(self@[i - 1] == self.db@[i - 1]@);
            }
            if self.db[i - 1].id == grp_id {
                return Some(&self.db[i - 1]);
            }
            i = i - 1;
        }
        proof {
            assert(self@.take(0) =~= Seq::<CardModel>::empty());
        }
        None
    }

    /// The stored display name for this id; an unknown id is an error.
    pub fn get_pretty_name(&self, grp_id: i64) -> (r: Result<String, Error>)
        ensures
            r is Ok <==> spec_lookup(self@, grp_id) is Some,
            r is Ok ==> r->Ok_0@ == spec_lookup(self@, grp_id)->0.name,
            r is Err ==> (r->Err_0 matches Error::NotFound(m) && m@ == dec_signed_chars(
                grp_id as int,
            )),
    {
        match self.get(grp_id) {
            Some(card) => Ok(card.name.clone()),
            None => Err(Error::NotFound(i64_to_string(grp_id))),
        }
    }

    /// The stored display name for this id, or the stringified id when
    /// the card is unknown.
    pub fn get_pretty_name_defaulted(&self, grp_id: i64) -> (r: String)
        ensures
            spec_lookup(self@, grp_id) is Some ==> r@ == spec_lookup(self@, grp_id)->0.name,
            spec_lookup(self@, grp_id) is None ==> r@ == dec_signed_chars(grp_id as int),
    {
        match self.get(grp_id) {
            Some(card) => card.name.clone(),
            None => i64_to_string(grp_id),
        }
    }
}

} // verus!
