//! The card catalog's message types and their binary encoding.
//!
//! A catalog is one `CardCollection` record holding repeated `Card`
//! records; each card holds scalar fields, repeated strings and repeated
//! `CardFace` records.  Field numbers follow the order of the schema;
//! scalar fields equal to their default are skipped, as the standard
//! layout prescribes.  Encoding is specified byte for byte; decoding
//! accepts fields in any order, skips unknown fields, and fails on
//! truncated records, oversized numbers and invalid text.

use vstd::prelude::*;

verus! {

use vstd::string::StrSliceExecFns;
use vstd::utf8::encode_utf8;
use vstd::utf8::decode_utf8;
use vstd::utf8::valid_utf8;
use crate::Error;
use crate::cards::CardType;
use crate::mana::Cost;
use crate::wire::field_key;
use crate::wire::len_delimited;
use crate::wire::read_varint;
use crate::wire::read_varint_spec;
use crate::wire::varint;
use crate::wire::write_varint;

/// One face of a multi-faced card.
#[derive(Debug)]
pub struct CardFace {
    pub name: String,
    pub type_line: String,
    pub mana_cost: String,
    pub image_uri: Option<String>,
    pub colors: Vec<String>,
}

/// The mathematical content of a card face.
pub ghost struct CardFaceModel {
    pub name: Seq<char>,
    pub type_line: Seq<char>,
    pub mana_cost: Seq<char>,
    pub image_uri: Option<Seq<char>>,
    pub colors: Seq<Seq<char>>,
}

impl View for CardFace {
    type V = CardFaceModel;

    open spec fn view(&self) -> CardFaceModel {
        CardFaceModel {
            name: self.name@,
            type_line: self.type_line@,
            mana_cost: self.mana_cost@,
            image_uri: match self.image_uri {
                Some(ref s) => Some(s@),
                None => None,
            },
            colors: self.colors@.map_values(|s: String| s@),
        }
    }
}

/// One card of the reference catalog.
#[derive(Debug)]
pub struct Card {
    pub id: i64,
    pub set: String,
    pub name: String,
    pub lang: String,
    pub image_uri: String,
    pub mana_cost: String,
    pub cmc: i32,
    pub type_line: String,
    pub layout: String,
    pub colors: Vec<String>,
    pub color_identity: Vec<String>,
    pub card_faces: Vec<CardFace>,
}

/// The mathematical content of a card.
pub ghost struct CardModel {
    pub id: i64,
    pub set: Seq<char>,
    pub name: Seq<char>,
    pub lang: Seq<char>,
    pub image_uri: Seq<char>,
    pub mana_cost: Seq<char>,
    pub cmc: i32,
    pub type_line: Seq<char>,
    pub layout: Seq<char>,
    pub colors: Seq<Seq<char>>,
    pub color_identity: Seq<Seq<char>>,
    pub card_faces: Seq<CardFaceModel>,
}

impl View for Card {
    type V = CardModel;

    open spec fn view(&self) -> CardModel {
        CardModel {
            id: self.id,
            set: self.set@,
            name: self.name@,
            lang: self.lang@,
            image_uri: self.image_uri@,
            mana_cost: self.mana_cost@,
            cmc: self.cmc,
            type_line: self.type_line@,
            layout: self.layout@,
            colors: self.colors@.map_values(|s: String| s@),
            color_identity: self.color_identity@.map_values(|s: String| s@),
            card_faces: self.card_faces@.map_values(|f: CardFace| f@),
        }
    }
}

/// The whole catalog.
#[derive(Debug)]
pub struct CardCollection {
    pub cards: Vec<Card>,
}

impl View for CardCollection {
    type V = Seq<CardModel>;

    open spec fn view(&self) -> Seq<CardModel> {
        self.cards@.map_values(|c: Card| c@)
    }
}

/// A string field: skipped when empty, else its key and the text,
/// length-delimited.
pub open spec fn enc_str(field: int, s: Seq<char>) -> Seq<u8> {
    if s.len() == 0 {
        Seq::empty()
    } else {
        varint(field_key(field, 2)) + len_delimited(encode_utf8(s))
    }
}

/// An optional string field: written whenever present, even when empty.
pub open spec fn enc_opt_str(field: int, s: Option<Seq<char>>) -> Seq<u8> {
    match s {
        None => Seq::empty(),
        Some(t) => varint(field_key(field, 2)) + len_delimited(encode_utf8(t)),
    }
}

/// A repeated string field: one record per element, empty elements
/// included.
pub open spec fn enc_str_rep(field: int, ss: Seq<Seq<char>>) -> Seq<u8>
    decreases ss.len(),
{
    if ss.len() == 0 {
        Seq::empty()
    } else {
        enc_str_rep(field, ss.drop_last()) + varint(field_key(field, 2)) + len_delimited(
            encode_utf8(ss.last()),
        )
    }
}

/// A 64-bit integer field, two's complement, skipped when zero.
pub open spec fn enc_i64(field: int, v: i64) -> Seq<u8> {
    if v == 0 {
        Seq::empty()
    } else {
        varint(field_key(field, 0)) + varint((v as u64) as int)
    }
}

/// A 32-bit integer field, sign-extended as the standard layout
/// prescribes, skipped when zero.
pub open spec fn enc_i32(field: int, v: i32) -> Seq<u8> {
    if v == 0 {
        Seq::empty()
    } else {
        varint(field_key(field, 0)) + varint(((v as i64) as u64) as int)
    }
}

/// The body of one card face record.
pub open spec fn enc_face(f: CardFaceModel) -> Seq<u8> {
    enc_str(1, f.name) + enc_str(2, f.type_line) + enc_str(3, f.mana_cost) + enc_opt_str(
        4,
        f.image_uri,
    ) + enc_str_rep(5, f.colors)
}

/// Repeated card face fields.
pub open spec fn enc_faces(field: int, fs: Seq<CardFaceModel>) -> Seq<u8>
    decreases fs.len(),
{
    if fs.len() == 0 {
        Seq::empty()
    } else {
        enc_faces(field, fs.drop_last()) + varint(field_key(field, 2)) + len_delimited(
            enc_face(fs.last()),
        )
    }
}

/// The body of one card record.
pub open spec fn enc_card(c: CardModel) -> Seq<u8> {
    enc_i64(1, c.id) + enc_str(2, c.set) + enc_str(3, c.name) + enc_str(4, c.lang) + enc_str(
        5,
        c.image_uri,
    ) + enc_str(6, c.mana_cost) + enc_i32(7, c.cmc) + enc_str(8, c.type_line) + enc_str(
        9,
        c.layout,
    ) + enc_str_rep(10, c.colors) + enc_str_rep(11, c.color_identity) + enc_faces(
        12,
        c.card_faces,
    )
}

/// Repeated card fields: the body of the whole catalog.
pub open spec fn enc_collection(cs: Seq<CardModel>) -> Seq<u8>
    decreases cs.len(),
{
    if cs.len() == 0 {
        Seq::empty()
    } else {
        enc_collection(cs.drop_last()) + varint(field_key(1, 2)) + len_delimited(
            enc_card(cs.last()),
        )
    }
}

/// Appends all of `bytes` to `out`.
fn write_bytes(out: &mut Vec<u8>, bytes: &Vec<u8>)
    ensures
        final(out)@ == old(out)@ + bytes@,
{
    let mut i: usize = 0;
    while i < bytes.len()
        invariant
            0 <= i <= bytes@.len(),
            out@ == old(out)@ + bytes@.take(i as int),
        decreases bytes@.len() - i,
    {
        out.push(bytes[i]);
        proof {
            assert(out@ =~= old(out)@ + bytes@.take(i + 1));
        }
        i = i + 1;
    }
    proof {
        assert(old(out)@ + bytes@.take(bytes@.len() as int) =~= old(out)@ + bytes@);
    }
}

/// Appends a key and a length-delimited payload.
fn write_delimited(out: &mut Vec<u8>, field: u32, payload: &Vec<u8>)
    requires
        field < 0x1000_0000,
    ensures
        final(out)@ == old(out)@ + varint(field_key(field as int, 2)) + len_delimited(payload@),
{
    crate::wire::write_key(out, field, 2);
    write_varint(out, payload.len() as u64);
    write_bytes(out, payload);
    proof {
        assert(old(out)@ + varint(field_key(field as int, 2)) + (varint(payload@.len() as int)
            + payload@) =~= old(out)@ + varint(field_key(field as int, 2)) + varint(
            payload@.len() as int,
        ) + payload@);
    }
}

/// Appends a string field, skipping empty text.
fn write_str_field(out: &mut Vec<u8>, field: u32, s: &str)
    requires
        field < 0x1000_0000,
    ensures
        final(out)@ == old(out)@ + enc_str(field as int, s@),
{
    if s.unicode_len() == 0 {
        proof {
            assert(old(out)@ + enc_str(field as int, s@) =~= old(out)@);
        }
        return ;
    }
    let payload = s.as_bytes_vec();
    write_delimited(out, field, &payload);
}

/// Appends a repeated string field.
fn write_str_rep(out: &mut Vec<u8>, field: u32, ss: &Vec<String>)
    requires
        field < 0x1000_0000,
    ensures
        final(out)@ == old(out)@ + enc_str_rep(
            field as int,
            ss@.map_values(|s: String| s@),
        ),
{
    let ghost model = ss@.map_values(|s: String| s@);
    let mut i: usize = 0;
    while i < ss.len()
        invariant
            0 <= i <= ss@.len(),
            field < 0x1000_0000,
            model == ss@.map_values(|s: String| s@),
            out@ == old(out)@ + enc_str_rep(field as int, model.take(i as int)),
        decreases ss@.len() - i,
    {
        let payload = ss[i].as_str().as_bytes_vec();
        write_delimited(out, field, &payload);
        proof {
            assert(model.take(i + 1).drop_last() =~= model.take(i as int));
            assert(model.take(i + 1).last() == model[i as int]);
            assert(model[i as int] == ss@[i as int]@);
            assert(out@ =~= old(out)@ + enc_str_rep(field as int, model.take(i + 1)));
        }
        i = i + 1;
    }
    proof {
        assert(model.take(ss@.len() as int) =~= model);
    }
}

/// Appends a 64-bit integer field, skipping zero.
fn write_i64_field(out: &mut Vec<u8>, field: u32, v: i64)
    requires
        field < 0x1000_0000,
    ensures
        final(out)@ == old(out)@ + enc_i64(field as int, v),
{
    if v == 0 {
        proof {
            assert(old(out)@ + enc_i64(field as int, v) =~= old(out)@);
        }
        return ;
    }
    crate::wire::write_key(out, field, 0);
    write_varint(out, v as u64);
    proof {
        assert(old(out)@ + varint(field_key(field as int, 0)) + varint(((v as u64) as int))
            =~= old(out)@ + enc_i64(field as int, v));
    }
}

/// Appends a 32-bit integer field, sign-extending, skipping zero.
fn write_i32_field(out: &mut Vec<u8>, field: u32, v: i32)
    requires
        field < 0x1000_0000,
    ensures
        final(out)@ == old(out)@ + enc_i32(field as int, v),
{
    if v == 0 {
        proof {
            assert(old(out)@ + enc_i32(field as int, v) =~= old(out)@);
        }
        return ;
    }
    crate::wire::write_key(out, field, 0);
    write_varint(out, (v as i64) as u64);
    proof {
        assert(old(out)@ + varint(field_key(field as int, 0)) + varint((((v as i64) as u64) as int))
            =~= old(out)@ + enc_i32(field as int, v));
    }
}

impl CardFace {
    /// Encodes the face's body.
    fn encode_body(&self) -> (r: Vec<u8>)
        ensures
            r@ == enc_face(self@),
    {
        let mut out: Vec<u8> = Vec::new();
        write_str_field(&mut out, 1, self.name.as_str());
        write_str_field(&mut out, 2, self.type_line.as_str());
        write_str_field(&mut out, 3, self.mana_cost.as_str());
        match &self.image_uri {
            Some(s) => {
                let payload = s.as_str().as_bytes_vec();
                write_delimited(&mut out, 4, &payload);
            },
            None => {},
        }
        write_str_rep(&mut out, 5, &self.colors);
        proof {
            assert(out@ =~= enc_face(self@));
        }
        out
    }
}

impl Card {
    /// A card with the required fields set and everything else empty.
    pub fn new(id: i64, set: String, name: String) -> (c: Card)
        ensures
            c@.id == id,
            c@.set == set@,
            c@.name == name@,
            c@.lang.len() == 0,
            c@.image_uri.len() == 0,
            c@.mana_cost.len() == 0,
            c@.cmc == 0,
            c@.type_line.len() == 0,
            c@.layout.len() == 0,
            c@.colors.len() == 0,
            c@.color_identity.len() == 0,
            c@.card_faces.len() == 0,
    {
        Card {
            id,
            set,
            name,
            lang: String::new(),
            image_uri: String::new(),
            mana_cost: String::new(),
            cmc: 0,
            type_line: String::new(),
            layout: String::new(),
            colors: Vec::new(),
            color_identity: Vec::new(),
            card_faces: Vec::new(),
        }
    }

    /// The converted cost, clamped into a byte: out-of-range values fall
    /// back to zero.
    pub fn mana_value(&self) -> (r: u8)
        ensures
            0 <= self@.cmc <= 255 ==> r == self@.cmc,
            !(0 <= self@.cmc <= 255) ==> r == 0,
    {
        if 0 <= self.cmc && self.cmc <= 255 {
            self.cmc as u8
        } else {
            0
        }
    }

    /// The parsed mana cost; an unreadable cost string is the empty cost.
    pub fn cost(&self) -> (r: Cost)
        ensures
            crate::mana::spec_parse_cost(self@.mana_cost) is Some ==> r@
                == crate::mana::spec_parse_cost(self@.mana_cost)->0,
            crate::mana::spec_parse_cost(self@.mana_cost) is None ==> r@.len() == 0,
    {
        match Cost::from_str(self.mana_cost.as_str()) {
            Ok(c) => c,
            Err(_) => Cost::default(),
        }
    }

    /// The card's dominant type: read from the first token of the type
    /// line; an empty type line has none, an unrecognized token is
    /// `Unknown`.
    pub fn dominant_type(&self) -> (r: Option<CardType>)
        ensures
            r == crate::cards::spec_dominant_type(self@.type_line),
    {
        crate::cards::dominant_type_of(self.type_line.as_str())
    }

    /// True iff the card has faces of its own.
    fn multiface(&self) -> (r: bool)
        ensures
            r == (self@.card_faces.len() > 0),
    {
        self.card_faces.len() > 0
    }

    /// The image to show first: the front face's image for a multi-faced
    /// card, else the card's own.
    pub fn primary_image_uri(&self) -> (r: Option<String>)
        ensures
            self@.card_faces.len() == 0 ==> (r is Some && r->0@ == self@.image_uri),
            self@.card_faces.len() > 0 ==> ((r is Some <==> self@.card_faces[0].image_uri
                is Some) && (r is Some ==> r->0@ == self@.card_faces[0].image_uri->0)),
    {
        if self.multiface() {
            match &self.card_faces[0].image_uri {
                Some(s) => Some(s.clone()),
                None => None,
            }
        } else {
            Some(self.image_uri.clone())
        }
    }

    /// Encodes the card's body.
    fn encode_body(&self) -> (r: Vec<u8>)
        ensures
            r@ == enc_card(self@),
    {
        let mut out: Vec<u8> = Vec::new();
        write_i64_field(&mut out, 1, self.id);
        write_str_field(&mut out, 2, self.set.as_str());
        write_str_field(&mut out, 3, self.name.as_str());
        write_str_field(&mut out, 4, self.lang.as_str());
        write_str_field(&mut out, 5, self.image_uri.as_str());
        write_str_field(&mut out, 6, self.mana_cost.as_str());
        write_i32_field(&mut out, 7, self.cmc);
        write_str_field(&mut out, 8, self.type_line.as_str());
        write_str_field(&mut out, 9, self.layout.as_str());
        write_str_rep(&mut out, 10, &self.colors);
        write_str_rep(&mut out, 11, &self.color_identity);
        let ghost faces = self@.card_faces;
        let ghost mid = out@;
        let mut i: usize = 0;
        while i < self.card_faces.len()
            invariant
                0 <= i <= self.card_faces@.len(),
                faces == self@.card_faces,
                out@ == mid + enc_faces(12, faces.take(i as int)),
            decreases self.card_faces@.len() - i,
        {
            let payload = self.card_faces[i].encode_body();
            write_delimited(&mut out, 12, &payload);
            proof {
                assert(faces.take(i + 1).drop_last() =~= faces.take(i as int));
                assert(faces.take(i + 1).last() == faces[i as int]);
                assert(faces[i as int] == self.card_faces@[i as int]@);
                assert(out@ =~= mid + enc_faces(12, faces.take(i + 1)));
            }
            i = i + 1;
        }
        proof {
            assert(faces.take(self.card_faces@.len() as int) =~= faces);
            assert(out@ =~= enc_card(self@));
        }
        out
    }
}

impl CardCollection {
    /// An empty catalog.
    pub fn new() -> (c: CardCollection)
        ensures
            c@.len() == 0,
    {
        CardCollection { cards: Vec::new() }
    }

    /// Appends one card.
    pub fn add_card(&mut self, card: Card)
        ensures
            final(self)@ == old(self)@.push(card@),
    {
        self.cards.push(card);
        proof {
            assert(self@ =~= old(self)@.push(self.cards@.last()@));
        }
    }

    /// How many cards the catalog holds.
    pub fn len(&self) -> (n: usize)
        ensures
            n == self@.len(),
    {
        self.cards.len()
    }

    /// True iff the catalog holds no card.
    pub fn is_empty(&self) -> (r: bool)
        ensures
            r == (self@.len() == 0),
    {
        self.cards.len() == 0
    }

    /// Encodes the whole catalog, byte for byte as the format specifies.
    #[verifier::rlimit(60)]
    pub fn encode_to_vec(&self) -> (r: Vec<u8>)
        ensures
            r@ == enc_collection(self@),
    {
        let mut out: Vec<u8> = Vec::new();
        let ghost model = self@;
        let mut i: usize = 0;
        while i < self.cards.len()
            invariant
                0 <= i <= self.cards@.len(),
                model == self@,
                out@ == enc_collection(model.take(i as int)),
            decreases self.cards@.len() - i,
        {
            let payload = self.cards[i].encode_body();
            write_delimited(&mut out, 1, &payload);
            proof {
                assert(model.take(i + 1).drop_last() =~= model.take(i as int));
                assert(model.take(i + 1).last() == model[i as int]);
                assert(model[i as int] == self.cards@[i as int]@);
                assert(out@ =~= enc_collection(model.take(i + 1)));
            }
            i = i + 1;
        }
        proof {
            assert(model.take(self.cards@.len() as int) =~= model);
        }
        out
    }
}

/// Copies a byte range out of the buffer.
fn read_bytes(s: &[u8], start: usize, end: usize) -> (r: Vec<u8>)
    requires
        start <= end <= s@.len(),
    ensures
        r@ == s@.subrange(start as int, end as int),
{
    let mut out: Vec<u8> = Vec::new();
    let mut i: usize = start;
    while i < end
        invariant
            start <= i <= end <= s@.len(),
            out@ == s@.subrange(start as int, i as int),
        decreases end - i,
    {
        out.push(s[i]);
        proof {
            assert(out@ =~= s@.subrange(start as int, i + 1));
        }
        i = i + 1;
    }
    out
}

/// Reads a byte range as text; invalid UTF-8 is rejected.
fn read_string(s: &[u8], start: usize, end: usize) -> (r: Option<String>)
    requires
        start <= end <= s@.len(),
    ensures
        r is Some <==> valid_utf8(s@.subrange(start as int, end as int)),
        r is Some ==> encode_utf8(r->0@) == s@.subrange(start as int, end as int),
{
    crate::text::string_from_utf8(read_bytes(s, start, end))
}

/// Reads the key and payload window of the next field.  Returns the
/// What reading the next field of a window yields: the field number,
/// the wire type, the varint value (zero for payload fields), the
/// payload bounds and the offset after the field — nothing when the
/// record is malformed at this position.
pub open spec fn spec_field(s: Seq<u8>, pos: int, end: int) -> Option<
    (int, int, int, int, int, int),
> {
    match read_varint_spec(s, pos) {
        None => None,
        Some(kp) => {
            if kp.0 > u64::MAX || kp.1 > end {
                None
            } else {
                let field = kp.0 / 8;
                let wire = kp.0 % 8;
                if wire == 0 {
                    match read_varint_spec(s, kp.1) {
                        None => None,
                        Some(vp) => {
                            if vp.0 > u64::MAX || vp.1 > end {
                                None
                            } else {
                                Some((field, 0, vp.0, vp.1, vp.1, vp.1))
                            }
                        },
                    }
                } else if wire == 2 {
                    if kp.1 >= end {
                        None
                    } else {
                        match read_varint_spec(s, kp.1) {
                            None => None,
                            Some(lp) => {
                                if lp.0 > u64::MAX || lp.1 > end || lp.0 > end - lp.1 {
                                    None
                                } else {
                                    Some((field, 2, 0, lp.1, lp.1 + lp.0, lp.1 + lp.0))
                                }
                            },
                        }
                    }
                } else if wire == 5 {
                    if end - kp.1 < 4 {
                        None
                    } else {
                        Some((field, 5, 0, kp.1, kp.1, kp.1 + 4))
                    }
                } else if wire == 1 {
                    if end - kp.1 < 8 {
                        None
                    } else {
                        Some((field, 1, 0, kp.1, kp.1, kp.1 + 8))
                    }
                } else {
                    None
                }
            }
        },
    }
}

/// A field that reads leaves the cursor strictly further on, inside the
/// window, with a well-bounded payload and value.
proof fn lemma_spec_field_advances(s: Seq<u8>, pos: int, end: int)
    requires
        end <= s.len(),
        spec_field(s, pos, end) is Some,
    ensures
        pos < (spec_field(s, pos, end)->0).5 <= end,
        (spec_field(s, pos, end)->0).3 <= (spec_field(s, pos, end)->0).4 <= end,
        0 <= (spec_field(s, pos, end)->0).2 <= u64::MAX,
{
    let kp = read_varint_spec(s, pos)->0;
    crate::wire::lemma_read_advances(s, pos, 0, 0);
    let f = spec_field(s, pos, end)->0;
    if kp.0 % 8 == 0 || kp.0 % 8 == 2 {
        crate::wire::lemma_read_advances(s, kp.1, 0, 0);
    }
}

/// The empty face every record starts from.
pub open spec fn empty_face() -> CardFaceModel {
    CardFaceModel {
        name: Seq::empty(),
        type_line: Seq::empty(),
        mana_cost: Seq::empty(),
        image_uri: None,
        colors: Seq::empty(),
    }
}

/// The default card every record starts from.
pub open spec fn empty_card() -> CardModel {
    CardModel {
        id: 0,
        set: Seq::empty(),
        name: Seq::empty(),
        lang: Seq::empty(),
        image_uri: Seq::empty(),
        mana_cost: Seq::empty(),
        cmc: 0,
        type_line: Seq::empty(),
        layout: Seq::empty(),
        colors: Seq::empty(),
        color_identity: Seq::empty(),
        card_faces: Seq::empty(),
    }
}

/// The face a window decodes to, folded field by field over `acc`:
/// known text fields set or extend the face and must be valid UTF-8,
/// anything else is skipped, and a malformed field fails the record.
pub open spec fn dec_face(s: Seq<u8>, pos: int, end: int, acc: CardFaceModel) -> Option<
    CardFaceModel,
>
    decreases end - pos,
    when end <= s.len()
    via dec_face_dec
{
    if pos >= end {
        Some(acc)
    } else {
        match spec_field(s, pos, end) {
            None => None,
            Some(f) => {
                if f.1 == 2 && 1 <= f.0 <= 5 {
                    if !valid_utf8(s.subrange(f.3, f.4)) {
                        None
                    } else {
                        let text = decode_utf8(s.subrange(f.3, f.4));
                        let acc2 = if f.0 == 1 {
                            CardFaceModel { name: text, ..acc }
                        } else if f.0 == 2 {
                            CardFaceModel { type_line: text, ..acc }
                        } else if f.0 == 3 {
                            CardFaceModel { mana_cost: text, ..acc }
                        } else if f.0 == 4 {
                            CardFaceModel { image_uri: Some(text), ..acc }
                        } else {
                            CardFaceModel { colors: acc.colors.push(text), ..acc }
                        };
                        dec_face(s, f.5, end, acc2)
                    }
                } else {
                    dec_face(s, f.5, end, acc)
                }
            },
        }
    }
}

#[via_fn]
proof fn dec_face_dec(s: Seq<u8>, pos: int, end: int, acc: CardFaceModel) {
    if pos < end && spec_field(s, pos, end) is Some {
        lemma_spec_field_advances(s, pos, end);
    }
}

/// True iff a field number names one of the card's text fields.
pub open spec fn card_text_field(field: int) -> bool {
    field == 2 || field == 3 || field == 4 || field == 5 || field == 6 || field == 8 || field
        == 9 || field == 10 || field == 11
}

/// The card a window decodes to, folded field by field over `acc`: the
/// id and the cost come from varint fields, known text fields must be
/// valid UTF-8, embedded faces decode in turn, anything else is
/// skipped, and a malformed field fails the record.
pub open spec fn dec_card(s: Seq<u8>, pos: int, end: int, acc: CardModel) -> Option<CardModel>
    decreases end - pos,
    when end <= s.len()
    via dec_card_dec
{
    if pos >= end {
        Some(acc)
    } else {
        match spec_field(s, pos, end) {
            None => None,
            Some(f) => {
                if f.1 == 0 && f.0 == 1 {
                    dec_card(s, f.5, end, CardModel { id: ((f.2 as u64) as i64), ..acc })
                } else if f.1 == 0 && f.0 == 7 {
                    dec_card(
                        s,
                        f.5,
                        end,
                        CardModel { cmc: (((f.2 as u64) as i64) as i32), ..acc },
                    )
                } else if f.1 == 2 && card_text_field(f.0) {
                    if !valid_utf8(s.subrange(f.3, f.4)) {
                        None
                    } else {
                        let text = decode_utf8(s.subrange(f.3, f.4));
                        let acc2 = if f.0 == 2 {
                            CardModel { set: text, ..acc }
                        } else if f.0 == 3 {
                            CardModel { name: text, ..acc }
                        } else if f.0 == 4 {
                            CardModel { lang: text, ..acc }
                        } else if f.0 == 5 {
                            CardModel { image_uri: text, ..acc }
                        } else if f.0 == 6 {
                            CardModel { mana_cost: text, ..acc }
                        } else if f.0 == 8 {
                            CardModel { type_line: text, ..acc }
                        } else if f.0 == 9 {
                            CardModel { layout: text, ..acc }
                        } else if f.0 == 10 {
                            CardModel { colors: acc.colors.push(text), ..acc }
                        } else {
                            CardModel { color_identity: acc.color_identity.push(text), ..acc }
                        };
                        dec_card(s, f.5, end, acc2)
                    }
                } else if f.1 == 2 && f.0 == 12 {
                    match dec_face(s, f.3, f.4, empty_face()) {
                        None => None,
                        Some(face) => dec_card(
                            s,
                            f.5,
                            end,
                            CardModel { card_faces: acc.card_faces.push(face), ..acc },
                        ),
                    }
                } else {
                    dec_card(s, f.5, end, acc)
                }
            },
        }
    }
}

#[via_fn]
proof fn dec_card_dec(s: Seq<u8>, pos: int, end: int, acc: CardModel) {
    if pos < end && spec_field(s, pos, end) is Some {
        lemma_spec_field_advances(s, pos, end);
    }
}

/// The collection a window decodes to, folded field by field over
/// `acc`: each embedded card is appended in order, anything else is
/// skipped, and a malformed field fails the catalog.
pub open spec fn dec_collection(s: Seq<u8>, pos: int, end: int, acc: Seq<CardModel>) -> Option<
    Seq<CardModel>,
>
    decreases end - pos,
    when end <= s.len()
    via dec_collection_dec
{
    if pos >= end {
        Some(acc)
    } else {
        match spec_field(s, pos, end) {
            None => None,
            Some(f) => {
                if f.1 == 2 && f.0 == 1 {
                    match dec_card(s, f.3, f.4, empty_card()) {
                        None => None,
                        Some(card) => dec_collection(s, f.5, end, acc.push(card)),
                    }
                } else {
                    dec_collection(s, f.5, end, acc)
                }
            },
        }
    }
}

#[via_fn]
proof fn dec_collection_dec(s: Seq<u8>, pos: int, end: int, acc: Seq<CardModel>) {
    if pos < end && spec_field(s, pos, end) is Some {
        lemma_spec_field_advances(s, pos, end);
    }
}

/// Reads the key and payload window of the next field, exactly as the
/// field specification has it.
fn read_field(s: &[u8], pos: usize, end: usize) -> (r: Option<(u64, u8, u64, usize, usize, usize)>)
    requires
        pos < end <= s@.len(),
    ensures
        r is Some <==> spec_field(s@, pos as int, end as int) is Some,
        r is Some ==> {
            let f = spec_field(s@, pos as int, end as int)->0;
            &&& (r->0).0 == f.0
            &&& (r->0).1 == f.1
            &&& (r->0).2 == f.2
            &&& (r->0).3 == f.3
            &&& (r->0).4 == f.4
            &&& (r->0).5 == f.5
        },
        r is Some ==> pos < (r->0).5 <= end,
        r is Some ==> (r->0).3 <= (r->0).4 <= s@.len(),
{
    let (key, p1) = match read_varint(s, pos) {
        Some(kp) => kp,
        None => {
            return None;
        },
    };
    if p1 > end {
        return None;
    }
    let field = key / 8;
    let wire = (key % 8) as u8;
    if wire == 0 {
        // A varint value.
        let (v, p2) = match read_varint(s, p1) {
            Some(vp) => vp,
            None => {
                return None;
            },
        };
        if p2 > end {
            return None;
        }
        Some((field, wire, v, p2, p2, p2))
    } else if wire == 2 {
        // A length-delimited payload.
        if p1 >= end {
            return None;
        }
        let (len, p2) = match read_varint(s, p1) {
            Some(lp) => lp,
            None => {
                return None;
            },
        };
        if p2 > end {
            return None;
        }
        if len > (end - p2) as u64 {
            return None;
        }
        let p3 = p2 + len as usize;
        Some((field, wire, 0, p2, p3, p3))
    } else if wire == 5 {
        // A fixed 32-bit value: skipped.
        if end - p1 < 4 {
            return None;
        }
        Some((field, wire, 0, p1, p1, p1 + 4))
    } else if wire == 1 {
        // A fixed 64-bit value: skipped.
        if end - p1 < 8 {
            return None;
        }
        Some((field, wire, 0, p1, p1, p1 + 8))
    } else {
        None
    }
}

/// Appends one string, extending the list's model by its view.
fn push_string(v: &mut Vec<String>, s: String)
    ensures
        final(v)@.map_values(|x: String| x@) == old(v)@.map_values(|x: String| x@).push(s@),
{
    let ghost pre = v@;
    let ghost sv = s@;
    proof {
        assert(pre.map_values(|x: String| x@).len() == pre.len());
    }
    v.push(s);
    proof {
        assert forall|k: int|
            0 <= k < v@.len() implies #[trigger] v@[k]@ == pre.map_values(|x: String| x@).push(
            sv,
        )[k] by {
            if k < pre.len() {
                assert(v@[k] == pre[k]);
                assert(pre.map_values(|x: String| x@)[k] == pre[k]@);
            } else {
                assert(v@[k] == v@.last());
            }
        }
        assert(v@.map_values(|x: String| x@) =~= pre.map_values(|x: String| x@).push(sv));
    }
}

/// Appends one face, extending the list's model by its view.
fn push_face(v: &mut Vec<CardFace>, f: CardFace)
    ensures
        final(v)@.map_values(|x: CardFace| x@) == old(v)@.map_values(|x: CardFace| x@).push(f@),
{
    let ghost pre = v@;
    let ghost fv = f@;
    proof {
        assert(pre.map_values(|x: CardFace| x@).len() == pre.len());
    }
    v.push(f);
    proof {
        assert forall|k: int|
            0 <= k < v@.len() implies #[trigger] v@[k]@ == pre.map_values(
            |x: CardFace| x@,
        ).push(fv)[k] by {
            if k < pre.len() {
                assert(v@[k] == pre[k]);
                assert(pre.map_values(|x: CardFace| x@)[k] == pre[k]@);
            } else {
                assert(v@[k] == v@.last());
            }
        }
        assert(v@.map_values(|x: CardFace| x@) =~= pre.map_values(|x: CardFace| x@).push(fv));
    }
}

/// Appends one card, extending the list's model by its view.
fn push_card(v: &mut Vec<Card>, c: Card)
    ensures
        final(v)@.map_values(|x: Card| x@) == old(v)@.map_values(|x: Card| x@).push(c@),
{
    let ghost pre = v@;
    let ghost cv = c@;
    proof {
        assert(pre.map_values(|x: Card| x@).len() == pre.len());
    }
    v.push(c);
    proof {
        assert forall|k: int|
            0 <= k < v@.len() implies #[trigger] v@[k]@ == pre.map_values(|x: Card| x@).push(
            cv,
        )[k] by {
            if k < pre.len() {
                assert(v@[k] == pre[k]);
                assert(pre.map_values(|x: Card| x@)[k] == pre[k]@);
            } else {
                assert(v@[k] == v@.last());
            }
        }
        assert(v@.map_values(|x: Card| x@) =~= pre.map_values(|x: Card| x@).push(cv));
    }
}

/// Decodes one card face record from a window of the buffer: exactly
/// the face the window's fields spell, or nothing when the window is
/// malformed.
fn decode_face(s: &[u8], start: usize, end: usize) -> (r: Option<CardFace>)
    requires
        start <= end <= s@.len(),
    ensures
        r is Some <==> dec_face(s@, start as int, end as int, empty_face()) is Some,
        r is Some ==> r->0@ == dec_face(s@, start as int, end as int, empty_face())->0,
{
    let mut face = CardFace {
        name: String::new(),
        type_line: String::new(),
        mana_cost: String::new(),
        image_uri: None,
        colors: Vec::new(),
    };
    proof {
        assert(face@.colors =~= empty_face().colors);
        assert(face@ == empty_face());
    }
    let mut pos: usize = start;
    while pos < end
        invariant
            start <= pos <= end,
            end <= s@.len(),
            dec_face(s@, start as int, end as int, empty_face()) == dec_face(
                s@,
                pos as int,
                end as int,
                face@,
            ),
        decreases end - pos,
    {
        let ghost acc0 = face@;
        let (field, wire, _v, pstart, pend, pnext) = match read_field(s, pos, end) {
            Some(f) => f,
            None => {
                return None;
            },
        };
        let ghost f = spec_field(s@, pos as int, end as int)->0;
        if wire == 2 && field >= 1 && field <= 5 {
            let text = match read_string(s, pstart, pend) {
                Some(t) => t,
                None => {
                    return None;
                },
            };
            proof {
                vstd::utf8::encode_utf8_decode_utf8(text@);
                assert(decode_utf8(s@.subrange(f.3, f.4)) == text@);
            }
            if field == 1 {
                face.name = text;
            } else if field == 2 {
                face.type_line = text;
            } else if field == 3 {
                face.mana_cost = text;
            } else if field == 4 {
                face.image_uri = Some(text);
            } else {
                push_string(&mut face.colors, text);
            }
            proof {
                assert(dec_face(s@, pos as int, end as int, acc0) == dec_face(
                    s@,
                    pnext as int,
                    end as int,
                    face@,
                ));
            }
        } else {
            proof {
                assert(dec_face(s@, pos as int, end as int, acc0) == dec_face(
                    s@,
                    pnext as int,
                    end as int,
                    face@,
                ));
            }
        }
        pos = pnext;
    }
    Some(face)
}

/// Decodes one card record from a window of the buffer: exactly the
/// card the window's fields spell, or nothing when the window is
/// malformed.
fn decode_card(s: &[u8], start: usize, end: usize) -> (r: Option<Card>)
    requires
        start <= end <= s@.len(),
    ensures
        r is Some <==> dec_card(s@, start as int, end as int, empty_card()) is Some,
        r is Some ==> r->0@ == dec_card(s@, start as int, end as int, empty_card())->0,
{
    let mut card = Card::new(0, String::new(), String::new());
    proof {
        assert(card@.lang =~= empty_card().lang);
        assert(card@.image_uri =~= empty_card().image_uri);
        assert(card@.mana_cost =~= empty_card().mana_cost);
        assert(card@.type_line =~= empty_card().type_line);
        assert(card@.layout =~= empty_card().layout);
        assert(card@.colors =~= empty_card().colors);
        assert(card@.color_identity =~= empty_card().color_identity);
        assert(card@.card_faces =~= empty_card().card_faces);
        assert(card@ == empty_card());
    }
    let mut pos: usize = start;
    while pos < end
        invariant
            start <= pos <= end,
            end <= s@.len(),
            dec_card(s@, start as int, end as int, empty_card()) == dec_card(
                s@,
                pos as int,
                end as int,
                card@,
            ),
        decreases end - pos,
    {
        let ghost acc0 = card@;
        let (field, wire, v, pstart, pend, pnext) = match read_field(s, pos, end) {
            Some(f) => f,
            None => {
                return None;
            },
        };
        let ghost f = spec_field(s@, pos as int, end as int)->0;
        if wire == 0 && field == 1 {
            card.id = v as i64;
        } else if wire == 0 && field == 7 {
            card.cmc = v as i64 as i32;
        } else if wire == 2 && (field == 2 || field == 3 || field == 4 || field == 5 || field
            == 6 || field == 8 || field == 9 || field == 10 || field == 11) {
            let text = match read_string(s, pstart, pend) {
                Some(t) => t,
                None => {
                    return None;
                },
            };
            proof {
                vstd::utf8::encode_utf8_decode_utf8(text@);
                assert(decode_utf8(s@.subrange(f.3, f.4)) == text@);
            }
            if field == 2 {
                card.set = text;
            } else if field == 3 {
                card.name = text;
            } else if field == 4 {
                card.lang = text;
            } else if field == 5 {
                card.image_uri = text;
            } else if field == 6 {
                card.mana_cost = text;
            } else if field == 8 {
                card.type_line = text;
            } else if field == 9 {
                card.layout = text;
            } else if field == 10 {
                push_string(&mut card.colors, text);
            } else {
                push_string(&mut card.color_identity, text);
            }
        } else if wire == 2 && field == 12 {
            let face = match decode_face(s, pstart, pend) {
                Some(x) => x,
                None => {
                    return None;
                },
            };
            push_face(&mut card.card_faces, face);
        }
        proof {
            assert(dec_card(s@, pos as int, end as int, acc0) == dec_card(
                s@,
                pnext as int,
                end as int,
                card@,
            ));
        }
        pos = pnext;
    }
    Some(card)
}

impl CardCollection {
    /// Decodes a whole catalog.  Decoding is total and yields exactly
    /// the collection the bytes spell: fields read in any order,
    /// unknown fields skipped, trailing padding of zero length
    /// tolerated; truncated records, oversized numbers and invalid text
    /// are a decode error.
    pub fn decode(bytes: &[u8]) -> (r: Result<CardCollection, Error>)
        ensures
            r is Ok <==> dec_collection(
                bytes@,
                0,
                bytes@.len() as int,
                Seq::empty(),
            ) is Some,
            r is Ok ==> r->Ok_0@ == dec_collection(
                bytes@,
                0,
                bytes@.len() as int,
                Seq::empty(),
            )->0,
    {
        let mut cards: Vec<Card> = Vec::new();
        let end = bytes.len();
        let mut pos: usize = 0;
        proof {
            assert(cards@.map_values(|c: Card| c@) =~= Seq::<CardModel>::empty());
        }
        while pos < end
            invariant
                pos <= end,
                end == bytes@.len(),
                dec_collection(bytes@, 0, end as int, Seq::empty()) == dec_collection(
                    bytes@,
                    pos as int,
                    end as int,
                    cards@.map_values(|c: Card| c@),
                ),
            decreases end - pos,
        {
            let ghost acc0 = cards@.map_values(|c: Card| c@);
            let (field, wire, _v, pstart, pend, pnext) = match read_field(bytes, pos, end) {
                Some(f) => f,
                None => {
                    return Err(Error::DecodeError);
                },
            };
            if wire == 2 && field == 1 {
                let card = match decode_card(bytes, pstart, pend) {
                    Some(c) => c,
                    None => {
                        return Err(Error::DecodeError);
                    },
                };
                push_card(&mut cards, card);
            }
            proof {
                assert(dec_collection(bytes@, pos as int, end as int, acc0) == dec_collection(
                    bytes@,
                    pnext as int,
                    end as int,
                    cards@.map_values(|c: Card| c@),
                ));
            }
            pos = pnext;
        }
        Ok(CardCollection { cards })
    }
}


/// A concatenation seen through a window splits into its two parts.
proof fn lemma_subrange_split(s: Seq<u8>, a: int, x: Seq<u8>, y: Seq<u8>)
    requires
        0 <= a,
        a + x.len() + y.len() <= s.len(),
        s.subrange(a, a + x.len() + y.len()) == x + y,
    ensures
        s.subrange(a, a + x.len()) == x,
        s.subrange(a + x.len(), a + x.len() + y.len()) == y,
{
    assert forall|i: int| 0 <= i < x.len() implies s.subrange(a, a + x.len())[i] == x[i] by {
        assert(s.subrange(a, a + x.len() + y.len())[i] == s[a + i]);
        assert((x + y)[i] == x[i]);
    }
    assert(s.subrange(a, a + x.len()) =~= x);
    assert forall|i: int|
        0 <= i < y.len() implies s.subrange(a + x.len(), a + x.len() + y.len())[i] == y[i] by {
        assert(s.subrange(a, a + x.len() + y.len())[x.len() + i] == s[a + x.len() + i]);
        assert((x + y)[x.len() + i] == y[i]);
    }
    assert(s.subrange(a + x.len(), a + x.len() + y.len()) =~= y);
}

/// A key-and-payload segment written at `a` reads back as that field:
/// the payload window holds exactly the payload.
proof fn lemma_field_delimited(s: Seq<u8>, a: int, end: int, fieldno: int, payload: Seq<u8>)
    requires
        1 <= fieldno < 0x1000_0000,
        payload.len() <= u64::MAX,
        0 <= a,
        a + (varint(field_key(fieldno, 2)) + len_delimited(payload)).len() <= end <= s.len(),
        s.subrange(a, a + (varint(field_key(fieldno, 2)) + len_delimited(payload)).len())
            == varint(field_key(fieldno, 2)) + len_delimited(payload),
    ensures
        ({
            let pstart = a + varint(field_key(fieldno, 2)).len() + varint(
                payload.len() as int,
            ).len();
            &&& spec_field(s, a, end) == Some::<(int, int, int, int, int, int)>(
                (fieldno, 2, 0, pstart, pstart + payload.len(), pstart + payload.len()),
            )
            &&& s.subrange(pstart, pstart + payload.len() as int) == payload
        }),
{
    let key = field_key(fieldno, 2);
    let vk = varint(key);
    let vl = varint(payload.len() as int);
    assert(len_delimited(payload) == vl + payload);
    assert(vk + len_delimited(payload) =~= vk + (vl + payload));
    assert(vk + (vl + payload) =~= (vk + vl) + payload);
    lemma_subrange_split(s, a, vk + vl, payload);
    lemma_subrange_split(s, a, vk, vl);
    assert(0 <= key <= u64::MAX);
    crate::wire::lemma_varint_round_trip(s, a, key);
    crate::wire::lemma_varint_round_trip(s, a + vk.len(), payload.len() as int);
    crate::wire::lemma_varint_len(payload.len() as int);
    assert(key / 8 == fieldno && key % 8 == 2) by (nonlinear_arith)
        requires
            key == fieldno * 8 + 2,
            fieldno >= 0,
    ;
    let pstart = a + vk.len() + vl.len();
    assert(a + vk.len() < end);
    assert(read_varint_spec(s, a) == Some((key, a + vk.len())));
    assert(read_varint_spec(s, a + vk.len()) == Some((payload.len() as int, pstart)));
}

/// A key-and-value segment written at `a` reads back as that varint
/// field.
proof fn lemma_field_varint(s: Seq<u8>, a: int, end: int, fieldno: int, v: int)
    requires
        1 <= fieldno < 0x1000_0000,
        0 <= v <= u64::MAX,
        0 <= a,
        a + (varint(field_key(fieldno, 0)) + varint(v)).len() <= end <= s.len(),
        s.subrange(a, a + (varint(field_key(fieldno, 0)) + varint(v)).len()) == varint(
            field_key(fieldno, 0),
        ) + varint(v),
    ensures
        ({
            let b = a + (varint(field_key(fieldno, 0)) + varint(v)).len();
            spec_field(s, a, end) == Some::<(int, int, int, int, int, int)>(
                (fieldno, 0, v, b, b, b),
            )
        }),
{
    let key = field_key(fieldno, 0);
    let vk = varint(key);
    let vv = varint(v);
    lemma_subrange_split(s, a, vk, vv);
    assert(0 <= key <= u64::MAX);
    crate::wire::lemma_varint_round_trip(s, a, key);
    crate::wire::lemma_varint_round_trip(s, a + vk.len(), v);
    assert(key / 8 == fieldno && key % 8 == 0) by (nonlinear_arith)
        requires
            key == fieldno * 8,
            fieldno >= 0,
    ;
    assert(read_varint_spec(s, a) == Some((key, a + vk.len())));
    assert(read_varint_spec(s, a + vk.len()) == Some((v, a + vk.len() + vv.len())));
}


/// Bounds that keep every varint of a face's encoding within the
/// 64-bit range a reader accepts.
pub open spec fn face_sizes_ok(f: CardFaceModel) -> bool {
    &&& encode_utf8(f.name).len() <= u64::MAX
    &&& encode_utf8(f.type_line).len() <= u64::MAX
    &&& encode_utf8(f.mana_cost).len() <= u64::MAX
    &&& (f.image_uri is Some ==> encode_utf8(f.image_uri->0).len() <= u64::MAX)
    &&& forall|i: int|
        0 <= i < f.colors.len() ==> encode_utf8(#[trigger] f.colors[i]).len() <= u64::MAX
}

/// The face with one text field set or extended, as the reader does it.
pub open spec fn face_with_text(acc: CardFaceModel, fieldno: int, text: Seq<char>) -> CardFaceModel {
    if fieldno == 1 {
        CardFaceModel { name: text, ..acc }
    } else if fieldno == 2 {
        CardFaceModel { type_line: text, ..acc }
    } else if fieldno == 3 {
        CardFaceModel { mana_cost: text, ..acc }
    } else if fieldno == 4 {
        CardFaceModel { image_uri: Some(text), ..acc }
    } else {
        CardFaceModel { colors: acc.colors.push(text), ..acc }
    }
}

/// Reading one text segment of a face record advances past it and sets
/// the field.
proof fn lemma_dec_face_text_step(
    s: Seq<u8>,
    a: int,
    w: int,
    fieldno: int,
    text: Seq<char>,
    acc: CardFaceModel,
)
    requires
        1 <= fieldno <= 5,
        encode_utf8(text).len() <= u64::MAX,
        0 <= a,
        a + (varint(field_key(fieldno, 2)) + len_delimited(encode_utf8(text))).len() <= w
            <= s.len(),
        s.subrange(
            a,
            a + (varint(field_key(fieldno, 2)) + len_delimited(encode_utf8(text))).len(),
        ) == varint(field_key(fieldno, 2)) + len_delimited(encode_utf8(text)),
    ensures
        dec_face(s, a, w, acc) == dec_face(
            s,
            a + (varint(field_key(fieldno, 2)) + len_delimited(encode_utf8(text))).len(),
            w,
            face_with_text(acc, fieldno, text),
        ),
{
    lemma_field_delimited(s, a, w, fieldno, encode_utf8(text));
    vstd::utf8::encode_utf8_valid_utf8(text);
    vstd::utf8::encode_utf8_decode_utf8(text);
    crate::wire::lemma_varint_len(field_key(fieldno, 2));
    crate::wire::lemma_varint_len(encode_utf8(text).len() as int);
    let f = spec_field(s, a, w)->0;
    assert(s.subrange(f.3, f.4) == encode_utf8(text));
    assert(decode_utf8(s.subrange(f.3, f.4)) == text);
}

/// Reading a string field of a face record: absent when the text is
/// empty, one segment otherwise.
proof fn lemma_dec_face_str(
    s: Seq<u8>,
    a: int,
    w: int,
    fieldno: int,
    text: Seq<char>,
    acc: CardFaceModel,
)
    requires
        1 <= fieldno <= 3,
        encode_utf8(text).len() <= u64::MAX,
        0 <= a,
        a + enc_str(fieldno, text).len() <= w <= s.len(),
        s.subrange(a, a + enc_str(fieldno, text).len()) == enc_str(fieldno, text),
    ensures
        dec_face(s, a, w, acc) == dec_face(
            s,
            a + enc_str(fieldno, text).len(),
            w,
            if text.len() == 0 {
                acc
            } else {
                face_with_text(acc, fieldno, text)
            },
        ),
{
    if text.len() != 0 {
        lemma_dec_face_text_step(s, a, w, fieldno, text, acc);
    }
}

/// Reading the optional image field of a face record: absent stays
/// absent, present is one segment even when empty.
proof fn lemma_dec_face_opt(s: Seq<u8>, a: int, w: int, o: Option<Seq<char>>, acc: CardFaceModel)
    requires
        o is Some ==> encode_utf8(o->0).len() <= u64::MAX,
        0 <= a,
        a + enc_opt_str(4, o).len() <= w <= s.len(),
        s.subrange(a, a + enc_opt_str(4, o).len()) == enc_opt_str(4, o),
    ensures
        dec_face(s, a, w, acc) == dec_face(
            s,
            a + enc_opt_str(4, o).len(),
            w,
            match o {
                Option::None => acc,
                Option::Some(t) => face_with_text(acc, 4, t),
            },
        ),
{
    match o {
        Option::None => {},
        Option::Some(t) => {
            lemma_dec_face_text_step(s, a, w, 4, t, acc);
        },
    }
}

/// Reading the repeated color field of a face record appends every
/// element in order.
proof fn lemma_dec_face_rep(s: Seq<u8>, a: int, w: int, cs: Seq<Seq<char>>, acc: CardFaceModel)
    requires
        forall|i: int| 0 <= i < cs.len() ==> encode_utf8(#[trigger] cs[i]).len() <= u64::MAX,
        0 <= a,
        a + enc_str_rep(5, cs).len() <= w <= s.len(),
        s.subrange(a, a + enc_str_rep(5, cs).len()) == enc_str_rep(5, cs),
    ensures
        dec_face(s, a, w, acc) == dec_face(
            s,
            a + enc_str_rep(5, cs).len(),
            w,
            CardFaceModel { colors: acc.colors + cs, ..acc },
        ),
    decreases cs.len(),
{
    if cs.len() == 0 {
        assert(acc.colors + cs =~= acc.colors);
        assert(CardFaceModel { colors: acc.colors + cs, ..acc } == acc);
    } else {
        let prefix = enc_str_rep(5, cs.drop_last());
        let seg = varint(field_key(5, 2)) + len_delimited(encode_utf8(cs.last()));
        assert(enc_str_rep(5, cs) == prefix + varint(field_key(5, 2)) + len_delimited(
            encode_utf8(cs.last()),
        ));
        assert(enc_str_rep(5, cs) =~= prefix + seg);
        lemma_subrange_split(s, a, prefix, seg);
        assert(forall|i: int|
            0 <= i < cs.len() - 1 ==> encode_utf8(#[trigger] cs.drop_last()[i]).len()
                <= u64::MAX);
        lemma_dec_face_rep(s, a, w, cs.drop_last(), acc);
        let acc2 = CardFaceModel { colors: acc.colors + cs.drop_last(), ..acc };
        lemma_dec_face_text_step(s, a + prefix.len(), w, 5, cs.last(), acc2);
        assert((acc.colors + cs.drop_last()).push(cs.last()) =~= acc.colors + cs);
        assert(face_with_text(acc2, 5, cs.last()) == CardFaceModel {
            colors: acc.colors + cs,
            ..acc
        });
    }
}

/// Reading back an encoded face yields exactly that face.
proof fn lemma_dec_face_enc(s: Seq<u8>, a: int, f: CardFaceModel)
    requires
        face_sizes_ok(f),
        0 <= a,
        a + enc_face(f).len() <= s.len(),
        s.subrange(a, a + enc_face(f).len()) == enc_face(f),
    ensures
        dec_face(s, a, a + enc_face(f).len(), empty_face()) == Some(f),
{
    let w = a + enc_face(f).len();
    let p1 = enc_str(1, f.name);
    let p2 = enc_str(2, f.type_line);
    let p3 = enc_str(3, f.mana_cost);
    let p4 = enc_opt_str(4, f.image_uri);
    let p5 = enc_str_rep(5, f.colors);
    assert(enc_face(f) =~= p1 + (p2 + (p3 + (p4 + p5))));
    lemma_subrange_split(s, a, p1, p2 + (p3 + (p4 + p5)));
    let a1 = a + p1.len();
    lemma_subrange_split(s, a1, p2, p3 + (p4 + p5));
    let a2 = a1 + p2.len();
    lemma_subrange_split(s, a2, p3, p4 + p5);
    let a3 = a2 + p3.len();
    lemma_subrange_split(s, a3, p4, p5);
    let a4 = a3 + p4.len();
    lemma_dec_face_str(s, a, w, 1, f.name, empty_face());
    let acc1 = if f.name.len() == 0 {
        empty_face()
    } else {
        face_with_text(empty_face(), 1, f.name)
    };
    lemma_dec_face_str(s, a1, w, 2, f.type_line, acc1);
    let acc2 = if f.type_line.len() == 0 {
        acc1
    } else {
        face_with_text(acc1, 2, f.type_line)
    };
    lemma_dec_face_str(s, a2, w, 3, f.mana_cost, acc2);
    let acc3 = if f.mana_cost.len() == 0 {
        acc2
    } else {
        face_with_text(acc2, 3, f.mana_cost)
    };
    lemma_dec_face_opt(s, a3, w, f.image_uri, acc3);
    let acc4 = match f.image_uri {
        Option::None => acc3,
        Option::Some(t) => face_with_text(acc3, 4, t),
    };
    lemma_dec_face_rep(s, a4, w, f.colors, acc4);
    let acc5 = CardFaceModel { colors: acc4.colors + f.colors, ..acc4 };
    assert(dec_face(s, w, w, acc5) == Some(acc5));
    assert(acc5.name =~= f.name);
    assert(acc5.type_line =~= f.type_line);
    assert(acc5.mana_cost =~= f.mana_cost);
    assert(acc5.colors =~= f.colors);
    assert(acc5 == f);
}


/// Bounds that keep every varint of a card's encoding within the
/// 64-bit range a reader accepts.
pub open spec fn card_sizes_ok(c: CardModel) -> bool {
    &&& encode_utf8(c.set).len() <= u64::MAX
    &&& encode_utf8(c.name).len() <= u64::MAX
    &&& encode_utf8(c.lang).len() <= u64::MAX
    &&& encode_utf8(c.image_uri).len() <= u64::MAX
    &&& encode_utf8(c.mana_cost).len() <= u64::MAX
    &&& encode_utf8(c.type_line).len() <= u64::MAX
    &&& encode_utf8(c.layout).len() <= u64::MAX
    &&& forall|i: int|
        0 <= i < c.colors.len() ==> encode_utf8(#[trigger] c.colors[i]).len() <= u64::MAX
    &&& forall|i: int|
        0 <= i < c.color_identity.len() ==> encode_utf8(#[trigger] c.color_identity[i]).len()
            <= u64::MAX
    &&& forall|i: int|
        0 <= i < c.card_faces.len() ==> face_sizes_ok(#[trigger] c.card_faces[i]) && enc_face(
            c.card_faces[i],
        ).len() <= u64::MAX
}

/// The card with one text field set or extended, as the reader does it.
pub open spec fn card_with_text(acc: CardModel, fieldno: int, text: Seq<char>) -> CardModel {
    if fieldno == 2 {
        CardModel { set: text, ..acc }
    } else if fieldno == 3 {
        CardModel { name: text, ..acc }
    } else if fieldno == 4 {
        CardModel { lang: text, ..acc }
    } else if fieldno == 5 {
        CardModel { image_uri: text, ..acc }
    } else if fieldno == 6 {
        CardModel { mana_cost: text, ..acc }
    } else if fieldno == 8 {
        CardModel { type_line: text, ..acc }
    } else if fieldno == 9 {
        CardModel { layout: text, ..acc }
    } else if fieldno == 10 {
        CardModel { colors: acc.colors.push(text), ..acc }
    } else {
        CardModel { color_identity: acc.color_identity.push(text), ..acc }
    }
}

/// Reading one text segment of a card record advances past it and sets
/// the field.
proof fn lemma_dec_card_text_step(
    s: Seq<u8>,
    a: int,
    w: int,
    fieldno: int,
    text: Seq<char>,
    acc: CardModel,
)
    requires
        card_text_field(fieldno),
        encode_utf8(text).len() <= u64::MAX,
        0 <= a,
        a + (varint(field_key(fieldno, 2)) + len_delimited(encode_utf8(text))).len() <= w
            <= s.len(),
        s.subrange(
            a,
            a + (varint(field_key(fieldno, 2)) + len_delimited(encode_utf8(text))).len(),
        ) == varint(field_key(fieldno, 2)) + len_delimited(encode_utf8(text)),
    ensures
        dec_card(s, a, w, acc) == dec_card(
            s,
            a + (varint(field_key(fieldno, 2)) + len_delimited(encode_utf8(text))).len(),
            w,
            card_with_text(acc, fieldno, text),
        ),
{
    lemma_field_delimited(s, a, w, fieldno, encode_utf8(text));
    vstd::utf8::encode_utf8_valid_utf8(text);
    vstd::utf8::encode_utf8_decode_utf8(text);
    crate::wire::lemma_varint_len(field_key(fieldno, 2));
    crate::wire::lemma_varint_len(encode_utf8(text).len() as int);
    let f = spec_field(s, a, w)->0;
    assert(s.subrange(f.3, f.4) == encode_utf8(text));
    assert(decode_utf8(s.subrange(f.3, f.4)) == text);
}

/// Reading a string field of a card record: absent when the text is
/// empty, one segment otherwise.
proof fn lemma_dec_card_str(
    s: Seq<u8>,
    a: int,
    w: int,
    fieldno: int,
    text: Seq<char>,
    acc: CardModel,
)
    requires
        card_text_field(fieldno),
        fieldno != 10 && fieldno != 11,
        encode_utf8(text).len() <= u64::MAX,
        0 <= a,
        a + enc_str(fieldno, text).len() <= w <= s.len(),
        s.subrange(a, a + enc_str(fieldno, text).len()) == enc_str(fieldno, text),
    ensures
        dec_card(s, a, w, acc) == dec_card(
            s,
            a + enc_str(fieldno, text).len(),
            w,
            if text.len() == 0 {
                acc
            } else {
                card_with_text(acc, fieldno, text)
            },
        ),
{
    if text.len() != 0 {
        lemma_dec_card_text_step(s, a, w, fieldno, text, acc);
    }
}

/// Reading the id field of a card record: absent when zero.
proof fn lemma_dec_card_i64(s: Seq<u8>, a: int, w: int, id: i64, acc: CardModel)
    requires
        0 <= a,
        a + enc_i64(1, id).len() <= w <= s.len(),
        s.subrange(a, a + enc_i64(1, id).len()) == enc_i64(1, id),
    ensures
        dec_card(s, a, w, acc) == dec_card(
            s,
            a + enc_i64(1, id).len(),
            w,
            if id == 0 {
                acc
            } else {
                CardModel { id: id, ..acc }
            },
        ),
{
    if id != 0 {
        lemma_field_varint(s, a, w, 1, (id as u64) as int);
        crate::wire::lemma_varint_len(field_key(1, 0));
        crate::wire::lemma_varint_len((id as u64) as int);
        let f = spec_field(s, a, w)->0;
        let z: u64 = id as u64;
        assert(f.2 == z as int);
        assert(f.2 as u64 == z);
        assert((z as i64) == id) by (bit_vector)
            requires
                z == id as u64,
        ;
        assert(((f.2 as u64) as i64) == id);
    }
}

/// Reading the converted-cost field of a card record: absent when zero.
proof fn lemma_dec_card_i32(s: Seq<u8>, a: int, w: int, cmc: i32, acc: CardModel)
    requires
        0 <= a,
        a + enc_i32(7, cmc).len() <= w <= s.len(),
        s.subrange(a, a + enc_i32(7, cmc).len()) == enc_i32(7, cmc),
    ensures
        dec_card(s, a, w, acc) == dec_card(
            s,
            a + enc_i32(7, cmc).len(),
            w,
            if cmc == 0 {
                acc
            } else {
                CardModel { cmc: cmc, ..acc }
            },
        ),
{
    if cmc != 0 {
        lemma_field_varint(s, a, w, 7, ((cmc as i64) as u64) as int);
        crate::wire::lemma_varint_len(field_key(7, 0));
        crate::wire::lemma_varint_len(((cmc as i64) as u64) as int);
        let f = spec_field(s, a, w)->0;
        let z: u64 = (cmc as i64) as u64;
        assert(f.2 == z as int);
        assert(f.2 as u64 == z);
        assert(((z as i64) as i32) == cmc) by (bit_vector)
            requires
                z == (cmc as i64) as u64,
        ;
        assert((((f.2 as u64) as i64) as i32) == cmc);
    }
}

/// Reading a repeated string field of a card record appends every
/// element in order.
proof fn lemma_dec_card_rep(
    s: Seq<u8>,
    a: int,
    w: int,
    fieldno: int,
    cs: Seq<Seq<char>>,
    acc: CardModel,
)
    requires
        fieldno == 10 || fieldno == 11,
        forall|i: int| 0 <= i < cs.len() ==> encode_utf8(#[trigger] cs[i]).len() <= u64::MAX,
        0 <= a,
        a + enc_str_rep(fieldno, cs).len() <= w <= s.len(),
        s.subrange(a, a + enc_str_rep(fieldno, cs).len()) == enc_str_rep(fieldno, cs),
    ensures
        dec_card(s, a, w, acc) == dec_card(
            s,
            a + enc_str_rep(fieldno, cs).len(),
            w,
            if fieldno == 10 {
                CardModel { colors: acc.colors + cs, ..acc }
            } else {
                CardModel { color_identity: acc.color_identity + cs, ..acc }
            },
        ),
    decreases cs.len(),
{
    if cs.len() == 0 {
        assert(acc.colors + cs =~= acc.colors);
        assert(acc.color_identity + cs =~= acc.color_identity);
        assert(CardModel { colors: acc.colors + cs, ..acc } == acc);
        assert(CardModel { color_identity: acc.color_identity + cs, ..acc } == acc);
    } else {
        let prefix = enc_str_rep(fieldno, cs.drop_last());
        let seg = varint(field_key(fieldno, 2)) + len_delimited(encode_utf8(cs.last()));
        assert(enc_str_rep(fieldno, cs) =~= prefix + seg);
        lemma_subrange_split(s, a, prefix, seg);
        assert(forall|i: int|
            0 <= i < cs.len() - 1 ==> encode_utf8(#[trigger] cs.drop_last()[i]).len()
                <= u64::MAX);
        lemma_dec_card_rep(s, a, w, fieldno, cs.drop_last(), acc);
        let acc2 = if fieldno == 10 {
            CardModel { colors: acc.colors + cs.drop_last(), ..acc }
        } else {
            CardModel { color_identity: acc.color_identity + cs.drop_last(), ..acc }
        };
        lemma_dec_card_text_step(s, a + prefix.len(), w, fieldno, cs.last(), acc2);
        if fieldno == 10 {
            assert((acc.colors + cs.drop_last()).push(cs.last()) =~= acc.colors + cs);
            assert(card_with_text(acc2, fieldno, cs.last()) == CardModel {
                colors: acc.colors + cs,
                ..acc
            });
        } else {
            assert((acc.color_identity + cs.drop_last()).push(cs.last()) =~= acc.color_identity
                + cs);
            assert(card_with_text(acc2, fieldno, cs.last()) == CardModel {
                color_identity: acc.color_identity + cs,
                ..acc
            });
        }
    }
}

/// Reading the repeated face field of a card record appends every face
/// in order, each decoded from its own window.
proof fn lemma_dec_card_faces(s: Seq<u8>, a: int, w: int, fs: Seq<CardFaceModel>, acc: CardModel)
    requires
        forall|i: int|
            0 <= i < fs.len() ==> face_sizes_ok(#[trigger] fs[i]) && enc_face(fs[i]).len()
                <= u64::MAX,
        0 <= a,
        a + enc_faces(12, fs).len() <= w <= s.len(),
        s.subrange(a, a + enc_faces(12, fs).len()) == enc_faces(12, fs),
    ensures
        dec_card(s, a, w, acc) == dec_card(
            s,
            a + enc_faces(12, fs).len(),
            w,
            CardModel { card_faces: acc.card_faces + fs, ..acc },
        ),
    decreases fs.len(),
{
    if fs.len() == 0 {
        assert(acc.card_faces + fs =~= acc.card_faces);
        assert(CardModel { card_faces: acc.card_faces + fs, ..acc } == acc);
    } else {
        let prefix = enc_faces(12, fs.drop_last());
        let seg = varint(field_key(12, 2)) + len_delimited(enc_face(fs.last()));
        assert(enc_faces(12, fs) =~= prefix + seg);
        lemma_subrange_split(s, a, prefix, seg);
        assert(forall|i: int|
            0 <= i < fs.len() - 1 ==> face_sizes_ok(#[trigger] fs.drop_last()[i]) && enc_face(
                fs.drop_last()[i],
            ).len() <= u64::MAX);
        lemma_dec_card_faces(s, a, w, fs.drop_last(), acc);
        let acc2 = CardModel { card_faces: acc.card_faces + fs.drop_last(), ..acc };
        let a2 = a + prefix.len();
        lemma_field_delimited(s, a2, w, 12, enc_face(fs.last()));
        crate::wire::lemma_varint_len(field_key(12, 2));
        crate::wire::lemma_varint_len(enc_face(fs.last()).len() as int);
        let f = spec_field(s, a2, w)->0;
        assert(s.subrange(f.3, f.4) == enc_face(fs.last()));
        assert(f.4 == f.3 + enc_face(fs.last()).len());
        lemma_dec_face_enc(s, f.3, fs.last());
        assert(dec_face(s, f.3, f.4, empty_face()) == Some(fs.last()));
        assert((acc.card_faces + fs.drop_last()).push(fs.last()) =~= acc.card_faces + fs);
        assert(dec_card(s, a2, w, acc2) == dec_card(s, f.5, w, CardModel {
            card_faces: acc.card_faces + fs,
            ..acc
        }));
    }
}

/// The first six fields of a card's encoding, in order.
pub open spec fn enc_card_front(c: CardModel) -> Seq<u8> {
    enc_i64(1, c.id) + enc_str(2, c.set) + enc_str(3, c.name) + enc_str(4, c.lang) + enc_str(
        5,
        c.image_uri,
    ) + enc_str(6, c.mana_cost)
}

/// The remaining fields of a card's encoding, in order.
pub open spec fn enc_card_back(c: CardModel) -> Seq<u8> {
    enc_i32(7, c.cmc) + enc_str(8, c.type_line) + enc_str(9, c.layout) + enc_str_rep(
        10,
        c.colors,
    ) + enc_str_rep(11, c.color_identity) + enc_faces(12, c.card_faces)
}

/// The reader's accumulator after the first six fields.
pub open spec fn card_acc_front(c: CardModel) -> CardModel {
    let b1 = if c.id == 0 {
        empty_card()
    } else {
        CardModel { id: c.id, ..empty_card() }
    };
    let b2 = if c.set.len() == 0 {
        b1
    } else {
        card_with_text(b1, 2, c.set)
    };
    let b3 = if c.name.len() == 0 {
        b2
    } else {
        card_with_text(b2, 3, c.name)
    };
    let b4 = if c.lang.len() == 0 {
        b3
    } else {
        card_with_text(b3, 4, c.lang)
    };
    let b5 = if c.image_uri.len() == 0 {
        b4
    } else {
        card_with_text(b4, 5, c.image_uri)
    };
    if c.mana_cost.len() == 0 {
        b5
    } else {
        card_with_text(b5, 6, c.mana_cost)
    }
}

/// Reading the first six fields of an encoded card folds them into the
/// accumulator.
#[verifier::rlimit(100)]
#[verifier::spinoff_prover]
proof fn lemma_dec_card_enc_front(s: Seq<u8>, a: int, w: int, c: CardModel)
    requires
        card_sizes_ok(c),
        0 <= a,
        a + enc_card_front(c).len() <= w <= s.len(),
        s.subrange(a, a + enc_card_front(c).len()) == enc_card_front(c),
    ensures
        dec_card(s, a, w, empty_card()) == dec_card(
            s,
            a + enc_card_front(c).len(),
            w,
            card_acc_front(c),
        ),
{
    let q1 = enc_i64(1, c.id);
    let q2 = enc_str(2, c.set);
    let q3 = enc_str(3, c.name);
    let q4 = enc_str(4, c.lang);
    let q5 = enc_str(5, c.image_uri);
    let q6 = enc_str(6, c.mana_cost);
    assert(enc_card_front(c) =~= q1 + (q2 + (q3 + (q4 + (q5 + q6)))));
    lemma_subrange_split(s, a, q1, q2 + (q3 + (q4 + (q5 + q6))));
    let a1 = a + q1.len();
    lemma_subrange_split(s, a1, q2, q3 + (q4 + (q5 + q6)));
    let a2 = a1 + q2.len();
    lemma_subrange_split(s, a2, q3, q4 + (q5 + q6));
    let a3 = a2 + q3.len();
    lemma_subrange_split(s, a3, q4, q5 + q6);
    let a4 = a3 + q4.len();
    lemma_subrange_split(s, a4, q5, q6);
    let a5 = a4 + q5.len();
    lemma_dec_card_i64(s, a, w, c.id, empty_card());
    let b1 = if c.id == 0 {
        empty_card()
    } else {
        CardModel { id: c.id, ..empty_card() }
    };
    lemma_dec_card_str(s, a1, w, 2, c.set, b1);
    let b2 = if c.set.len() == 0 {
        b1
    } else {
        card_with_text(b1, 2, c.set)
    };
    lemma_dec_card_str(s, a2, w, 3, c.name, b2);
    let b3 = if c.name.len() == 0 {
        b2
    } else {
        card_with_text(b2, 3, c.name)
    };
    lemma_dec_card_str(s, a3, w, 4, c.lang, b3);
    let b4 = if c.lang.len() == 0 {
        b3
    } else {
        card_with_text(b3, 4, c.lang)
    };
    lemma_dec_card_str(s, a4, w, 5, c.image_uri, b4);
    let b5 = if c.image_uri.len() == 0 {
        b4
    } else {
        card_with_text(b4, 5, c.image_uri)
    };
    lemma_dec_card_str(s, a5, w, 6, c.mana_cost, b5);
}

/// Reading the remaining fields of an encoded card completes the card.
#[verifier::rlimit(100)]
#[verifier::spinoff_prover]
proof fn lemma_dec_card_enc_back(s: Seq<u8>, a: int, w: int, c: CardModel)
    requires
        card_sizes_ok(c),
        0 <= a,
        a + enc_card_back(c).len() <= w <= s.len(),
        s.subrange(a, a + enc_card_back(c).len()) == enc_card_back(c),
    ensures
        dec_card(s, a, w, card_acc_front(c)) == dec_card(s, a + enc_card_back(c).len(), w, c),
{
    let q7 = enc_i32(7, c.cmc);
    let q8 = enc_str(8, c.type_line);
    let q9 = enc_str(9, c.layout);
    let q10 = enc_str_rep(10, c.colors);
    let q11 = enc_str_rep(11, c.color_identity);
    let q12 = enc_faces(12, c.card_faces);
    assert(enc_card_back(c) =~= q7 + (q8 + (q9 + (q10 + (q11 + q12)))));
    lemma_subrange_split(s, a, q7, q8 + (q9 + (q10 + (q11 + q12))));
    let a7 = a + q7.len();
    lemma_subrange_split(s, a7, q8, q9 + (q10 + (q11 + q12)));
    let a8 = a7 + q8.len();
    lemma_subrange_split(s, a8, q9, q10 + (q11 + q12));
    let a9 = a8 + q9.len();
    lemma_subrange_split(s, a9, q10, q11 + q12);
    let a10 = a9 + q10.len();
    lemma_subrange_split(s, a10, q11, q12);
    let a11 = a10 + q11.len();
    let b6 = card_acc_front(c);
    lemma_dec_card_i32(s, a, w, c.cmc, b6);
    let b7 = if c.cmc == 0 {
        b6
    } else {
        CardModel { cmc: c.cmc, ..b6 }
    };
    lemma_dec_card_str(s, a7, w, 8, c.type_line, b7);
    let b8 = if c.type_line.len() == 0 {
        b7
    } else {
        card_with_text(b7, 8, c.type_line)
    };
    lemma_dec_card_str(s, a8, w, 9, c.layout, b8);
    let b9 = if c.layout.len() == 0 {
        b8
    } else {
        card_with_text(b8, 9, c.layout)
    };
    lemma_dec_card_rep(s, a9, w, 10, c.colors, b9);
    let b10 = CardModel { colors: b9.colors + c.colors, ..b9 };
    lemma_dec_card_rep(s, a10, w, 11, c.color_identity, b10);
    let b11 = CardModel { color_identity: b10.color_identity + c.color_identity, ..b10 };
    lemma_dec_card_faces(s, a11, w, c.card_faces, b11);
    let b12 = CardModel { card_faces: b11.card_faces + c.card_faces, ..b11 };
    assert(b12.set =~= c.set);
    assert(b12.name =~= c.name);
    assert(b12.lang =~= c.lang);
    assert(b12.image_uri =~= c.image_uri);
    assert(b12.mana_cost =~= c.mana_cost);
    assert(b12.type_line =~= c.type_line);
    assert(b12.layout =~= c.layout);
    assert(b12.colors =~= c.colors);
    assert(b12.color_identity =~= c.color_identity);
    assert(b12.card_faces =~= c.card_faces);
    assert(b12 == c);
}

/// Reading back an encoded card yields exactly that card.
proof fn lemma_dec_card_enc(s: Seq<u8>, a: int, c: CardModel)
    requires
        card_sizes_ok(c),
        0 <= a,
        a + enc_card(c).len() <= s.len(),
        s.subrange(a, a + enc_card(c).len()) == enc_card(c),
    ensures
        dec_card(s, a, a + enc_card(c).len(), empty_card()) == Some(c),
{
    let w = a + enc_card(c).len();
    assert(enc_card(c) =~= enc_card_front(c) + enc_card_back(c));
    lemma_subrange_split(s, a, enc_card_front(c), enc_card_back(c));
    lemma_dec_card_enc_front(s, a, w, c);
    lemma_dec_card_enc_back(s, a + enc_card_front(c).len(), w, c);
    assert(dec_card(s, w, w, c) == Some(c));
}


/// Bounds that keep every varint of a catalog's encoding within the
/// 64-bit range a reader accepts; every collection a program can hold
/// satisfies them.
pub open spec fn collection_sizes_ok(cs: Seq<CardModel>) -> bool {
    forall|i: int|
        0 <= i < cs.len() ==> card_sizes_ok(#[trigger] cs[i]) && enc_card(cs[i]).len()
            <= u64::MAX
}

/// Reading an encoded card sequence appends exactly those cards.
#[verifier::rlimit(100)]
#[verifier::spinoff_prover]
proof fn lemma_dec_collection_enc(s: Seq<u8>, a: int, w: int, cs: Seq<CardModel>, acc: Seq<
    CardModel,
>)
    requires
        collection_sizes_ok(cs),
        0 <= a,
        a + enc_collection(cs).len() <= w <= s.len(),
        s.subrange(a, a + enc_collection(cs).len()) == enc_collection(cs),
    ensures
        dec_collection(s, a, w, acc) == dec_collection(
            s,
            a + enc_collection(cs).len(),
            w,
            acc + cs,
        ),
    decreases cs.len(),
{
    if cs.len() == 0 {
        assert(acc + cs =~= acc);
    } else {
        let prefix = enc_collection(cs.drop_last());
        let seg = varint(field_key(1, 2)) + len_delimited(enc_card(cs.last()));
        assert(enc_collection(cs) =~= prefix + seg);
        lemma_subrange_split(s, a, prefix, seg);
        assert(forall|i: int|
            0 <= i < cs.len() - 1 ==> card_sizes_ok(#[trigger] cs.drop_last()[i]) && enc_card(
                cs.drop_last()[i],
            ).len() <= u64::MAX);
        lemma_dec_collection_enc(s, a, w, cs.drop_last(), acc);
        let a2 = a + prefix.len();
        lemma_field_delimited(s, a2, w, 1, enc_card(cs.last()));
        crate::wire::lemma_varint_len(field_key(1, 2));
        crate::wire::lemma_varint_len(enc_card(cs.last()).len() as int);
        let f = spec_field(s, a2, w)->0;
        assert(s.subrange(f.3, f.4) == enc_card(cs.last()));
        assert(f.4 == f.3 + enc_card(cs.last()).len());
        lemma_dec_card_enc(s, f.3, cs.last());
        assert(dec_card(s, f.3, f.4, empty_card()) == Some(cs.last()));
        assert((acc + cs.drop_last()).push(cs.last()) =~= acc + cs);
        assert(dec_collection(s, a2, w, acc + cs.drop_last()) == dec_collection(
            s,
            f.5,
            w,
            acc + cs,
        ));
    }
}

/// Reading back what was written: an encoded catalog decodes to
/// exactly the cards it encodes — so `decode` on `encode_to_vec`'s
/// bytes returns the original collection.
pub proof fn lemma_encode_decode_round_trip(cs: Seq<CardModel>)
    requires
        collection_sizes_ok(cs),
    ensures
        dec_collection(enc_collection(cs), 0, enc_collection(cs).len() as int, Seq::empty())
            == Some(cs),
{
    let s = enc_collection(cs);
    assert(s.subrange(0, s.len() as int) =~= s);
    lemma_dec_collection_enc(s, 0, s.len() as int, cs, Seq::empty());
    assert(Seq::<CardModel>::empty() + cs =~= cs);
    assert(dec_collection(s, s.len() as int, s.len() as int, cs) == Some(cs));
}

} // verus!
