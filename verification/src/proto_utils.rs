//! Conversions between the reduced card model and the catalog message.
//!
//! The reduced model writes absent text as absent; the catalog message
//! writes it as empty.  Converting forward fills the defaults in;
//! converting back turns empty text into absence again.

use vstd::prelude::*;

verus! {

use vstd::string::StrSliceExecFns;
use crate::cards::Card as LegacyCard;
use crate::cards::CardFace as LegacyCardFace;
use crate::cards::LegacyCardModel;
use crate::cards::LegacyFaceModel;
use crate::proto::Card;
use crate::proto::CardFace;
use crate::proto::CardFaceModel;
use crate::proto::CardModel;

/// What converting a reduced face forward yields.
pub open spec fn spec_face_to_proto(f: LegacyFaceModel) -> CardFaceModel {
    CardFaceModel {
        name: f.name,
        type_line: f.type_line,
        mana_cost: match f.mana_cost {
            Some(s) => s,
            None => Seq::empty(),
        },
        image_uri: f.image_uri,
        colors: match f.colors {
            Some(cs) => cs,
            None => Seq::empty(),
        },
    }
}

/// What converting a reduced card forward yields.
pub open spec fn spec_legacy_to_proto(c: LegacyCardModel) -> CardModel {
    CardModel {
        id: c.id as i64,
        set: c.set,
        name: c.name,
        lang: c.lang,
        image_uri: match c.image_uri {
            Some(s) => s,
            None => Seq::empty(),
        },
        mana_cost: match c.mana_cost {
            Some(s) => s,
            None => Seq::empty(),
        },
        cmc: c.cmc as i32,
        type_line: c.type_line,
        layout: c.layout,
        colors: match c.colors {
            Some(cs) => cs,
            None => Seq::empty(),
        },
        color_identity: c.color_identity,
        card_faces: match c.card_faces {
            Some(fs) => fs.map_values(|f: LegacyFaceModel| spec_face_to_proto(f)),
            None => Seq::empty(),
        },
    }
}

/// What converting a catalog face back yields.
pub open spec fn spec_face_to_legacy(f: CardFaceModel) -> LegacyFaceModel {
    LegacyFaceModel {
        name: f.name,
        type_line: f.type_line,
        mana_cost: if f.mana_cost.len() == 0 {
            None
        } else {
            Some(f.mana_cost)
        },
        image_uri: f.image_uri,
        colors: if f.colors.len() == 0 {
            None
        } else {
            Some(f.colors)
        },
    }
}

/// What converting a catalog card back yields.  The id and the cost are
/// narrowed by truncation, as the reduced model stores them.
pub open spec fn spec_proto_to_legacy(c: CardModel) -> LegacyCardModel {
    LegacyCardModel {
        id: c.id as i32,
        set: c.set,
        name: c.name,
        lang: c.lang,
        image_uri: if c.image_uri.len() == 0 {
            None
        } else {
            Some(c.image_uri)
        },
        mana_cost: if c.mana_cost.len() == 0 {
            None
        } else {
            Some(c.mana_cost)
        },
        cmc: c.cmc as u8,
        type_line: c.type_line,
        layout: c.layout,
        colors: if c.colors.len() == 0 {
            None
        } else {
            Some(c.colors)
        },
        color_identity: c.color_identity,
        card_faces: if c.card_faces.len() == 0 {
            None
        } else {
            Some(c.card_faces.map_values(|f: CardFaceModel| spec_face_to_legacy(f)))
        },
    }
}

fn clone_strings(v: &Vec<String>) -> (r: Vec<String>)
    ensures
        r@.map_values(|s: String| s@) == v@.map_values(|s: String| s@),
{
    let mut r: Vec<String> = Vec::new();
    let mut i: usize = 0;
    while i < v.len()
        invariant
            0 <= i <= v@.len(),
            r@.map_values(|s: String| s@) =~= v@.map_values(|s: String| s@).take(i as int),
        decreases v@.len() - i,
    {
        let s = v[i].clone();
        let ghost sv = s@;
        let ghost pre = r@;
        proof {
            assert(pre.map_values(|s: String| s@).len() == pre.len());
            assert(pre.len() == i as int);
        }
        r.push(s);
        proof {
            assert forall|k: int|
                0 <= k < r@.len() implies #[trigger] r@[k]@ == v@.map_values(
                |s: String| s@,
            ).take(i + 1)[k] by {
                if k < i {
                    assert(r@[k] == pre[k]);
                    assert(pre.map_values(|s: String| s@)[k] == pre[k]@);
                    assert(v@.map_values(|s: String| s@).take(i as int)[k] == v@.map_values(
                        |s: String| s@,
                    )[k]);
                } else {
                    assert(r@[k] == r@.last());
                    assert(r@.last()@ == sv);
                    assert(v@.map_values(|s: String| s@)[k] == v@[k]@);
                }
            }
            assert(r@.map_values(|s: String| s@) =~= v@.map_values(|s: String| s@).take(i + 1));
        }
        i = i + 1;
    }
    proof {
        assert(v@.map_values(|s: String| s@).take(v@.len() as int) =~= v@.map_values(
            |s: String| s@,
        ));
    }
    r
}

/// Converts a reduced face to its catalog form.
fn legacy_face_to_proto(legacy_face: &LegacyCardFace) -> (r: CardFace)
    ensures
        r@ == spec_face_to_proto(legacy_face@),
{
    let r = CardFace {
        name: legacy_face.name.clone(),
        type_line: legacy_face.type_line.clone(),
        mana_cost: match &legacy_face.mana_cost {
            Some(s) => s.clone(),
            None => String::new(),
        },
        image_uri: match &legacy_face.image_uri {
            Some(s) => Some(s.clone()),
            None => None,
        },
        colors: match &legacy_face.colors {
            Some(v) => clone_strings(v),
            None => Vec::new(),
        },
    };
    proof {
        assert(r@.colors =~= spec_face_to_proto(legacy_face@).colors);
        assert(r@.mana_cost =~= spec_face_to_proto(legacy_face@).mana_cost);
    }
    r
}

/// Converts a reduced card to its catalog form: absent text becomes
/// empty, the id widens.
pub fn legacy_to_proto(legacy_card: &LegacyCard) -> (r: Card)
    ensures
        r@ == spec_legacy_to_proto(legacy_card@),
{
    let card_faces: Vec<CardFace> = match &legacy_card.card_faces {
        Some(faces) => {
            let ghost model = faces@.map_values(|f: LegacyCardFace| f@);
            let mut out: Vec<CardFace> = Vec::new();
            let mut i: usize = 0;
            while i < faces.len()
                invariant
                    0 <= i <= faces@.len(),
                    model == faces@.map_values(|f: LegacyCardFace| f@),
                    out@.map_values(|f: CardFace| f@) =~= model.take(i as int).map_values(
                        |f: LegacyFaceModel| spec_face_to_proto(f),
                    ),
                decreases faces@.len() - i,
            {
                let f = legacy_face_to_proto(&faces[i]);
                let ghost fv = f@;
                let ghost pre = out@;
                proof {
                    assert(pre.map_values(|f: CardFace| f@).len() == pre.len());
                    assert(pre.len() == i as int);
                }
                out.push(f);
                proof {
                    assert(model[i as int] == faces@[i as int]@);
                    assert forall|k: int|
                        0 <= k < out@.len() implies #[trigger] out@[k]@ == model.take(
                        i + 1,
                    ).map_values(|f: LegacyFaceModel| spec_face_to_proto(f))[k] by {
                        if k < i {
                            assert(out@[k] == pre[k]);
                            assert(pre.map_values(|f: CardFace| f@)[k] == pre[k]@);
                            assert(model.take(i as int).map_values(
                                |f: LegacyFaceModel| spec_face_to_proto(f),
                            )[k] == spec_face_to_proto(model.take(i as int)[k]));
                            assert(model.take(i + 1).map_values(
                                |f: LegacyFaceModel| spec_face_to_proto(f),
                            )[k] == spec_face_to_proto(model.take(i + 1)[k]));
                        } else {
                            assert(out@[k] == out@.last());
                            assert(out@.last()@ == fv);
                            assert(fv == spec_face_to_proto(faces@[i as int]@));
                            assert(model.take(i + 1).map_values(
                                |f: LegacyFaceModel| spec_face_to_proto(f),
                            )[k] == spec_face_to_proto(model.take(i + 1)[k]));
                        }
                    }
                    assert(out@.map_values(|f: CardFace| f@) =~= model.take(i + 1).map_values(
                        |f: LegacyFaceModel| spec_face_to_proto(f),
                    ));
                }
                i = i + 1;
            }
            proof {
                assert(model.take(faces@.len() as int) =~= model);
            }
            out
        },
        None => Vec::new(),
    };
    let result = Card {
        id: legacy_card.id as i64,
        set: legacy_card.set.clone(),
        name: legacy_card.name.clone(),
        lang: legacy_card.lang.clone(),
        image_uri: match &legacy_card.image_uri {
            Some(s) => s.clone(),
            None => String::new(),
        },
        mana_cost: match &legacy_card.mana_cost {
            Some(s) => s.clone(),
            None => String::new(),
        },
        cmc: legacy_card.cmc as i32,
        type_line: legacy_card.type_line.clone(),
        layout: legacy_card.layout.clone(),
        colors: match &legacy_card.colors {
            Some(v) => clone_strings(v),
            None => Vec::new(),
        },
        color_identity: clone_strings(&legacy_card.color_identity),
        card_faces,
    };
    proof {
        let target = spec_legacy_to_proto(legacy_card@);
        assert(result@.image_uri =~= target.image_uri);
        assert(result@.mana_cost =~= target.mana_cost);
        assert(result@.colors =~= target.colors);
        assert(result@.color_identity =~= target.color_identity);
        assert(result@.card_faces =~= target.card_faces);
    }
    result
}

/// Converts a catalog face back to its reduced form.
fn proto_face_to_legacy(proto_face: &CardFace) -> (r: LegacyCardFace)
    ensures
        r@ == spec_face_to_legacy(proto_face@),
{
    let r = LegacyCardFace {
        name: proto_face.name.clone(),
        type_line: proto_face.type_line.clone(),
        mana_cost: if proto_face.mana_cost.as_str().unicode_len() == 0 {
            None
        } else {
            Some(proto_face.mana_cost.clone())
        },
        image_uri: match &proto_face.image_uri {
            Some(s) => Some(s.clone()),
            None => None,
        },
        colors: if proto_face.colors.len() == 0 {
            proof {
                assert(proto_face@.colors.len() == 0);
            }
            None
        } else {
            Some(clone_strings(&proto_face.colors))
        },
    };
    proof {
        match r@.colors {
            Some(cs) => {
                assert(cs =~= proto_face@.colors);
            },
            None => {},
        }
    }
    r
}

/// Converts a catalog card back to its reduced form: empty text becomes
/// absent, the id and the cost are narrowed by truncation.
pub fn proto_to_legacy(proto_card: &Card) -> (r: LegacyCard)
    ensures
        r@ == spec_proto_to_legacy(proto_card@),
{
    let card_faces: Option<Vec<LegacyCardFace>> = if proto_card.card_faces.len() == 0 {
        None
    } else {
        let faces = &proto_card.card_faces;
        let ghost model = faces@.map_values(|f: CardFace| f@);
        let mut out: Vec<LegacyCardFace> = Vec::new();
        let mut i: usize = 0;
        while i < faces.len()
            invariant
                0 <= i <= faces@.len(),
                model == faces@.map_values(|f: CardFace| f@),
                out@.map_values(|f: LegacyCardFace| f@) =~= model.take(i as int).map_values(
                    |f: CardFaceModel| spec_face_to_legacy(f),
                ),
            decreases faces@.len() - i,
        {
            let f = proto_face_to_legacy(&faces[i]);
            let ghost fv = f@;
            let ghost pre = out@;
            proof {
                assert(pre.map_values(|f: LegacyCardFace| f@).len() == pre.len());
                assert(pre.len() == i as int);
            }
            out.push(f);
            proof {
                assert(model[i as int] == faces@[i as int]@);
                assert forall|k: int|
                    0 <= k < out@.len() implies #[trigger] out@[k]@ == model.take(
                    i + 1,
                ).map_values(|f: CardFaceModel| spec_face_to_legacy(f))[k] by {
                    if k < i {
                        assert(out@[k] == pre[k]);
                        assert(pre.map_values(|f: LegacyCardFace| f@)[k] == pre[k]@);
                        assert(model.take(i as int).map_values(
                            |f: CardFaceModel| spec_face_to_legacy(f),
                        )[k] == spec_face_to_legacy(model.take(i as int)[k]));
                        assert(model.take(i + 1).map_values(
                            |f: CardFaceModel| spec_face_to_legacy(f),
                        )[k] == spec_face_to_legacy(model.take(i + 1)[k]));
                    } else {
                        assert(out@[k] == out@.last());
                        assert(out@.last()@ == fv);
                        assert(fv == spec_face_to_legacy(faces@[i as int]@));
                        assert(model.take(i + 1).map_values(
                            |f: CardFaceModel| spec_face_to_legacy(f),
                        )[k] == spec_face_to_legacy(model.take(i + 1)[k]));
                    }
                }
                assert(out@.map_values(|f: LegacyCardFace| f@) =~= model.take(i + 1).map_values(
                    |f: CardFaceModel| spec_face_to_legacy(f),
                ));
            }
            i = i + 1;
        }
        proof {
            assert(model.take(faces@.len() as int) =~= model);
        }
        Some(out)
    };
    LegacyCard {
        id: proto_card.id as i32,
        set: proto_card.set.clone(),
        name: proto_card.name.clone(),
        lang: proto_card.lang.clone(),
        image_uri: if proto_card.image_uri.as_str().unicode_len() == 0 {
            None
        } else {
            Some(proto_card.image_uri.clone())
        },
        mana_cost: if proto_card.mana_cost.as_str().unicode_len() == 0 {
            None
        } else {
            Some(proto_card.mana_cost.clone())
        },
        cmc: proto_card.cmc as u8,
        type_line: proto_card.type_line.clone(),
        layout: proto_card.layout.clone(),
        colors: if proto_card.colors.len() == 0 {
            None
        } else {
            Some(clone_strings(&proto_card.colors))
        },
        color_identity: clone_strings(&proto_card.color_identity),
        card_faces,
    }
}


/// The reduced cards a catalog's bytes spell: the decoded collection
/// mapped back to the reduced model, in order.  This is the compute
/// core of loading a catalog file; the surrounding program only reads
/// the bytes.
pub fn load_card_collection(bytes: &[u8]) -> (r: Result<Vec<LegacyCard>, crate::Error>)
    ensures
        r is Ok <==> crate::proto::dec_collection(
            bytes@,
            0,
            bytes@.len() as int,
            Seq::empty(),
        ) is Some,
        r is Ok ==> r->Ok_0@.map_values(|c: LegacyCard| c@) == crate::proto::dec_collection(
            bytes@,
            0,
            bytes@.len() as int,
            Seq::empty(),
        )->0.map_values(|c: CardModel| spec_proto_to_legacy(c)),
{
    let collection = match crate::proto::CardCollection::decode(bytes) {
        Ok(c) => c,
        Err(e) => {
            return Err(e);
        },
    };
    let ghost model = collection@;
    let cards = collection.cards;
    let mut out: Vec<LegacyCard> = Vec::new();
    let mut i: usize = 0;
    while i < cards.len()
        invariant
            0 <= i <= cards@.len(),
            model == cards@.map_values(|c: Card| c@),
            out@.map_values(|c: LegacyCard| c@) =~= model.take(i as int).map_values(
                |c: CardModel| spec_proto_to_legacy(c),
            ),
        decreases cards@.len() - i,
    {
        let legacy = proto_to_legacy(&cards[i]);
        let ghost lv = legacy@;
        let ghost pre = out@;
        proof {
            assert(pre.map_values(|c: LegacyCard| c@).len() == pre.len());
            assert(model[i as int] == cards@[i as int]@);
        }
        out.push(legacy);
        proof {
            assert forall|k: int|
                0 <= k < out@.len() implies #[trigger] out@[k]@ == model.take(
                i + 1,
            ).map_values(|c: CardModel| spec_proto_to_legacy(c))[k] by {
                if k < pre.len() {
                    assert(out@[k] == pre[k]);
                    assert(pre.map_values(|c: LegacyCard| c@)[k] == pre[k]@);
                    assert(model.take(i as int).map_values(
                        |c: CardModel| spec_proto_to_legacy(c),
                    )[k] == spec_proto_to_legacy(model.take(i as int)[k]));
                    assert(model.take(i + 1).map_values(
                        |c: CardModel| spec_proto_to_legacy(c),
                    )[k] == spec_proto_to_legacy(model.take(i + 1)[k]));
                } else {
                    assert(out@[k] == out@.last());
                    assert(model.take(i + 1).map_values(
                        |c: CardModel| spec_proto_to_legacy(c),
                    )[k] == spec_proto_to_legacy(model.take(i + 1)[k]));
                }
            }
            assert(out@.map_values(|c: LegacyCard| c@) =~= model.take(i + 1).map_values(
                |c: CardModel| spec_proto_to_legacy(c),
            ));
        }
        i = i + 1;
    }
    proof {
        assert(model.take(cards@.len() as int) =~= model);
    }
    Ok(out)
}

} // verus!
