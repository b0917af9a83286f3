//! The card catalog: encoding bytes, the decode round trip, lookups and
//! the reduced-model conversions.

use arenabuddy::cards::Card as LegacyCard;
use arenabuddy::cards::CardType;
use arenabuddy::cards::CardsDatabase;
use arenabuddy::proto::Card;
use arenabuddy::proto::CardCollection;
use arenabuddy::proto::CardFace;
use arenabuddy::proto_utils::legacy_to_proto;
use arenabuddy::proto_utils::load_card_collection;
use arenabuddy::proto_utils::proto_to_legacy;

fn sample_card() -> Card {
    let mut card = Card::new(93958, "one".to_string(), "Ruby".to_string());
    card.lang = "en".to_string();
    card.mana_cost = "{1}{R}".to_string();
    card.cmc = 2;
    card.type_line = "Creature - Gem".to_string();
    card.layout = "normal".to_string();
    card.colors = vec!["R".to_string()];
    card.color_identity = vec!["R".to_string()];
    card.card_faces = vec![CardFace {
        name: "Ruby Face".to_string(),
        type_line: "Creature".to_string(),
        mana_cost: "{R}".to_string(),
        image_uri: Some("https://example.invalid/ruby.png".to_string()),
        colors: vec!["R".to_string()],
    }];
    card
}

#[test]
fn empty_collection_encodes_to_nothing() {
    let collection = CardCollection::new();
    assert!(collection.is_empty());
    assert_eq!(collection.len(), 0);
    assert!(collection.encode_to_vec().is_empty());
}

#[test]
fn simple_card_encodes_to_known_bytes() {
    let mut collection = CardCollection::new();
    collection.add_card(Card::new(1, "s".to_string(), "A".to_string()));
    let bytes = collection.encode_to_vec();
    // One card record: id 1, set "s", name "A"; defaults are skipped.
    let expected = vec![
        0x0a, 0x08, // cards field, 8 payload bytes
        0x08, 0x01, // id = 1
        0x12, 0x01, b's', // set = "s"
        0x1a, 0x01, b'A', // name = "A"
    ];
    assert_eq!(bytes, expected);
}

#[test]
fn encode_then_decode_round_trips() {
    let mut collection = CardCollection::new();
    collection.add_card(sample_card());
    collection.add_card(Card::new(-7, "neg".to_string(), "Negative".to_string()));
    let bytes = collection.encode_to_vec();

    let decoded = CardCollection::decode(&bytes).expect("own encoding decodes");
    assert_eq!(decoded.len(), 2);
    let c = &decoded.cards[0];
    assert_eq!(c.id, 93958);
    assert_eq!(c.set, "one");
    assert_eq!(c.name, "Ruby");
    assert_eq!(c.lang, "en");
    assert_eq!(c.mana_cost, "{1}{R}");
    assert_eq!(c.cmc, 2);
    assert_eq!(c.type_line, "Creature - Gem");
    assert_eq!(c.layout, "normal");
    assert_eq!(c.colors, vec!["R".to_string()]);
    assert_eq!(c.color_identity, vec!["R".to_string()]);
    assert_eq!(c.card_faces.len(), 1);
    assert_eq!(c.card_faces[0].name, "Ruby Face");
    assert_eq!(
        c.card_faces[0].image_uri.as_deref(),
        Some("https://example.invalid/ruby.png")
    );
    let n = &decoded.cards[1];
    assert_eq!(n.id, -7);
    assert_eq!(n.name, "Negative");
}

#[test]
fn truncated_input_is_rejected() {
    let mut collection = CardCollection::new();
    collection.add_card(sample_card());
    let bytes = collection.encode_to_vec();
    assert!(CardCollection::decode(&bytes[..bytes.len() - 1]).is_err());
    assert!(CardCollection::decode(&[0x0a]).is_err());
}

#[test]
fn invalid_text_is_rejected() {
    // A one-card record whose name field carries a byte that is not
    // valid UTF-8.
    let bad = [
        0x0a, 0x03, // cards field, 3 payload bytes
        0x1a, 0x01, 0xff, // name = one invalid byte
    ];
    assert!(CardCollection::decode(&bad).is_err());

    // Unknown fields are skipped even when their payloads are not text.
    let unknown = [
        0x0a, 0x03, // cards field, 3 payload bytes
        0xaa, 0x01, 0x00, // field 21, empty payload marker byte follows
    ];
    assert!(CardCollection::decode(&unknown).is_ok());
}

#[test]
fn loading_bytes_yields_reduced_cards() {
    let mut collection = CardCollection::new();
    collection.add_card(sample_card());
    let bytes = collection.encode_to_vec();

    let cards = load_card_collection(&bytes).expect("own encoding loads");
    assert_eq!(cards.len(), 1);
    assert_eq!(cards[0].id, 93958);
    assert_eq!(cards[0].name, "Ruby");
    assert_eq!(cards[0].mana_cost, Some("{1}{R}".to_string()));
    assert_eq!(cards[0].image_uri, None, "empty text reads back as absent");
    assert!(cards[0].card_faces.is_some());

    assert!(load_card_collection(&bytes[..bytes.len() - 1]).is_err());
}

#[test]
fn database_lookups() {
    let mut collection = CardCollection::new();
    collection.add_card(sample_card());
    let db = CardsDatabase::from_collection(collection);

    let card = db.get(93958).expect("present");
    assert_eq!(card.name, "Ruby");
    assert!(db.get(1).is_none());

    assert_eq!(db.get_pretty_name(93958).expect("known"), "Ruby");
    assert!(db.get_pretty_name(1).is_err());
    assert_eq!(db.get_pretty_name_defaulted(93958), "Ruby");
    assert_eq!(db.get_pretty_name_defaulted(424242), "424242");
    assert_eq!(db.get_pretty_name_defaulted(-3), "-3");
}

#[test]
fn card_readings() {
    let card = sample_card();
    assert_eq!(card.mana_value(), 2);
    assert_eq!(card.dominant_type(), Some(CardType::Creature));
    assert_eq!(
        card.primary_image_uri().as_deref(),
        Some("https://example.invalid/ruby.png")
    );
    assert_eq!(card.cost().render(), "{1}{R}");

    let plain = Card::new(1, "s".to_string(), "A".to_string());
    assert_eq!(plain.dominant_type(), None);
    assert_eq!(plain.mana_value(), 0);
    assert_eq!(plain.primary_image_uri().as_deref(), Some(""));
}

#[test]
fn card_type_names() {
    assert_eq!(CardType::from_str("Creature"), Ok(CardType::Creature));
    assert_eq!(CardType::from_str("  Land  "), Ok(CardType::Land));
    assert_eq!(CardType::from_str("Basic Land"), Ok(CardType::Land));
    assert_eq!(CardType::from_str("Dragon"), Err(CardType::Unknown));
    assert_eq!(CardType::from_str(""), Err(CardType::Unknown));
}

#[test]
fn legacy_and_proto_convert_both_ways() {
    let legacy = LegacyCard {
        id: 5,
        set: "one".to_string(),
        name: "Ruby".to_string(),
        lang: "en".to_string(),
        image_uri: None,
        mana_cost: Some("{R}".to_string()),
        cmc: 1,
        type_line: "Instant".to_string(),
        layout: "normal".to_string(),
        colors: None,
        color_identity: vec!["R".to_string()],
        card_faces: None,
    };
    let proto = legacy_to_proto(&legacy);
    assert_eq!(proto.id, 5);
    assert_eq!(proto.image_uri, "");
    assert_eq!(proto.mana_cost, "{R}");
    assert!(proto.colors.is_empty());
    assert!(proto.card_faces.is_empty());

    let back = proto_to_legacy(&proto);
    assert_eq!(back.id, 5);
    assert_eq!(back.image_uri, None);
    assert_eq!(back.mana_cost, Some("{R}".to_string()));
    assert_eq!(back.colors, None);
    assert_eq!(back.cmc, 1);
    assert_eq!(back.dominant_type(), CardType::Instant);
    assert_eq!(back.image_uri(), "");
    assert_eq!(back.cost().expect("parses").render(), "{R}");
    assert_eq!(back.mana_value(), 1);
}
