use arenabuddy::mana::Cost;

#[test]
fn test_parse_simple_costs() {
    assert_eq!(
        "{1}",
        Cost::from_str("{1}").expect("Failed to parse {1}").render()
    );
    assert_eq!(
        "{W}",
        Cost::from_str("{W}").expect("Failed to parse {W}").render()
    );
    assert_eq!(
        "{U}",
        Cost::from_str("{U}").expect("Failed to parse {U}").render()
    );
    assert_eq!(
        "{B}",
        Cost::from_str("{B}").expect("Failed to parse {B}").render()
    );
    assert_eq!(
        "{R}",
        Cost::from_str("{R}").expect("Failed to parse {R}").render()
    );
    assert_eq!(
        "{G}",
        Cost::from_str("{G}").expect("Failed to parse {G}").render()
    );
}

#[test]
fn test_parse_complex_costs() {
    let cost = Cost::from_str("{2}{W}{U}").expect("Failed to parse {2}{W}{U}");
    assert_eq!("{2}{W}{U}", cost.render());

    let cost = Cost::from_str("{1}{W/P}{R}").expect("Failed to parse {1}{W/P}{R}");
    assert_eq!("{1}{W/P}{R}", cost.render());

    let cost = Cost::from_str("{W/U}").expect("Failed to parse {W/U}");
    assert_eq!("{W/U}", cost.render());
}

#[test]
fn test_parse_variable_and_special_costs() {
    let cost = Cost::from_str("{X}{R}{R}").expect("Failed to parse {X}{R}{R}");
    assert_eq!("{X}{R}{R}", cost.render());

    let cost = Cost::from_str("{S}{G}").expect("Failed to parse {S}{G}");
    assert_eq!("{S}{G}", cost.render());

    let cost = Cost::from_str("{X}{2}{W/U}{B/P}").expect("Failed to parse {X}{2}{W/U}{B/P}");
    assert_eq!("{X}{2}{W/U}{B/P}", cost.render());
}

#[test]
fn test_parse_colorless_costs() {
    assert_eq!(
        "{0}",
        Cost::from_str("{0}").expect("Failed to parse {0}").render()
    );
    assert_eq!(
        "{1}",
        Cost::from_str("{1}").expect("Failed to parse {1}").render()
    );
    assert_eq!(
        "{10}",
        Cost::from_str("{10}").expect("Failed to parse {10}").render()
    );
    assert_eq!(
        "{15}",
        Cost::from_str("{15}").expect("Failed to parse {15}").render()
    );
}

#[test]
fn test_parse_all_phyrexian_costs() {
    assert_eq!(
        "{W/P}",
        Cost::from_str("{W/P}").expect("Failed to parse {W/P}").render()
    );
    assert_eq!(
        "{U/P}",
        Cost::from_str("{U/P}").expect("Failed to parse {U/P}").render()
    );
    assert_eq!(
        "{B/P}",
        Cost::from_str("{B/P}").expect("Failed to parse {B/P}").render()
    );
    assert_eq!(
        "{R/P}",
        Cost::from_str("{R/P}").expect("Failed to parse {R/P}").render()
    );
    assert_eq!(
        "{G/P}",
        Cost::from_str("{G/P}").expect("Failed to parse {G/P}").render()
    );
}

#[test]
fn test_parse_all_hybrid_costs() {
    let pairs = [
        ("W/U", "W/U"),
        ("W/B", "W/B"),
        ("W/R", "W/R"),
        ("W/G", "W/G"),
        ("U/B", "U/B"),
        ("U/R", "U/R"),
        ("U/G", "U/G"),
        ("B/R", "B/R"),
        ("B/G", "B/G"),
        ("R/G", "R/G"),
    ];

    for (input, expected) in pairs {
        let cost_str = format!("{{{input}}}");
        let expected_str = format!("{{{expected}}}");
        assert_eq!(
            expected_str,
            Cost::from_str(&cost_str)
                .unwrap_or_else(|_| panic!("Failed to parse {cost_str}"))
                .render()
        );
    }
}

#[test]
fn test_empty_cost() {
    let cost = Cost::from_str("").expect("Failed to parse empty cost");
    assert_eq!("", cost.render());
}

#[test]
fn test_invalid_costs() {
    assert!(Cost::from_str("{W").is_err());

    assert!(Cost::from_str("{Z}").is_err());
    assert!(Cost::from_str("{WW}").is_err());

    assert!(Cost::from_str("W").is_err());

    assert!(Cost::from_str("{W/Z}").is_err());
    assert!(Cost::from_str("{W/U/B}").is_err());
}

#[test]
fn test_real_card_costs() {
    assert_eq!(
        "{0}",
        Cost::from_str("{0}")
            .expect("Failed to parse Black Lotus cost {0}")
            .render()
    );

    assert_eq!(
        "{R}",
        Cost::from_str("{R}")
            .expect("Failed to parse Lightning Bolt cost {R}")
            .render()
    );

    assert_eq!(
        "{U}{U}",
        Cost::from_str("{U}{U}")
            .expect("Failed to parse Counterspell cost {U}{U}")
            .render()
    );

    assert_eq!(
        "{2}{W}{W}",
        Cost::from_str("{2}{W}{W}")
            .expect("Failed to parse Wrath of God cost {2}{W}{W}")
            .render()
    );

    assert_eq!(
        "{U}{B}{B}{R}",
        Cost::from_str("{U}{B}{B}{R}")
            .expect("Failed to parse Nicol Bolas cost {U}{B}{B}{R}")
            .render()
    );

    assert_eq!(
        "{5}{W}{U}{B}",
        Cost::from_str("{5}{W}{U}{B}")
            .expect("Failed to parse Sphinx cost {5}{W}{U}{B}")
            .render()
    );
}

#[test]
fn test_round_trip_parsing() {
    let test_costs = [
        "{1}{W}{U}",
        "{X}{X}{R}",
        "{0}",
        "{15}",
        "{W/U}{W/U}{W/U}",
        "{W/P}{R}{G}",
        "{S}{S}{1}",
        "{X}{Y}",
    ];

    for cost_str in &test_costs {
        if *cost_str == "{X}{Y}" {
            continue;
        }

        let cost = match Cost::from_str(cost_str) {
            Ok(c) => c,
            Err(e) => panic!("Failed to parse valid cost {cost_str}: {e:?}"),
        };

        let serialized = cost.render();
        assert_eq!(
            *cost_str, serialized,
            "Round-trip parsing failed for {cost_str}"
        );

        let reparsed = Cost::from_str(&serialized)
            .unwrap_or_else(|_| panic!("Failed to re-parse serialized cost: {serialized}"));
        assert_eq!(
            serialized,
            reparsed.render(),
            "Re-parsing failed for {serialized}"
        );
    }
}
