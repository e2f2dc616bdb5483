use opr::tts;
use opr::unit_upgrade_option::{deserialize, serialize};
use opr::{Cost, JsonUnit, SelectedUpgrade, SpecialRule, Unit, UnitUpgradeOption};
use std::rc::Rc;
use std::sync::Arc;

fn rule(name: &str) -> Arc<SpecialRule> {
    Arc::new(SpecialRule { name: name.to_string(), rating: None })
}

fn upgrade(costs: &[(&str, isize)]) -> Arc<SelectedUpgrade> {
    let records = costs
        .iter()
        .map(|(id, cost)| Cost { cost: *cost, unit_id: id.to_string() })
        .collect();
    Arc::new(SelectedUpgrade { option: UnitUpgradeOption { costs: deserialize(records) } })
}

fn json_unit(id: &str, cost: isize, rules: Vec<Arc<SpecialRule>>, upgrades: Vec<Arc<SelectedUpgrade>>) -> JsonUnit {
    JsonUnit {
        id: id.to_string(),
        name: "Captain".to_string(),
        cost,
        custom_name: None,
        size: 1,
        quality: 4,
        defense: 4,
        rules,
        loadout: vec![],
        selected_upgrades: upgrades,
        selection_id: "sel".to_string(),
        combined: false,
        join_to_unit: Some("other".to_string()),
    }
}

fn unit_named(name: &str, custom_name: Option<&str>, size: usize) -> Unit {
    let json = JsonUnit {
        custom_name: custom_name.map(|s| s.to_string()),
        size,
        name: name.to_string(),
        ..json_unit("u", 10, vec![], vec![])
    };
    Unit::from_json(json)
}

#[test]
fn full_cost_adds_upgrades_for_this_unit() {
    let ups = vec![
        upgrade(&[("u1", 15), ("u2", 100)]),
        upgrade(&[("u2", 7)]),
        upgrade(&[("u1", -5)]),
    ];
    let unit = Unit::from_json(json_unit("u1", 40, vec![], ups));
    assert_eq!(unit.full_cost, 50);
    assert_eq!(unit.cost, 40);
    assert_eq!(unit.id, "u1");
    assert_eq!(unit.selection_id, "sel");
    assert_eq!(unit.join_to_unit, Some("other".to_string()));
    assert_eq!(unit.selected_upgrades.len(), 3);
}

#[test]
fn full_cost_without_upgrades() {
    let unit = Unit::from_json(json_unit("u1", 40, vec![], vec![]));
    assert_eq!(unit.full_cost, 40);
}

#[test]
fn full_cost_overflow_is_reported() {
    let ups = vec![upgrade(&[("u1", isize::MAX)]), upgrade(&[("u1", -10)])];
    let json = json_unit("u1", 1, vec![], ups);
    assert_eq!(json.full_cost(), None);
    let ups = vec![upgrade(&[("u1", -10)]), upgrade(&[("u1", isize::MAX)])];
    let json = json_unit("u1", 1, vec![], ups);
    assert_eq!(json.full_cost(), Some(isize::MAX - 9));
}

#[test]
fn hero_rule_makes_a_hero() {
    let unit = Unit::from_json(json_unit("u", 1, vec![rule("Tough"), rule("Hero")], vec![]));
    assert!(unit.is_hero);
    assert_eq!(unit.special_rules.len(), 2);
    let unit = Unit::from_json(json_unit("u", 1, vec![rule("hero"), rule("Heroic")], vec![]));
    assert!(!unit.is_hero);
    let unit = Unit::from_json(json_unit("u", 1, vec![], vec![]));
    assert!(!unit.is_hero);
}

#[test]
fn formatted_name_cases() {
    assert_eq!(unit_named("Captain", None, 1).formatted_name(), "Captain");
    assert_eq!(unit_named("Captain", Some(""), 1).formatted_name(), "Captain");
    assert_eq!(unit_named("Captain", Some("Bob"), 1).formatted_name(), "Bob (Captain)");
    assert_eq!(unit_named("Troopers", None, 10).formatted_name(), "Troopers [10]");
    assert_eq!(unit_named("Troopers", Some("Reds"), 125).formatted_name(), "Reds (Troopers) [125]");
    assert_eq!(unit_named("Bikes", None, 0).formatted_name(), "Bikes");
}

fn tts_unit(name: &str, custom_name: &str, size: usize) -> tts::Unit {
    tts::Unit {
        id: "x".to_string(),
        name: name.to_string(),
        cost: 10,
        custom_name: custom_name.to_string(),
        size,
        quality: 3,
        defense: 3,
        special_rules: vec![Rc::new(tts::SpecialRule { name: "Hero".to_string(), rating: "".to_string() })],
        loadout: vec![],
        selection_id: "s".to_string(),
        combined: false,
        join_to_unit: None,
    }
}

#[test]
fn tts_formatted_name_cases() {
    assert_eq!(tts_unit("Captain", "", 1).formatted_name(), "Captain");
    assert_eq!(tts_unit("Captain", "Bob", 1).formatted_name(), "Bob (Captain)");
    assert_eq!(tts_unit("Troopers", "", 5).formatted_name(), "Troopers [5]");
    assert_eq!(tts_unit("Troopers", "Reds", 20).formatted_name(), "Reds (Troopers) [20]");
}

#[test]
fn costs_later_record_wins() {
    let m = deserialize(vec![
        Cost { cost: 5, unit_id: "a".to_string() },
        Cost { cost: 7, unit_id: "b".to_string() },
        Cost { cost: 9, unit_id: "a".to_string() },
    ]);
    assert_eq!(m.get("a"), Some(9));
    assert_eq!(m.get("b"), Some(7));
    assert_eq!(m.get("c"), None);
    assert!(m.contains_key("b"));
    assert!(!m.contains_key("c"));
    let listed: Vec<(String, isize)> = serialize(&m).into_iter().map(|c| (c.unit_id, c.cost)).collect();
    assert_eq!(listed, vec![("a".to_string(), 9), ("b".to_string(), 7)]);
}

#[test]
fn costs_listing_reads_back() {
    let m = deserialize(vec![
        Cost { cost: 1, unit_id: "x".to_string() },
        Cost { cost: -3, unit_id: "y".to_string() },
        Cost { cost: 4, unit_id: "x".to_string() },
    ]);
    let again = deserialize(serialize(&m));
    for k in ["x", "y", "z"] {
        assert_eq!(again.get(k), m.get(k));
    }
    assert_eq!(serialize(&again).len(), 2);
    assert_eq!(serialize(&opr::CostMap::new()).len(), 0);
}

#[test]
fn one_more_upgrade_adds_its_cost() {
    let base = vec![upgrade(&[("u1", 15)])];
    let mut more = base.clone();
    more.push(upgrade(&[("u1", 7), ("u2", 99)]));
    let u1 = Unit::from_json(json_unit("u1", 40, vec![rule("Hero")], base));
    let u2 = Unit::from_json(json_unit("u1", 40, vec![rule("Hero")], more));
    assert_eq!(u2.full_cost, u1.full_cost + 7);
    assert_eq!(u1.is_hero, u2.is_hero);
}
