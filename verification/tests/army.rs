use opr::{Army, GameSystem, GroupingFault, JsonArmy, SpecialRuleDef, Unit, UnitGroup};
use std::sync::Arc;

fn unit(sel: &str, join: Option<&str>, name: &str, hero: bool, full_cost: isize) -> Arc<Unit> {
    Arc::new(Unit {
        id: format!("id-{sel}"),
        name: name.to_string(),
        cost: full_cost,
        full_cost,
        custom_name: None,
        size: 1,
        quality: 4,
        defense: 4,
        special_rules: vec![],
        is_hero: hero,
        loadout: vec![],
        selected_upgrades: vec![],
        selection_id: sel.to_string(),
        combined: false,
        join_to_unit: join.map(|j| j.to_string()),
    })
}

fn json_army(game_system: &str, units: Vec<Arc<Unit>>) -> JsonArmy {
    JsonArmy {
        id: "army".to_string(),
        name: "Test Army".to_string(),
        game_system: game_system.to_string(),
        special_rules: vec![Arc::new(SpecialRuleDef {
            name: "Hero".to_string(),
            description: "Leads".to_string(),
        })],
        units,
    }
}

fn names(group: &UnitGroup) -> Vec<String> {
    group.units.iter().map(|u| u.name.clone()).collect()
}

#[test]
fn joined_units_share_a_group() {
    let units = vec![
        unit("a", None, "Squad A", false, 100),
        unit("b", Some("a"), "Captain", true, 50),
        unit("c", None, "Squad C", false, 80),
        unit("d", Some("e"), "Sergeant", true, 30),
        unit("e", None, "Squad E", false, 70),
    ];
    let json = json_army("GF", units);
    assert_eq!(json.grouping_fault(), None);
    let army = Army::from_json(json);
    assert_eq!(army.id, "army");
    assert_eq!(army.name, "Test Army");
    assert_eq!(army.game_system, Ok(GameSystem::GF));
    assert_eq!(army.special_rules.len(), 1);
    assert_eq!(army.unit_groups.len(), 3);
    assert_eq!(names(&army.unit_groups[0]), vec!["Captain", "Squad A"]);
    assert_eq!(army.unit_groups[0].full_cost, 150);
    assert_eq!(names(&army.unit_groups[1]), vec!["Squad C"]);
    assert_eq!(army.unit_groups[1].full_cost, 80);
    assert_eq!(names(&army.unit_groups[2]), vec!["Sergeant", "Squad E"]);
    assert_eq!(army.unit_groups[2].full_cost, 100);
}

#[test]
fn heroes_lead_their_group() {
    let units = vec![
        unit("a", None, "Squad", false, 10),
        unit("b", Some("a"), "Hero One", true, 20),
        unit("c", Some("a"), "Support", false, 30),
        unit("d", Some("a"), "Hero Two", true, 40),
    ];
    let army = Army::from_json(json_army("aof", units));
    assert_eq!(army.game_system, Ok(GameSystem::AoF));
    assert_eq!(army.unit_groups.len(), 1);
    assert_eq!(names(&army.unit_groups[0]), vec!["Hero One", "Hero Two", "Squad", "Support"]);
    assert_eq!(army.unit_groups[0].full_cost, 100);
    assert_eq!(
        army.unit_groups[0].formatted_name(),
        "Hero One + Hero Two + Squad + Support"
    );
}

#[test]
fn a_unit_may_join_a_later_one() {
    let units = vec![
        unit("h", Some("s"), "Hero", true, 5),
        unit("s", None, "Squad", false, 6),
        unit("t", Some("s"), "Tank", false, 7),
    ];
    let army = Army::from_json(json_army("GFF", units));
    assert_eq!(army.unit_groups.len(), 1);
    assert_eq!(names(&army.unit_groups[0]), vec!["Hero", "Squad", "Tank"]);
    assert_eq!(army.unit_groups[0].full_cost, 18);
}

#[test]
fn last_unit_with_a_selection_id_stands() {
    let units = vec![
        unit("a", None, "First", false, 1),
        unit("a", None, "Second", false, 2),
    ];
    let army = Army::from_json(json_army("GF", units));
    assert_eq!(army.unit_groups.len(), 1);
    assert_eq!(names(&army.unit_groups[0]), vec!["Second"]);
    assert_eq!(army.unit_groups[0].full_cost, 2);
}

#[test]
fn a_unit_joining_itself_stands_alone() {
    let units = vec![unit("a", Some("a"), "Loner", false, 3)];
    let army = Army::from_json(json_army("GF", units));
    assert_eq!(army.unit_groups.len(), 1);
    assert_eq!(names(&army.unit_groups[0]), vec!["Loner"]);
}

#[test]
fn unknown_game_system_is_kept_as_error() {
    let army = Army::from_json(json_army("Warhammer", vec![]));
    assert_eq!(
        army.game_system,
        Err("cannot find GameSystem for \"Warhammer\"".to_string())
    );
    assert_eq!(army.unit_groups.len(), 0);
}

#[test]
fn merging_groups_is_a_fault() {
    let units = vec![
        unit("a", Some("b"), "A", false, 1),
        unit("c", None, "C", false, 1),
        unit("b", Some("c"), "B", false, 1),
    ];
    assert_eq!(json_army("GF", units).grouping_fault(), Some(GroupingFault::MergedGroups));
    let units = vec![unit("a", Some("b"), "A", false, 1), unit("b", Some("a"), "B", false, 1)];
    assert_eq!(json_army("GF", units).grouping_fault(), Some(GroupingFault::MergedGroups));
}

#[test]
fn joining_a_missing_unit_is_a_fault() {
    let units = vec![unit("a", Some("zz"), "A", false, 1)];
    assert_eq!(json_army("GF", units).grouping_fault(), Some(GroupingFault::UnknownJoin));
}

#[test]
fn overflowing_group_cost_is_a_fault() {
    let units = vec![
        unit("a", None, "A", false, isize::MAX),
        unit("b", Some("a"), "B", false, 1),
    ];
    assert_eq!(json_army("GF", units).grouping_fault(), Some(GroupingFault::CostOverflow));
    let units = vec![
        unit("a", None, "A", false, isize::MAX),
        unit("b", None, "B", false, 1),
    ];
    assert_eq!(json_army("GF", units).grouping_fault(), None);
    let units = vec![
        unit("a", None, "A", false, isize::MAX),
        unit("b", Some("a"), "B", false, -1),
        unit("c", Some("a"), "C", false, 1),
    ];
    assert_eq!(json_army("GF", units).grouping_fault(), Some(GroupingFault::CostOverflow));
}

#[test]
fn group_name_of_one_unit_has_no_separator() {
    let army = Army::from_json(json_army("GF", vec![unit("a", None, "Solo", false, 1)]));
    assert_eq!(army.unit_groups[0].formatted_name(), "Solo");
    let empty = UnitGroup { units: vec![], full_cost: 0 };
    assert_eq!(empty.formatted_name(), "");
}

#[test]
fn groups_cost_what_the_units_cost() {
    let units = vec![
        unit("a", None, "A", false, 100),
        unit("b", Some("a"), "B", true, 40),
        unit("c", None, "C", false, -5),
        unit("d", Some("f"), "D", true, 25),
        unit("e", Some("b"), "E", false, 10),
        unit("f", None, "F", false, 60),
    ];
    let total: isize = units.iter().map(|u| u.full_cost).sum();
    let army = Army::from_json(json_army("GF", units));
    let groups_total: isize = army.unit_groups.iter().map(|g| g.full_cost).sum();
    assert_eq!(groups_total, total);
    assert_eq!(army.unit_groups.len(), 3);
}

#[test]
fn chained_joins_form_one_group() {
    let units = vec![
        unit("a", None, "A", false, 1),
        unit("b", Some("a"), "B", false, 2),
        unit("c", Some("b"), "C", false, 3),
        unit("d", None, "D", false, 4),
    ];
    let army = Army::from_json(json_army("GF", units));
    assert_eq!(army.unit_groups.len(), 2);
    assert_eq!(names(&army.unit_groups[0]), vec!["A", "B", "C"]);
    assert_eq!(names(&army.unit_groups[1]), vec!["D"]);
}
