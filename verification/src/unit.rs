//! Units of an army list, their rules, equipment and upgrades.
use vstd::prelude::*;
use std::sync::Arc;
use crate::text::{decimal, equals_literal, push_decimal};
use crate::unit_upgrade_option::CostMap;

verus! {

/// A special rule that a unit or a weapon has, with its rating if it has one.
#[derive(Debug)]
pub struct SpecialRule {
    pub name: String,
    pub rating: Option<usize>,
}

/// The definition of a special rule.
#[derive(Debug)]
pub struct SpecialRuleDef {
    pub name: String,
    pub description: String,
}

/// An item of a unit's loadout.
#[derive(Debug)]
pub enum UnitLoadout {
    Equipment(Equipment),
    Upgrade(UnitUpgrade),
}

/// A weapon or a piece of gear.
#[derive(Debug)]
pub struct Equipment {
    pub name: String,
    pub range: usize,
    pub attacks: usize,
    pub count: usize,
    pub special_rules: Vec<Arc<SpecialRule>>,
}

/// An upgrade that grants rules.
#[derive(Debug)]
pub struct UnitUpgrade {
    pub name: String,
    pub content: Vec<Arc<SpecialRule>>,
}

/// An upgrade selected for a unit.
pub struct SelectedUpgrade {
    pub option: UnitUpgradeOption,
}

/// The option of a selected upgrade, with what it costs for each unit.
pub struct UnitUpgradeOption {
    pub costs: CostMap,
}

/// The common rules of a game system.
#[derive(Debug)]
pub struct CommonRules {
    pub rules: Vec<Arc<SpecialRuleDef>>,
}

/// A unit of an army list.
pub struct Unit {
    pub id: String,
    pub name: String,
    pub cost: isize,
    /// The cost with the selected upgrades.
    pub full_cost: isize,
    pub custom_name: Option<String>,
    pub size: usize,
    pub quality: usize,
    pub defense: usize,
    pub special_rules: Vec<Arc<SpecialRule>>,
    /// Whether the unit has the rule "Hero".
    pub is_hero: bool,
    pub loadout: Vec<Arc<UnitLoadout>>,
    pub selected_upgrades: Vec<Arc<SelectedUpgrade>>,
    /// The id of this unit within its army list.
    pub selection_id: String,
    pub combined: bool,
    /// The selection id of the unit that this one joins, if it joins one.
    pub join_to_unit: Option<String>,
}

/// A unit as Army Forge describes it, before its full cost is known.
pub struct JsonUnit {
    pub id: String,
    pub name: String,
    pub cost: isize,
    pub custom_name: Option<String>,
    pub size: usize,
    pub quality: usize,
    pub defense: usize,
    pub rules: Vec<Arc<SpecialRule>>,
    pub loadout: Vec<Arc<UnitLoadout>>,
    pub selected_upgrades: Vec<Arc<SelectedUpgrade>>,
    pub selection_id: String,
    pub combined: bool,
    pub join_to_unit: Option<String>,
}

/// What a selected upgrade costs for the unit `unit_id`: its listed cost,
/// or nothing when the upgrade lists no cost for that unit.
pub open spec fn upgrade_cost(upgrade: SelectedUpgrade, unit_id: Seq<char>) -> int {
    if upgrade.option.costs@.contains_key(unit_id) {
        upgrade.option.costs@[unit_id] as int
    } else {
        0
    }
}

/// What a sequence of selected upgrades costs for the unit `unit_id`.
pub open spec fn upgrades_cost(upgrades: Seq<Arc<SelectedUpgrade>>, unit_id: Seq<char>) -> int
    decreases upgrades.len(),
{
    if upgrades.len() == 0 {
        0
    } else {
        upgrades_cost(upgrades.drop_last(), unit_id) + upgrade_cost(*upgrades.last(), unit_id)
    }
}

/// Adding the upgrades' costs one by one to the base cost stays within `isize`.
pub open spec fn full_cost_fits(json: JsonUnit) -> bool {
    forall|k: int|
        0 <= k <= json.selected_upgrades@.len() ==> isize::MIN <= json.cost + upgrades_cost(
            #[trigger] json.selected_upgrades@.take(k),
            json.id@,
        ) <= isize::MAX
}

/// Whether one of the rules is named `name`.
pub open spec fn has_rule_named(rules: Seq<Arc<SpecialRule>>, name: Seq<char>) -> bool {
    exists|i: int| 0 <= i < rules.len() && (#[trigger] rules[i]).name@ == name
}

/// The name under which a unit is shown: its custom name, if it has a
/// non-empty one, followed by its name in brackets; then its size in square
/// brackets when it has more than one model.
pub open spec fn unit_display_name(unit: Unit) -> Seq<char> {
    let name = match unit.custom_name {
        Some(custom) if custom@.len() > 0 => custom@ + " ("@ + unit.name@ + ")"@,
        _ => unit.name@,
    };
    if unit.size > 1 {
        name + " ["@ + decimal(unit.size as nat) + "]"@
    } else {
        name
    }
}

impl JsonUnit {
    /// The unit's cost with its selected upgrades, or `None` where adding
    /// the upgrades' costs one by one leaves the range of `isize`.
    pub fn full_cost(&self) -> (c: Option<isize>)
        ensures
            full_cost_fits(*self) <==> c is Some,
            c matches Some(c) ==> c == self.cost + upgrades_cost(self.selected_upgrades@, self.id@),
    {
        let ups = &self.selected_upgrades;
        let n = ups.len();
        let mut acc: isize = self.cost;
        let mut i: usize = 0;
        assert(ups@.take(0) =~= Seq::<Arc<SelectedUpgrade>>::empty());
        while i < n
            invariant
                n == ups@.len(),
                ups@ == self.selected_upgrades@,
                0 <= i <= n,
                acc == self.cost + upgrades_cost(ups@.take(i as int), self.id@),
                forall|k: int|
                    0 <= k <= i ==> isize::MIN <= self.cost + upgrades_cost(
                        #[trigger] ups@.take(k),
                        self.id@,
                    ) <= isize::MAX,
            decreases n - i,
        {
            assert(ups@.take(i + 1).drop_last() =~= ups@.take(i as int));
            let costs = &ups[i].option.costs;
            let add: isize = match costs.get(self.id.as_str()) {
                Some(c) => c,
                None => 0,
            };
            assert(ups@.take(i + 1).last() == ups@[i as int]);
            assert(add == upgrade_cost(*ups@[i as int], self.id@));
            let sum: Option<isize> = acc.checked_add(add);
            match sum {
                Some(s) => {
                    acc = s;
                },
                None => {
                    assert(!(isize::MIN <= self.cost + upgrades_cost(ups@.take(i + 1), self.id@)
                        <= isize::MAX));
                    return None;
                },
            }
            i = i + 1;
        }
        assert(ups@.take(n as int) =~= ups@);
        Some(acc)
    }
}

/// Whether one of the rules is named "Hero".
fn has_hero_rule(rules: &Vec<Arc<SpecialRule>>) -> (b: bool)
    ensures
        b == has_rule_named(rules@, "Hero"@),
{
    let n = rules.len();
    let mut i: usize = 0;
    while i < n
        invariant
            n == rules@.len(),
            0 <= i <= n,
            forall|j: int| 0 <= j < i ==> (#[trigger] rules@[j]).name@ != "Hero"@,
        decreases n - i,
    {
        if equals_literal(&rules[i].name, "Hero") {
            return true;
        }
        i = i + 1;
    }
    false
}

impl Unit {
    /// Builds a unit from its description: its full cost is its cost with
    /// the selected upgrades, and it is a hero when it has the rule "Hero".
    pub fn from_json(json: JsonUnit) -> (unit: Unit)
        requires
            full_cost_fits(json),
        ensures
            unit.id == json.id,
            unit.name == json.name,
            unit.cost == json.cost,
            unit.full_cost == json.cost + upgrades_cost(json.selected_upgrades@, json.id@),
            unit.custom_name == json.custom_name,
            unit.size == json.size,
            unit.quality == json.quality,
            unit.defense == json.defense,
            unit.special_rules == json.rules,
            unit.is_hero == has_rule_named(json.rules@, "Hero"@),
            unit.loadout == json.loadout,
            unit.selected_upgrades == json.selected_upgrades,
            unit.selection_id == json.selection_id,
            unit.combined == json.combined,
            unit.join_to_unit == json.join_to_unit,
    {
        let full_cost = match json.full_cost() {
            Some(c) => c,
            None => json.cost,
        };
        let is_hero = has_hero_rule(&json.rules);
        Unit {
            id: json.id,
            name: json.name,
            cost: json.cost,
            full_cost,
            custom_name: json.custom_name,
            size: json.size,
            quality: json.quality,
            defense: json.defense,
            special_rules: json.rules,
            is_hero,
            loadout: json.loadout,
            selected_upgrades: json.selected_upgrades,
            selection_id: json.selection_id,
            combined: json.combined,
            join_to_unit: json.join_to_unit,
        }
    }

    /// The name under which the unit is shown, such as "Captain (Hero) [3]".
    pub fn formatted_name(&self) -> (s: String)
        ensures
            s@ == unit_display_name(*self),
    {
        let mut name = match &self.custom_name {
            Some(custom) if !custom.as_str().is_empty() => {
                let mut n = custom.clone();
                n.append(" (");
                n.append(self.name.as_str());
                n.append(")");
                n
            },
            _ => self.name.clone(),
        };
        if self.size > 1 {
            name.append(" [");
            push_decimal(&mut name, self.size);
            name.append("]");
        }
        name
    }
}

} // verus!

verus! {

/// One more selected upgrade adds its cost for the unit, if it lists one,
/// to the unit's full cost (as `Unit::from_json` computes it), and leaves the
/// unit a hero or not as before.
pub proof fn lemma_one_more_upgrade(j1: JsonUnit, j2: JsonUnit, upgrade: Arc<SelectedUpgrade>)
    requires
        j2.id == j1.id,
        j2.cost == j1.cost,
        j2.rules == j1.rules,
        j2.selected_upgrades@ == j1.selected_upgrades@.push(upgrade),
    ensures
        j2.cost + upgrades_cost(j2.selected_upgrades@, j2.id@) == j1.cost + upgrades_cost(
            j1.selected_upgrades@,
            j1.id@,
        ) + upgrade_cost(*upgrade, j1.id@),
        j2.cost + upgrades_cost(j2.selected_upgrades@, j2.id@) == j1.cost + upgrades_cost(
            j1.selected_upgrades@,
            j1.id@,
        ) + if upgrade.option.costs@.contains_key(j1.id@) {
            upgrade.option.costs@[j1.id@] as int
        } else {
            0
        },
        has_rule_named(j2.rules@, "Hero"@) == has_rule_named(j1.rules@, "Hero"@),
{
    assert(j2.selected_upgrades@.drop_last() =~= j1.selected_upgrades@);
}

} // verus!

verus! {

/// A rule named `name` at any position makes `has_rule_named` hold, and it
/// holds only when some rule has that name: so `Unit::from_json` makes a unit
/// a hero exactly when one of its rules, wherever it stands, is "Hero".
pub proof fn lemma_rule_named_anywhere(rules: Seq<Arc<SpecialRule>>, name: Seq<char>, i: int)
    requires
        0 <= i < rules.len(),
        rules[i].name@ == name,
    ensures
        has_rule_named(rules, name),
        has_rule_named(rules.push(rules[i]), name),
        forall|r: Arc<SpecialRule>| has_rule_named(#[trigger] rules.push(r), name),
{
    assert(rules.push(rules[i])[i] == rules[i]);
    assert forall|r: Arc<SpecialRule>| has_rule_named(#[trigger] rules.push(r), name) by {
        assert(rules.push(r)[i] == rules[i]);
    }
}

/// Without a rule named `name`, `has_rule_named` does not hold.
pub proof fn lemma_no_rule_named(rules: Seq<Arc<SpecialRule>>, name: Seq<char>)
    requires
        forall|i: int| 0 <= i < rules.len() ==> (#[trigger] rules[i]).name@ != name,
    ensures
        !has_rule_named(rules, name),
{
}

/// A unit with more than one model shows its size: its name ends with
/// " [", the size in decimal digits, and "]"; a unit of one model (or none)
/// shows no size: its name is its custom name with its name in brackets, or
/// its name alone.
pub proof fn lemma_display_name_size(unit: Unit)
    ensures
        unit.size > 1 ==> {
            let s = unit_display_name(unit);
            let tail = " ["@ + decimal(unit.size as nat) + "]"@;
            &&& s.len() >= tail.len()
            &&& s.skip(s.len() - tail.len()) == tail
        },
        unit.size <= 1 ==> unit_display_name(unit) == match unit.custom_name {
            Some(custom) => if custom@.len() > 0 {
                custom@ + " ("@ + unit.name@ + ")"@
            } else {
                unit.name@
            },
            None => unit.name@,
        },
{
    if unit.size > 1 {
        let s = unit_display_name(unit);
        let tail = " ["@ + decimal(unit.size as nat) + "]"@;
        assert(s.skip(s.len() - tail.len()) =~= tail);
    }
}

/// `s` begins with `head`.
pub open spec fn starts_with(s: Seq<char>, head: Seq<char>) -> bool {
    s.len() >= head.len() && s.take(head.len() as int) == head
}

/// A unit with a non-empty custom name shows it first, then its name in
/// brackets; otherwise its name comes first.
pub proof fn lemma_display_name_start(unit: Unit)
    ensures
        match unit.custom_name {
            Some(custom) => if custom@.len() > 0 {
                starts_with(unit_display_name(unit), custom@ + " ("@ + unit.name@ + ")"@)
            } else {
                starts_with(unit_display_name(unit), unit.name@)
            },
            None => starts_with(unit_display_name(unit), unit.name@),
        },
{
    let s = unit_display_name(unit);
    match unit.custom_name {
        Some(custom) => {
            if custom@.len() > 0 {
                let head = custom@ + " ("@ + unit.name@ + ")"@;
                assert(s.take(head.len() as int) =~= head);
            } else {
                assert(s.take(unit.name@.len() as int) =~= unit.name@);
            }
        },
        None => {
            assert(s.take(unit.name@.len() as int) =~= unit.name@);
        },
    }
}

} // verus!

verus! {

/// Without selected upgrades, a unit's full cost is its cost.
pub proof fn lemma_no_upgrades(json: JsonUnit)
    requires
        json.selected_upgrades@.len() == 0,
    ensures
        json.cost + upgrades_cost(json.selected_upgrades@, json.id@) == json.cost,
        full_cost_fits(json),
{
    assert forall|k: int| 0 <= k <= json.selected_upgrades@.len() implies isize::MIN <= json.cost + upgrades_cost(
        #[trigger] json.selected_upgrades@.take(k),
        json.id@,
    ) <= isize::MAX by {
        assert(json.selected_upgrades@.take(k).len() == 0);
    }
}

} // verus!
