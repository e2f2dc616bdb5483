//! Army lists, with their units in groups.
use vstd::prelude::*;
use vstd::hash_map::StringHashMap;
use std::sync::Arc;
use crate::grouping::{
    added_ids, lemma_added_ids, lemma_group_links_sum, lemma_sum_ids_reordered, sum_groups, sum_ids,
    group_links, lemma_every_link_grouped, lemma_group_links_ids, lemma_group_links_well_formed,
    lemma_joined_share_group, lemma_link_well_formed, link, merge_free, merges, well_formed, Grouping,
};
use crate::unit::{unit_display_name, SpecialRuleDef, Unit};
use crate::text::{join_with, joined, views_of};
use crate::game_system::{game_system_of_name, unknown_game_system_message, GameSystem};

verus! {

/// A group of units that take the field together: a unit and the units that
/// join it, heroes first.
pub struct UnitGroup {
    pub units: Vec<Arc<Unit>>,
    pub full_cost: isize,
}

/// The link of a unit: its selection id, and the selection id of the unit
/// that it joins, if any.
pub open spec fn unit_link(u: Arc<Unit>) -> (Seq<char>, Option<Seq<char>>) {
    (
        u.selection_id@,
        match u.join_to_unit {
            Some(j) => Some(j@),
            None => None,
        },
    )
}

/// The links of a sequence of units.
pub open spec fn unit_links(units: Seq<Arc<Unit>>) -> Seq<(Seq<char>, Option<Seq<char>>)> {
    units.map_values(|u: Arc<Unit>| unit_link(u))
}

/// Each selection id with the last unit that has it.
pub open spec fn units_by_selection(units: Seq<Arc<Unit>>) -> Map<Seq<char>, Arc<Unit>>
    decreases units.len(),
{
    if units.len() == 0 {
        Map::empty()
    } else {
        units_by_selection(units.drop_last()).insert(units.last().selection_id@, units.last())
    }
}

/// The ids of the groups of a sequence of units.
pub open spec fn unit_grouping(units: Seq<Arc<Unit>>) -> Grouping {
    group_links(unit_links(units))
}

/// The lists of strings hold the ids of the groups.
spec fn lists_members(members: Seq<Vec<String>>, ids: Seq<Seq<Seq<char>>>) -> bool {
    &&& members.len() == ids.len()
    &&& forall|i: int| 0 <= i < members.len() ==> (#[trigger] members[i])@.len() == ids[i].len()
    &&& forall|i: int, p: int|
        0 <= i < members.len() && 0 <= p < members[i]@.len() ==> (#[trigger] members[i]@[p])@
            == ids[i][p]
}

/// What the exec state holds matches a grouping.
spec fn matches_grouping(
    members: Seq<Vec<String>>,
    group_of: Map<Seq<char>, usize>,
    g: Grouping,
) -> bool {
    &&& lists_members(members, g.members)
    &&& forall|k: Seq<char>| #[trigger] group_of.contains_key(k) == g.group_of.contains_key(k)
    &&& forall|k: Seq<char>| #[trigger] group_of.contains_key(k) ==> group_of[k] as int == g.group_of[k]
}

/// Groups the selection ids of the units, and indexes the units by
/// selection id; `None` where a unit links two ids that are both in groups
/// already.
fn group_selections(units: &Vec<Arc<Unit>>) -> (res: Option<(Vec<Vec<String>>, StringHashMap<Arc<Unit>>)>)
    ensures
        res is Some <==> merge_free(unit_links(units@)),
        res matches Some(r) ==> {
            &&& lists_members(r.0@, unit_grouping(units@).members)
            &&& r.1@ == units_by_selection(units@)
        },
{
    let mut members: Vec<Vec<String>> = Vec::new();
    let mut group_of: StringHashMap<usize> = StringHashMap::new();
    let mut by_selection: StringHashMap<Arc<Unit>> = StringHashMap::new();
    let n = units.len();
    let mut i: usize = 0;
    while i < n
        invariant
            n == units@.len(),
            0 <= i <= n,
            forall|k: int|
                0 <= k < i ==> !merges(
                    group_links(#[trigger] unit_links(units@).take(k)),
                    unit_links(units@)[k].0,
                    unit_links(units@)[k].1,
                ),
            matches_grouping(members@, group_of@, unit_grouping(units@.take(i as int))),
            well_formed(unit_grouping(units@.take(i as int))),
            by_selection@ == units_by_selection(units@.take(i as int)),
        decreases n - i,
    {
        let ghost g = unit_grouping(units@.take(i as int));
        let u = &units[i];
        proof {
            assert(units@.take(i + 1).drop_last() =~= units@.take(i as int));
            assert(unit_links(units@.take(i + 1)).drop_last() =~= unit_links(units@.take(i as int)));
            assert(unit_links(units@).take(i as int) =~= unit_links(units@.take(i as int)));
            assert(unit_links(units@)[i as int] == unit_link(*u));
            lemma_link_well_formed(g, unit_link(*u).0, unit_link(*u).1);
        }
        let sel = &u.selection_id;
        let at_sel: Option<usize> = match group_of.get(sel.as_str()) {
            Some(gi) => Some(*gi),
            None => None,
        };
        match &u.join_to_unit {
            None => {
                if at_sel.is_none() {
                    let ng = members.len();
                    let mut fresh: Vec<String> = Vec::new();
                    fresh.push(sel.clone());
                    members.push(fresh);
                    group_of.insert(sel.clone(), ng);
                }
            },
            Some(j) => {
                let at_join: Option<usize> = match group_of.get(j.as_str()) {
                    Some(gi) => Some(*gi),
                    None => None,
                };
                match (at_sel, at_join) {
                    (Some(gi), None) => {
                        members[gi].push(j.clone());
                        group_of.insert(j.clone(), gi);
                    },
                    (None, Some(gi)) => {
                        members[gi].push(sel.clone());
                        group_of.insert(sel.clone(), gi);
                    },
                    (None, None) => {
                        let ng = members.len();
                        let mut fresh: Vec<String> = Vec::new();
                        if *j == *sel {
                            fresh.push(sel.clone());
                            members.push(fresh);
                            group_of.insert(sel.clone(), ng);
                        } else {
                            fresh.push(j.clone());
                            fresh.push(sel.clone());
                            members.push(fresh);
                            group_of.insert(j.clone(), ng);
                            group_of.insert(sel.clone(), ng);
                        }
                    },
                    (Some(_), Some(_)) => {
                        assert(merges(
                            group_links(unit_links(units@).take(i as int)),
                            unit_links(units@)[i as int].0,
                            unit_links(units@)[i as int].1,
                        ));
                        return None;
                    },
                }
            },
        }
        by_selection.insert(sel.clone(), Arc::clone(u));
        proof {
            let g2 = unit_grouping(units@.take(i + 1));
            assert(g2 == link(g, unit_link(*u).0, unit_link(*u).1));
            assert(matches_grouping(members@, group_of@, g2));
        }
        i = i + 1;
    }
    assert(units@.take(n as int) =~= units@);
    Some((members, by_selection))
}

} // verus!

verus! {

/// A unit is a hero.
pub open spec fn is_hero_unit() -> spec_fn(Arc<Unit>) -> bool {
    |u: Arc<Unit>| u.is_hero
}

/// A unit is not a hero.
pub open spec fn is_not_hero_unit() -> spec_fn(Arc<Unit>) -> bool {
    |u: Arc<Unit>| !u.is_hero
}

/// The units, heroes first, each kind in the order given.
pub open spec fn heroes_first(units: Seq<Arc<Unit>>) -> Seq<Arc<Unit>> {
    units.filter(is_hero_unit()) + units.filter(is_not_hero_unit())
}

/// The sum of a weight over units.
pub open spec fn sum_by(units: Seq<Arc<Unit>>, w: spec_fn(Arc<Unit>) -> int) -> int
    decreases units.len(),
{
    if units.len() == 0 {
        0
    } else {
        sum_by(units.drop_last(), w) + w(units.last())
    }
}

/// A unit's full cost.
pub open spec fn cost_weight() -> spec_fn(Arc<Unit>) -> int {
    |u: Arc<Unit>| u.full_cost as int
}

/// A unit's full cost where it is positive, else nothing.
pub open spec fn gain_weight() -> spec_fn(Arc<Unit>) -> int {
    |u: Arc<Unit>| if u.full_cost > 0 { u.full_cost as int } else { 0 }
}

/// A unit's full cost where it is negative, else nothing.
pub open spec fn loss_weight() -> spec_fn(Arc<Unit>) -> int {
    |u: Arc<Unit>| if u.full_cost < 0 { u.full_cost as int } else { 0 }
}

/// The sum of the units' full costs.
pub open spec fn total_cost(units: Seq<Arc<Unit>>) -> int {
    sum_by(units, cost_weight())
}

/// Adding up the units' full costs stays within `isize` in whatever order
/// they are taken: the positive ones add up to at most `isize::MAX`, the
/// negative ones to at least `isize::MIN`.
pub open spec fn costs_fit(units: Seq<Arc<Unit>>) -> bool {
    &&& sum_by(units, gain_weight()) <= isize::MAX
    &&& sum_by(units, loss_weight()) >= isize::MIN
}

proof fn lemma_sum_concat(a: Seq<Arc<Unit>>, b: Seq<Arc<Unit>>, w: spec_fn(Arc<Unit>) -> int)
    ensures
        sum_by(a + b, w) == sum_by(a, w) + sum_by(b, w),
    decreases b.len(),
{
    if b.len() == 0 {
        assert(a + b =~= a);
    } else {
        assert((a + b).drop_last() =~= a + b.drop_last());
        lemma_sum_concat(a, b.drop_last(), w);
    }
}

/// Putting the heroes first changes no sum.
proof fn lemma_sum_heroes_first(units: Seq<Arc<Unit>>, w: spec_fn(Arc<Unit>) -> int)
    ensures
        sum_by(heroes_first(units), w) == sum_by(units, w),
    decreases units.len(),
{
    broadcast use Seq::lemma_filter_push;

    let h = units.filter(is_hero_unit());
    let o = units.filter(is_not_hero_unit());
    lemma_sum_concat(h, o, w);
    if units.len() > 0 {
        let rest = units.drop_last();
        let x = units.last();
        assert(rest.push(x) =~= units);
        lemma_sum_heroes_first(rest, w);
        lemma_sum_concat(rest.filter(is_hero_unit()), rest.filter(is_not_hero_unit()), w);
        if x.is_hero {
            assert(h == rest.filter(is_hero_unit()).push(x));
            assert(h.drop_last() =~= rest.filter(is_hero_unit()));
        } else {
            assert(o == rest.filter(is_not_hero_unit()).push(x));
            assert(o.drop_last() =~= rest.filter(is_not_hero_unit()));
        }
    }
}

/// The full costs of the units add up to a value between the sum of the
/// negative ones and the sum of the positive ones.
proof fn lemma_total_between(units: Seq<Arc<Unit>>)
    ensures
        sum_by(units, loss_weight()) <= total_cost(units) <= sum_by(units, gain_weight()),
    decreases units.len(),
{
    if units.len() > 0 {
        lemma_total_between(units.drop_last());
    }
}

/// Every partial sum of the full costs, in the order given, lies between
/// the sum of the negative ones and the sum of the positive ones.
proof fn lemma_prefix_between(units: Seq<Arc<Unit>>, k: int)
    requires
        0 <= k <= units.len(),
    ensures
        sum_by(units, loss_weight()) <= total_cost(units.take(k)) <= sum_by(units, gain_weight()),
    decreases units.len(),
{
    if k == units.len() {
        assert(units.take(k) =~= units);
        lemma_total_between(units);
    } else {
        assert(units.drop_last().take(k) =~= units.take(k));
        lemma_prefix_between(units.drop_last(), k);
    }
}

/// The units of a group, heroes first, with their full cost.
fn group_of_units(units: Vec<Arc<Unit>>) -> (group: UnitGroup)
    requires
        costs_fit(units@),
    ensures
        group.units@ == heroes_first(units@),
        group.full_cost == total_cost(units@),
{
    let sorted = crate::order::sorted_heroes_first(units);
    proof {
        lemma_sum_heroes_first(units@, cost_weight());
        lemma_sum_heroes_first(units@, gain_weight());
        lemma_sum_heroes_first(units@, loss_weight());
    }
    let n = sorted.len();
    let mut full_cost: isize = 0;
    let mut i: usize = 0;
    assert(sorted@.take(0) =~= Seq::<Arc<Unit>>::empty());
    while i < n
        invariant
            n == sorted@.len(),
            0 <= i <= n,
            costs_fit(sorted@),
            full_cost == total_cost(sorted@.take(i as int)),
        decreases n - i,
    {
        proof {
            lemma_prefix_between(sorted@, i + 1);
            assert(sorted@.take(i + 1).drop_last() =~= sorted@.take(i as int));
        }
        full_cost = full_cost + sorted[i].full_cost;
        i = i + 1;
    }
    assert(sorted@.take(n as int) =~= sorted@);
    UnitGroup { units: sorted, full_cost }
}

} // verus!

verus! {

/// An army list as Army Forge describes it: its units, before grouping.
pub struct JsonArmy {
    pub id: String,
    pub name: String,
    pub game_system: String,
    pub special_rules: Vec<Arc<SpecialRuleDef>>,
    pub units: Vec<Arc<Unit>>,
}

/// An army list, its units in groups.
pub struct Army {
    pub id: String,
    pub name: String,
    pub game_system: Result<GameSystem, String>,
    pub special_rules: Vec<Arc<SpecialRuleDef>>,
    pub unit_groups: Vec<Arc<UnitGroup>>,
}

/// The ids held by a list of strings.
pub open spec fn ids_of(v: Vec<String>) -> Seq<Seq<char>> {
    v@.map_values(|s: String| s@)
}

/// The units with the given selection ids: for each, the last unit that has it.
pub open spec fn group_units(by_selection: Map<Seq<char>, Arc<Unit>>, ids: Seq<Seq<char>>) -> Seq<Arc<Unit>> {
    ids.map_values(|id: Seq<char>| by_selection[id])
}

/// The groups of units of a list of units, before putting heroes first.
pub open spec fn army_groups(units: Seq<Arc<Unit>>) -> Seq<Seq<Arc<Unit>>> {
    groups_of_members(units, unit_grouping(units).members)
}

/// For each list of ids, the units of the list with those selection ids.
pub open spec fn groups_of_members(units: Seq<Arc<Unit>>, members: Seq<Seq<Seq<char>>>) -> Seq<Seq<Arc<Unit>>> {
    members.map_values(|ids: Seq<Seq<char>>| group_units(units_by_selection(units), ids))
}

/// Each unit that joins another one joins a unit of the list.
pub open spec fn joins_resolve(units: Seq<Arc<Unit>>) -> bool {
    forall|i: int|
        0 <= i < units.len() ==> ((#[trigger] units[i]).join_to_unit matches Some(j) ==> exists|i2: int|
            0 <= i2 < units.len() && units[i2].selection_id@ == j@)
}

/// The full costs of each group add up within `isize`, in any order.
pub open spec fn group_costs_fit(units: Seq<Arc<Unit>>) -> bool {
    forall|i: int| 0 <= i < army_groups(units).len() ==> costs_fit(#[trigger] army_groups(units)[i])
}

/// The units can be grouped: no unit links two units already grouped, each
/// unit joined is in the list, and the costs of each group add up.
pub open spec fn groupable(units: Seq<Arc<Unit>>) -> bool {
    &&& merge_free(unit_links(units))
    &&& joins_resolve(units)
    &&& group_costs_fit(units)
}

/// The selection ids indexed are those of the units.
proof fn lemma_units_by_selection_keys(units: Seq<Arc<Unit>>, k: Seq<char>)
    ensures
        units_by_selection(units).contains_key(k) <==> exists|i: int|
            0 <= i < units.len() && (#[trigger] units[i]).selection_id@ == k,
    decreases units.len(),
{
    if units.len() > 0 {
        lemma_units_by_selection_keys(units.drop_last(), k);
        if units_by_selection(units.drop_last()).contains_key(k) {
            let i = choose|i: int|
                0 <= i < units.drop_last().len() && (#[trigger] units.drop_last()[i]).selection_id@ == k;
            assert(units[i] == units.drop_last()[i]);
        }
        if exists|i: int| 0 <= i < units.len() && (#[trigger] units[i]).selection_id@ == k {
            let i = choose|i: int| 0 <= i < units.len() && (#[trigger] units[i]).selection_id@ == k;
            if i < units.len() - 1 {
                assert(units.drop_last()[i] == units[i]);
            }
        }
    }
}

/// Each id in a group of a list whose joins resolve is the selection id of
/// some unit of the list.
proof fn lemma_member_indexed(units: Seq<Arc<Unit>>, i: int, p: int)
    requires
        joins_resolve(units),
        0 <= i < unit_grouping(units).members.len(),
        0 <= p < unit_grouping(units).members[i].len(),
    ensures
        units_by_selection(units).contains_key(unit_grouping(units).members[i][p]),
{
    let links = unit_links(units);
    let k = unit_grouping(units).members[i][p];
    lemma_group_links_well_formed(links);
    lemma_group_links_ids(links, k);
    let a = choose|a: int| 0 <= a < links.len() && (#[trigger] links[a].0 == k || links[a].1 == Some(k));
    assert(links[a] == unit_link(units[a]));
    if links[a].0 == k {
        lemma_units_by_selection_keys(units, k);
    } else {
        let a2 = choose|a2: int| 0 <= a2 < units.len() && units[a2].selection_id@ == k;
        assert(units[a2].selection_id@ == k);
        lemma_units_by_selection_keys(units, k);
    }
}

/// The units with the given selection ids.
fn collect_group(ids: &Vec<String>, by_selection: &StringHashMap<Arc<Unit>>) -> (units: Vec<Arc<Unit>>)
    requires
        forall|p: int| 0 <= p < ids@.len() ==> by_selection@.contains_key((#[trigger] ids@[p])@),
    ensures
        units@ == group_units(by_selection@, ids_of(*ids)),
{
    let m = ids.len();
    let mut units: Vec<Arc<Unit>> = Vec::new();
    let mut p: usize = 0;
    while p < m
        invariant
            m == ids@.len(),
            0 <= p <= m,
            units@.len() == p,
            forall|q: int| 0 <= q < m ==> by_selection@.contains_key((#[trigger] ids@[q])@),
            forall|q: int| 0 <= q < p ==> #[trigger] units@[q] == by_selection@[ids@[q]@],
        decreases m - p,
    {
        match by_selection.get(ids[p].as_str()) {
            Some(u) => {
                units.push(Arc::clone(u));
            },
            None => {
                assert(by_selection@.contains_key(ids@[p as int]@));
            },
        }
        p = p + 1;
    }
    assert(units@ =~= group_units(by_selection@, ids_of(*ids)));
    units
}

/// Builds the group of each list of ids, heroes first, with its full cost.
fn build_groups(members: &Vec<Vec<String>>, by_selection: &StringHashMap<Arc<Unit>>) -> (groups: Vec<Arc<UnitGroup>>)
    requires
        forall|i: int, p: int|
            0 <= i < members@.len() && 0 <= p < members@[i]@.len() ==> by_selection@.contains_key(
                (#[trigger] members@[i]@[p])@,
            ),
        forall|i: int|
            0 <= i < members@.len() ==> costs_fit(group_units(by_selection@, ids_of(#[trigger] members@[i]))),
    ensures
        groups@.len() == members@.len(),
        forall|i: int|
            0 <= i < members@.len() ==> {
                &&& (#[trigger] groups@[i]).units@ == heroes_first(group_units(by_selection@, ids_of(members@[i])))
                &&& groups@[i].full_cost == total_cost(group_units(by_selection@, ids_of(members@[i])))
            },
{
    let mut groups: Vec<Arc<UnitGroup>> = Vec::new();
    let n = members.len();
    let mut i: usize = 0;
    while i < n
        invariant
            n == members@.len(),
            0 <= i <= n,
            groups@.len() == i,
            forall|a: int, p: int|
                0 <= a < members@.len() && 0 <= p < members@[a]@.len() ==> by_selection@.contains_key(
                    (#[trigger] members@[a]@[p])@,
                ),
            forall|a: int|
                0 <= a < members@.len() ==> costs_fit(group_units(by_selection@, ids_of(#[trigger] members@[a]))),
            forall|a: int|
                0 <= a < i ==> {
                    &&& (#[trigger] groups@[a]).units@ == heroes_first(group_units(by_selection@, ids_of(members@[a])))
                    &&& groups@[a].full_cost == total_cost(group_units(by_selection@, ids_of(members@[a])))
                },
        decreases n - i,
    {
        let units = collect_group(&members[i], by_selection);
        let group = group_of_units(units);
        groups.push(Arc::new(group));
        i = i + 1;
    }
    groups
}

impl Army {
    /// Builds an army list from its description: a unit that joins another
    /// one stands in that unit's group, the groups coming in the order in
    /// which they formed; each group lists, for each of its selection ids in
    /// the order in which they came into the group, the last unit with that
    /// id, heroes first, and costs what its units cost together.
    pub fn from_json(json_army: JsonArmy) -> (army: Army)
        requires
            groupable(json_army.units@),
        ensures
            army.id == json_army.id,
            army.name == json_army.name,
            army.special_rules == json_army.special_rules,
            game_system_of_name(json_army.game_system@) matches Some(gs) ==> army.game_system
                == Ok::<GameSystem, String>(gs),
            game_system_of_name(json_army.game_system@) is None ==> (army.game_system matches Err(msg)
                && msg@ == unknown_game_system_message(json_army.game_system@)),
            army.unit_groups@.len() == army_groups(json_army.units@).len(),
            forall|i: int|
                0 <= i < army.unit_groups@.len() ==> {
                    &&& (#[trigger] army.unit_groups@[i]).units@ == heroes_first(army_groups(json_army.units@)[i])
                    &&& army.unit_groups@[i].full_cost == total_cost(army_groups(json_army.units@)[i])
                    &&& army.unit_groups@[i].full_cost == total_cost(army.unit_groups@[i].units@)
                },
            distinct_selections(json_army.units@) ==> groups_cost(army.unit_groups@) == total_cost(
                json_army.units@,
            ),
    {
        let ghost units = json_army.units@;
        let grouped = group_selections(&json_army.units);
        let unit_groups = match grouped {
            Some((members, by_selection)) => {
                proof {
                    assert forall|i: int, p: int|
                        0 <= i < members@.len() && 0 <= p < members@[i]@.len() implies by_selection@.contains_key(
                            (#[trigger] members@[i]@[p])@,
                        ) by {
                        lemma_member_indexed(units, i, p);
                    }
                    assert forall|i: int| 0 <= i < members@.len() implies costs_fit(
                        group_units(by_selection@, ids_of(#[trigger] members@[i])),
                    ) by {
                        assert(ids_of(members@[i]) =~= unit_grouping(units).members[i]);
                        assert(army_groups(units)[i] == group_units(by_selection@, ids_of(members@[i])));
                    }
                }
                let groups = build_groups(&members, &by_selection);
                proof {
                    assert forall|i: int| 0 <= i < members@.len() implies
                        group_units(by_selection@, ids_of(#[trigger] members@[i])) == army_groups(units)[i]
                        && total_cost(heroes_first(army_groups(units)[i])) == total_cost(army_groups(units)[i]) by {
                        assert(ids_of(members@[i]) =~= unit_grouping(units).members[i]);
                        lemma_sum_heroes_first(army_groups(units)[i], cost_weight());
                    }
                }
                groups
            },
            None => Vec::new(),
        };
        let game_system = GameSystem::try_from(json_army.game_system.as_str());
        proof {
            if distinct_selections(units) {
                lemma_groups_cost_total(units);
                lemma_groups_cost_matches(unit_groups@, army_groups(units));
            }
        }
        Army {
            id: json_army.id,
            name: json_army.name,
            game_system,
            special_rules: json_army.special_rules,
            unit_groups,
        }
    }
}

} // verus!

verus! {

/// Why the units of an army list cannot be grouped.
#[derive(Clone, Copy, Debug, PartialEq, Eq, Structural)]
pub enum GroupingFault {
    /// A unit links two units that are both in groups already.
    MergedGroups,
    /// A unit joins a unit that is not in the list.
    UnknownJoin,
    /// The full costs of a group do not add up within `isize`.
    CostOverflow,
}

proof fn lemma_gain_prefix(units: Seq<Arc<Unit>>, k: int)
    requires
        0 <= k <= units.len(),
    ensures
        0 <= sum_by(units.take(k), gain_weight()) <= sum_by(units, gain_weight()),
        sum_by(units, loss_weight()) <= sum_by(units.take(k), loss_weight()) <= 0,
    decreases units.len(),
{
    if k == units.len() {
        assert(units.take(k) =~= units);
        lemma_gain_loss_signs(units);
    } else {
        assert(units.drop_last().take(k) =~= units.take(k));
        lemma_gain_prefix(units.drop_last(), k);
    }
}

proof fn lemma_gain_loss_signs(units: Seq<Arc<Unit>>)
    ensures
        0 <= sum_by(units, gain_weight()),
        sum_by(units, loss_weight()) <= 0,
    decreases units.len(),
{
    if units.len() > 0 {
        lemma_gain_loss_signs(units.drop_last());
    }
}

/// Whether the full costs of the units add up within `isize` in any order.
fn costs_within(units: &Vec<Arc<Unit>>) -> (b: bool)
    ensures
        b == costs_fit(units@),
{
    let n = units.len();
    let mut gains: isize = 0;
    let mut losses: isize = 0;
    let mut i: usize = 0;
    assert(units@.take(0) =~= Seq::<Arc<Unit>>::empty());
    while i < n
        invariant
            n == units@.len(),
            0 <= i <= n,
            gains == sum_by(units@.take(i as int), gain_weight()),
            losses == sum_by(units@.take(i as int), loss_weight()),
        decreases n - i,
    {
        proof {
            assert(units@.take(i + 1).drop_last() =~= units@.take(i as int));
            lemma_gain_prefix(units@, i + 1);
        }
        let c = units[i].full_cost;
        if c > 0 {
            match gains.checked_add(c) {
                Some(g) => {
                    gains = g;
                },
                None => {
                    return false;
                },
            }
        } else if c < 0 {
            match losses.checked_add(c) {
                Some(l) => {
                    losses = l;
                },
                None => {
                    return false;
                },
            }
        }
        i = i + 1;
    }
    assert(units@.take(n as int) =~= units@);
    true
}

impl JsonArmy {
    /// Why `Army::from_json` cannot group the units of this army list, if it
    /// cannot: merged groups are looked for first, then unknown joins, then
    /// costs that overflow.
    pub fn grouping_fault(&self) -> (fault: Option<GroupingFault>)
        ensures
            fault is None <==> groupable(self.units@),
            fault == Some(GroupingFault::MergedGroups) <==> !merge_free(unit_links(self.units@)),
            fault == Some(GroupingFault::UnknownJoin) <==> merge_free(unit_links(self.units@))
                && !joins_resolve(self.units@),
            fault == Some(GroupingFault::CostOverflow) <==> merge_free(unit_links(self.units@))
                && joins_resolve(self.units@) && !group_costs_fit(self.units@),
    {
        let ghost units = self.units@;
        let (members, by_selection) = match group_selections(&self.units) {
            Some(r) => r,
            None => {
                return Some(GroupingFault::MergedGroups);
            },
        };
        let n = self.units.len();
        let mut i: usize = 0;
        while i < n
            invariant
                n == units.len(),
                units == self.units@,
                0 <= i <= n,
                merge_free(unit_links(units)),
                by_selection@ == units_by_selection(units),
                forall|a: int|
                    0 <= a < i ==> ((#[trigger] units[a]).join_to_unit matches Some(j) ==> exists|i2: int|
                        0 <= i2 < units.len() && units[i2].selection_id@ == j@),
            decreases n - i,
        {
            if let Some(j) = &self.units[i].join_to_unit {
                proof {
                    lemma_units_by_selection_keys(units, j@);
                }
                if !by_selection.contains_key(j.as_str()) {
                    assert(!joins_resolve(units));
                    return Some(GroupingFault::UnknownJoin);
                }
            }
            i = i + 1;
        }
        let m = members.len();
        let mut g: usize = 0;
        while g < m
            invariant
                m == members@.len(),
                units == self.units@,
                0 <= g <= m,
                joins_resolve(units),
                merge_free(unit_links(units)),
                lists_members(members@, unit_grouping(units).members),
                by_selection@ == units_by_selection(units),
                forall|a: int| 0 <= a < g ==> costs_fit(#[trigger] army_groups(units)[a]),
            decreases m - g,
        {
            proof {
                assert forall|p: int| 0 <= p < members@[g as int]@.len() implies by_selection@.contains_key(
                    (#[trigger] members@[g as int]@[p])@,
                ) by {
                    lemma_member_indexed(units, g as int, p);
                }
                assert(ids_of(members@[g as int]) =~= unit_grouping(units).members[g as int]);
            }
            let group = collect_group(&members[g], &by_selection);
            if !costs_within(&group) {
                assert(!costs_fit(army_groups(units)[g as int]));
                return Some(GroupingFault::CostOverflow);
            }
            g = g + 1;
        }
        None
    }
}

} // verus!

verus! {

/// The names under which the units are shown.
pub open spec fn display_names(units: Seq<Arc<Unit>>) -> Seq<Seq<char>> {
    units.map_values(|u: Arc<Unit>| unit_display_name(*u))
}

impl UnitGroup {
    /// The names of the group's units, joined by " + ".
    pub fn formatted_name(&self) -> (s: String)
        ensures
            s@ == joined(display_names(self.units@), " + "@),
    {
        let n = self.units.len();
        let mut names: Vec<String> = Vec::new();
        let mut i: usize = 0;
        while i < n
            invariant
                n == self.units@.len(),
                0 <= i <= n,
                names@.len() == i,
                forall|a: int| 0 <= a < i ==> (#[trigger] names@[a])@ == unit_display_name(*self.units@[a]),
            decreases n - i,
        {
            names.push(self.units[i].formatted_name());
            i = i + 1;
        }
        assert(views_of(names@) =~= display_names(self.units@));
        join_with(names, " + ")
    }
}

} // verus!

verus! {

/// In a group, heroes come first: no unit that is not a hero stands before
/// a hero.
pub proof fn lemma_heroes_lead(units: Seq<Arc<Unit>>, a: int, b: int)
    requires
        0 <= a < b < heroes_first(units).len(),
        heroes_first(units)[b].is_hero,
    ensures
        heroes_first(units)[a].is_hero,
{
    let h = units.filter(is_hero_unit());
    let o = units.filter(is_not_hero_unit());
    units.filter_lemma(is_hero_unit());
    units.filter_lemma(is_not_hero_unit());
    if b >= h.len() {
        assert(heroes_first(units)[b] == o[b - h.len()]);
        assert(is_not_hero_unit()(o[b - h.len()]));
    } else {
        assert(heroes_first(units)[a] == h[a]);
        assert(is_hero_unit()(h[a]));
    }
}

/// Putting the heroes first reorders the units and nothing more.
pub proof fn lemma_heroes_first_permutes(units: Seq<Arc<Unit>>)
    ensures
        heroes_first(units).to_multiset() == units.to_multiset(),
    decreases units.len(),
{
    broadcast use Seq::lemma_filter_push, vstd::seq_lib::to_multiset_build, vstd::seq_lib::lemma_multiset_commutative;
    broadcast use vstd::multiset::group_multiset_axioms;

    if units.len() == 0 {
        assert(heroes_first(units) =~= units);
    } else {
        let rest = units.drop_last();
        let x = units.last();
        assert(rest.push(x) =~= units);
        lemma_heroes_first_permutes(rest);
        let h = rest.filter(is_hero_unit());
        let o = rest.filter(is_not_hero_unit());
        assert(heroes_first(rest).to_multiset() =~= h.to_multiset().add(o.to_multiset()));
        assert(heroes_first(units).to_multiset() =~= units.filter(is_hero_unit()).to_multiset().add(
            units.filter(is_not_hero_unit()).to_multiset(),
        ));
        assert(units.to_multiset() =~= rest.to_multiset().insert(x));
    }
}

/// Every unit is grouped: its selection id stands in one of the groups, and
/// so does the selection id of the unit that it joins, in the same group.
pub proof fn lemma_every_unit_grouped(units: Seq<Arc<Unit>>, k: int)
    requires
        merge_free(unit_links(units)),
        0 <= k < units.len(),
    ensures
        exists|i: int, p: int|
            0 <= i < unit_grouping(units).members.len() && 0 <= p < unit_grouping(units).members[i].len()
                && #[trigger] unit_grouping(units).members[i][p] == units[k].selection_id@,
        units[k].join_to_unit matches Some(j) ==> exists|p: int|
            0 <= p < unit_grouping(units).members[unit_grouping(units).group_of[units[k].selection_id@]].len()
                && #[trigger] unit_grouping(units).members[unit_grouping(
                units,
            ).group_of[units[k].selection_id@]][p] == j@,
{
    let links = unit_links(units);
    let g = unit_grouping(units);
    assert(links[k] == unit_link(units[k]));
    lemma_group_links_well_formed(links);
    lemma_every_link_grouped(links, k);
    let s = units[k].selection_id@;
    let i = g.group_of[s];
    let p = choose|p: int| 0 <= p < g.members[i].len() && g.members[i][p] == s;
    assert(g.members[i][p] == s);
    if let Some(j) = units[k].join_to_unit {
        lemma_joined_share_group(links, k);
        let q = choose|q: int| 0 <= q < g.members[i].len() && g.members[i][q] == j@;
        assert(g.members[i][q] == j@);
    }
}

} // verus!

verus! {

/// No two units of the list share a selection id.
pub open spec fn distinct_selections(units: Seq<Arc<Unit>>) -> bool {
    forall|i: int, j: int|
        0 <= i < j < units.len() ==> #[trigger] units[i].selection_id@ != #[trigger] units[j].selection_id@
}

/// The selection ids of the units, in order.
pub open spec fn selections(units: Seq<Arc<Unit>>) -> Seq<Seq<char>> {
    units.map_values(|u: Arc<Unit>| u.selection_id@)
}

/// The full cost of the last unit of the list with a selection id.
pub open spec fn id_cost(units: Seq<Arc<Unit>>) -> spec_fn(Seq<char>) -> int {
    |id: Seq<char>| units_by_selection(units)[id].full_cost as int
}

/// The sum of the full costs of all groups.
pub open spec fn groups_total(groups: Seq<Seq<Arc<Unit>>>) -> int
    decreases groups.len(),
{
    if groups.len() == 0 {
        0
    } else {
        groups_total(groups.drop_last()) + total_cost(groups.last())
    }
}

/// The sum of the full costs of the groups of an army list.
pub open spec fn groups_cost(groups: Seq<Arc<UnitGroup>>) -> int
    decreases groups.len(),
{
    if groups.len() == 0 {
        0
    } else {
        groups_cost(groups.drop_last()) + groups.last().full_cost
    }
}

proof fn lemma_units_by_selection_distinct(units: Seq<Arc<Unit>>, k: int)
    requires
        distinct_selections(units),
        0 <= k < units.len(),
    ensures
        units_by_selection(units).contains_key(units[k].selection_id@),
        units_by_selection(units)[units[k].selection_id@] == units[k],
    decreases units.len(),
{
    if k < units.len() - 1 {
        let rest = units.drop_last();
        assert(distinct_selections(rest)) by {
            assert forall|i: int, j: int| 0 <= i < j < rest.len() implies
                #[trigger] rest[i].selection_id@ != #[trigger] rest[j].selection_id@ by {
                assert(rest[i] == units[i] && rest[j] == units[j]);
            }
        }
        assert(rest[k] == units[k]);
        lemma_units_by_selection_distinct(rest, k);
        assert(units[k].selection_id@ != units[units.len() - 1].selection_id@);
    }
}

proof fn lemma_sum_selections(s: Seq<Arc<Unit>>, f: spec_fn(Seq<char>) -> int)
    requires
        forall|k: int| 0 <= k < s.len() ==> f((#[trigger] s[k]).selection_id@) == s[k].full_cost,
    ensures
        sum_ids(selections(s), f) == total_cost(s),
    decreases s.len(),
{
    if s.len() > 0 {
        assert(selections(s).drop_last() =~= selections(s.drop_last()));
        assert forall|k: int| 0 <= k < s.drop_last().len() implies f((#[trigger] s.drop_last()[k]).selection_id@)
            == s.drop_last()[k].full_cost by {
            assert(s.drop_last()[k] == s[k]);
        }
        lemma_sum_selections(s.drop_last(), f);
        assert(s[s.len() - 1] == s.last());
    }
}

proof fn lemma_group_total(units: Seq<Arc<Unit>>, ids: Seq<Seq<char>>)
    ensures
        total_cost(group_units(units_by_selection(units), ids)) == sum_ids(ids, id_cost(units)),
    decreases ids.len(),
{
    if ids.len() > 0 {
        let m = units_by_selection(units);
        assert(group_units(m, ids).drop_last() =~= group_units(m, ids.drop_last()));
        lemma_group_total(units, ids.drop_last());
    }
}

proof fn lemma_groups_total(units: Seq<Arc<Unit>>, members: Seq<Seq<Seq<char>>>)
    ensures
        groups_total(groups_of_members(units, members)) == sum_groups(members, id_cost(units)),
    decreases members.len(),
{
    if members.len() > 0 {
        assert(groups_of_members(units, members).drop_last() =~= groups_of_members(units, members.drop_last()));
        lemma_groups_total(units, members.drop_last());
        lemma_group_total(units, members.last());
    }
}

/// When no two units share a selection id, the groups together cost what
/// the units of the list cost: each unit stands in exactly one group.
pub proof fn lemma_groups_cost_total(units: Seq<Arc<Unit>>)
    requires
        groupable(units),
        distinct_selections(units),
    ensures
        groups_total(army_groups(units)) == total_cost(units),
{
    let links = unit_links(units);
    let g = group_links(links);
    let f = id_cost(units);
    lemma_groups_total(units, g.members);
    lemma_group_links_sum(links, f);
    lemma_added_ids(links);
    let sels = selections(units);
    assert(sels.no_duplicates()) by {
        assert forall|p: int, q: int| 0 <= p < sels.len() && 0 <= q < sels.len() && p != q implies sels[p]
            != sels[q] by {
            if p < q {
                assert(units[p].selection_id@ != units[q].selection_id@);
            } else {
                assert(units[q].selection_id@ != units[p].selection_id@);
            }
        }
    }
    assert forall|x: Seq<char>| added_ids(links).contains(x) <==> sels.contains(x) by {
        if g.group_of.contains_key(x) {
            lemma_group_links_ids(links, x);
            let a = choose|a: int| 0 <= a < links.len() && (#[trigger] links[a].0 == x || links[a].1 == Some(x));
            assert(links[a] == unit_link(units[a]));
            if links[a].0 == x {
                assert(sels[a] == x);
            } else {
                assert(units[a].join_to_unit is Some);
                let a2 = choose|a2: int| 0 <= a2 < units.len() && units[a2].selection_id@ == x;
                assert(sels[a2] == x);
            }
        }
        if sels.contains(x) {
            let k = choose|k: int| 0 <= k < sels.len() && sels[k] == x;
            assert(links[k] == unit_link(units[k]));
            lemma_every_link_grouped(links, k);
        }
    }
    lemma_sum_ids_reordered(added_ids(links), sels, f);
    assert forall|k: int| 0 <= k < units.len() implies f((#[trigger] units[k]).selection_id@) == units[k].full_cost by {
        lemma_units_by_selection_distinct(units, k);
    }
    lemma_sum_selections(units, f);
}

proof fn lemma_groups_cost_matches(groups: Seq<Arc<UnitGroup>>, units: Seq<Seq<Arc<Unit>>>)
    requires
        groups.len() == units.len(),
        forall|i: int| 0 <= i < groups.len() ==> (#[trigger] groups[i]).full_cost == total_cost(units[i]),
    ensures
        groups_cost(groups) == groups_total(units),
    decreases groups.len(),
{
    if groups.len() > 0 {
        assert forall|i: int| 0 <= i < groups.drop_last().len() implies (#[trigger] groups.drop_last()[i]).full_cost
            == total_cost(units.drop_last()[i]) by {
            assert(groups.drop_last()[i] == groups[i]);
        }
        lemma_groups_cost_matches(groups.drop_last(), units.drop_last());
        assert(groups[groups.len() - 1] == groups.last());
    }
}

} // verus!

verus! {

/// Each part of a group's name is the name under which the unit at that
/// place is shown (with its custom name and size), not its bare name.
pub proof fn lemma_group_name_parts(units: Seq<Arc<Unit>>)
    ensures
        display_names(units).len() == units.len(),
        forall|i: int| 0 <= i < units.len() ==> #[trigger] display_names(units)[i] == unit_display_name(*units[i]),
{
}

/// The name of a group of one unit is that unit's name; one more unit adds
/// " + " and its name.
pub proof fn lemma_group_name_push(units: Seq<Arc<Unit>>, u: Arc<Unit>)
    ensures
        units.len() == 0 ==> joined(display_names(units.push(u)), " + "@) == unit_display_name(*u),
        units.len() > 0 ==> joined(display_names(units.push(u)), " + "@) == joined(display_names(units), " + "@)
            + " + "@ + unit_display_name(*u),
{
    let d = display_names(units.push(u));
    assert(d.drop_last() =~= display_names(units));
    assert(d.last() == unit_display_name(*u));
    if units.len() == 0 {
        assert(d.len() == 1);
    }
}

/// Adding up full costs stays within `isize` in any order as soon as the
/// positive ones add up to at most `isize::MAX` and the negative ones to at
/// least `isize::MIN`, however many units there are.
pub proof fn lemma_costs_fit_by_sums(units: Seq<Arc<Unit>>)
    requires
        sum_by(units, gain_weight()) <= isize::MAX,
        sum_by(units, loss_weight()) >= isize::MIN,
    ensures
        costs_fit(units),
        forall|k: int| 0 <= k <= units.len() ==> isize::MIN <= #[trigger] total_cost(units.take(k)) <= isize::MAX,
{
    assert forall|k: int| 0 <= k <= units.len() implies isize::MIN <= #[trigger] total_cost(units.take(k))
        <= isize::MAX by {
        lemma_prefix_between(units, k);
    }
}

/// A weight of the last unit of the list with a selection id.
pub open spec fn id_weight(units: Seq<Arc<Unit>>, w: spec_fn(Arc<Unit>) -> int) -> spec_fn(Seq<char>) -> int {
    |id: Seq<char>| w(units_by_selection(units)[id])
}

/// The sum of a weight over the units of all groups.
pub open spec fn groups_sum(groups: Seq<Seq<Arc<Unit>>>, w: spec_fn(Arc<Unit>) -> int) -> int
    decreases groups.len(),
{
    if groups.len() == 0 {
        0
    } else {
        groups_sum(groups.drop_last(), w) + sum_by(groups.last(), w)
    }
}

proof fn lemma_group_weight(units: Seq<Arc<Unit>>, ids: Seq<Seq<char>>, w: spec_fn(Arc<Unit>) -> int)
    ensures
        sum_by(group_units(units_by_selection(units), ids), w) == sum_ids(ids, id_weight(units, w)),
    decreases ids.len(),
{
    if ids.len() > 0 {
        let m = units_by_selection(units);
        assert(group_units(m, ids).drop_last() =~= group_units(m, ids.drop_last()));
        lemma_group_weight(units, ids.drop_last(), w);
    }
}

proof fn lemma_groups_weight(units: Seq<Arc<Unit>>, members: Seq<Seq<Seq<char>>>, w: spec_fn(Arc<Unit>) -> int)
    ensures
        groups_sum(groups_of_members(units, members), w) == sum_groups(members, id_weight(units, w)),
    decreases members.len(),
{
    if members.len() > 0 {
        assert(groups_of_members(units, members).drop_last() =~= groups_of_members(units, members.drop_last()));
        lemma_groups_weight(units, members.drop_last(), w);
        lemma_group_weight(units, members.last(), w);
    }
}

proof fn lemma_sum_selections_weight(s: Seq<Arc<Unit>>, f: spec_fn(Seq<char>) -> int, w: spec_fn(Arc<Unit>) -> int)
    requires
        forall|k: int| 0 <= k < s.len() ==> f((#[trigger] s[k]).selection_id@) == w(s[k]),
    ensures
        sum_ids(selections(s), f) == sum_by(s, w),
    decreases s.len(),
{
    if s.len() > 0 {
        assert(selections(s).drop_last() =~= selections(s.drop_last()));
        assert forall|k: int| 0 <= k < s.drop_last().len() implies f((#[trigger] s.drop_last()[k]).selection_id@)
            == w(s.drop_last()[k]) by {
            assert(s.drop_last()[k] == s[k]);
        }
        lemma_sum_selections_weight(s.drop_last(), f, w);
        assert(s[s.len() - 1] == s.last());
    }
}

/// When no two units share a selection id and each join names a unit of
/// the list, a weight summed over the groups is that weight summed over the
/// units: each unit stands in exactly one group.
pub proof fn lemma_groups_weight_total(units: Seq<Arc<Unit>>, w: spec_fn(Arc<Unit>) -> int)
    requires
        joins_resolve(units),
        distinct_selections(units),
    ensures
        groups_sum(army_groups(units), w) == sum_by(units, w),
{
    let links = unit_links(units);
    let g = group_links(links);
    let f = id_weight(units, w);
    lemma_groups_weight(units, g.members, w);
    lemma_group_links_sum(links, f);
    lemma_added_ids(links);
    let sels = selections(units);
    assert(sels.no_duplicates()) by {
        assert forall|p: int, q: int| 0 <= p < sels.len() && 0 <= q < sels.len() && p != q implies sels[p]
            != sels[q] by {
            if p < q {
                assert(units[p].selection_id@ != units[q].selection_id@);
            } else {
                assert(units[q].selection_id@ != units[p].selection_id@);
            }
        }
    }
    assert forall|x: Seq<char>| added_ids(links).contains(x) <==> sels.contains(x) by {
        if g.group_of.contains_key(x) {
            lemma_group_links_ids(links, x);
            let a = choose|a: int| 0 <= a < links.len() && (#[trigger] links[a].0 == x || links[a].1 == Some(x));
            assert(links[a] == unit_link(units[a]));
            if links[a].0 == x {
                assert(sels[a] == x);
            } else {
                assert(units[a].join_to_unit is Some);
                let a2 = choose|a2: int| 0 <= a2 < units.len() && units[a2].selection_id@ == x;
                assert(sels[a2] == x);
            }
        }
        if sels.contains(x) {
            let k = choose|k: int| 0 <= k < sels.len() && sels[k] == x;
            assert(links[k] == unit_link(units[k]));
            lemma_every_link_grouped(links, k);
        }
    }
    lemma_sum_ids_reordered(added_ids(links), sels, f);
    assert forall|k: int| 0 <= k < units.len() implies f((#[trigger] units[k]).selection_id@) == w(units[k]) by {
        lemma_units_by_selection_distinct(units, k);
    }
    lemma_sum_selections_weight(units, f, w);
}

proof fn lemma_group_gain_within(gs: Seq<Seq<Arc<Unit>>>, i: int)
    requires
        0 <= i < gs.len(),
    ensures
        sum_by(gs[i], gain_weight()) <= groups_sum(gs, gain_weight()),
        sum_by(gs[i], loss_weight()) >= groups_sum(gs, loss_weight()),
    decreases gs.len(),
{
    lemma_gain_loss_signs(gs.last());
    if i < gs.len() - 1 {
        assert(gs.drop_last()[i] == gs[i]);
        lemma_group_gain_within(gs.drop_last(), i);
    } else {
        lemma_groups_signs(gs.drop_last());
    }
}

proof fn lemma_groups_signs(gs: Seq<Seq<Arc<Unit>>>)
    ensures
        groups_sum(gs, gain_weight()) >= 0,
        groups_sum(gs, loss_weight()) <= 0,
    decreases gs.len(),
{
    if gs.len() > 0 {
        lemma_groups_signs(gs.drop_last());
        lemma_gain_loss_signs(gs.last());
    }
}

/// An army list whose units can be linked without merging groups, whose
/// joins name units of the list, whose selection ids are distinct, and whose
/// positive full costs add up to at most `isize::MAX` and negative ones to
/// at least `isize::MIN` can be grouped, whatever the size of its groups:
/// `JsonArmy::grouping_fault` gives `None` for it.
pub proof fn lemma_small_costs_groupable(units: Seq<Arc<Unit>>)
    requires
        merge_free(unit_links(units)),
        joins_resolve(units),
        distinct_selections(units),
        sum_by(units, gain_weight()) <= isize::MAX,
        sum_by(units, loss_weight()) >= isize::MIN,
    ensures
        groupable(units),
{
    lemma_groups_weight_total(units, gain_weight());
    lemma_groups_weight_total(units, loss_weight());
    assert forall|i: int| 0 <= i < army_groups(units).len() implies costs_fit(#[trigger] army_groups(units)[i]) by {
        lemma_group_gain_within(army_groups(units), i);
        lemma_costs_fit_by_sums(army_groups(units)[i]);
    }
}

} // verus!

verus! {

/// The unit indexed under a selection id is the last unit of the list with
/// that id; every selection id of the list is indexed, and nothing else.
pub proof fn lemma_last_unit_indexed(units: Seq<Arc<Unit>>, k: int)
    requires
        0 <= k < units.len(),
        forall|j: int| k < j < units.len() ==> (#[trigger] units[j]).selection_id@ != units[k].selection_id@,
    ensures
        units_by_selection(units).contains_key(units[k].selection_id@),
        units_by_selection(units)[units[k].selection_id@] == units[k],
        forall|s: Seq<char>|
            #[trigger] units_by_selection(units).contains_key(s) <==> exists|i: int|
                0 <= i < units.len() && units[i].selection_id@ == s,
    decreases units.len(),
{
    assert forall|s: Seq<char>|
        #[trigger] units_by_selection(units).contains_key(s) <==> exists|i: int|
            0 <= i < units.len() && units[i].selection_id@ == s by {
        lemma_units_by_selection_keys(units, s);
    }
    if k < units.len() - 1 {
        let rest = units.drop_last();
        assert(rest[k] == units[k]);
        assert forall|j: int| k < j < rest.len() implies (#[trigger] rest[j]).selection_id@ != rest[k].selection_id@ by {
            assert(rest[j] == units[j]);
        }
        lemma_last_unit_indexed(rest, k);
        assert(units[units.len() - 1].selection_id@ != units[k].selection_id@);
    }
}

} // verus!

verus! {

/// The sums over units add the units' full costs one by one: all of them,
/// the positive ones, and the negative ones.
pub proof fn lemma_sums_push(units: Seq<Arc<Unit>>, u: Arc<Unit>)
    ensures
        total_cost(Seq::<Arc<Unit>>::empty()) == 0,
        total_cost(units.push(u)) == total_cost(units) + u.full_cost,
        sum_by(units.push(u), gain_weight()) == sum_by(units, gain_weight()) + if u.full_cost > 0 {
            u.full_cost as int
        } else {
            0
        },
        sum_by(units.push(u), loss_weight()) == sum_by(units, loss_weight()) + if u.full_cost < 0 {
            u.full_cost as int
        } else {
            0
        },
{
    assert(units.push(u).drop_last() =~= units);
}

} // verus!
