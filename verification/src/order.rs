//! The order of the units in a group: heroes first.
use vstd::prelude::*;
use std::cmp::Ordering;
use std::sync::Arc;
use itertools::Itertools;
use crate::army::heroes_first;
use crate::unit::Unit;

verus! {

/// Compares two units by whether they are heroes: a hero comes before a
/// unit that is not one, and units of the same kind are equal.
pub fn hero_order(a_is_hero: bool, b_is_hero: bool) -> (o: Ordering)
    ensures
        o == (if a_is_hero && !b_is_hero {
            Ordering::Less
        } else if !a_is_hero && b_is_hero {
            Ordering::Greater
        } else {
            Ordering::Equal
        }),
{
    match (a_is_hero, b_is_hero) {
        (true, false) => Ordering::Less,
        (false, true) => Ordering::Greater,
        _ => Ordering::Equal,
    }
}

/// `Itertools::sorted_by` with `hero_order`: a stable sort (the crate's
/// documentation and source: `slice::sort_by`), so the result lists the
/// heroes, then the other units, each in the order of the input.
#[verifier::external_body]
pub fn sorted_heroes_first(units: Vec<Arc<Unit>>) -> (sorted: Vec<Arc<Unit>>)
    ensures
        sorted@ == heroes_first(units@),
{
    units.into_iter().sorted_by(|a, b| hero_order(a.is_hero, b.is_hero)).collect()
}

} // verus!
