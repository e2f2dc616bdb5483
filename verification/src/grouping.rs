//! How units are grouped: a unit that joins another one stands in its group.
//!
//! Units are known here by their selection ids. Going through the units in
//! order, each one links its own id to the id of the unit it joins, if any;
//! a group is the set of ids linked together, listed in the order in which
//! they were first seen.
use vstd::prelude::*;

verus! {

/// The groups formed so far: the ids of each group, and for each id seen,
/// the index of its group.
pub struct Grouping {
    pub members: Seq<Seq<Seq<char>>>,
    pub group_of: Map<Seq<char>, int>,
}

/// No id seen yet.
pub open spec fn no_groups() -> Grouping {
    Grouping { members: Seq::empty(), group_of: Map::empty() }
}

/// Adds `ids`, none of them seen yet, as a new group.
pub open spec fn with_new_group(g: Grouping, first: Seq<char>, second: Option<Seq<char>>) -> Grouping {
    let n = g.members.len() as int;
    match second {
        None => Grouping { members: g.members.push(seq![first]), group_of: g.group_of.insert(first, n) },
        Some(second) => Grouping {
            members: g.members.push(seq![first, second]),
            group_of: g.group_of.insert(first, n).insert(second, n),
        },
    }
}

/// Adds the id `id`, not seen yet, to the group of index `i`.
pub open spec fn with_member(g: Grouping, i: int, id: Seq<char>) -> Grouping {
    Grouping { members: g.members.update(i, g.members[i].push(id)), group_of: g.group_of.insert(id, i) }
}

/// Both ids of a link are already in groups: the link would merge two
/// groups, or repeat one, and no grouping is defined for it.
pub open spec fn merges(g: Grouping, selection: Seq<char>, join: Option<Seq<char>>) -> bool {
    join matches Some(j) && g.group_of.contains_key(selection) && g.group_of.contains_key(j)
}

/// The grouping after the link of a unit with id `selection` that joins the
/// unit `join`, if any.
pub open spec fn link(g: Grouping, selection: Seq<char>, join: Option<Seq<char>>) -> Grouping {
    match join {
        None => if g.group_of.contains_key(selection) {
            g
        } else {
            with_new_group(g, selection, None)
        },
        Some(j) => if g.group_of.contains_key(selection) {
            if g.group_of.contains_key(j) {
                g
            } else {
                with_member(g, g.group_of[selection], j)
            }
        } else if g.group_of.contains_key(j) {
            with_member(g, g.group_of[j], selection)
        } else if j == selection {
            with_new_group(g, selection, None)
        } else {
            with_new_group(g, j, Some(selection))
        },
    }
}

/// The grouping of a sequence of links, taken in order.
pub open spec fn group_links(links: Seq<(Seq<char>, Option<Seq<char>>)>) -> Grouping
    decreases links.len(),
{
    if links.len() == 0 {
        no_groups()
    } else {
        let prev = group_links(links.drop_last());
        link(prev, links.last().0, links.last().1)
    }
}

/// No link merges groups.
pub open spec fn merge_free(links: Seq<(Seq<char>, Option<Seq<char>>)>) -> bool {
    forall|k: int|
        0 <= k < links.len() ==> !merges(
            group_links(#[trigger] links.take(k)),
            links[k].0,
            links[k].1,
        )
}

/// The grouping is consistent: each id seen is in the group that
/// `group_of` names, each member of a group names that group, and no group
/// lists an id twice.
pub open spec fn well_formed(g: Grouping) -> bool {
    &&& forall|k: Seq<char>|
        #[trigger] g.group_of.contains_key(k) ==> {
            &&& 0 <= g.group_of[k] < g.members.len()
            &&& g.members[g.group_of[k]].contains(k)
        }
    &&& forall|i: int, p: int|
        0 <= i < g.members.len() && 0 <= p < g.members[i].len() ==> {
            &&& g.group_of.contains_key(#[trigger] g.members[i][p])
            &&& g.group_of[g.members[i][p]] == i
        }
    &&& forall|i: int| 0 <= i < g.members.len() ==> (#[trigger] g.members[i]).len() > 0
    &&& forall|i: int, p: int, q: int|
        0 <= i < g.members.len() && 0 <= p < q < g.members[i].len() ==> #[trigger] g.members[i][p]
            != #[trigger] g.members[i][q]
}

/// Each link keeps the grouping consistent.
pub proof fn lemma_link_well_formed(g: Grouping, selection: Seq<char>, join: Option<Seq<char>>)
    requires
        well_formed(g),
    ensures
        well_formed(link(g, selection, join)),
{
    let g2 = link(g, selection, join);
    assert forall|k: Seq<char>| #[trigger] g2.group_of.contains_key(k) implies {
        &&& 0 <= g2.group_of[k] < g2.members.len()
        &&& g2.members[g2.group_of[k]].contains(k)
    } by {
        if g.group_of.contains_key(k) && g2.group_of[k] == g.group_of[k] {
            let i = g.group_of[k];
            let pos = choose|pos: int| 0 <= pos < g.members[i].len() && g.members[i][pos] == k;
            assert(g2.members[i][pos] == k);
        } else {
            let i = g2.group_of[k];
            assert(g2.members[i].last() == k || g2.members[i][0] == k);
        }
    }
}

/// Grouping links one by one keeps the grouping consistent.
pub proof fn lemma_group_links_well_formed(links: Seq<(Seq<char>, Option<Seq<char>>)>)
    ensures
        well_formed(group_links(links)),
    decreases links.len(),
{
    if links.len() > 0 {
        lemma_group_links_well_formed(links.drop_last());
        lemma_link_well_formed(group_links(links.drop_last()), links.last().0, links.last().1);
    }
}

} // verus!

verus! {

/// Every id in a group comes from a link: it is the id of a unit, or the id
/// of a unit that one joins.
pub proof fn lemma_group_links_ids(links: Seq<(Seq<char>, Option<Seq<char>>)>, k: Seq<char>)
    requires
        group_links(links).group_of.contains_key(k),
    ensures
        exists|i: int| 0 <= i < links.len() && (#[trigger] links[i].0 == k || links[i].1 == Some(k)),
    decreases links.len(),
{
    let prev = group_links(links.drop_last());
    if prev.group_of.contains_key(k) {
        lemma_group_links_ids(links.drop_last(), k);
        let i = choose|i: int|
            0 <= i < links.drop_last().len() && (#[trigger] links.drop_last()[i].0 == k
                || links.drop_last()[i].1 == Some(k));
        assert(links[i] == links.drop_last()[i]);
    } else {
        assert(links[links.len() - 1].0 == k || links[links.len() - 1].1 == Some(k));
    }
}

} // verus!

verus! {

/// A link never moves an id that is already in a group.
proof fn lemma_link_keeps(g: Grouping, selection: Seq<char>, join: Option<Seq<char>>, x: Seq<char>)
    requires
        g.group_of.contains_key(x),
    ensures
        link(g, selection, join).group_of.contains_key(x),
        link(g, selection, join).group_of[x] == g.group_of[x],
{
}

/// After a link, both of its ids are in groups.
proof fn lemma_link_places(g: Grouping, selection: Seq<char>, join: Option<Seq<char>>)
    ensures
        link(g, selection, join).group_of.contains_key(selection),
        join matches Some(j) ==> link(g, selection, join).group_of.contains_key(j),
{
}

/// Ids grouped after `m` links stay where they are after all of them.
proof fn lemma_group_links_keeps(links: Seq<(Seq<char>, Option<Seq<char>>)>, m: int, x: Seq<char>)
    requires
        0 <= m <= links.len(),
        group_links(links.take(m)).group_of.contains_key(x),
    ensures
        group_links(links).group_of.contains_key(x),
        group_links(links).group_of[x] == group_links(links.take(m)).group_of[x],
    decreases links.len() - m,
{
    if m == links.len() {
        assert(links.take(m) =~= links);
    } else {
        let g = group_links(links.take(m));
        assert(links.take(m + 1).drop_last() =~= links.take(m));
        lemma_link_keeps(g, links[m].0, links[m].1, x);
        lemma_group_links_keeps(links, m + 1, x);
    }
}

/// Every id of every link ends up in a group.
pub proof fn lemma_every_link_grouped(links: Seq<(Seq<char>, Option<Seq<char>>)>, k: int)
    requires
        0 <= k < links.len(),
    ensures
        group_links(links).group_of.contains_key(links[k].0),
        links[k].1 matches Some(j) ==> group_links(links).group_of.contains_key(j),
{
    let g = group_links(links.take(k));
    assert(links.take(k + 1).drop_last() =~= links.take(k));
    lemma_link_places(g, links[k].0, links[k].1);
    lemma_group_links_keeps(links, k + 1, links[k].0);
    if let Some(j) = links[k].1 {
        lemma_group_links_keeps(links, k + 1, j);
    }
}

/// A unit and the unit that it joins end up in the same group, unless some
/// link merges groups.
pub proof fn lemma_joined_share_group(links: Seq<(Seq<char>, Option<Seq<char>>)>, k: int)
    requires
        merge_free(links),
        0 <= k < links.len(),
        links[k].1 is Some,
    ensures
        group_links(links).group_of.contains_key(links[k].0),
        group_links(links).group_of.contains_key(links[k].1->0),
        group_links(links).group_of[links[k].0] == group_links(links).group_of[links[k].1->0],
{
    let g = group_links(links.take(k));
    assert(links.take(k + 1).drop_last() =~= links.take(k));
    assert(!merges(g, links[k].0, links[k].1));
    lemma_link_places(g, links[k].0, links[k].1);
    lemma_group_links_keeps(links, k + 1, links[k].0);
    lemma_group_links_keeps(links, k + 1, links[k].1->0);
}

/// No id stands in two groups, and no group lists an id twice.
pub proof fn lemma_groups_disjoint(
    links: Seq<(Seq<char>, Option<Seq<char>>)>,
    i: int,
    p: int,
    i2: int,
    p2: int,
)
    requires
        0 <= i < group_links(links).members.len(),
        0 <= p < group_links(links).members[i].len(),
        0 <= i2 < group_links(links).members.len(),
        0 <= p2 < group_links(links).members[i2].len(),
        group_links(links).members[i][p] == group_links(links).members[i2][p2],
    ensures
        i == i2,
        i == i2 ==> p == p2,
{
    lemma_group_links_well_formed(links);
    let g = group_links(links);
    if p < p2 {
        assert(g.members[i][p] != g.members[i][p2]);
    } else if p2 < p {
        assert(g.members[i][p2] != g.members[i][p]);
    }
}

} // verus!

verus! {

/// The sum of a weight over ids.
pub open spec fn sum_ids(ids: Seq<Seq<char>>, f: spec_fn(Seq<char>) -> int) -> int
    decreases ids.len(),
{
    if ids.len() == 0 {
        0
    } else {
        sum_ids(ids.drop_last(), f) + f(ids.last())
    }
}

/// The sum of a weight over the ids of all groups.
pub open spec fn sum_groups(members: Seq<Seq<Seq<char>>>, f: spec_fn(Seq<char>) -> int) -> int
    decreases members.len(),
{
    if members.len() == 0 {
        0
    } else {
        sum_groups(members.drop_last(), f) + sum_ids(members.last(), f)
    }
}

/// The ids that a link puts in groups for the first time.
pub open spec fn new_ids(g: Grouping, selection: Seq<char>, join: Option<Seq<char>>) -> Seq<Seq<char>> {
    match join {
        None => if g.group_of.contains_key(selection) {
            Seq::empty()
        } else {
            seq![selection]
        },
        Some(j) => if g.group_of.contains_key(selection) {
            if g.group_of.contains_key(j) {
                Seq::empty()
            } else {
                seq![j]
            }
        } else if g.group_of.contains_key(j) {
            seq![selection]
        } else if j == selection {
            seq![selection]
        } else {
            seq![j, selection]
        },
    }
}

/// The ids put in groups by a sequence of links, in the order in which they
/// came in.
pub open spec fn added_ids(links: Seq<(Seq<char>, Option<Seq<char>>)>) -> Seq<Seq<char>>
    decreases links.len(),
{
    if links.len() == 0 {
        Seq::empty()
    } else {
        added_ids(links.drop_last()) + new_ids(
            group_links(links.drop_last()),
            links.last().0,
            links.last().1,
        )
    }
}

proof fn lemma_sum_ids_concat(a: Seq<Seq<char>>, b: Seq<Seq<char>>, f: spec_fn(Seq<char>) -> int)
    ensures
        sum_ids(a + b, f) == sum_ids(a, f) + sum_ids(b, f),
    decreases b.len(),
{
    if b.len() == 0 {
        assert(a + b =~= a);
    } else {
        assert((a + b).drop_last() =~= a + b.drop_last());
        lemma_sum_ids_concat(a, b.drop_last(), f);
    }
}

proof fn lemma_sum_ids_remove(b: Seq<Seq<char>>, i: int, f: spec_fn(Seq<char>) -> int)
    requires
        0 <= i < b.len(),
    ensures
        sum_ids(b, f) == sum_ids(b.remove(i), f) + f(b[i]),
    decreases b.len(),
{
    if i == b.len() - 1 {
        assert(b.remove(i) =~= b.drop_last());
    } else {
        assert(b.remove(i).drop_last() =~= b.drop_last().remove(i));
        assert(b.remove(i).last() == b.last());
        lemma_sum_ids_remove(b.drop_last(), i, f);
    }
}

/// Two lists of the same ids, each without repetition, have the same sum.
pub proof fn lemma_sum_ids_reordered(a: Seq<Seq<char>>, b: Seq<Seq<char>>, f: spec_fn(Seq<char>) -> int)
    requires
        a.no_duplicates(),
        b.no_duplicates(),
        forall|x: Seq<char>| a.contains(x) <==> b.contains(x),
    ensures
        sum_ids(a, f) == sum_ids(b, f),
    decreases a.len(),
{
    if a.len() == 0 {
        if b.len() > 0 {
            assert(b.contains(b[0]));
        }
    } else {
        let x = a.last();
        assert(a.contains(x));
        let i = choose|i: int| 0 <= i < b.len() && b[i] == x;
        let a2 = a.drop_last();
        let b2 = b.remove(i);
        assert forall|y: Seq<char>| a2.contains(y) <==> b2.contains(y) by {
            if a2.contains(y) {
                let k = choose|k: int| 0 <= k < a2.len() && a2[k] == y;
                assert(a[k] == y);
                assert(y != x);
                assert(a.contains(y));
                let m = choose|m: int| 0 <= m < b.len() && b[m] == y;
                if m < i {
                    assert(b2[m] == y);
                } else {
                    assert(m != i);
                    assert(b2[m - 1] == y);
                }
            }
            if b2.contains(y) {
                let m = choose|m: int| 0 <= m < b2.len() && b2[m] == y;
                if m < i {
                    assert(b[m] == y);
                    assert(m != i);
                } else {
                    assert(b[m + 1] == y);
                }
                assert(y != x);
                assert(b.contains(y));
                let k = choose|k: int| 0 <= k < a.len() && a[k] == y;
                assert(k != a.len() - 1);
                assert(a2[k] == y);
            }
        }
        assert(b2.no_duplicates()) by {
            assert forall|p: int, q: int| 0 <= p < b2.len() && 0 <= q < b2.len() && p != q implies b2[p]
                != b2[q] by {
                let pp = if p < i { p } else { p + 1 };
                let qq = if q < i { q } else { q + 1 };
                assert(b2[p] == b[pp] && b2[q] == b[qq]);
            }
        }
        lemma_sum_ids_remove(b, i, f);
        lemma_sum_ids_reordered(a2, b2, f);
    }
}

proof fn lemma_sum_groups_add_member(
    members: Seq<Seq<Seq<char>>>,
    i: int,
    x: Seq<char>,
    f: spec_fn(Seq<char>) -> int,
)
    requires
        0 <= i < members.len(),
    ensures
        sum_groups(members.update(i, members[i].push(x)), f) == sum_groups(members, f) + f(x),
    decreases members.len(),
{
    let m2 = members.update(i, members[i].push(x));
    if i == members.len() - 1 {
        assert(m2.drop_last() =~= members.drop_last());
        assert(members[i].push(x).drop_last() =~= members[i]);
    } else {
        assert(m2.drop_last() =~= members.drop_last().update(i, members.drop_last()[i].push(x)));
        lemma_sum_groups_add_member(members.drop_last(), i, x, f);
    }
}

proof fn lemma_sum_single(x: Seq<char>, f: spec_fn(Seq<char>) -> int)
    ensures
        sum_ids(seq![x], f) == f(x),
{
    assert(seq![x].drop_last() =~= Seq::<Seq<char>>::empty());
    assert(sum_ids(Seq::<Seq<char>>::empty(), f) == 0);
    assert(seq![x].last() == x);
}

proof fn lemma_link_sum(g: Grouping, selection: Seq<char>, join: Option<Seq<char>>, f: spec_fn(Seq<char>) -> int)
    requires
        well_formed(g),
    ensures
        sum_groups(link(g, selection, join).members, f) == sum_groups(g.members, f) + sum_ids(
            new_ids(g, selection, join),
            f,
        ),
{
    let g2 = link(g, selection, join);
    let n = new_ids(g, selection, join);
    lemma_sum_single(selection, f);
    match join {
        None => {
            if !g.group_of.contains_key(selection) {
                assert(g2.members.drop_last() =~= g.members);
            }
        },
        Some(j) => {
            lemma_sum_single(j, f);
            if g.group_of.contains_key(selection) {
                if !g.group_of.contains_key(j) {
                    lemma_sum_groups_add_member(g.members, g.group_of[selection], j, f);
                }
            } else if g.group_of.contains_key(j) {
                lemma_sum_groups_add_member(g.members, g.group_of[j], selection, f);
            } else if j == selection {
                assert(g2.members.drop_last() =~= g.members);
            } else {
                assert(g2.members.drop_last() =~= g.members);
                assert(n.drop_last() =~= seq![j]);
            }
        },
    }
}

proof fn lemma_new_ids(g: Grouping, selection: Seq<char>, join: Option<Seq<char>>)
    ensures
        forall|x: Seq<char>|
            link(g, selection, join).group_of.contains_key(x) <==> (g.group_of.contains_key(x)
                || new_ids(g, selection, join).contains(x)),
        forall|k: int|
            0 <= k < new_ids(g, selection, join).len() ==> !g.group_of.contains_key(
                #[trigger] new_ids(g, selection, join)[k],
            ),
        new_ids(g, selection, join).no_duplicates(),
{
    let n = new_ids(g, selection, join);
    let g2 = link(g, selection, join);
    assert forall|x: Seq<char>| g2.group_of.contains_key(x) <==> (g.group_of.contains_key(x) || n.contains(x)) by {
        if n.len() > 0 && n[0] == x {
            assert(n.contains(x));
        }
        if n.len() > 1 && n[1] == x {
            assert(n.contains(x));
        }
    }
}

/// The weights of the ids in the groups add up to the weights of the ids as
/// they came in.
pub proof fn lemma_group_links_sum(links: Seq<(Seq<char>, Option<Seq<char>>)>, f: spec_fn(Seq<char>) -> int)
    ensures
        sum_groups(group_links(links).members, f) == sum_ids(added_ids(links), f),
    decreases links.len(),
{
    if links.len() > 0 {
        let prev = links.drop_last();
        lemma_group_links_sum(prev, f);
        lemma_group_links_well_formed(prev);
        lemma_link_sum(group_links(prev), links.last().0, links.last().1, f);
        lemma_sum_ids_concat(
            added_ids(prev),
            new_ids(group_links(prev), links.last().0, links.last().1),
            f,
        );
    }
}

/// The ids came in once each, and they are the ids in groups.
pub proof fn lemma_added_ids(links: Seq<(Seq<char>, Option<Seq<char>>)>)
    ensures
        added_ids(links).no_duplicates(),
        forall|x: Seq<char>| added_ids(links).contains(x) <==> group_links(links).group_of.contains_key(x),
    decreases links.len(),
{
    if links.len() > 0 {
        let prev = links.drop_last();
        lemma_added_ids(prev);
        let g = group_links(prev);
        let a = added_ids(prev);
        let n = new_ids(g, links.last().0, links.last().1);
        let g2 = group_links(links);
        let c = a + n;
        lemma_new_ids(g, links.last().0, links.last().1);
        assert(added_ids(links) == c);
        assert forall|x: Seq<char>| c.contains(x) <==> g2.group_of.contains_key(x) by {
            if c.contains(x) {
                let k = choose|k: int| 0 <= k < c.len() && c[k] == x;
                if k < a.len() {
                    assert(a[k] == x);
                    assert(a.contains(x));
                } else {
                    assert(n[k - a.len()] == x);
                    assert(n.contains(x));
                }
            }
            if g2.group_of.contains_key(x) {
                if g.group_of.contains_key(x) {
                    assert(a.contains(x));
                    let k = choose|k: int| 0 <= k < a.len() && a[k] == x;
                    assert(c[k] == x);
                } else {
                    assert(n.contains(x));
                    let k = choose|k: int| 0 <= k < n.len() && n[k] == x;
                    assert(c[a.len() + k] == x);
                }
            }
        }
        assert forall|p: int, q: int| 0 <= p < c.len() && 0 <= q < c.len() && p != q implies c[p] != c[q] by {
            if p < a.len() && q < a.len() {
            } else if p >= a.len() && q >= a.len() {
                assert(n[p - a.len()] != n[q - a.len()]);
            } else if p < a.len() {
                assert(a.contains(c[p]));
                assert(!g.group_of.contains_key(n[q - a.len()]));
            } else {
                assert(a.contains(c[q]));
                assert(!g.group_of.contains_key(n[p - a.len()]));
            }
        }
    }
}

} // verus!

verus! {

/// One of the links joins `x` and `y`: one is the id of a unit and the
/// other the id of the unit that it joins.
pub open spec fn joined_by_link(links: Seq<(Seq<char>, Option<Seq<char>>)>, x: Seq<char>, y: Seq<char>) -> bool {
    exists|k: int|
        0 <= k < links.len() && ((#[trigger] links[k].0 == x && links[k].1 == Some(y)) || (links[k].0 == y
            && links[k].1 == Some(x)))
}

/// A chain of ids, each joined by a link to the next one.
pub open spec fn is_chain(links: Seq<(Seq<char>, Option<Seq<char>>)>, path: Seq<Seq<char>>) -> bool {
    &&& path.len() > 0
    &&& forall|t: int| #![trigger path[t]] 0 <= t < path.len() - 1 ==> joined_by_link(links, path[t], path[t + 1])
}

proof fn lemma_chain_push(links: Seq<(Seq<char>, Option<Seq<char>>)>, path: Seq<Seq<char>>, x: Seq<char>)
    requires
        is_chain(links, path),
        joined_by_link(links, path.last(), x),
    ensures
        is_chain(links, path.push(x)),
{
    let p2 = path.push(x);
    assert forall|t: int| #![trigger p2[t]] 0 <= t < p2.len() - 1 implies joined_by_link(links, p2[t], p2[t + 1]) by {
        if t < path.len() - 1 {
            assert(p2[t] == path[t] && p2[t + 1] == path[t + 1]);
        } else {
            assert(p2[t] == path.last() && p2[t + 1] == x);
        }
    }
}

proof fn lemma_prefix_connected(links: Seq<(Seq<char>, Option<Seq<char>>)>, m: int, i: int, p: int)
    requires
        0 <= m <= links.len(),
        0 <= i < group_links(links.take(m)).members.len(),
        0 <= p < group_links(links.take(m)).members[i].len(),
    ensures
        exists|path: Seq<Seq<char>>|
            is_chain(links, path) && path[0] == group_links(links.take(m)).members[i][0] && path.last()
                == #[trigger] group_links(links.take(m)).members[i][p],
    decreases m,
{
    let gm = group_links(links.take(m));
    if m == 0 {
        assert(links.take(0) =~= Seq::<(Seq<char>, Option<Seq<char>>)>::empty());
        assert(false);
    } else {
        let prev = links.take(m - 1);
        assert(links.take(m).drop_last() =~= prev);
        assert(links.take(m).last() == links[m - 1]);
        let g = group_links(prev);
        let s = links[m - 1].0;
        let jo = links[m - 1].1;
        assert(gm == link(g, s, jo));
        lemma_group_links_well_formed(prev);
        let target = gm.members[i][p];
        let first = gm.members[i][0];
        if i < g.members.len() && p < g.members[i].len() && gm.members[i][p] == g.members[i][p]
            && gm.members[i][0] == g.members[i][0] {
            lemma_prefix_connected(links, m - 1, i, p);
        } else if i == g.members.len() {
            // a new group
            if p == 0 {
                let path = seq![first];
                assert(is_chain(links, path));
                assert(path.last() == target);
            } else {
                let j = jo->0;
                assert(gm.members[i] == seq![j, s]);
                assert(links[m - 1].0 == s && links[m - 1].1 == Some(j));
                assert(joined_by_link(links, j, s));
                let path = seq![j, s];
                assert(path[0] == j && path[1] == s);
                assert(is_chain(links, path));
                assert(path.last() == target);
            }
        } else {
            // a member added at the end of an existing group
            assert(p == g.members[i].len());
            assert(gm.members[i] == g.members[i].push(target));
            assert(gm.members[i][0] == g.members[i][0]);
            let other = if jo is Some && target == jo->0 { s } else { jo->0 };
            assert(joined_by_link(links, other, target)) by {
                assert(links[m - 1].0 == s);
            }
            assert(g.group_of.contains_key(other) && g.group_of[other] == i);
            let q = choose|q: int| 0 <= q < g.members[i].len() && g.members[i][q] == other;
            lemma_prefix_connected(links, m - 1, i, q);
            let path = choose|path: Seq<Seq<char>>|
                is_chain(links, path) && path[0] == g.members[i][0] && path.last() == #[trigger] g.members[i][q];
            lemma_chain_push(links, path, target);
            assert(path.push(target)[0] == first);
            assert(path.push(target).last() == target);
        }
    }
}

/// The ids of a group are linked through joins: each is reached from the
/// first id of its group by a chain of links. With `lemma_joined_share_group`,
/// the groups are the connected parts of the links.
pub proof fn lemma_group_connected(links: Seq<(Seq<char>, Option<Seq<char>>)>, i: int, p: int)
    requires
        0 <= i < group_links(links).members.len(),
        0 <= p < group_links(links).members[i].len(),
    ensures
        exists|path: Seq<Seq<char>>|
            is_chain(links, path) && path[0] == group_links(links).members[i][0] && path.last()
                == #[trigger] group_links(links).members[i][p],
{
    assert(links.take(links.len() as int) =~= links);
    lemma_prefix_connected(links, links.len() as int, i, p);
}

} // verus!

verus! {

/// The id `x` appears in one of the first `k` links, as the id of a unit or
/// as the id of the unit that it joins.
pub open spec fn appears_before(links: Seq<(Seq<char>, Option<Seq<char>>)>, k: int, x: Seq<char>) -> bool {
    exists|i: int| 0 <= i < k && (#[trigger] links[i].0 == x || links[i].1 == Some(x))
}

/// The ids in groups after some links are the ids that appear in them.
pub proof fn lemma_grouped_ids_appear(links: Seq<(Seq<char>, Option<Seq<char>>)>, x: Seq<char>)
    ensures
        group_links(links).group_of.contains_key(x) <==> appears_before(links, links.len() as int, x),
{
    if group_links(links).group_of.contains_key(x) {
        lemma_group_links_ids(links, x);
    }
    if appears_before(links, links.len() as int, x) {
        let i = choose|i: int| 0 <= i < links.len() && (#[trigger] links[i].0 == x || links[i].1 == Some(x));
        lemma_every_link_grouped(links, i);
    }
}

/// Linking merges groups exactly when some unit joins another one while
/// both of their ids have already appeared in earlier links.
pub proof fn lemma_merge_free_iff(links: Seq<(Seq<char>, Option<Seq<char>>)>)
    ensures
        merge_free(links) <==> forall|k: int|
            0 <= k < links.len() ==> !(#[trigger] links[k].1 is Some && appears_before(links, k, links[k].0)
                && appears_before(links, k, links[k].1->0)),
{
    assert forall|k: int, x: Seq<char>| 0 <= k <= links.len() implies
        #[trigger] group_links(links.take(k)).group_of.contains_key(x) <==> appears_before(links, k, x) by {
        let t = links.take(k);
        assert(t.len() == k);
        lemma_grouped_ids_appear(t, x);
        if appears_before(t, k, x) {
            let i = choose|i: int| 0 <= i < k && (#[trigger] t[i].0 == x || t[i].1 == Some(x));
            assert(t[i] == links[i]);
            assert(links[i].0 == x || links[i].1 == Some(x));
            assert(appears_before(links, k, x));
        }
        if appears_before(links, k, x) {
            let i = choose|i: int| 0 <= i < k && (#[trigger] links[i].0 == x || links[i].1 == Some(x));
            assert(t[i] == links[i]);
            assert(t[i].0 == x || t[i].1 == Some(x));
            assert(appears_before(t, k, x));
        }
    }
    if merge_free(links) {
        assert forall|k: int| 0 <= k < links.len() implies !(#[trigger] links[k].1 is Some && appears_before(
            links,
            k,
            links[k].0,
        ) && appears_before(links, k, links[k].1->0)) by {
            assert(!merges(group_links(links.take(k)), links[k].0, links[k].1));
        }
    }
    if forall|k: int|
        0 <= k < links.len() ==> !(#[trigger] links[k].1 is Some && appears_before(links, k, links[k].0)
            && appears_before(links, k, links[k].1->0)) {
        assert forall|k: int| 0 <= k < links.len() implies !merges(
            group_links(#[trigger] links.take(k)),
            links[k].0,
            links[k].1,
        ) by {
            if links[k].1 is Some {
                assert(group_links(links.take(k)).group_of.contains_key(links[k].0) == appears_before(
                    links,
                    k,
                    links[k].0,
                ));
                assert(group_links(links.take(k)).group_of.contains_key(links[k].1->0) == appears_before(
                    links,
                    k,
                    links[k].1->0,
                ));
            }
        }
    }
}

} // verus!
