//! The costs of an upgrade option, one per unit that can take it.
//!
//! Army Forge lists them as a sequence of `{ unitId, cost }` records; the
//! library holds them as a map from unit id to cost, in which a later record
//! for the same unit replaces an earlier one.
use vstd::prelude::*;
use vstd::hash_map::StringHashMap;

verus! {

/// One record of the listing: what the option costs for one unit.
#[derive(Debug)]
pub struct Cost {
    pub cost: isize,
    pub unit_id: String,
}

/// The map from unit id to cost that a listing of records describes: each
/// record sets the cost of its unit, later records winning.
pub open spec fn costs_of_records(records: Seq<Cost>) -> Map<Seq<char>, isize>
    decreases records.len(),
{
    if records.len() == 0 {
        Map::empty()
    } else {
        costs_of_records(records.drop_last()).insert(
            records.last().unit_id@,
            records.last().cost,
        )
    }
}

/// A listing of records describes the map `m` exactly, each unit once.
pub open spec fn lists_costs(records: Seq<Cost>, m: Map<Seq<char>, isize>) -> bool {
    &&& forall|i: int, j: int|
        0 <= i < j < records.len() ==> #[trigger] records[i].unit_id@ != #[trigger] records[j].unit_id@
    &&& forall|i: int| 0 <= i < records.len() ==> {
        &&& m.contains_key(#[trigger] records[i].unit_id@)
        &&& m[records[i].unit_id@] == records[i].cost
    }
    &&& forall|k: Seq<char>|
        m.contains_key(k) ==> exists|i: int| 0 <= i < records.len() && #[trigger] records[i].unit_id@ == k
}

/// `keys` lists the keys of `m`, each once.
pub open spec fn keys_list_map(keys: Seq<String>, m: Map<Seq<char>, isize>) -> bool {
    &&& forall|i: int, j: int| 0 <= i < j < keys.len() ==> #[trigger] keys[i]@ != #[trigger] keys[j]@
    &&& forall|i: int| 0 <= i < keys.len() ==> m.contains_key(#[trigger] keys[i]@)
    &&& forall|k: Seq<char>| m.contains_key(k) ==> exists|i: int| 0 <= i < keys.len() && #[trigger] keys[i]@ == k
}

/// The costs of an upgrade option, keyed by unit id, with the order in which
/// the units were first listed.
pub struct CostMap {
    map: StringHashMap<isize>,
    keys: Vec<String>,
}

impl View for CostMap {
    type V = Map<Seq<char>, isize>;

    closed spec fn view(&self) -> Map<Seq<char>, isize> {
        self.map@
    }
}

impl CostMap {
    #[verifier::type_invariant]
    closed spec fn keys_match(self) -> bool {
        keys_list_map(self.keys@, self.map@)
    }

    /// A map with no costs.
    pub fn new() -> (m: CostMap)
        ensures
            m@ == Map::<Seq<char>, isize>::empty(),
    {
        CostMap { map: StringHashMap::new(), keys: Vec::new() }
    }

    /// Whether the map holds a cost for `unit_id`.
    pub fn contains_key(&self, unit_id: &str) -> (b: bool)
        ensures
            b == self@.contains_key(unit_id@),
    {
        self.map.contains_key(unit_id)
    }

    /// The cost for `unit_id`, if the map holds one.
    pub fn get(&self, unit_id: &str) -> (c: Option<isize>)
        ensures
            c == (if self@.contains_key(unit_id@) { Some(self@[unit_id@]) } else { None }),
    {
        match self.map.get(unit_id) {
            Some(c) => Some(*c),
            None => None,
        }
    }
}

/// Reads the listing of records into a map; a later record for a unit
/// replaces an earlier one.
pub fn deserialize(records: Vec<Cost>) -> (m: CostMap)
    ensures
        m@ == costs_of_records(records@),
{
    let mut map: StringHashMap<isize> = StringHashMap::new();
    let mut keys: Vec<String> = Vec::new();
    let n = records.len();
    let mut i: usize = 0;
    while i < n
        invariant
            n == records@.len(),
            0 <= i <= n,
            map@ == costs_of_records(records@.take(i as int)),
            forall|a: int, b: int| 0 <= a < b < keys@.len() ==> #[trigger] keys@[a]@ != #[trigger] keys@[b]@,
            forall|a: int| 0 <= a < keys@.len() ==> map@.contains_key(#[trigger] keys@[a]@),
            forall|k: Seq<char>|
                map@.contains_key(k) ==> exists|a: int| 0 <= a < keys@.len() && #[trigger] keys@[a]@ == k,
        decreases n - i,
    {
        let record = &records[i];
        assert(records@.take(i + 1).drop_last() == records@.take(i as int));
        if !map.contains_key(record.unit_id.as_str()) {
            let ghost old_keys = keys@;
            keys.push(record.unit_id.clone());
            assert forall|k: Seq<char>|
                map@.insert(record.unit_id@, record.cost).contains_key(k) implies exists|a: int|
                    0 <= a < keys@.len() && #[trigger] keys@[a]@ == k by {
                if k == record.unit_id@ {
                    assert(keys@[keys@.len() - 1]@ == k);
                } else {
                    let a = choose|a: int| 0 <= a < old_keys.len() && #[trigger] old_keys[a]@ == k;
                    assert(keys@[a]@ == k);
                }
            }
        }
        map.insert(record.unit_id.clone(), record.cost);
        i = i + 1;
    }
    assert(records@.take(n as int) == records@);
    assert(keys_list_map(keys@, map@));
    CostMap { map, keys }
}

/// Lists the map as records, one per unit, in the order in which the units
/// were first listed.
pub fn serialize(map: &CostMap) -> (records: Vec<Cost>)
    ensures
        lists_costs(records@, map@),
{
    proof {
        use_type_invariant(map);
    }
    let mut records: Vec<Cost> = Vec::new();
    let n = map.keys.len();
    let mut i: usize = 0;
    while i < n
        invariant
            n == map.keys@.len(),
            0 <= i <= n,
            records@.len() == i,
            forall|a: int| 0 <= a < i ==> #[trigger] records@[a].unit_id@ == map.keys@[a]@,
            forall|a: int| 0 <= a < i ==> #[trigger] records@[a].cost == map@[map.keys@[a]@],
            forall|a: int, b: int| 0 <= a < b < n ==> #[trigger] map.keys@[a]@ != #[trigger] map.keys@[b]@,
            forall|a: int| 0 <= a < n ==> map@.contains_key(#[trigger] map.keys@[a]@),
        decreases n - i,
    {
        let key = &map.keys[i];
        let cost = match map.get(key.as_str()) {
            Some(c) => c,
            None => 0,
        };
        records.push(Cost { cost, unit_id: key.clone() });
        i = i + 1;
    }
    assert forall|k: Seq<char>| map@.contains_key(k) implies exists|a: int|
        0 <= a < records@.len() && #[trigger] records@[a].unit_id@ == k by {
        let a = choose|a: int| 0 <= a < map.keys@.len() && #[trigger] map.keys@[a]@ == k;
        assert(records@[a].unit_id@ == k);
    }
    assert forall|a: int, b: int| 0 <= a < b < records@.len() implies
        #[trigger] records@[a].unit_id@ != #[trigger] records@[b].unit_id@ by {
        assert(map.keys@[a]@ != map.keys@[b]@);
    }
    records
}

} // verus!

verus! {

/// A listing that describes a map, each unit once, reads back as that map.
pub proof fn lemma_listing_reads_back(records: Seq<Cost>, m: Map<Seq<char>, isize>)
    requires
        lists_costs(records, m),
    ensures
        costs_of_records(records) == m,
    decreases records.len(),
{
    if records.len() == 0 {
        assert(m =~= Map::<Seq<char>, isize>::empty()) by {
            assert forall|k: Seq<char>| !m.contains_key(k) by {
                if m.contains_key(k) {
                    let i = choose|i: int| 0 <= i < records.len() && #[trigger] records[i].unit_id@ == k;
                }
            }
        }
    } else {
        let rest = records.drop_last();
        let last = records.last();
        let m2 = m.remove(last.unit_id@);
        assert(lists_costs(rest, m2)) by {
            assert forall|i: int| 0 <= i < rest.len() implies {
                &&& m2.contains_key(#[trigger] rest[i].unit_id@)
                &&& m2[rest[i].unit_id@] == rest[i].cost
            } by {
                assert(records[i] == rest[i]);
                assert(records[i].unit_id@ != records[records.len() - 1].unit_id@);
            }
            assert forall|k: Seq<char>| m2.contains_key(k) implies exists|i: int|
                0 <= i < rest.len() && #[trigger] rest[i].unit_id@ == k by {
                let i = choose|i: int| 0 <= i < records.len() && #[trigger] records[i].unit_id@ == k;
                assert(i != records.len() - 1);
                assert(rest[i] == records[i]);
            }
            assert forall|i: int, j: int| 0 <= i < j < rest.len() implies
                #[trigger] rest[i].unit_id@ != #[trigger] rest[j].unit_id@ by {
                assert(records[i] == rest[i] && records[j] == rest[j]);
            }
        }
        lemma_listing_reads_back(rest, m2);
        assert(records[records.len() - 1] == last);
        assert(m2.insert(last.unit_id@, last.cost) =~= m);
    }
}

/// Reading back the listing of a map gives the same map.
pub proof fn lemma_serialize_deserialize(map: CostMap, records: Seq<Cost>)
    requires
        lists_costs(records, map@),
    ensures
        costs_of_records(records) == map@,
{
    lemma_listing_reads_back(records, map@);
}

} // verus!

verus! {

/// Reading records, a unit has a cost exactly when some record names it, and
/// its cost is that of the last record that names it.
pub proof fn lemma_last_record_wins(records: Seq<Cost>, k: Seq<char>)
    ensures
        costs_of_records(records).contains_key(k) <==> exists|i: int|
            0 <= i < records.len() && #[trigger] records[i].unit_id@ == k,
        forall|i: int|
            0 <= i < records.len() && #[trigger] records[i].unit_id@ == k && (forall|j: int|
                i < j < records.len() ==> records[j].unit_id@ != k) ==> costs_of_records(records)[k]
                == records[i].cost,
    decreases records.len(),
{
    if records.len() > 0 {
        let rest = records.drop_last();
        lemma_last_record_wins(rest, k);
        if exists|i: int| 0 <= i < rest.len() && #[trigger] rest[i].unit_id@ == k {
            let i = choose|i: int| 0 <= i < rest.len() && #[trigger] rest[i].unit_id@ == k;
            assert(records[i] == rest[i]);
        }
        if exists|i: int| 0 <= i < records.len() && #[trigger] records[i].unit_id@ == k {
            let i = choose|i: int| 0 <= i < records.len() && #[trigger] records[i].unit_id@ == k;
            if i < records.len() - 1 {
                assert(rest[i] == records[i]);
            }
        }
        assert forall|i: int|
            0 <= i < records.len() && #[trigger] records[i].unit_id@ == k && (forall|j: int|
                i < j < records.len() ==> records[j].unit_id@ != k) implies costs_of_records(records)[k]
            == records[i].cost by {
            if i < records.len() - 1 {
                assert(records[records.len() - 1].unit_id@ != k);
                assert(rest[i] == records[i]);
                assert forall|j: int| i < j < rest.len() implies rest[j].unit_id@ != k by {
                    assert(rest[j] == records[j]);
                }
            }
        }
    }
}

} // verus!
