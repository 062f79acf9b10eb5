//! The replication ledger: for every value this node has observed, the
//! neighbors known to have acknowledged it.

use std::collections::HashMap;
use vstd::prelude::*;
use vstd::std_specs::iter::IteratorSpec;

verus! {

broadcast use vstd::std_specs::hash::group_hash_axioms;

/// The identifiers held by a list of node names, as a set.
pub open spec fn names(list: Seq<String>) -> Set<Seq<char>> {
    Set::new(|name: Seq<char>| exists|i: int| 0 <= i < list.len() && #[trigger] list[i]@ == name)
}

/// The identifiers held by a list of node names, in order.
pub open spec fn name_seq(list: Seq<String>) -> Seq<Seq<char>> {
    list.map_values(|name: String| name@)
}

/// Those of `neighbors`, in order, that are not in `acked`.
pub open spec fn unacknowledged(neighbors: Seq<Seq<char>>, acked: Set<Seq<char>>) -> Seq<
    Seq<char>,
> {
    neighbors.filter(outside(acked))
}

/// The test for not being a member of `acked`.
pub open spec fn outside(acked: Set<Seq<char>>) -> spec_fn(Seq<char>) -> bool {
    |name: Seq<char>| !acked.contains(name)
}

/// `unacknowledged` keeps exactly the neighbors outside `acked`, and
/// repeats none if `neighbors` repeats none.
pub proof fn lemma_unacknowledged(neighbors: Seq<Seq<char>>, acked: Set<Seq<char>>)
    ensures
        forall|name: Seq<char>| #[trigger]
            unacknowledged(neighbors, acked).contains(name) <==> neighbors.contains(name)
                && !acked.contains(name),
        neighbors.no_duplicates() ==> unacknowledged(neighbors, acked).no_duplicates(),
    decreases neighbors.len(),
{
    reveal(Seq::filter);
    let pred = outside(acked);
    if neighbors.len() > 0 {
        let front = neighbors.drop_last();
        let last = neighbors.last();
        lemma_unacknowledged(front, acked);
        let kept = unacknowledged(front, acked);
        let all = unacknowledged(neighbors, acked);
        assert(neighbors =~= front.push(last));
        assert(all == if pred(last) {
            kept.push(last)
        } else {
            kept
        });
        assert forall|name: Seq<char>| #[trigger]
            all.contains(name) <==> neighbors.contains(name) && !acked.contains(name) by {
            if all.contains(name) {
                let k = choose|k: int| 0 <= k < all.len() && all[k] == name;
                if k < kept.len() {
                    assert(kept[k] == name);
                    assert(kept.contains(name));
                    let j = choose|j: int| 0 <= j < front.len() && front[j] == name;
                    assert(neighbors[j] == name);
                } else {
                    assert(name == last);
                    assert(neighbors[neighbors.len() - 1] == name);
                }
            }
            if neighbors.contains(name) && !acked.contains(name) {
                let j = choose|j: int| 0 <= j < neighbors.len() && neighbors[j] == name;
                if j < front.len() {
                    assert(front[j] == name);
                    assert(kept.contains(name));
                    let k = choose|k: int| 0 <= k < kept.len() && kept[k] == name;
                    assert(all[k] == name);
                } else {
                    assert(all[all.len() - 1] == name);
                }
            }
        }
        if neighbors.no_duplicates() {
            assert forall|a: int, b: int| 0 <= a < b < front.len() implies front[a] != front[b] by {
                assert(front[a] == neighbors[a] && front[b] == neighbors[b]);
            }
            if pred(last) {
                assert forall|a: int, b: int| 0 <= a < b < all.len() implies all[a] != all[b] by {
                    if b == all.len() - 1 {
                        if all[a] == last {
                            assert(kept[a] == last);
                            assert(kept.contains(last));
                            let j = choose|j: int| 0 <= j < front.len() && front[j] == last;
                            assert(neighbors[j] == neighbors[neighbors.len() - 1]);
                        }
                    } else {
                        assert(kept[a] != kept[b]);
                    }
                }
            }
        }
    } else {
        assert(unacknowledged(neighbors, acked) =~= Seq::<Seq<char>>::empty());
    }
}

/// A ledger after `value` has been observed: a new value enters with no
/// acknowledger, a known one changes nothing.
pub open spec fn after_observe(ledger: Map<usize, Set<Seq<char>>>, value: usize) -> Map<
    usize,
    Set<Seq<char>>,
> {
    if ledger.contains_key(value) {
        ledger
    } else {
        ledger.insert(value, Set::empty())
    }
}

/// A ledger after `neighbor` has acknowledged `value`: the neighbor joins
/// the acknowledgers of a known value, an unknown value changes nothing.
pub open spec fn after_acknowledge(
    ledger: Map<usize, Set<Seq<char>>>,
    value: usize,
    neighbor: Seq<char>,
) -> Map<usize, Set<Seq<char>>> {
    if ledger.contains_key(value) {
        ledger.insert(value, ledger[value].insert(neighbor))
    } else {
        ledger
    }
}

/// Whether `after` holds all that `before` holds: every value of `before`,
/// and for each of them every acknowledger it had.
pub open spec fn grows(before: Map<usize, Set<Seq<char>>>, after: Map<usize, Set<Seq<char>>>)
    -> bool {
    forall|value: usize| #[trigger]
        before.contains_key(value) ==> after.contains_key(value) && before[value].subset_of(
            after[value],
        )
}

/// Observing a value a second time changes nothing and is not a first
/// observation: whatever the ledger held before, after one observation the
/// value is known, and a further one leaves the ledger as it is.
pub proof fn lemma_observe_idempotent(ledger: Map<usize, Set<Seq<char>>>, value: usize)
    ensures
        after_observe(ledger, value).contains_key(value),
        after_observe(after_observe(ledger, value), value) == after_observe(ledger, value),
{
}

/// No operation of the ledger forgets a value or an acknowledger.
pub proof fn lemma_ledger_grows(
    ledger: Map<usize, Set<Seq<char>>>,
    value: usize,
    neighbor: Seq<char>,
)
    ensures
        grows(ledger, after_observe(ledger, value)),
        grows(ledger, after_acknowledge(ledger, value, neighbor)),
        grows(ledger, ledger),
{
}

/// What two successive changes each keep, both together keep.
pub proof fn lemma_grows_transitive(
    first: Map<usize, Set<Seq<char>>>,
    second: Map<usize, Set<Seq<char>>>,
    third: Map<usize, Set<Seq<char>>>,
)
    requires
        grows(first, second),
        grows(second, third),
    ensures
        grows(first, third),
{
    assert forall|value: usize| #[trigger] first.contains_key(value) implies third.contains_key(
        value,
    ) && first[value].subset_of(third[value]) by {
        assert(second.contains_key(value));
    }
}

/// Per-value acknowledgment sets. An entry is created when a value is first
/// observed and is never removed.
pub struct Ledger {
    entries: HashMap<usize, Vec<String>>,
}

impl View for Ledger {
    type V = Map<usize, Set<Seq<char>>>;

    closed spec fn view(&self) -> Map<usize, Set<Seq<char>>> {
        Map::new(|v: usize| self.entries@.contains_key(v), |v: usize| names(self.entries@[v]@))
    }
}

/// Whether `name` occurs in `list`.
pub fn contains_name(list: &Vec<String>, name: &String) -> (found: bool)
    ensures
        found == names(list@).contains(name@),
{
    let mut i: usize = 0;
    while i < list.len()
        invariant
            i <= list.len(),
            forall|j: int| 0 <= j < i ==> list@[j]@ != name@,
        decreases list.len() - i,
    {
        if list[i] == *name {
            return true;
        }
        i += 1;
    }
    false
}

/// The neighbors, in the order of `all_neighbors`, that `acks` does not
/// hold.
pub fn missing_neighbors(all_neighbors: &Vec<String>, acks: &Vec<String>) -> (missing: Vec<String>)
    ensures
        name_seq(missing@) == unacknowledged(name_seq(all_neighbors@), names(acks@)),
{
    let mut missing: Vec<String> = Vec::new();
    let ghost acked = names(acks@);
    let ghost pred = outside(acked);
    let mut i: usize = 0;
    assert(name_seq(all_neighbors@.take(0)) =~= Seq::<Seq<char>>::empty());
    assert(Seq::<Seq<char>>::empty().filter(pred) =~= Seq::<Seq<char>>::empty()) by {
        reveal(Seq::filter);
    }
    assert(name_seq(missing@) =~= Seq::<Seq<char>>::empty());
    while i < all_neighbors.len()
        invariant
            i <= all_neighbors.len(),
            acked == names(acks@),
            pred == outside(acked),
            name_seq(missing@) == name_seq(all_neighbors@.take(i as int)).filter(pred),
        decreases all_neighbors.len() - i,
    {
        let ghost before = name_seq(all_neighbors@.take(i as int));
        let ghost out_before = missing@;
        let absent = !contains_name(acks, &all_neighbors[i]);
        if absent {
            missing.push(all_neighbors[i].clone());
        }
        proof {
            let next = name_seq(all_neighbors@.take(i + 1));
            let name = all_neighbors@[i as int]@;
            assert(next =~= before.push(name));
            assert(next.drop_last() =~= before);
            assert(next.last() == name);
            assert(pred(name) == absent);
            before.lemma_filter_push(name, pred);
            if absent {
                assert(name_seq(missing@) =~= name_seq(out_before).push(name));
            }
        }
        i += 1;
    }
    assert(all_neighbors@.take(i as int) =~= all_neighbors@);
    missing
}

impl Ledger {
    /// A ledger that knows no value.
    pub fn new() -> (ledger: Ledger)
        ensures
            ledger@ == Map::<usize, Set<Seq<char>>>::empty(),
    {
        let ledger = Ledger { entries: HashMap::new() };
        assert(ledger@ =~= Map::<usize, Set<Seq<char>>>::empty());
        ledger
    }

    /// Whether `value` has been observed.
    pub fn contains(&self, value: usize) -> (known: bool)
        ensures
            known == self@.contains_key(value),
    {
        self.entries.contains_key(&value)
    }

    /// Records a local observation of `value`. Returns `true` exactly when
    /// this is the first one; then the value enters the ledger with no
    /// acknowledger. Otherwise nothing changes.
    pub fn observe(&mut self, value: usize) -> (first: bool)
        ensures
            first == !old(self)@.contains_key(value),
            final(self)@ == after_observe(old(self)@, value),
    {
        if self.entries.contains_key(&value) {
            return false;
        }
        self.entries.insert(value, Vec::new());
        assert(names(Seq::<String>::empty()) =~= Set::<Seq<char>>::empty());
        assert(self@ =~= old(self)@.insert(value, Set::empty()));
        true
    }

    /// Records that `neighbor` has acknowledged `value`. A value that was
    /// never observed is left unknown, and nothing changes.
    pub fn acknowledge(&mut self, value: usize, neighbor: String)
        ensures
            final(self)@ == after_acknowledge(old(self)@, value, neighbor@),
    {
        match self.entries.remove(&value) {
            None => {
                assert(self@ =~= old(self)@);
            },
            Some(acks) => {
                let mut acks = acks;
                let ghost before = acks@;
                if !contains_name(&acks, &neighbor) {
                    acks.push(neighbor);
                }
                assert(names(acks@) =~= names(before).insert(neighbor@)) by {
                    assert forall|n: Seq<char>| names(before).insert(neighbor@).contains(n)
                        implies names(acks@).contains(n) by {
                        if names(before).contains(n) {
                            let i = choose|i: int| 0 <= i < before.len() && before[i]@ == n;
                            assert(acks@[i]@ == n);
                        } else {
                            assert(acks@[before.len() as int]@ == n);
                        }
                    }
                    assert forall|n: Seq<char>| names(acks@).contains(n)
                        implies names(before).insert(neighbor@).contains(n) by {
                        let i = choose|i: int| 0 <= i < acks@.len() && acks@[i]@ == n;
                        if i < before.len() {
                            assert(before[i]@ == n);
                        }
                    }
                }
                self.entries.insert(value, acks);
                assert(self@ =~= old(self)@.insert(value, old(self)@[value].insert(neighbor@)));
            },
        }
    }

    /// Every observed value, each once, in no particular order.
    pub fn all_values(&self) -> (values: Vec<usize>)
        ensures
            values@.no_duplicates(),
            values@.to_set() == self@.dom(),
    {
        let mut values: Vec<usize> = Vec::new();
        let ghost keys = self.entries.keys().remaining();
        for key in it: self.entries.keys()
            invariant
                it.seq() == keys,
                values@.len() == it.index(),
                forall|j: int| 0 <= j < values@.len() ==> values@[j] == *keys[j],
        {
            values.push(*key);
        }
        assert(values@ =~= keys.unref());
        assert(values@.to_set() =~= self@.dom());
        values
    }

    /// For every observed value, the neighbors among `all_neighbors` that
    /// have not acknowledged it, in the order of `all_neighbors`. Each
    /// observed value has exactly one entry, fully acknowledged ones
    /// included; the order of the entries is not fixed.
    pub fn snapshot_missing_acks(&self, all_neighbors: &Vec<String>) -> (snapshot: Vec<
        (usize, Vec<String>),
    >)
        ensures
            snapshot@.map_values(|entry: (usize, Vec<String>)| entry.0).no_duplicates(),
            snapshot@.map_values(|entry: (usize, Vec<String>)| entry.0).to_set() == self@.dom(),
            forall|i: int|
                0 <= i < snapshot@.len() ==> name_seq((#[trigger] snapshot@[i]).1@)
                    == unacknowledged(name_seq(all_neighbors@), self@[snapshot@[i].0]),
    {
        let values = self.all_values();
        let mut snapshot: Vec<(usize, Vec<String>)> = Vec::new();
        let mut i: usize = 0;
        while i < values.len()
            invariant
                i <= values.len(),
                values@.to_set() == self@.dom(),
                snapshot@.len() == i,
                forall|j: int| 0 <= j < i ==> (#[trigger] snapshot@[j]).0 == values@[j],
                forall|j: int|
                    0 <= j < i ==> name_seq((#[trigger] snapshot@[j]).1@) == unacknowledged(
                        name_seq(all_neighbors@),
                        self@[snapshot@[j].0],
                    ),
            decreases values.len() - i,
        {
            let value = values[i];
            assert(values@.to_set().contains(value));
            match self.entries.get(&value) {
                Some(acks) => {
                    let missing = missing_neighbors(all_neighbors, acks);
                    snapshot.push((value, missing));
                },
                None => {
                    assert(false);
                },
            }
            i += 1;
        }
        assert(snapshot@.map_values(|entry: (usize, Vec<String>)| entry.0) =~= values@);
        snapshot
    }
}

} // verus!
