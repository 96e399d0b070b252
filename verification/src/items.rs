//! Quantities of resources: the rates a recipe consumes or produces, and the
//! totals that a resolved tree adds up.
//!
//! A rate is a whole number of thousandths of an item per minute, so `30.0`
//! items per minute is `30_000` and `1.875` is `1_875`.

use vstd::prelude::*;
use crate::resources::Resource;

verus! {

/// How many rate units make one item per minute.
pub const RATE_SCALE: u64 = 1000;

/// No resource is listed twice.
pub open spec fn distinct_keys<V>(s: Seq<(Resource, V)>) -> bool {
    forall|i: int, j: int| 0 <= i < j < s.len() ==> s[i].0 != s[j].0
}

/// `resource` is listed in `s`.
pub open spec fn has_key<V>(s: Seq<(Resource, V)>, resource: Resource) -> bool {
    exists|i: int| 0 <= i < s.len() && #[trigger] s[i].0 == resource
}

/// A position at which `resource` is listed in `s`; meaningful when
/// `has_key(s, resource)`, and the only such position when the keys are
/// distinct.
pub open spec fn key_index<V>(s: Seq<(Resource, V)>, resource: Resource) -> int {
    choose|i: int| 0 <= i < s.len() && #[trigger] s[i].0 == resource
}

/// The value listed for `resource`, if any.
pub open spec fn lookup<V>(s: Seq<(Resource, V)>, resource: Resource) -> Option<V> {
    if has_key(s, resource) {
        Some(s[key_index(s, resource)].1)
    } else {
        None
    }
}

/// The resources listed in `s`, in order.
pub open spec fn keys<V>(s: Seq<(Resource, V)>) -> Seq<Resource> {
    Seq::new(s.len(), |i: int| s[i].0)
}

/// `s` after `resource` has been given `value`: an existing entry keeps its
/// place and takes the new value, a new one goes to the end.
pub open spec fn with_entry<V>(s: Seq<(Resource, V)>, resource: Resource, value: V) -> Seq<
    (Resource, V),
> {
    if has_key(s, resource) {
        s.update(key_index(s, resource), (resource, value))
    } else {
        s.push((resource, value))
    }
}

/// The rate listed for `resource` in `s`, zero when it is not listed. Entries
/// of the same resource add up; with distinct keys there is at most one.
pub open spec fn amount_of(s: Seq<(Resource, u64)>, resource: Resource) -> nat
    decreases s.len(),
{
    if s.len() == 0 {
        0
    } else {
        amount_of(s.drop_last(), resource) + if s.last().0 == resource {
            s.last().1 as nat
        } else {
            0
        }
    }
}

/// With distinct keys, a listed position is the position `key_index` names.
pub proof fn lemma_key_index_unique<V>(s: Seq<(Resource, V)>, i: int)
    requires
        distinct_keys(s),
        0 <= i < s.len(),
    ensures
        has_key(s, s[i].0),
        key_index(s, s[i].0) == i,
{
    let r = s[i].0;
    assert(has_key(s, r));
    let j = key_index(s, r);
    assert(0 <= j < s.len() && s[j].0 == r);
    if j != i {
        if j < i {
            assert(s[j].0 != s[i].0);
        } else {
            assert(s[i].0 != s[j].0);
        }
    }
}

/// Giving a resource a value keeps the keys distinct.
pub proof fn lemma_with_entry_distinct<V>(s: Seq<(Resource, V)>, resource: Resource, value: V)
    requires
        distinct_keys(s),
    ensures
        distinct_keys(with_entry(s, resource, value)),
        lookup(with_entry(s, resource, value), resource) == Some(value),
        forall|other: Resource|
            other != resource ==> lookup(with_entry(s, resource, value), other) == lookup(
                s,
                other,
            ),
{
    let t = with_entry(s, resource, value);
    if has_key(s, resource) {
        let k = key_index(s, resource);
        assert(forall|i: int| 0 <= i < s.len() ==> t[i].0 == s[i].0);
        assert(distinct_keys(t));
        assert(t[k].0 == resource);
        lemma_key_index_unique(t, k);
        assert forall|other: Resource| other != resource implies lookup(t, other) == lookup(
            s,
            other,
        ) by {
            if has_key(s, other) {
                let i = key_index(s, other);
                assert(t[i].0 == other);
                lemma_key_index_unique(t, i);
            } else if has_key(t, other) {
                let i = key_index(t, other);
                assert(s[i].0 == other);
            }
        }
    } else {
        let n = s.len() as int;
        assert(forall|i: int| 0 <= i < n ==> t[i] == s[i]);
        assert forall|i: int, j: int| 0 <= i < j < t.len() implies t[i].0 != t[j].0 by {
            if j == n {
                assert(s[i].0 != resource);
            }
        }
        assert(t[n].0 == resource);
        lemma_key_index_unique(t, n);
        assert forall|other: Resource| other != resource implies lookup(t, other) == lookup(
            s,
            other,
        ) by {
            if has_key(s, other) {
                let i = key_index(s, other);
                assert(t[i].0 == other);
                lemma_key_index_unique(t, i);
            } else if has_key(t, other) {
                let i = key_index(t, other);
                assert(i < n);
                assert(s[i].0 == other);
            }
        }
    }
}

/// With distinct keys, `amount_of` is the one rate listed, or zero.
pub proof fn lemma_amount_of_distinct(s: Seq<(Resource, u64)>, resource: Resource)
    requires
        distinct_keys(s),
    ensures
        amount_of(s, resource) == match lookup(s, resource) {
            Some(amount) => amount as nat,
            None => 0,
        },
        amount_of(s, resource) <= u64::MAX,
    decreases s.len(),
{
    if s.len() > 0 {
        let n = s.len() - 1;
        let front = s.drop_last();
        assert(forall|i: int| 0 <= i < n ==> front[i] == s[i]);
        assert(distinct_keys(front));
        lemma_amount_of_distinct(front, resource);
        if s.last().0 == resource {
            assert(s[n].0 == resource);
            lemma_key_index_unique(s, n);
            if has_key(front, resource) {
                let i = key_index(front, resource);
                assert(s[i].0 != s[n].0);
            }
        } else {
            if has_key(front, resource) {
                let i = key_index(front, resource);
                assert(s[i].0 == resource);
                lemma_key_index_unique(s, i);
            } else if has_key(s, resource) {
                let i = key_index(s, resource);
                assert(front[i].0 == resource);
            }
        }
    }
}

/// The position at which `resource` is listed, if it is.
pub(crate) fn position<V>(entries: &Vec<(Resource, V)>, resource: Resource) -> (at: Option<usize>)
    requires
        distinct_keys(entries@),
    ensures
        match at {
            Some(i) => i < entries@.len() && has_key(entries@, resource) && key_index(
                entries@,
                resource,
            ) == i && entries@[i as int].0 == resource,
            None => !has_key(entries@, resource),
        },
{
    let mut i: usize = 0;
    while i < entries.len()
        invariant
            i <= entries.len(),
            distinct_keys(entries@),
            forall|j: int| 0 <= j < i ==> entries@[j].0 != resource,
        decreases entries.len() - i,
    {
        if entries[i].0 == resource {
            proof {
                lemma_key_index_unique(entries@, i as int);
            }
            return Some(i);
        }
        i += 1;
    }
    None
}

/// Gives `resource` the value `value`, in place where it is listed and at the
/// end where it is not.
pub(crate) fn put<V>(entries: &mut Vec<(Resource, V)>, resource: Resource, value: V)
    requires
        distinct_keys(old(entries)@),
    ensures
        final(entries)@ == with_entry(old(entries)@, resource, value),
        distinct_keys(final(entries)@),
{
    proof {
        lemma_with_entry_distinct(entries@, resource, value);
    }
    match position(entries, resource) {
        Some(i) => {
            entries.set(i, (resource, value));
        },
        None => {
            entries.push((resource, value));
        },
    }
}

/// The pairs of `pairs` taken in order into a list with distinct keys: a
/// resource that comes again takes the later rate at its first place.
pub open spec fn collected(pairs: Seq<(Resource, u64)>) -> Seq<(Resource, u64)>
    decreases pairs.len(),
{
    if pairs.len() == 0 {
        Seq::empty()
    } else {
        with_entry(collected(pairs.drop_last()), pairs.last().0, pairs.last().1)
    }
}

/// Pairs with distinct keys are collected as they stand.
pub proof fn lemma_collected_distinct(pairs: Seq<(Resource, u64)>)
    requires
        distinct_keys(pairs),
    ensures
        collected(pairs) == pairs,
    decreases pairs.len(),
{
    if pairs.len() > 0 {
        let n = pairs.len() - 1;
        let front = pairs.drop_last();
        assert(forall|i: int| 0 <= i < n ==> front[i] == pairs[i]);
        lemma_collected_distinct(front);
        assert(!has_key(front, pairs[n].0)) by {
            if has_key(front, pairs[n].0) {
                let i = key_index(front, pairs[n].0);
                assert(pairs[i].0 != pairs[n].0);
            }
        }
        assert(front.push(pairs[n]) =~= pairs);
    }
}

/// The rates of a recipe's inputs or outputs, one per resource, in the order
/// in which the resources were first given.
#[derive(Debug)]
pub struct ItemMap {
    entries: Vec<(Resource, u64)>,
}

impl View for ItemMap {
    type V = Seq<(Resource, u64)>;

    closed spec fn view(&self) -> Seq<(Resource, u64)> {
        self.entries@
    }
}

impl ItemMap {
    #[verifier::type_invariant]
    spec fn well_formed(self) -> bool {
        distinct_keys(self.entries@)
    }

    /// An empty map.
    pub fn new() -> (items: ItemMap)
        ensures
            items@ == Seq::<(Resource, u64)>::empty(),
    {
        ItemMap { entries: Vec::new() }
    }

    /// A map of the given pairs, taken in order; where a resource comes
    /// twice the later rate replaces the earlier one.
    pub fn from_pairs(pairs: Vec<(Resource, u64)>) -> (items: ItemMap)
        ensures
            items@ == collected(pairs@),
            distinct_keys(pairs@) ==> items@ == pairs@,
            distinct_keys(items@),
    {
        let mut items = ItemMap::new();
        let mut i: usize = 0;
        assert(pairs@.take(0) =~= Seq::<(Resource, u64)>::empty());
        while i < pairs.len()
            invariant
                i <= pairs.len(),
                items@ == collected(pairs@.take(i as int)),
            decreases pairs.len() - i,
        {
            let pair = pairs[i];
            proof {
                let next = pairs@.take(i as int + 1);
                assert(next.drop_last() =~= pairs@.take(i as int));
                assert(next.last() == pair);
            }
            items.insert(pair.0, pair.1);
            i += 1;
        }
        assert(pairs@.take(i as int) =~= pairs@);
        proof {
            use_type_invariant(&items);
            if distinct_keys(pairs@) {
                lemma_collected_distinct(pairs@);
            }
        }
        items
    }

    /// Gives `resource` the rate `amount`. Returns the rate it had before,
    /// if it was listed.
    pub fn insert(&mut self, resource: Resource, amount: u64) -> (previous: Option<u64>)
        ensures
            previous == lookup(old(self)@, resource),
            final(self)@ == with_entry(old(self)@, resource, amount),
            distinct_keys(final(self)@),
    {
        proof {
            use_type_invariant(&*self);
            lemma_with_entry_distinct(self@, resource, amount);
        }
        let previous = self.get(resource);
        let mut entries: Vec<(Resource, u64)> = Vec::new();
        core::mem::swap(&mut self.entries, &mut entries);
        put(&mut entries, resource, amount);
        self.entries = entries;
        previous
    }

    /// The rate listed for `resource`, if any.
    pub fn get(&self, resource: Resource) -> (amount: Option<u64>)
        ensures
            amount == lookup(self@, resource),
            amount_of(self@, resource) == match amount {
                Some(a) => a as nat,
                None => 0,
            },
    {
        proof {
            use_type_invariant(self);
            lemma_amount_of_distinct(self@, resource);
        }
        match position(&self.entries, resource) {
            Some(i) => Some(self.entries[i].1),
            None => None,
        }
    }

    /// Whether `resource` is listed.
    pub fn contains_key(&self, resource: Resource) -> (found: bool)
        ensures
            found == has_key(self@, resource),
    {
        self.get(resource).is_some()
    }

    /// The number of resources listed.
    pub fn len(&self) -> (n: usize)
        ensures
            n == self@.len(),
    {
        self.entries.len()
    }

    /// Whether no resource is listed.
    pub fn is_empty(&self) -> (empty: bool)
        ensures
            empty == (self@.len() == 0),
    {
        self.entries.len() == 0
    }

    /// The entries in order, no resource twice.
    pub fn entries(&self) -> (entries: &Vec<(Resource, u64)>)
        ensures
            entries@ == self@,
            distinct_keys(self@),
    {
        proof {
            use_type_invariant(self);
        }
        &self.entries
    }
}

impl Clone for ItemMap {
    fn clone(&self) -> (copy: ItemMap)
        ensures
            copy@ == self@,
    {
        proof {
            use_type_invariant(self);
        }
        let mut entries: Vec<(Resource, u64)> = Vec::new();
        let mut i: usize = 0;
        while i < self.entries.len()
            invariant
                i <= self.entries.len(),
                entries@ == self.entries@.take(i as int),
            decreases self.entries.len() - i,
        {
            entries.push(self.entries[i]);
            assert(self.entries@.take(i as int).push(self.entries@[i as int])
                =~= self.entries@.take(i as int + 1));
            i += 1;
        }
        assert(self.entries@.take(i as int) =~= self.entries@);
        ItemMap { entries }
    }
}

/// The total recorded for `resource`, zero when none is.
pub open spec fn total_of(totals: Map<Resource, nat>, resource: Resource) -> nat {
    if totals.dom().contains(resource) {
        totals[resource]
    } else {
        0
    }
}

/// The map that lists the resources of `s` with their values.
pub open spec fn as_map(s: Seq<(Resource, u128)>) -> Map<Resource, nat> {
    Map::new(|r: Resource| has_key(s, r), |r: Resource| s[key_index(s, r)].1 as nat)
}

/// Rates added up over a whole tree, one total per resource that occurred.
#[derive(Debug)]
pub struct Totals {
    entries: Vec<(Resource, u128)>,
}

impl View for Totals {
    type V = Map<Resource, nat>;

    closed spec fn view(&self) -> Map<Resource, nat> {
        as_map(self.entries@)
    }
}

impl Totals {
    #[verifier::type_invariant]
    spec fn well_formed(self) -> bool {
        distinct_keys(self.entries@)
    }

    /// No totals yet.
    pub fn new() -> (totals: Totals)
        ensures
            totals@ == Map::<Resource, nat>::empty(),
    {
        let totals = Totals { entries: Vec::new() };
        assert(totals@ =~= Map::<Resource, nat>::empty());
        totals
    }

    /// The total recorded for `resource`, if it occurred.
    pub fn get(&self, resource: Resource) -> (total: Option<u128>)
        ensures
            total is Some == self@.dom().contains(resource),
            total matches Some(t) ==> t == self@[resource],
    {
        proof {
            use_type_invariant(self);
        }
        match position(&self.entries, resource) {
            Some(i) => Some(self.entries[i].1),
            None => None,
        }
    }

    /// Adds `amount` to the total of `resource`, which starts at zero.
    pub fn add(&mut self, resource: Resource, amount: u64)
        requires
            total_of(old(self)@, resource) + amount <= u128::MAX,
        ensures
            final(self)@ == old(self)@.insert(
                resource,
                (total_of(old(self)@, resource) + amount) as nat,
            ),
    {
        proof {
            use_type_invariant(&*self);
        }
        let current: u128 = match self.get(resource) {
            Some(total) => total,
            None => 0,
        };
        let mut entries: Vec<(Resource, u128)> = Vec::new();
        core::mem::swap(&mut self.entries, &mut entries);
        let ghost before = entries@;
        put(&mut entries, resource, current + amount as u128);
        proof {
            lemma_with_entry_distinct(before, resource, (current + amount) as u128);
            let after = entries@;
            let target = as_map(before).insert(resource, (current + amount) as nat);
            assert forall|r: Resource| as_map(after).dom().contains(r) == target.dom().contains(
                r,
            ) by {
                if r != resource {
                    assert(lookup(after, r) == lookup(before, r));
                }
            }
            assert forall|r: Resource| as_map(after).dom().contains(r) implies as_map(after)[r]
                == target[r] by {
                if r != resource {
                    assert(lookup(after, r) == lookup(before, r));
                }
            }
            assert(as_map(after) =~= target);
        }
        self.entries = entries;
    }

    /// The number of resources that occurred.
    pub fn len(&self) -> (n: usize)
        ensures
            n == self@.dom().len(),
            self@.dom().finite(),
    {
        proof {
            use_type_invariant(self);
            lemma_as_map_dom(self.entries@);
        }
        self.entries.len()
    }

    /// The totals, in the order in which their resources first occurred.
    pub fn entries(&self) -> (entries: &Vec<(Resource, u128)>)
        ensures
            distinct_keys(entries@),
            as_map(entries@) == self@,
    {
        proof {
            use_type_invariant(self);
        }
        &self.entries
    }
}

/// A list with distinct keys has as many entries as its map has keys.
pub proof fn lemma_as_map_dom(s: Seq<(Resource, u128)>)
    requires
        distinct_keys(s),
    ensures
        as_map(s).dom().finite(),
        as_map(s).dom().len() == s.len(),
    decreases s.len(),
{
    if s.len() == 0 {
        assert(as_map(s).dom() =~= Set::<Resource>::empty());
    } else {
        let n = s.len() - 1;
        let front = s.drop_last();
        assert(forall|i: int| 0 <= i < n ==> front[i] == s[i]);
        lemma_as_map_dom(front);
        let r = s[n].0;
        assert(!has_key(front, r)) by {
            if has_key(front, r) {
                let i = key_index(front, r);
                assert(s[i].0 != s[n].0);
            }
        }
        assert forall|o: Resource| as_map(s).dom().contains(o) == as_map(front).dom().insert(
            r,
        ).contains(o) by {
            if has_key(s, o) {
                let i = key_index(s, o);
                if i < n {
                    assert(front[i].0 == o);
                }
            }
            if has_key(front, o) {
                let i = key_index(front, o);
                assert(s[i].0 == o);
            }
            if o == r {
                assert(s[n].0 == o);
            }
        }
        assert(as_map(s).dom() =~= as_map(front).dom().insert(r));
    }
}

/// `totals` after every rate of `items` has been added to it.
pub open spec fn merged(totals: Map<Resource, nat>, items: Seq<(Resource, u64)>) -> Map<
    Resource,
    nat,
> {
    Map::new(
        |r: Resource| totals.dom().contains(r) || has_key(items, r),
        |r: Resource| total_of(totals, r) + amount_of(items, r),
    )
}

/// What is listed in the first entries of a list is listed in the list, and
/// adds up to no more.
pub proof fn lemma_amount_of_prefix(s: Seq<(Resource, u64)>, count: int, resource: Resource)
    requires
        0 <= count <= s.len(),
    ensures
        amount_of(s.take(count), resource) <= amount_of(s, resource),
        has_key(s.take(count), resource) ==> has_key(s, resource),
    decreases s.len() - count,
{
    if has_key(s.take(count), resource) {
        let i = key_index(s.take(count), resource);
        assert(s[i].0 == resource);
    }
    if count < s.len() {
        lemma_amount_of_prefix(s.drop_last(), count, resource);
        assert(s.drop_last().take(count) =~= s.take(count));
    } else {
        assert(s.take(count) =~= s);
    }
}

/// The rate at which `resource` is listed in `s`, zero when it is not.
pub open spec fn listed_rate(s: Seq<(Resource, u64)>, resource: Resource) -> nat {
    match lookup(s, resource) {
        Some(rate) => rate as nat,
        None => 0,
    }
}

/// A resource that is not listed has no rate.
pub proof fn lemma_amount_of_absent(s: Seq<(Resource, u64)>, resource: Resource)
    requires
        !has_key(s, resource),
    ensures
        amount_of(s, resource) == 0,
    decreases s.len(),
{
    if s.len() > 0 {
        let n = s.len() - 1;
        assert(s[n].0 != resource);
        assert forall|i: int| 0 <= i < n implies s.drop_last()[i].0 != resource by {
            assert(s[i].0 != resource);
        }
        lemma_amount_of_absent(s.drop_last(), resource);
    }
}

impl Totals {
    /// Adds every rate of `items` to the total of its resource.
    pub fn merge(&mut self, items: &ItemMap)
        requires
            forall|r: Resource|
                total_of(old(self)@, r) + #[trigger] listed_rate(items@, r) <= u128::MAX,
        ensures
            final(self)@ == merged(old(self)@, items@),
            distinct_keys(items@),
            forall|r: Resource| #[trigger] amount_of(items@, r) <= u64::MAX,
    {
        let entries = items.entries();
        let mut j: usize = 0;
        proof {
            use_type_invariant(&*self);
            assert forall|r: Resource| total_of(self@, r) + #[trigger] amount_of(items@, r)
                <= u128::MAX && amount_of(items@, r) <= u64::MAX by {
                lemma_amount_of_distinct(items@, r);
                assert(total_of(self@, r) + listed_rate(items@, r) <= u128::MAX);
            }
        }
        assert(entries@.take(0) =~= Seq::<(Resource, u64)>::empty());
        assert(self@ =~= merged(old(self)@, entries@.take(0)));
        while j < entries.len()
            invariant
                j <= entries.len(),
                entries@ == items@,
                forall|r: Resource| total_of(old(self)@, r) + amount_of(items@, r) <= u128::MAX,
                self@ == merged(old(self)@, entries@.take(j as int)),
            decreases entries.len() - j,
        {
            let (key, amount) = entries[j];
            proof {
                let done = entries@.take(j as int);
                let next = entries@.take(j as int + 1);
                assert(next.drop_last() =~= done);
                assert(next.last() == (key, amount));
                lemma_amount_of_prefix(entries@, j as int + 1, key);
                assert forall|r: Resource| has_key(next, r) == (has_key(done, r) || r == key) by {
                    if has_key(next, r) {
                        let i = key_index(next, r);
                        if i < j {
                            assert(done[i].0 == r);
                        }
                    }
                    if has_key(done, r) {
                        let i = key_index(done, r);
                        assert(next[i].0 == r);
                    }
                    if r == key {
                        assert(next[j as int].0 == r);
                    }
                }
                assert forall|r: Resource|
                    amount_of(next, r) == amount_of(done, r) + if r == key {
                        amount as nat
                    } else {
                        0
                    } by {
                    assert(next.drop_last() == done);
                }
                let before = merged(old(self)@, done);
                let target = before.insert(key, (total_of(before, key) + amount) as nat);
                let after = merged(old(self)@, next);
                assert forall|r: Resource| after.dom().contains(r) == target.dom().contains(
                    r,
                ) by {}
                assert forall|r: Resource| after.dom().contains(r) implies after[r]
                    == target[r] by {
                    if r == key {
                        if !has_key(done, key) {
                            lemma_amount_of_absent(done, key);
                        }
                        assert(total_of(before, key) == total_of(old(self)@, key) + amount_of(
                            done,
                            key,
                        ));
                    }
                }
                assert(after =~= target);
            }
            self.add(key, amount);
            j += 1;
        }
        assert(entries@.take(j as int) =~= entries@);
    }
}

} // verus!
