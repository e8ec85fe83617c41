//! A map from account names to balances, kept in insertion order.

use vstd::prelude::*;

verus! {

/// The sum of all balances of a finite map.
pub open spec fn map_sum(m: Map<Seq<char>, u128>) -> int
    decreases m.dom().len(),
    when m.dom().finite()
{
    if m.dom().len() == 0 {
        0
    } else {
        let k = m.dom().choose();
        m[k] as int + map_sum(m.remove(k))
    }
}

/// The sum of a map is the balance under any one of its keys plus the sum of
/// the rest.
pub proof fn lemma_map_sum_remove(m: Map<Seq<char>, u128>, key: Seq<char>)
    requires
        m.dom().finite(),
        m.dom().contains(key),
    ensures
        map_sum(m) == m[key] as int + map_sum(m.remove(key)),
    decreases m.dom().len(),
{
    let k = m.dom().choose();
    assert(m.dom().len() != 0) by {
        if m.dom().len() == 0 {
            assert(m.dom() =~= Set::empty());
        }
    }
    if k != key {
        let without_k = m.remove(k);
        let without_key = m.remove(key);
        lemma_map_sum_remove(without_k, key);
        assert(without_key.dom().contains(k));
        lemma_map_sum_remove(without_key, k);
        assert(without_k.remove(key) =~= without_key.remove(k));
    }
}

/// The empty map sums to zero.
pub proof fn lemma_map_sum_empty()
    ensures
        map_sum(Map::<Seq<char>, u128>::empty()) == 0,
{
}

/// Writing a balance changes the sum by the difference to what stood there.
pub proof fn lemma_map_sum_insert(m: Map<Seq<char>, u128>, key: Seq<char>, value: u128)
    requires
        m.dom().finite(),
    ensures
        map_sum(m.insert(key, value)) == map_sum(m) + value as int - (if m.dom().contains(key) {
            m[key] as int
        } else {
            0
        }),
{
    let after = m.insert(key, value);
    lemma_map_sum_remove(after, key);
    if m.dom().contains(key) {
        lemma_map_sum_remove(m, key);
        assert(after.remove(key) =~= m.remove(key));
    } else {
        assert(after.remove(key) =~= m);
    }
}

/// No single balance exceeds the sum, and the sum is never negative.
pub proof fn lemma_map_sum_bounds(m: Map<Seq<char>, u128>, key: Seq<char>)
    requires
        m.dom().finite(),
    ensures
        0 <= map_sum(m),
        m.dom().contains(key) ==> m[key] as int <= map_sum(m),
    decreases m.dom().len(),
{
    if m.dom().len() != 0 {
        let k = m.dom().choose();
        lemma_map_sum_bounds(m.remove(k), key);
        if m.dom().contains(key) {
            lemma_map_sum_remove(m, key);
            lemma_map_sum_bounds(m.remove(key), key);
        }
    }
}

/// The map that a list of keys and a list of balances of the same length
/// stand for; a later entry overrides an earlier one under the same key.
pub open spec fn entries_to_map(keys: Seq<String>, values: Seq<u128>) -> Map<Seq<char>, u128>
    decreases keys.len(),
{
    if keys.len() == 0 || keys.len() != values.len() {
        Map::empty()
    } else {
        entries_to_map(keys.drop_last(), values.drop_last()).insert(keys.last()@, values.last())
    }
}

/// Whether no two entries of the list carry the same name.
pub open spec fn distinct_keys(keys: Seq<String>) -> bool {
    forall|i: int, j: int| 0 <= i < j < keys.len() ==> keys[i]@ != keys[j]@
}

proof fn lemma_entries_dom(keys: Seq<String>, values: Seq<u128>, key: Seq<char>)
    requires
        keys.len() == values.len(),
    ensures
        entries_to_map(keys, values).dom().finite(),
        entries_to_map(keys, values).dom().contains(key) <==> exists|i: int|
            0 <= i < keys.len() && keys[i]@ == key,
    decreases keys.len(),
{
    if keys.len() != 0 {
        lemma_entries_dom(keys.drop_last(), values.drop_last(), key);
        if entries_to_map(keys, values).dom().contains(key) {
            if keys.last()@ == key {
                assert(keys[keys.len() - 1]@ == key);
            } else {
                let i = choose|i: int| 0 <= i < keys.len() - 1 && keys.drop_last()[i]@ == key;
                assert(keys[i]@ == key);
            }
        }
        if exists|i: int| 0 <= i < keys.len() && keys[i]@ == key {
            let i = choose|i: int| 0 <= i < keys.len() && keys[i]@ == key;
            if i < keys.len() - 1 {
                assert(keys.drop_last()[i]@ == key);
            }
        }
    }
}

proof fn lemma_entries_lookup(keys: Seq<String>, values: Seq<u128>, i: int)
    requires
        keys.len() == values.len(),
        distinct_keys(keys),
        0 <= i < keys.len(),
    ensures
        entries_to_map(keys, values).dom().contains(keys[i]@),
        entries_to_map(keys, values)[keys[i]@] == values[i],
    decreases keys.len(),
{
    if i < keys.len() - 1 {
        assert(distinct_keys(keys.drop_last())) by {
            assert forall|a: int, b: int| 0 <= a < b < keys.drop_last().len() implies keys.drop_last()[a]@
                != keys.drop_last()[b]@ by {
                assert(keys[a]@ != keys[b]@);
            }
        }
        lemma_entries_lookup(keys.drop_last(), values.drop_last(), i);
        assert(keys[i]@ != keys[keys.len() - 1]@);
    }
}

proof fn lemma_entries_update(keys: Seq<String>, values: Seq<u128>, i: int, value: u128)
    requires
        keys.len() == values.len(),
        distinct_keys(keys),
        0 <= i < keys.len(),
    ensures
        entries_to_map(keys, values.update(i, value)) == entries_to_map(keys, values).insert(
            keys[i]@,
            value,
        ),
    decreases keys.len(),
{
    let updated = values.update(i, value);
    if i < keys.len() - 1 {
        assert(distinct_keys(keys.drop_last())) by {
            assert forall|a: int, b: int| 0 <= a < b < keys.drop_last().len() implies keys.drop_last()[a]@
                != keys.drop_last()[b]@ by {
                assert(keys[a]@ != keys[b]@);
            }
        }
        lemma_entries_update(keys.drop_last(), values.drop_last(), i, value);
        assert(updated.drop_last() =~= values.drop_last().update(i, value));
        assert(keys[i]@ != keys[keys.len() - 1]@);
        assert(entries_to_map(keys, updated) =~= entries_to_map(keys, values).insert(
            keys[i]@,
            value,
        ));
    } else {
        assert(updated.drop_last() =~= values.drop_last());
        assert(entries_to_map(keys, updated) =~= entries_to_map(keys, values).insert(
            keys[i]@,
            value,
        ));
    }
}

proof fn lemma_distinct_drop_last(keys: Seq<String>)
    requires
        distinct_keys(keys),
        keys.len() > 0,
    ensures
        distinct_keys(keys.drop_last()),
{
    assert forall|a: int, b: int| 0 <= a < b < keys.drop_last().len() implies keys.drop_last()[a]@
        != keys.drop_last()[b]@ by {
        assert(keys[a]@ != keys[b]@);
    }
}

proof fn lemma_entries_remove(keys: Seq<String>, values: Seq<u128>, i: int)
    requires
        keys.len() == values.len(),
        distinct_keys(keys),
        0 <= i < keys.len(),
    ensures
        distinct_keys(keys.remove(i)),
        entries_to_map(keys.remove(i), values.remove(i)) == entries_to_map(keys, values).remove(
            keys[i]@,
        ),
    decreases keys.len(),
{
    let fewer_keys = keys.remove(i);
    let fewer_values = values.remove(i);
    assert(distinct_keys(fewer_keys)) by {
        assert forall|a: int, b: int| 0 <= a < b < fewer_keys.len() implies fewer_keys[a]@
            != fewer_keys[b]@ by {
            let a0 = if a < i {
                a
            } else {
                a + 1
            };
            let b0 = if b < i {
                b
            } else {
                b + 1
            };
            assert(keys[a0]@ != keys[b0]@);
        }
    }
    lemma_distinct_drop_last(keys);
    let last = keys.len() - 1;
    if i == last {
        assert(fewer_keys =~= keys.drop_last());
        assert(fewer_values =~= values.drop_last());
        lemma_entries_dom(keys.drop_last(), values.drop_last(), keys[i]@);
        if exists|j: int| 0 <= j < keys.len() - 1 && keys.drop_last()[j]@ == keys[i]@ {
            let j = choose|j: int| 0 <= j < keys.len() - 1 && keys.drop_last()[j]@ == keys[i]@;
            assert(keys[j]@ != keys[last]@);
        }
        assert(entries_to_map(fewer_keys, fewer_values) =~= entries_to_map(keys, values).remove(
            keys[i]@,
        ));
    } else {
        lemma_entries_remove(keys.drop_last(), values.drop_last(), i);
        assert(fewer_keys.drop_last() =~= keys.drop_last().remove(i));
        assert(fewer_values.drop_last() =~= values.drop_last().remove(i));
        assert(fewer_keys.last() == keys.last());
        assert(fewer_values.last() == values.last());
        assert(keys[i]@ != keys[last]@);
        assert(entries_to_map(fewer_keys, fewer_values) =~= entries_to_map(keys, values).remove(
            keys[i]@,
        ));
    }
}

/// The sum of a list of balances.
pub open spec fn seq_sum(values: Seq<u128>) -> int
    decreases values.len(),
{
    if values.len() == 0 {
        0
    } else {
        seq_sum(values.drop_last()) + values.last() as int
    }
}

/// The sum of the first balances of a list never exceeds the sum of all.
pub proof fn lemma_seq_sum_prefix(values: Seq<u128>, n: int)
    requires
        0 <= n <= values.len(),
    ensures
        0 <= seq_sum(values.take(n)) <= seq_sum(values),
    decreases values.len(),
{
    if n == values.len() {
        assert(values.take(n) =~= values);
        if n > 0 {
            lemma_seq_sum_prefix(values.drop_last(), n - 1);
            assert(values.drop_last().take(n - 1) =~= values.drop_last());
        }
    } else {
        lemma_seq_sum_prefix(values.drop_last(), n);
        assert(values.drop_last().take(n) =~= values.take(n));
    }
}

/// Where every name occurs once, the map of a list of entries sums to the
/// sum of the list's balances.
pub proof fn lemma_map_sum_entries(keys: Seq<String>, values: Seq<u128>)
    requires
        keys.len() == values.len(),
        distinct_keys(keys),
    ensures
        map_sum(entries_to_map(keys, values)) == seq_sum(values),
    decreases keys.len(),
{
    if keys.len() != 0 {
        lemma_distinct_drop_last(keys);
        lemma_map_sum_entries(keys.drop_last(), values.drop_last());
        lemma_entries_dom(keys.drop_last(), values.drop_last(), keys.last()@);
        if exists|j: int| 0 <= j < keys.len() - 1 && keys.drop_last()[j]@ == keys.last()@ {
            let j = choose|j: int| 0 <= j < keys.len() - 1 && keys.drop_last()[j]@ == keys.last()@;
            assert(keys[j]@ != keys[keys.len() - 1]@);
        }
        lemma_map_sum_insert(
            entries_to_map(keys.drop_last(), values.drop_last()),
            keys.last()@,
            values.last(),
        );
    }
}

/// The names of a list of entries, in order.
pub open spec fn entry_keys(entries: Seq<(String, u128)>) -> Seq<String> {
    Seq::new(entries.len(), |i: int| entries[i].0)
}

/// The balances of a list of entries, in order.
pub open spec fn entry_values(entries: Seq<(String, u128)>) -> Seq<u128> {
    Seq::new(entries.len(), |i: int| entries[i].1)
}

/// A map from account names to balances.
pub struct BalanceMap {
    keys: Vec<String>,
    values: Vec<u128>,
}

impl View for BalanceMap {
    type V = Map<Seq<char>, u128>;

    closed spec fn view(&self) -> Map<Seq<char>, u128> {
        entries_to_map(self.keys@, self.values@)
    }
}

impl BalanceMap {
    /// Whether the map is well formed: every name occurs once.
    pub closed spec fn wf(&self) -> bool {
        &&& self.keys.len() == self.values.len()
        &&& distinct_keys(self.keys@)
    }

    /// The number of entries, as a specification.
    pub open spec fn spec_len(&self) -> nat {
        self@.dom().len()
    }

    /// A well-formed map has finitely many entries.
    pub proof fn lemma_finite(&self)
        requires
            self.wf(),
        ensures
            self@.dom().finite(),
    {
        lemma_entries_count(self.keys@, self.values@);
    }

    /// The empty map.
    pub fn new() -> (r: Self)
        ensures
            r.wf(),
            r@ == Map::<Seq<char>, u128>::empty(),
    {
        BalanceMap { keys: Vec::new(), values: Vec::new() }
    }

    /// A copy of the map.
    pub fn duplicate(&self) -> (r: Self)
        ensures
            r@ == self@,
            self.wf() ==> r.wf(),
    {
        BalanceMap {
            keys: crate::utils::clone_names(&self.keys),
            values: crate::utils::clone_amounts(&self.values),
        }
    }

    /// The number of entries.
    pub fn len(&self) -> (r: u64)
        requires
            self.wf(),
        ensures
            r as nat == self.spec_len(),
    {
        proof {
            lemma_entries_count(self.keys@, self.values@);
        }
        self.keys.len() as u64
    }

    fn position(&self, key: &String) -> (r: Option<usize>)
        requires
            self.wf(),
        ensures
            r matches Some(i) ==> i < self.keys.len() && self.keys[i as int]@ == key@
                && self@.dom().contains(key@) && self@[key@] == self.values[i as int],
            r is None ==> !self@.dom().contains(key@),
    {
        let mut i: usize = 0;
        while i < self.keys.len()
            invariant
                self.wf(),
                i <= self.keys.len(),
                forall|j: int| 0 <= j < i ==> self.keys[j]@ != key@,
            decreases self.keys.len() - i,
        {
            if self.keys[i] == *key {
                proof {
                    lemma_entries_lookup(self.keys@, self.values@, i as int);
                }
                return Some(i);
            }
            i = i + 1;
        }
        proof {
            lemma_entries_dom(self.keys@, self.values@, key@);
        }
        None
    }

    /// The balance under `key`, if there is an entry.
    pub fn get(&self, key: &String) -> (r: Option<u128>)
        requires
            self.wf(),
        ensures
            r == if self@.dom().contains(key@) {
                Some(self@[key@])
            } else {
                None
            },
    {
        match self.position(key) {
            Some(i) => Some(self.values[i]),
            None => None,
        }
    }

    /// Whether there is an entry under `key`.
    pub fn contains_key(&self, key: &String) -> (r: bool)
        requires
            self.wf(),
        ensures
            r == self@.dom().contains(key@),
    {
        self.position(key).is_some()
    }

    /// Takes the entry under `key` out and returns what stood there.
    pub fn remove(&mut self, key: &String) -> (r: Option<u128>)
        requires
            old(self).wf(),
        ensures
            final(self).wf(),
            final(self)@ == old(self)@.remove(key@),
            r == if old(self)@.dom().contains(key@) {
                Some(old(self)@[key@])
            } else {
                None
            },
    {
        match self.position(key) {
            Some(i) => {
                proof {
                    lemma_entries_remove(self.keys@, self.values@, i as int);
                }
                self.keys.remove(i);
                Some(self.values.remove(i))
            },
            None => {
                assert(self@.remove(key@) =~= self@);
                None
            },
        }
    }

    /// The entries as a list, each name once.
    pub fn to_vec(&self) -> (r: Vec<(String, u128)>)
        requires
            self.wf(),
        ensures
            r@.len() == self.spec_len(),
            distinct_keys(entry_keys(r@)),
            entries_to_map(entry_keys(r@), entry_values(r@)) == self@,
    {
        let mut entries: Vec<(String, u128)> = Vec::new();
        let mut i: usize = 0;
        while i < self.keys.len()
            invariant
                self.wf(),
                i <= self.keys.len(),
                entries@.len() == i,
                forall|j: int| 0 <= j < i ==> entries@[j].0@ == self.keys@[j]@,
                forall|j: int| 0 <= j < i ==> entries@[j].1 == self.values@[j],
            decreases self.keys.len() - i,
        {
            entries.push((self.keys[i].clone(), self.values[i]));
            i = i + 1;
        }
        proof {
            assert(entry_values(entries@) =~= self.values@);
            lemma_entries_same_names(entry_keys(entries@), self.keys@, self.values@);
            lemma_entries_count(self.keys@, self.values@);
        }
        entries
    }

    /// The map that a list of entries stands for, or `None` where a name
    /// occurs twice.
    pub fn from_vec(entries: &Vec<(String, u128)>) -> (r: Option<Self>)
        ensures
            distinct_keys(entry_keys(entries@)) ==> r is Some && r->0.wf() && r->0@ == entries_to_map(
                entry_keys(entries@),
                entry_values(entries@),
            ),
            !distinct_keys(entry_keys(entries@)) ==> r is None,
    {
        let mut map = BalanceMap { keys: Vec::new(), values: Vec::new() };
        let mut i: usize = 0;
        while i < entries.len()
            invariant
                i <= entries.len(),
                map.wf(),
                map.keys@ =~= entry_keys(entries@).take(i as int),
                map.values@ =~= entry_values(entries@).take(i as int),
            decreases entries.len() - i,
        {
            if map.position(&entries[i].0).is_some() {
                proof {
                    lemma_entries_dom(map.keys@, map.values@, entries[i as int].0@);
                    let j = choose|j: int| 0 <= j < map.keys@.len() && map.keys@[j]@ == entries[i as int].0@;
                    assert(entry_keys(entries@)[j]@ == entry_keys(entries@)[i as int]@);
                }
                return None;
            }
            proof {
                lemma_entries_dom(map.keys@, map.values@, entries[i as int].0@);
            }
            map.keys.push(entries[i].0.clone());
            map.values.push(entries[i].1);
            proof {
                assert(map.keys@.len() == i + 1);
                assert forall|a: int, b: int| 0 <= a < b < map.keys@.len() implies map.keys@[a]@
                    != map.keys@[b]@ by {
                    if b == i {
                        assert(map.keys@[a] == entry_keys(entries@).take(i as int)[a]);
                    } else {
                        assert(map.keys@[a] == entry_keys(entries@).take(i as int)[a]);
                        assert(map.keys@[b] == entry_keys(entries@).take(i as int)[b]);
                    }
                }
            }
            i = i + 1;
        }
        proof {
            assert(entry_keys(entries@).take(i as int) =~= entry_keys(entries@));
            assert(entry_values(entries@).take(i as int) =~= entry_values(entries@));
            lemma_entries_same_names(map.keys@, entry_keys(entries@), entry_values(entries@));
            lemma_distinct_same_names(map.keys@, entry_keys(entries@));
        }
        Some(map)
    }

    /// Writes `value` under `key` and returns what stood there before.
    pub fn insert(&mut self, key: &String, value: u128) -> (r: Option<u128>)
        requires
            old(self).wf(),
        ensures
            final(self).wf(),
            final(self)@ == old(self)@.insert(key@, value),
            r == if old(self)@.dom().contains(key@) {
                Some(old(self)@[key@])
            } else {
                None
            },
    {
        match self.position(key) {
            Some(i) => {
                let previous = self.values[i];
                proof {
                    lemma_entries_update(self.keys@, self.values@, i as int, value);
                }
                self.values[i] = value;
                Some(previous)
            },
            None => {
                proof {
                    lemma_entries_dom(self.keys@, self.values@, key@);
                }
                let ghost old_keys = self.keys@;
                let ghost old_values = self.values@;
                self.keys.push(key.clone());
                self.values.push(value);
                proof {
                    assert(self.keys@.drop_last() =~= old_keys);
                    assert(self.values@.drop_last() =~= old_values);
                    assert(self.keys@.last()@ == key@);
                }
                None
            },
        }
    }
}

/// Lists that carry the same names in the same order stand for the same map.
proof fn lemma_entries_same_names(keys: Seq<String>, other: Seq<String>, values: Seq<u128>)
    requires
        keys.len() == other.len(),
        forall|i: int| 0 <= i < keys.len() ==> keys[i]@ == other[i]@,
    ensures
        entries_to_map(keys, values) == entries_to_map(other, values),
        distinct_keys(other) ==> distinct_keys(keys),
    decreases keys.len(),
{
    if keys.len() != 0 && keys.len() == values.len() {
        assert forall|i: int| 0 <= i < keys.drop_last().len() implies keys.drop_last()[i]@
            == other.drop_last()[i]@ by {
            assert(keys[i]@ == other[i]@);
        }
        lemma_entries_same_names(keys.drop_last(), other.drop_last(), values.drop_last());
        assert(keys.last()@ == other.last()@);
    }
    if distinct_keys(other) {
        assert forall|a: int, b: int| 0 <= a < b < keys.len() implies keys[a]@ != keys[b]@ by {
            assert(other[a]@ != other[b]@);
        }
    }
}

proof fn lemma_distinct_same_names(keys: Seq<String>, other: Seq<String>)
    requires
        keys.len() == other.len(),
        forall|i: int| 0 <= i < keys.len() ==> keys[i]@ == other[i]@,
        distinct_keys(keys),
    ensures
        distinct_keys(other),
{
    assert forall|a: int, b: int| 0 <= a < b < other.len() implies other[a]@ != other[b]@ by {
        assert(keys[a]@ != keys[b]@);
    }
}

proof fn lemma_entries_count(keys: Seq<String>, values: Seq<u128>)
    requires
        keys.len() == values.len(),
        distinct_keys(keys),
    ensures
        entries_to_map(keys, values).dom().finite(),
        entries_to_map(keys, values).dom().len() == keys.len(),
    decreases keys.len(),
{
    if keys.len() != 0 {
        assert(distinct_keys(keys.drop_last())) by {
            assert forall|a: int, b: int| 0 <= a < b < keys.drop_last().len() implies keys.drop_last()[a]@
                != keys.drop_last()[b]@ by {
                assert(keys[a]@ != keys[b]@);
            }
        }
        lemma_entries_count(keys.drop_last(), values.drop_last());
        lemma_entries_dom(keys.drop_last(), values.drop_last(), keys.last()@);
        if exists|i: int| 0 <= i < keys.len() - 1 && keys.drop_last()[i]@ == keys.last()@ {
            let i = choose|i: int| 0 <= i < keys.len() - 1 && keys.drop_last()[i]@ == keys.last()@;
            assert(keys[i]@ != keys[keys.len() - 1]@);
        }
    }
}

} // verus!
