//! A map from hand keys to strengths, kept as a list sorted by key, and the laying out of
//! a hash map as such a list.
use vstd::prelude::*;
use vstd::seq_lib::seq_to_set_is_finite;
use vstd::std_specs::hash::group_hash_axioms;
use vstd::std_specs::hash::spec_hash_map_iter;
use vstd::std_specs::iter::IteratorSpec;
use std::collections::HashMap;

verus! {

/// The keys of the entries rise strictly from one entry to the next.
pub open spec fn keys_rise(entries: Seq<(u32, u16)>) -> bool {
    forall|i: int, j: int| 0 <= i < j < entries.len() ==> entries[i].0 < entries[j].0
}

/// Whether some entry has the given key.
pub open spec fn has_key(entries: Seq<(u32, u16)>, key: int) -> bool {
    exists|i: int| 0 <= i < entries.len() && (#[trigger] entries[i]).0 == key
}

/// The position of an entry with the given key.
pub open spec fn position_of(entries: Seq<(u32, u16)>, key: int) -> int {
    choose|i: int| 0 <= i < entries.len() && (#[trigger] entries[i]).0 == key
}

/// The map that a list of entries stands for.
pub open spec fn as_map(entries: Seq<(u32, u16)>) -> Map<int, u16> {
    Map::new(|key: int| has_key(entries, key), |key: int| entries[position_of(entries, key)].1)
}

/// In a list with rising keys each entry is the one that the map holds for its key.
pub proof fn lemma_entry_in_map(entries: Seq<(u32, u16)>, i: int)
    requires
        keys_rise(entries),
        0 <= i < entries.len(),
    ensures
        as_map(entries).contains_key(entries[i].0 as int),
        as_map(entries)[entries[i].0 as int] == entries[i].1,
{
    let key = entries[i].0 as int;
    assert(has_key(entries, key));
    let p = position_of(entries, key);
    assert(0 <= p < entries.len() && entries[p].0 == key);
    if p < i {
        assert(entries[p].0 < entries[i].0);
    }
    if i < p {
        assert(entries[i].0 < entries[p].0);
    }
}

/// A map from keys to strengths, held as a list of entries sorted by key, so that a key is
/// found by binary search.
pub struct StrengthMap {
    entries: Vec<(u32, u16)>,
}

impl View for StrengthMap {
    type V = Map<int, u16>;

    closed spec fn view(&self) -> Map<int, u16> {
        as_map(self.entries@)
    }
}

impl StrengthMap {
    /// The keys of the list rise strictly.
    pub closed spec fn wf(self) -> bool {
        keys_rise(self.entries@)
    }

    /// The entries of the map in the order of their keys.
    pub closed spec fn entries_value(self) -> Seq<(u32, u16)> {
        self.entries@
    }

    /// A map in good order holds its entries in the strict order of their keys, each
    /// under its key, and has as many keys as entries.
    pub proof fn lemma_entries(self)
        requires
            self.wf(),
        ensures
            keys_rise(self.entries_value()),
            self@ == as_map(self.entries_value()),
            self@.dom().finite(),
            self@.dom().len() == self.entries_value().len(),
    {
        let entries = self.entries@;
        let keys = Seq::new(entries.len(), |i: int| entries[i].0 as int);
        assert(keys.no_duplicates()) by {
            assert forall|i: int, j: int| 0 <= i < keys.len() && 0 <= j < keys.len() && i != j implies keys[i]
                != keys[j] by {
                if i < j {
                    assert(entries[i].0 < entries[j].0);
                } else {
                    assert(entries[j].0 < entries[i].0);
                }
            }
        }
        assert(keys.to_set() =~= as_map(entries).dom()) by {
            assert forall|key: int| keys.to_set().contains(key) <==> as_map(entries).dom().contains(
                key,
            ) by {
                if keys.to_set().contains(key) {
                    let i = choose|i: int| 0 <= i < keys.len() && keys[i] == key;
                    assert(entries[i].0 == key);
                    assert(has_key(entries, key));
                }
                if as_map(entries).dom().contains(key) {
                    assert(has_key(entries, key));
                    let i = position_of(entries, key);
                    assert(keys[i] == key);
                    assert(keys.contains(key));
                }
            }
        }
        keys.unique_seq_to_set();
        seq_to_set_is_finite(keys);
    }

    /// An empty map.
    pub fn new() -> (r: StrengthMap)
        ensures
            r.wf(),
            r@ == Map::<int, u16>::empty(),
            r.entries_value().len() == 0,
    {
        let map = StrengthMap { entries: Vec::new() };
        assert(map@ =~= Map::<int, u16>::empty());
        map
    }

    /// The number of keys in the map.
    pub fn len(&self) -> (r: usize)
        ensures
            r == self.entries_value().len(),
    {
        self.entries.len()
    }

    /// The position of the first entry whose key is not below `key`.
    fn lower_bound(&self, key: u32) -> (r: usize)
        requires
            self.wf(),
        ensures
            r <= self.entries@.len(),
            forall|i: int| 0 <= i < r ==> (#[trigger] self.entries@[i]).0 < key,
            forall|i: int| r <= i < self.entries@.len() ==> (#[trigger] self.entries@[i]).0 >= key,
    {
        let mut low: usize = 0;
        let mut high: usize = self.entries.len();
        while low < high
            invariant
                low <= high <= self.entries@.len(),
                keys_rise(self.entries@),
                forall|i: int| 0 <= i < low ==> (#[trigger] self.entries@[i]).0 < key,
                forall|i: int| high <= i < self.entries@.len() ==> (#[trigger] self.entries@[i]).0 >= key,
            decreases high - low,
        {
            let mid = low + (high - low) / 2;
            if self.entries[mid].0 < key {
                low = mid + 1;
            } else {
                high = mid;
            }
        }
        low
    }

    /// The strength stored for a key, if there is one.
    pub fn get(&self, key: u32) -> (r: Option<u16>)
        requires
            self.wf(),
        ensures
            r == if self@.contains_key(key as int) {
                Some(self@[key as int])
            } else {
                None
            },
    {
        let slot = self.lower_bound(key);
        if slot < self.entries.len() && self.entries[slot].0 == key {
            proof {
                lemma_entry_in_map(self.entries@, slot as int);
            }
            Some(self.entries[slot].1)
        } else {
            proof {
                if has_key(self.entries@, key as int) {
                    let p = position_of(self.entries@, key as int);
                    assert(self.entries@[p].0 == key);
                }
            }
            None
        }
    }

    /// Stores a strength for a key, in place of the one stored before if there was one.
    pub fn put(&mut self, key: u32, value: u16)
        requires
            old(self).wf(),
        ensures
            final(self).wf(),
            final(self)@ == old(self)@.insert(key as int, value),
            final(self).entries_value().len() <= old(self).entries_value().len() + 1,
    {
        let slot = self.lower_bound(key);
        let ghost before = self.entries@;
        if slot < self.entries.len() && self.entries[slot].0 == key {
            self.entries.set(slot, (key, value));
        } else {
            self.entries.insert(slot, (key, value));
        }
        proof {
            let after = self.entries@;
            assert(keys_rise(after));
            assert forall|k: int| has_key(after, k) <==> (has_key(before, k) || k == key) by {
                if has_key(after, k) {
                    let p = position_of(after, k);
                    assert(after[p].0 == k);
                    if k != key {
                        if after.len() == before.len() {
                            assert(before[p].0 == k);
                        } else if p < slot {
                            assert(before[p].0 == k);
                        } else {
                            assert(before[p - 1].0 == k);
                        }
                    }
                }
                if has_key(before, k) && k != key {
                    let p = position_of(before, k);
                    assert(before[p].0 == k);
                    if after.len() == before.len() {
                        assert(after[p].0 == k);
                    } else if p < slot {
                        assert(after[p].0 == k);
                    } else {
                        assert(after[p + 1].0 == k);
                    }
                }
                if k == key {
                    assert(after[slot as int].0 == k);
                }
            }
            assert forall|k: int| has_key(after, k) implies as_map(after)[k] == as_map(
                before,
            ).insert(key as int, value)[k] by {
                if k == key {
                    lemma_entry_in_map(after, slot as int);
                } else {
                    let p = position_of(before, k);
                    assert(before[p].0 == k);
                    lemma_entry_in_map(before, p);
                    if after.len() == before.len() {
                        assert(after[p] == before[p]);
                        lemma_entry_in_map(after, p);
                    } else if p < slot {
                        assert(after[p] == before[p]);
                        lemma_entry_in_map(after, p);
                    } else {
                        assert(after[p + 1] == before[p]);
                        lemma_entry_in_map(after, p + 1);
                    }
                }
            }
            assert(as_map(after) =~= as_map(before).insert(key as int, value));
        }
    }
}

/// What a hash map from keys to strengths holds, with the keys as whole numbers.
pub closed spec fn held(strengths: Map<u32, u16>) -> Map<int, u16> {
    Map::new(
        |key: int| 0 <= key <= u32::MAX && strengths.contains_key(key as u32),
        |key: int| strengths[key as u32],
    )
}

/// An empty hash map holds nothing.
pub proof fn lemma_held_empty()
    ensures
        held(Map::<u32, u16>::empty()) == Map::<int, u16>::empty(),
{
    assert(held(Map::<u32, u16>::empty()) =~= Map::<int, u16>::empty());
}

/// Stores a strength for a key in a hash map, in place of the one stored before if there
/// was one.
pub fn store(strengths: &mut HashMap<u32, u16>, key: u32, value: u16)
    ensures
        held(final(strengths)@) == held(old(strengths)@).insert(key as int, value),
{
    broadcast use group_hash_axioms;

    strengths.insert(key, value);
    assert(held(strengths@) =~= held(old(strengths)@).insert(key as int, value));
}

/// The entries of a hash map as a list sorted by key.
pub fn sorted_by_key(strengths: &HashMap<u32, u16>) -> (r: StrengthMap)
    ensures
        r.wf(),
        r@ == held(strengths@),
{
    broadcast use group_hash_axioms;

    let mut table = StrengthMap::new();
    let ghost all = spec_hash_map_iter(strengths).remaining();
    for pair in iter: strengths.iter()
        invariant
            table.wf(),
            iter.seq() == all,
            all == spec_hash_map_iter(strengths).remaining(),
            forall|key: int|
                table@.contains_key(key) <==> exists|i: int|
                    0 <= i < iter.index() && *(#[trigger] all[i]).0 == key,
            forall|key: int|
                table@.contains_key(key) ==> 0 <= key <= u32::MAX && strengths@.contains_key(key as u32)
                    && table@[key] == strengths@[key as u32],
    {
        let ghost before = table@;
        let ghost n = iter.index();
        assert(pair == all[n]);
        assert(strengths@.contains_key(*all[n].0) && strengths@[*all[n].0] == *all[n].1);
        table.put(*pair.0, *pair.1);
        assert forall|key: int|
            table@.contains_key(key) <==> exists|i: int|
                0 <= i < n + 1 && *(#[trigger] all[i]).0 == key by {
            if table@.contains_key(key) {
                if key == *pair.0 as int {
                    assert(*all[n].0 == key);
                } else {
                    assert(before.contains_key(key));
                    let i = choose|i: int| 0 <= i < n && *(#[trigger] all[i]).0 == key;
                    assert(0 <= i < n + 1 && *all[i].0 == key);
                }
            }
            if exists|i: int| 0 <= i < n + 1 && *(#[trigger] all[i]).0 == key {
                let i = choose|i: int| 0 <= i < n + 1 && *(#[trigger] all[i]).0 == key;
                if i < n {
                    assert(before.contains_key(key));
                }
            }
        }
    }
    assert(table@ =~= held(strengths@)) by {
        assert forall|key: int| held(strengths@).contains_key(key) implies table@.contains_key(
            key,
        ) by {
            let k = key as u32;
            assert(strengths@.contains_key(k));
            assert(all.contains((&k, &strengths@[k])));
            let i = choose|i: int| 0 <= i < all.len() && all[i] == (&k, &strengths@[k]);
            assert(*all[i].0 == key);
        }
    }
    table
}

} // verus!
