//! A map keyed by peer identifiers that remembers the order in which peers
//! were added.

use vstd::prelude::*;
use crate::peer_id::PeerID;

verus! {

/// The position of `key` in `entries`, or -1 when no entry has it.
pub open spec fn key_index<V>(entries: Seq<(Seq<char>, V)>, key: Seq<char>) -> int
    decreases entries.len(),
{
    if entries.len() == 0 {
        -1
    } else if entries.last().0 == key {
        entries.len() - 1
    } else {
        key_index(entries.drop_last(), key)
    }
}

/// The value stored for `key`, if any.
pub open spec fn lookup<V>(entries: Seq<(Seq<char>, V)>, key: Seq<char>) -> Option<V> {
    let i = key_index(entries, key);
    if i < 0 { None } else { Some(entries[i].1) }
}

/// Whether some entry has `key`.
pub open spec fn has_key<V>(entries: Seq<(Seq<char>, V)>, key: Seq<char>) -> bool {
    key_index(entries, key) >= 0
}

/// `entries` with `key` mapped to `value`: the existing entry is replaced in
/// place, or a new one is added at the end.
pub open spec fn assoc_insert<V>(entries: Seq<(Seq<char>, V)>, key: Seq<char>, value: V) -> Seq<(Seq<char>, V)> {
    let i = key_index(entries, key);
    if i < 0 { entries.push((key, value)) } else { entries.update(i, (key, value)) }
}

/// `entries` without the entry for `key`; the others keep their order.
pub open spec fn assoc_remove<V>(entries: Seq<(Seq<char>, V)>, key: Seq<char>) -> Seq<(Seq<char>, V)> {
    let i = key_index(entries, key);
    if i < 0 { entries } else { entries.remove(i) }
}

/// No key occurs twice.
pub open spec fn distinct_keys<V>(entries: Seq<(Seq<char>, V)>) -> bool {
    forall|i: int, j: int| 0 <= i < j < entries.len() ==> entries[i].0 != entries[j].0
}

/// The keys, in order.
pub open spec fn keys_of<V>(entries: Seq<(Seq<char>, V)>) -> Seq<Seq<char>> {
    entries.map_values(|e: (Seq<char>, V)| e.0)
}

/// `key_index` finds the entry with the key, and says -1 exactly when there
/// is none.
pub proof fn lemma_key_index<V>(entries: Seq<(Seq<char>, V)>, key: Seq<char>)
    ensures
        -1 <= key_index(entries, key) < entries.len(),
        key_index(entries, key) >= 0 ==> entries[key_index(entries, key)].0 == key,
        key_index(entries, key) < 0 <==> forall|i: int| 0 <= i < entries.len() ==> entries[i].0 != key,
    decreases entries.len(),
{
    if entries.len() > 0 && entries.last().0 != key {
        lemma_key_index(entries.drop_last(), key);
        if key_index(entries, key) < 0 {
            assert forall|i: int| 0 <= i < entries.len() implies entries[i].0 != key by {
                if i < entries.len() - 1 {
                    assert(entries[i] == entries.drop_last()[i]);
                }
            }
        }
    }
}

/// With distinct keys, the entry at position `i` is the one `key_index`
/// finds for its key.
pub proof fn lemma_key_index_unique<V>(entries: Seq<(Seq<char>, V)>, i: int)
    requires
        distinct_keys(entries),
        0 <= i < entries.len(),
    ensures
        key_index(entries, entries[i].0) == i,
{
    lemma_key_index(entries, entries[i].0);
}

/// Inserting and removing keep keys distinct, and what they do to lookups.
pub proof fn lemma_assoc_ops<V>(entries: Seq<(Seq<char>, V)>, key: Seq<char>, value: V)
    requires
        distinct_keys(entries),
    ensures
        distinct_keys(assoc_insert(entries, key, value)),
        distinct_keys(assoc_remove(entries, key)),
        forall|k: Seq<char>| #[trigger] lookup(assoc_insert(entries, key, value), k)
            == if k == key { Some(value) } else { lookup(entries, k) },
        forall|k: Seq<char>| #[trigger] lookup(assoc_remove(entries, key), k)
            == if k == key { None } else { lookup(entries, k) },
{
    lemma_key_index(entries, key);
    let ins = assoc_insert(entries, key, value);
    let rem = assoc_remove(entries, key);
    assert(distinct_keys(ins));
    assert(distinct_keys(rem));
    assert forall|k: Seq<char>| #[trigger] lookup(ins, k)
        == if k == key { Some(value) } else { lookup(entries, k) } by {
        lemma_key_index(entries, k);
        lemma_key_index(ins, k);
        if key_index(ins, k) >= 0 {
            lemma_key_index_unique(ins, key_index(ins, k));
        }
        if key_index(entries, k) >= 0 {
            let j = key_index(entries, k);
            if k != key {
                assert(ins[j] == entries[j]);
                lemma_key_index_unique(ins, j);
            }
        }
        if k == key {
            if key_index(entries, key) < 0 {
                assert(ins[entries.len() as int].0 == key);
                lemma_key_index_unique(ins, entries.len() as int);
            } else {
                lemma_key_index_unique(ins, key_index(entries, key));
            }
        }
    }
    assert forall|k: Seq<char>| #[trigger] lookup(rem, k)
        == if k == key { None } else { lookup(entries, k) } by {
        lemma_key_index(entries, k);
        lemma_key_index(rem, k);
        if key_index(rem, k) >= 0 {
            lemma_key_index_unique(rem, key_index(rem, k));
            let r = key_index(rem, k);
            let i = key_index(entries, key);
            if i >= 0 {
                if r < i {
                    assert(rem[r] == entries[r]);
                } else {
                    assert(rem[r] == entries[r + 1]);
                }
            }
        }
        if key_index(entries, k) >= 0 && k != key {
            let j = key_index(entries, k);
            let i = key_index(entries, key);
            if i >= 0 {
                if j < i {
                    assert(rem[j] == entries[j]);
                    lemma_key_index_unique(rem, j);
                } else {
                    assert(rem[j - 1] == entries[j]);
                    lemma_key_index_unique(rem, j - 1);
                }
            } else {
                lemma_key_index_unique(rem, j);
            }
        }
    }
}

/// A map from peers to values, in the order the peers were added.
#[derive(Debug)]
pub struct PeerMap<V> {
    entries: Vec<(PeerID, V)>,
}

impl<V> View for PeerMap<V> {
    type V = Seq<(Seq<char>, V)>;

    closed spec fn view(&self) -> Seq<(Seq<char>, V)> {
        self.entries@.map_values(|e: (PeerID, V)| (e.0@, e.1))
    }
}

impl<V> PeerMap<V> {
    /// No peer occurs twice.
    pub open spec fn wf(&self) -> bool {
        distinct_keys(self@)
    }

    pub fn new() -> (map: Self)
        ensures
            map@ == Seq::<(Seq<char>, V)>::empty(),
            map.wf(),
    {
        let map = PeerMap { entries: Vec::new() };
        assert(map@ =~= Seq::<(Seq<char>, V)>::empty());
        map
    }

    pub fn len(&self) -> (n: usize)
        ensures
            n == self@.len(),
    {
        self.entries.len()
    }

    /// The peer at position `i`.
    pub fn key_at(&self, i: usize) -> (key: &PeerID)
        requires
            i < self@.len(),
        ensures
            key@ == self@[i as int].0,
    {
        &self.entries[i].0
    }

    /// The value at position `i`.
    pub fn value_at(&self, i: usize) -> (value: &V)
        requires
            i < self@.len(),
        ensures
            *value == self@[i as int].1,
    {
        &self.entries[i].1
    }

    /// The position of `key`, if it is in the map.
    pub fn index_of(&self, key: &PeerID) -> (index: Option<usize>)
        ensures
            match index {
                Some(i) => i == key_index(self@, key@) && i < self@.len(),
                None => key_index(self@, key@) == -1,
            },
    {
        proof {
            lemma_key_index(self@, key@);
            assert(self@.take(self@.len() as int) =~= self@);
        }
        let mut i: usize = self.entries.len();
        while i > 0
            invariant
                i <= self@.len(),
                key_index(self@, key@) == key_index(self@.take(i as int), key@),
            decreases i,
        {
            let same = self.entries[i - 1].0.same(key);
            proof {
                let t = self@.take(i as int);
                assert(t.drop_last() =~= self@.take(i - 1));
                assert(t.last() == self@[i - 1]);
            }
            if same {
                return Some(i - 1);
            }
            i = i - 1;
        }
        None
    }

    /// The value stored for `key`, if any.
    pub fn get(&self, key: &PeerID) -> (value: Option<&V>)
        ensures
            match value {
                Some(v) => lookup(self@, key@) == Some(*v),
                None => lookup(self@, key@) is None,
            },
    {
        match self.index_of(key) {
            Some(i) => Some(&self.entries[i].1),
            None => None,
        }
    }

    pub fn contains_key(&self, key: &PeerID) -> (found: bool)
        ensures
            found == has_key(self@, key@),
    {
        self.index_of(key).is_some()
    }

    /// Replaces the value at position `i` and returns the previous one; the
    /// key and the order stay.
    pub fn replace_value_at(&mut self, i: usize, value: V) -> (previous: V)
        requires
            i < old(self)@.len(),
            old(self).wf(),
        ensures
            final(self)@ == old(self)@.update(i as int, (old(self)@[i as int].0, value)),
            previous == old(self)@[i as int].1,
            final(self).wf(),
    {
        let ghost key = self@[i as int].0;
        let (k, old_value) = self.entries.remove(i);
        self.entries.insert(i, (k, value));
        assert(self@ =~= old(self)@.update(i as int, (key, value)));
        old_value
    }

    /// Maps `key` to `value`, replacing the value in place when the key is
    /// already there and adding it at the end otherwise.
    pub fn insert(&mut self, key: PeerID, value: V)
        requires
            old(self).wf(),
        ensures
            final(self)@ == assoc_insert(old(self)@, key@, value),
            final(self).wf(),
    {
        proof {
            lemma_assoc_ops(self@, key@, value);
        }
        let ghost k = key@;
        match self.index_of(&key) {
            Some(i) => {
                self.entries.set(i, (key, value));
            },
            None => {
                self.entries.push((key, value));
            },
        }
        assert(self@ =~= assoc_insert(old(self)@, k, value));
    }

    /// Removes the entry for `key`, if any, and returns its value.
    pub fn remove(&mut self, key: &PeerID) -> (value: Option<V>)
        requires
            old(self).wf(),
        ensures
            final(self)@ == assoc_remove(old(self)@, key@),
            value == lookup(old(self)@, key@),
            final(self).wf(),
    {
        proof {
            lemma_assoc_ops(self@, key@, arbitrary());
        }
        match self.index_of(key) {
            Some(i) => {
                let (_, v) = self.entries.remove(i);
                assert(self@ =~= assoc_remove(old(self)@, key@));
                Some(v)
            },
            None => None,
        }
    }
}

/// `entries` without the entries whose value is `value`; the others keep
/// their order.
pub open spec fn drop_value<V>(entries: Seq<(Seq<char>, V)>, value: V) -> Seq<(Seq<char>, V)>
    decreases entries.len(),
{
    if entries.len() == 0 {
        entries
    } else if entries.last().1 == value {
        drop_value(entries.drop_last(), value)
    } else {
        drop_value(entries.drop_last(), value).push(entries.last())
    }
}

/// What `drop_value` keeps: entries of the original, none with the dropped
/// value, every other entry, and keys still distinct.
pub proof fn lemma_drop_value<V>(entries: Seq<(Seq<char>, V)>, value: V)
    ensures
        forall|e: (Seq<char>, V)| #[trigger] drop_value(entries, value).contains(e) ==> entries.contains(e) && e.1 != value,
        forall|e: (Seq<char>, V)| entries.contains(e) && e.1 != value ==> #[trigger] drop_value(entries, value).contains(e),
        distinct_keys(entries) ==> distinct_keys(drop_value(entries, value)),
    decreases entries.len(),
{
    if entries.len() > 0 {
        let rest = entries.drop_last();
        lemma_drop_value(rest, value);
        let d = drop_value(entries, value);
        assert forall|e: (Seq<char>, V)| #[trigger] d.contains(e) implies entries.contains(e) && e.1 != value by {
            let k = choose|k: int| 0 <= k < d.len() && d[k] == e;
            if d.len() > drop_value(rest, value).len() && k == d.len() - 1 {
                assert(entries[entries.len() - 1] == e);
            } else {
                assert(drop_value(rest, value).contains(e));
                let m = choose|m: int| 0 <= m < rest.len() && rest[m] == e;
                assert(entries[m] == e);
            }
        }
        assert forall|e: (Seq<char>, V)| entries.contains(e) && e.1 != value implies #[trigger] d.contains(e) by {
            let m = choose|m: int| 0 <= m < entries.len() && entries[m] == e;
            if m == entries.len() - 1 {
                assert(d[d.len() - 1] == e);
            } else {
                assert(rest[m] == e);
                assert(drop_value(rest, value).contains(e));
                let k = choose|k: int| 0 <= k < drop_value(rest, value).len() && drop_value(rest, value)[k] == e;
                assert(d[k] == e);
            }
        }
        if distinct_keys(entries) && entries.last().1 != value {
            assert(distinct_keys(rest));
            let dr = drop_value(rest, value);
            assert forall|i: int, j: int| 0 <= i < j < d.len() implies d[i].0 != d[j].0 by {
                if j == d.len() - 1 {
                    assert(dr.contains(dr[i]));
                    let m = choose|m: int| 0 <= m < rest.len() && rest[m] == dr[i];
                    assert(entries[m] == dr[i]);
                    assert(entries[entries.len() - 1] == d[j]);
                } else {
                    assert(d[i] == dr[i]);
                    assert(d[j] == dr[j]);
                }
            }
        }
    }
}

impl PeerMap<crate::aux::LinkID> {
    /// Removes every entry whose value is `value`; the others keep their
    /// order.
    pub fn remove_value(&mut self, value: crate::aux::LinkID)
        requires
            old(self).wf(),
        ensures
            final(self)@ == drop_value(old(self)@, value),
            final(self).wf(),
    {
        let ghost start = self@;
        let mut kept: Vec<(PeerID, crate::aux::LinkID)> = Vec::new();
        let mut i: usize = 0;
        while i < self.entries.len()
            invariant
                i <= self@.len(),
                self@ == start,
                kept@.map_values(|e: (PeerID, crate::aux::LinkID)| (e.0@, e.1)) =~= drop_value(
                    start.take(i as int),
                    value,
                ),
            decreases self@.len() - i,
        {
            proof {
                let t = start.take(i as int + 1);
                assert(t.drop_last() =~= start.take(i as int));
                assert(t.last() == start[i as int]);
            }
            if self.entries[i].1 != value {
                let key = self.entries[i].0.clone();
                let link = self.entries[i].1;
                kept.push((key, link));
            }
            i = i + 1;
        }
        assert(start.take(start.len() as int) =~= start);
        self.entries = kept;
        proof {
            lemma_drop_value(start, value);
        }
    }
}

} // verus!
