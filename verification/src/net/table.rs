//! Tables whose keys are node identifiers or content hashes.

use vstd::prelude::*;

use crate::proto::keys::{BlobHash, PublicKey};

verus! {

/// A key that can be told from any other.
pub trait Name: Sized {
    /// Whether both are the same key.
    fn same(&self, other: &Self) -> (r: bool)
        ensures
            r == (*self == *other),
    ;
}

impl Name for PublicKey {
    fn same(&self, other: &Self) -> (r: bool) {
        self.hi == other.hi && self.lo == other.lo
    }
}

impl Name for BlobHash {
    fn same(&self, other: &Self) -> (r: bool) {
        self.hi == other.hi && self.lo == other.lo
    }
}

/// A table with at most one entry under each key.
#[derive(Debug)]
pub struct Table<K, V> {
    entries: Vec<(K, V)>,
}

/// Whether entry `i` is the one under `key`.
spec fn holds<K, V>(entries: Seq<(K, V)>, key: K, i: int) -> bool {
    0 <= i < entries.len() && entries[i].0 == key
}

/// Whether no two entries have the same key.
spec fn distinct<K, V>(entries: Seq<(K, V)>) -> bool {
    forall|i: int, j: int|
        0 <= i < entries.len() && 0 <= j < entries.len() && i != j ==> (#[trigger] entries[i]).0
            != (#[trigger] entries[j]).0
}

/// The entries as a map.
spec fn map_of<K, V>(entries: Seq<(K, V)>) -> Map<K, V> {
    Map::new(
        |key: K| exists|i: int| holds(entries, key, i),
        |key: K| entries[choose|i: int| holds(entries, key, i)].1,
    )
}

proof fn lemma_entry<K, V>(entries: Seq<(K, V)>, key: K, i: int)
    requires
        distinct(entries),
        holds(entries, key, i),
    ensures
        map_of(entries).contains_key(key),
        map_of(entries)[key] == entries[i].1,
{
    let j = choose|j: int| holds(entries, key, j);
    assert(holds(entries, key, j));
}

proof fn lemma_no_entry<K, V>(entries: Seq<(K, V)>, key: K)
    requires
        forall|i: int| 0 <= i < entries.len() ==> (#[trigger] entries[i]).0 != key,
    ensures
        !map_of(entries).contains_key(key),
{
}

proof fn lemma_push<K, V>(entries: Seq<(K, V)>, key: K, value: V)
    requires
        distinct(entries),
        !map_of(entries).contains_key(key),
    ensures
        distinct(entries.push((key, value))),
        map_of(entries.push((key, value))) == map_of(entries).insert(key, value),
{
    let more = entries.push((key, value));
    assert forall|i: int| 0 <= i < entries.len() implies (#[trigger] entries[i]).0 != key by {
        if entries[i].0 == key {
            assert(holds(entries, key, i));
        }
    }
    assert(distinct(more));
    let all = map_of(entries).insert(key, value);
    assert forall|k: K| #[trigger] map_of(more).dom().contains(k) == all.dom().contains(k) by {
        if k == key {
            assert(holds(more, key, entries.len() as int));
        } else if map_of(entries).contains_key(k) {
            let i = choose|i: int| holds(entries, k, i);
            assert(holds(more, k, i));
        } else if map_of(more).contains_key(k) {
            let i = choose|i: int| holds(more, k, i);
            assert(holds(entries, k, i));
        }
    }
    assert forall|k: K| #[trigger] map_of(more).dom().contains(k) implies map_of(more)[k]
        == all[k] by {
        let i = choose|i: int| holds(more, k, i);
        lemma_entry(more, k, i);
        if k != key {
            assert(holds(entries, k, i));
            lemma_entry(entries, k, i);
        } else if i < entries.len() {
            assert(holds(entries, k, i));
        }
    }
    assert(map_of(more) =~= map_of(entries).insert(key, value));
}

proof fn lemma_remove<K, V>(entries: Seq<(K, V)>, key: K, at: int)
    requires
        distinct(entries),
        holds(entries, key, at),
    ensures
        distinct(entries.remove(at)),
        map_of(entries.remove(at)) == map_of(entries).remove(key),
{
    let less = entries.remove(at);
    assert forall|i: int, j: int| 0 <= i < less.len() && 0 <= j < less.len() && i != j implies (
    #[trigger] less[i]).0 != (#[trigger] less[j]).0 by {
        let a = if i < at {
            i
        } else {
            i + 1
        };
        let b = if j < at {
            j
        } else {
            j + 1
        };
        assert(less[i] == entries[a] && less[j] == entries[b]);
    }
    let rest = map_of(entries).remove(key);
    assert forall|k: K| #[trigger] map_of(less).dom().contains(k) == rest.dom().contains(k) by {
        if map_of(less).contains_key(k) {
            let i = choose|i: int| holds(less, k, i);
            let a = if i < at {
                i
            } else {
                i + 1
            };
            assert(less[i] == entries[a]);
            assert(holds(entries, k, a));
        } else if map_of(entries).contains_key(k) && k != key {
            let a = choose|a: int| holds(entries, k, a);
            let i = if a < at {
                a
            } else {
                a - 1
            };
            assert(less[i] == entries[a]);
            assert(holds(less, k, i));
        }
    }
    assert forall|k: K| #[trigger] map_of(less).dom().contains(k) implies map_of(less)[k]
        == rest[k] by {
        let i = choose|i: int| holds(less, k, i);
        let a = if i < at {
            i
        } else {
            i + 1
        };
        assert(less[i] == entries[a]);
        assert(holds(entries, k, a));
        lemma_entry(less, k, i);
        lemma_entry(entries, k, a);
    }
    assert(map_of(less) =~= map_of(entries).remove(key));
}

impl<K, V> View for Table<K, V> {
    type V = Map<K, V>;

    closed spec fn view(&self) -> Map<K, V> {
        map_of(self.entries@)
    }
}

impl<K: Name, V> Table<K, V> {
    /// No key is listed twice.
    pub closed spec fn wf(&self) -> bool {
        distinct(self.entries@)
    }

    /// The empty table.
    pub fn new() -> (table: Table<K, V>)
        ensures
            table.wf(),
            table@ == Map::<K, V>::empty(),
    {
        let table = Table { entries: Vec::new() };
        assert(table@ =~= Map::<K, V>::empty());
        table
    }

    /// Where the entry under `key` is.
    fn position(&self, key: &K) -> (at: Option<usize>)
        requires
            self.wf(),
        ensures
            match at {
                Some(i) => holds(self.entries@, *key, i as int),
                None => !self@.contains_key(*key),
            },
    {
        let mut i: usize = 0;
        while i < self.entries.len()
            invariant
                i <= self.entries@.len(),
                forall|j: int| 0 <= j < i ==> (#[trigger] self.entries@[j]).0 != *key,
            decreases self.entries@.len() - i,
        {
            if self.entries[i].0.same(key) {
                return Some(i);
            }
            i = i + 1;
        }
        proof {
            lemma_no_entry(self.entries@, *key);
        }
        None
    }

    /// The keys of all entries.
    pub fn keys(&self) -> (keys: Vec<K>) where K: Copy
        requires
            self.wf(),
        ensures
            keys@.no_duplicates(),
            forall|key: K| keys@.contains(key) <==> self@.contains_key(key),
    {
        let mut keys: Vec<K> = Vec::new();
        let mut i: usize = 0;
        while i < self.entries.len()
            invariant
                i <= self.entries@.len(),
                keys@.len() == i,
                forall|j: int| 0 <= j < i ==> #[trigger] keys@[j] == self.entries@[j].0,
            decreases self.entries@.len() - i,
        {
            keys.push(self.entries[i].0);
            i = i + 1;
        }
        assert forall|key: K| keys@.contains(key) <==> self@.contains_key(key) by {
            if keys@.contains(key) {
                let j = keys@.index_of(key);
                assert(holds(self.entries@, key, j));
            }
            if self@.contains_key(key) {
                let j = choose|j: int| holds(self.entries@, key, j);
                assert(keys@[j] == key);
            }
        }
        keys
    }

    /// The value under `key`.
    pub fn get(&self, key: &K) -> (value: Option<&V>)
        requires
            self.wf(),
        ensures
            match value {
                Some(v) => self@.contains_key(*key) && *v == self@[*key],
                None => !self@.contains_key(*key),
            },
    {
        match self.position(key) {
            Some(i) => {
                proof {
                    lemma_entry(self.entries@, *key, i as int);
                }
                Some(&self.entries[i].1)
            },
            None => None,
        }
    }

    /// Takes the entry under `key` out of the table.
    pub fn remove(&mut self, key: &K) -> (value: Option<V>)
        requires
            old(self).wf(),
        ensures
            final(self).wf(),
            final(self)@ == old(self)@.remove(*key),
            match value {
                Some(v) => old(self)@.contains_key(*key) && v == old(self)@[*key],
                None => !old(self)@.contains_key(*key),
            },
    {
        match self.position(key) {
            Some(i) => {
                proof {
                    lemma_entry(self.entries@, *key, i as int);
                    lemma_remove(self.entries@, *key, i as int);
                }
                let (_, value) = self.entries.remove(i);
                Some(value)
            },
            None => {
                assert(self@ =~= old(self)@.remove(*key));
                None
            },
        }
    }

    /// Puts `value` under `key`, in place of what was there.
    pub fn insert(&mut self, key: K, value: V)
        requires
            old(self).wf(),
        ensures
            final(self).wf(),
            final(self)@ == old(self)@.insert(key, value),
    {
        self.remove(&key);
        proof {
            lemma_push(self.entries@, key, value);
        }
        self.entries.push((key, value));
        assert(self@ =~= old(self)@.insert(key, value));
    }
}

} // verus!
