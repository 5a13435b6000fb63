//! Sets of peers, and the choice of the peer that a request goes to.

use vstd::prelude::*;

use crate::proto::keys::{distance, nearer, smaller, BlobHash, PublicKey};

verus! {

/// A set of peers.
#[derive(Debug, Clone)]
pub struct PeerSet {
    keys: Vec<PublicKey>,
}

impl View for PeerSet {
    type V = Set<PublicKey>;

    closed spec fn view(&self) -> Set<PublicKey> {
        self.keys@.to_set()
    }
}

/// Whether `order` goes through `set`, each member once.
pub open spec fn walks(order: Seq<PublicKey>, set: Set<PublicKey>) -> bool {
    &&& order.no_duplicates()
    &&& order.to_set() == set
}

/// Whether `pick` is a choice among `candidates`: one of them, or nothing if there is none.
pub open spec fn picks(candidates: Set<PublicKey>, pick: Option<PublicKey>) -> bool {
    match pick {
        Some(p) => candidates.contains(p),
        None => forall|q: PublicKey| !candidates.contains(q),
    }
}

/// Whether `pick` is a choice among `candidates` to which no other one is strictly nearer to
/// `key`.
pub open spec fn picks_nearest(
    candidates: Set<PublicKey>,
    key: BlobHash,
    pick: Option<PublicKey>,
) -> bool {
    &&& picks(candidates, pick)
    &&& pick matches Some(p) ==> forall|q: PublicKey|
        candidates.contains(q) ==> !nearer(q, p, key)
}

/// The peers that a request may still be sent to: neither tried nor one of the two to skip.
pub open spec fn untried(
    peers: Set<PublicKey>,
    tried: Set<PublicKey>,
    skip_a: PublicKey,
    skip_b: PublicKey,
) -> Set<PublicKey> {
    peers.difference(tried).remove(skip_a).remove(skip_b)
}

pub(crate) proof fn lemma_walk_of_nothing(order: Seq<PublicKey>, set: Set<PublicKey>)
    requires
        walks(order, set),
        forall|p: PublicKey| !set.contains(p),
    ensures
        order.len() == 0,
{
    if order.len() > 0 {
        assert(order.contains(order[0]));
        assert(order.to_set().contains(order[0]));
    }
}

pub(crate) proof fn lemma_walk_of_something(order: Seq<PublicKey>, set: Set<PublicKey>)
    requires
        walks(order, set),
        exists|p: PublicKey| set.contains(p),
    ensures
        order.len() > 0,
{
    let p = choose|p: PublicKey| set.contains(p);
    assert(order.to_set().contains(p));
    assert(order.contains(p));
}

impl PeerSet {
    /// No peer is listed twice.
    pub closed spec fn wf(&self) -> bool {
        self.keys@.no_duplicates()
    }

    /// The empty set.
    pub fn new() -> (set: PeerSet)
        ensures
            set.wf(),
            set@ == Set::<PublicKey>::empty(),
    {
        let set = PeerSet { keys: Vec::new() };
        assert(set@ =~= Set::<PublicKey>::empty());
        set
    }

    /// Whether `key` is in the set.
    pub fn contains(&self, key: &PublicKey) -> (r: bool)
        ensures
            r == self@.contains(*key),
    {
        let mut i: usize = 0;
        while i < self.keys.len()
            invariant
                i <= self.keys@.len(),
                forall|j: int| 0 <= j < i ==> self.keys@[j] != *key,
            decreases self.keys@.len() - i,
        {
            if self.keys[i] == *key {
                assert(self.keys@.contains(*key));
                return true;
            }
            i = i + 1;
        }
        false
    }

    /// Whether the set has no member.
    pub fn is_empty(&self) -> (r: bool)
        ensures
            r == (forall|p: PublicKey| !self@.contains(p)),
    {
        if self.keys.len() == 0 {
            true
        } else {
            assert(self@.contains(self.keys@[0]));
            false
        }
    }

    /// A set with the same members.
    pub fn copy(&self) -> (set: PeerSet)
        requires
            self.wf(),
        ensures
            set.wf(),
            set@ == self@,
    {
        PeerSet { keys: self.to_vec() }
    }

    /// Puts `key` into the set.
    pub fn insert(&mut self, key: PublicKey)
        requires
            old(self).wf(),
        ensures
            final(self).wf(),
            final(self)@ == old(self)@.insert(key),
    {
        if self.contains(&key) {
            assert(self@ =~= self@.insert(key));
        } else {
            let ghost before = self.keys@;
            self.keys.push(key);
            proof {
                assert(self.keys@.no_duplicates());
                assert forall|k: PublicKey| self.keys@.to_set().contains(k)
                    == before.to_set().insert(key).contains(k) by {
                    if before.contains(k) {
                        let j = choose|j: int| 0 <= j < before.len() && before[j] == k;
                        assert(self.keys@[j] == k);
                    }
                    if k == key {
                        assert(self.keys@[before.len() as int] == k);
                    }
                }
                assert(self@ =~= old(self)@.insert(key));
            }
        }
    }

    /// Takes `key` out of the set.
    pub fn remove(&mut self, key: &PublicKey)
        requires
            old(self).wf(),
        ensures
            final(self).wf(),
            final(self)@ == old(self)@.remove(*key),
    {
        let mut i: usize = 0;
        while i < self.keys.len()
            invariant
                i <= self.keys@.len(),
                self.keys@ == old(self).keys@,
                self.wf(),
                forall|j: int| 0 <= j < i ==> self.keys@[j] != *key,
            decreases self.keys@.len() - i,
        {
            if self.keys[i] == *key {
                let ghost before = self.keys@;
                self.keys.remove(i);
                proof {
                    let after = self.keys@;
                    assert forall|k: PublicKey| after.to_set().contains(k)
                        == before.to_set().remove(*key).contains(k) by {
                        if before.contains(k) && k != *key {
                            let j = choose|j: int| 0 <= j < before.len() && before[j] == k;
                            if j < i {
                                assert(after[j] == k);
                            } else {
                                assert(after[j - 1] == k);
                            }
                        }
                        if after.contains(k) {
                            let j = choose|j: int| 0 <= j < after.len() && after[j] == k;
                            if j < i {
                                assert(before[j] == k);
                            } else {
                                assert(before[j + 1] == k);
                            }
                        }
                    }
                    assert(self@ =~= old(self)@.remove(*key));
                }
                return;
            }
            i = i + 1;
        }
        assert(self@ =~= old(self)@.remove(*key));
    }

    /// The members of the set, each once.
    pub fn to_vec(&self) -> (order: Vec<PublicKey>)
        requires
            self.wf(),
        ensures
            walks(order@, self@),
    {
        let mut order: Vec<PublicKey> = Vec::new();
        let mut i: usize = 0;
        while i < self.keys.len()
            invariant
                i <= self.keys@.len(),
                order@ == self.keys@.take(i as int),
            decreases self.keys@.len() - i,
        {
            order.push(self.keys[i]);
            i = i + 1;
            assert(order@ =~= self.keys@.take(i as int));
        }
        assert(order@ =~= self.keys@);
        order
    }

    /// Some member of the set.
    pub fn any(&self) -> (pick: Option<PublicKey>)
        ensures
            picks(self@, pick),
    {
        if self.keys.len() == 0 {
            None
        } else {
            assert(self.keys@.contains(self.keys@[0]));
            Some(self.keys[0])
        }
    }

    /// A member of the set to which no other one is nearer to `key`.
    pub fn nearest(&self, key: BlobHash) -> (pick: Option<PublicKey>)
        ensures
            picks_nearest(self@, key, pick),
    {
        let mut best: Option<PublicKey> = None;
        let mut i: usize = 0;
        while i < self.keys.len()
            invariant
                i <= self.keys@.len(),
                best matches Some(b) ==> self@.contains(b),
                forall|j: int| 0 <= j < i ==> best is Some && !nearer(
                    #[trigger] self.keys@[j],
                    best->0,
                    key,
                ),
            decreases self.keys@.len() - i,
        {
            let p = self.keys[i];
            assert(self.keys@.contains(p));
            match best {
                None => {
                    best = Some(p);
                },
                Some(b) => {
                    if smaller(distance(p, key), distance(b, key)) {
                        best = Some(p);
                    }
                },
            }
            i = i + 1;
        }
        best
    }

    /// Some peer that was not tried and is neither `skip_a` nor `skip_b`.
    pub fn any_untried(
        &self,
        tried: &PeerSet,
        skip_a: PublicKey,
        skip_b: PublicKey,
    ) -> (pick: Option<PublicKey>)
        ensures
            picks(untried(self@, tried@, skip_a, skip_b), pick),
    {
        let mut i: usize = 0;
        while i < self.keys.len()
            invariant
                i <= self.keys@.len(),
                forall|j: int| 0 <= j < i ==> !untried(
                    self@,
                    tried@,
                    skip_a,
                    skip_b,
                ).contains(#[trigger] self.keys@[j]),
            decreases self.keys@.len() - i,
        {
            let p = self.keys[i];
            assert(self.keys@.contains(p));
            if !tried.contains(&p) && p != skip_a && p != skip_b {
                return Some(p);
            }
            i = i + 1;
        }
        None
    }

    /// A peer, among those that were not tried and are neither `skip_a` nor `skip_b`, to which
    /// no other one is nearer to `key`.
    pub fn nearest_untried(
        &self,
        tried: &PeerSet,
        skip_a: PublicKey,
        skip_b: PublicKey,
        key: BlobHash,
    ) -> (pick: Option<PublicKey>)
        ensures
            picks_nearest(untried(self@, tried@, skip_a, skip_b), key, pick),
    {
        let mut best: Option<PublicKey> = None;
        let ghost candidates = untried(self@, tried@, skip_a, skip_b);
        let mut i: usize = 0;
        while i < self.keys.len()
            invariant
                i <= self.keys@.len(),
                candidates == untried(self@, tried@, skip_a, skip_b),
                best matches Some(b) ==> candidates.contains(b),
                forall|j: int| 0 <= j < i && candidates.contains(#[trigger] self.keys@[j])
                    ==> best is Some && !nearer(self.keys@[j], best->0, key),
            decreases self.keys@.len() - i,
        {
            let p = self.keys[i];
            assert(self.keys@.contains(p));
            if !tried.contains(&p) && p != skip_a && p != skip_b {
                match best {
                    None => {
                        best = Some(p);
                    },
                    Some(b) => {
                        if smaller(distance(p, key), distance(b, key)) {
                            best = Some(p);
                        }
                    },
                }
            }
            i = i + 1;
        }
        best
    }
}

} // verus!
