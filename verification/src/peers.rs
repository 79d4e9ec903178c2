//! Peer addresses and the table of connections a node holds to its peers.
use rand::rngs::StdRng;
use rand::seq::SliceRandom;
use vstd::prelude::*;

verus! {

/// The standard random number generator of `rand`, which the node draws its
/// random choices from.
#[verifier::external_type_specification]
#[verifier::external_body]
pub struct ExStdRng(rand::rngs::StdRng);

/// Rearranges `peers` in a random order with `rand::seq::SliceRandom::shuffle`.
/// The order depends on `rng`; what holds of every outcome is that the same
/// peers come out, each as often as it went in.
#[verifier::external_body]
pub(crate) fn shuffle_peers(peers: &mut Vec<PeerAddr>, rng: &mut StdRng)
    ensures
        final(peers)@.to_multiset() == old(peers)@.to_multiset(),
{
    peers.shuffle(rng);
}

/// The address of a peer: an IP address and a port.
#[derive(Clone, Copy, Debug, PartialEq, Eq, Structural, Hash)]
pub enum PeerAddr {
    V4 { ip: u32, port: u16 },
    V6 { ip6: u128, port: u16, flowinfo: u32, scope_id: u32 },
}

/// The connections of a node, one for each peer address.
pub struct ConnectionTable<C> {
    entries: Vec<(PeerAddr, C)>,
}

impl<C> ConnectionTable<C> {
    /// No address occurs twice.
    #[verifier::type_invariant]
    closed spec fn keys_distinct(self) -> bool {
        forall|i: int, j: int|
            0 <= i < j < self.entries@.len() ==> (#[trigger] self.entries@[i]).0
                != (#[trigger] self.entries@[j]).0
    }

    closed spec fn has_key_at(self, k: PeerAddr, i: int) -> bool {
        0 <= i < self.entries@.len() && self.entries@[i].0 == k
    }

    /// The peers in the order in which the table holds them.
    pub closed spec fn key_seq(self) -> Seq<PeerAddr> {
        self.entries@.map_values(|e: (PeerAddr, C)| e.0)
    }

    /// The table as a map from addresses to connections.
    pub closed spec fn as_map(self) -> Map<PeerAddr, C> {
        Map::new(
            |k: PeerAddr| exists|i: int| self.has_key_at(k, i),
            |k: PeerAddr| self.entries@[choose|i: int| self.has_key_at(k, i)].1,
        )
    }

    proof fn lemma_index_is_unique(self, k: PeerAddr, i: int)
        requires
            self.keys_distinct(),
            self.has_key_at(k, i),
        ensures
            self.as_map().contains_key(k),
            self.as_map()[k] == self.entries@[i].1,
    {
        let j = choose|j: int| self.has_key_at(k, j);
        if j < i {
            assert(self.entries@[j].0 != self.entries@[i].0);
        } else if i < j {
            assert(self.entries@[i].0 != self.entries@[j].0);
        }
    }

    proof fn lemma_key_seq(self)
        requires
            self.keys_distinct(),
        ensures
            self.key_seq().no_duplicates(),
            self.key_seq().len() == self.entries@.len(),
            forall|k: PeerAddr| #[trigger] self.key_seq().contains(k) <==> self.as_map().contains_key(k),
    {
        assert forall|i: int, j: int|
            0 <= i < self.key_seq().len() && 0 <= j < self.key_seq().len() && i != j implies self.key_seq()[i]
            != self.key_seq()[j] by {
            if i < j {
                assert(self.entries@[i].0 != self.entries@[j].0);
            } else {
                assert(self.entries@[j].0 != self.entries@[i].0);
            }
        }
        assert forall|k: PeerAddr| #[trigger] self.key_seq().contains(k) implies self.as_map().contains_key(k) by {
            let i = choose|i: int| 0 <= i < self.key_seq().len() && self.key_seq()[i] == k;
            assert(self.has_key_at(k, i));
        }
        assert forall|k: PeerAddr| self.as_map().contains_key(k) implies #[trigger] self.key_seq().contains(k) by {
            let i = choose|i: int| self.has_key_at(k, i);
            assert(self.key_seq()[i] == k);
        }
    }

    /// An empty table.
    pub fn new() -> (t: Self)
        ensures
            t@ == Map::<PeerAddr, C>::empty(),
    {
        let t = ConnectionTable { entries: Vec::new() };
        assert(t.as_map() =~= Map::<PeerAddr, C>::empty());
        t
    }

    fn find(&self, k: &PeerAddr) -> (r: Option<usize>)
        ensures
            match r {
                Some(i) => self.has_key_at(*k, i as int),
                None => !self@.contains_key(*k),
            },
    {
        let mut i: usize = 0;
        while i < self.entries.len()
            invariant
                i <= self.entries@.len(),
                forall|j: int| 0 <= j < i ==> self.entries@[j].0 != *k,
            decreases self.entries@.len() - i,
        {
            if self.entries[i].0 == *k {
                return Some(i);
            }
            i = i + 1;
        }
        None
    }
}

impl<C> ConnectionTable<C> {
    /// The connection to `k`, if the table holds one.
    pub fn get(&self, k: &PeerAddr) -> (r: Option<&C>)
        ensures
            match r {
                Some(c) => self@.contains_key(*k) && *c == self@[*k],
                None => !self@.contains_key(*k),
            },
    {
        proof {
            use_type_invariant(self);
        }
        match self.find(k) {
            Some(i) => {
                proof {
                    self.lemma_index_is_unique(*k, i as int);
                }
                Some(&self.entries[i].1)
            },
            None => None,
        }
    }

    /// Whether the table holds a connection to `k`.
    pub fn contains(&self, k: &PeerAddr) -> (r: bool)
        ensures
            r == self@.contains_key(*k),
    {
        proof {
            use_type_invariant(self);
        }
        match self.find(k) {
            Some(i) => {
                proof {
                    self.lemma_index_is_unique(*k, i as int);
                }
                true
            },
            None => false,
        }
    }

    /// The number of peers in the table.
    pub fn len(&self) -> (n: usize)
        ensures
            n == self@.len(),
    {
        proof {
            use_type_invariant(self);
            self.lemma_key_seq();
            self.key_seq().unique_seq_to_set();
            assert(self.key_seq().to_set() =~= self@.dom());
        }
        self.entries.len()
    }

    /// The addresses of the peers in the table, each once.
    pub fn keys(&self) -> (ks: Vec<PeerAddr>)
        ensures
            ks@.no_duplicates(),
            ks@.len() == self@.len(),
            forall|k: PeerAddr| #[trigger] ks@.contains(k) <==> self@.contains_key(k),
    {
        proof {
            use_type_invariant(self);
            self.lemma_key_seq();
            self.key_seq().unique_seq_to_set();
            assert(self.key_seq().to_set() =~= self@.dom());
        }
        let mut ks: Vec<PeerAddr> = Vec::new();
        let mut i: usize = 0;
        while i < self.entries.len()
            invariant
                i <= self.entries@.len(),
                ks@ =~= self.key_seq().take(i as int),
            decreases self.entries@.len() - i,
        {
            ks.push(self.entries[i].0);
            i = i + 1;
            assert(ks@ =~= self.key_seq().take(i as int));
        }
        assert(ks@ =~= self.key_seq());
        ks
    }

    /// Puts `c` in the table as the connection to `k`, in place of any
    /// connection to `k` that was there.
    pub fn insert(&mut self, k: PeerAddr, c: C)
        ensures
            final(self)@ == old(self)@.insert(k, c),
    {
        proof {
            use_type_invariant(&*self);
        }
        let ghost before = *self;
        let found = self.find(&k);
        match found {
            Some(i) => {
                let mut entries: Vec<(PeerAddr, C)> = Vec::new();
                std::mem::swap(&mut entries, &mut self.entries);
                entries.set(i, (k, c));
                proof {
                    assert forall|a: int, b: int|
                        0 <= a < b < entries@.len() implies (#[trigger] entries@[a]).0
                        != (#[trigger] entries@[b]).0 by {
                        if a != i && b != i {
                            assert(before.entries@[a].0 != before.entries@[b].0);
                        } else if a == i {
                            assert(before.entries@[a].0 != before.entries@[b].0);
                        } else {
                            assert(before.entries@[a].0 != before.entries@[b].0);
                        }
                    }
                }
                self.entries = entries;
                assert(self.has_key_at(k, i as int));
            },
            None => {
                assert forall|j: int| 0 <= j < before.entries@.len() implies before.entries@[j].0 != k by {
                    if before.entries@[j].0 == k {
                        assert(before.has_key_at(k, j));
                    }
                }
                let mut entries: Vec<(PeerAddr, C)> = Vec::new();
                std::mem::swap(&mut entries, &mut self.entries);
                entries.push((k, c));
                proof {
                    assert forall|a: int, b: int|
                        0 <= a < b < entries@.len() implies (#[trigger] entries@[a]).0
                        != (#[trigger] entries@[b]).0 by {
                        if b < before.entries@.len() {
                            assert(before.entries@[a].0 != before.entries@[b].0);
                        }
                    }
                }
                self.entries = entries;
                assert(self.has_key_at(k, before.entries@.len() as int));
            },
        }
        proof {
            use_type_invariant(&*self);
            let target = before.as_map().insert(k, c);
            assert forall|k2: PeerAddr| #[trigger] self.as_map().contains_key(k2) <==> target.contains_key(k2) by {
                if self.as_map().contains_key(k2) && k2 != k {
                    let j = choose|j: int| self.has_key_at(k2, j);
                    assert(before.has_key_at(k2, j));
                }
                if target.contains_key(k2) && k2 != k {
                    let j = choose|j: int| before.has_key_at(k2, j);
                    assert(self.has_key_at(k2, j));
                }
            }
            assert forall|k2: PeerAddr| self.as_map().contains_key(k2) implies #[trigger] self.as_map()[k2]
                == target[k2] by {
                let j = choose|j: int| self.has_key_at(k2, j);
                self.lemma_index_is_unique(k2, j);
                if k2 != k {
                    assert(before.has_key_at(k2, j));
                    before.lemma_index_is_unique(k2, j);
                }
            }
            assert(self.as_map() =~= target);
        }
    }

    /// Takes the connection to `k`, if there is one, out of the table.
    pub fn remove(&mut self, k: &PeerAddr)
        ensures
            final(self)@ == old(self)@.remove(*k),
    {
        proof {
            use_type_invariant(&*self);
        }
        let ghost before = *self;
        let found = self.find(k);
        if let Some(i) = found {
            let mut entries: Vec<(PeerAddr, C)> = Vec::new();
            std::mem::swap(&mut entries, &mut self.entries);
            entries.remove(i);
            proof {
                assert forall|a: int, b: int|
                    0 <= a < b < entries@.len() implies (#[trigger] entries@[a]).0
                    != (#[trigger] entries@[b]).0 by {
                    let a0 = if a < i { a } else { a + 1 };
                    let b0 = if b < i { b } else { b + 1 };
                    assert(entries@[a] == before.entries@[a0]);
                    assert(entries@[b] == before.entries@[b0]);
                }
            }
            self.entries = entries;
        }
        proof {
            use_type_invariant(&*self);
            let target = before.as_map().remove(*k);
            if let Some(i) = found {
                let shift = |j: int| if j < i { j } else { j + 1 };
                assert forall|j: int| 0 <= j < self.entries@.len() implies #[trigger] self.entries@[j]
                    == before.entries@[shift(j)] by {}
                assert forall|k2: PeerAddr| #[trigger] self.as_map().contains_key(k2) <==> target.contains_key(k2) by {
                    if self.as_map().contains_key(k2) {
                        let j = choose|j: int| self.has_key_at(k2, j);
                        assert(before.has_key_at(k2, shift(j)));
                        if k2 == *k {
                            before.lemma_index_is_unique(k2, shift(j));
                            assert(before.entries@[shift(j)].0 != before.entries@[i as int].0);
                        }
                    }
                    if target.contains_key(k2) {
                        let j = choose|j: int| before.has_key_at(k2, j);
                        assert(j != i);
                        let j2 = if j < i { j } else { j - 1 };
                        assert(self.entries@[j2] == before.entries@[shift(j2)]);
                        assert(self.has_key_at(k2, j2));
                    }
                }
                assert forall|k2: PeerAddr| self.as_map().contains_key(k2) implies #[trigger] self.as_map()[k2]
                    == target[k2] by {
                    let j = choose|j: int| self.has_key_at(k2, j);
                    self.lemma_index_is_unique(k2, j);
                    assert(before.has_key_at(k2, shift(j)));
                    before.lemma_index_is_unique(k2, shift(j));
                }
            } else {
                assert forall|k2: PeerAddr| #[trigger] self.as_map().contains_key(k2) <==> target.contains_key(k2) by {
                    if self.as_map().contains_key(k2) {
                        let j = choose|j: int| self.has_key_at(k2, j);
                        assert(self.has_key_at(k2, j));
                    }
                }
                assert forall|k2: PeerAddr| self.as_map().contains_key(k2) implies #[trigger] self.as_map()[k2]
                    == target[k2] by {}
            }
            assert(self.as_map() =~= target);
        }
    }
}

impl<C> View for ConnectionTable<C> {
    type V = Map<PeerAddr, C>;

    closed spec fn view(&self) -> Map<PeerAddr, C> {
        self.as_map()
    }
}

} // verus!
