//! Finding the peers of a node.
use crate::peers::{shuffle_peers, PeerAddr};
use rand::rngs::StdRng;
use vstd::prelude::*;

verus! {

/// A source of peer addresses.
pub trait Discovery {
    /// Every peer known.
    fn list_known_nodes(&self) -> Vec<PeerAddr>;

    /// Up to `cnt` known peers, picked at random with `rng`.
    fn get_random_nodes(&self, cnt: usize, rng: &mut StdRng) -> Vec<PeerAddr>;
}

/// Peers from a fixed list, to which more can be added.
pub struct StaticDiscovery<R> {
    known_nodes: Vec<PeerAddr>,
    entropy: R,
}

impl<R> StaticDiscovery<R> {
    /// The peers known, in the order in which they became known.
    pub closed spec fn known(&self) -> Seq<PeerAddr> {
        self.known_nodes@
    }

    /// Discovery over `known_nodes`, picking at random with `entropy`.
    pub fn new(known_nodes: Vec<PeerAddr>, entropy: R) -> (d: Self)
        ensures
            d.known() == known_nodes@,
    {
        StaticDiscovery { known_nodes, entropy }
    }

    /// Adds `node` to the known peers.
    pub fn add_node(&mut self, node: PeerAddr)
        ensures
            final(self).known() == old(self).known().push(node),
    {
        self.known_nodes.push(node);
    }

    fn copy_known(&self) -> (v: Vec<PeerAddr>)
        ensures
            v@ == self.known(),
    {
        let mut v: Vec<PeerAddr> = Vec::new();
        let mut i: usize = 0;
        while i < self.known_nodes.len()
            invariant
                i <= self.known_nodes@.len(),
                v@ =~= self.known_nodes@.take(i as int),
            decreases self.known_nodes@.len() - i,
        {
            v.push(self.known_nodes[i]);
            i = i + 1;
            assert(v@ =~= self.known_nodes@.take(i as int));
        }
        assert(self.known_nodes@.take(i as int) =~= self.known_nodes@);
        v
    }
}

/// The first `n` elements of `s` are among the elements of `s`, as often as
/// they occur there at most.
proof fn lemma_prefix_sub_multiset(s: Seq<PeerAddr>, n: int)
    requires
        0 <= n <= s.len(),
    ensures
        s.subrange(0, n).to_multiset().subset_of(s.to_multiset()),
{
    broadcast use vstd::multiset::group_multiset_axioms;

    assert(s =~= s.subrange(0, n) + s.subrange(n, s.len() as int));
    vstd::seq_lib::lemma_multiset_commutative(s.subrange(0, n), s.subrange(n, s.len() as int));
}

/// Up to `cnt` of the peers in `known`, picked at random with `rng`.
fn random_subset(known: &Vec<PeerAddr>, cnt: usize, rng: &mut StdRng) -> (v: Vec<
    PeerAddr,
>)
    ensures
        v@.len() == if cnt < known@.len() { cnt as nat } else { known@.len() },
        v@.to_multiset().subset_of(known@.to_multiset()),
{
    let mut list: Vec<PeerAddr> = Vec::new();
    let mut i: usize = 0;
    while i < known.len()
        invariant
            i <= known@.len(),
            list@ =~= known@.take(i as int),
        decreases known@.len() - i,
    {
        list.push(known[i]);
        i = i + 1;
        assert(list@ =~= known@.take(i as int));
    }
    assert(known@.take(i as int) =~= known@);
    shuffle_peers(&mut list, rng);
    let ghost shuffled = list@;
    proof {
        vstd::seq_lib::to_multiset_len(shuffled);
        vstd::seq_lib::to_multiset_len(known@);
    }
    list.truncate(cnt);
    proof {
        if cnt <= shuffled.len() {
            lemma_prefix_sub_multiset(shuffled, cnt as int);
        } else {
            assert(list@.to_multiset().subset_of(shuffled.to_multiset()));
        }
    }
    list
}

impl StaticDiscovery<StdRng> {
    /// Up to `cnt` known peers, picked at random with the discovery's own
    /// source of randomness.
    pub fn pick_random_nodes(&mut self, cnt: usize) -> (v: Vec<PeerAddr>)
        ensures
            final(self).known() == old(self).known(),
            v@.len() == if cnt < old(self).known().len() { cnt as nat } else { old(self).known().len() },
            v@.to_multiset().subset_of(old(self).known().to_multiset()),
    {
        random_subset(&self.known_nodes, cnt, &mut self.entropy)
    }
}

impl<R> Discovery for StaticDiscovery<R> {
    fn list_known_nodes(&self) -> (v: Vec<PeerAddr>)
        ensures
            v@ == self.known(),
    {
        self.copy_known()
    }

    fn get_random_nodes(&self, cnt: usize, rng: &mut StdRng) -> (v: Vec<PeerAddr>)
        ensures
            v@.len() == if cnt < self.known().len() { cnt as nat } else { self.known().len() },
            v@.to_multiset().subset_of(self.known().to_multiset()),
    {
        random_subset(&self.known_nodes, cnt, rng)
    }
}

} // verus!
