//! The registry of known peers and the local coordinates.
use vstd::prelude::*;
use crate::types::{
    newborn_location, landmark_location, views, NodeCoordinates, NodeInfo, NodeInfoView,
    SocketAddress,
};

verus! {

broadcast use vstd::seq_lib::group_seq_properties;

#[verifier::external_type_specification]
#[verifier::external_body]
pub struct ExIsaac64Rng(rand::Isaac64Rng);

pub assume_specification[ rand::Isaac64Rng::new_unseeded ]() -> rand::Isaac64Rng;

/// Relies on rand's `SeedableRng::from_seed` for `Isaac64Rng`: a generator
/// whose draws follow from `seed` alone.
#[verifier::external_body]
fn seeded_rng(seed: u64) -> rand::Isaac64Rng {
    <rand::Isaac64Rng as rand::SeedableRng<&[u64]>>::from_seed(&[seed])
}

/// Relies on rand::seq::sample_indices: exactly `amount` distinct indices
/// below `length`, in random order; it panics when `amount > length`.
#[verifier::external_body]
fn sample_indices(rng: &mut rand::Isaac64Rng, length: usize, amount: usize) -> (r: Vec<usize>)
    requires
        amount <= length,
    ensures
        r@.len() == amount,
        r@.no_duplicates(),
        forall|i: int| 0 <= i < r@.len() ==> #[trigger] r@[i] < length,
{
    rand::seq::sample_indices(rng, length, amount)
}

/// A known peer, with the time its record was last written.
#[derive(Debug)]
pub struct Node {
    pub info: NodeInfo,
    /// Seconds since the epoch.
    pub last_updated_sec: u64,
}

pub struct NodeView {
    pub info: NodeInfoView,
    pub last_updated_sec: u64,
}

impl View for Node {
    type V = NodeView;

    open spec fn view(&self) -> NodeView {
        NodeView { info: self.info@, last_updated_sec: self.last_updated_sec }
    }
}

impl Clone for Node {
    fn clone(&self) -> (r: Self)
        ensures
            r@ == self@,
    {
        Node { info: self.info.clone(), last_updated_sec: self.last_updated_sec }
    }
}

pub open spec fn key_of(n: NodeView) -> SocketAddress {
    n.info.addr()
}

pub open spec fn has_key(s: Seq<NodeView>, k: SocketAddress) -> bool {
    exists|i: int| 0 <= i < s.len() && key_of(s[i]) == k
}

pub open spec fn index_of(s: Seq<NodeView>, k: SocketAddress) -> int {
    choose|i: int| 0 <= i < s.len() && key_of(s[i]) == k
}

pub open spec fn keys_unique(s: Seq<NodeView>) -> bool {
    forall|i: int, j: int|
        0 <= i < s.len() && 0 <= j < s.len() && i != j ==> key_of(s[i]) != key_of(s[j])
}

/// The records of `s`, keyed on their address.
pub open spec fn record_map(s: Seq<NodeView>) -> Map<SocketAddress, NodeView> {
    Map::new(|k: SocketAddress| has_key(s, k), |k: SocketAddress| s[index_of(s, k)])
}

proof fn lemma_record_map_get(s: Seq<NodeView>, i: int)
    requires
        keys_unique(s),
        0 <= i < s.len(),
    ensures
        record_map(s).contains_key(key_of(s[i])),
        record_map(s)[key_of(s[i])] == s[i],
{
    let k = key_of(s[i]);
    assert(has_key(s, k));
    let j = index_of(s, k);
    assert(key_of(s[j]) == k);
}

proof fn lemma_record_map_dom(s: Seq<NodeView>)
    requires
        keys_unique(s),
    ensures
        record_map(s).dom() == s.map_values(|n: NodeView| key_of(n)).to_set(),
        record_map(s).dom().finite(),
        record_map(s).dom().len() == s.len(),
{
    let ks = s.map_values(|n: NodeView| key_of(n));
    assert forall|k: SocketAddress| record_map(s).dom().contains(k) <==> ks.to_set().contains(k) by {
        if has_key(s, k) {
            let i = choose|i: int| 0 <= i < s.len() && key_of(s[i]) == k;
            assert(ks[i] == k);
        }
        if ks.to_set().contains(k) {
            let i = choose|i: int| 0 <= i < ks.len() && ks[i] == k;
            assert(key_of(s[i]) == k);
        }
    }
    assert(record_map(s).dom() =~= ks.to_set());
    assert(ks.no_duplicates()) by {
        assert forall|i: int, j: int| 0 <= i < ks.len() && 0 <= j < ks.len() && i != j implies ks[i]
            != ks[j] by {
            assert(ks[i] == key_of(s[i]) && ks[j] == key_of(s[j]));
        }
    }
    ks.unique_seq_to_set();
}

proof fn lemma_record_map_replace(s: Seq<NodeView>, i: int, x: NodeView)
    requires
        keys_unique(s),
        0 <= i < s.len(),
        key_of(x) == key_of(s[i]),
    ensures
        keys_unique(s.update(i, x)),
        record_map(s.update(i, x)) == record_map(s).insert(key_of(x), x),
{
    let t = s.update(i, x);
    assert(keys_unique(t)) by {
        assert forall|a: int, b: int| 0 <= a < t.len() && 0 <= b < t.len() && a != b implies key_of(
            t[a],
        ) != key_of(t[b]) by {
            assert(key_of(t[a]) == key_of(s[a]) && key_of(t[b]) == key_of(s[b]));
        }
    }
    assert forall|k: SocketAddress| #[trigger] has_key(t, k) <==> has_key(s, k) by {
        if has_key(t, k) {
            let a = choose|a: int| 0 <= a < t.len() && key_of(t[a]) == k;
            assert(key_of(s[a]) == k);
        }
        if has_key(s, k) {
            let a = choose|a: int| 0 <= a < s.len() && key_of(s[a]) == k;
            assert(key_of(t[a]) == k);
        }
    }
    assert forall|k: SocketAddress| has_key(t, k) implies #[trigger] record_map(t)[k] == record_map(
        s,
    ).insert(key_of(x), x)[k] by {
        let a = choose|a: int| 0 <= a < t.len() && key_of(t[a]) == k;
        lemma_record_map_get(t, a);
        if a == i {
        } else {
            assert(t[a] == s[a]);
            lemma_record_map_get(s, a);
        }
    }
    assert(record_map(t) =~= record_map(s).insert(key_of(x), x));
}

proof fn lemma_record_map_push(s: Seq<NodeView>, x: NodeView)
    requires
        keys_unique(s),
        !has_key(s, key_of(x)),
    ensures
        keys_unique(s.push(x)),
        record_map(s.push(x)) == record_map(s).insert(key_of(x), x),
{
    let t = s.push(x);
    assert(keys_unique(t)) by {
        assert forall|a: int, b: int| 0 <= a < t.len() && 0 <= b < t.len() && a != b implies key_of(
            t[a],
        ) != key_of(t[b]) by {
            if a < s.len() && b < s.len() {
                assert(t[a] == s[a] && t[b] == s[b]);
            } else if a < s.len() {
                assert(t[a] == s[a]);
            } else {
                assert(t[b] == s[b]);
            }
        }
    }
    assert forall|k: SocketAddress| #[trigger] has_key(t, k) <==> (has_key(s, k) || k == key_of(x))
        by {
        if has_key(t, k) {
            let a = choose|a: int| 0 <= a < t.len() && key_of(t[a]) == k;
            if a < s.len() {
                assert(t[a] == s[a]);
            }
        }
        if has_key(s, k) {
            let a = choose|a: int| 0 <= a < s.len() && key_of(s[a]) == k;
            assert(t[a] == s[a]);
        }
        if k == key_of(x) {
            assert(t[s.len() as int] == x);
        }
    }
    assert forall|k: SocketAddress| has_key(t, k) implies #[trigger] record_map(t)[k] == record_map(
        s,
    ).insert(key_of(x), x)[k] by {
        let a = choose|a: int| 0 <= a < t.len() && key_of(t[a]) == k;
        lemma_record_map_get(t, a);
        if a < s.len() {
            assert(t[a] == s[a]);
            lemma_record_map_get(s, a);
        }
    }
    assert(record_map(t) =~= record_map(s).insert(key_of(x), x));
}

/// What a storage holds: the local coordinates and the records of known
/// peers, keyed on their address.
pub struct StorageView {
    pub location: NodeCoordinates,
    pub records: Map<SocketAddress, NodeView>,
}

/// The single registry of a node.
pub struct Storage {
    location: NodeCoordinates,
    nodes: Vec<Node>,
    rng: rand::Isaac64Rng,
}

impl View for Storage {
    type V = StorageView;

    closed spec fn view(&self) -> StorageView {
        StorageView { location: self.location, records: record_map(self.entries()) }
    }
}

impl Storage {
    closed spec fn entries(&self) -> Seq<NodeView> {
        self.nodes@.map_values(|n: Node| n@)
    }

    /// Records are unique on their address.
    pub closed spec fn wf(&self) -> bool {
        keys_unique(self.entries())
    }

    /// The records always sit under their own address, and there are finitely many.
    pub proof fn lemma_records(&self)
        requires
            self.wf(),
        ensures
            self@.records.dom().finite(),
            forall|k: SocketAddress| #[trigger]
                self@.records.contains_key(k) ==> self@.records[k].info.addr() == k,
    {
        lemma_record_map_dom(self.entries());
        assert forall|k: SocketAddress| #[trigger]
            self@.records.contains_key(k) implies self@.records[k].info.addr() == k by {
            let i = choose|i: int| 0 <= i < self.entries().len() && key_of(self.entries()[i]) == k;
            lemma_record_map_get(self.entries(), i);
        }
    }

    /// An empty storage of a regular node, at the newborn coordinates.
    pub fn new() -> (r: Self)
        ensures
            r.wf(),
            r@.location == newborn_location(),
            r@.records == Map::<SocketAddress, NodeView>::empty(),
    {
        let r = Storage {
            location: NodeCoordinates::empty(),
            nodes: Vec::new(),
            rng: rand::Isaac64Rng::new_unseeded(),
        };
        assert(r@.records =~= Map::<SocketAddress, NodeView>::empty());
        r
    }

    /// An empty storage whose random choices follow from `seed`.
    pub fn seeded(seed: u64) -> (r: Self)
        ensures
            r.wf(),
            r@.location == newborn_location(),
            r@.records == Map::<SocketAddress, NodeView>::empty(),
    {
        let r = Storage { location: NodeCoordinates::empty(), nodes: Vec::new(), rng: seeded_rng(seed) };
        assert(r@.records =~= Map::<SocketAddress, NodeView>::empty());
        r
    }

    /// An empty storage of the landmark, pinned at the origin.
    pub fn new_landmark() -> (r: Self)
        ensures
            r.wf(),
            r@.location == landmark_location(),
            r@.records == Map::<SocketAddress, NodeView>::empty(),
    {
        let r = Storage {
            location: NodeCoordinates::origin(),
            nodes: Vec::new(),
            rng: rand::Isaac64Rng::new_unseeded(),
        };
        assert(r@.records =~= Map::<SocketAddress, NodeView>::empty());
        r
    }

    fn position_of(&self, addr: &SocketAddress) -> (r: Option<usize>)
        ensures
            match r {
                None => !has_key(self.entries(), *addr),
                Some(i) => i < self.entries().len() && key_of(self.entries()[i as int]) == *addr,
            },
    {
        let n = self.nodes.len();
        let mut i: usize = 0;
        while i < n
            invariant
                i <= n,
                n == self.nodes@.len(),
                forall|j: int| 0 <= j < i ==> key_of(#[trigger] self.entries()[j]) != *addr,
            decreases n - i,
        {
            if self.nodes[i].info.address() == *addr {
                return Some(i);
            }
            i += 1;
        }
        None
    }

    /// Insert the record of a peer, or replace the one at the same address;
    /// stamp it with `now_sec`, the current time in seconds since the epoch.
    pub fn add_node(&mut self, info: NodeInfo, now_sec: u64)
        requires
            old(self).wf(),
        ensures
            final(self).wf(),
            final(self)@.location == old(self)@.location,
            final(self)@.records == old(self)@.records.insert(
                info@.addr(),
                NodeView { info: info@, last_updated_sec: now_sec },
            ),
    {
        let addr = info.address();
        let record = Node { info, last_updated_sec: now_sec };
        let ghost x = record@;
        let ghost s = self.entries();
        match self.position_of(&addr) {
            Some(i) => {
                self.nodes.set(i, record);
                proof {
                    assert(self.entries() =~= s.update(i as int, x));
                    lemma_record_map_replace(s, i as int, x);
                }
            },
            None => {
                self.nodes.push(record);
                proof {
                    assert(self.entries() =~= s.push(x));
                    lemma_record_map_push(s, x);
                }
            },
        }
    }

    /// The record at `addr`, if there is one.
    pub fn find_node(&self, addr: &SocketAddress) -> (r: Option<Node>)
        requires
            self.wf(),
        ensures
            r is Some <==> self@.records.contains_key(*addr),
            r matches Some(n) ==> n@ == self@.records[*addr],
    {
        match self.position_of(addr) {
            None => None,
            Some(i) => {
                proof {
                    lemma_record_map_get(self.entries(), i as int);
                }
                Some(self.nodes[i].clone())
            },
        }
    }

    /// A copy of every record.
    pub fn get_all_nodes(&self) -> (r: Vec<NodeInfo>)
        requires
            self.wf(),
        ensures
            is_all_records(views(r@), self@),
    {
        let n = self.nodes.len();
        let mut out: Vec<NodeInfo> = Vec::new();
        let mut i: usize = 0;
        while i < n
            invariant
                i <= n,
                n == self.nodes@.len(),
                out@.len() == i,
                forall|j: int| 0 <= j < i ==> #[trigger] out@[j]@ == self.entries()[j].info,
            decreases n - i,
        {
            out.push(self.nodes[i].info.clone());
            i += 1;
        }
        proof {
            let s = self.entries();
            let g = views(out@);
            assert forall|a: int| #![trigger g[a]] 0 <= a < g.len() implies g[a] == s[a].info by {
                assert(g[a] == out@[a]@);
            }
            lemma_record_map_dom(s);
            assert forall|j: int| #![trigger g[j]] 0 <= j < g.len() implies self@.records.contains_key(
                g[j].addr(),
            ) && self@.records[g[j].addr()].info == g[j] by {
                lemma_record_map_get(s, j);
            }
            assert forall|a: int, b: int| 0 <= a < g.len() && 0 <= b < g.len() && a != b implies g[a].addr()
                != g[b].addr() by {
                assert(g[a] == s[a].info && g[b] == s[b].info);
            }
            assert forall|k: SocketAddress| #[trigger]
                self@.records.contains_key(k) implies exists|j: int| 0 <= j < g.len() && g[j].addr() == k by {
                let j = choose|j: int| 0 <= j < s.len() && key_of(s[j]) == k;
                assert(g[j] == s[j].info);
            }
        }
        out
    }

    /// The local coordinates.
    pub fn get_location(&self) -> (r: NodeCoordinates)
        ensures
            r == self@.location,
    {
        self.location
    }

    /// Replace the local coordinates.
    pub fn set_location(&mut self, location: NodeCoordinates)
        requires
            old(self).wf(),
        ensures
            final(self).wf(),
            final(self)@ == (StorageView { location, ..old(self)@ }),
    {
        self.location = location;
    }

    /// Take the position that the coordinate engine fitted from one RTT
    /// sample: the four real-valued fields of `fitted` are stored, and the
    /// iteration counter advances by one from the stored one (it stays at
    /// its maximum once there); `fitted.iteration` is not read.
    pub fn update_location(&mut self, fitted: NodeCoordinates)
        requires
            old(self).wf(),
        ensures
            final(self).wf(),
            final(self)@.records == old(self)@.records,
            final(self)@.location == (NodeCoordinates {
                iteration: if old(self)@.location.iteration < u64::MAX {
                    (old(self)@.location.iteration + 1) as u64
                } else {
                    u64::MAX
                },
                ..fitted
            }),
    {
        let iteration = self.location.iteration.saturating_add(1);
        self.location = NodeCoordinates { iteration, ..fitted };
    }
}

/// The addresses that a sample may draw from: those of the records, less
/// the ignored ones.
pub open spec fn candidates(v: StorageView, ignore: Seq<SocketAddress>) -> Set<SocketAddress> {
    v.records.dom().filter(|k: SocketAddress| !ignore.contains(k))
}

pub open spec fn min_len(a: int, b: int) -> int {
    if a < b {
        a
    } else {
        b
    }
}

/// No two records of `g` share an address.
pub open spec fn distinct_addrs(g: Seq<NodeInfoView>) -> bool {
    forall|i: int, j: int|
        0 <= i < g.len() && 0 <= j < g.len() && i != j ==> g[i].addr() != g[j].addr()
}

/// Every record of `g` is the one that `v` keeps at its address.
pub open spec fn all_from(g: Seq<NodeInfoView>, v: StorageView) -> bool {
    forall|i: int| #![trigger g[i]]
        0 <= i < g.len() ==> v.records.contains_key(g[i].addr()) && v.records[g[i].addr()].info == g[i]
}

/// `g` is a sample of `v` that leaves out `exclude`: distinct records of `v`,
/// none at an excluded address, as many as `max` and the eligible records allow.
pub open spec fn is_sample(g: Seq<NodeInfoView>, v: StorageView, exclude: Seq<SocketAddress>, max: int) -> bool {
    &&& g.len() == min_len(max, candidates(v, exclude).len() as int)
    &&& distinct_addrs(g)
    &&& all_from(g, v)
    &&& forall|i: int| #![trigger g[i]] 0 <= i < g.len() ==> !exclude.contains(g[i].addr())
}

/// `g` lists every record of `v` once.
pub open spec fn is_all_records(g: Seq<NodeInfoView>, v: StorageView) -> bool {
    &&& g.len() == v.records.len()
    &&& distinct_addrs(g)
    &&& all_from(g, v)
    &&& forall|k: SocketAddress| #[trigger]
        v.records.contains_key(k) ==> exists|i: int| 0 <= i < g.len() && g[i].addr() == k
}

/// `g` holds the `max` most recently updated records of `v` (all of them if
/// there are fewer), the most recent first.
pub open spec fn is_most_recent(g: Seq<NodeInfoView>, v: StorageView, max: int) -> bool {
    &&& g.len() == min_len(max, v.records.len() as int)
    &&& distinct_addrs(g)
    &&& all_from(g, v)
    &&& forall|i: int, j: int|
        0 <= i < j < g.len() ==> v.records[g[i].addr()].last_updated_sec >= v.records[g[j].addr()].last_updated_sec
    &&& forall|k: SocketAddress, i: int|
        #![trigger v.records[k], g[i]]
        v.records.contains_key(k) && 0 <= i < g.len() && (forall|j: int| 0 <= j < g.len() ==> g[j].addr() != k)
            ==> v.records[k].last_updated_sec <= v.records[g[i].addr()].last_updated_sec
}

fn ignored(ignore: &[SocketAddress], addr: &SocketAddress) -> (r: bool)
    ensures
        r == ignore@.contains(*addr),
{
    let n = ignore.len();
    let mut i: usize = 0;
    while i < n
        invariant
            i <= n,
            n == ignore@.len(),
            forall|j: int| 0 <= j < i ==> ignore@[j] != *addr,
        decreases n - i,
    {
        if ignore[i] == *addr {
            return true;
        }
        i += 1;
    }
    false
}

impl Storage {
    /// Indices of the records whose address is not ignored, in increasing order.
    fn candidate_positions(&self, ignore: &[SocketAddress]) -> (r: Vec<usize>)
        requires
            self.wf(),
        ensures
            forall|a: int| 0 <= a < r@.len() ==> #[trigger] r@[a] < self.entries().len(),
            forall|a: int, b: int| 0 <= a < b < r@.len() ==> r@[a] < r@[b],
            forall|x: int|
                0 <= x < self.entries().len() ==> (!ignore@.contains(key_of(self.entries()[x]))
                    <==> r@.contains(x as usize)),
            r@.map_values(|x: usize| key_of(self.entries()[x as int])).to_set() == candidates(
                self@,
                ignore@,
            ),
            r@.len() == candidates(self@, ignore@).len(),
    {
        let n = self.nodes.len();
        let mut cand: Vec<usize> = Vec::new();
        let mut i: usize = 0;
        while i < n
            invariant
                i <= n,
                n == self.nodes@.len(),
                self.wf(),
                forall|a: int| 0 <= a < cand@.len() ==> #[trigger] cand@[a] < i,
                forall|a: int, b: int| 0 <= a < b < cand@.len() ==> cand@[a] < cand@[b],
                forall|x: int|
                    0 <= x < i ==> (!ignore@.contains(key_of(self.entries()[x])) <==> cand@.contains(
                        x as usize,
                    )),
            decreases n - i,
        {
            let ghost before = cand@;
            if !ignored(ignore, &self.nodes[i].info.address()) {
                cand.push(i);
                assert(cand@[cand@.len() - 1] == i);
            }
            assert forall|x: int|
                0 <= x < i + 1 implies (!ignore@.contains(key_of(self.entries()[x]))
                <==> cand@.contains(x as usize)) by {
                if x < i {
                    if before.contains(x as usize) {
                        let a = choose|a: int| 0 <= a < before.len() && before[a] == x as usize;
                        assert(cand@[a] == x as usize);
                    }
                    if cand@.contains(x as usize) {
                        let a = choose|a: int| 0 <= a < cand@.len() && cand@[a] == x as usize;
                        if a < before.len() {
                            assert(before[a] == x as usize);
                        }
                    }
                } else {
                    if cand@.contains(x as usize) {
                        let a = choose|a: int| 0 <= a < cand@.len() && cand@[a] == x as usize;
                        if a < before.len() {
                            assert(before[a] < i);
                        }
                    }
                }
            }
            i += 1;
        }
        proof {
            let s = self.entries();
            let ks = cand@.map_values(|x: usize| key_of(s[x as int]));
            lemma_record_map_dom(s);
            assert forall|k: SocketAddress| ks.to_set().contains(k) <==> candidates(
                self@,
                ignore@,
            ).contains(k) by {
                if ks.to_set().contains(k) {
                    let a = choose|a: int| 0 <= a < ks.len() && ks[a] == k;
                    lemma_record_map_get(s, cand@[a] as int);
                }
                if candidates(self@, ignore@).contains(k) {
                    let x = choose|x: int| 0 <= x < s.len() && key_of(s[x]) == k;
                    let a = choose|a: int| 0 <= a < cand@.len() && cand@[a] == x as usize;
                    assert(ks[a] == k);
                }
            }
            assert(ks.to_set() =~= candidates(self@, ignore@));
            assert(ks.no_duplicates()) by {
                assert forall|a: int, b: int| 0 <= a < ks.len() && 0 <= b < ks.len() && a != b implies ks[a]
                    != ks[b] by {
                    assert(cand@[a] != cand@[b]);
                }
            }
            ks.unique_seq_to_set();
        }
        cand
    }

    /// Up to `max_nodes` distinct records drawn at random from those whose
    /// address is not in `ignore`; nothing when there is no such record or
    /// `max_nodes` is 0.
    pub fn get_random_nodes(&mut self, max_nodes: usize, ignore: &[SocketAddress]) -> (r: Option<
        Vec<NodeInfo>,
    >)
        requires
            old(self).wf(),
        ensures
            final(self).wf(),
            final(self)@ == old(self)@,
            r is None <==> (max_nodes == 0 || candidates(old(self)@, ignore@).len() == 0),
            r matches Some(v) ==> is_sample(views(v@), old(self)@, ignore@, max_nodes as int),
    {
        let cand = self.candidate_positions(ignore);
        let m = cand.len();
        let k = if max_nodes < m {
            max_nodes
        } else {
            m
        };
        if k == 0 {
            return None;
        }
        let picks = sample_indices(&mut self.rng, m, k);
        let ghost s = self.entries();
        let mut out: Vec<NodeInfo> = Vec::new();
        let mut j: usize = 0;
        while j < k
            invariant
                j <= k,
                k == picks@.len(),
                m == cand@.len(),
                s == self.entries(),
                forall|i: int| 0 <= i < picks@.len() ==> #[trigger] picks@[i] < m,
                forall|a: int| 0 <= a < cand@.len() ==> #[trigger] cand@[a] < s.len(),
                out@.len() == j,
                forall|a: int| 0 <= a < j ==> #[trigger] out@[a]@ == s[cand@[picks@[a] as int] as int].info,
            decreases k - j,
        {
            out.push(self.nodes[cand[picks[j]]].info.clone());
            j += 1;
        }
        proof {
            assert forall|a: int| #![trigger views(out@)[a]] 0 <= a < out@.len() implies views(out@)[a] == out@[a]@ by {}
            let ks = cand@.map_values(|x: usize| key_of(s[x as int]));
            assert forall|a: int, b: int|
                0 <= a < out@.len() && 0 <= b < out@.len() && a != b implies out@[a]@.addr()
                != out@[b]@.addr() by {
                assert(picks@[a] != picks@[b]);
                let ca = picks@[a] as int;
                let cb = picks@[b] as int;
                if ca < cb {
                    assert(cand@[ca] < cand@[cb]);
                } else {
                    assert(cand@[cb] < cand@[ca]);
                }
            }
            assert forall|i: int| #![trigger out@[i]]
                0 <= i < out@.len() implies candidates(self@, ignore@).contains(out@[i]@.addr())
                && self@.records[out@[i]@.addr()].info == out@[i]@ by {
                let c = picks@[i] as int;
                assert(ks[c] == out@[i]@.addr());
                assert(ks.to_set().contains(ks[c]));
                lemma_record_map_get(s, cand@[c] as int);
            }
            let g = views(out@);
            assert(distinct_addrs(g));
            assert forall|i: int| #![trigger g[i]] 0 <= i < g.len() implies !ignore@.contains(g[i].addr()) by {
                assert(g[i] == out@[i]@);
                assert(candidates(self@, ignore@).contains(out@[i]@.addr()));
            }
            assert(all_from(g, self@)) by {
                assert forall|i: int| #![trigger g[i]] 0 <= i < g.len() implies self@.records.contains_key(g[i].addr()) && self@.records[g[i].addr()].info == g[i] by {
                    assert(g[i] == out@[i]@);
                    assert(candidates(self@, ignore@).contains(out@[i]@.addr()));
                }
            }
        }
        Some(out)
    }

    /// Remove from `pool` an index of a record updated no earlier than any
    /// other that `pool` holds, and return it.
    fn take_latest(&self, pool: &mut Vec<usize>) -> (idx: usize)
        requires
            old(pool)@.len() > 0,
            old(pool)@.no_duplicates(),
            forall|q: int| 0 <= q < old(pool)@.len() ==> #[trigger] old(pool)@[q] < self.nodes@.len(),
        ensures
            old(pool)@.contains(idx),
            final(pool)@.len() == old(pool)@.len() - 1,
            final(pool)@.no_duplicates(),
            forall|x: usize| #[trigger] final(pool)@.contains(x) <==> (old(pool)@.contains(x) && x != idx),
            forall|q: int| 0 <= q < final(pool)@.len() ==> #[trigger] final(pool)@[q] < self.nodes@.len(),
            forall|q: int|
                0 <= q < final(pool)@.len() ==> self.entries()[#[trigger] final(pool)@[q] as int].last_updated_sec
                    <= self.entries()[idx as int].last_updated_sec,
    {
        let ghost s = self.entries();
        let n = self.nodes.len();
        let mut best: usize = 0;
        let mut p: usize = 1;
        while p < pool.len()
            invariant
                1 <= p <= pool@.len(),
                best < pool@.len(),
                n == s.len(),
                s == self.entries(),
                forall|q: int| 0 <= q < pool@.len() ==> #[trigger] pool@[q] < n,
                forall|q: int|
                    0 <= q < p ==> s[#[trigger] pool@[q] as int].last_updated_sec
                        <= s[pool@[best as int] as int].last_updated_sec,
            decreases pool@.len() - p,
        {
            if self.nodes[pool[p]].last_updated_sec > self.nodes[pool[best]].last_updated_sec {
                best = p;
            }
            p += 1;
        }
        let ghost old_pool = pool@;
        let idx = pool.swap_remove(best);
        proof {
            assert(old_pool[best as int] == idx);
            assert forall|q: int| 0 <= q < pool@.len() implies #[trigger] pool@[q] != idx
                && old_pool.contains(pool@[q]) by {
                if q == best as int {
                    assert(pool@[q] == old_pool[old_pool.len() - 1]);
                } else {
                    assert(pool@[q] == old_pool[q]);
                }
            }
            assert forall|x: usize| old_pool.contains(x) && x != idx implies pool@.contains(x) by {
                let q = choose|q: int| 0 <= q < old_pool.len() && old_pool[q] == x;
                if q == old_pool.len() - 1 {
                    assert(pool@[best as int] == x);
                } else {
                    assert(pool@[q] == x);
                }
            }
            assert forall|x: usize| #[trigger] pool@.contains(x) implies old_pool.contains(x) && x != idx by {
                let q = choose|q: int| 0 <= q < pool@.len() && pool@[q] == x;
            }
            assert forall|q: int| 0 <= q < pool@.len() implies s[#[trigger] pool@[q] as int].last_updated_sec
                <= s[idx as int].last_updated_sec by {
                if q == best as int {
                    assert(pool@[q] == old_pool[old_pool.len() - 1]);
                } else {
                    assert(pool@[q] == old_pool[q]);
                }
            }
            assert(pool@.no_duplicates()) by {
                assert forall|a: int, b: int| 0 <= a < pool@.len() && 0 <= b < pool@.len() && a != b implies pool@[a]
                    != pool@[b] by {
                    let a0 = if a == best as int { old_pool.len() - 1 } else { a };
                    let b0 = if b == best as int { old_pool.len() - 1 } else { b };
                    assert(pool@[a] == old_pool[a0] && pool@[b] == old_pool[b0]);
                }
            }
        }
        idx
    }

    proof fn lemma_most_recent(&self, chosen: Seq<usize>, pool: Seq<usize>, g: Seq<NodeInfoView>, max: int)
        requires
            self.wf(),
            self.entries().len() <= usize::MAX,
            g.len() == chosen.len(),
            g.len() == min_len(max, self.entries().len() as int),
            chosen.no_duplicates(),
            forall|c: int| 0 <= c < chosen.len() ==> #[trigger] chosen[c] < self.entries().len(),
            forall|c: int| #![trigger g[c]] 0 <= c < g.len() ==> g[c] == self.entries()[chosen[c] as int].info,
            forall|x: usize| x < self.entries().len() ==> (pool.contains(x) <==> !chosen.contains(x)),
            forall|a: int, b: int|
                0 <= a < b < chosen.len() ==> self.entries()[chosen[a] as int].last_updated_sec
                    >= self.entries()[chosen[b] as int].last_updated_sec,
            forall|p: int, c: int|
                0 <= p < pool.len() && 0 <= c < chosen.len() ==> self.entries()[pool[p] as int].last_updated_sec
                    <= self.entries()[chosen[c] as int].last_updated_sec,
        ensures
            is_most_recent(g, self@, max),
    {
        let s = self.entries();
        lemma_record_map_dom(s);
        assert forall|c: int| #![trigger g[c]]
            0 <= c < g.len() implies self@.records.contains_key(g[c].addr())
            && self@.records[g[c].addr()].info == g[c] by {
            lemma_record_map_get(s, chosen[c] as int);
        }
        assert forall|a: int, b: int|
            0 <= a < g.len() && 0 <= b < g.len() && a != b implies g[a].addr() != g[b].addr() by {
            assert(chosen[a] != chosen[b]);
        }
        assert forall|a: int, b: int|
            0 <= a < b < g.len() implies self@.records[g[a].addr()].last_updated_sec
            >= self@.records[g[b].addr()].last_updated_sec by {
            lemma_record_map_get(s, chosen[a] as int);
            lemma_record_map_get(s, chosen[b] as int);
        }
        assert forall|key: SocketAddress, c: int|
            #![trigger self@.records[key], g[c]]
            self@.records.contains_key(key) && 0 <= c < g.len() && (forall|j: int|
                0 <= j < g.len() ==> g[j].addr() != key) implies self@.records[key].last_updated_sec
            <= self@.records[g[c].addr()].last_updated_sec by {
            let x = choose|x: int| 0 <= x < s.len() && key_of(s[x]) == key;
            lemma_record_map_get(s, x);
            lemma_record_map_get(s, chosen[c] as int);
            if chosen.contains(x as usize) {
                let j = choose|j: int| 0 <= j < chosen.len() && chosen[j] == x as usize;
                assert(g[j] == s[x].info);
                assert(g[j].addr() == key);
            }
            assert(pool.contains(x as usize));
            let p = choose|p: int| 0 <= p < pool.len() && pool[p] == x as usize;
            assert(s[pool[p] as int].last_updated_sec <= s[chosen[c] as int].last_updated_sec);
        }
    }

    /// Up to `max_nodes` records, the most recently updated first; nothing
    /// when the storage is empty or `max_nodes` is 0. Among records updated
    /// in the same second the order is unspecified.
    #[verifier::rlimit(80)]
    pub fn get_most_recent(&self, max_nodes: usize) -> (r: Option<Vec<NodeInfo>>)
        requires
            self.wf(),
        ensures
            r is None <==> (max_nodes == 0 || self@.records.len() == 0),
            r matches Some(v) ==> is_most_recent(views(v@), self@, max_nodes as int),
    {
        let ghost s = self.entries();
        proof {
            lemma_record_map_dom(s);
        }
        let n = self.nodes.len();
        if n == 0 || max_nodes < 1 {
            return None;
        }
        let k = if max_nodes < n {
            max_nodes
        } else {
            n
        };
        let mut pool: Vec<usize> = Vec::new();
        let mut i: usize = 0;
        while i < n
            invariant
                i <= n,
                pool@ == Seq::new(i as nat, |x: int| x as usize),
            decreases n - i,
        {
            pool.push(i);
            i += 1;
            assert(pool@ =~= Seq::new(i as nat, |x: int| x as usize));
        }
        let mut chosen: Vec<usize> = Vec::new();
        let mut out: Vec<NodeInfo> = Vec::new();
        proof {
            assert forall|x: usize| x < n implies pool@.contains(x) by {
                assert(pool@[x as int] == x);
            }
        }
        while chosen.len() < k
            invariant
                k <= n,
                chosen@.len() <= k,
                n == s.len(),
                s == self.entries(),
                pool@.len() + chosen@.len() == n,
                out@.len() == chosen@.len(),
                pool@.no_duplicates(),
                chosen@.no_duplicates(),
                forall|p: int| 0 <= p < pool@.len() ==> #[trigger] pool@[p] < n,
                forall|c: int| 0 <= c < chosen@.len() ==> #[trigger] chosen@[c] < n,
                forall|x: usize| x < n ==> (pool@.contains(x) <==> !chosen@.contains(x)),
                forall|c: int| #![trigger out@[c]]
                    0 <= c < chosen@.len() ==> out@[c]@ == s[chosen@[c] as int].info,
                forall|a: int, b: int|
                    0 <= a < b < chosen@.len() ==> s[chosen@[a] as int].last_updated_sec
                        >= s[chosen@[b] as int].last_updated_sec,
                forall|p: int, c: int|
                    0 <= p < pool@.len() && 0 <= c < chosen@.len() ==> s[pool@[p] as int].last_updated_sec
                        <= s[chosen@[c] as int].last_updated_sec,
            decreases k - chosen@.len(),
        {
            let ghost old_pool = pool@;
            let ghost old_chosen = chosen@;
            let idx = self.take_latest(&mut pool);
            chosen.push(idx);
            out.push(self.nodes[idx].info.clone());
            proof {
                assert(chosen@.no_duplicates()) by {
                    assert forall|a: int, b: int| 0 <= a < chosen@.len() && 0 <= b < chosen@.len() && a != b implies chosen@[a]
                        != chosen@[b] by {
                        if a == old_chosen.len() as int {
                            assert(old_pool.contains(idx));
                            assert(chosen@[b] == old_chosen[b]);
                            assert(old_chosen.contains(old_chosen[b]));
                        } else if b == old_chosen.len() as int {
                            assert(old_pool.contains(idx));
                            assert(chosen@[a] == old_chosen[a]);
                            assert(old_chosen.contains(old_chosen[a]));
                        }
                    }
                }
                assert forall|x: usize| x < n implies (pool@.contains(x) <==> !chosen@.contains(x)) by {
                    if chosen@.contains(x) {
                        let c = choose|c: int| 0 <= c < chosen@.len() && chosen@[c] == x;
                        if c < old_chosen.len() {
                            assert(old_chosen.contains(x));
                        }
                    }
                    if old_chosen.contains(x) {
                        let c = choose|c: int| 0 <= c < old_chosen.len() && old_chosen[c] == x;
                        assert(chosen@[c] == x);
                    }
                    if pool@.contains(x) {
                        let q = choose|q: int| 0 <= q < pool@.len() && pool@[q] == x;
                        assert(pool@[q] != idx);
                    }
                }
                assert forall|p: int, c: int|
                    0 <= p < pool@.len() && 0 <= c < chosen@.len() implies s[pool@[p] as int].last_updated_sec
                    <= s[chosen@[c] as int].last_updated_sec by {
                    assert(pool@.contains(pool@[p]));
                    assert(old_pool.contains(pool@[p]));
                    let q = choose|q: int| 0 <= q < old_pool.len() && old_pool[q] == pool@[p];
                    if c < old_chosen.len() {
                        assert(chosen@[c] == old_chosen[c]);
                    }
                }
                assert forall|a: int, b: int|
                    0 <= a < b < chosen@.len() implies s[chosen@[a] as int].last_updated_sec
                    >= s[chosen@[b] as int].last_updated_sec by {
                    assert(chosen@[a] == old_chosen[a]);
                    if b < old_chosen.len() {
                        assert(chosen@[b] == old_chosen[b]);
                    } else {
                        let q = choose|q: int| 0 <= q < old_pool.len() && old_pool[q] == idx;
                        assert(chosen@[b] == old_pool[q]);
                    }
                }
            }
        }
        proof {
            let g = views(out@);
            assert forall|c: int| #![trigger g[c]] 0 <= c < g.len() implies g[c] == s[chosen@[c] as int].info by {
                assert(g[c] == out@[c]@);
            }
            self.lemma_most_recent(chosen@, pool@, g, max_nodes as int);
        }
        Some(out)
    }
}

/// Storage set semantics: writing two records at one address leaves one
/// record there, the second one with its own timestamp.
pub proof fn reinsertion_keeps_last(
    m: Map<SocketAddress, NodeView>,
    first: NodeInfoView,
    t1: u64,
    second: NodeInfoView,
    t2: u64,
)
    requires
        first.addr() == second.addr(),
    ensures
        m.insert(first.addr(), NodeView { info: first, last_updated_sec: t1 }).insert(
            second.addr(),
            NodeView { info: second, last_updated_sec: t2 },
        ) == m.insert(second.addr(), NodeView { info: second, last_updated_sec: t2 }),
{
    assert(m.insert(first.addr(), NodeView { info: first, last_updated_sec: t1 }).insert(
        second.addr(),
        NodeView { info: second, last_updated_sec: t2 },
    ) =~= m.insert(second.addr(), NodeView { info: second, last_updated_sec: t2 }));
}

/// Sampling exclusion: when every address that a storage holds is excluded,
/// nothing is left to sample, so a draw yields nothing.
pub proof fn excluding_every_address_leaves_nothing(v: StorageView, exclude: Seq<SocketAddress>)
    requires
        forall|k: SocketAddress| #[trigger] v.records.contains_key(k) ==> exclude.contains(k),
    ensures
        candidates(v, exclude) == Set::<SocketAddress>::empty(),
        candidates(v, exclude).len() == 0,
{
    assert(candidates(v, exclude) =~= Set::<SocketAddress>::empty());
}

} // verus!
