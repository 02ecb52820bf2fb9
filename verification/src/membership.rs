//! Per-node gossip state: a bounded neighbor set, idempotent self-excluding
//! ingestion of gossiped peers, and deterministic rebalancing to the peers
//! nearest the node's own id on the logical ring.
use crate::peer::{duplicate_peers, Heartbeat, Peer};
use vstd::multiset::Multiset;
use vstd::prelude::*;

verus! {

/// The neighbor-set capacity.
pub const MAX_PEERS_LEN: usize = 32;

/// Nondecreasing by peer id.
pub open spec fn sorted_by_id(s: Seq<Peer>) -> bool {
    forall|i: int, j: int| 0 <= i < j < s.len() ==> s[i].id <= s[j].id
}

/// Whether some peer in `s` carries `id`.
pub open spec fn contains_id(s: Seq<Peer>, id: u64) -> bool {
    exists|i: int| 0 <= i < s.len() && s[i].id == id
}

/// No two peers in `s` share an id.
pub open spec fn unique_ids(s: Seq<Peer>) -> bool {
    forall|i: int, j: int| 0 <= i < j < s.len() ==> s[i].id != s[j].id
}

/// One ingestion step: `p` is added unless it is the node itself or its id
/// is already present.
pub open spec fn add_one_spec(s: Seq<Peer>, p: Peer, self_id: u64) -> Seq<Peer> {
    if p.id == self_id || contains_id(s, p.id) {
        s
    } else {
        s.push(p)
    }
}

/// Ingestion of a whole peer list, in order.
pub open spec fn add_all_spec(s: Seq<Peer>, l: Seq<Peer>, self_id: u64) -> Seq<Peer>
    decreases l.len(),
{
    if l.len() == 0 {
        s
    } else {
        add_one_spec(add_all_spec(s, l.drop_last(), self_id), l.last(), self_id)
    }
}

/// One step of the predecessor cursor on the ring: down, wrapping to the
/// top.
pub open spec fn step_down_spec(i: int, len: int) -> int {
    if i == 0 {
        len - 1
    } else {
        i - 1
    }
}

/// One step of the successor cursor on the ring: up, wrapping to the bottom.
pub open spec fn step_up_spec(j: int, len: int) -> int {
    if j == len - 1 {
        0
    } else {
        j + 1
    }
}

/// The predecessor cursor after `t` steps from `i`, for `t < len`.
pub open spec fn sub_wrap_spec(i: int, t: int, len: int) -> int {
    if t <= i {
        i - t
    } else {
        i + len - t
    }
}

/// The successor cursor after `t` steps from `j`, for `t < len`.
pub open spec fn add_wrap_spec(j: int, t: int, len: int) -> int {
    if j + t < len {
        j + t
    } else {
        j + t - len
    }
}

/// The position in the sorted ring that element `k` of the walk comes from:
/// even elements from the predecessor side, odd ones from the successor side.
pub open spec fn walk_pos_spec(len: int, i0: int, j0: int, k: int) -> int {
    if k % 2 == 0 {
        sub_wrap_spec(i0, k / 2, len)
    } else {
        add_wrap_spec(j0, k / 2, len)
    }
}

/// The alternating ring walk: starting at cursors `i` (predecessor side) and
/// `j` (successor side), collect one peer from each side per step, wrapping
/// at the ends, until `count` peers are collected.
pub open spec fn ring_walk_spec(sorted: Seq<Peer>, i: int, j: int, count: int) -> Seq<Peer>
    decreases count,
{
    if count < 2 {
        Seq::<Peer>::empty()
    } else {
        seq![sorted[i], sorted[j]] + ring_walk_spec(
            sorted,
            step_down_spec(i, sorted.len() as int),
            step_up_spec(j, sorted.len() as int),
            count - 2,
        )
    }
}

/// The index of the first peer whose id strictly exceeds `self_id`, scanning
/// from `k`; 0 when none does.
pub open spec fn succ_index_from_spec(sorted: Seq<Peer>, self_id: u64, k: int) -> int
    decreases sorted.len() - k,
{
    if k < 0 || k >= sorted.len() {
        0
    } else if sorted[k].id > self_id {
        k
    } else {
        succ_index_from_spec(sorted, self_id, k + 1)
    }
}

/// The ring-successor position of `self_id` in the sorted sequence.
pub open spec fn succ_index_spec(sorted: Seq<Peer>, self_id: u64) -> int {
    succ_index_from_spec(sorted, self_id, 0)
}

/// What an at-capacity rebalance keeps, given the id-sorted peer sequence:
/// the walk outward from the ring-successor position, one peer per side per
/// step, `MAX_PEERS_LEN` peers in all.
pub open spec fn walk_of_sorted_spec(sorted: Seq<Peer>, self_id: u64) -> Seq<Peer> {
    let si = succ_index_spec(sorted, self_id);
    let i0 = if si == 0 {
        0int
    } else {
        si - 1
    };
    let j0 = if si == 0 {
        1int
    } else {
        si
    };
    ring_walk_spec(sorted, i0, j0, MAX_PEERS_LEN as int)
}

/// The walk's length and element positions: element `k` comes from ring
/// position `walk_pos_spec(len, i0, j0, k)`.
proof fn lemma_ring_walk_props(sorted: Seq<Peer>, i0: int, j0: int, count: int)
    requires
        0 <= i0 < sorted.len(),
        0 <= j0 < sorted.len(),
        count % 2 == 0,
        0 <= count <= 2 * sorted.len(),
    ensures
        ring_walk_spec(sorted, i0, j0, count).len() == count,
        forall|k: int|
            0 <= k < count ==> {
                &&& 0 <= walk_pos_spec(sorted.len() as int, i0, j0, k) < sorted.len()
                &&& #[trigger] ring_walk_spec(sorted, i0, j0, count)[k] == sorted[walk_pos_spec(
                    sorted.len() as int,
                    i0,
                    j0,
                    k,
                )]
            },
    decreases count,
{
    let len = sorted.len() as int;
    if count > 0 {
        let i1 = step_down_spec(i0, len);
        let j1 = step_up_spec(j0, len);
        lemma_ring_walk_props(sorted, i1, j1, count - 2);
        let walk = ring_walk_spec(sorted, i0, j0, count);
        let rest = ring_walk_spec(sorted, i1, j1, count - 2);
        assert forall|k: int| 0 <= k < count implies {
            &&& 0 <= walk_pos_spec(len, i0, j0, k) < len
            &&& #[trigger] walk[k] == sorted[walk_pos_spec(len, i0, j0, k)]
        } by {
            if k >= 2 {
                assert(walk[k] == rest[k - 2]);
                assert(rest[k - 2] == sorted[walk_pos_spec(len, i1, j1, k - 2)]);
                assert(walk_pos_spec(len, i1, j1, k - 2) == walk_pos_spec(len, i0, j0, k));
            } else if k == 0 {
                assert(walk[0] == sorted[i0]);
                assert(walk_pos_spec(len, i0, j0, 0) == i0);
            } else {
                assert(walk[1] == sorted[j0]);
                assert(walk_pos_spec(len, i0, j0, 1) == j0);
            }
        }
    }
}

/// No two walk elements come from the same ring position, as long as the
/// walk is no longer than the ring and the cursors start adjacently.
proof fn lemma_walk_pos_injective(len: int, i0: int, j0: int, count: int, k1: int, k2: int)
    requires
        0 <= i0 < len,
        j0 == add_wrap_spec(i0, 1, len),
        2 <= count <= len,
        0 <= k1 < k2 < count,
    ensures
        walk_pos_spec(len, i0, j0, k1) != walk_pos_spec(len, i0, j0, k2),
{
    let t1 = k1 / 2;
    let t2 = k2 / 2;
    assert(0 <= t1 <= (count - 1) / 2);
    assert(0 <= t2 <= (count - 1) / 2);
    assert(t1 + t2 <= count - 2);
}

/// With distinct input ids, the walk holds `MAX_PEERS_LEN` peers with
/// distinct ids.
proof fn lemma_ring_walk_unique(sorted: Seq<Peer>, i0: int, j0: int)
    requires
        unique_ids(sorted),
        sorted.len() >= MAX_PEERS_LEN,
        0 <= i0 < sorted.len(),
        j0 == add_wrap_spec(i0, 1, sorted.len() as int),
    ensures
        ring_walk_spec(sorted, i0, j0, MAX_PEERS_LEN as int).len() == MAX_PEERS_LEN,
        unique_ids(ring_walk_spec(sorted, i0, j0, MAX_PEERS_LEN as int)),
{
    let len = sorted.len() as int;
    let count = MAX_PEERS_LEN as int;
    lemma_ring_walk_props(sorted, i0, j0, count);
    let walk = ring_walk_spec(sorted, i0, j0, count);
    assert forall|a: int, b: int| 0 <= a < b < walk.len() implies walk[a].id != walk[b].id by {
        lemma_walk_pos_injective(len, i0, j0, count, a, b);
        let pa = walk_pos_spec(len, i0, j0, a);
        let pb = walk_pos_spec(len, i0, j0, b);
        if pa < pb {
            assert(sorted[pa].id != sorted[pb].id);
        } else {
            assert(sorted[pb].id != sorted[pa].id);
        }
    }
}

/// Two positions holding one value put its count at two or more.
proof fn lemma_duplicate_count(s: Seq<Peer>, i: int, j: int)
    requires
        0 <= i < j < s.len(),
        s[i] == s[j],
    ensures
        s.to_multiset().count(s[i]) >= 2,
{
    broadcast use vstd::seq_lib::group_to_multiset_ensures;

    let v = s[i];
    let rest = s.remove(i);
    assert(rest.to_multiset() =~= s.to_multiset().remove(v));
    assert(rest[j - 1] == v);
    assert(rest.contains(v));
    assert(rest.to_multiset().count(v) > 0);
}

/// Id-uniqueness carries across any reordering: a sequence holding exactly
/// the peers of an id-unique sequence is id-unique.
proof fn lemma_unique_ids_multiset_transfer(a: Seq<Peer>, b: Seq<Peer>)
    requires
        a.to_multiset() == b.to_multiset(),
        unique_ids(a),
    ensures
        unique_ids(b),
{
    broadcast use vstd::seq_lib::group_to_multiset_ensures;

    assert forall|i: int, j: int| 0 <= i < j < b.len() implies b[i].id != b[j].id by {
        if b[i].id == b[j].id {
            if b[i] == b[j] {
                lemma_duplicate_count(b, i, j);
                let v = b[i];
                assert(a.to_multiset().count(v) >= 2);
                assert(a.contains(v));
                let p = choose|p: int| 0 <= p < a.len() && a[p] == v;
                let rest = a.remove(p);
                assert(rest.to_multiset() =~= a.to_multiset().remove(v));
                assert(rest.to_multiset().count(v) >= 1);
                assert(rest.contains(v));
                let q = choose|q: int| 0 <= q < rest.len() && rest[q] == v;
                if q < p {
                    assert(a[q] == v);
                    assert(a[q].id == a[p].id);
                } else {
                    assert(a[q + 1] == v);
                    assert(a[p].id == a[q + 1].id);
                }
            } else {
                assert(b.contains(b[i]));
                assert(b.to_multiset().count(b[i]) > 0);
                assert(a.contains(b[i]));
                assert(b.contains(b[j]));
                assert(b.to_multiset().count(b[j]) > 0);
                assert(a.contains(b[j]));
                let p = choose|p: int| 0 <= p < a.len() && a[p] == b[i];
                let q = choose|q: int| 0 <= q < a.len() && a[q] == b[j];
                assert(p != q);
                if p < q {
                    assert(a[p].id != a[q].id);
                } else {
                    assert(a[q].id != a[p].id);
                }
            }
        }
    }
}

/// Two id-sorted sequences of id-unique peers holding exactly the same peers
/// are equal.
pub proof fn lemma_sorted_unique_ids_equal(a: Seq<Peer>, b: Seq<Peer>)
    requires
        sorted_by_id(a),
        sorted_by_id(b),
        unique_ids(a),
        a.to_multiset() == b.to_multiset(),
    ensures
        a == b,
    decreases a.len(),
{
    broadcast use vstd::seq_lib::group_to_multiset_ensures;

    if a.len() == 0 {
        assert(a.to_multiset().len() == 0);
        assert(b.to_multiset().len() == 0);
        assert(a =~= b);
    } else {
        assert(a.to_multiset().len() == b.to_multiset().len());
        assert(a.to_multiset().len() == a.len());
        assert(b.to_multiset().len() == b.len());
        assert(b.len() > 0);
        assert(a.contains(a[0]));
        assert(a.to_multiset().count(a[0]) > 0);
        assert(b.to_multiset().count(a[0]) > 0);
        assert(b.contains(a[0]));
        let q = choose|q: int| 0 <= q < b.len() && b[q] == a[0];
        assert(b.contains(b[0]));
        assert(b.to_multiset().count(b[0]) > 0);
        assert(a.to_multiset().count(b[0]) > 0);
        assert(a.contains(b[0]));
        let p = choose|p: int| 0 <= p < a.len() && a[p] == b[0];
        assert(a[0].id <= a[p].id);
        assert(b[0].id <= b[q].id);
        assert(a[0].id == b[0].id);
        assert(p == 0) by {
            if p != 0 {
                assert(a[0].id != a[p].id);
            }
        }
        assert(b[0] == a[0]);
        let a1 = a.drop_first();
        let b1 = b.drop_first();
        assert(a.remove(0) =~= a1);
        assert(b.remove(0) =~= b1);
        assert(a1.to_multiset() =~= a.to_multiset().remove(a[0]));
        assert(b1.to_multiset() =~= b.to_multiset().remove(b[0]));
        assert(a1.to_multiset() == b1.to_multiset());
        assert forall|i: int, j: int| 0 <= i < j < a1.len() implies a1[i].id <= a1[j].id by {
            assert(a1[i] == a[i + 1]);
            assert(a1[j] == a[j + 1]);
        }
        assert forall|i: int, j: int| 0 <= i < j < b1.len() implies b1[i].id <= b1[j].id by {
            assert(b1[i] == b[i + 1]);
            assert(b1[j] == b[j + 1]);
        }
        assert forall|i: int, j: int| 0 <= i < j < a1.len() implies a1[i].id != a1[j].id by {
            assert(a1[i] == a[i + 1]);
            assert(a1[j] == a[j + 1]);
        }
        lemma_sorted_unique_ids_equal(a1, b1);
        assert forall|i: int| 0 <= i < a.len() implies a[i] == b[i] by {
            if i > 0 {
                assert(a1[i - 1] == a[i]);
                assert(b1[i - 1] == b[i]);
            }
        }
        assert(a =~= b);
    }
}

/// Law: ingestion is idempotent — adding the same peer twice changes nothing
/// beyond the first addition, so replayed gossip never grows the table.
pub proof fn lemma_add_one_idempotent(s: Seq<Peer>, p: Peer, self_id: u64)
    ensures
        add_one_spec(add_one_spec(s, p, self_id), p, self_id) == add_one_spec(s, p, self_id),
{
    let once = add_one_spec(s, p, self_id);
    if p.id != self_id && !contains_id(s, p.id) {
        assert(once == s.push(p));
        assert(once[s.len() as int] == p);
        assert(contains_id(once, p.id));
    }
}

/// Law: ingestion never adds the node itself.
pub proof fn lemma_add_one_self_excluding(s: Seq<Peer>, p: Peer, self_id: u64)
    requires
        !contains_id(s, self_id),
    ensures
        !contains_id(add_one_spec(s, p, self_id), self_id),
{
    let once = add_one_spec(s, p, self_id);
    if p.id != self_id && !contains_id(s, p.id) {
        assert forall|i: int| 0 <= i < once.len() implies once[i].id != self_id by {
            if i < s.len() {
                assert(once[i] == s[i]);
            }
        }
    }
}

/// Sorts peers ascending by id; the result holds exactly the same peers.
pub fn sort_peers_by_id(v: Vec<Peer>) -> (r: Vec<Peer>)
    ensures
        sorted_by_id(r@),
        r@.to_multiset() == v@.to_multiset(),
        r@.len() == v@.len(),
{
    broadcast use vstd::seq_lib::group_to_multiset_ensures;

    let ghost orig = v@;
    let mut input = v;
    let mut out: Vec<Peer> = Vec::new();
    while input.len() > 0
        invariant
            out@.to_multiset().add(input@.to_multiset()) == orig.to_multiset(),
            sorted_by_id(out@),
            forall|a: int, b: int|
                0 <= a < out@.len() && 0 <= b < input@.len() ==> out@[a].id <= input@[b].id,
            out@.len() + input@.len() == orig.len(),
        decreases input@.len(),
    {
        broadcast use vstd::seq_lib::group_to_multiset_ensures;

        let mut min_idx: usize = 0;
        let mut k: usize = 1;
        while k < input.len()
            invariant
                0 < input@.len(),
                0 <= min_idx < input@.len(),
                1 <= k <= input@.len(),
                forall|m: int| 0 <= m < k ==> input@[min_idx as int].id <= input@[m].id,
            decreases input@.len() - k,
        {
            if input[k].id < input[min_idx].id {
                min_idx = k;
            }
            k = k + 1;
        }
        let ghost pre_input = input@;
        let ghost pre_out = out@;
        let p = input.remove(min_idx);
        out.push(p);
        proof {
            assert(pre_input.to_multiset().count(p) > 0) by {
                assert(pre_input[min_idx as int] == p);
                assert(pre_input.contains(p));
            }
            assert(out@.to_multiset().add(input@.to_multiset()) =~= orig.to_multiset()) by {
                assert(input@.to_multiset() =~= pre_input.to_multiset().remove(p));
                assert(out@.to_multiset() =~= pre_out.to_multiset().insert(p));
            }
            assert forall|b: int| 0 <= b < input@.len() implies p.id <= input@[b].id by {
                assert(input@ == pre_input.remove(min_idx as int));
                if b < min_idx {
                    assert(input@[b] == pre_input[b]);
                } else {
                    assert(input@[b] == pre_input[b + 1]);
                }
            }
            assert forall|a: int, b: int|
                0 <= a < out@.len() && 0 <= b < input@.len() implies out@[a].id
                <= input@[b].id by {
                if a < pre_out.len() {
                    assert(out@[a] == pre_out[a]);
                    if b < min_idx {
                        assert(input@[b] == pre_input[b]);
                    } else {
                        assert(input@[b] == pre_input[b + 1]);
                    }
                } else {
                    assert(out@[a] == p);
                }
            }
        }
    }
    proof {
        broadcast use vstd::seq_lib::group_to_multiset_ensures;

        assert(input@.to_multiset() =~= Multiset::<Peer>::empty());
        assert(out@.to_multiset() =~= orig.to_multiset());
        assert(out@.to_multiset().len() == orig.to_multiset().len());
    }
    out
}

/// A node's membership table: its own id and its bounded neighbor set.
pub struct MembershipTable {
    self_id: u64,
    peers: Vec<Peer>,
}

impl MembershipTable {
    /// The neighbor set, in stored order.
    pub closed spec fn peers_seq(self) -> Seq<Peer> {
        self.peers@
    }

    /// The node's own id.
    pub closed spec fn id_spec(self) -> u64 {
        self.self_id
    }

    /// Table well-formedness: the node itself is never a neighbor, and no id
    /// appears twice.
    pub open spec fn wf(self) -> bool {
        &&& !contains_id(self.peers_seq(), self.id_spec())
        &&& unique_ids(self.peers_seq())
    }

    /// A fresh table with no neighbors.
    pub fn new(self_id: u64) -> (r: MembershipTable)
        ensures
            r.wf(),
            r.id_spec() == self_id,
            r.peers_seq().len() == 0,
    {
        MembershipTable { self_id, peers: Vec::new() }
    }

    /// The node's own id.
    pub fn id(&self) -> (r: u64)
        ensures
            r == self.id_spec(),
    {
        self.self_id
    }

    /// The current neighbor set.
    pub fn get_peers(&self) -> (r: Vec<Peer>)
        ensures
            r@ == self.peers_seq(),
    {
        duplicate_peers(&self.peers)
    }

    /// Adds one peer unless it is the node itself or its id is already
    /// present: the idempotent, self-excluding union step.
    pub fn add_peer(&mut self, peer: Peer)
        ensures
            final(self).id_spec() == old(self).id_spec(),
            final(self).peers_seq() == add_one_spec(
                old(self).peers_seq(),
                peer,
                old(self).id_spec(),
            ),
            old(self).wf() ==> final(self).wf(),
    {
        if peer.id == self.self_id {
            return ;
        }
        let n = self.peers.len();
        let mut k: usize = 0;
        while k < n
            invariant
                0 <= k <= n,
                n == self.peers@.len(),
                forall|m: int| 0 <= m < k ==> self.peers@[m].id != peer.id,
            decreases n - k,
        {
            if self.peers[k].id == peer.id {
                proof {
                    assert(contains_id(self.peers@, peer.id));
                }
                return ;
            }
            k = k + 1;
        }
        proof {
            assert(!contains_id(self.peers@, peer.id));
        }
        self.peers.push(peer);
    }

    /// Ingests a whole peer list, in order, by the same union step.
    pub fn add_peers(&mut self, new_peers: &Vec<Peer>)
        ensures
            final(self).id_spec() == old(self).id_spec(),
            final(self).peers_seq() == add_all_spec(
                old(self).peers_seq(),
                new_peers@,
                old(self).id_spec(),
            ),
            old(self).wf() ==> final(self).wf(),
    {
        let n = new_peers.len();
        let mut k: usize = 0;
        while k < n
            invariant
                0 <= k <= n,
                n == new_peers@.len(),
                self.id_spec() == old(self).id_spec(),
                self.peers_seq() == add_all_spec(
                    old(self).peers_seq(),
                    new_peers@.take(k as int),
                    old(self).id_spec(),
                ),
                old(self).wf() ==> self.wf(),
            decreases n - k,
        {
            let p = new_peers[k].duplicate();
            self.add_peer(p);
            proof {
                assert(new_peers@.take(k + 1).drop_last() =~= new_peers@.take(k as int));
                assert(new_peers@.take(k + 1).last() == new_peers@[k as int]);
            }
            k = k + 1;
        }
        proof {
            assert(new_peers@.take(n as int) =~= new_peers@);
        }
    }

    /// Ingests a heartbeat: the sender's known peers, then the sender
    /// itself.
    pub fn on_heartbeat(&mut self, hb: &Heartbeat)
        ensures
            final(self).id_spec() == old(self).id_spec(),
            final(self).peers_seq() == add_one_spec(
                add_all_spec(old(self).peers_seq(), hb.known_peers@, old(self).id_spec()),
                hb.sender,
                old(self).id_spec(),
            ),
            old(self).wf() ==> final(self).wf(),
    {
        self.add_peers(&hb.known_peers);
        let sender = hb.sender.duplicate();
        self.add_peer(sender);
    }

    /// Reacts to one bus event: a heartbeat or a fresh peer list is ingested
    /// by the union step; every other event leaves the table unchanged.
    pub fn on_event(&mut self, event: &crate::events::RustchainEvent)
        ensures
            final(self).id_spec() == old(self).id_spec(),
            old(self).wf() ==> final(self).wf(),
            event matches crate::events::RustchainEvent::NewHeartbeat(hb) ==> final(
                self).peers_seq() == add_one_spec(
                add_all_spec(old(self).peers_seq(), hb.known_peers@, old(self).id_spec()),
                hb.sender,
                old(self).id_spec(),
            ),
            event matches crate::events::RustchainEvent::NewPeers(list) ==> final(
                self).peers_seq() == add_all_spec(
                old(self).peers_seq(),
                list@,
                old(self).id_spec(),
            ),
            !(event matches crate::events::RustchainEvent::NewHeartbeat(_)) && !(
            event matches crate::events::RustchainEvent::NewPeers(_)) ==> *final(self) == *old(
                self),
    {
        match event {
            crate::events::RustchainEvent::NewHeartbeat(hb) => {
                self.on_heartbeat(hb);
            },
            crate::events::RustchainEvent::NewPeers(list) => {
                self.add_peers(list);
            },
            _ => {},
        }
    }

    /// Rebalances the neighbor set: sorts it by id and, when it is at or
    /// above capacity, keeps the `MAX_PEERS_LEN` peers nearest the node's id
    /// on the ring, walking outward from the ring successor alternately on
    /// both sides. The result is sorted, has size `min(input size, capacity)`
    /// and holds only peers that were already present.
    pub fn rebalance(&mut self)
        ensures
            final(self).id_spec() == old(self).id_spec(),
            sorted_by_id(final(self).peers_seq()),
            final(self).peers_seq().len() == if old(self).peers_seq().len() < MAX_PEERS_LEN {
                old(self).peers_seq().len() as int
            } else {
                MAX_PEERS_LEN as int
            },
            forall|i: int|
                0 <= i < final(self).peers_seq().len() ==> old(self).peers_seq().contains(
                    #[trigger] final(self).peers_seq()[i],
                ),
            old(self).peers_seq().len() < MAX_PEERS_LEN ==> final(self).peers_seq().to_multiset()
                == old(self).peers_seq().to_multiset(),
            unique_ids(old(self).peers_seq()) ==> unique_ids(final(self).peers_seq()),
            old(self).wf() ==> final(self).wf(),
            old(self).peers_seq().len() >= MAX_PEERS_LEN && unique_ids(old(self).peers_seq())
                ==> forall|sorted_in: Seq<Peer>|
                sorted_by_id(sorted_in) && sorted_in.to_multiset()
                    == old(self).peers_seq().to_multiset() ==> final(self).peers_seq().to_multiset()
                    == (#[trigger] walk_of_sorted_spec(sorted_in, old(self).id_spec())).to_multiset(),
    {
        broadcast use vstd::seq_lib::group_to_multiset_ensures;

        let ghost orig = self.peers@;
        let ghost my_id = self.self_id;
        let current = self.peers.split_off(0);
        proof {
            assert(current@ =~= orig);
        }
        let sorted = sort_peers_by_id(current);
        let len = sorted.len();
        if len < MAX_PEERS_LEN {
            self.peers = sorted;
            proof {
                assert forall|i: int| 0 <= i < self.peers@.len() implies orig.contains(
                    #[trigger] self.peers@[i],
                ) by {
                    assert(self.peers@.to_multiset().count(self.peers@[i]) > 0) by {
                        assert(self.peers@.contains(self.peers@[i]));
                    }
                    assert(orig.to_multiset().count(self.peers@[i]) > 0);
                }
                if unique_ids(orig) {
                    lemma_unique_ids_multiset_transfer(orig, self.peers@);
                }
                if !contains_id(orig, my_id) {
                    assert forall|w: int| 0 <= w < self.peers@.len() implies (
                    #[trigger] self.peers@[w]).id != my_id by {
                        assert(orig.contains(self.peers@[w]));
                        let z = choose|z: int| 0 <= z < orig.len() && orig[z] == self.peers@[w];
                        assert(orig[z].id != my_id);
                    }
                }
            }
            return ;
        }
        let mut self_index: usize = 0;
        let mut found = false;
        let mut k: usize = 0;
        while k < len
            invariant
                0 <= k <= len,
                0 < len,
                len == sorted@.len(),
                self_index < len,
                my_id == self.self_id,
                !found ==> self_index == 0 && succ_index_from_spec(sorted@, my_id, k as int)
                    == succ_index_spec(sorted@, my_id),
                found ==> self_index == succ_index_spec(sorted@, my_id),
            decreases len - k,
        {
            if !found && sorted[k].id > self.self_id {
                self_index = k;
                found = true;
            }
            k = k + 1;
        }
        proof {
            if !found {
                assert(succ_index_from_spec(sorted@, my_id, len as int) == 0);
            }
            assert(self_index == succ_index_spec(sorted@, my_id));
        }
        let mut i: usize;
        let mut j: usize;
        if self_index == 0 {
            i = 0;
            j = 1;
        } else {
            i = self_index - 1;
            j = self_index;
        }
        let ghost i0 = i as int;
        let ghost j0 = j as int;
        proof {
            assert(j0 == add_wrap_spec(i0, 1, len as int));
        }
        let mut closest: Vec<Peer> = Vec::new();
        let mut counter: usize = 0;
        while counter < MAX_PEERS_LEN
            invariant
                len == sorted@.len(),
                MAX_PEERS_LEN <= len,
                0 <= i < len,
                0 <= j < len,
                counter % 2 == 0,
                0 <= counter <= MAX_PEERS_LEN,
                closest@.len() == counter,
                forall|m: int|
                    0 <= m < closest@.len() ==> sorted@.contains(#[trigger] closest@[m]),
                ring_walk_spec(sorted@, i0, j0, MAX_PEERS_LEN as int) == closest@ + ring_walk_spec(
                    sorted@,
                    i as int,
                    j as int,
                    MAX_PEERS_LEN - counter,
                ),
            decreases MAX_PEERS_LEN - counter,
        {
            let ghost pre_closest = closest@;
            let ghost pre_i = i as int;
            let ghost pre_j = j as int;
            counter = counter + 2;
            let a = sorted[i].duplicate();
            closest.push(a);
            let b = sorted[j].duplicate();
            closest.push(b);
            if i == 0 {
                i = len - 1;
            } else {
                i = i - 1;
            }
            if j == len - 1 {
                j = 0;
            } else {
                j = j + 1;
            }
            proof {
                let rem = MAX_PEERS_LEN - counter + 2;
                assert(ring_walk_spec(sorted@, pre_i, pre_j, rem) == seq![
                    sorted@[pre_i],
                    sorted@[pre_j],
                ] + ring_walk_spec(sorted@, i as int, j as int, rem - 2));
                assert(closest@ =~= pre_closest + seq![sorted@[pre_i], sorted@[pre_j]]);
                assert(closest@ + ring_walk_spec(sorted@, i as int, j as int, rem - 2)
                    =~= pre_closest + ring_walk_spec(sorted@, pre_i, pre_j, rem));
            }
        }
        proof {
            assert(ring_walk_spec(sorted@, i as int, j as int, 0) =~= Seq::<Peer>::empty());
            assert(closest@ =~= ring_walk_spec(sorted@, i0, j0, MAX_PEERS_LEN as int));
        }
        let result = sort_peers_by_id(closest);
        self.peers = result;
        proof {
            assert(self.peers@.to_multiset().len() == self.peers@.len());
            assert forall|m: int| 0 <= m < self.peers@.len() implies orig.contains(
                #[trigger] self.peers@[m],
            ) by {
                assert(self.peers@.to_multiset().count(self.peers@[m]) > 0) by {
                    assert(self.peers@.contains(self.peers@[m]));
                }
                assert(sorted@.to_multiset().count(self.peers@[m]) > 0) by {
                    assert(sorted@.contains(self.peers@[m]));
                }
                assert(orig.to_multiset().count(self.peers@[m]) > 0);
            }
            if unique_ids(orig) {
                lemma_unique_ids_multiset_transfer(orig, sorted@);
                lemma_ring_walk_unique(sorted@, i0, j0);
                assert(unique_ids(closest@));
                lemma_unique_ids_multiset_transfer(closest@, self.peers@);
                assert forall|sorted_in: Seq<Peer>|
                    sorted_by_id(sorted_in) && sorted_in.to_multiset()
                        == orig.to_multiset() implies self.peers@.to_multiset() == (
                #[trigger] walk_of_sorted_spec(sorted_in, my_id)).to_multiset() by {
                    lemma_sorted_unique_ids_equal(sorted@, sorted_in);
                    assert(sorted_in == sorted@);
                    assert(walk_of_sorted_spec(sorted_in, my_id) == ring_walk_spec(
                        sorted@,
                        i0,
                        j0,
                        MAX_PEERS_LEN as int,
                    ));
                }
            }
            if !contains_id(orig, my_id) {
                assert forall|w: int| 0 <= w < self.peers@.len() implies (
                #[trigger] self.peers@[w]).id != my_id by {
                    assert(orig.contains(self.peers@[w]));
                    let z = choose|z: int| 0 <= z < orig.len() && orig[z] == self.peers@[w];
                    assert(orig[z].id != my_id);
                }
            }
        }
    }

    /// One heartbeat-emission round: rebalance, then build the payload to
    /// send to every neighbor — the node itself as sender and the
    /// post-rebalance neighbor set.
    pub fn heartbeat_round(&mut self, self_peer: &Peer) -> (hb: Heartbeat)
        ensures
            final(self).id_spec() == old(self).id_spec(),
            sorted_by_id(final(self).peers_seq()),
            final(self).peers_seq().len() == if old(self).peers_seq().len() < MAX_PEERS_LEN {
                old(self).peers_seq().len() as int
            } else {
                MAX_PEERS_LEN as int
            },
            forall|i: int|
                0 <= i < final(self).peers_seq().len() ==> old(self).peers_seq().contains(
                    #[trigger] final(self).peers_seq()[i],
                ),
            unique_ids(old(self).peers_seq()) ==> unique_ids(final(self).peers_seq()),
            old(self).wf() ==> final(self).wf(),
            hb.sender == *self_peer,
            hb.known_peers@ == final(self).peers_seq(),
    {
        self.rebalance();
        let sender = self_peer.duplicate();
        let known_peers = duplicate_peers(&self.peers);
        Heartbeat { sender, known_peers }
    }
}

} // verus!
