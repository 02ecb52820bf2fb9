//! The bootstrap registry: hands out strictly sequential peer identifiers,
//! starting at 1, and returns the peer set as it stands after each
//! registration. Identifiers are never reused and peers are never removed.
use crate::peer::{duplicate_peers, Peer};
use vstd::prelude::*;

verus! {

/// The bootstrap node's registration state.
pub struct BootstrapRegistry {
    peers: Vec<Peer>,
    id_counter: u64,
}

impl BootstrapRegistry {
    /// The registered peers, in registration order.
    pub closed spec fn peers_seq(self) -> Seq<Peer> {
        self.peers@
    }

    /// The value of the id counter: the number of registrations so far.
    pub closed spec fn counter(self) -> u64 {
        self.id_counter
    }

    /// Registry well-formedness: the counter equals the number of
    /// registrations, and the Nth registered peer carries id N.
    pub open spec fn wf(self) -> bool {
        &&& self.counter() == self.peers_seq().len()
        &&& forall|i: int|
            0 <= i < self.peers_seq().len() ==> (#[trigger] self.peers_seq()[i]).id == i + 1
    }

    /// An empty registry; the first assigned id will be 1.
    pub fn new() -> (r: BootstrapRegistry)
        ensures
            r.wf(),
            r.peers_seq().len() == 0,
            r.counter() == 0,
    {
        BootstrapRegistry { peers: Vec::new(), id_counter: 0 }
    }

    /// Registers a candidate: atomically increments the counter, assigns the
    /// new value as the candidate's id, appends it, and returns the assigned
    /// peer together with the peer set as it stands after insertion.
    pub fn register(&mut self, candidate: Peer) -> (r: (Peer, Vec<Peer>))
        requires
            old(self).wf(),
            old(self).counter() < u64::MAX,
        ensures
            final(self).wf(),
            final(self).counter() == old(self).counter() + 1,
            r.0.id == old(self).counter() + 1,
            r.0.ip@ == candidate.ip@,
            r.0.port == candidate.port,
            final(self).peers_seq() == old(self).peers_seq().push(r.0),
            r.1@ == final(self).peers_seq(),
    {
        self.id_counter = self.id_counter + 1;
        let registered = Peer { id: self.id_counter, ip: candidate.ip, port: candidate.port };
        let copy = registered.duplicate();
        self.peers.push(registered);
        let snapshot = duplicate_peers(&self.peers);
        (copy, snapshot)
    }

    /// The current peer set.
    pub fn get_peer_list(&self) -> (r: Vec<Peer>)
        ensures
            r@ == self.peers_seq(),
    {
        duplicate_peers(&self.peers)
    }
}

/// Law: registration is strictly sequential. In a well-formed registry the
/// Nth registered peer carries id N, so after any number of registrations the
/// assigned ids are exactly 1 through the number of peers, with no gaps or
/// repeats.
pub proof fn lemma_registration_ids_sequential(reg: BootstrapRegistry)
    requires
        reg.wf(),
    ensures
        forall|i: int|
            0 <= i < reg.peers_seq().len() ==> (#[trigger] reg.peers_seq()[i]).id == i + 1,
        forall|i: int, j: int|
            0 <= i < reg.peers_seq().len() && 0 <= j < reg.peers_seq().len() && i != j
                ==> reg.peers_seq()[i].id != reg.peers_seq()[j].id,
        forall|i: int|
            0 <= i < reg.peers_seq().len() ==> 1 <= (#[trigger] reg.peers_seq()[i]).id
                <= reg.peers_seq().len(),
{
}

} // verus!
