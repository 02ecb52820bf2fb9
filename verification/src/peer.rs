//! Peers and gossip payloads. A peer's identifier is numeric, assigned by
//! the bootstrap registry on first contact; zero means "not yet assigned".
//! Peer equality throughout the membership logic is by identifier.
use vstd::prelude::*;

verus! {

/// A node in the overlay: its registry-assigned id, address and port.
#[derive(Clone, Debug)]
pub struct Peer {
    pub id: u64,
    pub ip: String,
    pub port: u32,
}

impl Peer {
    /// A copy with the same id, address and port.
    pub fn duplicate(&self) -> (r: Peer)
        ensures
            r == *self,
    {
        Peer { id: self.id, ip: self.ip.clone(), port: self.port }
    }
}

/// Copies a peer list element by element.
pub fn duplicate_peers(v: &Vec<Peer>) -> (r: Vec<Peer>)
    ensures
        r@ == v@,
{
    let n = v.len();
    let mut out: Vec<Peer> = Vec::new();
    let mut i: usize = 0;
    while i < n
        invariant
            0 <= i <= n,
            n == v@.len(),
            out@ =~= v@.take(i as int),
        decreases n - i,
    {
        let p = v[i].duplicate();
        out.push(p);
        proof {
            assert(out@ =~= v@.take(i + 1));
        }
        i = i + 1;
    }
    proof {
        assert(v@.take(n as int) =~= v@);
    }
    out
}

/// The periodic gossip payload: the sender and the peers it knows.
pub struct Heartbeat {
    pub sender: Peer,
    pub known_peers: Vec<Peer>,
}

} // verus!
