//! The in-process event channel: every subscriber receives every event
//! published after it subscribed, in publish order. Each subscriber reads at
//! its own cursor into a shared log; a subscriber lagging by the channel's
//! capacity exerts backpressure on publishers.
use crate::block::Block;
use crate::peer::{Heartbeat, Peer};
use crate::tx::Transaction;
use vstd::prelude::*;

verus! {

/// Everything the node reacts to: new blocks, new transactions, fresh peer
/// lists and incoming heartbeats.
pub enum RustchainEvent {
    NewBlock(Block),
    NewTransaction(Transaction),
    NewPeers(Vec<Peer>),
    NewHeartbeat(Heartbeat),
}

/// The membership-layer subset of events.
pub enum P2pEvent {
    NewPeers(Vec<Peer>),
    NewHeartbeat(Heartbeat),
}

/// The reason a publish was refused.
#[derive(Debug, Clone, Copy, PartialEq, Eq, Structural)]
pub enum ChannelError {
    /// Some subscriber's queue is full; the publisher must wait.
    Full,
}

/// The event channel: a shared log in publish order and one cursor per
/// subscriber.
pub struct EventChannel {
    log: Vec<RustchainEvent>,
    cursors: Vec<usize>,
    capacity: usize,
}

impl EventChannel {
    /// The published events, in publish order.
    pub closed spec fn log_seq(self) -> Seq<RustchainEvent> {
        self.log@
    }

    /// Each subscriber's position in the log: everything before it has been
    /// delivered to that subscriber.
    pub closed spec fn cursors_seq(self) -> Seq<usize> {
        self.cursors@
    }

    /// The per-subscriber queue bound.
    pub closed spec fn capacity_spec(self) -> int {
        self.capacity as int
    }

    /// Channel well-formedness: no cursor runs past the log.
    pub open spec fn wf(self) -> bool {
        &&& forall|i: int|
            0 <= i < self.cursors_seq().len() ==> #[trigger] self.cursors_seq()[i]
                <= self.log_seq().len()
        &&& self.capacity_spec() > 0
    }

    /// A channel with the given per-subscriber capacity.
    pub fn new(capacity: usize) -> (r: EventChannel)
        requires
            capacity > 0,
        ensures
            r.wf(),
            r.log_seq().len() == 0,
            r.cursors_seq().len() == 0,
            r.capacity_spec() == capacity,
    {
        EventChannel { log: Vec::new(), cursors: Vec::new(), capacity }
    }

    /// Registers a new subscriber, which will receive every event published
    /// from now on; returns its subscriber id.
    pub fn subscribe(&mut self) -> (r: usize)
        requires
            old(self).wf(),
        ensures
            final(self).wf(),
            r == old(self).cursors_seq().len(),
            final(self).cursors_seq() == old(self).cursors_seq().push(
                old(self).log_seq().len() as usize,
            ),
            final(self).log_seq() == old(self).log_seq(),
            final(self).capacity_spec() == old(self).capacity_spec(),
    {
        let at = self.log.len();
        self.cursors.push(at);
        proof {
            assert forall|i: int| 0 <= i < self.cursors_seq().len() implies #[trigger] self.cursors_seq()[i]
                <= self.log_seq().len() by {
                if i < old(self).cursors_seq().len() {
                    assert(self.cursors_seq()[i] == old(self).cursors_seq()[i]);
                }
            }
        }
        self.cursors.len() - 1
    }

    /// Publishes an event: appended to the log, and thus delivered to every
    /// subscriber in publish order, unless some subscriber already lags by
    /// the full capacity, in which case nothing changes and the publisher
    /// must retry (backpressure).
    pub fn publish(&mut self, event: RustchainEvent) -> (r: Result<(), ChannelError>)
        requires
            old(self).wf(),
        ensures
            final(self).wf(),
            final(self).cursors_seq() == old(self).cursors_seq(),
            final(self).capacity_spec() == old(self).capacity_spec(),
            (r is Ok) <==> (forall|i: int|
                0 <= i < old(self).cursors_seq().len() ==> old(self).log_seq().len()
                    - #[trigger] old(self).cursors_seq()[i] < old(self).capacity_spec()),
            r is Ok ==> final(self).log_seq() == old(self).log_seq().push(event),
            r is Err ==> final(self).log_seq() == old(self).log_seq() && r == Err::<
                (),
                ChannelError,
            >(ChannelError::Full),
    {
        let n = self.cursors.len();
        let mut i: usize = 0;
        while i < n
            invariant
                0 <= i <= n,
                n == self.cursors@.len(),
                self.wf(),
                forall|m: int|
                    0 <= m < i ==> self.log_seq().len() - #[trigger] self.cursors_seq()[m]
                        < self.capacity_spec(),
            decreases n - i,
        {
            if self.log.len() - self.cursors[i] >= self.capacity {
                return Err(ChannelError::Full);
            }
            i = i + 1;
        }
        self.log.push(event);
        Ok(())
    }

    /// How many events subscriber `sub` has not yet taken.
    pub fn pending(&self, sub: usize) -> (r: usize)
        requires
            self.wf(),
            sub < self.cursors_seq().len(),
        ensures
            r == self.log_seq().len() - self.cursors_seq()[sub as int],
    {
        self.log.len() - self.cursors[sub]
    }

    /// The next event for subscriber `sub`, if any: always the oldest event
    /// it has not yet taken, so events arrive in publish order.
    pub fn peek(&self, sub: usize) -> (r: Option<&RustchainEvent>)
        requires
            self.wf(),
            sub < self.cursors_seq().len(),
        ensures
            r matches Some(ev) ==> self.cursors_seq()[sub as int] < self.log_seq().len() && *ev
                == self.log_seq()[self.cursors_seq()[sub as int] as int],
            r is None <==> self.cursors_seq()[sub as int] == self.log_seq().len(),
    {
        let at = self.cursors[sub];
        if at < self.log.len() {
            Some(&self.log[at])
        } else {
            None
        }
    }

    /// Marks subscriber `sub`'s next event as delivered.
    pub fn advance(&mut self, sub: usize)
        requires
            old(self).wf(),
            sub < old(self).cursors_seq().len(),
            old(self).cursors_seq()[sub as int] < old(self).log_seq().len(),
        ensures
            final(self).wf(),
            final(self).log_seq() == old(self).log_seq(),
            final(self).capacity_spec() == old(self).capacity_spec(),
            final(self).cursors_seq() == old(self).cursors_seq().update(
                sub as int,
                (old(self).cursors_seq()[sub as int] + 1) as usize,
            ),
    {
        let at = self.cursors[sub];
        let n = self.log.len();
        proof {
            assert(at < n);
        }
        self.cursors.set(sub, at + 1);
    }
}

} // verus!
