use rustchain::cvec::ConcurrentVec;
use rustchain::events::{ChannelError, EventChannel, RustchainEvent};
use rustchain::net::{get_self_ip, get_self_port};
use rustchain::tx::Transaction;

fn tx_event(amount: u32) -> RustchainEvent {
    let mut tx = Transaction::default();
    tx.outputs.push(rustchain::tx::UtxoOutput { to_addr: vec![1], amount });
    RustchainEvent::NewTransaction(tx)
}

fn event_amount(ev: &RustchainEvent) -> u32 {
    match ev {
        RustchainEvent::NewTransaction(tx) => tx.outputs[0].amount,
        _ => panic!("unexpected event"),
    }
}

// Every subscriber sees every event published after it subscribed, in
// publish order.
#[test]
fn channel_delivers_in_publish_order() {
    let mut ch = EventChannel::new(8);
    let a = ch.subscribe();
    let b = ch.subscribe();
    assert!(ch.publish(tx_event(1)).is_ok());
    assert!(ch.publish(tx_event(2)).is_ok());
    assert!(ch.publish(tx_event(3)).is_ok());
    for sub in [a, b] {
        for expected in [1u32, 2, 3] {
            let ev = ch.peek(sub).unwrap();
            assert_eq!(expected, event_amount(ev));
            ch.advance(sub);
        }
        assert!(ch.peek(sub).is_none());
    }
}

// A subscriber lagging by the channel capacity blocks further publishes
// until it drains; other subscribers are unaffected in what they received.
#[test]
fn channel_backpressure_on_slow_subscriber() {
    let mut ch = EventChannel::new(2);
    let slow = ch.subscribe();
    assert!(ch.publish(tx_event(1)).is_ok());
    assert!(ch.publish(tx_event(2)).is_ok());
    assert_eq!(Err(ChannelError::Full), ch.publish(tx_event(3)));
    assert_eq!(2, ch.pending(slow));
    ch.advance(slow);
    assert!(ch.publish(tx_event(3)).is_ok());
}

// A late subscriber receives only events published after it subscribed.
#[test]
fn late_subscriber_sees_later_events_only() {
    let mut ch = EventChannel::new(8);
    assert!(ch.publish(tx_event(1)).is_ok());
    let late = ch.subscribe();
    assert!(ch.publish(tx_event(2)).is_ok());
    let ev = ch.peek(late).unwrap();
    assert_eq!(2, event_amount(ev));
}

#[test]
fn concurrent_vec_stack_and_drain() {
    let mut v: ConcurrentVec<u32> = ConcurrentVec::new();
    assert!(v.pop().is_none());
    assert!(v.peek_first().is_none());
    v.push(1);
    v.push(2);
    v.push(3);
    assert_eq!(Some(1), v.peek_first());
    assert_eq!(Some(3), v.peek_last());
    assert_eq!(Some(3), v.pop());
    assert_eq!(vec![1, 2], v.flush());
    assert!(v.peek_last().is_none());
}

#[test]
fn self_endpoint_is_local() {
    assert_eq!("[::1]", get_self_ip());
    assert_eq!(5002, get_self_port());
}

#[test]
fn concurrent_vec_borrowing_accessors() {
    let mut v: ConcurrentVec<u32> = ConcurrentVec::new();
    assert!(v.first().is_none());
    assert!(v.last().is_none());
    v.push(4);
    v.push(9);
    assert_eq!(Some(&4), v.first());
    assert_eq!(Some(&9), v.last());
}
