use std::cell::RefCell;
use std::collections::VecDeque;
use std::rc::Rc;

use naia_socket::{Packet, PacketSender, PacketTransmit, ServerAddr};

/// A carrier that answers from a script of outcomes and records what it
/// accepted.
struct ScriptedCarrier {
    outcomes: VecDeque<bool>,
    accepted: Rc<RefCell<Vec<Vec<u8>>>>,
}

impl PacketTransmit for ScriptedCarrier {
    fn transmit(&mut self, packet: &Packet) -> Result<(), String> {
        if self.outcomes.pop_front().unwrap_or(true) {
            self.accepted.borrow_mut().push(packet.payload().to_vec());
            Ok(())
        } else {
            Err("channel not open".to_string())
        }
    }

    fn server_addr(&self) -> ServerAddr {
        ServerAddr::Finding
    }
}

fn sender(outcomes: &[bool]) -> (PacketSender<ScriptedCarrier>, Rc<RefCell<Vec<Vec<u8>>>>) {
    let accepted = Rc::new(RefCell::new(Vec::new()));
    let carrier = ScriptedCarrier {
        outcomes: outcomes.iter().copied().collect(),
        accepted: accepted.clone(),
    };
    (PacketSender::new(carrier), accepted)
}

fn raw(p: &str) -> Packet {
    Packet::new_raw(p.as_bytes().to_vec())
}

#[test]
fn backlog_drains_before_new_packet() {
    // The first fails; then the first and second fail; then everything goes through.
    let (mut s, accepted) = sender(&[false, false, false, true, true, true]);
    s.send(raw("first"));
    assert_eq!(s.backlog_len(), 1);
    s.send(raw("second"));
    assert_eq!(s.backlog_len(), 2);
    assert!(accepted.borrow().is_empty());
    s.send(raw("third"));
    assert_eq!(s.backlog_len(), 0);
    assert_eq!(
        *accepted.borrow(),
        vec![b"first".to_vec(), b"second".to_vec(), b"third".to_vec()]
    );
}

#[test]
fn refused_retry_goes_to_back_in_order() {
    // The first fails; on the next send it fails again and the second succeeds.
    let (mut s, accepted) = sender(&[false, false, true, true]);
    s.send(raw("first"));
    s.send(raw("second"));
    assert_eq!(*accepted.borrow(), vec![b"second".to_vec()]);
    assert_eq!(s.backlog_len(), 1);
    s.send(raw("third"));
    assert_eq!(
        *accepted.borrow(),
        vec![b"second".to_vec(), b"first".to_vec(), b"third".to_vec()]
    );
    assert_eq!(s.backlog_len(), 0);
}

#[test]
fn healthy_carrier_sends_at_once() {
    let (mut s, accepted) = sender(&[]);
    s.send(raw("a"));
    s.send(raw("b"));
    assert_eq!(*accepted.borrow(), vec![b"a".to_vec(), b"b".to_vec()]);
    assert_eq!(s.backlog_len(), 0);
    assert_eq!(s.server_addr(), ServerAddr::Finding);
}

#[test]
fn bounded_backlog_evicts_oldest() {
    let accepted = Rc::new(RefCell::new(Vec::new()));
    let carrier = ScriptedCarrier {
        outcomes: vec![false; 6].into_iter().collect(),
        accepted: accepted.clone(),
    };
    let mut s = PacketSender::with_backlog_limit(carrier, 2);
    s.send(raw("a"));
    s.send(raw("b"));
    assert_eq!(s.backlog_len(), 2);
    // "a" and "b" are retried and refused, "c" is refused: "a" is evicted.
    s.send(raw("c"));
    assert_eq!(s.backlog_len(), 2);
    s.send(raw("d"));
    assert_eq!(*accepted.borrow(), vec![b"b".to_vec(), b"c".to_vec(), b"d".to_vec()]);
    assert_eq!(s.backlog_len(), 0);
}

#[test]
fn zero_limit_keeps_nothing_waiting() {
    let (mut s0, _) = sender(&[]);
    s0.send(raw("ok"));
    let accepted = Rc::new(RefCell::new(Vec::new()));
    let carrier = ScriptedCarrier {
        outcomes: vec![false].into_iter().collect(),
        accepted: accepted.clone(),
    };
    let mut s = PacketSender::with_backlog_limit(carrier, 0);
    s.send(raw("lost"));
    assert_eq!(s.backlog_len(), 0);
    s.send(raw("next"));
    assert_eq!(*accepted.borrow(), vec![b"next".to_vec()]);
}
