use std::collections::VecDeque;

use naia_socket::{
    process_packet, ConditionedPacketReceiver, LinkConditionerConfig, NaiaClientSocketError,
    Packet, PacketReceiver, PacketReceiverTrait, ServerAddr, TimeQueue, LOSS_SCALE,
};

#[derive(Clone)]
struct Script {
    incoming: VecDeque<Result<Option<Packet>, NaiaClientSocketError>>,
}

impl Script {
    fn of(payloads: &[&str]) -> Script {
        Script {
            incoming: payloads
                .iter()
                .map(|p| Ok(Some(Packet::new_raw(p.as_bytes().to_vec()))))
                .collect(),
        }
    }

    fn push(&mut self, payload: &str) {
        self.incoming.push_back(Ok(Some(Packet::new_raw(payload.as_bytes().to_vec()))));
    }
}

impl PacketReceiverTrait for Script {
    fn receive(&mut self) -> Result<Option<Packet>, NaiaClientSocketError> {
        self.incoming.pop_front().unwrap_or(Ok(None))
    }

    fn server_addr(&self) -> ServerAddr {
        ServerAddr::Finding
    }
}

fn payload_of(r: Result<Option<Packet>, NaiaClientSocketError>) -> Option<Vec<u8>> {
    r.unwrap().map(|p| p.payload().to_vec())
}

#[test]
fn process_packet_schedules_at_latency_plus_jitter() {
    let config = LinkConditionerConfig::new(100, 20, 0);
    let mut q: TimeQueue<u8> = TimeQueue::new();
    process_packet(&config, &mut q, 1000, 7, 0, 15);
    assert!(!q.has_item(1114));
    assert!(q.has_item(1115));
    assert_eq!(q.pop_item(1115), Some(7));
}

#[test]
fn process_packet_drops_below_loss() {
    let config = LinkConditionerConfig::new(0, 0, 300_000);
    let mut q: TimeQueue<u8> = TimeQueue::new();
    process_packet(&config, &mut q, 0, 1, 299_999, 0);
    assert_eq!(q.len(), 0);
    process_packet(&config, &mut q, 0, 2, 300_000, 0);
    assert_eq!(q.len(), 1);
}

#[test]
fn process_packet_saturates_at_clock_end() {
    let config = LinkConditionerConfig::new(10, 0, 0);
    let mut q: TimeQueue<u8> = TimeQueue::new();
    process_packet(&config, &mut q, u64::MAX - 5, 3, 0, 0);
    assert!(!q.has_item(u64::MAX - 1));
    assert!(q.has_item(u64::MAX));
}

#[test]
fn latency_scenario_releases_at_due_time() {
    let config = LinkConditionerConfig::new(100, 0, 0);
    let mut receiver = ConditionedPacketReceiver::new(Script::of(&["A"]), &config);
    assert_eq!(payload_of(receiver.receive_at(0)), None);
    assert_eq!(payload_of(receiver.receive_at(50)), None);
    assert_eq!(payload_of(receiver.receive_at(100)), Some(b"A".to_vec()));
    assert_eq!(payload_of(receiver.receive_at(200)), None);
}

#[test]
fn lossless_steady_link_delivers_in_arrival_order() {
    let config = LinkConditionerConfig::new(30, 0, 0);
    let mut receiver = ConditionedPacketReceiver::new(Script::of(&["1", "2", "3"]), &config);
    assert_eq!(payload_of(receiver.receive_at(10)), None);
    assert_eq!(payload_of(receiver.receive_at(39)), None);
    assert_eq!(payload_of(receiver.receive_at(40)), Some(b"1".to_vec()));
    assert_eq!(payload_of(receiver.receive_at(40)), Some(b"2".to_vec()));
    assert_eq!(payload_of(receiver.receive_at(40)), Some(b"3".to_vec()));
    assert_eq!(payload_of(receiver.receive_at(1000)), None);
}

#[test]
fn one_item_per_receive_even_with_backlog() {
    let config = LinkConditionerConfig::new(0, 0, 0);
    let mut inner = Script::of(&["x", "y"]);
    inner.push("z");
    let mut receiver = ConditionedPacketReceiver::new(inner, &config);
    assert_eq!(payload_of(receiver.receive_at(5)), Some(b"x".to_vec()));
    assert!(receiver.has_packet(5));
    assert_eq!(payload_of(receiver.receive_at(5)), Some(b"y".to_vec()));
    assert_eq!(payload_of(receiver.receive_at(5)), Some(b"z".to_vec()));
    assert!(!receiver.has_packet(5));
}

#[test]
fn total_loss_delivers_nothing() {
    let config = LinkConditionerConfig::new(0, 0, LOSS_SCALE);
    let payloads: Vec<String> = (0..200).map(|i| i.to_string()).collect();
    let refs: Vec<&str> = payloads.iter().map(|s| s.as_str()).collect();
    let mut receiver = ConditionedPacketReceiver::new(Script::of(&refs), &config);
    for t in 0..50u64 {
        assert_eq!(payload_of(receiver.receive_at(t * 1000)), None);
    }
}

#[test]
fn jitter_never_releases_early_or_late() {
    let config = LinkConditionerConfig::new(50, 40, 0);
    let payloads: Vec<String> = (0..100).map(|i| i.to_string()).collect();
    let refs: Vec<&str> = payloads.iter().map(|s| s.as_str()).collect();
    let mut receiver = ConditionedPacketReceiver::new(Script::of(&refs), &config);
    assert_eq!(payload_of(receiver.receive_at(0)), None);
    assert!(!receiver.has_packet(49));
    let mut got = 0;
    while payload_of(receiver.receive_at(90)).is_some() {
        got += 1;
    }
    assert_eq!(got, 100);
}

#[test]
fn carrier_error_is_passed_on_and_schedule_kept() {
    let config = LinkConditionerConfig::new(0, 0, 0);
    let mut inner = Script::of(&["a"]);
    inner
        .incoming
        .push_back(Err(NaiaClientSocketError::Wrapped("broken".to_string())));
    inner.push("b");
    let mut receiver = ConditionedPacketReceiver::new(inner, &config);
    assert_eq!(
        receiver.receive_at(0),
        Err(NaiaClientSocketError::Wrapped("broken".to_string()))
    );
    assert_eq!(payload_of(receiver.receive_at(0)), Some(b"a".to_vec()));
    assert_eq!(payload_of(receiver.receive_at(0)), Some(b"b".to_vec()));
}

#[test]
fn loss_rate_is_statistically_close() {
    let config = LinkConditionerConfig::new(0, 0, 300_000);
    let trials = 200;
    let mut delivered = 0usize;
    for _ in 0..trials {
        let mut receiver = ConditionedPacketReceiver::new(Script::of(&["p"; 100]), &config);
        while payload_of(receiver.receive_at(0)).is_some() {
            delivered += 1;
        }
    }
    let sent = (trials * 100) as f64;
    let drop_rate = 1.0 - delivered as f64 / sent;
    assert!((drop_rate - 0.3).abs() < 0.03, "drop rate {}", drop_rate);
}

#[test]
fn unconditioned_receiver_passes_items_through() {
    let mut receiver = PacketReceiver::new(Script::of(&["first", "second"]), None);
    assert_eq!(payload_of(receiver.receive()), Some(b"first".to_vec()));
    assert_eq!(payload_of(receiver.receive()), Some(b"second".to_vec()));
    assert_eq!(payload_of(receiver.receive()), None);
    assert_eq!(receiver.server_addr(), ServerAddr::Finding);
}

#[test]
fn conditioned_receiver_through_socket_path() {
    let config = LinkConditionerConfig::new(0, 0, 0);
    let mut receiver = PacketReceiver::new(Script::of(&["only"]), Some(config));
    assert_eq!(payload_of(receiver.receive()), Some(b"only".to_vec()));
    assert_eq!(payload_of(receiver.receive()), None);
}

#[test]
fn cloned_receiver_keeps_its_own_schedule() {
    let config = LinkConditionerConfig::new(100, 0, 0);
    let mut receiver = PacketReceiver::new(Script::of(&[]), Some(config));
    let mut copy = receiver.clone();
    assert_eq!(payload_of(receiver.receive()), None);
    assert_eq!(payload_of(copy.receive()), None);
}

#[test]
fn drain_stops_at_error_and_keeps_survivors_for_later() {
    let config = LinkConditionerConfig::new(10, 0, 0);
    let mut inner = Script::of(&["a", "b"]);
    inner.incoming.push_back(Err(NaiaClientSocketError::Message("x".to_string())));
    inner.push("c");
    let mut receiver = ConditionedPacketReceiver::new(inner, &config);
    assert_eq!(
        receiver.receive_at(0),
        Err(NaiaClientSocketError::Message("x".to_string()))
    );
    assert!(!receiver.has_packet(9));
    assert_eq!(payload_of(receiver.receive_at(5)), None);
    assert_eq!(payload_of(receiver.receive_at(10)), Some(b"a".to_vec()));
    assert_eq!(payload_of(receiver.receive_at(10)), Some(b"b".to_vec()));
    assert_eq!(payload_of(receiver.receive_at(14)), None);
    assert_eq!(payload_of(receiver.receive_at(15)), Some(b"c".to_vec()));
}
