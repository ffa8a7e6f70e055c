//! End-to-end scenarios of the mesh engine.

use quadranet::device::config::DeviceConfig;
use quadranet::device::LoraDevice;
use quadranet::device::RxInfo;
use quadranet::device::Uid;
use quadranet::device::INQUEUE_SIZE;
use quadranet::device::OUTQUEUE_SIZE;
use quadranet::message::payload::AckType;
use quadranet::message::payload::DataType;
use quadranet::message::payload::Payload;
use quadranet::message::Message;

fn node(uid: u8) -> LoraDevice {
    LoraDevice::new(Uid::try_from(uid).unwrap(), DeviceConfig::default())
}

fn rx() -> RxInfo {
    RxInfo { rssi: -80, snr: 5 }
}

#[test]
fn local_ack_scenario() {
    // Node A (uid 1) receives a data frame for itself asking for an ack.
    let mut device = node(1);
    let source = Uid::try_from(2).unwrap();
    let dest = Uid::try_from(1).unwrap();
    let mut msg = Message::new(
        source,
        Some(dest),
        Payload::Data(DataType::new_text("hi")),
        3,
        true,
    );
    msg.set_message_id(42);
    let frame = msg.encode();

    assert!(device.handle_frame(frame.as_slice(), rx(), 1_000));

    // A direct route to the sender was installed.
    let route = device.lookup_route(2, 1_000).expect("route to sender");
    assert_eq!(route.next_hop.get(), 2);
    assert_eq!(route.hop_count, 1);
    assert!(route.quality > 0);
    assert!(route.is_active);

    // The message reached the application queue exactly once.
    assert_eq!(device.inqueue_len(), 1);
    let delivered = device.inqueue_get(0);
    assert_eq!(delivered.message_id(), 42);
    assert_eq!(delivered.source_id(), source);

    // A success ack for id 42 waits in the outgoing queue.
    assert_eq!(device.outqueue_len(), 1);
    let ack = device.outqueue_get(0);
    assert_eq!(ack.source_id().get(), 1);
    assert_eq!(ack.destination_id().map(|u| u.get()), Some(2));
    assert!(!ack.req_ack());
    assert!(matches!(
        ack.payload(),
        Payload::Ack(AckType::Success { message_id: 42 })
    ));

    // Transmitting the ack creates no pending entry: it asks for no ack.
    let sent = device.process_outqueue(1_001);
    assert_eq!(sent.len(), 1);
    assert_eq!(device.pending_len(), 0);
}

#[test]
fn forward_with_ttl_decrement_scenario() {
    // Node B (uid 2) knows a route to 5 via 7 and relays a frame for 5.
    let mut device = node(2);
    let far = Uid::try_from(5).unwrap();
    let via = Uid::try_from(7).unwrap();
    let mut discovered = Message::new(
        far,
        Some(Uid::try_from(2).unwrap()),
        Payload::Ack(AckType::AckDiscovered { hops: 1, last_hop: via }),
        3,
        false,
    );
    discovered.set_message_id(7);
    device.handle_message(discovered, None, 1_000);
    let route = device.lookup_route(5, 1_000).expect("installed route");
    assert_eq!(route.next_hop.get(), 7);
    // The ack itself was delivered locally; drain it before forwarding.
    let _ = device.process_inqueue();
    let outgoing_before = device.outqueue_len();

    let mut msg = Message::new(
        Uid::try_from(3).unwrap(),
        Some(far),
        Payload::Data(DataType::new_binary(&[1, 2, 3])),
        3,
        false,
    );
    msg.set_message_id(99);
    device.handle_message(msg, None, 2_000);

    assert_eq!(device.inqueue_len(), 0);
    assert_eq!(device.outqueue_len(), outgoing_before + 1);
    let forwarded = device.outqueue_get(outgoing_before);
    assert_eq!(forwarded.message_id(), 99);
    assert_eq!(forwarded.source_id().get(), 2);
    assert_eq!(forwarded.destination_id().map(|u| u.get()), Some(5));
    assert_eq!(forwarded.ttl(), 2);
    assert!(!forwarded.req_ack());
    assert!(matches!(forwarded.payload(), Payload::Data(DataType::Binary(_))));
}

#[test]
fn no_relay_on_last_hop() {
    // A unicast for another node arriving with one hop left is dropped.
    let mut device = node(2);
    let far = Uid::try_from(5).unwrap();
    let via = Uid::try_from(7).unwrap();
    let mut discovered = Message::new(
        far,
        Some(Uid::try_from(2).unwrap()),
        Payload::Ack(AckType::AckDiscovered { hops: 1, last_hop: via }),
        3,
        false,
    );
    discovered.set_message_id(7);
    device.handle_message(discovered, None, 1_000);
    let outgoing_before = device.outqueue_len();

    let mut msg = Message::new(
        Uid::try_from(3).unwrap(),
        Some(far),
        Payload::Data(DataType::new_text("last hop")),
        1,
        false,
    );
    msg.set_message_id(100);
    device.handle_message(msg, None, 2_000);
    assert_eq!(device.outqueue_len(), outgoing_before);
}

#[test]
fn discovery_round_trip_scenario() {
    // Node A broadcasts a discovery; neighbour B answers with zero
    // accumulated hops; A installs a one-hop route and stops waiting.
    let mut a = node(1);
    let mut b = node(2);

    a.discover_nodes();
    assert_eq!(a.outqueue_len(), 1);
    let discovery = a.outqueue_get(0);
    assert_eq!(discovery.destination_id(), None);
    assert_eq!(discovery.ttl(), 3);
    assert!(discovery.req_ack());
    let discovery_id = discovery.message_id();

    let sent = a.process_outqueue(10);
    assert_eq!(sent.len(), 1);
    assert!(a.pending_contains(discovery_id));

    let frame = sent[0].encode();
    assert!(b.handle_frame(frame.as_slice(), rx(), 20));

    // B's answer: hops = original_ttl - ttl = 0, from and via B itself.
    let answers = b.process_outqueue(30);
    let answer = answers
        .iter()
        .find(|m| matches!(m.payload(), Payload::Ack(AckType::AckDiscovered { .. })))
        .expect("discovery answer");
    match answer.payload() {
        Payload::Ack(AckType::AckDiscovered { hops, last_hop }) => {
            assert_eq!(*hops, 0);
            assert_eq!(last_hop.get(), 2);
        }
        _ => unreachable!(),
    }
    assert_eq!(answer.destination_id().map(|u| u.get()), Some(1));
    assert!(!answer.req_ack());

    let frame = answer.encode();
    assert!(a.handle_frame(frame.as_slice(), rx(), 40));

    // A installed the route (a zero-hop answer counts as one hop) and the
    // discovery's pending entry is swept once acknowledged.
    let route = a.lookup_route(2, 50).expect("route to neighbour");
    assert_eq!(route.next_hop.get(), 2);
    assert_eq!(route.hop_count, 1);
    a.perform_maintenance(60);
    assert!(!a.pending_contains(discovery_id));
}

#[test]
fn retry_then_give_up_scenario() {
    // A req-ack message that is never acknowledged is retried while the
    // attempt budget lasts, then given up and swept.
    let mut device = node(1);
    let msg = Message::new(
        Uid::try_from(1).unwrap(),
        Some(Uid::try_from(4).unwrap()),
        Payload::Data(DataType::new_text("needs ack")),
        3,
        true,
    );
    assert!(device.enqueue_message(msg));
    let sent = device.process_outqueue(0);
    assert_eq!(sent.len(), 1);
    let id = sent[0].message_id();
    assert!(device.pending_contains(id));

    // First retry once the initial 500 ms backoff elapses.
    device.perform_maintenance(600);
    assert_eq!(device.outqueue_len(), 1);
    let retry = device.outqueue_get(0);
    assert_eq!(retry.message_id(), id);
    assert!(retry.req_ack());
    let sent = device.process_outqueue(600);
    assert_eq!(sent.len(), 1);
    assert!(device.pending_contains(id));

    // Second retry after the 1 000 ms backoff.
    device.perform_maintenance(1_700);
    assert_eq!(device.outqueue_len(), 1);
    let _ = device.process_outqueue(1_700);

    // Third retry after the 2 000 ms backoff.
    device.perform_maintenance(3_800);
    assert_eq!(device.outqueue_len(), 1);
    let _ = device.process_outqueue(3_800);
    assert!(device.pending_contains(id));

    // All attempts are used up; the next elapsed window gives up.
    device.perform_maintenance(9_000);
    assert_eq!(device.outqueue_len(), 0);
    assert!(!device.pending_contains(id));
}

#[test]
fn pending_insert_is_idempotent() {
    // Retransmitting the same id registers exactly one pending entry.
    let mut device = node(1);
    let msg = Message::new(
        Uid::try_from(1).unwrap(),
        Some(Uid::try_from(4).unwrap()),
        Payload::Data(DataType::new_text("once")),
        3,
        true,
    );
    assert!(device.enqueue_message(msg));
    let first = device.process_outqueue(0);
    let id = first[0].message_id();
    assert_eq!(device.pending_len(), 1);

    // Re-queue a message with the same id (an engine retry does this).
    device.perform_maintenance(600);
    let second = device.process_outqueue(600);
    assert_eq!(second[0].message_id(), id);
    assert_eq!(device.pending_len(), 1);
}

#[test]
fn queue_bounds_hold_under_flooding() {
    // Flooding the node keeps every queue within its capacity and keeps
    // expired messages out of the outgoing queue.
    let mut device = node(1);
    for i in 0..40u32 {
        let source = Uid::try_from((i % 8 + 2) as u8).unwrap();
        let mut msg = Message::new(
            source,
            None,
            Payload::Data(DataType::new_text("flood")),
            3,
            true,
        );
        msg.set_message_id(1_000 + i);
        let frame = msg.encode();
        device.handle_frame(frame.as_slice(), rx(), 100 + i as u64);
    }
    assert!(device.inqueue_len() <= INQUEUE_SIZE);
    assert!(device.outqueue_len() <= OUTQUEUE_SIZE);
    assert!(device.pending_len() <= quadranet::device::pending_ack::MAX_PENDING_ACKS);
    for i in 0..device.outqueue_len() {
        assert!(device.outqueue_get(i).ttl() > 0);
    }
}

#[test]
fn full_pending_table_still_transmits() {
    // With the pending table full, a req-ack message still goes out; it
    // simply gets no retry tracking.
    let mut device = node(1);
    for _ in 0..8 {
        let msg = Message::new(
            Uid::try_from(1).unwrap(),
            Some(Uid::try_from(4).unwrap()),
            Payload::Data(DataType::new_text("tracked")),
            3,
            true,
        );
        assert!(device.enqueue_message(msg));
    }
    let first = device.process_outqueue(0);
    let second = device.process_outqueue(0);
    assert_eq!(first.len() + second.len(), 8);
    assert_eq!(
        device.pending_len(),
        quadranet::device::pending_ack::MAX_PENDING_ACKS
    );

    let msg = Message::new(
        Uid::try_from(1).unwrap(),
        Some(Uid::try_from(4).unwrap()),
        Payload::Data(DataType::new_text("untracked")),
        3,
        true,
    );
    assert!(device.enqueue_message(msg));
    let third = device.process_outqueue(0);
    assert_eq!(third.len(), 1);
    assert!(third[0].req_ack());
    assert!(!device.pending_contains(third[0].message_id()));
    assert_eq!(
        device.pending_len(),
        quadranet::device::pending_ack::MAX_PENDING_ACKS
    );
}

#[test]
fn broadcast_is_delivered_and_relayed() {
    // A live broadcast reaches the application and is relayed with one
    // hop less, source preserved.
    let mut device = node(1);
    let source = Uid::try_from(6).unwrap();
    let mut msg = Message::new(
        source,
        None,
        Payload::Data(DataType::new_text("to all")),
        3,
        false,
    );
    msg.set_message_id(55);
    let frame = msg.encode();
    assert!(device.handle_frame(frame.as_slice(), rx(), 5));

    assert_eq!(device.inqueue_len(), 1);
    assert_eq!(device.outqueue_len(), 1);
    let relay = device.outqueue_get(0);
    assert_eq!(relay.message_id(), 55);
    assert_eq!(relay.source_id(), source);
    assert_eq!(relay.ttl(), 2);
}

#[test]
fn malformed_frame_changes_nothing() {
    let mut device = node(1);
    let garbage = [0xFFu8; 16];
    assert!(!device.handle_frame(&garbage, rx(), 5));
    assert_eq!(device.inqueue_len(), 0);
    assert_eq!(device.outqueue_len(), 0);
    assert_eq!(device.pending_len(), 0);
}

#[test]
fn application_drains_inqueue_in_order() {
    let mut device = node(1);
    for i in 0..6u32 {
        let mut msg = Message::new(
            Uid::try_from(2).unwrap(),
            Some(Uid::try_from(1).unwrap()),
            Payload::Data(DataType::new_text("in order")),
            3,
            false,
        );
        msg.set_message_id(i);
        device.handle_message(msg, None, 10);
    }
    assert_eq!(device.inqueue_len(), 6);
    let batch = device.process_inqueue();
    assert_eq!(batch.len(), 4);
    for (i, m) in batch.iter().enumerate() {
        assert_eq!(m.message_id(), i as u32);
    }
    let batch = device.process_inqueue();
    assert_eq!(batch.len(), 2);
    assert_eq!(device.inqueue_len(), 0);
}
