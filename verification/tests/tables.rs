//! Tests of the routing table, the pending-acknowledgement table, the
//! bounded queues, and the arithmetic helpers.

use quadranet::device::calculate_backoff;
use quadranet::device::calculate_quality;
use quadranet::device::collections::BoundedQueue;
use quadranet::device::collections::CollectionError;
use quadranet::device::collections::MessageQueue;
use quadranet::device::collections::OutStack;
use quadranet::device::pending_ack::PendingAckTable;
use quadranet::message::content::Content;
use quadranet::message::content::DataContent;
use quadranet::message::content::PingContent;
use quadranet::device::Uid;
use quadranet::message::payload::DataType;
use quadranet::message::payload::Payload;
use quadranet::message::Message;
use quadranet::route::routing_table::RoutingTable;
use quadranet::route::routing_table::MAX_ROUTES;
use quadranet::route::LinkQuality;
use quadranet::route::Route;

fn uid(v: u8) -> Uid {
    Uid::try_from(v).unwrap()
}

fn plain_message(id: u32) -> Message {
    let mut m = Message::new(
        uid(1),
        Some(uid(2)),
        Payload::Data(DataType::new_text("m")),
        3,
        false,
    );
    m.set_message_id(id);
    m
}

#[test]
fn quality_formula_exact_values() {
    // RSSI -80 dBm normalizes to 100, SNR 5 dB to 100: (100 + 300) / 4.
    assert_eq!(calculate_quality(-80, 5), 100);
    // Both clamped low.
    assert_eq!(calculate_quality(-200, -50), 0);
    // Both clamped high.
    assert_eq!(calculate_quality(100, 100), 255);
}

#[test]
fn backoff_doubles_until_clamped() {
    assert_eq!(calculate_backoff(0), 500);
    assert_eq!(calculate_backoff(1), 1_000);
    assert_eq!(calculate_backoff(2), 2_000);
    assert_eq!(calculate_backoff(3), 4_000);
    assert_eq!(calculate_backoff(4), 5_000);
    assert_eq!(calculate_backoff(200), 5_000);
}

#[test]
fn link_quality_reacts_to_outcomes() {
    let mut link = LinkQuality::new(-80, 5, 0);
    assert_eq!(link.success_rate, 100);
    assert_eq!(link.failure_rate, 0);
    // (100 + 3*100 + 4*100) / 8 = 100
    assert_eq!(link.calculate_quality(), 100);

    link.record_failure(10);
    assert_eq!(link.failure_rate, 10);
    assert_eq!(link.success_rate, 90);
    assert!(link.calculate_quality() < 100);

    link.record_success(20);
    assert_eq!(link.failure_rate, 5);
    assert_eq!(link.success_rate, 95);

    // Smoothing: three parts history, one part sample.
    link.update_signal_metrics(-120, 5, 30);
    assert_eq!(link.rssi, -90);
    assert_eq!(link.snr, 5);
    assert_eq!(link.last_used, 30);
}

#[test]
fn quality_driven_route_replacement() {
    // An update with a significantly better route makes it primary.
    let mut table = RoutingTable::default();
    table.update(9, Route::with_quality(uid(10), 1, 80, 0), 0);
    let route = table.lookup_route(9, 1).expect("first route");
    assert_eq!(route.next_hop.get(), 10);

    table.update(9, Route::with_quality(uid(11), 1, 140, 2), 2);
    let route = table.lookup_route(9, 3).expect("replacement route");
    assert_eq!(route.next_hop.get(), 11);
    assert_eq!(route.quality, 140);
}

#[test]
fn full_entry_displaces_worst_only_for_better_quality() {
    // With the per-destination capacity filled, a third alternate must
    // beat the worst quality to enter; otherwise it is ignored.
    let mut table = RoutingTable::default();
    table.update(9, Route::with_quality(uid(10), 1, 80, 0), 0);
    table.update(9, Route::with_quality(uid(11), 1, 60, 0), 0);

    // Not better than the worst (60): ignored.
    table.update(9, Route::with_quality(uid(12), 1, 50, 1), 1);
    let route = table.lookup_route(9, 2).expect("primary");
    assert_eq!(route.next_hop.get(), 10);

    // Better than the worst: displaces it and may become primary.
    table.update(9, Route::with_quality(uid(13), 1, 200, 3), 3);
    let route = table.lookup_route(9, 4).expect("primary after displace");
    assert_eq!(route.next_hop.get(), 13);
}

#[test]
fn lru_eviction_drops_oldest_destination() {
    // Filling the table and adding one more destination evicts the
    // entry with the oldest last-used time.
    let mut table = RoutingTable::default();
    for d in 0..MAX_ROUTES as u8 {
        let dest = d + 3;
        table.update(dest, Route::with_quality(uid(100), 1, 50, d as u64), d as u64);
    }
    // Destination 3 is the least recently used.
    table.update(200, Route::with_quality(uid(101), 1, 50, 1_000), 1_000);
    assert!(table.lookup_route(3, 1_001).is_none());
    assert!(table.lookup_route(4, 1_001).is_some());
    assert!(table.lookup_route(200, 1_001).is_some());
}

#[test]
fn cleanup_keeps_only_active_unexpired_routes() {
    let mut table = RoutingTable::default();
    // A fresh route and a stale one (routes expire after 300 s).
    table.update(5, Route::with_quality(uid(10), 1, 80, 0), 0);
    table.update(6, Route::with_quality(uid(11), 1, 80, 400_000), 400_000);
    table.cleanup(400_000);

    // The stale route for 5 is gone together with its entry.
    assert!(table.lookup_route(5, 400_001).is_none());
    assert!(table.lookup_route(6, 400_001).is_some());

    let stats = table.stats(400_001);
    assert_eq!(stats.total_entries, 1);
    assert_eq!(stats.active_routes, 1);
    assert_eq!(stats.expired_routes, 0);
}

#[test]
fn failed_deliveries_degrade_and_deactivate_routes() {
    let mut table = RoutingTable::default();
    table.update_link_quality(10, -120, -10, 0);
    table.update(5, Route::new(uid(10), 1, 0), 0);
    let before = table.lookup_route(5, 1).expect("route").quality;
    assert!(before > 0);

    // Repeated failures drag the quality under the threshold and
    // deactivate the route; lookup falls back to the stale primary.
    for i in 0..10 {
        table.record_failed_delivery(10, 10 + i);
    }
    let route = table.lookup_route(5, 100).expect("stale hint");
    assert!(route.quality < 50);
    assert!(!route.is_active);
}

#[test]
fn needs_refresh_on_missing_or_mediocre_routes() {
    let mut table = RoutingTable::default();
    assert!(table.needs_refresh(9, 0));

    // A fresh route of mediocre quality still wants a refresh.
    table.update(9, Route::with_quality(uid(10), 1, 80, 0), 0);
    assert!(table.needs_refresh(9, 1));

    // A fresh route of good quality does not.
    table.update(9, Route::with_quality(uid(10), 1, 150, 2), 2);
    assert!(!table.needs_refresh(9, 3));

    // An expired route wants a refresh again.
    assert!(table.needs_refresh(9, 400_000));
}

#[test]
fn pending_table_insert_is_idempotent_and_bounded() {
    let mut table = PendingAckTable::new();
    let payload = Payload::Data(DataType::new_text("p"));
    assert!(table.insert_if_absent(1, &payload, Some(uid(2)), 3, 0));
    assert!(table.insert_if_absent(1, &payload, Some(uid(2)), 3, 50));
    assert_eq!(table.len(), 1);

    for id in 2..20u32 {
        table.insert_if_absent(id, &payload, None, 3, 0);
    }
    assert_eq!(table.len(), quadranet::device::pending_ack::MAX_PENDING_ACKS);
}

#[test]
fn pending_table_sweeps_only_acknowledged_entries() {
    let mut table = PendingAckTable::new();
    let payload = Payload::Data(DataType::new_text("p"));
    table.insert_if_absent(1, &payload, None, 3, 0);
    table.insert_if_absent(2, &payload, None, 3, 0);
    assert!(table.mark_acked(1));
    assert!(!table.mark_acked(99));
    table.retain_unacked();
    assert!(!table.contains(1));
    assert!(table.contains(2));
}

#[test]
fn bounded_queue_is_fifo_and_bounded() {
    let mut queue = BoundedQueue::new(2);
    assert!(queue.is_empty());
    assert_eq!(queue.enqueue(plain_message(1)), Ok(()));
    assert_eq!(queue.enqueue(plain_message(2)), Ok(()));
    assert_eq!(queue.enqueue(plain_message(3)), Err(CollectionError::Full));
    assert_eq!(queue.len(), 2);
    assert_eq!(queue.dequeue().unwrap().message_id(), 1);
    assert_eq!(queue.dequeue().unwrap().message_id(), 2);
    assert_eq!(queue.dequeue(), Err(CollectionError::Empty));
}

#[test]
fn identical_route_update_only_refreshes_timestamp() {
    // Re-announcing the same (next_hop, hop_count, quality) tuple keeps
    // the route and the primary choice; only timestamps move.
    let mut table = RoutingTable::default();
    table.update(9, Route::with_quality(uid(10), 2, 80, 0), 0);
    let before = table.lookup_route(9, 1).expect("route");

    table.update(9, Route::with_quality(uid(10), 2, 80, 5_000), 5_000);
    let after = table.lookup_route(9, 5_001).expect("route");
    assert_eq!(after.next_hop, before.next_hop);
    assert_eq!(after.hop_count, before.hop_count);
    assert_eq!(after.quality, before.quality);
    assert_eq!(after.is_active, before.is_active);
    assert!(after.last_updated > before.last_updated);
}

#[test]
fn retry_scan_counts_attempts_and_gives_up() {
    // The scan retries an entry only after its backoff elapses, never
    // counts past the attempt budget, and marks exhausted entries for
    // the sweep.
    let mut table = PendingAckTable::new();
    let payload = Payload::Data(DataType::new_text("p"));
    table.insert_if_absent(1, &payload, Some(uid(4)), 3, 0);

    // Backoff not yet elapsed: nothing to do.
    let (retry, fail) = table.scan_for_retry(400);
    assert!(retry.is_empty() && fail.is_empty());

    // 500 ms elapsed: first retry.
    let (retry, fail) = table.scan_for_retry(600);
    assert_eq!(retry, vec![1]);
    assert!(fail.is_empty());
    assert_eq!(table.get(1).unwrap().attempts, 1);

    let (retry, _) = table.scan_for_retry(1_700);
    assert_eq!(retry, vec![1]);
    let (retry, _) = table.scan_for_retry(3_800);
    assert_eq!(retry, vec![1]);
    let attempts = table.get(1).unwrap().attempts;
    assert_eq!(attempts, quadranet::device::pending_ack::MAX_ACK_ATTEMPTS);

    // Budget exhausted: the next elapsed window gives the message up.
    let (retry, fail) = table.scan_for_retry(9_000);
    assert!(retry.is_empty());
    assert_eq!(fail.len(), 1);
    assert_eq!(fail[0].map(|u| u.get()), Some(4));
    assert!(table.get(1).unwrap().is_acknowledged);
    table.retain_unacked();
    assert!(!table.contains(1));
}

#[test]
fn content_blocks_round_trip() {
    let bytes = vec![9u8; DataContent::size()];
    let block = DataContent::from_bytes(&bytes);
    assert_eq!(block.as_bytes(), bytes);
    assert_eq!(PingContent::size(), 0);
    assert!(PingContent::from_bytes(&[]).as_bytes().is_empty());
}

#[test]
fn out_stack_is_lifo() {
    let mut stack = OutStack::new();
    stack.push(plain_message(1));
    stack.push(plain_message(2));
    assert_eq!(stack.pop().unwrap().message_id(), 2);
    assert_eq!(stack.pop().unwrap().message_id(), 1);
    assert!(stack.pop().is_none());
}
