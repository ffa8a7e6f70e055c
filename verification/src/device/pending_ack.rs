//! Tracking of messages that await an acknowledgement, with
//! exponential-backoff retransmission.

use vstd::prelude::*;

use crate::device::spec_backoff;
use crate::device::Uid;
use crate::message::payload::Payload;
use crate::message::payload::PayloadModel;

verus! {

/// Capacity of the pending-acknowledgement table.
pub const MAX_PENDING_ACKS: usize = 8;

/// Seconds an acknowledgement is waited for, for reporting purposes.
pub const ACK_WAIT_TIME: u64 = 5;

/// Transmission attempts before a message is given up.
pub const MAX_ACK_ATTEMPTS: u8 = 3;

/// Bookkeeping for one message that awaits an acknowledgement: when it was
/// last sent, how often, whether it was acknowledged, and what is needed
/// to rebuild it for a retry.
#[derive(Debug, PartialEq, Eq)]
pub struct PendingAck {
    /// When the message was last transmitted (ms).
    pub timestamp: u64,
    /// Number of transmission attempts already made.
    pub attempts: u8,
    /// Whether an acknowledgement has been received.
    pub is_acknowledged: bool,
    payload: Payload,
    destination_uid: Option<Uid>,
    ttl: u8,
}

/// The mathematical value of a pending-acknowledgement entry.
#[verifier::ext_equal]
pub struct PendingAckModel {
    pub timestamp: u64,
    pub attempts: u8,
    pub is_acknowledged: bool,
    pub payload: PayloadModel,
    pub destination_uid: Option<Uid>,
    pub ttl: u8,
}

impl View for PendingAck {
    type V = PendingAckModel;

    closed spec fn view(&self) -> PendingAckModel {
        PendingAckModel {
            timestamp: self.timestamp,
            attempts: self.attempts,
            is_acknowledged: self.is_acknowledged,
            payload: self.payload@,
            destination_uid: self.destination_uid,
            ttl: self.ttl,
        }
    }
}

impl PendingAck {
    #[verifier::type_invariant]
    spec fn type_inv(self) -> bool {
        self.attempts <= MAX_ACK_ATTEMPTS
    }

    /// A fresh tracker for a message first transmitted now.
    pub fn new(payload: Payload, destination_uid: Option<Uid>, ttl: u8, now_ms: u64) -> (r:
        PendingAck)
        ensures
            r@ == (PendingAckModel {
                timestamp: now_ms,
                attempts: 0u8,
                is_acknowledged: false,
                payload: payload@,
                destination_uid,
                ttl,
            }),
    {
        PendingAck {
            timestamp: now_ms,
            attempts: 0,
            is_acknowledged: false,
            payload,
            destination_uid,
            ttl,
        }
    }

    /// The stored payload, for rebuilding a retry.
    pub fn payload(&self) -> (r: &Payload)
        ensures
            (*r)@ == self@.payload,
    {
        &self.payload
    }

    /// The stored destination.
    pub fn destination_uid(&self) -> (r: Option<Uid>)
        ensures
            r == self@.destination_uid,
    {
        self.destination_uid
    }

    /// The stored hop budget.
    pub fn ttl(&self) -> (r: u8)
        ensures
            r == self@.ttl,
    {
        self.ttl
    }

    /// Counts one more transmission attempt.
    pub fn increment_attempts(&mut self)
        requires
            old(self)@.attempts < MAX_ACK_ATTEMPTS,
        ensures
            final(self)@ == (PendingAckModel {
                attempts: (old(self)@.attempts + 1) as u8,
                ..old(self)@
            }),
    {
        self.attempts = self.attempts + 1;
    }

    /// Marks the entry acknowledged; retries stop.
    pub fn acknowledge(&mut self)
        ensures
            final(self)@ == (PendingAckModel { is_acknowledged: true, ..old(self)@ }),
    {
        proof {
            use_type_invariant(&*self);
        }
        self.is_acknowledged = true;
    }

    /// Re-stamps the last-transmission time.
    pub fn update_timestamp(&mut self, now_ms: u64)
        ensures
            final(self)@ == (PendingAckModel { timestamp: now_ms, ..old(self)@ }),
    {
        proof {
            use_type_invariant(&*self);
        }
        self.timestamp = now_ms;
    }

    /// Whether the attempt budget is used up.
    pub fn is_max_attempts(&self) -> (r: bool)
        ensures
            r == (self@.attempts >= MAX_ACK_ATTEMPTS),
    {
        self.attempts >= MAX_ACK_ATTEMPTS
    }
}

/// Whether some entry tracks a discovery addressed to `destination`.
pub open spec fn spec_discovery_in_progress(
    s: Seq<(u32, PendingAckModel)>,
    destination: u8,
) -> bool {
    exists|i: int|
        0 <= i < s.len() && (#[trigger] s[i]).1.payload is Discovery && (
        s[i].1.destination_uid matches Some(d) && d@ == destination)
}

/// Whether an id is present in a table value.
pub open spec fn spec_contains_id(s: Seq<(u32, PendingAckModel)>, id: u32) -> bool {
    exists|i: int| 0 <= i < s.len() && (#[trigger] s[i]).0 == id
}

/// Whether the backoff delay of an entry has elapsed at `now_ms`.
pub open spec fn spec_elapsed(a: PendingAckModel, now_ms: u64) -> bool {
    (if now_ms >= a.timestamp {
        now_ms - a.timestamp
    } else {
        0
    }) > spec_backoff(a.attempts)
}

/// An unacknowledged entry whose backoff elapsed and that still has
/// attempts left: due for a retry.
pub open spec fn spec_retry_due(e: (u32, PendingAckModel), now_ms: u64) -> bool {
    !e.1.is_acknowledged && spec_elapsed(e.1, now_ms) && e.1.attempts < MAX_ACK_ATTEMPTS
}

/// An unacknowledged entry whose backoff elapsed with no attempts left:
/// the message is given up.
pub open spec fn spec_fail_due(e: (u32, PendingAckModel), now_ms: u64) -> bool {
    !e.1.is_acknowledged && spec_elapsed(e.1, now_ms) && e.1.attempts >= MAX_ACK_ATTEMPTS
}

/// How one scan pass transforms an entry: a due retry re-stamps the clock
/// and counts an attempt; a given-up entry is marked acknowledged so the
/// sweep may remove it; everything else is untouched.
pub open spec fn spec_scan_entry(e: (u32, PendingAckModel), now_ms: u64) -> (u32, PendingAckModel) {
    if spec_retry_due(e, now_ms) {
        (e.0, PendingAckModel { timestamp: now_ms, attempts: (e.1.attempts + 1) as u8, ..e.1 })
    } else if spec_fail_due(e, now_ms) {
        (e.0, PendingAckModel { is_acknowledged: true, ..e.1 })
    } else {
        e
    }
}

/// The pending-acknowledgement table: at most `MAX_PENDING_ACKS` entries,
/// keyed by message id, in insertion order.
#[derive(Debug)]
pub struct PendingAckTable {
    entries: Vec<(u32, PendingAck)>,
}

impl View for PendingAckTable {
    type V = Seq<(u32, PendingAckModel)>;

    closed spec fn view(&self) -> Seq<(u32, PendingAckModel)> {
        self.entries@.map_values(|e: (u32, PendingAck)| (e.0, e.1@))
    }
}

impl PendingAckTable {
    #[verifier::type_invariant]
    spec fn type_inv(self) -> bool {
        &&& self.entries@.len() <= MAX_PENDING_ACKS
        &&& forall|i: int, j: int|
            0 <= i < j < self.entries@.len() ==> (#[trigger] self.entries@[i]).0 != (
            #[trigger] self.entries@[j]).0
    }

    /// An empty table.
    pub fn new() -> (r: PendingAckTable)
        ensures
            r@ == Seq::<(u32, PendingAckModel)>::empty(),
    {
        let r = PendingAckTable { entries: Vec::new() };
        proof {
            assert(r@ =~= Seq::<(u32, PendingAckModel)>::empty());
        }
        r
    }

    /// Number of tracked messages; never more than `MAX_PENDING_ACKS`.
    pub fn len(&self) -> (r: usize)
        ensures
            r == self@.len(),
            r <= MAX_PENDING_ACKS,
    {
        proof {
            use_type_invariant(&*self);
        }
        self.entries.len()
    }

    /// Whether nothing is tracked.
    pub fn is_empty(&self) -> (r: bool)
        ensures
            r == (self@.len() == 0),
    {
        self.entries.len() == 0
    }

    /// Whether a message id is tracked.
    pub fn contains(&self, id: u32) -> (r: bool)
        ensures
            r == spec_contains_id(self@, id),
    {
        let mut i: usize = 0;
        while i < self.entries.len()
            invariant
                i <= self@.len(),
                self@.len() == self.entries@.len(),
                forall|k: int| 0 <= k < i ==> (#[trigger] self@[k]).0 != id,
            decreases self@.len() - i,
        {
            if self.entries[i].0 == id {
                proof {
                    assert(self@[i as int].0 == id);
                }
                return true;
            }
            i = i + 1;
        }
        false
    }

    /// The entry tracked under a message id, if any.
    pub fn get(&self, id: u32) -> (r: Option<&PendingAck>)
        ensures
            (r is Some) == spec_contains_id(self@, id),
            (r matches Some(p) ==> forall|i: int|
                0 <= i < self@.len() && (#[trigger] self@[i]).0 == id ==> self@[i].1 == p@),
    {
        let mut i: usize = 0;
        while i < self.entries.len()
            invariant
                i <= self@.len(),
                self@.len() == self.entries@.len(),
                forall|k: int| 0 <= k < i ==> (#[trigger] self@[k]).0 != id,
            decreases self@.len() - i,
        {
            if self.entries[i].0 == id {
                proof {
                    use_type_invariant(self);
                    assert(self@[i as int].0 == id);
                }
                return Some(&self.entries[i].1);
            }
            i = i + 1;
        }
        None
    }

    /// Starts tracking a message unless its id is already tracked (the
    /// insert is idempotent) or the table is full.  Returns whether the id
    /// is tracked after the call.
    pub fn insert_if_absent(
        &mut self,
        id: u32,
        payload: &Payload,
        destination_uid: Option<Uid>,
        ttl: u8,
        now_ms: u64,
    ) -> (r: bool)
        ensures
            spec_contains_id(old(self)@, id) ==> (final(self)@ == old(self)@ && r),
            (!spec_contains_id(old(self)@, id) && old(self)@.len() < MAX_PENDING_ACKS) ==> (
            final(self)@ == old(self)@.push(
                (
                    id,
                    PendingAckModel {
                        timestamp: now_ms,
                        attempts: 0u8,
                        is_acknowledged: false,
                        payload: payload@,
                        destination_uid,
                        ttl,
                    },
                ),
            ) && r),
            (!spec_contains_id(old(self)@, id) && old(self)@.len() >= MAX_PENDING_ACKS) ==> (
            final(self)@ == old(self)@ && !r),
            final(self)@.len() <= MAX_PENDING_ACKS,
    {
        proof {
            use_type_invariant(&*self);
        }
        if self.contains(id) {
            return true;
        }
        if self.entries.len() >= MAX_PENDING_ACKS {
            return false;
        }
        let ack = PendingAck::new(payload.duplicate(), destination_uid, ttl, now_ms);
        let mut entries: Vec<(u32, PendingAck)> = Vec::new();
        std::mem::swap(&mut entries, &mut self.entries);
        let ghost pre = entries@;
        entries.push((id, ack));
        proof {
            assert forall|k: int| 0 <= k < pre.len() implies (#[trigger] pre[k]).0 != id by {
                assert(old(self)@[k] == (pre[k].0, pre[k].1@));
            }
        }
        self.entries = entries;
        proof {
            assert(self@ =~= old(self)@.push((id, self.entries@.last().1@)));
        }
        true
    }

    /// Whether a discovery towards `destination` is already tracked: some
    /// entry holds a discovery payload addressed to that destination.
    pub fn discovery_in_progress(&self, destination: u8) -> (r: bool)
        ensures
            r == spec_discovery_in_progress(self@, destination),
    {
        let mut i: usize = 0;
        while i < self.entries.len()
            invariant
                i <= self@.len(),
                self@.len() == self.entries@.len(),
                forall|k: int|
                    0 <= k < i ==> !((#[trigger] self@[k]).1.payload is Discovery
                        && (self@[k].1.destination_uid matches Some(d) && d@ == destination)),
            decreases self@.len() - i,
        {
            let entry = &self.entries[i].1;
            let is_discovery = match entry.payload() {
                Payload::Discovery(_) => true,
                _ => false,
            };
            if is_discovery {
                match entry.destination_uid() {
                    Some(d) => {
                        if d.get() == destination {
                            proof {
                                assert((#[trigger] self@[i as int]).1.payload is Discovery
                                    && (self@[i as int].1.destination_uid matches Some(dd) && dd@
                                    == destination));
                            }
                            return true;
                        }
                    },
                    None => (),
                }
            }
            i = i + 1;
        }
        false
    }

    /// Marks the entry with this id acknowledged, if it is tracked.
    pub fn mark_acked(&mut self, id: u32) -> (r: bool)
        ensures
            r == spec_contains_id(old(self)@, id),
            final(self)@.len() == old(self)@.len(),
            forall|i: int|
                0 <= i < old(self)@.len() ==> final(self)@[i] == (if (
                #[trigger] old(self)@[i]).0 == id {
                    (id, PendingAckModel { is_acknowledged: true, ..old(self)@[i].1 })
                } else {
                    old(self)@[i]
                }),
    {
        proof {
            use_type_invariant(&*self);
        }
        let ghost old_view = self@;
        let mut entries: Vec<(u32, PendingAck)> = Vec::new();
        std::mem::swap(&mut entries, &mut self.entries);
        let ghost all = entries@;
        let mut i: usize = 0;
        let mut found = false;
        while i < entries.len()
            invariant
                i <= entries@.len(),
                entries@.len() == all.len(),
                old_view == all.map_values(|e: (u32, PendingAck)| (e.0, e.1@)),
                all.len() <= MAX_PENDING_ACKS,
                forall|m: int, n: int|
                    0 <= m < n < all.len() ==> (#[trigger] all[m]).0 != (#[trigger] all[n]).0,
                forall|k: int|
                    0 <= k < all.len() ==> (#[trigger] entries@[k]).0 == all[k].0,
                forall|k: int|
                    0 <= k < all.len() ==> (#[trigger] entries@[k].1)@ == (if all[k].0 == id && k
                        < i {
                        PendingAckModel { is_acknowledged: true, ..old_view[k].1 }
                    } else {
                        old_view[k].1
                    }),
                found == (exists|k: int| 0 <= k < i && (#[trigger] all[k]).0 == id),
            decreases entries@.len() - i,
        {
            if entries[i].0 == id {
                let ghost pre = entries@;
                let (eid, mut ack) = entries.remove(i);
                ack.acknowledge();
                entries.insert(i, (eid, ack));
                found = true;
                proof {
                    assert(entries@ =~= pre.update(i as int, entries@[i as int]));
                }
            }
            i = i + 1;
        }
        proof {
            assert(forall|m: int, n: int|
                0 <= m < n < entries@.len() ==> (#[trigger] entries@[m]).0 != (
                #[trigger] entries@[n]).0);
            if found {
                let k = choose|k: int| 0 <= k < all.len() && (#[trigger] all[k]).0 == id;
                assert(old_view[k].0 == id);
            }
        }
        self.entries = entries;
        found
    }

    /// Scans the table: every unacknowledged entry whose backoff has
    /// elapsed either becomes due for a retry (attempts left) or is given
    /// up (marked acknowledged, destination reported back).  Returns the
    /// ids to retry and the destinations of given-up messages, in table
    /// order.
    pub fn scan_for_retry(&mut self, now_ms: u64) -> (r: (Vec<u32>, Vec<Option<Uid>>))
        ensures
            final(self)@.len() == old(self)@.len(),
            forall|i: int|
                0 <= i < old(self)@.len() ==> final(self)@[i] == spec_scan_entry(
                    #[trigger] old(self)@[i],
                    now_ms,
                ),
            r.0@ == old(self)@.filter(|e: (u32, PendingAckModel)| spec_retry_due(e, now_ms))
                .map_values(|e: (u32, PendingAckModel)| e.0),
            r.1@ == old(self)@.filter(|e: (u32, PendingAckModel)| spec_fail_due(e, now_ms))
                .map_values(|e: (u32, PendingAckModel)| e.1.destination_uid),
    {
        proof {
            use_type_invariant(&*self);
        }
        let ghost old_view = self@;
        let ghost retry_pred = |e: (u32, PendingAckModel)| spec_retry_due(e, now_ms);
        let ghost fail_pred = |e: (u32, PendingAckModel)| spec_fail_due(e, now_ms);
        let mut to_retry: Vec<u32> = Vec::new();
        let mut to_fail: Vec<Option<Uid>> = Vec::new();
        let mut remaining: Vec<(u32, PendingAck)> = Vec::new();
        std::mem::swap(&mut remaining, &mut self.entries);
        let ghost all = remaining@;
        let mut processed: Vec<(u32, PendingAck)> = Vec::new();
        proof {
            reveal(Seq::filter);
            assert(old_view.take(0) =~= Seq::<(u32, PendingAckModel)>::empty());
            assert(to_retry@ =~= old_view.take(0).filter(retry_pred).map_values(
                |e: (u32, PendingAckModel)| e.0,
            ));
            assert(to_fail@ =~= old_view.take(0).filter(fail_pred).map_values(
                |e: (u32, PendingAckModel)| e.1.destination_uid,
            ));
        }
        while processed.len() < remaining.len()
            invariant
                retry_pred == (|e: (u32, PendingAckModel)| spec_retry_due(e, now_ms)),
                fail_pred == (|e: (u32, PendingAckModel)| spec_fail_due(e, now_ms)),
                processed@.len() <= remaining@.len(),
                remaining@ == all,
                old_view == all.map_values(|e: (u32, PendingAck)| (e.0, e.1@)),
                old_view.len() == all.len(),
                all.len() <= MAX_PENDING_ACKS,
                forall|m: int, n: int|
                    0 <= m < n < old_view.len() ==> (#[trigger] old_view[m]).0 != (
                    #[trigger] old_view[n]).0,
                forall|i: int|
                    0 <= i < processed@.len() ==> (#[trigger] processed@[i].1)@
                        == spec_scan_entry(old_view[i], now_ms).1,
                forall|i: int|
                    0 <= i < processed@.len() ==> (#[trigger] processed@[i]).0 == old_view[i].0,
                to_retry@ == old_view.take(processed@.len() as int).filter(retry_pred).map_values(
                    |e: (u32, PendingAckModel)| e.0,
                ),
                to_fail@ == old_view.take(processed@.len() as int).filter(fail_pred).map_values(
                    |e: (u32, PendingAckModel)| e.1.destination_uid,
                ),
            decreases remaining@.len() - processed@.len(),
        {
            let idx = processed.len();
            let ghost to_retry_head = to_retry@;
            let ghost to_fail_head = to_fail@;
            let (id, ack) = duplicate_entry(&remaining[idx]);
            let mut ack = ack;
            let elapsed: u64 = if now_ms >= ack.timestamp {
                now_ms - ack.timestamp
            } else {
                0
            };
            let backoff = crate::device::calculate_backoff(ack.attempts);
            proof {
                use_type_invariant(&ack);
                assert(old_view[idx as int] == (id, ack@));
                assert(spec_retry_due(old_view[idx as int], now_ms) == (!ack.is_acknowledged
                    && elapsed > backoff && ack.attempts < MAX_ACK_ATTEMPTS));
                assert(spec_fail_due(old_view[idx as int], now_ms) == (!ack.is_acknowledged
                    && elapsed > backoff && ack.attempts >= MAX_ACK_ATTEMPTS));
            }
            if !ack.is_acknowledged && elapsed > backoff {
                if ack.attempts < MAX_ACK_ATTEMPTS {
                    ack.increment_attempts();
                    ack.update_timestamp(now_ms);
                    to_retry.push(id);
                } else {
                    ack.acknowledge();
                    to_fail.push(ack.destination_uid());
                }
            }
            processed.push((id, ack));
            proof {
                broadcast use Seq::lemma_push_map_commute;

                let k = processed@.len() as int;
                let x = old_view[k - 1];
                old_view.lemma_take_succ_push(k - 1);
                assert(old_view.take(k) == old_view.take(k - 1).push(x));
                old_view.take(k - 1).lemma_filter_push(x, retry_pred);
                old_view.take(k - 1).lemma_filter_push(x, fail_pred);
                assert(old_view.take(k).filter(retry_pred) == (if retry_pred(x) {
                    old_view.take(k - 1).filter(retry_pred).push(x)
                } else {
                    old_view.take(k - 1).filter(retry_pred)
                }));
                assert(k - 1 == idx as int);
                assert(x == old_view[idx as int]);
                assert(retry_pred(x) == spec_retry_due(x, now_ms));
                if retry_pred(x) {
                    assert(to_retry@ == to_retry_head.push(x.0));
                    assert(to_retry_head == old_view.take(k - 1).filter(retry_pred).map_values(
                        |e: (u32, PendingAckModel)| e.0,
                    ));
                } else {
                    assert(to_retry@ == to_retry_head);
                    assert(to_retry_head == old_view.take(k - 1).filter(retry_pred).map_values(
                        |e: (u32, PendingAckModel)| e.0,
                    ));
                }
                assert(to_retry@ =~= old_view.take(k).filter(retry_pred).map_values(
                    |e: (u32, PendingAckModel)| e.0,
                ));
                assert(to_fail@ =~= old_view.take(k).filter(fail_pred).map_values(
                    |e: (u32, PendingAckModel)| e.1.destination_uid,
                ));
            }
        }
        proof {
            assert(forall|m: int, n: int|
                0 <= m < n < processed@.len() ==> (#[trigger] processed@[m]).0 != (
                #[trigger] processed@[n]).0);
        }
        self.entries = processed;
        proof {
            assert(old_view.take(old_view.len() as int) =~= old_view);
            assert(forall|i: int|
                0 <= i < old_view.len() ==> final(self)@[i] == spec_scan_entry(
                    #[trigger] old_view[i],
                    now_ms,
                ));
        }
        (to_retry, to_fail)
    }

    /// Sweeps out every acknowledged entry.  An entry leaves the table
    /// only through this sweep, and only once marked acknowledged.
    pub fn retain_unacked(&mut self)
        ensures
            final(self)@ == old(self)@.filter(|e: (u32, PendingAckModel)| !e.1.is_acknowledged),
    {
        proof {
            use_type_invariant(&*self);
        }
        let ghost old_view = self@;
        let ghost keep_pred = |e: (u32, PendingAckModel)| !e.1.is_acknowledged;
        let mut remaining: Vec<(u32, PendingAck)> = Vec::new();
        std::mem::swap(&mut remaining, &mut self.entries);
        let ghost all = remaining@;
        let mut kept: Vec<(u32, PendingAck)> = Vec::new();
        let mut i: usize = 0;
        proof {
            reveal(Seq::filter);
            assert(old_view.take(0) =~= Seq::<(u32, PendingAckModel)>::empty());
            assert(kept@.map_values(|e: (u32, PendingAck)| (e.0, e.1@)) =~= old_view.take(
                0,
            ).filter(keep_pred));
        }
        while i < remaining.len()
            invariant
                keep_pred == (|e: (u32, PendingAckModel)| !e.1.is_acknowledged),
                i <= remaining@.len(),
                remaining@ == all,
                old_view == all.map_values(|e: (u32, PendingAck)| (e.0, e.1@)),
                old_view.len() == all.len(),
                all.len() <= MAX_PENDING_ACKS,
                kept@.map_values(|e: (u32, PendingAck)| (e.0, e.1@)) == old_view.take(
                    i as int,
                ).filter(keep_pred),
                forall|m: int, n: int|
                    0 <= m < n < all.len() ==> (#[trigger] all[m]).0 != (#[trigger] all[n]).0,
                forall|k: int|
                    0 <= k < kept@.len() ==> exists|j: int|
                        0 <= j < i && (#[trigger] kept@[k]).0 == all[j].0,
                forall|m: int, n: int|
                    0 <= m < n < kept@.len() ==> (#[trigger] kept@[m]).0 != (
                    #[trigger] kept@[n]).0,
                kept@.len() <= i,
            decreases remaining@.len() - i,
        {
            let keep = !remaining[i].1.is_acknowledged;
            if keep {
                let e = duplicate_entry(&remaining[i]);
                kept.push(e);
            }
            proof {
                let k = (i + 1) as int;
                old_view.lemma_take_succ_push(k - 1);
                old_view.take(k - 1).lemma_filter_push(old_view[k - 1], keep_pred);
                assert(kept@.map_values(|e: (u32, PendingAck)| (e.0, e.1@)) =~= old_view.take(
                    k,
                ).filter(keep_pred));
                if keep {
                    assert(forall|kk: int|
                        0 <= kk < kept@.len() - 1 ==> (#[trigger] kept@[kk]).0 != kept@[kept@.len()
                            - 1].0);
                }
            }
            i = i + 1;
        }
        proof {
            assert(old_view.take(old_view.len() as int) =~= old_view);
            old_view.lemma_filter_len(keep_pred);
        }
        self.entries = kept;
    }
}

/// An equal copy of a table entry (equal at the model level).
fn duplicate_entry(e: &(u32, PendingAck)) -> (r: (u32, PendingAck))
    ensures
        r.0 == e.0,
        r.1@ == e.1@,
{
    proof {
        use_type_invariant(&e.1);
    }
    (
        e.0,
        PendingAck {
            timestamp: e.1.timestamp,
            attempts: e.1.attempts,
            is_acknowledged: e.1.is_acknowledged,
            payload: e.1.payload.duplicate(),
            destination_uid: e.1.destination_uid,
            ttl: e.1.ttl,
        },
    )
}

/// No pass of the retry scan pushes an entry past the attempt budget: an
/// entry within `MAX_ACK_ATTEMPTS` stays within it.
pub proof fn lemma_scan_respects_attempt_budget(e: (u32, PendingAckModel), now_ms: u64)
    requires
        e.1.attempts <= MAX_ACK_ATTEMPTS,
    ensures
        spec_scan_entry(e, now_ms).1.attempts <= MAX_ACK_ATTEMPTS,
{
}

/// An entry leaves the table only after being marked acknowledged: any id
/// present before the sweep and absent after it belonged to an
/// acknowledged entry.
pub proof fn lemma_removed_only_acknowledged(s: Seq<(u32, PendingAckModel)>, i: int)
    requires
        0 <= i < s.len(),
        !spec_contains_id(s.filter(|e: (u32, PendingAckModel)| !e.1.is_acknowledged), s[i].0),
    ensures
        s[i].1.is_acknowledged,
{
    let pred = |e: (u32, PendingAckModel)| !e.1.is_acknowledged;
    if !s[i].1.is_acknowledged {
        s.lemma_filter_contains(pred, i);
        let f = s.filter(pred);
        assert(f.contains(s[i]));
        let j = choose|j: int| 0 <= j < f.len() && f[j] == s[i];
        assert(f[j].0 == s[i].0);
        assert(spec_contains_id(f, s[i].0));
    }
}

} // verus!
