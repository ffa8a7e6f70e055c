//! Node identity, device state, and the signal-quality / backoff helpers
//! used by the mesh engine.

use vstd::prelude::*;

use crate::message::payload::AckType;
use crate::message::payload::Payload;
use crate::message::payload::PayloadModel;
use crate::message::Message;
use crate::message::MessageModel;
use crate::route::routing_table::spec_after_lookup;
use crate::route::routing_table::spec_after_record_success;
use crate::route::routing_table::spec_after_update;
use crate::route::routing_table::spec_after_update_link_quality;
use crate::route::routing_table::spec_lookup_result;
use crate::route::routing_table::RoutingTable;
use crate::route::routing_table::RoutingTableModel;
use crate::route::Route;
use crate::route::RoutingStats;

pub mod collections;
pub mod config;
pub mod device_error;
pub mod pending_ack;

verus! {

/// Queue capacities and per-iteration processing bounds.
pub const INQUEUE_SIZE: usize = 8;
pub const OUTQUEUE_SIZE: usize = 8;
pub const MAX_INQUEUE_PROCESS: usize = 4;
pub const MAX_OUTQUEUE_TRANSMIT: usize = 4;

/// Retransmission backoff: `INITIAL_BACKOFF_MS * 2^attempts`, capped at
/// `MAX_BACKOFF_MS`.
pub const INITIAL_BACKOFF_MS: u64 = 500;
pub const BACKOFF_FACTOR: u64 = 2;
pub const MAX_BACKOFF_MS: u64 = 5000;

/// A node identifier: an 8-bit value that is never zero.  Zero on the wire
/// encodes "absent" (broadcast) in a destination field.
#[derive(Clone, Copy, Debug, PartialEq, Eq, Structural, Hash)]
pub struct Uid {
    value: u8,
}

impl View for Uid {
    type V = u8;

    closed spec fn view(&self) -> u8 {
        self.value
    }
}

impl Uid {
    #[verifier::type_invariant]
    spec fn type_inv(self) -> bool {
        self.value != 0
    }

    /// Builds a `Uid` from a raw byte; zero is not an identifier.
    pub fn new(value: u8) -> (r: Option<Uid>)
        ensures
            value != 0 ==> (r matches Some(u) && u@ == value),
            value == 0 ==> r is None,
    {
        if value == 0 {
            None
        } else {
            Some(Uid { value })
        }
    }

    /// Same as [`Uid::new`]; named for callers converting from a raw byte.
    pub fn try_from(value: u8) -> (r: Option<Uid>)
        ensures
            value != 0 ==> (r matches Some(u) && u@ == value),
            value == 0 ==> r is None,
    {
        Uid::new(value)
    }

    /// The raw byte value; never zero.
    pub fn get(&self) -> (r: u8)
        ensures
            r == self@,
            r != 0,
    {
        proof {
            use_type_invariant(self);
        }
        self.value
    }
}

/// The identifier holding a given raw byte; meaningful for non-zero
/// bytes, where it is the value [`Uid::new`] returns.
pub closed spec fn spec_uid_from_byte(value: u8) -> Uid {
    Uid { value }
}

/// The raw byte of `spec_uid_from_byte` is the byte it was built from.
pub proof fn lemma_uid_from_byte(value: u8)
    ensures
        spec_uid_from_byte(value)@ == value,
{
}

/// Rebuilding an identifier from its raw byte yields the identifier.
pub proof fn lemma_uid_byte_round_trip(u: Uid)
    ensures
        spec_uid_from_byte(u@) == u,
{
}

/// Received-signal metadata captured alongside a frame.
#[derive(Clone, Copy, Debug, PartialEq, Eq, Structural)]
pub struct RxInfo {
    pub rssi: i16,
    pub snr: i16,
}

/// The radio-facing state of the device.
#[derive(Clone, Copy, Debug, PartialEq, Eq, Structural)]
pub enum DeviceState {
    Idle,
    Transmitting,
    Receiving,
}

/// Clamps a mathematical integer into the byte range.
pub open spec fn clamp_byte(v: int) -> int {
    if v < 0 {
        0
    } else if v > 255 {
        255
    } else {
        v
    }
}

/// Quality score of a reception, from its signal metadata alone: RSSI and
/// SNR are normalized into 0..=255 and combined with a 3x weight on SNR.
pub open spec fn spec_quality(rssi: i16, snr: i16) -> int {
    (clamp_byte((rssi + 130) * 2) + 3 * clamp_byte((snr + 20) * 4)) / 4
}

/// Computes the signal-quality score for a reception.
pub fn calculate_quality(rssi: i16, snr: i16) -> (r: u8)
    ensures
        r == spec_quality(rssi, snr),
{
    let rssi_wide: i32 = (rssi as i32 + 130) * 2;
    let snr_wide: i32 = (snr as i32 + 20) * 4;
    let rssi_norm: i32 = if rssi_wide < 0 {
        0
    } else if rssi_wide > 255 {
        255
    } else {
        rssi_wide
    };
    let snr_norm: i32 = if snr_wide < 0 {
        0
    } else if snr_wide > 255 {
        255
    } else {
        snr_wide
    };
    ((rssi_norm + 3 * snr_norm) / 4) as u8
}

/// The backoff delay before retransmission attempt `attempt + 1`:
/// `INITIAL_BACKOFF_MS` doubled per attempt already made, capped at
/// `MAX_BACKOFF_MS`.
pub open spec fn spec_backoff(attempt: u8) -> int {
    let raw = (INITIAL_BACKOFF_MS as int) * vstd::arithmetic::power2::pow2(attempt as nat);
    if raw > MAX_BACKOFF_MS as int {
        MAX_BACKOFF_MS as int
    } else {
        raw
    }
}

/// Computes the retransmission backoff for an entry with `attempt`
/// transmission attempts already made.
pub fn calculate_backoff(attempt: u8) -> (r: u64)
    ensures
        r == spec_backoff(attempt),
{
    proof {
        vstd::arithmetic::power2::lemma2_to64();
        if attempt > 4 {
            vstd::arithmetic::power2::lemma_pow2_strictly_increases(4, attempt as nat);
        }
    }
    if attempt == 0 {
        500
    } else if attempt == 1 {
        1000
    } else if attempt == 2 {
        2000
    } else if attempt == 3 {
        4000
    } else {
        5000
    }
}

/// The hop budget discovery messages start with.
pub const DISCOVERY_TTL: u8 = 3;

/// The models of a sequence of messages.
pub open spec fn msgs_view(s: Seq<Message>) -> Seq<MessageModel> {
    s.map_values(|m: Message| m@)
}

/// Subtraction on bytes that stops at zero.
pub open spec fn spec_sat_sub(a: u8, b: u8) -> u8 {
    if a >= b {
        (a - b) as u8
    } else {
        0
    }
}

/// A discovery answer's hop count, normalized so an immediate neighbour
/// counts as one hop when it is installed as a route.
pub open spec fn spec_hops_norm(hops: u8) -> u8 {
    if hops == 0 {
        1
    } else {
        hops
    }
}

/// What the outgoing queue becomes when the engine offers it a message:
/// an expired message is dropped, a full queue refuses, anything else is
/// appended.  No expired message ever enters the queue.
pub open spec fn spec_push_outgoing(out: Seq<MessageModel>, m: MessageModel) -> Seq<MessageModel> {
    if m.ttl > 0 && out.len() < OUTQUEUE_SIZE {
        out.push(m)
    } else {
        out
    }
}

/// The reply local processing owes for a received message: a delivery
/// acknowledgement for data or commands that ask for one, a discovery
/// answer carrying the accumulated hop count for a discovery, nothing
/// otherwise.  `stamp` is the id the engine assigns to the reply.
pub open spec fn spec_ack_reply(m: MessageModel, uid: Uid, stamp: u32) -> Option<MessageModel> {
    match m.payload {
        PayloadModel::Data(_) | PayloadModel::Command(_) => if m.req_ack {
            Some(
                MessageModel {
                    message_id: stamp,
                    source_id: uid@,
                    destination_id: Some(m.source_id),
                    ttl: m.ttl,
                    req_ack: false,
                    payload: PayloadModel::Ack(AckType::Success { message_id: m.message_id }),
                },
            )
        } else {
            None
        },
        PayloadModel::Discovery(d) => Some(
            MessageModel {
                message_id: m.message_id,
                source_id: uid@,
                destination_id: Some(m.source_id),
                ttl: m.ttl,
                req_ack: false,
                payload: PayloadModel::Ack(
                    AckType::AckDiscovered { hops: spec_sat_sub(d.original_ttl, m.ttl), last_hop: uid },
                ),
            },
        ),
        _ => None,
    }
}

/// Whether the local reply to a message consumes a fresh id: only
/// delivery acknowledgements are stamped; a discovery answer carries the
/// request's own id so the originator can match its pending entry.
pub open spec fn spec_reply_stamps(m: MessageModel) -> bool {
    (m.payload is Data || m.payload is Command) && m.req_ack
}

/// The outgoing queue after local processing of a received message.
pub open spec fn spec_out_after_local(
    out: Seq<MessageModel>,
    m: MessageModel,
    uid: Uid,
    stamp: u32,
) -> Seq<MessageModel> {
    match spec_ack_reply(m, uid, stamp) {
        Some(a) => spec_push_outgoing(out, a),
        None => out,
    }
}

/// The pending table with the entry of one id marked acknowledged.
pub open spec fn spec_mark_acked(
    s: Seq<(u32, crate::device::pending_ack::PendingAckModel)>,
    id: u32,
) -> Seq<(u32, crate::device::pending_ack::PendingAckModel)> {
    Seq::new(
        s.len(),
        |i: int|
            if s[i].0 == id {
                (
                    id,
                    crate::device::pending_ack::PendingAckModel {
                        is_acknowledged: true,
                        ..s[i].1
                    },
                )
            } else {
                s[i]
            },
    )
}

/// How registering one transmitted message transforms the pending table:
/// only messages that ask for an acknowledgement are tracked, a tracked
/// id is left alone, and a full table changes nothing.
pub open spec fn spec_insert_pending(
    s: Seq<(u32, crate::device::pending_ack::PendingAckModel)>,
    m: Message,
    now_ms: u64,
) -> Seq<(u32, crate::device::pending_ack::PendingAckModel)> {
    if !m.spec_req_ack() {
        s
    } else if crate::device::pending_ack::spec_contains_id(s, m.spec_message_id()) {
        s
    } else if s.len() < crate::device::pending_ack::MAX_PENDING_ACKS {
        s.push(
            (
                m.spec_message_id(),
                crate::device::pending_ack::PendingAckModel {
                    timestamp: now_ms,
                    attempts: 0u8,
                    is_acknowledged: false,
                    payload: m.spec_payload()@,
                    destination_uid: m.spec_destination_id(),
                    ttl: m.spec_ttl(),
                },
            ),
        )
    } else {
        s
    }
}

/// Registering the same message twice is the same as registering it
/// once: tracking a pending acknowledgement is idempotent.
pub proof fn lemma_insert_pending_idempotent(
    s: Seq<(u32, crate::device::pending_ack::PendingAckModel)>,
    m: Message,
    now_ms: u64,
)
    ensures
        spec_insert_pending(spec_insert_pending(s, m, now_ms), m, now_ms) == spec_insert_pending(
            s,
            m,
            now_ms,
        ),
{
    let s1 = spec_insert_pending(s, m, now_ms);
    if m.spec_req_ack() && !crate::device::pending_ack::spec_contains_id(s, m.spec_message_id())
        && s.len() < crate::device::pending_ack::MAX_PENDING_ACKS {
        assert(s1[s.len() as int].0 == m.spec_message_id());
        assert(crate::device::pending_ack::spec_contains_id(s1, m.spec_message_id()));
    }
}

/// A discovery answered immediately by a neighbour carries an
/// accumulated count of zero and is installed as a one-hop route: the
/// normalization turns a same-budget answer into one hop.
pub proof fn lemma_single_hop_discovery(original_ttl: u8)
    requires
        original_ttl > 0,
    ensures
        spec_hops_norm(spec_sat_sub(original_ttl, original_ttl)) == 1,
{
}

/// The pending table after registering a batch of transmitted messages,
/// in transmission order.
pub open spec fn spec_register_acks(
    s: Seq<(u32, crate::device::pending_ack::PendingAckModel)>,
    msgs: Seq<Message>,
    now_ms: u64,
) -> Seq<(u32, crate::device::pending_ack::PendingAckModel)>
    decreases msgs.len(),
{
    if msgs.len() == 0 {
        s
    } else {
        spec_insert_pending(spec_register_acks(s, msgs.drop_last(), now_ms), msgs.last(), now_ms)
    }
}

/// The routing table after a reception: the sender's link record absorbs
/// the signal sample and a direct one-hop route to the sender is
/// installed with the reception's quality.
pub open spec fn spec_routing_after_rx(
    m: RoutingTableModel,
    source: Uid,
    rssi: i16,
    snr: i16,
    now_ms: u64,
) -> RoutingTableModel {
    let m2 = spec_after_update_link_quality(m, source@, rssi, snr, now_ms);
    spec_after_update(
        m2,
        source@,
        Route {
            next_hop: source,
            hop_count: 1u8,
            quality: spec_quality(rssi, snr) as u8,
            last_updated: now_ms,
            is_active: true,
        },
        now_ms,
    )
}

/// The model of a discovery message originated by this node.
pub open spec fn spec_discovery_message(
    uid: Uid,
    destination_id: Option<u8>,
    caps: crate::device::config::DeviceCapabilities,
    stamp: u32,
) -> MessageModel {
    MessageModel {
        message_id: stamp,
        source_id: uid@,
        destination_id,
        ttl: DISCOVERY_TTL,
        req_ack: true,
        payload: PayloadModel::Discovery(
            crate::message::payload::DiscoveryType {
                original_ttl: DISCOVERY_TTL,
                sender_capabilities: caps,
            },
        ),
    }
}

/// Backoff grows monotonically with the attempt count until it is clamped
/// at `MAX_BACKOFF_MS`, and never exceeds that cap.
pub proof fn lemma_backoff_monotonic(a1: u8, a2: u8)
    requires
        a1 <= a2,
    ensures
        spec_backoff(a1) <= spec_backoff(a2),
        spec_backoff(a2) <= MAX_BACKOFF_MS,
        INITIAL_BACKOFF_MS <= spec_backoff(a1),
{
    vstd::arithmetic::power2::lemma2_to64();
    if a1 < a2 {
        vstd::arithmetic::power2::lemma_pow2_strictly_increases(a1 as nat, a2 as nat);
    }
    vstd::arithmetic::power2::lemma_pow2_pos(a1 as nat);
    vstd::arithmetic::power2::lemma_pow2_pos(a2 as nat);
}

/// The mesh engine of one node: its queues, pending-acknowledgement
/// table, routing table and id counter.  The engine never touches a
/// radio or a clock: the surrounding loop hands it received frames and
/// the current monotonic time, and transmits what it returns.
pub struct LoraDevice {
    uid: Uid,
    state: DeviceState,
    inqueue: crate::device::collections::BoundedQueue,
    outqueue: crate::device::collections::BoundedQueue,
    pending_acks: crate::device::pending_ack::PendingAckTable,
    routing_table: RoutingTable,
    device_config: crate::device::config::DeviceConfig,
    next_message_id: u32,
    maintenance_counter: u8,
}

impl LoraDevice {
    /// Well-formedness: the queues have their configured capacities and
    /// respect them, the pending table respects its capacity, and no
    /// expired message sits in the outgoing queue.
    pub closed spec fn wf(&self) -> bool {
        &&& crate::device::collections::MessageQueue::capacity(&self.inqueue) == INQUEUE_SIZE
        &&& crate::device::collections::MessageQueue::capacity(&self.outqueue) == OUTQUEUE_SIZE
        &&& crate::device::collections::MessageQueue::contents(&self.inqueue).len()
            <= INQUEUE_SIZE
        &&& crate::device::collections::MessageQueue::contents(&self.outqueue).len()
            <= OUTQUEUE_SIZE
        &&& self.pending_acks@.len() <= crate::device::pending_ack::MAX_PENDING_ACKS
        &&& forall|i: int|
            0 <= i < crate::device::collections::MessageQueue::contents(&self.outqueue).len()
                ==> (#[trigger] crate::device::collections::MessageQueue::contents(
                &self.outqueue,
            )[i]).spec_ttl() > 0
    }

    /// This node's identifier.
    pub closed spec fn spec_uid(&self) -> Uid {
        self.uid
    }

    /// Messages delivered locally, waiting for the application.
    pub closed spec fn spec_inqueue(&self) -> Seq<Message> {
        crate::device::collections::MessageQueue::contents(&self.inqueue)
    }

    /// Messages waiting to be transmitted.
    pub closed spec fn spec_outqueue(&self) -> Seq<Message> {
        crate::device::collections::MessageQueue::contents(&self.outqueue)
    }

    /// The pending-acknowledgement table's value.
    pub closed spec fn spec_pending(&self) -> Seq<(u32, crate::device::pending_ack::PendingAckModel)> {
        self.pending_acks@
    }

    /// The routing table's value.
    pub closed spec fn spec_routing(&self) -> RoutingTableModel {
        self.routing_table@
    }

    /// The next message id the engine will stamp.
    pub closed spec fn spec_next_message_id(&self) -> u32 {
        self.next_message_id
    }

    /// The static configuration.
    pub closed spec fn spec_device_config(&self) -> crate::device::config::DeviceConfig {
        self.device_config
    }

    /// A well-formed engine keeps every bound: the queue and table sizes
    /// never exceed their capacities, and no expired message waits to be
    /// transmitted.
    pub proof fn lemma_wf_bounds(&self)
        requires
            self.wf(),
        ensures
            self.spec_inqueue().len() <= INQUEUE_SIZE,
            self.spec_outqueue().len() <= OUTQUEUE_SIZE,
            self.spec_pending().len() <= crate::device::pending_ack::MAX_PENDING_ACKS,
            forall|i: int|
                0 <= i < self.spec_outqueue().len() ==> (#[trigger] self.spec_outqueue()[i]).spec_ttl()
                    > 0,
    {
    }

    /// A fresh engine: empty queues and tables, the id counter at zero.
    pub fn new(uid: Uid, device_config: crate::device::config::DeviceConfig) -> (r: LoraDevice)
        ensures
            r.wf(),
            r.spec_uid() == uid,
            r.spec_device_config() == device_config,
            r.spec_inqueue() == Seq::<Message>::empty(),
            r.spec_outqueue() == Seq::<Message>::empty(),
            r.spec_pending() == Seq::<(u32, crate::device::pending_ack::PendingAckModel)>::empty(),
            r.spec_routing().routes == Seq::<(u8, crate::route::routing_table::RouteEntryModel)>::empty(),
            r.spec_routing().link_qualities == Seq::<(u8, crate::route::LinkQuality)>::empty(),
            r.spec_next_message_id() == 0,
    {
        LoraDevice {
            uid,
            state: DeviceState::Idle,
            inqueue: crate::device::collections::BoundedQueue::new(INQUEUE_SIZE),
            outqueue: crate::device::collections::BoundedQueue::new(OUTQUEUE_SIZE),
            pending_acks: crate::device::pending_ack::PendingAckTable::new(),
            routing_table: RoutingTable::default(),
            device_config,
            next_message_id: 0,
            maintenance_counter: 0,
        }
    }

    /// This node's identifier.
    pub fn uid(&self) -> (r: Uid)
        ensures
            r == self.spec_uid(),
    {
        self.uid
    }

    /// The radio-facing state.
    pub fn device_state(&self) -> (r: DeviceState)
        ensures
            r == self.spec_device_state(),
    {
        self.state
    }

    /// The radio-facing state.
    pub closed spec fn spec_device_state(&self) -> DeviceState {
        self.state
    }

    /// Records the radio-facing state; the surrounding loop advances it
    /// around its radio calls (idle, transmitting, receiving).
    pub fn set_device_state(&mut self, state: DeviceState)
        requires
            old(self).wf(),
        ensures
            final(self).wf(),
            final(self).spec_device_state() == state,
            final(self).spec_uid() == old(self).spec_uid(),
            final(self).spec_device_config() == old(self).spec_device_config(),
            final(self).spec_inqueue() == old(self).spec_inqueue(),
            final(self).spec_outqueue() == old(self).spec_outqueue(),
            final(self).spec_pending() == old(self).spec_pending(),
            final(self).spec_routing() == old(self).spec_routing(),
            final(self).spec_next_message_id() == old(self).spec_next_message_id(),
    {
        self.state = state;
    }

    /// The static configuration.
    pub fn device_config(&self) -> (r: &crate::device::config::DeviceConfig)
        ensures
            *r == self.spec_device_config(),
    {
        &self.device_config
    }

    /// Number of messages waiting for the application.
    pub fn inqueue_len(&self) -> (r: usize)
        ensures
            r == self.spec_inqueue().len(),
    {
        crate::device::collections::MessageQueue::len(&self.inqueue)
    }

    /// Number of messages waiting to be transmitted.
    pub fn outqueue_len(&self) -> (r: usize)
        ensures
            r == self.spec_outqueue().len(),
    {
        crate::device::collections::MessageQueue::len(&self.outqueue)
    }

    /// Read access to a queued incoming message, front first.
    pub fn inqueue_get(&self, index: usize) -> (r: &Message)
        requires
            index < self.spec_inqueue().len(),
        ensures
            *r == self.spec_inqueue()[index as int],
    {
        self.inqueue.get(index)
    }

    /// Read access to a queued outgoing message, front first.
    pub fn outqueue_get(&self, index: usize) -> (r: &Message)
        requires
            index < self.spec_outqueue().len(),
        ensures
            *r == self.spec_outqueue()[index as int],
    {
        self.outqueue.get(index)
    }

    /// Number of tracked pending acknowledgements.
    pub fn pending_len(&self) -> (r: usize)
        ensures
            r == self.spec_pending().len(),
    {
        self.pending_acks.len()
    }

    /// Whether a message id awaits an acknowledgement.
    pub fn pending_contains(&self, id: u32) -> (r: bool)
        ensures
            r == crate::device::pending_ack::spec_contains_id(self.spec_pending(), id),
    {
        self.pending_acks.contains(id)
    }

    /// Draws a fresh message id; the counter wraps around.
    fn generate_message_id(&mut self) -> (r: u32)
        ensures
            r == old(self).spec_next_message_id(),
            final(self).spec_next_message_id() == old(self).spec_next_message_id().wrapping_add(1),
            final(self).wf() == old(self).wf(),
            final(self).spec_uid() == old(self).spec_uid(),
            final(self).spec_device_config() == old(self).spec_device_config(),
            final(self).spec_inqueue() == old(self).spec_inqueue(),
            final(self).spec_outqueue() == old(self).spec_outqueue(),
            final(self).spec_pending() == old(self).spec_pending(),
            final(self).spec_routing() == old(self).spec_routing(),
    {
        let id = self.next_message_id;
        self.next_message_id = self.next_message_id.wrapping_add(1);
        id
    }

    /// Offers a message to the outgoing queue: an expired message is
    /// dropped, a full queue refuses it.  This is the only door into the
    /// queue, so no expired message is ever queued for transmission.
    fn enqueue_outgoing(&mut self, message: Message) -> (r: bool)
        requires
            old(self).wf(),
        ensures
            final(self).wf(),
            msgs_view(final(self).spec_outqueue()) == spec_push_outgoing(
                msgs_view(old(self).spec_outqueue()),
                message@,
            ),
            r == (message.spec_ttl() > 0 && old(self).spec_outqueue().len() < OUTQUEUE_SIZE),
            (!r ==> final(self).spec_outqueue() == old(self).spec_outqueue()),
            (r ==> final(self).spec_outqueue() == old(self).spec_outqueue().push(message)),
            final(self).spec_uid() == old(self).spec_uid(),
            final(self).spec_device_config() == old(self).spec_device_config(),
            final(self).spec_inqueue() == old(self).spec_inqueue(),
            final(self).spec_pending() == old(self).spec_pending(),
            final(self).spec_routing() == old(self).spec_routing(),
            final(self).spec_next_message_id() == old(self).spec_next_message_id(),
    {
        if message.is_expired() {
            return false;
        }
        let ghost ttl_pos = message.spec_ttl() > 0;
        let ghost msg_model = message@;
        match crate::device::collections::MessageQueue::enqueue(&mut self.outqueue, message) {
            Ok(()) => {
                proof {
                    assert(msgs_view(self.spec_outqueue()) =~= msgs_view(
                        old(self).spec_outqueue(),
                    ).push(msg_model));
                }
                true
            },
            Err(_) => false,
        }
    }

    /// Stamps a fresh id on an application message and offers it to the
    /// outgoing queue.  A new send gets a new id; only engine-internal
    /// retries keep their original id.
    pub fn enqueue_message(&mut self, message: Message) -> (r: bool)
        requires
            old(self).wf(),
        ensures
            final(self).wf(),
            msgs_view(final(self).spec_outqueue()) == spec_push_outgoing(
                msgs_view(old(self).spec_outqueue()),
                MessageModel { message_id: old(self).spec_next_message_id(), ..message@ },
            ),
            r == (message.spec_ttl() > 0 && old(self).spec_outqueue().len() < OUTQUEUE_SIZE),
            final(self).spec_next_message_id() == old(self).spec_next_message_id().wrapping_add(1),
            final(self).spec_uid() == old(self).spec_uid(),
            final(self).spec_inqueue() == old(self).spec_inqueue(),
            final(self).spec_pending() == old(self).spec_pending(),
            final(self).spec_routing() == old(self).spec_routing(),
    {
        let mut message = message;
        let ghost m0 = message@;
        let id = self.generate_message_id();
        message.set_message_id(id);
        proof {
            assert(message@ =~= MessageModel { message_id: old(self).spec_next_message_id(), ..m0 });
        }
        self.enqueue_outgoing(message)
    }

    /// Sends the delivery acknowledgement a received data or command
    /// message asked for, back towards its originator.
    fn send_ack(&mut self, message: &Message, now_ms: u64)
        requires
            old(self).wf(),
            message.spec_req_ack(),
            (message.spec_payload() is Data || message.spec_payload() is Command),
        ensures
            final(self).wf(),
            msgs_view(final(self).spec_outqueue()) == spec_out_after_local(
                msgs_view(old(self).spec_outqueue()),
                message@,
                old(self).spec_uid(),
                old(self).spec_next_message_id(),
            ),
            final(self).spec_next_message_id() == old(self).spec_next_message_id().wrapping_add(1),
            final(self).spec_uid() == old(self).spec_uid(),
            final(self).spec_device_config() == old(self).spec_device_config(),
            final(self).spec_inqueue() == old(self).spec_inqueue(),
            final(self).spec_pending() == old(self).spec_pending(),
            final(self).spec_routing() == old(self).spec_routing(),
    {
        let mut ack_message = Message::new_ack(
            self.uid,
            Some(message.source_id()),
            AckType::Success { message_id: message.message_id() },
            message.ttl(),
            false,
        );
        let id = self.generate_message_id();
        ack_message.set_message_id(id);
        proof {
            assert(ack_message@ =~= spec_ack_reply(
                message@,
                old(self).spec_uid(),
                old(self).spec_next_message_id(),
            ).unwrap());
        }
        let _ = self.enqueue_outgoing(ack_message);
    }

    /// Processes a message delivered to this node: answers data and
    /// commands that ask for an acknowledgement, marks pending entries
    /// acknowledged on incoming acks, installs routes from discovery
    /// answers, and answers discoveries with the accumulated hop count.
    fn process_received_message(&mut self, message: &Message, rx_info: Option<RxInfo>, now_ms: u64)
        requires
            old(self).wf(),
        ensures
            final(self).wf(),
            final(self).spec_uid() == old(self).spec_uid(),
            final(self).spec_device_config() == old(self).spec_device_config(),
            final(self).spec_inqueue() == old(self).spec_inqueue(),
            msgs_view(final(self).spec_outqueue()) == spec_out_after_local(
                msgs_view(old(self).spec_outqueue()),
                message@,
                old(self).spec_uid(),
                old(self).spec_next_message_id(),
            ),
            final(self).spec_next_message_id() == (if spec_reply_stamps(message@) {
                old(self).spec_next_message_id().wrapping_add(1)
            } else {
                old(self).spec_next_message_id()
            }),
            final(self).spec_pending() == (match message.spec_payload() {
                Payload::Ack(AckType::Success { message_id }) => spec_mark_acked(
                    old(self).spec_pending(),
                    message_id,
                ),
                Payload::Ack(AckType::Failure { message_id }) => spec_mark_acked(
                    old(self).spec_pending(),
                    message_id,
                ),
                Payload::Ack(AckType::AckDiscovered { .. }) => if message.spec_destination_id()
                    == Some(old(self).spec_uid()) {
                    spec_mark_acked(old(self).spec_pending(), message.spec_message_id())
                } else {
                    old(self).spec_pending()
                },
                _ => old(self).spec_pending(),
            }),
            (match message.spec_payload() {
                Payload::Ack(AckType::Success { message_id }) => final(self).spec_routing() == (
                if crate::device::pending_ack::spec_contains_id(
                    old(self).spec_pending(),
                    message_id,
                ) {
                    spec_after_record_success(
                        old(self).spec_routing(),
                        message.spec_source_id()@,
                        now_ms,
                    )
                } else {
                    old(self).spec_routing()
                }),
                Payload::Ack(AckType::AckDiscovered { hops, last_hop }) => final(self).spec_routing()
                    == spec_after_update(
                    old(self).spec_routing(),
                    message.spec_source_id()@,
                    Route {
                        next_hop: last_hop,
                        hop_count: spec_hops_norm(hops),
                        quality: (match rx_info {
                            Some(i) => spec_quality(i.rssi, i.snr) as u8,
                            None => 0u8,
                        }),
                        last_updated: now_ms,
                        is_active: true,
                    },
                    now_ms,
                ),
                Payload::Ack(AckType::Failure { .. }) => final(self).spec_routing().route_ttl
                    == old(self).spec_routing().route_ttl && final(self).spec_routing().wf(),
                _ => final(self).spec_routing() == old(self).spec_routing(),
            }),
    {
        self.routing_table.check_wf();
        match message.payload() {
            Payload::Command(_) | Payload::Data(_) => {
                if message.req_ack() {
                    self.send_ack(message, now_ms);
                }
            },
            Payload::Ack(ack) => {
                match ack {
                    AckType::Success { message_id } => {
                        let id = *message_id;
                        if self.pending_acks.contains(id) {
                            let _ = self.pending_acks.mark_acked(id);
                            self.routing_table.record_successful_delivery(
                                message.source_id().get(),
                                now_ms,
                            );
                        }
                        proof {
                            assert(self.spec_pending() =~= spec_mark_acked(
                                old(self).spec_pending(),
                                id,
                            ));
                        }
                    },
                    AckType::AckDiscovered { hops, last_hop } => {
                        let q = match rx_info {
                            Some(info) => calculate_quality(info.rssi, info.snr),
                            None => 0,
                        };
                        let hop_count = if *hops == 0 {
                            1
                        } else {
                            *hops
                        };
                        let route = Route {
                            next_hop: *last_hop,
                            hop_count,
                            quality: q,
                            last_updated: now_ms,
                            is_active: true,
                        };
                        self.routing_table.update(message.source_id().get(), route, now_ms);
                        let mine = match message.destination_id() {
                            Some(d) => d.get() == self.uid.get(),
                            None => false,
                        };
                        if mine {
                            let _ = self.pending_acks.mark_acked(message.message_id());
                            proof {
                                assert(self.spec_pending() =~= spec_mark_acked(
                                    old(self).spec_pending(),
                                    message.spec_message_id(),
                                ));
                            }
                        }
                    },
                    AckType::Failure { message_id } => {
                        let id = *message_id;
                        match self.pending_acks.get(id) {
                            Some(p) => {
                                let dest_opt = p.destination_uid();
                                let _ = self.pending_acks.mark_acked(id);
                                match dest_opt {
                                    Some(dest) => {
                                        match self.routing_table.lookup_route(
                                            dest.get(),
                                            now_ms,
                                        ) {
                                            Some(route) => {
                                                self.routing_table.record_failed_delivery(
                                                    route.next_hop.get(),
                                                    now_ms,
                                                );
                                            },
                                            None => (),
                                        }
                                    },
                                    None => (),
                                }
                            },
                            None => (),
                        }
                        proof {
                            assert(self.spec_pending() =~= spec_mark_acked(
                                old(self).spec_pending(),
                                id,
                            ));
                        }
                    },
                }
            },
            Payload::Discovery(discovery) => {
                let hops = if discovery.original_ttl >= message.ttl() {
                    discovery.original_ttl - message.ttl()
                } else {
                    0
                };
                let mut ack_message = Message::new_ack(
                    self.uid,
                    Some(message.source_id()),
                    AckType::AckDiscovered { hops, last_hop: self.uid },
                    message.ttl(),
                    false,
                );
                ack_message.set_message_id(message.message_id());
                proof {
                    assert(ack_message@ =~= spec_ack_reply(
                        message@,
                        old(self).spec_uid(),
                        old(self).spec_next_message_id(),
                    ).unwrap());
                }
                let _ = self.enqueue_outgoing(ack_message);
            },
            Payload::Route(_) => (),
        }
    }

    /// Whether a route discovery towards `destination` is already in
    /// flight: a pending discovery entry names that destination.
    pub fn is_route_discovery_in_progress(&self, destination: u8) -> (r: bool)
        ensures
            r == crate::device::pending_ack::spec_discovery_in_progress(
                self.spec_pending(),
                destination,
            ),
    {
        self.pending_acks.discovery_in_progress(destination)
    }

    /// Starts a route discovery towards `destination`: a fresh discovery
    /// message with the discovery hop budget is queued for transmission.
    pub fn initiate_route_discovery(&mut self, destination: u8)
        requires
            old(self).wf(),
        ensures
            final(self).wf(),
            final(self).spec_uid() == old(self).spec_uid(),
            final(self).spec_device_config() == old(self).spec_device_config(),
            final(self).spec_inqueue() == old(self).spec_inqueue(),
            final(self).spec_pending() == old(self).spec_pending(),
            final(self).spec_routing() == old(self).spec_routing(),
            (destination != 0 ==> msgs_view(final(self).spec_outqueue()) == spec_push_outgoing(
                msgs_view(old(self).spec_outqueue()),
                spec_discovery_message(
                    old(self).spec_uid(),
                    Some(destination),
                    old(self).spec_device_config().device_capabilities,
                    old(self).spec_next_message_id(),
                ),
            ) && final(self).spec_next_message_id() == old(self).spec_next_message_id().wrapping_add(1)),
            (destination == 0 ==> final(self).spec_outqueue() == old(self).spec_outqueue()
                && final(self).spec_next_message_id() == old(self).spec_next_message_id()),
            old(self).spec_outqueue().len() <= final(self).spec_outqueue().len(),
            forall|i: int|
                0 <= i < old(self).spec_outqueue().len() ==> final(self).spec_outqueue()[i] == (
                #[trigger] old(self).spec_outqueue()[i]),
    {
        match Uid::new(destination) {
            Some(dest_uid) => {
                let mut message = Message::new_discovery(
                    self.uid,
                    Some(dest_uid),
                    DISCOVERY_TTL,
                    true,
                    self.device_config,
                );
                let id = self.generate_message_id();
                message.set_message_id(id);
                proof {
                    assert(message@ =~= spec_discovery_message(
                        old(self).spec_uid(),
                        Some(destination),
                        old(self).spec_device_config().device_capabilities,
                        old(self).spec_next_message_id(),
                    ));
                }
                let _ = self.enqueue_outgoing(message);
            },
            None => (),
        }
    }

    /// Starts a broadcast network discovery.
    pub fn discover_nodes(&mut self)
        requires
            old(self).wf(),
        ensures
            final(self).wf(),
            final(self).spec_uid() == old(self).spec_uid(),
            final(self).spec_device_config() == old(self).spec_device_config(),
            final(self).spec_inqueue() == old(self).spec_inqueue(),
            final(self).spec_pending() == old(self).spec_pending(),
            final(self).spec_routing() == old(self).spec_routing(),
            msgs_view(final(self).spec_outqueue()) == spec_push_outgoing(
                msgs_view(old(self).spec_outqueue()),
                spec_discovery_message(
                    old(self).spec_uid(),
                    None,
                    old(self).spec_device_config().device_capabilities,
                    old(self).spec_next_message_id(),
                ),
            ),
            final(self).spec_next_message_id() == old(self).spec_next_message_id().wrapping_add(1),
    {
        let mut message = Message::new_discovery(
            self.uid,
            None,
            DISCOVERY_TTL,
            true,
            self.device_config,
        );
        let id = self.generate_message_id();
        message.set_message_id(id);
        proof {
            assert(message@ =~= spec_discovery_message(
                old(self).spec_uid(),
                None,
                old(self).spec_device_config().device_capabilities,
                old(self).spec_next_message_id(),
            ));
        }
        let _ = self.enqueue_outgoing(message);
    }

    /// Forwards a received unicast message towards its destination: the
    /// hop budget shrinks by one, the source is rewritten to this node,
    /// the id is preserved.  Without a usable route the message is
    /// dropped and a discovery starts unless one is already in flight.
    fn route_message(&mut self, message: Message, now_ms: u64) -> (r: bool)
        requires
            old(self).wf(),
        ensures
            final(self).wf(),
            final(self).spec_uid() == old(self).spec_uid(),
            final(self).spec_device_config() == old(self).spec_device_config(),
            final(self).spec_inqueue() == old(self).spec_inqueue(),
            final(self).spec_pending() == old(self).spec_pending(),
            (message.spec_destination_id() is None ==> !r && final(self).spec_outqueue() == old(self).spec_outqueue() && final(self).spec_routing() == old(self).spec_routing()
                && final(self).spec_next_message_id() == old(self).spec_next_message_id()),
            (message.spec_destination_id() matches Some(d) ==> ({
                let found = spec_lookup_result(old(self).spec_routing(), d@, now_ms);
                let fwd = MessageModel {
                    source_id: old(self).spec_uid()@,
                    ttl: spec_sat_sub(message.spec_ttl(), 1),
                    ..message@
                };
                &&& final(self).spec_routing() == spec_after_lookup(
                    old(self).spec_routing(),
                    d@,
                    now_ms,
                )
                &&& (found is Some ==> msgs_view(final(self).spec_outqueue())
                    == spec_push_outgoing(msgs_view(old(self).spec_outqueue()), fwd)
                    && final(self).spec_next_message_id() == old(self).spec_next_message_id())
                &&& (found is Some && message.spec_ttl() <= 1 ==> final(self).spec_outqueue()
                    == old(self).spec_outqueue())
                &&& (found is None
                    && !crate::device::pending_ack::spec_discovery_in_progress(
                    old(self).spec_pending(),
                    d@,
                ) ==> msgs_view(final(self).spec_outqueue()) == spec_push_outgoing(
                    msgs_view(old(self).spec_outqueue()),
                    spec_discovery_message(
                        old(self).spec_uid(),
                        Some(d@),
                        old(self).spec_device_config().device_capabilities,
                        old(self).spec_next_message_id(),
                    ),
                ))
                &&& (found is None
                    && crate::device::pending_ack::spec_discovery_in_progress(
                    old(self).spec_pending(),
                    d@,
                ) ==> final(self).spec_outqueue() == old(self).spec_outqueue())
                &&& r == (found is Some && message.spec_ttl() > 1 && old(self).spec_outqueue().len() < OUTQUEUE_SIZE)
            })),
    {
        let destination_id = match message.destination_id() {
            Some(id) => id.get(),
            None => {
                return false;
            },
        };
        match self.routing_table.lookup_route(destination_id, now_ms) {
            Some(_route) => {
                let ghost m0 = message@;
                let id = message.message_id();
                let mut message = message;
                message.decrement_ttl();
                let mut forwarded = Message::new(
                    self.uid,
                    message.destination_id(),
                    message.payload().duplicate(),
                    message.ttl(),
                    message.req_ack(),
                );
                forwarded.set_message_id(id);
                proof {
                    assert(forwarded@ =~= MessageModel {
                        source_id: old(self).spec_uid()@,
                        ttl: spec_sat_sub(m0.ttl, 1),
                        ..m0
                    });
                }
                self.enqueue_outgoing(forwarded)
            },
            None => {
                if !self.is_route_discovery_in_progress(destination_id) {
                    self.initiate_route_discovery(destination_id);
                }
                false
            },
        }
    }

    /// Dispatches one received message: the sender's link quality and a
    /// direct route are refreshed, a message for this node (or a
    /// broadcast) is processed locally and queued for the application,
    /// a unicast for another node is forwarded with one hop less, and a
    /// live broadcast is relayed with one hop less.
    pub fn handle_message(&mut self, message: Message, rx_info: Option<RxInfo>, now_ms: u64)
        requires
            old(self).wf(),
        ensures
            final(self).wf(),
            final(self).spec_uid() == old(self).spec_uid(),
            final(self).spec_device_config() == old(self).spec_device_config(),
            ({
                let uid = old(self).spec_uid();
                let local = message.spec_destination_id() == Some(uid) || (
                message.spec_destination_id() is None && message.spec_ttl() > 0);
                &&& (local && old(self).spec_inqueue().len() < INQUEUE_SIZE ==> msgs_view(
                    final(self).spec_inqueue(),
                ) == msgs_view(old(self).spec_inqueue()).push(message@))
                &&& (local && old(self).spec_inqueue().len() >= INQUEUE_SIZE ==> msgs_view(
                    final(self).spec_inqueue(),
                ) == msgs_view(old(self).spec_inqueue()))
                &&& (!local ==> final(self).spec_inqueue() == old(self).spec_inqueue())
            }),
            ({
                let uid = old(self).spec_uid();
                let r0 = (match rx_info {
                    Some(info) => spec_routing_after_rx(
                        old(self).spec_routing(),
                        message.spec_source_id(),
                        info.rssi,
                        info.snr,
                        now_ms,
                    ),
                    None => old(self).spec_routing(),
                });
                match message.spec_destination_id() {
                    Some(d) => if d != uid {
                        &&& final(self).spec_pending() == old(self).spec_pending()
                        &&& (message.spec_ttl() == 0 ==> final(self).spec_outqueue() == old(self).spec_outqueue() && final(self).spec_routing() == r0)
                        &&& (message.spec_ttl() > 0 ==> final(self).spec_routing()
                            == spec_after_lookup(r0, d@, now_ms) && (spec_lookup_result(
                            r0,
                            d@,
                            now_ms,
                        ) is Some ==> msgs_view(final(self).spec_outqueue()) == spec_push_outgoing(
                            msgs_view(old(self).spec_outqueue()),
                            MessageModel {
                                source_id: uid@,
                                ttl: spec_sat_sub(message.spec_ttl(), 1),
                                ..message@
                            },
                        )))
                        &&& (message.spec_ttl() == 1 && spec_lookup_result(r0, d@, now_ms) is Some
                            ==> final(self).spec_outqueue() == old(self).spec_outqueue())
                    } else {
                        &&& msgs_view(final(self).spec_outqueue()) == spec_out_after_local(
                            msgs_view(old(self).spec_outqueue()),
                            message@,
                            uid,
                            old(self).spec_next_message_id(),
                        )
                        &&& (!(message.spec_payload() is Ack) ==> final(self).spec_routing() == r0
                            && final(self).spec_pending() == old(self).spec_pending())
                    },
                    None => {
                        &&& (message.spec_ttl() == 0 ==> final(self).spec_outqueue() == old(self).spec_outqueue() && final(self).spec_routing() == r0 && final(self).spec_pending() == old(self).spec_pending())
                        &&& (message.spec_ttl() > 0 && !(message.spec_payload() is Ack)
                            ==> msgs_view(final(self).spec_outqueue()) == spec_push_outgoing(
                            spec_out_after_local(
                                msgs_view(old(self).spec_outqueue()),
                                message@,
                                uid,
                                old(self).spec_next_message_id(),
                            ),
                            MessageModel { ttl: spec_sat_sub(message.spec_ttl(), 1), ..message@ },
                        ) && final(self).spec_routing() == r0 && final(self).spec_pending() == old(self).spec_pending())
                    },
                }
            }),
    {
        match rx_info {
            Some(info) => {
                let source_id = message.source_id();
                self.routing_table.update_link_quality(
                    source_id.get(),
                    info.rssi,
                    info.snr,
                    now_ms,
                );
                proof {
                    assert(self.spec_routing() =~= spec_after_update_link_quality(
                        old(self).spec_routing(),
                        message.spec_source_id()@,
                        info.rssi,
                        info.snr,
                        now_ms,
                    ));
                }
                let q = calculate_quality(info.rssi, info.snr);
                let direct = Route {
                    next_hop: source_id,
                    hop_count: 1,
                    quality: q,
                    last_updated: now_ms,
                    is_active: true,
                };
                self.routing_table.update(source_id.get(), direct, now_ms);
                proof {
                    assert(self.spec_routing() =~= spec_routing_after_rx(
                        old(self).spec_routing(),
                        message.spec_source_id(),
                        info.rssi,
                        info.snr,
                        now_ms,
                    ));
                }
            },
            None => (),
        }
        match message.destination_id() {
            Some(receiver) => {
                if receiver.get() == self.uid.get() {
                    self.process_received_message(&message, rx_info, now_ms);
                    let ghost m_model = message@;
                    let _ = crate::device::collections::MessageQueue::enqueue(
                        &mut self.inqueue,
                        message,
                    );
                    proof {
                        if old(self).spec_inqueue().len() < INQUEUE_SIZE {
                            assert(msgs_view(self.spec_inqueue()) =~= msgs_view(
                                old(self).spec_inqueue(),
                            ).push(m_model));
                        }
                    }
                } else if !message.is_expired() {
                    let _ = self.route_message(message, now_ms);
                }
            },
            None => {
                if !message.is_expired() {
                    self.process_received_message(&message, rx_info, now_ms);
                    let mut relay = message.duplicate();
                    let ghost m_model = message@;
                    let _ = crate::device::collections::MessageQueue::enqueue(
                        &mut self.inqueue,
                        message,
                    );
                    proof {
                        if old(self).spec_inqueue().len() < INQUEUE_SIZE {
                            assert(msgs_view(self.spec_inqueue()) =~= msgs_view(
                                old(self).spec_inqueue(),
                            ).push(m_model));
                        }
                    }
                    relay.decrement_ttl();
                    proof {
                        assert(relay@ =~= MessageModel {
                            ttl: spec_sat_sub(m_model.ttl, 1),
                            ..m_model
                        });
                    }
                    let _ = self.enqueue_outgoing(relay);
                }
            },
        }
    }

    /// Decodes one received frame and dispatches it; a malformed frame is
    /// discarded and changes nothing.
    pub fn handle_frame(&mut self, buf: &[u8], rx_info: RxInfo, now_ms: u64) -> (r: bool)
        requires
            old(self).wf(),
        ensures
            final(self).wf(),
            final(self).spec_uid() == old(self).spec_uid(),
            final(self).spec_device_config() == old(self).spec_device_config(),
            r == (crate::message::codec::spec_decode(buf@) is Some),
            (crate::message::codec::spec_decode(buf@) is None ==> final(self).spec_inqueue()
                == old(self).spec_inqueue() && final(self).spec_outqueue() == old(self).spec_outqueue() && final(self).spec_pending() == old(self).spec_pending()
                && final(self).spec_routing() == old(self).spec_routing()),
            (crate::message::codec::spec_decode(buf@) matches Some(m) ==> ({
                let uid = old(self).spec_uid();
                let local = m.destination_id == Some(uid@) || (m.destination_id is None && m.ttl
                    > 0);
                &&& (local && old(self).spec_inqueue().len() < INQUEUE_SIZE ==> msgs_view(
                    final(self).spec_inqueue(),
                ) == msgs_view(old(self).spec_inqueue()).push(m))
                &&& (local && old(self).spec_inqueue().len() >= INQUEUE_SIZE ==> msgs_view(
                    final(self).spec_inqueue(),
                ) == msgs_view(old(self).spec_inqueue()))
                &&& (!local ==> final(self).spec_inqueue() == old(self).spec_inqueue())
            })),
    {
        match Message::decode(buf) {
            Ok(message) => {
                self.handle_message(message, Some(rx_info), now_ms);
                true
            },
            Err(_) => false,
        }
    }

    /// Hands at most `MAX_INQUEUE_PROCESS` locally delivered messages to
    /// the application, front first.
    pub fn process_inqueue(&mut self) -> (r: Vec<Message>)
        requires
            old(self).wf(),
        ensures
            final(self).wf(),
            r@.len() == (if old(self).spec_inqueue().len() < MAX_INQUEUE_PROCESS {
                old(self).spec_inqueue().len() as int
            } else {
                MAX_INQUEUE_PROCESS as int
            }),
            r@ == old(self).spec_inqueue().take(r@.len() as int),
            final(self).spec_inqueue() == old(self).spec_inqueue().skip(r@.len() as int),
            final(self).spec_outqueue() == old(self).spec_outqueue(),
            final(self).spec_pending() == old(self).spec_pending(),
            final(self).spec_routing() == old(self).spec_routing(),
            final(self).spec_uid() == old(self).spec_uid(),
            final(self).spec_device_config() == old(self).spec_device_config(),
            final(self).spec_next_message_id() == old(self).spec_next_message_id(),
    {
        let mut r: Vec<Message> = Vec::new();
        let total = crate::device::collections::MessageQueue::len(&self.inqueue);
        let to_process = if total < MAX_INQUEUE_PROCESS {
            total
        } else {
            MAX_INQUEUE_PROCESS
        };
        let mut k: usize = 0;
        proof {
            assert(r@ =~= old(self).spec_inqueue().take(0));
        }
        while k < to_process
            invariant
                old(self).wf(),
                k <= to_process,
                to_process <= old(self).spec_inqueue().len(),
                r@.len() == k,
                r@ == old(self).spec_inqueue().take(k as int),
                self.spec_inqueue() == old(self).spec_inqueue().skip(k as int),
                self.spec_outqueue() == old(self).spec_outqueue(),
                self.spec_pending() == old(self).spec_pending(),
                self.spec_routing() == old(self).spec_routing(),
                self.spec_uid() == old(self).spec_uid(),
                self.spec_device_config() == old(self).spec_device_config(),
                self.spec_next_message_id() == old(self).spec_next_message_id(),
                self.wf(),
            decreases to_process - k,
        {
            match crate::device::collections::MessageQueue::dequeue(&mut self.inqueue) {
                Ok(message) => {
                    r.push(message);
                },
                Err(_) => (),
            }
            k = k + 1;
            proof {
                assert(r@ =~= old(self).spec_inqueue().take(k as int));
                assert(self.spec_inqueue() =~= old(self).spec_inqueue().skip(k as int));
            }
        }
        r
    }

    /// Takes at most `MAX_OUTQUEUE_TRANSMIT` messages off the outgoing
    /// queue for transmission, front first, and starts tracking every one
    /// that asks for an acknowledgement.  Each such message is tracked
    /// afterwards unless the pending table was full.
    pub fn process_outqueue(&mut self, now_ms: u64) -> (r: Vec<Message>)
        requires
            old(self).wf(),
        ensures
            final(self).wf(),
            r@.len() == (if old(self).spec_outqueue().len() < MAX_OUTQUEUE_TRANSMIT {
                old(self).spec_outqueue().len() as int
            } else {
                MAX_OUTQUEUE_TRANSMIT as int
            }),
            r@ == old(self).spec_outqueue().take(r@.len() as int),
            final(self).spec_outqueue() == old(self).spec_outqueue().skip(r@.len() as int),
            final(self).spec_pending() == spec_register_acks(old(self).spec_pending(), r@, now_ms),
            forall|i: int|
                0 <= i < r@.len() && (#[trigger] r@[i]).spec_req_ack()
                    ==> crate::device::pending_ack::spec_contains_id(
                    final(self).spec_pending(),
                    r@[i].spec_message_id(),
                ) || final(self).spec_pending().len()
                    >= crate::device::pending_ack::MAX_PENDING_ACKS,
            final(self).spec_inqueue() == old(self).spec_inqueue(),
            final(self).spec_routing() == old(self).spec_routing(),
            final(self).spec_uid() == old(self).spec_uid(),
            final(self).spec_device_config() == old(self).spec_device_config(),
            final(self).spec_next_message_id() == old(self).spec_next_message_id(),
    {
        let mut r: Vec<Message> = Vec::new();
        let total = crate::device::collections::MessageQueue::len(&self.outqueue);
        let to_transmit = if total < MAX_OUTQUEUE_TRANSMIT {
            total
        } else {
            MAX_OUTQUEUE_TRANSMIT
        };
        let mut k: usize = 0;
        proof {
            assert(r@ =~= old(self).spec_outqueue().take(0));
        }
        while k < to_transmit
            invariant
                k <= to_transmit,
                to_transmit <= old(self).spec_outqueue().len(),
                r@.len() == k,
                r@ == old(self).spec_outqueue().take(k as int),
                self.spec_outqueue() == old(self).spec_outqueue().skip(k as int),
                self.spec_pending() == spec_register_acks(old(self).spec_pending(), r@, now_ms),
                forall|i: int|
                    0 <= i < r@.len() && (#[trigger] r@[i]).spec_req_ack()
                        ==> crate::device::pending_ack::spec_contains_id(
                        self.spec_pending(),
                        r@[i].spec_message_id(),
                    ) || self.spec_pending().len()
                        >= crate::device::pending_ack::MAX_PENDING_ACKS,
                self.spec_pending().len() >= old(self).spec_pending().len(),
                self.spec_inqueue() == old(self).spec_inqueue(),
                self.spec_routing() == old(self).spec_routing(),
                self.spec_uid() == old(self).spec_uid(),
                self.spec_device_config() == old(self).spec_device_config(),
                self.spec_next_message_id() == old(self).spec_next_message_id(),
                self.wf(),
            decreases to_transmit - k,
        {
            let ghost prev_pending = self.spec_pending();
            let ghost prev_r = r@;
            match crate::device::collections::MessageQueue::dequeue(&mut self.outqueue) {
                Ok(message) => {
                    if message.req_ack() {
                        let _ = self.pending_acks.insert_if_absent(
                            message.message_id(),
                            message.payload(),
                            message.destination_id(),
                            message.ttl(),
                            now_ms,
                        );
                    }
                    r.push(message);
                },
                Err(_) => (),
            }
            k = k + 1;
            proof {
                assert(r@ =~= old(self).spec_outqueue().take(k as int));
                assert(r@.drop_last() =~= old(self).spec_outqueue().take(k as int - 1));
                assert(self.spec_outqueue() =~= old(self).spec_outqueue().skip(k as int));
                assert(self.spec_pending() =~= spec_insert_pending(prev_pending, r@.last(), now_ms));
                assert(self.spec_pending() =~= spec_register_acks(
                    old(self).spec_pending(),
                    r@,
                    now_ms,
                ));
                assert forall|i: int|
                    0 <= i < r@.len() && (#[trigger] r@[i]).spec_req_ack() implies
                    crate::device::pending_ack::spec_contains_id(
                    self.spec_pending(),
                    r@[i].spec_message_id(),
                ) || self.spec_pending().len()
                    >= crate::device::pending_ack::MAX_PENDING_ACKS by {
                    if i < r@.len() - 1 {
                        assert(r@[i] == prev_r[i]);
                        if crate::device::pending_ack::spec_contains_id(
                            prev_pending,
                            prev_r[i].spec_message_id(),
                        ) {
                            let w = choose|w: int|
                                0 <= w < prev_pending.len() && (#[trigger] prev_pending[w]).0
                                    == prev_r[i].spec_message_id();
                            assert(self.spec_pending()[w].0 == prev_r[i].spec_message_id());
                        }
                    } else {
                        let id = r@[i].spec_message_id();
                        if !crate::device::pending_ack::spec_contains_id(prev_pending, id)
                            && prev_pending.len()
                            < crate::device::pending_ack::MAX_PENDING_ACKS {
                            assert(self.spec_pending()[prev_pending.len() as int].0 == id);
                        } else if crate::device::pending_ack::spec_contains_id(
                            prev_pending,
                            id,
                        ) {
                            let w = choose|w: int|
                                0 <= w < prev_pending.len() && (#[trigger] prev_pending[w]).0
                                    == id;
                            assert(self.spec_pending()[w].0 == id);
                        }
                    }
                }
            }
        }
        r
    }

    /// Runs the retry pass: entries whose backoff elapsed are counted and
    /// re-stamped, due retries are rebuilt with their original id and
    /// queued again, given-up messages report a failed delivery towards
    /// their destination, and acknowledged entries are swept out.
    fn retry_pending_messages(&mut self, now_ms: u64)
        requires
            old(self).wf(),
        ensures
            final(self).wf(),
            final(self).spec_pending() == Seq::new(
                old(self).spec_pending().len(),
                |i: int|
                    crate::device::pending_ack::spec_scan_entry(
                        old(self).spec_pending()[i],
                        now_ms,
                    ),
            ).filter(
                |e: (u32, crate::device::pending_ack::PendingAckModel)| !e.1.is_acknowledged,
            ),
            old(self).spec_outqueue().len() <= final(self).spec_outqueue().len(),
            forall|i: int|
                0 <= i < old(self).spec_outqueue().len() ==> final(self).spec_outqueue()[i] == (
                #[trigger] old(self).spec_outqueue()[i]),
            forall|i: int|
                old(self).spec_outqueue().len() <= i < final(self).spec_outqueue().len() ==> (
                #[trigger] final(self).spec_outqueue()[i]).spec_req_ack()
                    && final(self).spec_outqueue()[i].spec_source_id() == old(self).spec_uid(),
            final(self).spec_inqueue() == old(self).spec_inqueue(),
            final(self).spec_routing().route_ttl == old(self).spec_routing().route_ttl,
            final(self).spec_routing().wf(),
            final(self).spec_uid() == old(self).spec_uid(),
            final(self).spec_device_config() == old(self).spec_device_config(),
            final(self).spec_next_message_id() == old(self).spec_next_message_id(),
    {
        self.routing_table.check_wf();
        let (to_retry, to_fail) = self.pending_acks.scan_for_retry(now_ms);
        proof {
            assert(self.spec_pending() =~= Seq::new(
                old(self).spec_pending().len(),
                |i: int|
                    crate::device::pending_ack::spec_scan_entry(
                        old(self).spec_pending()[i],
                        now_ms,
                    ),
            ));
        }
        let ghost scanned = self.spec_pending();
        let ghost out_base = self.spec_outqueue();
        let mut i: usize = 0;
        while i < to_retry.len()
            invariant
                old(self).wf(),
                self.wf(),
                self.spec_pending() == scanned,
                out_base == old(self).spec_outqueue(),
                out_base.len() <= self.spec_outqueue().len(),
                forall|j: int|
                    0 <= j < out_base.len() ==> self.spec_outqueue()[j] == (
                    #[trigger] out_base[j]),
                forall|j: int|
                    out_base.len() <= j < self.spec_outqueue().len() ==> (
                    #[trigger] self.spec_outqueue()[j]).spec_req_ack()
                        && self.spec_outqueue()[j].spec_source_id() == old(self).spec_uid(),
                self.spec_inqueue() == old(self).spec_inqueue(),
                self.spec_routing() == old(self).spec_routing(),
                self.spec_uid() == old(self).spec_uid(),
                self.spec_device_config() == old(self).spec_device_config(),
                self.spec_next_message_id() == old(self).spec_next_message_id(),
            decreases to_retry@.len() - i,
        {
            let id = to_retry[i];
            match self.pending_acks.get(id) {
                Some(ack) => {
                    let mut retry = Message::new(
                        self.uid,
                        ack.destination_uid(),
                        ack.payload().duplicate(),
                        ack.ttl(),
                        true,
                    );
                    retry.set_message_id(id);
                    let _ = self.enqueue_outgoing(retry);
                },
                None => (),
            }
            i = i + 1;
        }
        let mut j: usize = 0;
        while j < to_fail.len()
            invariant
                old(self).wf(),
                self.wf(),
                self.spec_pending() == scanned,
                out_base == old(self).spec_outqueue(),
                out_base.len() <= self.spec_outqueue().len(),
                forall|jj: int|
                    0 <= jj < out_base.len() ==> self.spec_outqueue()[jj] == (
                    #[trigger] out_base[jj]),
                forall|jj: int|
                    out_base.len() <= jj < self.spec_outqueue().len() ==> (
                    #[trigger] self.spec_outqueue()[jj]).spec_req_ack()
                        && self.spec_outqueue()[jj].spec_source_id() == old(self).spec_uid(),
                self.spec_inqueue() == old(self).spec_inqueue(),
                self.spec_routing().route_ttl == old(self).spec_routing().route_ttl,
                self.spec_routing().wf(),
                self.spec_uid() == old(self).spec_uid(),
                self.spec_device_config() == old(self).spec_device_config(),
                self.spec_next_message_id() == old(self).spec_next_message_id(),
            decreases to_fail@.len() - j,
        {
            match to_fail[j] {
                Some(dest) => {
                    match self.routing_table.lookup_route(dest.get(), now_ms) {
                        Some(route) => {
                            self.routing_table.record_failed_delivery(
                                route.next_hop.get(),
                                now_ms,
                            );
                        },
                        None => (),
                    }
                },
                None => (),
            }
            j = j + 1;
        }
        self.pending_acks.retain_unacked();
    }

    /// Scans a window of destinations and starts a discovery for up to
    /// three that need a refresh and have none in flight.
    fn refresh_routes(&mut self, now_ms: u64)
        requires
            old(self).wf(),
        ensures
            final(self).wf(),
            old(self).spec_outqueue().len() <= final(self).spec_outqueue().len(),
            forall|i: int|
                0 <= i < old(self).spec_outqueue().len() ==> final(self).spec_outqueue()[i] == (
                #[trigger] old(self).spec_outqueue()[i]),
            final(self).spec_inqueue() == old(self).spec_inqueue(),
            final(self).spec_pending() == old(self).spec_pending(),
            final(self).spec_routing() == old(self).spec_routing(),
            final(self).spec_uid() == old(self).spec_uid(),
            final(self).spec_device_config() == old(self).spec_device_config(),
    {
        let mut count: usize = 0;
        let mut dest: u16 = 1;
        while dest <= 255 && count < 3
            invariant
                old(self).wf(),
                self.wf(),
                1 <= dest <= 256,
                count <= 3,
                old(self).spec_outqueue().len() <= self.spec_outqueue().len(),
                forall|i: int|
                    0 <= i < old(self).spec_outqueue().len() ==> self.spec_outqueue()[i] == (
                    #[trigger] old(self).spec_outqueue()[i]),
                self.spec_inqueue() == old(self).spec_inqueue(),
                self.spec_pending() == old(self).spec_pending(),
                self.spec_routing() == old(self).spec_routing(),
                self.spec_uid() == old(self).spec_uid(),
                self.spec_device_config() == old(self).spec_device_config(),
            decreases 256 - dest,
        {
            let d = dest as u8;
            if d != self.uid.get() && self.routing_table.needs_refresh(d, now_ms)
                && !self.is_route_discovery_in_progress(d) {
                self.initiate_route_discovery(d);
                count = count + 1;
            }
            dest = dest + 1;
        }
    }

    /// Runs the periodic maintenance pass: retries and give-ups, routing
    /// table cleanup, and an occasional route refresh.  Afterwards every
    /// route still in the table is active and unexpired.
    pub fn perform_maintenance(&mut self, now_ms: u64)
        requires
            old(self).wf(),
        ensures
            final(self).wf(),
            forall|i: int, j: int|
                #![trigger final(self).spec_routing().routes[i].1.routes[j]]
                0 <= i < final(self).spec_routing().routes.len() && 0 <= j < final(self).spec_routing().routes[i].1.routes.len()
                    ==> crate::route::routing_table::spec_route_keep(
                    final(self).spec_routing().routes[i].1.routes[j],
                    final(self).spec_routing().route_ttl,
                    now_ms,
                ),
            final(self).spec_inqueue() == old(self).spec_inqueue(),
            final(self).spec_uid() == old(self).spec_uid(),
            final(self).spec_device_config() == old(self).spec_device_config(),
    {
        self.retry_pending_messages(now_ms);
        self.routing_table.cleanup(now_ms);
        self.maintenance_counter = self.maintenance_counter.wrapping_add(1);
        if self.maintenance_counter % 50 == 0 {
            self.refresh_routes(now_ms);
        }
    }

    /// Reports the radio's outcome for a transmission towards
    /// `next_hop`, feeding the link-quality statistics.
    pub fn record_transmit_outcome(&mut self, next_hop: u8, success: bool, now_ms: u64)
        requires
            old(self).wf(),
        ensures
            final(self).wf(),
            (success ==> final(self).spec_routing() == spec_after_record_success(
                old(self).spec_routing(),
                next_hop,
                now_ms,
            )),
            (!success ==> final(self).spec_routing()
                == crate::route::routing_table::spec_after_record_failure(
                old(self).spec_routing(),
                next_hop,
                now_ms,
            )),
            final(self).spec_inqueue() == old(self).spec_inqueue(),
            final(self).spec_outqueue() == old(self).spec_outqueue(),
            final(self).spec_pending() == old(self).spec_pending(),
            final(self).spec_uid() == old(self).spec_uid(),
            final(self).spec_device_config() == old(self).spec_device_config(),
            final(self).spec_next_message_id() == old(self).spec_next_message_id(),
    {
        if success {
            self.routing_table.record_successful_delivery(next_hop, now_ms);
        } else {
            self.routing_table.record_failed_delivery(next_hop, now_ms);
        }
    }

    /// The best route towards a destination, consulting (and touching)
    /// the routing table.
    pub fn lookup_route(&mut self, destination: u8, now_ms: u64) -> (r: Option<Route>)
        requires
            old(self).wf(),
        ensures
            final(self).wf(),
            r == spec_lookup_result(old(self).spec_routing(), destination, now_ms),
            final(self).spec_routing() == spec_after_lookup(
                old(self).spec_routing(),
                destination,
                now_ms,
            ),
            final(self).spec_inqueue() == old(self).spec_inqueue(),
            final(self).spec_outqueue() == old(self).spec_outqueue(),
            final(self).spec_pending() == old(self).spec_pending(),
            final(self).spec_uid() == old(self).spec_uid(),
    {
        self.routing_table.lookup_route(destination, now_ms)
    }

    /// Counts and averages over the routing table.
    pub fn routing_stats(&self, now_ms: u64) -> (r: RoutingStats)
        ensures
            ({
                let t = crate::route::routing_table::spec_tally_table(
                    self.spec_routing().routes,
                    self.spec_routing().route_ttl,
                    now_ms,
                );
                &&& r.total_entries == self.spec_routing().routes.len()
                &&& r.active_routes == t.active
                &&& r.expired_routes == t.expired
            }),
    {
        self.routing_table.stats(now_ms)
    }
}

} // verus!
