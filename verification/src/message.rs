//! The message record: identity, addressing, hop budget, and payload.

use vstd::prelude::*;

use crate::device::config::DeviceConfig;
use crate::device::Uid;
use crate::message::payload::AckType;
use crate::message::payload::CommandType;
use crate::message::payload::DataType;
use crate::message::payload::DiscoveryType;
use crate::message::payload::Payload;
use crate::message::payload::RouteType;

pub mod codec;
pub mod content;
pub mod error;
pub mod intent;
pub mod payload;

verus! {

/// Largest hop budget a message can be built with; larger requests are
/// clamped.
pub const MAX_TTL: u8 = 5;

/// Largest framed message size in bytes.
pub const MAX_MESSAGE_SIZE: usize = 70;

/// A mesh message.  Built once, then only its id and hop budget change:
/// the id when the originating engine stamps it, the hop budget when the
/// message is relayed.
#[derive(Debug, PartialEq, Eq)]
pub struct Message {
    message_id: u32,
    source_id: Uid,
    destination_id: Option<Uid>,
    ttl: u8,
    req_ack: bool,
    payload: Payload,
}

impl Clone for Message {
    /// An equal copy (equal at the model level).
    fn clone(&self) -> (r: Self)
        ensures
            r@ == self@,
    {
        self.duplicate()
    }
}

impl Message {
    #[verifier::type_invariant]
    spec fn type_inv(self) -> bool {
        self.ttl <= MAX_TTL
    }

    /// The originator-stamped message id.
    pub closed spec fn spec_message_id(self) -> u32 {
        self.message_id
    }

    /// The originator of the message.
    pub closed spec fn spec_source_id(self) -> Uid {
        self.source_id
    }

    /// The destination; `None` is a broadcast.
    pub closed spec fn spec_destination_id(self) -> Option<Uid> {
        self.destination_id
    }

    /// The remaining hop budget.
    pub closed spec fn spec_ttl(self) -> u8 {
        self.ttl
    }

    /// Whether the originator asks for an acknowledgement.
    pub closed spec fn spec_req_ack(self) -> bool {
        self.req_ack
    }

    /// The tagged payload.
    pub closed spec fn spec_payload(self) -> Payload {
        self.payload
    }

    /// Builds a message with an unstamped id of zero; the mesh engine
    /// stamps a fresh id when it originates the message.  The hop budget
    /// is clamped to `MAX_TTL`.
    pub fn new(
        source_id: Uid,
        destination_id: Option<Uid>,
        payload: Payload,
        ttl: u8,
        require_ack: bool,
    ) -> (r: Message)
        ensures
            r.spec_message_id() == 0,
            r.spec_source_id() == source_id,
            r.spec_destination_id() == destination_id,
            r.spec_payload() == payload,
            r.spec_req_ack() == require_ack,
            r.spec_ttl() == (if ttl <= MAX_TTL { ttl } else { MAX_TTL }),
    {
        let clamped = if ttl <= MAX_TTL {
            ttl
        } else {
            MAX_TTL
        };
        Message {
            message_id: 0,
            source_id,
            destination_id,
            payload,
            req_ack: require_ack,
            ttl: clamped,
        }
    }

    /// Builds a data message.
    pub fn new_data(
        source_id: Uid,
        destination_id: Option<Uid>,
        payload: DataType,
        ttl: u8,
        require_ack: bool,
    ) -> (r: Message)
        ensures
            r.spec_message_id() == 0,
            r.spec_source_id() == source_id,
            r.spec_destination_id() == destination_id,
            r.spec_payload() == Payload::Data(payload),
            r.spec_req_ack() == require_ack,
            r.spec_ttl() == (if ttl <= MAX_TTL { ttl } else { MAX_TTL }),
    {
        Self::new(source_id, destination_id, Payload::Data(payload), ttl, require_ack)
    }

    /// Builds an acknowledgement message.
    pub fn new_ack(
        source_id: Uid,
        destination_id: Option<Uid>,
        payload: AckType,
        ttl: u8,
        require_ack: bool,
    ) -> (r: Message)
        ensures
            r.spec_message_id() == 0,
            r.spec_source_id() == source_id,
            r.spec_destination_id() == destination_id,
            r.spec_payload() == Payload::Ack(payload),
            r.spec_req_ack() == require_ack,
            r.spec_ttl() == (if ttl <= MAX_TTL { ttl } else { MAX_TTL }),
    {
        Self::new(source_id, destination_id, Payload::Ack(payload), ttl, require_ack)
    }

    /// Builds a command message.
    pub fn new_command(
        source_id: Uid,
        destination_id: Option<Uid>,
        payload: CommandType,
        ttl: u8,
        require_ack: bool,
    ) -> (r: Message)
        ensures
            r.spec_message_id() == 0,
            r.spec_source_id() == source_id,
            r.spec_destination_id() == destination_id,
            r.spec_payload() == Payload::Command(payload),
            r.spec_req_ack() == require_ack,
            r.spec_ttl() == (if ttl <= MAX_TTL { ttl } else { MAX_TTL }),
    {
        Self::new(source_id, destination_id, Payload::Command(payload), ttl, require_ack)
    }

    /// Builds a route-control message.
    pub fn new_route(
        source_id: Uid,
        destination_id: Option<Uid>,
        payload: RouteType,
        ttl: u8,
        require_ack: bool,
    ) -> (r: Message)
        ensures
            r.spec_message_id() == 0,
            r.spec_source_id() == source_id,
            r.spec_destination_id() == destination_id,
            r.spec_payload() == Payload::Route(payload),
            r.spec_req_ack() == require_ack,
            r.spec_ttl() == (if ttl <= MAX_TTL { ttl } else { MAX_TTL }),
    {
        Self::new(source_id, destination_id, Payload::Route(payload), ttl, require_ack)
    }

    /// Builds a discovery message whose payload records the requested hop
    /// budget and the sender's capabilities.
    pub fn new_discovery(
        source_id: Uid,
        destination_id: Option<Uid>,
        ttl: u8,
        require_ack: bool,
        device_config: DeviceConfig,
    ) -> (r: Message)
        ensures
            r.spec_message_id() == 0,
            r.spec_source_id() == source_id,
            r.spec_destination_id() == destination_id,
            (r.spec_payload() matches Payload::Discovery(d)
                && d.original_ttl == (if ttl <= MAX_TTL { ttl } else { MAX_TTL })
                && d.sender_capabilities == device_config.device_capabilities),
            r.spec_req_ack() == require_ack,
            r.spec_ttl() == (if ttl <= MAX_TTL { ttl } else { MAX_TTL }),
    {
        let clamped = if ttl <= MAX_TTL {
            ttl
        } else {
            MAX_TTL
        };
        let discovery_payload = DiscoveryType {
            original_ttl: clamped,
            sender_capabilities: device_config.device_capabilities,
        };
        Self::new(source_id, destination_id, Payload::Discovery(discovery_payload), clamped, require_ack)
    }

    /// The originator of the message.
    pub fn source_id(&self) -> (r: Uid)
        ensures
            r == self.spec_source_id(),
    {
        self.source_id
    }

    /// The originator-stamped message id.
    pub fn message_id(&self) -> (r: u32)
        ensures
            r == self.spec_message_id(),
    {
        self.message_id
    }

    /// Stamps the message id; retransmissions keep the original id.
    pub fn set_message_id(&mut self, message_id: u32)
        ensures
            final(self).spec_message_id() == message_id,
            final(self).spec_source_id() == old(self).spec_source_id(),
            final(self).spec_destination_id() == old(self).spec_destination_id(),
            final(self).spec_ttl() == old(self).spec_ttl(),
            final(self).spec_req_ack() == old(self).spec_req_ack(),
            final(self).spec_payload() == old(self).spec_payload(),
    {
        proof {
            use_type_invariant(&*self);
        }
        self.message_id = message_id;
    }

    /// Whether the originator asks for an acknowledgement.
    pub fn req_ack(&self) -> (r: bool)
        ensures
            r == self.spec_req_ack(),
    {
        self.req_ack
    }

    /// The destination; `None` is a broadcast.
    pub fn destination_id(&self) -> (r: Option<Uid>)
        ensures
            r == self.spec_destination_id(),
    {
        self.destination_id
    }

    /// The tagged payload.
    pub fn payload(&self) -> (r: &Payload)
        ensures
            *r == self.spec_payload(),
    {
        &self.payload
    }

    /// The remaining hop budget.
    pub fn ttl(&self) -> (r: u8)
        ensures
            r == self.spec_ttl(),
            r <= MAX_TTL,
    {
        proof {
            use_type_invariant(self);
        }
        self.ttl
    }

    /// Spends one hop of the budget; an exhausted budget stays at zero.
    pub fn decrement_ttl(&mut self)
        ensures
            final(self).spec_ttl() == (if old(self).spec_ttl() > 0 {
                (old(self).spec_ttl() - 1) as u8
            } else {
                0u8
            }),
            final(self).spec_message_id() == old(self).spec_message_id(),
            final(self).spec_source_id() == old(self).spec_source_id(),
            final(self).spec_destination_id() == old(self).spec_destination_id(),
            final(self).spec_req_ack() == old(self).spec_req_ack(),
            final(self).spec_payload() == old(self).spec_payload(),
    {
        proof {
            use_type_invariant(&*self);
        }
        if self.ttl > 0 {
            self.ttl = self.ttl - 1;
        }
    }

    /// Whether the hop budget is exhausted.
    pub open spec fn spec_is_expired(self) -> bool {
        self.spec_ttl() == 0
    }

    /// Whether the hop budget is exhausted; an expired message must not be
    /// relayed.
    pub fn is_expired(&self) -> (r: bool)
        ensures
            r == self.spec_is_expired(),
    {
        self.ttl == 0
    }

    /// Whether this node should deliver the message locally: it is the
    /// addressee, or the message is a broadcast.
    pub open spec fn spec_is_for_me(self, uid: Uid) -> bool {
        self.spec_destination_id() is None || self.spec_destination_id() == Some(uid)
    }

    /// Whether this node should deliver the message locally.
    pub fn is_for_me(&self, uid: Uid) -> (r: bool)
        ensures
            r == self.spec_is_for_me(uid),
    {
        match &self.destination_id {
            None => true,
            Some(d) => *d == uid,
        }
    }

    /// An equal copy of the message (equal at the model level).  The copy
    /// also witnesses that the message is well formed.
    pub fn duplicate(&self) -> (r: Message)
        ensures
            r@ == self@,
            self@.wf(),
            r.spec_message_id() == self.spec_message_id(),
            r.spec_source_id() == self.spec_source_id(),
            r.spec_destination_id() == self.spec_destination_id(),
            r.spec_ttl() == self.spec_ttl(),
            r.spec_req_ack() == self.spec_req_ack(),
            r.spec_payload()@ == self.spec_payload()@,
    {
        proof {
            use_type_invariant(self);
        }
        let _source_nonzero = self.source_id.get();
        match &self.destination_id {
            Some(d) => {
                let _dest_nonzero = d.get();
            },
            None => (),
        }
        Message {
            message_id: self.message_id,
            source_id: self.source_id,
            destination_id: self.destination_id,
            ttl: self.ttl,
            req_ack: self.req_ack,
            payload: self.payload.duplicate(),
        }
    }
}

/// The mathematical value of a message: raw wire-level addresses and the
/// payload model.
#[verifier::ext_equal]
pub struct MessageModel {
    pub message_id: u32,
    pub source_id: u8,
    pub destination_id: Option<u8>,
    pub ttl: u8,
    pub req_ack: bool,
    pub payload: crate::message::payload::PayloadModel,
}

impl MessageModel {
    /// A well-formed message: non-zero source, non-zero destination when
    /// present, hop budget within `MAX_TTL`, payload within capacity.
    pub open spec fn wf(self) -> bool {
        &&& self.source_id != 0
        &&& (self.destination_id matches Some(d) ==> d != 0)
        &&& self.ttl <= MAX_TTL
        &&& self.payload.wf()
    }
}

impl View for Message {
    type V = MessageModel;

    open spec fn view(&self) -> MessageModel {
        MessageModel {
            message_id: self.spec_message_id(),
            source_id: self.spec_source_id()@,
            destination_id: (match self.spec_destination_id() {
                Some(u) => Some(u@),
                None => None,
            }),
            ttl: self.spec_ttl(),
            req_ack: self.spec_req_ack(),
            payload: self.spec_payload()@,
        }
    }
}

} // verus!
