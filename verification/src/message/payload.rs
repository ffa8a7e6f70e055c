//! Tagged message payloads: data, commands, acknowledgements, route
//! control, and discovery.

use vstd::prelude::*;
use vstd::string::StringSliceAdditionalSpecFns;

use crate::device::config::DeviceCapabilities;
use crate::device::Uid;

verus! {

/// Largest data body (text or binary) that still fits the framed message
/// size with the header and framing overhead.
pub const MAX_PAYLOAD_SIZE: usize = 56;

/// Acknowledgement payloads.
#[derive(Clone, Copy, Debug, PartialEq, Eq, Structural)]
pub enum AckType {
    /// The message with this id was delivered.
    Success { message_id: u32 },
    /// Response to a discovery: hop count accumulated on the way out, and
    /// the node that answers.
    AckDiscovered { hops: u8, last_hop: Uid },
    /// The message with this id could not be delivered.
    Failure { message_id: u32 },
}

/// Command payloads.
#[derive(Clone, Copy, Debug, PartialEq, Eq, Structural)]
pub enum CommandType {
    SetConfig,
}

/// Route-control payloads; reserved, carried but not acted upon.
#[derive(Clone, Copy, Debug, PartialEq, Eq, Structural)]
pub enum RouteType {
    Error,
    Request,
    Response,
}

/// A discovery request: the TTL it was sent with, and the capabilities of
/// the sender.
#[derive(Clone, Copy, Debug, PartialEq, Eq, Structural)]
pub struct DiscoveryType {
    pub original_ttl: u8,
    pub sender_capabilities: DeviceCapabilities,
}

/// Truncates a byte sequence to the payload capacity.
pub open spec fn spec_truncate_payload(s: Seq<u8>) -> Seq<u8> {
    if s.len() <= MAX_PAYLOAD_SIZE {
        s
    } else {
        s.take(MAX_PAYLOAD_SIZE as int)
    }
}

/// A text body of at most `MAX_PAYLOAD_SIZE` bytes.
#[derive(Debug, PartialEq, Eq)]
pub struct Text {
    data: Vec<u8>,
}

impl Clone for Text {
    /// An equal copy (equal at the byte level).
    fn clone(&self) -> (r: Self)
        ensures
            r@ == self@,
    {
        Text::from_bytes(self.bytes().as_slice())
    }
}

impl View for Text {
    type V = Seq<u8>;

    closed spec fn view(&self) -> Seq<u8> {
        self.data@
    }
}

impl Text {
    #[verifier::type_invariant]
    spec fn type_inv(self) -> bool {
        self.data@.len() <= MAX_PAYLOAD_SIZE
    }

    /// Builds a text body from raw bytes, truncated to capacity.
    pub fn from_bytes(bytes: &[u8]) -> (r: Text)
        ensures
            r@ == spec_truncate_payload(bytes@),
    {
        Text { data: copy_truncated(bytes) }
    }

    /// The bytes of the body; never more than the payload capacity.
    pub fn bytes(&self) -> (r: &Vec<u8>)
        ensures
            r@ == self@,
            r@.len() <= MAX_PAYLOAD_SIZE,
    {
        proof {
            use_type_invariant(self);
        }
        &self.data
    }

    /// The length of the body in bytes; never more than the capacity.
    pub fn len(&self) -> (r: usize)
        ensures
            r == self@.len(),
            r <= MAX_PAYLOAD_SIZE,
    {
        proof {
            use_type_invariant(self);
        }
        self.data.len()
    }
}

/// A binary body of at most `MAX_PAYLOAD_SIZE` bytes.
#[derive(Debug, PartialEq, Eq)]
pub struct Binary {
    data: Vec<u8>,
}

impl Clone for Binary {
    /// An equal copy (equal at the byte level).
    fn clone(&self) -> (r: Self)
        ensures
            r@ == self@,
    {
        Binary::from_bytes(self.bytes().as_slice())
    }
}

impl View for Binary {
    type V = Seq<u8>;

    closed spec fn view(&self) -> Seq<u8> {
        self.data@
    }
}

impl Binary {
    #[verifier::type_invariant]
    spec fn type_inv(self) -> bool {
        self.data@.len() <= MAX_PAYLOAD_SIZE
    }

    /// Builds a binary body from raw bytes, truncated to capacity.
    pub fn from_bytes(bytes: &[u8]) -> (r: Binary)
        ensures
            r@ == spec_truncate_payload(bytes@),
    {
        Binary { data: copy_truncated(bytes) }
    }

    /// The bytes of the body; never more than the payload capacity.
    pub fn bytes(&self) -> (r: &Vec<u8>)
        ensures
            r@ == self@,
            r@.len() <= MAX_PAYLOAD_SIZE,
    {
        proof {
            use_type_invariant(self);
        }
        &self.data
    }

    /// The length of the body in bytes; never more than the capacity.
    pub fn len(&self) -> (r: usize)
        ensures
            r == self@.len(),
            r <= MAX_PAYLOAD_SIZE,
    {
        proof {
            use_type_invariant(self);
        }
        self.data.len()
    }
}

/// Copies at most `MAX_PAYLOAD_SIZE` bytes of a slice into a fresh vector.
fn copy_truncated(bytes: &[u8]) -> (r: Vec<u8>)
    ensures
        r@ == spec_truncate_payload(bytes@),
        r@.len() <= MAX_PAYLOAD_SIZE,
{
    let n = if bytes.len() <= MAX_PAYLOAD_SIZE {
        bytes.len()
    } else {
        MAX_PAYLOAD_SIZE
    };
    let mut data: Vec<u8> = Vec::new();
    let mut i: usize = 0;
    while i < n
        invariant
            i <= n,
            n <= bytes@.len(),
            n == spec_truncate_payload(bytes@).len(),
            data@ == spec_truncate_payload(bytes@).take(i as int),
        decreases n - i,
    {
        data.push(bytes[i]);
        i = i + 1;
        proof {
            assert(data@ =~= spec_truncate_payload(bytes@).take(i as int));
        }
    }
    proof {
        assert(data@ =~= spec_truncate_payload(bytes@));
    }
    data
}

/// Application data: either text or opaque bytes.
#[derive(Clone, Debug, PartialEq, Eq)]
pub enum DataType {
    Text(Text),
    Binary(Binary),
}

impl DataType {
    /// Builds a text payload from a string, truncated to capacity.
    pub fn new_text(text: &str) -> (r: DataType)
        ensures
            (r matches DataType::Text(t) && t@ == spec_truncate_payload(text.spec_bytes())),
    {
        DataType::Text(Text::from_bytes(text.as_bytes()))
    }

    /// Builds a binary payload from raw bytes, truncated to capacity.
    pub fn new_binary(bytes: &[u8]) -> (r: DataType)
        ensures
            (r matches DataType::Binary(b) && b@ == spec_truncate_payload(bytes@)),
    {
        DataType::Binary(Binary::from_bytes(bytes))
    }
}

/// The payload of a message; the variant is carried on the wire as an
/// explicit discriminator byte.
#[derive(Clone, Debug, PartialEq, Eq)]
pub enum Payload {
    Data(DataType),
    Command(CommandType),
    Ack(AckType),
    Route(RouteType),
    Discovery(DiscoveryType),
}

/// The mathematical value of a data payload: its bytes.
#[verifier::ext_equal]
pub enum DataModel {
    Text(Seq<u8>),
    Binary(Seq<u8>),
}

impl DataModel {
    /// The bytes of the body.
    pub open spec fn bytes(self) -> Seq<u8> {
        match self {
            DataModel::Text(s) => s,
            DataModel::Binary(s) => s,
        }
    }

    /// A well-formed data body fits the payload capacity.
    pub open spec fn wf(self) -> bool {
        self.bytes().len() <= MAX_PAYLOAD_SIZE
    }
}

/// The mathematical value of a payload.
#[verifier::ext_equal]
pub enum PayloadModel {
    Data(DataModel),
    Command(CommandType),
    Ack(AckType),
    Route(RouteType),
    Discovery(DiscoveryType),
}

impl PayloadModel {
    /// A well-formed payload: data bodies fit the capacity, and a
    /// discovery answer names a real (non-zero) last hop.
    pub open spec fn wf(self) -> bool {
        match self {
            PayloadModel::Data(d) => d.wf(),
            PayloadModel::Ack(AckType::AckDiscovered { last_hop, .. }) => last_hop@ != 0,
            _ => true,
        }
    }
}

impl View for DataType {
    type V = DataModel;

    open spec fn view(&self) -> DataModel {
        match self {
            DataType::Text(t) => DataModel::Text(t@),
            DataType::Binary(b) => DataModel::Binary(b@),
        }
    }
}

impl View for Payload {
    type V = PayloadModel;

    open spec fn view(&self) -> PayloadModel {
        match self {
            Payload::Data(d) => PayloadModel::Data(d@),
            Payload::Command(c) => PayloadModel::Command(*c),
            Payload::Ack(a) => PayloadModel::Ack(*a),
            Payload::Route(r) => PayloadModel::Route(*r),
            Payload::Discovery(d) => PayloadModel::Discovery(*d),
        }
    }
}

impl DataType {
    /// An equal copy of the payload.  The copy also witnesses that the
    /// body fits the capacity.
    pub fn duplicate(&self) -> (r: DataType)
        ensures
            r@ == self@,
            self@.wf(),
    {
        match self {
            DataType::Text(t) => DataType::Text(Text::from_bytes(t.bytes().as_slice())),
            DataType::Binary(b) => DataType::Binary(Binary::from_bytes(b.bytes().as_slice())),
        }
    }
}

impl Payload {
    /// An equal copy of the payload.  The copy also witnesses that the
    /// payload is well formed.
    pub fn duplicate(&self) -> (r: Payload)
        ensures
            r@ == self@,
            self@.wf(),
    {
        match self {
            Payload::Data(d) => Payload::Data(d.duplicate()),
            Payload::Command(c) => Payload::Command(*c),
            Payload::Ack(a) => {
                match a {
                    AckType::AckDiscovered { last_hop, .. } => {
                        let _last_hop_nonzero = last_hop.get();
                    },
                    _ => (),
                }
                Payload::Ack(*a)
            },
            Payload::Route(r) => Payload::Route(*r),
            Payload::Discovery(d) => Payload::Discovery(*d),
        }
    }
}

} // verus!
