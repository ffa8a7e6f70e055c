//! The byte codec for messages.
//!
//! A frame is a length byte, the message body, and a zero end-of-frame
//! marker; zero-byte padding after the marker is tolerated.  The body
//! carries the message id (32-bit little-endian), the source and
//! destination bytes (zero destination meaning broadcast), the hop
//! budget, the ack-request flag, and the tagged payload.  Decoding
//! rejects everything else with the codec's single error.

use vstd::prelude::*;

use crate::device::config::spec_caps_byte;
use crate::device::config::spec_caps_of_byte;
use crate::device::config::DeviceCapabilities;
use crate::device::spec_uid_from_byte;
use crate::message::error::MessageError;
use crate::message::payload::AckType;
use crate::message::payload::Binary;
use crate::message::payload::CommandType;
use crate::message::payload::DataModel;
use crate::message::payload::DataType;
use crate::message::payload::Payload;
use crate::message::payload::PayloadModel;
use crate::message::payload::RouteType;
use crate::message::payload::Text;
use crate::message::payload::DiscoveryType;
use crate::message::payload::MAX_PAYLOAD_SIZE;
use crate::message::Message;
use crate::message::MessageModel;
use crate::message::MAX_MESSAGE_SIZE;
use crate::message::MAX_TTL;

verus! {

/// The four bytes of a 32-bit value, least significant first.
pub open spec fn spec_u32_bytes(v: u32) -> Seq<u8> {
    seq![
        (v & 0xff) as u8,
        ((v >> 8) & 0xff) as u8,
        ((v >> 16) & 0xff) as u8,
        ((v >> 24) & 0xff) as u8,
    ]
}

/// The 32-bit value carried by four bytes, least significant first.
pub open spec fn spec_u32_of_bytes(b0: u8, b1: u8, b2: u8, b3: u8) -> u32 {
    ((b0 as u32) | ((b1 as u32) << 8) | ((b2 as u32) << 16) | ((b3 as u32) << 24)) as u32
}

/// Reassembling the four bytes of a value yields the value.
proof fn lemma_u32_bytes_round_trip(v: u32)
    ensures
        spec_u32_of_bytes(
            (v & 0xff) as u8,
            ((v >> 8) & 0xff) as u8,
            ((v >> 16) & 0xff) as u8,
            ((v >> 24) & 0xff) as u8,
        ) == v,
{
    assert(((v & 0xff) as u8) as u32 | ((((v >> 8) & 0xff) as u8) as u32) << 8 | ((((v >> 16)
        & 0xff) as u8) as u32) << 16 | ((((v >> 24) & 0xff) as u8) as u32) << 24 == v)
        by (bit_vector);
}

/// The wire bytes of a payload: a discriminator byte, then the variant's
/// own fields.
pub open spec fn spec_payload_bytes(p: PayloadModel) -> Seq<u8> {
    match p {
        PayloadModel::Data(DataModel::Text(s)) => seq![0u8, 0u8, s.len() as u8] + s,
        PayloadModel::Data(DataModel::Binary(s)) => seq![0u8, 1u8, s.len() as u8] + s,
        PayloadModel::Command(CommandType::SetConfig) => seq![1u8, 0u8],
        PayloadModel::Ack(AckType::Success { message_id }) => seq![2u8, 0u8] + spec_u32_bytes(
            message_id,
        ),
        PayloadModel::Ack(AckType::AckDiscovered { hops, last_hop }) => seq![
            2u8,
            1u8,
            hops,
            last_hop@,
        ],
        PayloadModel::Ack(AckType::Failure { message_id }) => seq![2u8, 2u8] + spec_u32_bytes(
            message_id,
        ),
        PayloadModel::Route(RouteType::Error) => seq![3u8, 0u8],
        PayloadModel::Route(RouteType::Request) => seq![3u8, 1u8],
        PayloadModel::Route(RouteType::Response) => seq![3u8, 2u8],
        PayloadModel::Discovery(d) => seq![4u8, d.original_ttl, spec_caps_byte(d.sender_capabilities)],
    }
}

/// The payload a byte sequence decodes to, if it is exactly one
/// well-formed payload.
pub open spec fn spec_payload_of_bytes(s: Seq<u8>) -> Option<PayloadModel> {
    if s.len() < 2 {
        None
    } else if s[0] == 0 {
        if s.len() < 3 {
            None
        } else {
            let n = s[2] as int;
            if n <= MAX_PAYLOAD_SIZE && s.len() == 3 + n {
                if s[1] == 0 {
                    Some(PayloadModel::Data(DataModel::Text(s.subrange(3, s.len() as int))))
                } else if s[1] == 1 {
                    Some(PayloadModel::Data(DataModel::Binary(s.subrange(3, s.len() as int))))
                } else {
                    None
                }
            } else {
                None
            }
        }
    } else if s[0] == 1 {
        if s[1] == 0 && s.len() == 2 {
            Some(PayloadModel::Command(CommandType::SetConfig))
        } else {
            None
        }
    } else if s[0] == 2 {
        if s[1] == 0 && s.len() == 6 {
            Some(
                PayloadModel::Ack(
                    AckType::Success { message_id: spec_u32_of_bytes(s[2], s[3], s[4], s[5]) },
                ),
            )
        } else if s[1] == 1 && s.len() == 4 && s[3] != 0 {
            Some(
                PayloadModel::Ack(
                    AckType::AckDiscovered { hops: s[2], last_hop: spec_uid_from_byte(s[3]) },
                ),
            )
        } else if s[1] == 2 && s.len() == 6 {
            Some(
                PayloadModel::Ack(
                    AckType::Failure { message_id: spec_u32_of_bytes(s[2], s[3], s[4], s[5]) },
                ),
            )
        } else {
            None
        }
    } else if s[0] == 3 {
        if s.len() == 2 && s[1] == 0 {
            Some(PayloadModel::Route(RouteType::Error))
        } else if s.len() == 2 && s[1] == 1 {
            Some(PayloadModel::Route(RouteType::Request))
        } else if s.len() == 2 && s[1] == 2 {
            Some(PayloadModel::Route(RouteType::Response))
        } else {
            None
        }
    } else if s[0] == 4 {
        if s.len() == 3 {
            match spec_caps_of_byte(s[2]) {
                Some(caps) => Some(
                    PayloadModel::Discovery(
                        DiscoveryType { original_ttl: s[1], sender_capabilities: caps },
                    ),
                ),
                None => None,
            }
        } else {
            None
        }
    } else {
        None
    }
}

/// The unframed body of a message.
pub open spec fn spec_message_bytes(m: MessageModel) -> Seq<u8> {
    spec_u32_bytes(m.message_id) + seq![
        m.source_id,
        (match m.destination_id {
            Some(d) => d,
            None => 0u8,
        }),
        m.ttl,
        (if m.req_ack {
            1u8
        } else {
            0u8
        }),
    ] + spec_payload_bytes(m.payload)
}

/// The message a body decodes to, if every field is well formed.
pub open spec fn spec_decode_body(body: Seq<u8>) -> Option<MessageModel> {
    if body.len() < 8 {
        None
    } else {
        let source = body[4];
        let dest = body[5];
        let ttl = body[6];
        let ra = body[7];
        if source == 0 || ttl > MAX_TTL || ra > 1 {
            None
        } else {
            match spec_payload_of_bytes(body.skip(8)) {
                Some(p) => Some(
                    MessageModel {
                        message_id: spec_u32_of_bytes(body[0], body[1], body[2], body[3]),
                        source_id: source,
                        destination_id: (if dest == 0 {
                            None
                        } else {
                            Some(dest)
                        }),
                        ttl,
                        req_ack: ra == 1,
                        payload: p,
                    },
                ),
                None => None,
            }
        }
    }
}

/// The framed wire bytes of a message: length byte, body, end-of-frame
/// marker.
pub open spec fn spec_encode(m: MessageModel) -> Seq<u8> {
    let body = spec_message_bytes(m);
    seq![body.len() as u8] + body + seq![0u8]
}

/// The message a framed byte sequence decodes to: the length byte must
/// delimit a well-formed body, the end-of-frame marker must follow it,
/// and anything after the marker must be zero padding.
pub open spec fn spec_decode(data: Seq<u8>) -> Option<MessageModel> {
    if data.len() < 2 {
        None
    } else {
        let n = data[0] as int;
        if data.len() >= n + 2 && data[1 + n] == 0 && (forall|k: int|
            n + 2 <= k < data.len() ==> data[k] == 0) {
            spec_decode_body(data.subrange(1, 1 + n))
        } else {
            None
        }
    }
}

/// Any validly constructed message survives the codec round trip: its
/// encoding decodes to an equal message.
pub proof fn lemma_codec_round_trip(m: MessageModel)
    requires
        m.wf(),
    ensures
        spec_decode(spec_encode(m)) == Some(m),
{
    let body = spec_message_bytes(m);
    let data = spec_encode(m);
    lemma_payload_bytes_len(m.payload);
    assert(body.len() == 8 + spec_payload_bytes(m.payload).len());
    assert(data.len() == body.len() + 2);
    assert(data[0] == body.len() as u8);
    assert(data[1 + body.len() as int] == 0);
    assert(data.subrange(1, 1 + body.len() as int) =~= body);
    assert(spec_decode(data) == spec_decode_body(body));
    lemma_u32_bytes_round_trip(m.message_id);
    assert(body.skip(8) =~= spec_payload_bytes(m.payload));
    lemma_payload_round_trip(m.payload);
    assert(spec_decode_body(body) == Some(m));
}

/// The encoded payload fits the frame: never longer than tag, subtag,
/// length byte and payload capacity together.
proof fn lemma_payload_bytes_len(p: PayloadModel)
    requires
        p.wf(),
    ensures
        2 <= spec_payload_bytes(p).len() <= 3 + MAX_PAYLOAD_SIZE,
{
}

/// Any well-formed payload survives its codec round trip.
proof fn lemma_payload_round_trip(p: PayloadModel)
    requires
        p.wf(),
    ensures
        spec_payload_of_bytes(spec_payload_bytes(p)) == Some(p),
{
    let s = spec_payload_bytes(p);
    match p {
        PayloadModel::Data(DataModel::Text(t)) => {
            assert(s.subrange(3, s.len() as int) =~= t);
        },
        PayloadModel::Data(DataModel::Binary(b)) => {
            assert(s.subrange(3, s.len() as int) =~= b);
        },
        PayloadModel::Ack(AckType::Success { message_id }) => {
            lemma_u32_round_trip_bytes(message_id);
        },
        PayloadModel::Ack(AckType::AckDiscovered { hops, last_hop }) => {
            crate::device::lemma_uid_byte_round_trip(last_hop);
        },
        PayloadModel::Ack(AckType::Failure { message_id }) => {
            lemma_u32_round_trip_bytes(message_id);
        },
        _ => (),
    }
}

/// Splitting a 32-bit value into its wire bytes and reassembling them
/// yields the value.
proof fn lemma_u32_round_trip_bytes(v: u32)
    ensures
        ({
            let b = spec_u32_bytes(v);
            spec_u32_of_bytes(b[0], b[1], b[2], b[3]) == v
        }),
{
    lemma_u32_bytes_round_trip(v);
}

/// Copies `data[from..to]` into a fresh vector.
fn copy_range(data: &[u8], from: usize, to: usize) -> (r: Vec<u8>)
    requires
        from <= to <= data@.len(),
    ensures
        r@ == data@.subrange(from as int, to as int),
{
    let mut out: Vec<u8> = Vec::new();
    let mut i = from;
    while i < to
        invariant
            from <= i <= to <= data@.len(),
            out@ == data@.subrange(from as int, i as int),
        decreases to - i,
    {
        out.push(data[i]);
        i = i + 1;
        proof {
            assert(out@ =~= data@.subrange(from as int, i as int));
        }
    }
    proof {
        assert(out@ =~= data@.subrange(from as int, to as int));
    }
    out
}

impl Message {
    /// Encodes the message into its framed wire bytes; the frame always
    /// fits `MAX_MESSAGE_SIZE`.
    pub fn encode(&self) -> (r: Vec<u8>)
        ensures
            r@ == spec_encode(self@),
            r@.len() <= MAX_MESSAGE_SIZE,
            self@.wf(),
    {
        let mut body: Vec<u8> = Vec::new();
        let id = self.message_id();
        body.push((id & 0xff) as u8);
        body.push(((id >> 8) & 0xff) as u8);
        body.push(((id >> 16) & 0xff) as u8);
        body.push(((id >> 24) & 0xff) as u8);
        body.push(self.source_id().get());
        match self.destination_id() {
            Some(d) => body.push(d.get()),
            None => body.push(0),
        }
        body.push(self.ttl());
        body.push(
            if self.req_ack() {
                1
            } else {
                0
            },
        );
        proof {
            assert(body@ =~= spec_u32_bytes(self@.message_id) + seq![
                self@.source_id,
                (match self@.destination_id {
                    Some(d) => d,
                    None => 0u8,
                }),
                self@.ttl,
                (if self@.req_ack {
                    1u8
                } else {
                    0u8
                }),
            ]);
        }
        match self.payload() {
            Payload::Data(DataType::Text(t)) => {
                body.push(0);
                body.push(0);
                let bs = t.bytes();
                body.push(bs.len() as u8);
                let mut i: usize = 0;
                let ghost mid = body@;
                while i < bs.len()
                    invariant
                        i <= bs@.len(),
                        body@ == mid + bs@.take(i as int),
                    decreases bs@.len() - i,
                {
                    body.push(bs[i]);
                    i = i + 1;
                    proof {
                        assert(body@ =~= mid + bs@.take(i as int));
                    }
                }
                proof {
                    assert(bs@.take(bs@.len() as int) =~= bs@);
                }
            },
            Payload::Data(DataType::Binary(b)) => {
                body.push(0);
                body.push(1);
                let bs = b.bytes();
                body.push(bs.len() as u8);
                let mut i: usize = 0;
                let ghost mid = body@;
                while i < bs.len()
                    invariant
                        i <= bs@.len(),
                        body@ == mid + bs@.take(i as int),
                    decreases bs@.len() - i,
                {
                    body.push(bs[i]);
                    i = i + 1;
                    proof {
                        assert(body@ =~= mid + bs@.take(i as int));
                    }
                }
                proof {
                    assert(bs@.take(bs@.len() as int) =~= bs@);
                }
            },
            Payload::Command(CommandType::SetConfig) => {
                body.push(1);
                body.push(0);
            },
            Payload::Ack(a) => {
                body.push(2);
                match a {
                    AckType::Success { message_id } => {
                        body.push(0);
                        let v = *message_id;
                        body.push((v & 0xff) as u8);
                        body.push(((v >> 8) & 0xff) as u8);
                        body.push(((v >> 16) & 0xff) as u8);
                        body.push(((v >> 24) & 0xff) as u8);
                    },
                    AckType::AckDiscovered { hops, last_hop } => {
                        body.push(1);
                        body.push(*hops);
                        body.push(last_hop.get());
                    },
                    AckType::Failure { message_id } => {
                        body.push(2);
                        let v = *message_id;
                        body.push((v & 0xff) as u8);
                        body.push(((v >> 8) & 0xff) as u8);
                        body.push(((v >> 16) & 0xff) as u8);
                        body.push(((v >> 24) & 0xff) as u8);
                    },
                }
            },
            Payload::Route(rt) => {
                body.push(3);
                match rt {
                    RouteType::Error => body.push(0),
                    RouteType::Request => body.push(1),
                    RouteType::Response => body.push(2),
                }
            },
            Payload::Discovery(d) => {
                body.push(4);
                body.push(d.original_ttl);
                body.push(d.sender_capabilities.as_byte());
            },
        }
        proof {
            assert(body@ =~= spec_message_bytes(self@));
            lemma_payload_bytes_len(self@.payload);
        }
        let mut out: Vec<u8> = Vec::new();
        out.push(body.len() as u8);
        let mut i: usize = 0;
        let ghost start = out@;
        while i < body.len()
            invariant
                i <= body@.len(),
                out@ == start + body@.take(i as int),
            decreases body@.len() - i,
        {
            out.push(body[i]);
            i = i + 1;
            proof {
                assert(out@ =~= start + body@.take(i as int));
            }
        }
        out.push(0);
        proof {
            assert(body@.take(body@.len() as int) =~= body@);
            assert(out@ =~= spec_encode(self@));
        }
        out
    }

    /// Decodes one framed message from a byte buffer; any malformed frame
    /// yields the codec's single error.
    pub fn decode(data: &[u8]) -> (r: Result<Message, MessageError>)
        ensures
            (match spec_decode(data@) {
                Some(m) => r matches Ok(msg) && msg@ == m,
                None => r == Err::<Message, MessageError>(MessageError::DeserializationError),
            }),
    {
        if data.len() < 2 {
            return Err(MessageError::DeserializationError);
        }
        let n = data[0] as usize;
        if data.len() < n + 2 {
            return Err(MessageError::DeserializationError);
        }
        if data[1 + n] != 0 {
            return Err(MessageError::DeserializationError);
        }
        let mut k = n + 2;
        while k < data.len()
            invariant
                data@.len() >= 2,
                n == data@[0] as int,
                n + 2 <= k <= data@.len(),
                data@[1 + n as int] == 0,
                forall|j: int| n + 2 <= j < k ==> (#[trigger] data@[j]) == 0,
            decreases data@.len() - k,
        {
            if data[k] != 0 {
                return Err(MessageError::DeserializationError);
            }
            k = k + 1;
        }
        let ghost body = data@.subrange(1, 1 + n as int);
        if n < 8 {
            return Err(MessageError::DeserializationError);
        }
        let message_id = (data[1] as u32) | ((data[2] as u32) << 8) | ((data[3] as u32) << 16) | (
        (data[4] as u32) << 24);
        let source = data[5];
        let dest = data[6];
        let ttl = data[7];
        let ra = data[8];
        if source == 0 || ttl > MAX_TTL || ra > 1 {
            return Err(MessageError::DeserializationError);
        }
        proof {
            assert(body.skip(8) =~= data@.subrange(9, 1 + n as int));
            assert(message_id == spec_u32_of_bytes(body[0], body[1], body[2], body[3]));
        }
        let plen = n - 8;
        if plen < 2 {
            return Err(MessageError::DeserializationError);
        }
        let tag = data[9];
        let sub = data[10];
        let payload: Payload = if tag == 0 {
            if plen < 3 {
                return Err(MessageError::DeserializationError);
            }
            let dn = data[11] as usize;
            if dn > MAX_PAYLOAD_SIZE || plen != 3 + dn {
                return Err(MessageError::DeserializationError);
            }
            let bytes = copy_range(data, 12, 12 + dn);
            proof {
                assert(bytes@ =~= body.skip(8).subrange(3, body.skip(8).len() as int));
            }
            if sub == 0 {
                Payload::Data(DataType::Text(Text::from_bytes(bytes.as_slice())))
            } else if sub == 1 {
                Payload::Data(DataType::Binary(Binary::from_bytes(bytes.as_slice())))
            } else {
                return Err(MessageError::DeserializationError);
            }
        } else if tag == 1 {
            if sub == 0 && plen == 2 {
                Payload::Command(CommandType::SetConfig)
            } else {
                return Err(MessageError::DeserializationError);
            }
        } else if tag == 2 {
            if sub == 0 && plen == 6 {
                let v = (data[11] as u32) | ((data[12] as u32) << 8) | ((data[13] as u32) << 16) | (
                (data[14] as u32) << 24);
                Payload::Ack(AckType::Success { message_id: v })
            } else if sub == 1 && plen == 4 && data[12] != 0 {
                match crate::device::Uid::new(data[12]) {
                    Some(last_hop) => {
                        proof {
                            crate::device::lemma_uid_byte_round_trip(last_hop);
                        }
                        Payload::Ack(AckType::AckDiscovered { hops: data[11], last_hop })
                    },
                    None => {
                        return Err(MessageError::DeserializationError);
                    },
                }
            } else if sub == 2 && plen == 6 {
                let v = (data[11] as u32) | ((data[12] as u32) << 8) | ((data[13] as u32) << 16) | (
                (data[14] as u32) << 24);
                Payload::Ack(AckType::Failure { message_id: v })
            } else {
                return Err(MessageError::DeserializationError);
            }
        } else if tag == 3 {
            if plen == 2 && sub == 0 {
                Payload::Route(RouteType::Error)
            } else if plen == 2 && sub == 1 {
                Payload::Route(RouteType::Request)
            } else if plen == 2 && sub == 2 {
                Payload::Route(RouteType::Response)
            } else {
                return Err(MessageError::DeserializationError);
            }
        } else if tag == 4 {
            if plen != 3 {
                return Err(MessageError::DeserializationError);
            }
            match DeviceCapabilities::from_byte(data[11]) {
                Some(caps) => Payload::Discovery(
                    DiscoveryType { original_ttl: sub, sender_capabilities: caps },
                ),
                None => {
                    return Err(MessageError::DeserializationError);
                },
            }
        } else {
            return Err(MessageError::DeserializationError);
        };
        proof {
            assert(spec_payload_of_bytes(body.skip(8)) == Some(payload@));
        }
        let source_uid = match crate::device::Uid::new(source) {
            Some(u) => u,
            None => {
                return Err(MessageError::DeserializationError);
            },
        };
        let destination = if dest == 0 {
            None
        } else {
            match crate::device::Uid::new(dest) {
                Some(u) => Some(u),
                None => {
                    return Err(MessageError::DeserializationError);
                },
            }
        };
        let mut msg = Message::new(source_uid, destination, payload, ttl, ra == 1);
        msg.set_message_id(message_id);
        proof {
            assert(spec_decode(data@) == spec_decode_body(body));
            assert(msg@ =~= spec_decode_body(body).unwrap());
        }
        Ok(msg)
    }
}

} // verus!
