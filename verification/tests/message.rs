//! Tests of the message record and its byte codec.

use quadranet::device::config::DeviceCapabilities;
use quadranet::device::config::DeviceConfig;
use quadranet::device::Uid;
use quadranet::message::error::MessageError;
use quadranet::message::intent::Intent;
use quadranet::message::payload::AckType;
use quadranet::message::payload::DataType;
use quadranet::message::payload::Payload;
use quadranet::message::Message;
use quadranet::message::MAX_MESSAGE_SIZE;
use quadranet::message::MAX_TTL;

#[test]
fn test_message() {
    let source_id = Uid::try_from(0x01).unwrap();
    let destination_id = Uid::try_from(0x02).unwrap();
    let payload = Payload::Data(DataType::new_text("Hello World!"));
    let ttl = 10;

    let message = Message::new(source_id, Some(destination_id), payload.clone(), ttl, false);

    assert_eq!(message.source_id(), source_id);
    assert_eq!(message.destination_id(), Some(destination_id));
    assert_eq!(message.payload(), &payload);
    // The hop budget is clamped to MAX_TTL at construction.
    assert_eq!(message.ttl(), MAX_TTL);
    assert!(!message.is_expired());
    assert!(message.is_for_me(destination_id));
    assert!(!message.is_for_me(source_id));
}

#[test]
fn test_message_decrement_ttl() {
    let source_id = Uid::try_from(0x01).unwrap();
    let destination_id = Uid::try_from(0x02).unwrap();
    let payload = Payload::Data(DataType::new_text("Hello World!"));
    let ttl = 10;

    let mut message = Message::new(source_id, Some(destination_id), payload, ttl, false);

    assert_eq!(message.ttl(), MAX_TTL);
    message.decrement_ttl();
    assert_eq!(message.ttl(), MAX_TTL - 1);
}

#[test]
fn test_message_is_expired() {
    let source_id = Uid::try_from(0x01).unwrap();
    let destination_id = Uid::try_from(0x02).unwrap();
    let payload = Payload::Data(DataType::new_text("Hello World!"));
    let ttl = 10;

    let mut message = Message::new(source_id, Some(destination_id), payload, ttl, false);

    assert!(!message.is_expired());
    for _ in 0..ttl {
        message.decrement_ttl();
    }
    assert!(message.is_expired());
}

#[test]
fn test_message_serialization_deserialization() {
    let source_id = Uid::try_from(0x01).unwrap();
    let destination_id = Uid::try_from(0x02).unwrap();
    let payload = Payload::Data(DataType::new_text("Hello World!"));
    let ttl = 10;

    let message = Message::new(source_id, Some(destination_id), payload.clone(), ttl, false);
    let serialized = message.encode();
    let deserialized: Message = Message::decode(serialized.as_slice()).unwrap();

    assert_eq!(deserialized.source_id(), source_id);
    assert_eq!(deserialized.destination_id(), Some(destination_id));
    assert_eq!(deserialized.payload(), &payload);
    assert_eq!(deserialized.ttl(), MAX_TTL);
}

#[test]
fn test_invalid_serialization_data() {
    let invalid_data = [0u8; 70];
    let result: Result<Message, _> = Message::decode(&invalid_data);

    assert!(result.is_err());
}

#[test]
fn test_broadcast_message_creation() {
    let source_id = Uid::try_from(0x01).unwrap();
    let payload = Payload::Data(DataType::new_text("Hello World!"));
    let ttl = 10;

    let message = Message::new(source_id, None, payload, ttl, false);

    assert_eq!(message.destination_id(), None);
    assert!(message.is_for_me(Uid::try_from(0x02).unwrap()));
}

#[test]
fn test_message_for_me() {
    let source_id = Uid::try_from(0x01).unwrap();
    let destination_id = Uid::try_from(0x02).unwrap();
    let payload = Payload::Data(DataType::new_text("Hello World!"));
    let ttl = 10;

    let message = Message::new(source_id, Some(destination_id), payload, ttl, false);

    assert!(message.is_for_me(destination_id));
    assert!(!message.is_for_me(source_id));
}

#[test]
fn test_round_trip_every_payload_kind() {
    let source = Uid::try_from(7).unwrap();
    let dest = Uid::try_from(9).unwrap();
    let last_hop = Uid::try_from(3).unwrap();
    let payloads = vec![
        Payload::Data(DataType::new_text("hello")),
        Payload::Data(DataType::new_binary(&[0, 1, 2, 254, 255])),
        Payload::Command(quadranet::message::payload::CommandType::SetConfig),
        Payload::Ack(AckType::Success { message_id: 0xdead_beef }),
        Payload::Ack(AckType::AckDiscovered { hops: 2, last_hop }),
        Payload::Ack(AckType::Failure { message_id: 1 }),
        Payload::Route(quadranet::message::payload::RouteType::Request),
        Payload::Route(quadranet::message::payload::RouteType::Response),
        Payload::Route(quadranet::message::payload::RouteType::Error),
        Payload::Discovery(quadranet::message::payload::DiscoveryType {
            original_ttl: 3,
            sender_capabilities: DeviceCapabilities::LoraWifi,
        }),
    ];
    for payload in payloads {
        let mut message = Message::new(source, Some(dest), payload, 4, true);
        message.set_message_id(0x0102_0304);
        let encoded = message.encode();
        assert!(encoded.len() <= MAX_MESSAGE_SIZE);
        let decoded = Message::decode(encoded.as_slice()).unwrap();
        assert_eq!(decoded, message);
    }
}

#[test]
fn test_round_trip_broadcast_and_padding() {
    let source = Uid::try_from(1).unwrap();
    let mut message = Message::new(
        source,
        None,
        Payload::Data(DataType::new_text("pad me")),
        2,
        false,
    );
    message.set_message_id(77);
    let mut encoded = message.encode();
    // Zero padding after the end-of-frame marker is tolerated.
    while encoded.len() < MAX_MESSAGE_SIZE {
        encoded.push(0);
    }
    let decoded = Message::decode(encoded.as_slice()).unwrap();
    assert_eq!(decoded, message);

    // Non-zero padding after the marker is malformed.
    let mut dirty = message.encode();
    while dirty.len() < MAX_MESSAGE_SIZE {
        dirty.push(0xAA);
    }
    assert_eq!(
        Message::decode(dirty.as_slice()),
        Err(MessageError::DeserializationError)
    );
}

#[test]
fn test_decode_rejects_malformed_frames() {
    let source = Uid::try_from(1).unwrap();
    let mut message = Message::new(
        source,
        Some(Uid::try_from(2).unwrap()),
        Payload::Data(DataType::new_text("x")),
        3,
        false,
    );
    message.set_message_id(5);
    let good = message.encode();
    assert!(Message::decode(good.as_slice()).is_ok());

    // Truncated frame.
    let truncated = &good[..good.len() - 2];
    assert!(Message::decode(truncated).is_err());

    // A zero source byte is malformed (index 5: length byte, 4 id bytes).
    let mut zero_source = good.clone();
    zero_source[5] = 0;
    assert!(Message::decode(zero_source.as_slice()).is_err());

    // A hop budget beyond MAX_TTL is malformed (index 7).
    let mut big_ttl = good.clone();
    big_ttl[7] = MAX_TTL + 1;
    assert!(Message::decode(big_ttl.as_slice()).is_err());

    // A missing end-of-frame marker is malformed.
    let n = good[0] as usize;
    let mut no_marker = good.clone();
    no_marker[1 + n] = 1;
    assert!(Message::decode(no_marker.as_slice()).is_err());

    // An empty buffer is malformed.
    assert!(Message::decode(&[]).is_err());
}

#[test]
fn test_text_and_binary_truncate_to_capacity() {
    let long_text = "x".repeat(200);
    let data = DataType::new_text(&long_text);
    match &data {
        DataType::Text(t) => assert_eq!(t.len(), quadranet::message::payload::MAX_PAYLOAD_SIZE),
        DataType::Binary(_) => panic!("expected a text body"),
    }
    let long_bytes = [7u8; 200];
    let data = DataType::new_binary(&long_bytes);
    match &data {
        DataType::Binary(b) => assert_eq!(b.len(), quadranet::message::payload::MAX_PAYLOAD_SIZE),
        DataType::Text(_) => panic!("expected a binary body"),
    }
}

#[test]
fn test_device_config_byte_round_trip() {
    let classes = [
        quadranet::device::config::DeviceClass::A,
        quadranet::device::config::DeviceClass::B,
        quadranet::device::config::DeviceClass::C,
    ];
    let caps = [
        DeviceCapabilities::Lora,
        DeviceCapabilities::LoraBle,
        DeviceCapabilities::LoraWifi,
    ];
    let mut expected: u8 = 0;
    for class in classes {
        for cap in caps {
            let config = DeviceConfig { device_class: class, device_capabilities: cap };
            let byte = u8::from(config);
            assert_eq!(byte, expected);
            assert_eq!(DeviceConfig::from(byte), config);
            expected += 1;
        }
    }
    // Unknown bytes decode to the default configuration.
    assert_eq!(DeviceConfig::from(200), DeviceConfig::default());
}

#[test]
fn test_intent_try_from() {
    assert_eq!(Intent::try_from(0), Ok(Intent::Data));
    assert_eq!(Intent::try_from(6), Ok(Intent::Ack));
    assert_eq!(Intent::try_from(7), Err(MessageError::DeserializationError));
}
