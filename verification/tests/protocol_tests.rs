use qtun::protocol::{Envelope, MessagePacket, MessagePing, Type};

fn ping_sample() -> MessagePing {
    MessagePing {
        timestamp: 1234,
        local_addr: String::from("gadx"),
        local_private_addr: String::from("xxx"),
        ip: String::from("1.1.1.1"),
        dc: String::from("2.2.2.2"),
    }
}

#[test]
fn test_ping_encoding_matches_prost() {
    // the same fields encoded with prost's field encoders must give the
    // same bytes
    let ping = ping_sample();
    let ours = ping.encode_to_vec();

    let mut expected: Vec<u8> = Vec::new();
    prost::encoding::int64::encode(1, &1234i64, &mut expected);
    prost::encoding::string::encode(2, &String::from("gadx"), &mut expected);
    prost::encoding::string::encode(3, &String::from("xxx"), &mut expected);
    prost::encoding::string::encode(4, &String::from("1.1.1.1"), &mut expected);
    prost::encoding::string::encode(5, &String::from("2.2.2.2"), &mut expected);

    assert_eq!(ours, expected);
}

#[test]
fn test_negative_timestamp_matches_prost() {
    let ping = MessagePing {
        timestamp: -7,
        local_addr: String::new(),
        local_private_addr: String::new(),
        ip: String::new(),
        dc: String::new(),
    };
    let ours = ping.encode_to_vec();
    let mut expected: Vec<u8> = Vec::new();
    prost::encoding::int64::encode(1, &-7i64, &mut expected);
    assert_eq!(ours, expected);
}

#[test]
fn test_packet_encoding_matches_prost() {
    let pkt = MessagePacket { payload: vec![1, 2, 3, 250] };
    let ours = pkt.encode_to_vec();
    let mut expected: Vec<u8> = Vec::new();
    prost::encoding::bytes::encode(1, &vec![1u8, 2, 3, 250], &mut expected);
    assert_eq!(ours, expected);
}

#[test]
fn test_envelope_ping_roundtrip() {
    let env = Envelope { kind: Some(Type::Ping(ping_sample())) };
    let bytes = env.encode_to_vec();
    let back = Envelope::decode(&bytes).unwrap();
    assert_eq!(back, env);
}

#[test]
fn test_envelope_packet_roundtrip() {
    let env = Envelope {
        kind: Some(Type::Packet(MessagePacket { payload: vec![0u8; 1400] })),
    };
    let bytes = env.encode_to_vec();
    let back = Envelope::decode(&bytes).unwrap();
    assert_eq!(back, env);
}

#[test]
fn test_envelope_defaults_roundtrip() {
    // default fields are omitted on the wire and come back as defaults
    let env = Envelope {
        kind: Some(Type::Ping(MessagePing {
            timestamp: 0,
            local_addr: String::new(),
            local_private_addr: String::new(),
            ip: String::new(),
            dc: String::new(),
        })),
    };
    let bytes = env.encode_to_vec();
    assert_eq!(bytes, vec![0x0a, 0x00]);
    let back = Envelope::decode(&bytes).unwrap();
    assert_eq!(back, env);
}

#[test]
fn test_empty_envelope_roundtrip() {
    let env = Envelope { kind: None };
    let bytes = env.encode_to_vec();
    assert!(bytes.is_empty());
    let back = Envelope::decode(&bytes).unwrap();
    assert_eq!(back, env);
}

#[test]
fn test_envelope_wire_bytes() {
    // key 0x0a (field 1, length-delimited), length, then the ping body
    let env = Envelope {
        kind: Some(Type::Ping(MessagePing {
            timestamp: 1,
            local_addr: String::new(),
            local_private_addr: String::new(),
            ip: String::new(),
            dc: String::new(),
        })),
    };
    assert_eq!(env.encode_to_vec(), vec![0x0a, 0x02, 0x08, 0x01]);
}

#[test]
fn test_unknown_fields_are_skipped() {
    // a ping body holding an unknown varint field (tag 9) and an unknown
    // length-delimited field (tag 12) decodes without complaint
    let body = vec![
        0x48, 0x2a, // tag 9, varint 42
        0x62, 0x02, 0xaa, 0xbb, // tag 12, two opaque bytes
        0x08, 0x07, // tag 1, timestamp 7
    ];
    let ping = MessagePing::decode(&body).unwrap();
    assert_eq!(ping.timestamp, 7);
}

#[test]
fn test_invalid_utf8_is_rejected() {
    // tag 2, length 2, invalid UTF-8 bytes
    let body = vec![0x12, 0x02, 0xff, 0xfe];
    assert!(MessagePing::decode(&body).is_err());
}

#[test]
fn test_truncated_length_is_rejected() {
    // tag 2 announces four bytes but only one follows
    let body = vec![0x12, 0x04, 0x61];
    assert!(MessagePing::decode(&body).is_err());
}

#[test]
fn test_unterminated_varint_is_rejected() {
    let body = vec![0x08, 0x80, 0x80];
    assert!(MessagePing::decode(&body).is_err());
}

#[test]
fn test_varint_matches_prost() {
    let values: Vec<u64> = vec![0, 1, 127, 128, 300, 65535, u64::MAX];
    for v in values {
        // compare through a ping timestamp where the representation is the
        // varint of the value itself
        let ping = MessagePing {
            timestamp: v as i64,
            local_addr: String::new(),
            local_private_addr: String::new(),
            ip: String::new(),
            dc: String::new(),
        };
        let ours = ping.encode_to_vec();
        let mut expected: Vec<u8> = Vec::new();
        prost::encoding::int64::encode(1, &(v as i64), &mut expected);
        if v == 0 {
            assert!(ours.is_empty());
        } else {
            assert_eq!(ours, expected);
        }
    }
}

#[test]
fn test_last_field_wins() {
    // two timestamp fields: the second one is kept
    let body = vec![0x08, 0x01, 0x08, 0x02];
    let ping = MessagePing::decode(&body).unwrap();
    assert_eq!(ping.timestamp, 2);
}

#[test]
fn test_decode_utf8_string_field() {
    let mut body: Vec<u8> = Vec::new();
    prost::encoding::string::encode(4, &String::from("10.237.0.5"), &mut body);
    let ping = MessagePing::decode(&body).unwrap();
    assert_eq!(ping.ip, "10.237.0.5");
}
