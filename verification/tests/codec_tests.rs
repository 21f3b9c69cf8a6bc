use qtun::codec::{decode, encode, parse_header, FrameError};
use qtun::crypto::Aes128GcmCipher;

#[test]
fn test_plaintext_frame_bytes() {
    let frame = encode(b"abc", &None).unwrap();
    assert_eq!(frame, vec![0u8, 3, 0, b'a', b'b', b'c']);
}

#[test]
fn test_plaintext_roundtrip() {
    // round trip with the empty key: frames go out with secure flag zero
    let frame = encode(b"payload-bytes", &None).unwrap();
    assert_eq!(frame[0], 0);
    let back = decode(&frame, &None).unwrap();
    assert_eq!(back, b"payload-bytes".to_vec());
}

#[test]
fn test_plaintext_accepted_with_cipher_configured() {
    // the sender's flag is authoritative: a receiver holding a key still
    // accepts a plaintext frame
    let cipher = Some(Aes128GcmCipher::new("hello-world").unwrap());
    let frame = encode(b"plain", &None).unwrap();
    let back = decode(&frame, &cipher).unwrap();
    assert_eq!(back, b"plain".to_vec());
}

#[test]
fn test_encrypted_roundtrip() {
    // the law: decode(encode(p, cipher(k)), cipher(k)) == p
    let cipher = Some(Aes128GcmCipher::new("hello-world").unwrap());
    let frame = encode(b"secret datagram", &cipher).unwrap();
    let back = decode(&frame, &cipher).unwrap();
    assert_eq!(back, b"secret datagram".to_vec());
}

#[test]
fn test_encrypted_frame_shape() {
    // secure flag one, and the wire length is the payload plus the tag
    let cipher = Some(Aes128GcmCipher::new("hello-world").unwrap());
    let payload = vec![7u8; 100];
    let frame = encode(&payload, &cipher).unwrap();
    assert_eq!(frame[0], 1);
    let body_len = frame[1] as usize + 256 * frame[2] as usize;
    assert_eq!(body_len, payload.len() + 16);
    assert_eq!(frame.len(), 3 + body_len + 12);
}

#[test]
fn test_key_mismatch_fails() {
    // the law: decoding under a different key fails with a cipher mismatch
    let k1 = Some(Aes128GcmCipher::new("A").unwrap());
    let k2 = Some(Aes128GcmCipher::new("B").unwrap());
    let frame = encode(b"datagram", &k1).unwrap();
    let r = decode(&frame, &k2);
    assert_eq!(r.unwrap_err(), FrameError::CipherMismatch);
}

#[test]
fn test_missing_cipher_fails() {
    let k1 = Some(Aes128GcmCipher::new("A").unwrap());
    let frame = encode(b"datagram", &k1).unwrap();
    let r = decode(&frame, &None);
    assert_eq!(r.unwrap_err(), FrameError::CipherMissing);
}

#[test]
fn test_tampered_frame_fails() {
    let k1 = Some(Aes128GcmCipher::new("A").unwrap());
    let mut frame = encode(b"datagram", &k1).unwrap();
    frame[4] ^= 0x01;
    let r = decode(&frame, &k1);
    assert_eq!(r.unwrap_err(), FrameError::CipherMismatch);
}

#[test]
fn test_truncated_frame_fails() {
    assert_eq!(decode(&[0u8, 5], &None).unwrap_err(), FrameError::Truncated);
    assert_eq!(
        decode(&[0u8, 5, 0, 1, 2], &None).unwrap_err(),
        FrameError::Truncated
    );
}

#[test]
fn test_oversize_record_rejected() {
    let big = vec![0u8; 65536];
    assert_eq!(encode(&big, &None).unwrap_err(), FrameError::TooLarge);
    let cipher = Some(Aes128GcmCipher::new("k").unwrap());
    let almost = vec![0u8; 65535 - 15];
    assert_eq!(encode(&almost, &cipher).unwrap_err(), FrameError::TooLarge);
}

#[test]
fn test_parse_header() {
    let h = parse_header(&[1u8, 0x34, 0x12]);
    assert!(h.secure);
    assert_eq!(h.body_len, 0x1234);
    assert_eq!(h.tail_len(), 0x1234 + 12);

    let h = parse_header(&[0u8, 7, 0]);
    assert!(!h.secure);
    assert_eq!(h.tail_len(), 7);
}

#[test]
fn test_end_to_end_packet_unencrypted() {
    // an inner datagram framed, shipped and unframed byte-identically,
    // with the secure flag down
    let env = qtun::protocol::Envelope {
        kind: Some(qtun::protocol::Type::Packet(qtun::protocol::MessagePacket {
            payload: vec![0x45, 0, 0, 20, 1, 2, 3, 4],
        })),
    };
    let record = env.encode_to_vec();
    let frame = encode(&record, &None).unwrap();
    assert_eq!(frame[0], 0);
    let record_back = decode(&frame, &None).unwrap();
    let env_back = qtun::protocol::Envelope::decode(&record_back).unwrap();
    assert_eq!(env_back, env);
}

#[test]
fn test_end_to_end_packet_encrypted() {
    let cipher = Some(Aes128GcmCipher::new("hello-world").unwrap());
    let env = qtun::protocol::Envelope {
        kind: Some(qtun::protocol::Type::Packet(qtun::protocol::MessagePacket {
            payload: vec![0x45, 0, 0, 20, 9, 8, 7, 6],
        })),
    };
    let record = env.encode_to_vec();
    let frame = encode(&record, &cipher).unwrap();
    assert_eq!(frame[0], 1);
    let body_len = frame[1] as usize + 256 * frame[2] as usize;
    assert_eq!(body_len, record.len() + 16);
    let record_back = decode(&frame, &cipher).unwrap();
    let env_back = qtun::protocol::Envelope::decode(&record_back).unwrap();
    assert_eq!(env_back, env);
}
