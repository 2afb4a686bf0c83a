use r2rcon::codec::{
    decode_body, decode_size, encode_packet, MAX_CONTENT_SIZE, MAX_PACKET_SIZE, MIN_PACKET_SIZE,
    SERVERDATA_AUTH, SERVERDATA_AUTH_RESPONSE, SERVERDATA_EXECCOMMAND, SERVERDATA_RESPONSE_VALUE,
};
use r2rcon::rcon::{RconRequestError, RconResponse};

#[test]
fn constants_match_wire_format() {
    assert_eq!(MAX_PACKET_SIZE, 4096);
    assert_eq!(MIN_PACKET_SIZE, 10);
    assert_eq!(MAX_CONTENT_SIZE, 4086);
    assert_eq!(SERVERDATA_AUTH, 3);
    assert_eq!(SERVERDATA_EXECCOMMAND, 2);
    assert_eq!(SERVERDATA_AUTH_RESPONSE, 2);
    assert_eq!(SERVERDATA_RESPONSE_VALUE, 0);
}

#[test]
fn encode_exact_bytes() {
    let r = RconResponse { id: 0, ty: 2, content: String::from("hi") };
    let bytes = r.encode();
    assert_eq!(
        bytes,
        vec![12, 0, 0, 0, 0, 0, 0, 0, 2, 0, 0, 0, b'h', b'i', 0, 0]
    );
}

#[test]
fn encode_negative_id_little_endian() {
    let r = RconResponse { id: -1, ty: 0, content: String::new() };
    let bytes = r.encode();
    assert_eq!(bytes, vec![10, 0, 0, 0, 0xff, 0xff, 0xff, 0xff, 0, 0, 0, 0, 0, 0]);
}

#[test]
fn encode_decode_round_trip() {
    let packet = encode_packet(5, SERVERDATA_EXECCOMMAND, "status");
    let size = match decode_size(&packet[0..4], 4) {
        Ok(s) => s,
        Err(e) => panic!("size field did not parse: {e:?}"),
    };
    assert_eq!(size, packet.len() - 4);
    let body: Vec<u8> = packet[4..].to_vec();
    let (id, ty, content) = decode_body(&body, body.len()).expect("body did not parse");
    assert_eq!(id, 5);
    assert_eq!(ty, SERVERDATA_EXECCOMMAND);
    assert_eq!(content, "status");
}

#[test]
fn round_trip_negative_id_and_empty_content() {
    let packet = encode_packet(-7, SERVERDATA_AUTH, "");
    let size = decode_size(&packet[0..4], 4).unwrap();
    let body: Vec<u8> = packet[4..].to_vec();
    assert_eq!(size, body.len());
    let (id, ty, content) = decode_body(&body, body.len()).unwrap();
    assert_eq!(id, -7);
    assert_eq!(ty, SERVERDATA_AUTH);
    assert_eq!(content, "");
}

#[test]
fn decode_size_short_read_fails() {
    let buf = [1u8, 0, 0, 0];
    match decode_size(&buf, 3) {
        Err(RconRequestError::ReadWrongAmount(3)) => {}
        other => panic!("expected short-read error, got {other:?}"),
    }
}

#[test]
fn decode_size_negative_fails() {
    let buf = [0xffu8, 0xff, 0xff, 0xff];
    match decode_size(&buf, 4) {
        Err(RconRequestError::IntCastFail) => {}
        other => panic!("expected cast failure, got {other:?}"),
    }
}

#[test]
fn decode_body_short_read_fails() {
    let buf = vec![0u8; 4];
    match decode_body(&buf, 0) {
        Err(RconRequestError::ReadWrongAmount(0)) => {}
        other => panic!("expected short-read error, got {other:?}"),
    }
}

#[test]
fn decode_body_too_small_fails() {
    let buf = vec![1u8, 0, 0, 0, 2, 0, 0];
    match decode_body(&buf, 7) {
        Err(RconRequestError::VecToArrayError) => {}
        other => panic!("expected conversion error, got {other:?}"),
    }
}

#[test]
fn decode_body_oversized_announcement_tolerates_short_read() {
    let mut buf = vec![0u8; MAX_PACKET_SIZE + 1];
    buf[0] = 9;
    buf[4] = 2;
    let (id, ty, content) = decode_body(&buf, 8).expect("oversized short read should parse");
    assert_eq!(id, 9);
    assert_eq!(ty, 2);
    assert_eq!(content, "");
}

#[test]
fn decode_body_strips_nul_bytes() {
    let mut buf = vec![7, 0, 0, 0, 2, 0, 0, 0];
    buf.extend_from_slice(b"a\0b\0");
    let n = buf.len();
    let (_, _, content) = decode_body(&buf, n).unwrap();
    assert_eq!(content, "ab");
}

#[test]
fn decode_body_decodes_before_stripping_nul() {
    // A NUL byte between the halves of a malformed pair must not rescue
    // it: the remainder is decoded first, so the lead and the stray
    // continuation byte each become a replacement character, and only
    // then is the NUL character dropped.
    let mut buf = vec![1, 0, 0, 0, 2, 0, 0, 0];
    buf.extend_from_slice(&[0xC2, 0x00, 0xA9]);
    let n = buf.len();
    let (_, _, content) = decode_body(&buf, n).unwrap();
    assert_eq!(content, "\u{FFFD}\u{FFFD}");
}

#[test]
fn decode_body_replaces_invalid_utf8() {
    let mut buf = vec![1, 0, 0, 0, 2, 0, 0, 0];
    buf.extend_from_slice(&[0xff, b'o', b'k']);
    let n = buf.len();
    let (_, _, content) = decode_body(&buf, n).unwrap();
    assert_eq!(content, "\u{FFFD}ok");
}
