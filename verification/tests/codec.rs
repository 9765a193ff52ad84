use scanolotl::error::ScanError;
use scanolotl::fields::{decode_string, decode_u16, encode_string, encode_u16};
use scanolotl::packet::{parse_packet, read_frame, write_packet, PacketId};
use scanolotl::packets::{
    handshake_frame, status_request_frame, status_response_json, Empty, Handshake, Response,
};
use scanolotl::varint::VarInt;

#[test]
fn varint_edge_values() {
    assert_eq!(VarInt(0).encode(), vec![0x00]);
    assert_eq!(VarInt(127).encode(), vec![0x7F]);
    assert_eq!(VarInt(128).encode(), vec![0x80, 0x01]);
    assert_eq!(VarInt(-1).encode(), vec![0xFF, 0xFF, 0xFF, 0xFF, 0x0F]);
}

#[test]
fn varint_round_trip_samples() {
    for v in [
        0i32,
        1,
        127,
        128,
        255,
        300,
        25565,
        2097151,
        -1,
        i32::MAX,
        i32::MIN,
    ] {
        let enc = VarInt(v).encode();
        assert!((1..=5).contains(&enc.len()));
        // every non-final byte carries the continuation bit, the final does not
        for (i, b) in enc.iter().enumerate() {
            if i + 1 < enc.len() {
                assert!(b & 0x80 != 0);
            } else {
                assert!(b & 0x80 == 0);
            }
        }
        let (decoded, end) = VarInt::decode(&enc, 0).unwrap();
        assert_eq!(decoded.0, v);
        assert_eq!(end, enc.len());
    }
}

#[test]
fn varint_too_long_rejected() {
    let six = vec![0x80, 0x80, 0x80, 0x80, 0x80, 0x00];
    assert_eq!(VarInt::decode(&six, 0), Err(ScanError::Protocol));
    let short = vec![0x80, 0x80];
    assert_eq!(VarInt::decode(&short, 0), Err(ScanError::Protocol));
}

#[test]
fn u16_big_endian() {
    assert_eq!(encode_u16(25565), vec![0x63, 0xDD]);
    assert_eq!(encode_u16(0), vec![0x00, 0x00]);
    let buf = vec![0x63, 0xDD];
    assert_eq!(decode_u16(&buf, 0).unwrap(), (25565, 2));
    let short = vec![0x63];
    assert_eq!(decode_u16(&short, 0), Err(ScanError::Io));
}

#[test]
fn string_edge_ab() {
    assert_eq!(encode_string("ab"), vec![0x02, 0x61, 0x62]);
}

#[test]
fn string_round_trip_samples() {
    for s in ["", "a", "hello world", "\u{00e9}\u{4e16}\u{1F600}", "1.2.3.4"] {
        let enc = encode_string(s);
        let (decoded, end) = decode_string(&enc, 0).unwrap();
        assert_eq!(decoded, s);
        assert_eq!(end, enc.len());
    }
}

#[test]
fn string_negative_length_rejected() {
    // a length prefix of -1
    let mut buf = VarInt(-1).encode();
    buf.push(0x61);
    assert_eq!(decode_string(&buf, 0), Err(ScanError::Protocol));
}

#[test]
fn string_oversized_length_rejected() {
    // a length prefix beyond the 131068-byte cap
    let buf = VarInt(131069).encode();
    assert_eq!(decode_string(&buf, 0), Err(ScanError::Protocol));
}

#[test]
fn string_short_buffer_rejected() {
    let buf = vec![0x05, 0x61, 0x62];
    assert_eq!(decode_string(&buf, 0), Err(ScanError::Protocol));
}

#[test]
fn string_invalid_utf8_rejected() {
    let buf = vec![0x02, 0xFF, 0xFE];
    assert_eq!(decode_string(&buf, 0), Err(ScanError::Utf8));
}

#[test]
fn packet_round_trip() {
    let payload = vec![0x01, 0x02, 0x03, 0xFF];
    let frame = write_packet(VarInt(0), &payload);
    // outer length 5: one id byte plus four payload bytes
    assert_eq!(frame[0], 0x05);
    let (id, parsed, end) = parse_packet(&frame, 0).unwrap();
    assert_eq!(id.0, 0);
    assert_eq!(parsed, payload);
    assert_eq!(end, frame.len());
    // consumed exactly len(encode(outer_len)) + outer_len bytes
    assert_eq!(end, 1 + 5);
}

#[test]
fn frame_end_is_fixed_by_length_prefix() {
    // a body that holds no id VarInt still frames cleanly: the boundary
    // comes from the length prefix, so the next frame is reachable
    let buf = vec![0x01, 0x80, 0x05];
    let (body, end) = read_frame(&buf, 0).unwrap();
    assert_eq!(body, vec![0x80]);
    assert_eq!(end, 2);
    assert!(parse_packet(&buf, 0).is_err());
}

#[test]
fn packet_ids_are_zero() {
    let h = Handshake {
        proto_ver: VarInt(47),
        server_addr: "1.2.3.4".to_string(),
        server_port: 25565,
        next_state: VarInt(1),
    };
    assert_eq!(Empty.id(), VarInt(0));
    assert_eq!(h.id(), VarInt(0));
    assert_eq!(
        Response {
            json: String::new()
        }
        .id(),
        VarInt(0)
    );
}

#[test]
fn packet_truncated_rejected() {
    let payload = vec![0x01, 0x02, 0x03];
    let mut frame = write_packet(VarInt(0), &payload);
    frame.pop();
    assert!(parse_packet(&frame, 0).is_err());
}

#[test]
fn handshake_bytes_match_wire() {
    // proto_ver 47, addr "1.2.3.4", port 25565, next_state 1: the body is
    // id(1) + proto(1) + len(1) + addr(7) + port(2) + next(1) = 13 bytes
    let frame = handshake_frame("1.2.3.4");
    let expected = vec![
        0x0D, 0x00, 0x2F, 0x07, 0x31, 0x2E, 0x32, 0x2E, 0x33, 0x2E, 0x34, 0x63, 0xDD, 0x01,
    ];
    assert_eq!(frame, expected);
}

#[test]
fn handshake_bytes_nine_byte_host() {
    // a 9-byte host gives the outer length 15 (0x0F) of the classic example
    let frame = handshake_frame("localhost");
    assert_eq!(frame[0], 0x0F);
    assert_eq!(frame.len(), 16);
    assert_eq!(frame[1], 0x00);
    assert_eq!(frame[2], 0x2F);
    assert_eq!(frame[3], 0x09);
    assert_eq!(&frame[4..13], b"localhost");
    assert_eq!(&frame[13..16], &[0x63, 0xDD, 0x01]);
}

#[test]
fn handshake_payload_round_trip() {
    let h = Handshake {
        proto_ver: VarInt(47),
        server_addr: "1.2.3.4".to_string(),
        server_port: 25565,
        next_state: VarInt(1),
    };
    let payload = h.encode();
    let (decoded, end) = Handshake::decode(&payload, 0).unwrap();
    assert_eq!(decoded.proto_ver, VarInt(47));
    assert_eq!(decoded.server_addr, "1.2.3.4");
    assert_eq!(decoded.server_port, 25565);
    assert_eq!(decoded.next_state, VarInt(1));
    assert_eq!(end, payload.len());
}

#[test]
fn status_request_bytes() {
    assert_eq!(status_request_frame(), vec![0x01, 0x00]);
}

#[test]
fn response_round_trip_through_frame() {
    let resp = Response {
        json: String::from("{\"a\":1}"),
    };
    let payload = resp.encode();
    let frame = write_packet(VarInt(0), &payload);
    let json = status_response_json(&frame).unwrap();
    assert_eq!(json, "{\"a\":1}");
}

#[test]
fn response_wrong_id_rejected() {
    let resp = Response {
        json: String::from("{}"),
    };
    let payload = resp.encode();
    let frame = write_packet(VarInt(7), &payload);
    assert!(status_response_json(&frame).is_err());
}
