//! The three packets of the status ping: the handshake request, the empty
//! status request, and the status response carrying a JSON document.

use vstd::prelude::*;
use vstd::utf8::encode_utf8;
use crate::error::ScanError;
use crate::varint::{VarInt, varint_bytes, varint_at, to_unsigned};
use crate::fields::{
    string_bytes,
    u16_be,
    spec_decode_string,
    encode_string,
    decode_string,
    encode_u16,
    decode_u16,
};
use crate::packet::{PacketId, packet_bytes, spec_parse_packet, write_packet, parse_packet};

verus! {

/// The protocol version sent in every handshake: a historical version that
/// servers negotiating the status phase widely accept.
pub const HANDSHAKE_PROTO_VER: i32 = 47;

/// The next-state field value that asks for the status phase.
pub const NEXT_STATE_STATUS: i32 = 1;

/// The TCP port the scanned protocol listens on.
pub const TARGET_PORT: u16 = 25565;

/// The request packet with no payload at all.
pub struct Empty;

/// The first packet of a status ping: protocol version, the server address
/// the client dialed, the port, and the requested next state.
pub struct Handshake {
    pub proto_ver: VarInt,
    pub server_addr: String,
    pub server_port: u16,
    pub next_state: VarInt,
}

/// The single reply packet: one string field holding a JSON document.
pub struct Response {
    pub json: String,
}

impl PacketId for Empty {
    fn id(&self) -> (r: VarInt) {
        VarInt(0)
    }
}

impl PacketId for Handshake {
    fn id(&self) -> (r: VarInt) {
        VarInt(0)
    }
}

impl PacketId for Response {
    fn id(&self) -> (r: VarInt) {
        VarInt(0)
    }
}

/// The payload bytes of a handshake packet: each field in order.
pub open spec fn handshake_payload(
    proto_ver: u32,
    addr_bytes: Seq<u8>,
    port: u16,
    next_state: u32,
) -> Seq<u8> {
    varint_bytes(proto_ver) + string_bytes(addr_bytes) + u16_be(port) + varint_bytes(next_state)
}

impl Empty {
    /// The empty payload.
    pub fn encode(&self) -> (r: Vec<u8>)
        ensures
            r@ == Seq::<u8>::empty(),
    {
        Vec::new()
    }
}

impl Handshake {
    /// Serialize the four fields in order.
    pub fn encode(&self) -> (r: Vec<u8>)
        requires
            encode_utf8(self.server_addr@).len() <= 0x7FFF_FFFF,
        ensures
            r@ == handshake_payload(
                to_unsigned(self.proto_ver.0),
                encode_utf8(self.server_addr@),
                self.server_port,
                to_unsigned(self.next_state.0),
            ),
    {
        let mut out = self.proto_ver.encode();
        let mut addr = encode_string(self.server_addr.as_str());
        out.append(&mut addr);
        let mut port = encode_u16(self.server_port);
        out.append(&mut port);
        let mut next = self.next_state.encode();
        out.append(&mut next);
        proof {
            assert(out@ =~= handshake_payload(
                to_unsigned(self.proto_ver.0),
                encode_utf8(self.server_addr@),
                self.server_port,
                to_unsigned(self.next_state.0),
            ));
        }
        out
    }
}

/// The handshake found at `pos`, if any: its four fields and the position
/// just past them, each field decoded in order by its own rule.
pub open spec fn spec_decode_handshake(b: Seq<u8>, pos: int) -> Option<
    (u32, Seq<char>, u16, u32, int),
> {
    match varint_at(b, pos) {
        None => None,
        Some((pv, p1)) => match spec_decode_string(b, p1) {
            None => None,
            Some((addr, p2)) => {
                if p2 + 2 > b.len() {
                    None
                } else {
                    let port = (b[p2] * 0x100 + b[p2 + 1]) as u16;
                    match varint_at(b, p2 + 2) {
                        None => None,
                        Some((ns, p3)) => Some((pv, addr, port, ns, p3)),
                    }
                }
            },
        },
    }
}

impl Handshake {
    /// Read the four handshake fields in order from a packet body.
    pub fn decode(buf: &Vec<u8>, pos: usize) -> (r: Result<(Handshake, usize), ScanError>)
        requires
            pos <= buf@.len(),
        ensures
            match r {
                Ok((h, end)) => spec_decode_handshake(buf@, pos as int) == Some(
                    (
                        to_unsigned(h.proto_ver.0),
                        h.server_addr@,
                        h.server_port,
                        to_unsigned(h.next_state.0),
                        end as int,
                    ),
                ),
                Err(_) => spec_decode_handshake(buf@, pos as int) is None,
            },
    {
        let (proto_ver, p1) = match VarInt::decode(buf, pos) {
            Ok(x) => x,
            Err(e) => {
                return Err(e);
            },
        };
        let (server_addr, p2) = match decode_string(buf, p1) {
            Ok(x) => x,
            Err(e) => {
                return Err(e);
            },
        };
        let (server_port, p25) = match decode_u16(buf, p2) {
            Ok(x) => x,
            Err(e) => {
                return Err(e);
            },
        };
        let (next_state, p3) = match VarInt::decode(buf, p25) {
            Ok(x) => x,
            Err(e) => {
                return Err(e);
            },
        };
        proof {
            let bs = buf@;
            assert(u16_be(server_port) == bs.subrange(p2 as int, p2 + 2));
            assert(bs.subrange(p2 as int, p2 + 2)[0] == bs[p2 as int]);
            assert(bs.subrange(p2 as int, p2 + 2)[1] == bs[p2 + 1]);
        }
        Ok((Handshake { proto_ver, server_addr, server_port, next_state }, p3))
    }
}

impl Response {
    /// Read the one string field out of a response payload.
    pub fn decode(buf: &Vec<u8>, pos: usize) -> (r: Result<(Response, usize), ScanError>)
        requires
            pos <= buf@.len(),
        ensures
            match r {
                Ok((resp, end)) => spec_decode_string(buf@, pos as int) == Some(
                    (resp.json@, end as int),
                ),
                Err(_) => spec_decode_string(buf@, pos as int) is None,
            },
    {
        let (json, end) = match decode_string(buf, pos) {
            Ok(x) => x,
            Err(e) => {
                return Err(e);
            },
        };
        Ok((Response { json }, end))
    }

    /// Serialize the one string field.
    pub fn encode(&self) -> (r: Vec<u8>)
        requires
            encode_utf8(self.json@).len() <= 0x7FFF_FFFF,
        ensures
            r@ == string_bytes(encode_utf8(self.json@)),
    {
        encode_string(self.json.as_str())
    }
}

/// The whole framed handshake packet for one probe, id 0, carrying the
/// protocol version, the dialed address, the port, and the status next-state.
pub fn handshake_frame(server_addr: &str) -> (r: Vec<u8>)
    requires
        encode_utf8(server_addr@).len() <= 0x7FFF_FF00,
    ensures
        r@ == packet_bytes(
            0,
            handshake_payload(
                to_unsigned(HANDSHAKE_PROTO_VER),
                encode_utf8(server_addr@),
                TARGET_PORT,
                to_unsigned(NEXT_STATE_STATUS),
            ),
        ),
{
    let packet = Handshake {
        proto_ver: VarInt(HANDSHAKE_PROTO_VER),
        server_addr: server_addr.to_owned(),
        server_port: TARGET_PORT,
        next_state: VarInt(NEXT_STATE_STATUS),
    };
    let payload = packet.encode();
    proof {
        crate::varint::lemma_varint_bytes_len(to_unsigned(HANDSHAKE_PROTO_VER));
        crate::varint::lemma_varint_bytes_len(to_unsigned(NEXT_STATE_STATUS));
        crate::varint::lemma_varint_bytes_len(encode_utf8(server_addr@).len() as u32);
    }
    write_packet(VarInt(0), &payload)
}

/// The whole framed status request packet: id 0, empty payload.
pub fn status_request_frame() -> (r: Vec<u8>)
    ensures
        r@ == packet_bytes(0, Seq::<u8>::empty()),
{
    let payload = Empty.encode();
    write_packet(VarInt(0), &payload)
}

/// Pull the JSON document out of a parsed response frame: the id must be 0
/// and the payload must hold one well-formed string field.
pub fn read_status_json(id: VarInt, payload: &Vec<u8>) -> (r: Result<String, ScanError>)
    ensures
        match r {
            Ok(s) => id.0 == 0 && (spec_decode_string(payload@, 0) matches Some(d) && d.0 == s@),
            Err(_) => id.0 != 0 || spec_decode_string(payload@, 0) is None,
        },
{
    if id.0 != 0 {
        return Err(ScanError::Protocol);
    }
    let (resp, _end) = match Response::decode(payload, 0) {
        Ok(x) => x,
        Err(e) => {
            return Err(e);
        },
    };
    Ok(resp.json)
}

/// Pull the JSON document out of one whole response frame: parse the frame,
/// require packet id 0, and decode the one string field of the body.
pub fn status_response_json(frame: &Vec<u8>) -> (r: Result<String, ScanError>)
    ensures
        match r {
            Ok(s) => ({
                &&& spec_parse_packet(frame@, 0) matches Some(p)
                &&& spec_parse_packet(frame@, 0).unwrap().0 == 0
                &&& spec_decode_string(spec_parse_packet(frame@, 0).unwrap().1, 0) matches Some(d)
                    && d.0 == s@
            }),
            Err(_) => {
                ||| spec_parse_packet(frame@, 0) is None
                ||| spec_parse_packet(frame@, 0).unwrap().0 != 0
                ||| spec_decode_string(spec_parse_packet(frame@, 0).unwrap().1, 0) is None
            },
        },
{
    let (id, payload, _end) = match parse_packet(frame, 0) {
        Ok(x) => x,
        Err(e) => {
            return Err(e);
        },
    };
    read_status_json(id, &payload)
}

} // verus!
