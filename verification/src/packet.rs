//! Packet framing: a (packet-id, payload) pair wrapped in an outer VarInt
//! length prefix, `outer_len || id || payload`, where `outer_len` counts the
//! bytes of `id || payload`.

use vstd::prelude::*;
use crate::error::ScanError;
use crate::varint::{
    VarInt,
    varint_bytes,
    varint_at,
    to_unsigned,
    to_signed,
    lemma_varint_bytes_len,
    lemma_varint_at_prefix,
    lemma_to_unsigned_to_signed,
};

verus! {

/// Every packet knows its wire identifier. All three packets of the status
/// ping carry id 0.
pub trait PacketId {
    fn id(&self) -> (r: VarInt)
        ensures
            r.0 == 0,
    ;
}

/// The serialized frame of a packet: the outer length, then the id, then the
/// payload.
pub open spec fn packet_bytes(id: u32, payload: Seq<u8>) -> Seq<u8> {
    let inner = varint_bytes(id) + payload;
    varint_bytes(inner.len() as u32) + inner
}

/// The framed body found at `pos`, if any: the body bytes and the position
/// just past the frame. Absent when the outer length is missing, negative or
/// longer than the remaining buffer. The end position is computed from the
/// length prefix alone, whatever the body contains.
pub open spec fn spec_frame_at(b: Seq<u8>, pos: int) -> Option<(Seq<u8>, int)> {
    match varint_at(b, pos) {
        None => None,
        Some((outer, p)) => {
            if outer >= 0x8000_0000 || p + outer > b.len() {
                None
            } else {
                Some((b.subrange(p, p + outer), p + outer))
            }
        },
    }
}

/// The frame found at `pos`, if any: the packet id, the payload, and the
/// position just past the frame. Absent when the frame itself is absent, or
/// when no id VarInt can be read from the framed body.
pub open spec fn spec_parse_packet(b: Seq<u8>, pos: int) -> Option<(i32, Seq<u8>, int)> {
    match spec_frame_at(b, pos) {
        None => None,
        Some((body, end)) => match varint_at(body, 0) {
            None => None,
            Some((idu, q)) => Some((to_signed(idu), body.subrange(q, body.len() as int), end)),
        },
    }
}

/// Frame consumption: a frame ends exactly at the outer length past the
/// length prefix, so reading it takes `|enc(outer)| + outer` bytes from
/// `pos`, whatever the body contains — the next frame starts on a clean
/// boundary even when the body itself fails to parse.
pub proof fn lemma_frame_consumption(b: Seq<u8>, pos: int)
    requires
        spec_frame_at(b, pos) is Some,
    ensures
        ({
            let (outer, p) = varint_at(b, pos).unwrap();
            &&& spec_frame_at(b, pos).unwrap().1 == p + outer
            &&& spec_frame_at(b, pos).unwrap().0.len() == outer
            &&& spec_parse_packet(b, pos) is Some ==> spec_parse_packet(b, pos).unwrap().2 == p
                + outer
        }),
{
}

/// Serialize one frame: `id` and `payload` form the body, and the body's
/// byte length, as a VarInt, prefixes it.
pub fn write_packet(id: VarInt, payload: &Vec<u8>) -> (r: Vec<u8>)
    requires
        payload@.len() + 5 <= 0x7FFF_FFFF,
    ensures
        r@ == packet_bytes(to_unsigned(id.0), payload@),
{
    proof {
        lemma_varint_bytes_len(to_unsigned(id.0));
    }
    let mut inner = id.encode();
    let n = payload.len();
    let mut j: usize = 0;
    while j < n
        invariant
            0 <= j <= n,
            n == payload@.len(),
            inner@ =~= varint_bytes(to_unsigned(id.0)) + payload@.subrange(0, j as int),
            varint_bytes(to_unsigned(id.0)).len() <= 5,
        decreases n - j,
    {
        inner.push(payload[j]);
        proof {
            assert(inner@ =~= varint_bytes(to_unsigned(id.0)) + payload@.subrange(0, j + 1));
        }
        j = j + 1;
    }
    proof {
        assert(payload@.subrange(0, payload@.len() as int) =~= payload@);
    }
    let mut out = VarInt(inner.len() as i32).encode();
    out.append(&mut inner);
    proof {
        assert(out@ =~= packet_bytes(to_unsigned(id.0), payload@));
    }
    out
}

/// Read one framed body at `pos`: decode the outer length and take exactly
/// that many bytes. The returned end position — the clean boundary where the
/// next frame starts — comes from the length prefix alone, whatever the body
/// contains.
pub fn read_frame(buf: &Vec<u8>, pos: usize) -> (r: Result<(Vec<u8>, usize), ScanError>)
    requires
        pos <= buf@.len(),
    ensures
        match r {
            Ok((body, end)) => {
                &&& spec_frame_at(buf@, pos as int) == Some((body@, end as int))
                &&& pos < end <= buf@.len()
            },
            Err(e) => spec_frame_at(buf@, pos as int) is None && e == ScanError::Protocol,
        },
{
    let (ov, p) = match VarInt::decode(buf, pos) {
        Ok(x) => x,
        Err(_) => {
            return Err(ScanError::Protocol);
        },
    };
    if ov.0 < 0 {
        return Err(ScanError::Protocol);
    }
    let l = ov.0 as usize;
    let n = buf.len();
    if l > n - p {
        return Err(ScanError::Protocol);
    }
    let mut body: Vec<u8> = Vec::new();
    let mut j: usize = 0;
    while j < l
        invariant
            0 <= j <= l,
            n == buf@.len(),
            p + l <= n,
            body@ =~= buf@.subrange(p as int, p + j),
        decreases l - j,
    {
        body.push(buf[p + j]);
        proof {
            assert(body@ =~= buf@.subrange(p as int, p + j + 1));
        }
        j = j + 1;
    }
    Ok((body, p + l))
}

/// Read one frame at `pos`: take exactly the framed body, then split it into
/// its id and payload. Fails, without a resume position, when the body holds
/// no id VarInt; a caller that must keep the stream boundary on such a body
/// uses `read_frame` first.
pub fn parse_packet(buf: &Vec<u8>, pos: usize) -> (r: Result<(VarInt, Vec<u8>, usize), ScanError>)
    requires
        pos <= buf@.len(),
    ensures
        match r {
            Ok((id, payload, end)) => {
                &&& spec_parse_packet(buf@, pos as int) == Some((id.0, payload@, end as int))
                &&& pos < end <= buf@.len()
            },
            Err(e) => spec_parse_packet(buf@, pos as int) is None && e == ScanError::Protocol,
        },
{
    let (body, end) = match read_frame(buf, pos) {
        Ok(x) => x,
        Err(e) => {
            return Err(e);
        },
    };
    let l = body.len();
    let (idv, q) = match VarInt::decode(&body, 0) {
        Ok(x) => x,
        Err(_) => {
            return Err(ScanError::Protocol);
        },
    };
    let mut payload: Vec<u8> = Vec::new();
    let mut m: usize = q;
    while m < l
        invariant
            q <= m <= l,
            l == body@.len(),
            payload@ =~= body@.subrange(q as int, m as int),
        decreases l - m,
    {
        payload.push(body[m]);
        proof {
            assert(payload@ =~= body@.subrange(q as int, m + 1));
        }
        m = m + 1;
    }
    proof {
        lemma_to_unsigned_to_signed(idv.0);
    }
    Ok((idv, payload, end))
}

/// Packet framing round trip: parsing a written frame yields exactly the id
/// and payload that went in, and consumes the whole frame, whose length is
/// the outer length plus the bytes of its own prefix.
pub proof fn lemma_packet_round_trip(id: i32, payload: Seq<u8>)
    requires
        payload.len() + 5 <= 0x7FFF_FFFF,
    ensures
        ({
            let b = packet_bytes(to_unsigned(id), payload);
            let inner_len = varint_bytes(to_unsigned(id)).len() + payload.len();
            &&& spec_parse_packet(b, 0) == Some((id, payload, b.len() as int))
            &&& b.len() == varint_bytes(inner_len as u32).len() + inner_len
        }),
{
    let u = to_unsigned(id);
    let inner = varint_bytes(u) + payload;
    let b = packet_bytes(u, payload);
    lemma_varint_bytes_len(u);
    lemma_varint_bytes_len(inner.len() as u32);
    let ol = varint_bytes(inner.len() as u32).len();
    assert(b.subrange(0, ol as int) =~= varint_bytes(inner.len() as u32));
    lemma_varint_at_prefix(b, inner.len() as u32, 0);
    let body = b.subrange(ol as int, ol + inner.len() as int);
    assert(body =~= inner);
    assert(body.subrange(0, varint_bytes(u).len() as int) =~= varint_bytes(u));
    lemma_varint_at_prefix(body, u, 0);
    lemma_to_unsigned_to_signed(id);
    assert(body.subrange(varint_bytes(u).len() as int, inner.len() as int) =~= payload);
}

} // verus!
