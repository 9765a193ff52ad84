//! The VarInt codec: a signed 32-bit integer serialized as 1 to 5 bytes,
//! 7 payload bits per byte (low-order first) plus a high-order continuation bit.

use vstd::prelude::*;
use crate::error::ScanError;

verus! {

/// A signed 32-bit integer with a variable-length serialized form.
#[derive(Clone, Copy, Debug, PartialEq, Eq, Structural)]
pub struct VarInt(pub i32);

/// The 32-bit unsigned bit pattern of a signed value.
pub open spec fn to_unsigned(v: i32) -> u32 {
    if v >= 0 {
        v as u32
    } else {
        (v + 0x1_0000_0000) as u32
    }
}

/// The signed value whose 32-bit bit pattern is `u`.
pub open spec fn to_signed(u: u32) -> i32 {
    if u < 0x8000_0000 {
        u as i32
    } else {
        (u - 0x1_0000_0000) as i32
    }
}

/// The serialized form of the bit pattern `v`: the low 7 bits of each byte
/// carry payload, and the high bit says that more bytes follow.
pub open spec fn varint_bytes(v: u32) -> Seq<u8>
    decreases v,
{
    if v < 0x80 {
        seq![v as u8]
    } else {
        seq![(v % 0x80 + 0x80) as u8] + varint_bytes(v / 0x80)
    }
}

/// The value accumulated from the low 7 bits of each byte, low-order first.
pub open spec fn varint_accum(b: Seq<u8>) -> nat
    decreases b.len(),
{
    if b.len() == 0 {
        0
    } else {
        (b[0] % 0x80) as nat + 0x80 * varint_accum(b.drop_first())
    }
}

/// The bytes `b[pos..end]` form one whole VarInt: every byte but the last has
/// its continuation bit set, the last has it clear, and at most 5 bytes are used.
pub open spec fn is_varint_run(b: Seq<u8>, pos: int, end: int) -> bool {
    &&& 0 <= pos < end <= b.len()
    &&& end - pos <= 5
    &&& forall|i: int| pos <= i < end - 1 ==> b[i] >= 0x80
    &&& b[end - 1] < 0x80
}

/// No VarInt terminates at or before `pos + 5`: every available byte of the
/// first five from `pos` has its continuation bit set.
pub open spec fn no_varint_run(b: Seq<u8>, pos: int) -> bool {
    forall|i: int| pos <= i < b.len() && i < pos + 5 ==> b[i] >= 0x80
}

pub proof fn lemma_to_signed_to_unsigned(u: u32)
    ensures
        to_unsigned(to_signed(u)) == u,
{
}

pub proof fn lemma_to_unsigned_to_signed(v: i32)
    ensures
        to_signed(to_unsigned(v)) == v,
{
}

/// The serialized form is 1 to 5 bytes long, and shorter for smaller values.
pub proof fn lemma_varint_bytes_len(v: u32)
    ensures
        1 <= varint_bytes(v).len() <= 5,
        v < 0x80 ==> varint_bytes(v).len() == 1,
        v < 0x4000 ==> varint_bytes(v).len() <= 2,
        v < 0x20_0000 ==> varint_bytes(v).len() <= 3,
        v < 0x1000_0000 ==> varint_bytes(v).len() <= 4,
    decreases v,
{
    if v >= 0x80 {
        lemma_varint_bytes_len(v / 0x80);
        assert(varint_bytes(v).len() == 1 + varint_bytes(v / 0x80).len());
        assert(v / 0x80 < 0x1000_0000);
    }
}

/// The high bit of every non-final byte is set; the high bit of the final
/// byte is clear. Together with `lemma_varint_bytes_len` this is the shape
/// every encoded VarInt has on the wire.
pub proof fn lemma_varint_bytes_form(v: u32)
    ensures
        is_varint_run(varint_bytes(v), 0, varint_bytes(v).len() as int),
    decreases v,
{
    lemma_varint_bytes_len(v);
    if v < 0x80 {
    } else {
        lemma_varint_bytes_form(v / 0x80);
        let head = seq![(v % 0x80 + 0x80) as u8];
        let tail = varint_bytes(v / 0x80);
        assert forall|i: int| 0 <= i < varint_bytes(v).len() - 1 implies varint_bytes(
            v,
        )[i] >= 0x80 by {
            if i > 0 {
                assert(varint_bytes(v)[i] == tail[i - 1]);
            }
        }
        assert(varint_bytes(v)[varint_bytes(v).len() - 1] == tail[tail.len() - 1]);
    }
}

/// Accumulating the payload bits of the serialized form gives back the value.
pub proof fn lemma_varint_accum_of_bytes(v: u32)
    ensures
        varint_accum(varint_bytes(v)) == v,
    decreases v,
{
    if v < 0x80 {
        assert(varint_bytes(v)[0] == v as u8);
        assert(varint_bytes(v).drop_first() =~= Seq::<u8>::empty());
        assert(varint_accum(Seq::<u8>::empty()) == 0);
    } else {
        lemma_varint_accum_of_bytes(v / 0x80);
        let whole = varint_bytes(v);
        assert(whole.drop_first() =~= varint_bytes(v / 0x80));
        assert(whole[0] == (v % 0x80 + 0x80) as u8);
        assert(((v % 0x80 + 0x80) as u8 % 0x80) as nat == (v % 0x80) as nat);
    }
}

/// A VarInt run is read up to its first byte with a clear continuation bit,
/// so only one end position is possible.
pub proof fn lemma_varint_run_unique(b: Seq<u8>, pos: int, e1: int, e2: int)
    requires
        is_varint_run(b, pos, e1),
        is_varint_run(b, pos, e2),
    ensures
        e1 == e2,
{
    if e1 < e2 {
        assert(b[e1 - 1] >= 0x80);
    }
    if e2 < e1 {
        assert(b[e2 - 1] >= 0x80);
    }
}

/// VarInt round trip: the serialized form of any value decodes, in 1 to 5
/// bytes, to exactly that value; no shorter or longer read is possible, and
/// recovering the signed value from the bit pattern is exact.
pub proof fn lemma_varint_round_trip(v: i32)
    ensures
        ({
            let b = varint_bytes(to_unsigned(v));
            &&& 1 <= b.len() <= 5
            &&& is_varint_run(b, 0, b.len() as int)
            &&& forall|end: int| is_varint_run(b, 0, end) ==> end == b.len()
            &&& varint_accum(b) == to_unsigned(v)
            &&& to_signed(to_unsigned(v)) == v
        }),
{
    let u = to_unsigned(v);
    lemma_varint_bytes_len(u);
    lemma_varint_bytes_form(u);
    lemma_varint_accum_of_bytes(u);
    assert forall|end: int| is_varint_run(varint_bytes(u), 0, end) implies end == varint_bytes(
        u,
    ).len() by {
        lemma_varint_run_unique(varint_bytes(u), 0, end, varint_bytes(u).len() as int);
    }
}

/// `varint_accum` over a sequence extended by one byte on the right.
proof fn lemma_varint_accum_push(b: Seq<u8>, x: u8)
    ensures
        varint_accum(b.push(x)) == varint_accum(b) + pow128(b.len()) * ((x % 0x80) as nat),
    decreases b.len(),
{
    if b.len() == 0 {
        assert(b.push(x)[0] == x);
        assert(b.push(x).drop_first() =~= Seq::<u8>::empty());
        assert(varint_accum(Seq::<u8>::empty()) == 0);
        assert(pow128(0) == 1);
    } else {
        assert(b.push(x).drop_first() =~= b.drop_first().push(x));
        lemma_varint_accum_push(b.drop_first(), x);
        assert(varint_accum(b.push(x)) == (b[0] % 0x80) as nat + 0x80 * (varint_accum(
            b.drop_first(),
        ) + pow128((b.len() - 1) as nat) * ((x % 0x80) as nat)));
        assert(0x80 * (pow128((b.len() - 1) as nat) * ((x % 0x80) as nat)) == pow128(b.len()) * ((x
            % 0x80) as nat)) by (nonlinear_arith)
            requires
                pow128(b.len()) == 0x80 * pow128((b.len() - 1) as nat),
        ;
    }
}

/// The VarInt found at `pos`, if any: its 32-bit bit pattern (the payload
/// bits truncated to 32 bits) and the position just past its final byte.
pub open spec fn varint_at(b: Seq<u8>, pos: int) -> Option<(u32, int)> {
    if exists|end: int| is_varint_run(b, pos, end) {
        let end = choose|end: int| is_varint_run(b, pos, end);
        Some(((varint_accum(b.subrange(pos, end)) % 0x1_0000_0000) as u32, end))
    } else {
        None
    }
}

pub proof fn lemma_varint_at_some(b: Seq<u8>, pos: int, end: int)
    requires
        is_varint_run(b, pos, end),
    ensures
        varint_at(b, pos) == Some(
            ((varint_accum(b.subrange(pos, end)) % 0x1_0000_0000) as u32, end),
        ),
{
    let picked = choose|e: int| is_varint_run(b, pos, e);
    lemma_varint_run_unique(b, pos, picked, end);
}

pub proof fn lemma_varint_at_none(b: Seq<u8>, pos: int)
    requires
        0 <= pos <= b.len(),
        no_varint_run(b, pos),
    ensures
        varint_at(b, pos) is None,
{
    if exists|end: int| is_varint_run(b, pos, end) {
        let end = choose|end: int| is_varint_run(b, pos, end);
        assert(b[end - 1] >= 0x80);
    }
}

/// A buffer that carries `varint_bytes(u)` at `pos` parses there to exactly
/// `u`, ending just past that serialized form.
pub proof fn lemma_varint_at_prefix(b: Seq<u8>, u: u32, pos: int)
    requires
        0 <= pos,
        pos + varint_bytes(u).len() <= b.len(),
        b.subrange(pos, pos + varint_bytes(u).len()) == varint_bytes(u),
    ensures
        varint_at(b, pos) == Some((u, pos + varint_bytes(u).len())),
{
    let w = varint_bytes(u);
    let end = pos + w.len();
    lemma_varint_bytes_form(u);
    assert forall|i: int| pos <= i < end - 1 implies b[i] >= 0x80 by {
        assert(b[i] == w[i - pos]);
    }
    assert(b[end - 1] == w[w.len() - 1]);
    assert(is_varint_run(b, pos, end));
    lemma_varint_accum_of_bytes(u);
    lemma_varint_at_some(b, pos, end);
}

/// 128 raised to `n`.
pub open spec fn pow128(n: nat) -> nat
    decreases n,
{
    if n == 0 {
        1
    } else {
        0x80 * pow128((n - 1) as nat)
    }
}

/// The first six powers of 128, written out for the decoder's bounds.
proof fn lemma_pow128_values()
    ensures
        pow128(0) == 1,
        pow128(1) == 0x80,
        pow128(2) == 0x4000,
        pow128(3) == 0x20_0000,
        pow128(4) == 0x1000_0000,
        pow128(5) == 0x8_0000_0000,
{
    assert(pow128(1) == 0x80 * pow128(0));
    assert(pow128(2) == 0x80 * pow128(1));
    assert(pow128(3) == 0x80 * pow128(2));
    assert(pow128(4) == 0x80 * pow128(3));
    assert(pow128(5) == 0x80 * pow128(4));
}


impl VarInt {
    /// Serialize the value; 1 to 5 bytes, low-order payload bits first.
    pub fn encode(&self) -> (r: Vec<u8>)
        ensures
            r@ == varint_bytes(to_unsigned(self.0)),
            1 <= r@.len() <= 5,
    {
        proof {
            lemma_varint_bytes_len(to_unsigned(self.0));
        }
        let mut val: u32 = if self.0 >= 0 {
            self.0 as u32
        } else {
            ((self.0 as i64) + 0x1_0000_0000) as u32
        };
        let mut out: Vec<u8> = Vec::new();
        while val >= 0x80
            invariant
                varint_bytes(to_unsigned(self.0)) == out@ + varint_bytes(val),
            decreases val,
        {
            out.push((val % 0x80 + 0x80) as u8);
            proof {
                assert(out@ + varint_bytes(val / 0x80) =~= varint_bytes(to_unsigned(self.0)));
            }
            val = val / 0x80;
        }
        out.push(val as u8);
        proof {
            assert(varint_bytes(val) =~= seq![val as u8]);
            assert(out@ =~= varint_bytes(to_unsigned(self.0)));
        }
        out
    }

    /// Read one VarInt from `buf` starting at `pos`. Returns the value and
    /// the position just past its final byte. Fails when no byte within the
    /// first five has a clear continuation bit, whether because a sixth
    /// continuation byte would be needed or because the buffer ran out.
    pub fn decode(buf: &Vec<u8>, pos: usize) -> (r: Result<(VarInt, usize), ScanError>)
        requires
            pos <= buf@.len(),
        ensures
            match r {
                Ok((v, end)) => {
                    &&& is_varint_run(buf@, pos as int, end as int)
                    &&& to_unsigned(v.0) == varint_accum(
                        buf@.subrange(pos as int, end as int),
                    ) % 0x1_0000_0000
                    &&& varint_at(buf@, pos as int) == Some((to_unsigned(v.0), end as int))
                },
                Err(e) => {
                    &&& e == ScanError::Protocol
                    &&& no_varint_run(buf@, pos as int)
                    &&& varint_at(buf@, pos as int) is None
                },
            },
    {
        let mut i: usize = pos;
        let mut acc: u64 = 0;
        let mut pow: u64 = 1;
        let mut k: usize = 0;
        loop
            invariant
                pos <= i <= buf@.len(),
                i == pos + k,
                k <= 5,
                pow == pow128(k as nat),
                pow <= 0x80 * 0x80 * 0x80 * 0x80 * 0x80,
                acc == varint_accum(buf@.subrange(pos as int, i as int)),
                acc < pow,
                forall|j: int| pos <= j < i ==> buf@[j] >= 0x80,
            decreases 5 - k,
        {
            if k == 5 {
                proof {
                    lemma_varint_at_none(buf@, pos as int);
                }
                return Err(ScanError::Protocol);
            }
            if i >= buf.len() {
                proof {
                    lemma_varint_at_none(buf@, pos as int);
                }
                return Err(ScanError::Protocol);
            }
            let b = buf[i];
            proof {
                assert(buf@.subrange(pos as int, i + 1 as int) =~= buf@.subrange(
                    pos as int,
                    i as int,
                ).push(b));
                lemma_varint_accum_push(buf@.subrange(pos as int, i as int), b);
                assert(pow * ((b % 0x80) as u64) <= pow * 0x7f) by (nonlinear_arith)
                    requires
                        ((b % 0x80) as u64) <= 0x7f,
                        pow >= 0,
                ;
                assert(acc + pow * ((b % 0x80) as u64) < pow * 0x80) by (nonlinear_arith)
                    requires
                        acc < pow,
                        ((b % 0x80) as u64) <= 0x7f,
                ;
            }
            acc = acc + pow * ((b % 0x80) as u64);
            i = i + 1;
            k = k + 1;
            if b < 0x80 {
                let u: u32 = (acc % 0x1_0000_0000) as u32;
                let v: i32 = if u < 0x8000_0000 {
                    u as i32
                } else {
                    ((u as i64) - 0x1_0000_0000) as i32
                };
                proof {
                    lemma_varint_at_some(buf@, pos as int, i as int);
                }
                return Ok((VarInt(v), i));
            }
            proof {
                lemma_pow128_values();
            }
            pow = pow * 0x80;
        }
    }
}

} // verus!
