//! IPv4 addresses and CIDR blocks: the dotted-quad and `A.B.C.D/N` grammars
//! of the input list, and the expansion of a block into its host addresses.

use vstd::prelude::*;
use vstd::utf8::encode_utf8;
use vstd::string::StrSliceExecFns;
use vstd::arithmetic::power2::{
    pow2,
    lemma2_to64,
    lemma_pow2_adds,
    lemma_pow2_pos,
    lemma_pow2_unfold,
    lemma_pow2_strictly_increases,
};
use crate::error::ScanError;

verus! {

/// A 32-bit IPv4 address, held as its four octets.
#[derive(Clone, Copy, Debug, PartialEq, Eq, Structural, Hash)]
pub struct Ipv4 {
    pub a: u8,
    pub b: u8,
    pub c: u8,
    pub d: u8,
}

/// A value with a 32-bit unsigned form.
pub trait UInt {
    spec fn spec_u32(&self) -> u32;

    fn to_u32(&self) -> (r: u32)
        ensures
            r == self.spec_u32(),
    ;
}

impl UInt for Ipv4 {
    open spec fn spec_u32(&self) -> u32 {
        (self.a * 0x100_0000 + self.b * 0x1_0000 + self.c * 0x100 + self.d) as u32
    }

    /// Fold the octets into one big-endian 32-bit value.
    fn to_u32(&self) -> (r: u32) {
        let mut ip: u32 = self.a as u32;
        ip = ip * 0x100 + self.b as u32;
        ip = ip * 0x100 + self.c as u32;
        ip = ip * 0x100 + self.d as u32;
        ip
    }
}

impl Ipv4 {
    /// Split a 32-bit value into its four octets.
    pub fn from_u32(v: u32) -> (r: Ipv4)
        ensures
            r.spec_u32() == v,
    {
        Ipv4 {
            a: (v / 0x100_0000) as u8,
            b: (v / 0x1_0000 % 0x100) as u8,
            c: (v / 0x100 % 0x100) as u8,
            d: (v % 0x100) as u8,
        }
    }

    /// Parse a dotted-quad address. Fails, and says the address was bad,
    /// exactly when the text does not fit the grammar.
    pub fn from_str(s: &str) -> (r: Result<Ipv4, ScanError>)
        ensures
            match r {
                Ok(ip) => spec_parse_ipv4(encode_utf8(s@)) == Some(ip.spec_u32()),
                Err(e) => e == ScanError::AddrParse && spec_parse_ipv4(encode_utf8(s@)) is None,
            },
    {
        let bytes = s.as_bytes_vec();
        match parse_quad(&bytes) {
            Some(ip) => Ok(ip),
            None => Err(ScanError::AddrParse),
        }
    }
}

/// An ASCII decimal digit.
pub open spec fn is_digit(b: u8) -> bool {
    0x30 <= b <= 0x39
}

/// Every byte is an ASCII decimal digit.
pub open spec fn all_digits(s: Seq<u8>) -> bool {
    forall|i: int| 0 <= i < s.len() ==> is_digit(s[i])
}

/// The value of a decimal digit string, high-order digit first.
pub open spec fn dec_value(s: Seq<u8>) -> int
    decreases s.len(),
{
    if s.len() == 0 {
        0
    } else {
        dec_value(s.drop_last()) * 10 + (s.last() - 0x30)
    }
}

/// The text of one octet: one to three digits whose value is at most 255,
/// with no leading zero on a multi-digit octet.
pub open spec fn octet_text(s: Seq<u8>) -> bool {
    &&& 1 <= s.len() <= 3
    &&& all_digits(s)
    &&& dec_value(s) <= 255
    &&& (s.len() > 1 ==> s[0] != 0x30)
}

/// The index of the first `t` in `s` at or after `i`; `s.len()` when none.
pub open spec fn find_from(s: Seq<u8>, i: int, t: u8) -> int
    decreases s.len() - i,
{
    if i < 0 || i >= s.len() {
        s.len() as int
    } else if s[i] == t {
        i
    } else {
        find_from(s, i + 1, t)
    }
}

/// The dotted-quad grammar: four octet texts joined by three dots, and the
/// address value they spell.
pub open spec fn spec_parse_ipv4(s: Seq<u8>) -> Option<u32> {
    let d1 = find_from(s, 0, 0x2e);
    let d2 = find_from(s, d1 + 1, 0x2e);
    let d3 = find_from(s, d2 + 1, 0x2e);
    let d4 = find_from(s, d3 + 1, 0x2e);
    if d1 < s.len() && d2 < s.len() && d3 < s.len() && d4 == s.len() && octet_text(
        s.subrange(0, d1),
    ) && octet_text(s.subrange(d1 + 1, d2)) && octet_text(s.subrange(d2 + 1, d3)) && octet_text(
        s.subrange(d3 + 1, s.len() as int),
    ) {
        Some(
            (dec_value(s.subrange(0, d1)) * 0x100_0000 + dec_value(s.subrange(d1 + 1, d2))
                * 0x1_0000 + dec_value(s.subrange(d2 + 1, d3)) * 0x100 + dec_value(
                s.subrange(d3 + 1, s.len() as int),
            )) as u32,
        )
    } else {
        None
    }
}

/// A digit string is non-negative and bounded by its length.
proof fn lemma_dec_value_bound(s: Seq<u8>)
    requires
        all_digits(s),
    ensures
        0 <= dec_value(s),
        s.len() <= 1 ==> dec_value(s) <= 9,
        s.len() <= 2 ==> dec_value(s) <= 99,
        s.len() <= 3 ==> dec_value(s) <= 999,
    decreases s.len(),
{
    if s.len() > 0 {
        assert(all_digits(s.drop_last()));
        lemma_dec_value_bound(s.drop_last());
    }
}

/// Find the first dot (or the end) at or after `from`.
fn scan_for(b: &Vec<u8>, from: usize, t: u8) -> (r: usize)
    requires
        from <= b@.len(),
    ensures
        r == find_from(b@, from as int, t),
        from <= r <= b@.len(),
        r < b@.len() ==> b@[r as int] == t,
{
    let n = b.len();
    let mut i = from;
    while i < n
        invariant
            from <= i <= n,
            n == b@.len(),
            find_from(b@, from as int, t) == find_from(b@, i as int, t),
        decreases n - i,
    {
        if b[i] == t {
            return i;
        }
        proof {
            assert(find_from(b@, i as int, t) == find_from(b@, i + 1, t));
        }
        i = i + 1;
    }
    i
}

/// Parse the digits in `b[i..j]` as one octet. Returns its value exactly
/// when the range is a well-formed octet text.
fn parse_octet(b: &Vec<u8>, i: usize, j: usize) -> (r: Option<u8>)
    requires
        i <= j <= b@.len(),
    ensures
        match r {
            Some(v) => octet_text(b@.subrange(i as int, j as int)) && dec_value(
                b@.subrange(i as int, j as int),
            ) == v,
            None => !octet_text(b@.subrange(i as int, j as int)),
        },
{
    let ghost part = b@.subrange(i as int, j as int);
    if j - i < 1 || j - i > 3 {
        return None;
    }
    if j - i > 1 && b[i] == 0x30 {
        proof {
            assert(part[0] == b@[i as int]);
        }
        return None;
    }
    let mut v: u32 = 0;
    let mut k = i;
    while k < j
        invariant
            i <= k <= j,
            j <= b@.len(),
            j - i <= 3,
            all_digits(b@.subrange(i as int, k as int)),
            v == dec_value(b@.subrange(i as int, k as int)),
            v <= 999,
        decreases j - k,
    {
        let ch = b[k];
        if ch < 0x30 || ch > 0x39 {
            proof {
                assert(b@.subrange(i as int, j as int)[k - i] == ch);
            }
            return None;
        }
        proof {
            let prev = b@.subrange(i as int, k as int);
            let cur = b@.subrange(i as int, k + 1);
            assert(cur.drop_last() =~= prev);
            assert(cur.last() == ch);
            assert(all_digits(cur));
            lemma_dec_value_bound(prev);
        }
        v = v * 10 + (ch - 0x30) as u32;
        k = k + 1;
    }
    proof {
        assert(b@.subrange(i as int, k as int) =~= part);
        assert(part[0] == b@[i as int]);
        lemma_dec_value_bound(part);
    }
    if v > 255 {
        return None;
    }
    Some(v as u8)
}

/// Parse a whole buffer as a dotted quad.
fn parse_quad(b: &Vec<u8>) -> (r: Option<Ipv4>)
    ensures
        match r {
            Some(ip) => spec_parse_ipv4(b@) == Some(ip.spec_u32()),
            None => spec_parse_ipv4(b@) is None,
        },
{
    let n = b.len();
    let d1 = scan_for(b, 0, 0x2e);
    if d1 == n {
        return None;
    }
    let d2 = scan_for(b, d1 + 1, 0x2e);
    if d2 == n {
        return None;
    }
    let d3 = scan_for(b, d2 + 1, 0x2e);
    if d3 == n {
        return None;
    }
    let d4 = scan_for(b, d3 + 1, 0x2e);
    if d4 != n {
        return None;
    }
    let o1 = match parse_octet(b, 0, d1) {
        Some(v) => v,
        None => {
            return None;
        },
    };
    let o2 = match parse_octet(b, d1 + 1, d2) {
        Some(v) => v,
        None => {
            return None;
        },
    };
    let o3 = match parse_octet(b, d2 + 1, d3) {
        Some(v) => v,
        None => {
            return None;
        },
    };
    let o4 = match parse_octet(b, d3 + 1, n) {
        Some(v) => v,
        None => {
            return None;
        },
    };
    Some(Ipv4 { a: o1, b: o2, c: o3, d: o4 })
}

/// The span of a block with the given prefix length: how many addresses it
/// covers, network and broadcast included.
pub open spec fn spec_span(prefix: int) -> nat {
    pow2((32 - prefix) as nat)
}

/// The network address of the block around `ip`: `ip` rounded down to a
/// multiple of the span.
pub open spec fn spec_network(ip: u32, prefix: int) -> int {
    ip - (ip as int % spec_span(prefix) as int)
}

/// The broadcast address of the block around `ip`: the last address of the
/// span.
pub open spec fn spec_broadcast(ip: u32, prefix: int) -> int {
    spec_network(ip, prefix) + spec_span(prefix) - 1
}

/// The host addresses of a block: everything strictly between network and
/// broadcast, except that a single-host block is just its own address.
pub open spec fn spec_hosts(ip: u32, prefix: int) -> Seq<u32> {
    if prefix == 32 {
        seq![ip]
    } else {
        Seq::new(
            (spec_span(prefix) - 2) as nat,
            |i: int| (spec_network(ip, prefix) + 1 + i) as u32,
        )
    }
}

/// Bounds on a block span: it is positive, at most the whole address space,
/// and divides the address space.
proof fn lemma_span_bounds(n: nat)
    requires
        n <= 32,
    ensures
        1 <= pow2(n) <= 0x1_0000_0000,
        pow2(n) * pow2((32 - n) as nat) == 0x1_0000_0000,
        n >= 1 ==> pow2(n) >= 2,
{
    lemma2_to64();
    lemma_pow2_adds(n, (32 - n) as nat);
    lemma_pow2_pos(n);
    lemma_pow2_pos((32 - n) as nat);
    assert(pow2(n) <= pow2(n) * pow2((32 - n) as nat)) by (nonlinear_arith)
        requires
            pow2((32 - n) as nat) >= 1,
            pow2(n) >= 0,
    ;
    if n >= 1 {
        if n > 1 {
            lemma_pow2_strictly_increases(1, n);
        }
    }
}

/// Compute 2 to the `n` for prefix arithmetic.
fn pow2_exec(n: u8) -> (r: u64)
    requires
        n <= 32,
    ensures
        r == pow2(n as nat),
        1 <= r <= 0x1_0000_0000,
{
    proof {
        lemma_span_bounds(n as nat);
        lemma2_to64();
    }
    let mut r: u64 = 1;
    let mut k: u8 = 0;
    while k < n
        invariant
            k <= n <= 32,
            r == pow2(k as nat),
            r <= 0x1_0000_0000,
        decreases n - k,
    {
        proof {
            lemma_span_bounds((k + 1) as nat);
            lemma_pow2_unfold((k + 1) as nat);
        }
        r = r * 2;
        k = k + 1;
    }
    r
}

/// A CIDR block: an address somewhere inside it, and the prefix length.
#[derive(Clone, Copy, Debug, PartialEq, Eq, Structural)]
pub struct Ipv4Subnet {
    pub ip: Ipv4,
    pub prefix: u8,
}

impl Ipv4Subnet {
    /// The first address of the block.
    pub fn network(&self) -> (r: Ipv4)
        requires
            self.prefix <= 32,
        ensures
            r.spec_u32() == spec_network(self.ip.spec_u32(), self.prefix as int),
    {
        let ipu = self.ip.to_u32() as u64;
        let span = pow2_exec(32 - self.prefix);
        proof {
            lemma_div_mul_le(ipu as int, span as int);
        }
        let net = ipu / span * span;
        Ipv4::from_u32(net as u32)
    }

    /// The last address of the block.
    pub fn broadcast(&self) -> (r: Ipv4)
        requires
            self.prefix <= 32,
        ensures
            r.spec_u32() == spec_broadcast(self.ip.spec_u32(), self.prefix as int),
    {
        let ipu = self.ip.to_u32() as u64;
        let span = pow2_exec(32 - self.prefix);
        proof {
            lemma_div_mul_le(ipu as int, span as int);
            lemma_span_bounds((32 - self.prefix) as nat);
            assert((span as int) * (pow2(self.prefix as nat) as int) == 0x1_0000_0000);
            lemma_net_plus_span(ipu as int, span as int);
        }
        let net = ipu / span * span;
        Ipv4::from_u32((net + span - 1) as u32)
    }

    /// Every host address of the block, in ascending order: the addresses
    /// strictly between network and broadcast, or the address itself for a
    /// whole-address prefix of 32.
    pub fn hosts(&self) -> (r: Vec<Ipv4>)
        requires
            self.prefix <= 32,
        ensures
            r@.map_values(|ip: Ipv4| ip.spec_u32()) == spec_hosts(
                self.ip.spec_u32(),
                self.prefix as int,
            ),
    {
        let mut out: Vec<Ipv4> = Vec::new();
        if self.prefix == 32 {
            out.push(Ipv4::from_u32(self.ip.to_u32()));
            proof {
                assert(out@.map_values(|ip: Ipv4| ip.spec_u32()) =~= spec_hosts(
                    self.ip.spec_u32(),
                    self.prefix as int,
                ));
            }
            return out;
        }
        proof {
            lemma_span_bounds((32 - self.prefix) as nat);
        }
        let net = self.network().to_u32() as u64;
        let bcast = self.broadcast().to_u32() as u64;
        let mut cur: u64 = net + 1;
        while cur < bcast
            invariant
                net == spec_network(self.ip.spec_u32(), self.prefix as int),
                net + 1 <= cur <= bcast,
                bcast == spec_broadcast(self.ip.spec_u32(), self.prefix as int),
                bcast < 0x1_0000_0000,
                out@.len() == cur - net - 1,
                forall|i: int| 0 <= i < out@.len() ==> out@[i].spec_u32() == net + 1 + i,
            decreases bcast - cur,
        {
            out.push(Ipv4::from_u32(cur as u32));
            cur = cur + 1;
        }
        proof {
            assert(out@.map_values(|ip: Ipv4| ip.spec_u32()) =~= spec_hosts(
                self.ip.spec_u32(),
                self.prefix as int,
            ));
        }
        out
    }

    /// Parse `A.B.C.D/N`. The text before the first slash must be a dotted
    /// quad and the text after it a prefix length of at most 32.
    pub fn from_str(s: &str) -> (r: Result<Ipv4Subnet, ScanError>)
        ensures
            match r {
                Ok(sub) => {
                    &&& sub.prefix <= 32
                    &&& spec_parse_subnet(encode_utf8(s@)) == Some(
                        (sub.ip.spec_u32(), sub.prefix as int),
                    )
                },
                Err(e) => {
                    &&& spec_parse_subnet(encode_utf8(s@)) is None
                    &&& (e == ScanError::Protocol || e == ScanError::AddrParse || e
                        == ScanError::ParseInt)
                },
            },
    {
        let bytes = s.as_bytes_vec();
        let n = bytes.len();
        let sl = scan_for(&bytes, 0, 0x2f);
        if sl == n {
            return Err(ScanError::Protocol);
        }
        let mut head: Vec<u8> = Vec::new();
        let mut j: usize = 0;
        while j < sl
            invariant
                0 <= j <= sl < n,
                n == bytes@.len(),
                head@ =~= bytes@.subrange(0, j as int),
            decreases sl - j,
        {
            head.push(bytes[j]);
            proof {
                assert(head@ =~= bytes@.subrange(0, j + 1));
            }
            j = j + 1;
        }
        let ip = match parse_quad(&head) {
            Some(ip) => ip,
            None => {
                return Err(ScanError::AddrParse);
            },
        };
        let prefix = match parse_prefix(&bytes, sl + 1, n) {
            Some(p) => p,
            None => {
                return Err(ScanError::ParseInt);
            },
        };
        Ok(Ipv4Subnet { ip, prefix })
    }
}

/// The text of a prefix length: one to three digits whose value is at
/// most 32.
pub open spec fn prefix_text(s: Seq<u8>) -> bool {
    1 <= s.len() <= 3 && all_digits(s) && dec_value(s) <= 32
}

/// The CIDR grammar: a dotted quad, one slash, and a prefix length.
pub open spec fn spec_parse_subnet(s: Seq<u8>) -> Option<(u32, int)> {
    let sl = find_from(s, 0, 0x2f);
    if sl < s.len() && spec_parse_ipv4(s.subrange(0, sl)) is Some && prefix_text(
        s.subrange(sl + 1, s.len() as int),
    ) {
        Some(
            (
                spec_parse_ipv4(s.subrange(0, sl)).unwrap(),
                dec_value(s.subrange(sl + 1, s.len() as int)),
            ),
        )
    } else {
        None
    }
}

/// Parse the digits in `b[i..j]` as a prefix length of at most 32.
fn parse_prefix(b: &Vec<u8>, i: usize, j: usize) -> (r: Option<u8>)
    requires
        i <= j <= b@.len(),
    ensures
        match r {
            Some(v) => prefix_text(b@.subrange(i as int, j as int)) && dec_value(
                b@.subrange(i as int, j as int),
            ) == v && v <= 32,
            None => !prefix_text(b@.subrange(i as int, j as int)),
        },
{
    let ghost part = b@.subrange(i as int, j as int);
    if j - i < 1 || j - i > 3 {
        return None;
    }
    let mut v: u32 = 0;
    let mut k = i;
    while k < j
        invariant
            i <= k <= j,
            j <= b@.len(),
            j - i <= 3,
            all_digits(b@.subrange(i as int, k as int)),
            v == dec_value(b@.subrange(i as int, k as int)),
            v <= 999,
        decreases j - k,
    {
        let ch = b[k];
        if ch < 0x30 || ch > 0x39 {
            proof {
                assert(b@.subrange(i as int, j as int)[k - i] == ch);
            }
            return None;
        }
        proof {
            let prev = b@.subrange(i as int, k as int);
            let cur = b@.subrange(i as int, k + 1);
            assert(cur.drop_last() =~= prev);
            assert(cur.last() == ch);
            assert(all_digits(cur));
            lemma_dec_value_bound(prev);
        }
        v = v * 10 + (ch - 0x30) as u32;
        k = k + 1;
    }
    proof {
        assert(b@.subrange(i as int, k as int) =~= part);
        lemma_dec_value_bound(part);
    }
    if v > 32 {
        return None;
    }
    Some(v as u8)
}

/// The addresses one input line contributes: none for a comment or an
/// unparseable line, a block's hosts for a CIDR line, the single address for
/// a dotted-quad line.
pub open spec fn spec_line_ips(b: Seq<u8>) -> Seq<u32> {
    if b.len() > 0 && b[0] == 0x23 {
        Seq::empty()
    } else if spec_parse_subnet(b) is Some {
        let (ip, prefix) = spec_parse_subnet(b).unwrap();
        spec_hosts(ip, prefix)
    } else if spec_parse_ipv4(b) is Some {
        seq![spec_parse_ipv4(b).unwrap()]
    } else {
        Seq::empty()
    }
}

/// The addresses of a whole input list, line by line, in order.
pub open spec fn spec_input_ips(lines: Seq<Seq<u8>>) -> Seq<u32>
    decreases lines.len(),
{
    if lines.len() == 0 {
        Seq::empty()
    } else {
        spec_input_ips(lines.drop_last()) + spec_line_ips(lines.last())
    }
}

/// Turn the lines of an input file into the address list to scan: comment
/// lines (leading `#`) and unparseable lines contribute nothing, CIDR lines
/// contribute their hosts, address lines contribute themselves.
pub fn parse_input_lines(lines: &Vec<String>) -> (r: Vec<Ipv4>)
    ensures
        r@.map_values(|ip: Ipv4| ip.spec_u32()) == spec_input_ips(
            lines@.map_values(|s: String| encode_utf8(s@)),
        ),
{
    let ghost ml = lines@.map_values(|s: String| encode_utf8(s@));
    let mut out: Vec<Ipv4> = Vec::new();
    let n = lines.len();
    let mut li: usize = 0;
    while li < n
        invariant
            0 <= li <= n,
            n == lines@.len(),
            ml == lines@.map_values(|s: String| encode_utf8(s@)),
            out@.map_values(|ip: Ipv4| ip.spec_u32()) =~= spec_input_ips(
                ml.subrange(0, li as int),
            ),
        decreases n - li,
    {
        let line = &lines[li];
        let b = line.as_str().as_bytes_vec();
        let ghost prev = out@.map_values(|ip: Ipv4| ip.spec_u32());
        if b.len() > 0 && b[0] == 0x23 {
            proof {
                assert(spec_line_ips(ml[li as int]) =~= Seq::<u32>::empty());
            }
        } else {
            match Ipv4Subnet::from_str(line.as_str()) {
                Ok(sub) => {
                    let mut hs = sub.hosts();
                    let ghost hsv = hs@.map_values(|ip: Ipv4| ip.spec_u32());
                    out.append(&mut hs);
                    proof {
                        assert(out@.map_values(|ip: Ipv4| ip.spec_u32()) =~= prev + hsv);
                        assert(spec_line_ips(ml[li as int]) == hsv);
                    }
                },
                Err(_) => {
                    match Ipv4::from_str(line.as_str()) {
                        Ok(ip) => {
                            out.push(ip);
                            proof {
                                assert(out@.map_values(|ip: Ipv4| ip.spec_u32()) =~= prev + seq![
                                    ip.spec_u32(),
                                ]);
                                assert(spec_line_ips(ml[li as int]) =~= seq![ip.spec_u32()]);
                            }
                        },
                        Err(_) => {
                            proof {
                                assert(spec_line_ips(ml[li as int]) =~= Seq::<u32>::empty());
                            }
                        },
                    }
                },
            }
        }
        proof {
            assert(ml.subrange(0, li + 1).drop_last() =~= ml.subrange(0, li as int));
            assert(ml.subrange(0, li + 1).last() == ml[li as int]);
            assert(out@.map_values(|ip: Ipv4| ip.spec_u32()) =~= spec_input_ips(
                ml.subrange(0, li + 1),
            ));
        }
        li = li + 1;
    }
    proof {
        assert(ml.subrange(0, n as int) =~= ml);
    }
    out
}

/// Rounding down to a multiple of `span` never increases the value.
proof fn lemma_div_mul_le(ip: int, span: int)
    requires
        0 <= ip,
        1 <= span,
    ensures
        ip / span * span == ip - ip % span,
        0 <= ip / span * span <= ip,
{
    assert(ip / span * span == ip - ip % span) by (nonlinear_arith)
        requires
            0 <= ip,
            1 <= span,
    ;
    assert(0 <= ip % span < span) by (nonlinear_arith)
        requires
            0 <= ip,
            1 <= span,
    ;
}

/// The block around a 32-bit address ends within 32-bit range.
proof fn lemma_net_plus_span(ip: int, span: int)
    requires
        0 <= ip < 0x1_0000_0000,
        1 <= span,
        exists|m: int| #[trigger] (span * m) == 0x1_0000_0000,
    ensures
        ip / span * span + span <= 0x1_0000_0000,
{
    let m = choose|m: int| #[trigger] (span * m) == 0x1_0000_0000;
    let q = ip / span;
    assert(q * span + span <= span * m) by (nonlinear_arith)
        requires
            0 <= ip,
            1 <= span,
            q == ip / span,
            span * m == 0x1_0000_0000,
            ip < 0x1_0000_0000,
    ;
}

} // verus!
