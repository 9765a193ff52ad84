//! The unified failure kind: one sum type over protocol, transport I/O,
//! timeout, UTF-8, JSON, integer-parse and address-parse failures. The scan
//! engine discards probe failures wholesale, so the kinds matter only for
//! setup-time diagnostics.

use vstd::prelude::*;

verus! {

/// Every way a probe or a setup step can fail.
#[derive(Clone, Copy, Debug, PartialEq, Eq, Structural)]
pub enum ScanError {
    /// A malformed wire value: an overlong VarInt, a negative or oversized
    /// string length, a short buffer, or an unexpected packet id.
    Protocol,
    /// A transport read or write failed.
    Io,
    /// The per-probe timeout expired.
    Timeout,
    /// A string field was not valid UTF-8.
    Utf8,
    /// The status document was not JSON of the required shape.
    Json,
    /// A numeric field of an input line did not parse.
    ParseInt,
    /// An input line was neither an address nor a CIDR block.
    AddrParse,
}

impl ScanError {
    /// A short diagnostic name for the failure kind.
    pub fn describe(&self) -> (r: &'static str)
        ensures
            r@.len() > 0,
    {
        let s = match self {
            ScanError::Protocol => "protocol error",
            ScanError::Io => "i/o error",
            ScanError::Timeout => "timeout",
            ScanError::Utf8 => "invalid utf-8",
            ScanError::Json => "invalid status json",
            ScanError::ParseInt => "invalid integer",
            ScanError::AddrParse => "invalid address",
        };
        proof {
            reveal_strlit("protocol error");
            reveal_strlit("i/o error");
            reveal_strlit("timeout");
            reveal_strlit("invalid utf-8");
            reveal_strlit("invalid status json");
            reveal_strlit("invalid integer");
            reveal_strlit("invalid address");
        }
        s
    }
}

} // verus!
