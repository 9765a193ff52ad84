//! The server status document: the JSON shape a status probe must receive,
//! and its extraction into plain records. The JSON text is parsed and its
//! five required fields extracted by serde_json behind one trusted wrapper,
//! whose outcome is a function of the text alone and therefore carries the
//! name `status_fields_of`; the 32-bit range decision is verified here.

use vstd::prelude::*;
use crate::error::ScanError;

verus! {

/// One scanned server: its textual address and its status document.
#[derive(Debug, Clone, PartialEq)]
pub struct Server {
    pub ip: String,
    pub info: Information,
}

/// The status document: version, player counts, and description.
#[derive(Debug, Clone, PartialEq)]
pub struct Information {
    pub version: Version,
    pub players: Players,
    pub description: Description,
}

/// The server's version name and protocol number.
#[derive(Debug, Clone, PartialEq)]
pub struct Version {
    pub name: String,
    pub protocol: i32,
}

/// The player capacity and the current player count.
#[derive(Debug, Clone, PartialEq)]
pub struct Players {
    pub max: i32,
    pub online: i32,
}

/// The free-text description of the server.
#[derive(Debug, Clone, PartialEq)]
pub struct Description {
    pub text: String,
}

/// What JSON extraction yields for a text: the five required fields
/// `version.name`, `version.protocol`, `players.max`, `players.online`,
/// `description.text`, in that order, or nothing when the text is not a
/// JSON object carrying all five (unknown fields are ignored, string fields
/// must be JSON strings, numeric fields must fit an i64).
pub uninterp spec fn status_fields_of(s: Seq<char>) -> Option<
    (Seq<char>, int, int, int, Seq<char>),
>;

/// The three numeric fields of an extraction all fit a signed 32-bit
/// integer.
pub open spec fn status_fields_in_range(f: (Seq<char>, int, int, int, Seq<char>)) -> bool {
    &&& -0x8000_0000 <= f.1 <= 0x7FFF_FFFF
    &&& -0x8000_0000 <= f.2 <= 0x7FFF_FFFF
    &&& -0x8000_0000 <= f.3 <= 0x7FFF_FFFF
}

/// Relies on serde_json (`from_str`, `Value::get`, `Value::as_str`,
/// `Value::as_i64`): parse the text as JSON and take the five required
/// fields, ignoring unknown ones. The outcome depends on the text alone, so
/// it is stated through the name `status_fields_of`.
#[verifier::external_body]
fn extract_status_fields(s: &str) -> (r: Option<(String, i64, i64, i64, String)>)
    ensures
        match r {
            Some(f) => status_fields_of(s@) == Some(
                (f.0@, f.1 as int, f.2 as int, f.3 as int, f.4@),
            ),
            None => status_fields_of(s@) is None,
        },
{
    let v: serde_json::Value = serde_json::from_str(s).ok()?;
    let name = v.get("version")?.get("name")?.as_str()?.to_owned();
    let protocol = v.get("version")?.get("protocol")?.as_i64()?;
    let max = v.get("players")?.get("max")?.as_i64()?;
    let online = v.get("players")?.get("online")?.as_i64()?;
    let text = v.get("description")?.get("text")?.as_str()?.to_owned();
    Some((name, protocol, max, online, text))
}

/// Assemble a status document from its extracted fields. Succeeds exactly
/// when all three numeric fields fit a signed 32-bit integer, and keeps
/// every field as given.
pub fn information_of_parts(
    name: String,
    protocol: i64,
    max: i64,
    online: i64,
    text: String,
) -> (r: Result<Information, ScanError>)
    ensures
        ({
            let fits = -0x8000_0000 <= protocol <= 0x7FFF_FFFF && -0x8000_0000 <= max
                <= 0x7FFF_FFFF && -0x8000_0000 <= online <= 0x7FFF_FFFF;
            match r {
                Ok(info) => {
                    &&& fits
                    &&& info.version.name@ == name@
                    &&& info.version.protocol == protocol
                    &&& info.players.max == max
                    &&& info.players.online == online
                    &&& info.description.text@ == text@
                },
                Err(e) => e == ScanError::Json && !fits,
            }
        }),
{
    if protocol < -0x8000_0000 || protocol > 0x7FFF_FFFF {
        return Err(ScanError::Json);
    }
    if max < -0x8000_0000 || max > 0x7FFF_FFFF {
        return Err(ScanError::Json);
    }
    if online < -0x8000_0000 || online > 0x7FFF_FFFF {
        return Err(ScanError::Json);
    }
    Ok(
        Information {
            version: Version { name, protocol: protocol as i32 },
            players: Players { max: max as i32, online: online as i32 },
            description: Description { text },
        },
    )
}

/// Parse a status response's JSON text into a status document: succeeds
/// exactly when the extraction yields the five required fields with the
/// numeric ones in 32-bit range, and then mirrors those fields; rejects
/// malformed JSON, a missing or mistyped field, and an out-of-range number.
pub fn parse_information(s: &str) -> (r: Result<Information, ScanError>)
    ensures
        match r {
            Ok(info) => {
                &&& status_fields_of(s@) matches Some(f)
                &&& status_fields_in_range(f)
                &&& info.version.name@ == f.0
                &&& info.version.protocol == f.1
                &&& info.players.max == f.2
                &&& info.players.online == f.3
                &&& info.description.text@ == f.4
            },
            Err(e) => {
                &&& e == ScanError::Json
                &&& (status_fields_of(s@) is None || !status_fields_in_range(
                    status_fields_of(s@).unwrap(),
                ))
            },
        },
{
    let (name, protocol, max, online, text) = match extract_status_fields(s) {
        Some(f) => f,
        None => {
            return Err(ScanError::Json);
        },
    };
    information_of_parts(name, protocol, max, online, text)
}

} // verus!
