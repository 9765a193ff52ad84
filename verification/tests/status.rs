use scanolotl::error::ScanError;
use scanolotl::packet::write_packet;
use scanolotl::packets::{status_response_json, Response};
use scanolotl::status::{parse_information, Server};
use scanolotl::varint::VarInt;

const FULL: &str = "{\"version\":{\"name\":\"x\",\"protocol\":1},\"players\":{\"max\":0,\"online\":0},\"description\":{\"text\":\"hi\"}}";

#[test]
fn status_document_parses() {
    let info = parse_information(FULL).unwrap();
    assert_eq!(info.version.name, "x");
    assert_eq!(info.version.protocol, 1);
    assert_eq!(info.players.max, 0);
    assert_eq!(info.players.online, 0);
    assert_eq!(info.description.text, "hi");
}

#[test]
fn status_mode_end_to_end() {
    // A fake server's whole response frame, decoded the way a probe does it:
    // unwrap the frame, take the string field, parse the JSON.
    let payload = Response {
        json: FULL.to_string(),
    }
    .encode();
    let frame = write_packet(VarInt(0), &payload);
    let json = status_response_json(&frame).unwrap();
    let info = parse_information(&json).unwrap();
    let server = Server {
        ip: "10.0.0.1".to_string(),
        info,
    };
    assert_eq!(server.ip, "10.0.0.1");
    assert_eq!(server.info.version.name, "x");
    assert_eq!(server.info.version.protocol, 1);
    assert_eq!(server.info.players.max, 0);
    assert_eq!(server.info.players.online, 0);
    assert_eq!(server.info.description.text, "hi");
}

#[test]
fn unknown_fields_are_ignored() {
    let doc = "{\"version\":{\"name\":\"x\",\"protocol\":47,\"extra\":true},\"players\":{\"max\":20,\"online\":3,\"sample\":[]},\"description\":{\"text\":\"hi\"},\"favicon\":\"data\"}";
    let info = parse_information(doc).unwrap();
    assert_eq!(info.version.protocol, 47);
    assert_eq!(info.players.max, 20);
    assert_eq!(info.players.online, 3);
}

#[test]
fn missing_required_field_rejected() {
    let doc = "{\"version\":{\"name\":\"x\"},\"players\":{\"max\":0,\"online\":0},\"description\":{\"text\":\"hi\"}}";
    assert_eq!(parse_information(doc).unwrap_err(), ScanError::Json);
}

#[test]
fn malformed_json_rejected() {
    assert_eq!(parse_information("not json").unwrap_err(), ScanError::Json);
    assert_eq!(parse_information("").unwrap_err(), ScanError::Json);
}

#[test]
fn out_of_range_protocol_rejected() {
    let doc = "{\"version\":{\"name\":\"x\",\"protocol\":4294967296},\"players\":{\"max\":0,\"online\":0},\"description\":{\"text\":\"hi\"}}";
    assert_eq!(parse_information(doc).unwrap_err(), ScanError::Json);
}

#[test]
fn error_kinds_describe_themselves() {
    assert_eq!(ScanError::Timeout.describe(), "timeout");
    assert!(!ScanError::Io.describe().is_empty());
}
