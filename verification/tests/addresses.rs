use scanolotl::error::ScanError;
use scanolotl::ip::{parse_input_lines, Ipv4, Ipv4Subnet, UInt};

fn ip(a: u8, b: u8, c: u8, d: u8) -> Ipv4 {
    Ipv4 { a, b, c, d }
}

#[test]
fn ipv4_octets_fold() {
    assert_eq!(ip(1, 2, 3, 4).to_u32(), 0x01020304);
    assert_eq!(ip(255, 255, 255, 255).to_u32(), u32::MAX);
    assert_eq!(Ipv4::from_u32(0x01020304), ip(1, 2, 3, 4));
}

#[test]
fn ipv4_from_str_accepts_quads() {
    assert_eq!(Ipv4::from_str("1.2.3.4").unwrap(), ip(1, 2, 3, 4));
    assert_eq!(Ipv4::from_str("0.0.0.0").unwrap(), ip(0, 0, 0, 0));
    assert_eq!(
        Ipv4::from_str("255.255.255.255").unwrap(),
        ip(255, 255, 255, 255)
    );
}

#[test]
fn ipv4_from_str_rejects_bad_text() {
    for bad in [
        "",
        "1.2.3",
        "1.2.3.4.5",
        "1.2.3.256",
        "a.b.c.d",
        "1..2.3",
        "1.2.3.4/8",
        " 1.2.3.4",
        "1.2.3.1024",
        "01.2.3.4",
        "1.2.3.04",
        "1.2.003.4",
    ] {
        assert_eq!(Ipv4::from_str(bad), Err(ScanError::AddrParse), "{bad}");
    }
}

#[test]
fn cidr_expansion_of_small_block() {
    let sub = Ipv4Subnet::from_str("10.0.0.0/30").unwrap();
    assert_eq!(sub.network(), ip(10, 0, 0, 0));
    assert_eq!(sub.broadcast(), ip(10, 0, 0, 3));
    assert_eq!(sub.hosts(), vec![ip(10, 0, 0, 1), ip(10, 0, 0, 2)]);
}

#[test]
fn cidr_single_host_and_point_to_point() {
    let one = Ipv4Subnet::from_str("192.168.1.7/32").unwrap();
    assert_eq!(one.hosts(), vec![ip(192, 168, 1, 7)]);
    let pair = Ipv4Subnet::from_str("192.168.1.0/31").unwrap();
    assert_eq!(pair.hosts(), Vec::<Ipv4>::new());
}

#[test]
fn cidr_network_rounds_down_inside_block() {
    let sub = Ipv4Subnet::from_str("10.0.0.9/29").unwrap();
    assert_eq!(sub.network(), ip(10, 0, 0, 8));
    assert_eq!(sub.broadcast(), ip(10, 0, 0, 15));
    assert_eq!(sub.hosts().len(), 6);
}

#[test]
fn cidr_rejects_bad_text() {
    assert_eq!(
        Ipv4Subnet::from_str("10.0.0.0").unwrap_err(),
        ScanError::Protocol
    );
    assert_eq!(
        Ipv4Subnet::from_str("banana/8").unwrap_err(),
        ScanError::AddrParse
    );
    assert_eq!(
        Ipv4Subnet::from_str("10.0.0.0/33").unwrap_err(),
        ScanError::ParseInt
    );
    assert_eq!(
        Ipv4Subnet::from_str("10.0.0.0/x").unwrap_err(),
        ScanError::ParseInt
    );
    assert_eq!(
        Ipv4Subnet::from_str("10.0.0.0/").unwrap_err(),
        ScanError::ParseInt
    );
}

#[test]
fn input_lines_expand_in_order() {
    let lines: Vec<String> = [
        "# a comment",
        "10.0.0.0/30",
        "1.2.3.4",
        "not an address",
        "",
    ]
    .iter()
    .map(|s| s.to_string())
    .collect();
    let ips = parse_input_lines(&lines);
    assert_eq!(ips, vec![ip(10, 0, 0, 1), ip(10, 0, 0, 2), ip(1, 2, 3, 4)]);
}
