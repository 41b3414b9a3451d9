use braillepcap::packet::parser::{
    classify_cidr, parse_cidr, process_ip_payload, CidrError, CidrMatcher,
};

fn make_ipv4_packet(src_ip: [u8; 4], dst_ip: [u8; 4], src_port: u16, dst_port: u16, proto: u8) -> Vec<u8> {
    let mut pkt = vec![0u8; 40];
    pkt[0] = 0x45; // Version 4, IHL 5
    pkt[8] = 0x00;
    pkt[9] = proto;
    pkt[12..16].copy_from_slice(&src_ip);
    pkt[16..20].copy_from_slice(&dst_ip);
    pkt[20..22].copy_from_slice(&src_port.to_be_bytes());
    pkt[22..24].copy_from_slice(&dst_port.to_be_bytes());
    pkt
}

#[test]
fn inbound_port_filter_uses_destination_port_only() {
    let packet_to_target = make_ipv4_packet([192, 168, 1, 10], [10, 0, 0, 5], 54321, 443, 6);
    assert!(process_ip_payload(&packet_to_target, &[443], &[]).is_some());

    let response_from_target = make_ipv4_packet([10, 0, 0, 5], [192, 168, 1, 10], 443, 54321, 6);
    assert!(process_ip_payload(&response_from_target, &[443], &[]).is_none());
}

#[test]
fn inbound_port_filter_rejects_non_tcp_udp_packets() {
    let icmp_packet = make_ipv4_packet([192, 168, 1, 10], [10, 0, 0, 5], 0, 0, 1);
    assert!(process_ip_payload(&icmp_packet, &[443], &[]).is_none());
}

#[test]
fn inbound_port_filter_accepts_matching_destination_port_for_udp() {
    let udp_packet = make_ipv4_packet([192, 168, 1, 10], [10, 0, 0, 5], 55555, 53, 17);
    assert!(process_ip_payload(&udp_packet, &[53], &[]).is_some());
}

#[test]
fn omit_filter_uses_source_ip_only() {
    // 192.168.111.0
    let omitted_net: u32 = 0xC0A8_6F00;
    let packet = make_ipv4_packet([192, 168, 111, 10], [10, 0, 0, 5], 12345, 443, 6);
    assert!(process_ip_payload(&packet, &[443], &[CidrMatcher::new(omitted_net, 24)]).is_none());

    let allowed_packet = make_ipv4_packet([192, 168, 110, 10], [10, 0, 0, 5], 12345, 443, 6);
    assert!(process_ip_payload(&allowed_packet, &[443], &[CidrMatcher::new(omitted_net, 24)]).is_some());
}

#[test]
fn rejects_invalid_cidr_prefixes() {
    assert!(parse_cidr("192.168.1.1").is_err());
    assert!(parse_cidr("192.168.1.1/").is_err());
    assert!(parse_cidr("192.168.1.1/33").is_err());
    assert!(parse_cidr("192.168.299.0/24").is_err());
}

#[test]
fn rejects_reserved_class_ranges() {
    assert!(parse_cidr("0.0.0.0/8").is_err());
    assert!(parse_cidr("224.0.0.0/24").is_err());
    assert!(parse_cidr("239.255.255.0/24").is_err());
    assert!(parse_cidr("240.0.0.0/24").is_err());
    assert!(parse_cidr("255.255.255.255/32").is_err());
}

#[test]
fn allows_loopback_and_link_local_ranges() {
    assert!(parse_cidr("127.0.0.0/8").is_ok());
    assert!(parse_cidr("169.254.0.0/16").is_ok());
}

#[test]
fn cidr_matcher_keeps_the_prefix_bits() {
    let m = CidrMatcher::new(0xC0A8_6F0A, 24);
    assert_eq!(m.mask, 0xFFFF_FF00);
    assert_eq!(m.network, 0xC0A8_6F00);
    assert!(m.matches(0xC0A8_6FFF));
    assert!(!m.matches(0xC0A8_7000));
    let all = CidrMatcher::new(0x0A00_0000, 0);
    assert_eq!(all.mask, 0);
    assert!(all.matches(0xFFFF_FFFF));
    let host = CidrMatcher::new(0x0A00_0001, 32);
    assert_eq!(host.mask, 0xFFFF_FFFF);
    assert!(host.matches(0x0A00_0001));
    assert!(!host.matches(0x0A00_0002));
    assert_eq!(CidrMatcher::new(0xFFFF_FFFF, 1).mask, 0x8000_0000);
}

#[test]
fn parse_cidr_builds_the_matcher() {
    let m = parse_cidr("10.1.2.3/16").unwrap();
    assert_eq!((m.network, m.mask), (0x0A01_0000, 0xFFFF_0000));
    let m = parse_cidr("169.254.0.0/+016").unwrap();
    assert_eq!((m.network, m.mask), (0xA9FE_0000, 0xFFFF_0000));
    assert_eq!(classify_cidr("1.2.3.4/0"), Ok((0x0102_0304, 0)));
}

#[test]
fn parse_cidr_reports_each_refusal() {
    assert_eq!(classify_cidr("10.0.0.0"), Err(CidrError::Malformed));
    assert_eq!(classify_cidr("/8"), Err(CidrError::Malformed));
    assert_eq!(classify_cidr("10.0.0.0/"), Err(CidrError::Malformed));
    assert_eq!(classify_cidr("10.0.0/8"), Err(CidrError::InvalidAddress));
    assert_eq!(classify_cidr("10.00.0.0/8"), Err(CidrError::InvalidAddress));
    assert_eq!(classify_cidr(" 10.0.0.0/8"), Err(CidrError::InvalidAddress));
    assert_eq!(classify_cidr("10.0.0.0/x"), Err(CidrError::InvalidPrefix));
    assert_eq!(classify_cidr("10.0.0.0/-1"), Err(CidrError::InvalidPrefix));
    assert_eq!(classify_cidr("10.0.0.0/4294967296"), Err(CidrError::InvalidPrefix));
    assert_eq!(classify_cidr("10.0.0.0/4294967295"), Err(CidrError::PrefixOutOfRange));
    assert_eq!(classify_cidr("0.1.2.3/8"), Err(CidrError::ReservedZero));
    assert_eq!(classify_cidr("224.0.0.0/4"), Err(CidrError::ReservedClassDE));
    assert_eq!(parse_cidr("abc").unwrap_err(), "Invalid CIDR: abc");
    assert_eq!(parse_cidr("1.2.3/8").unwrap_err(), "Invalid IPv4 address in CIDR: 1.2.3/8");
    assert_eq!(parse_cidr("1.2.3.4/y").unwrap_err(), "Invalid prefix in CIDR: 1.2.3.4/y");
    assert_eq!(parse_cidr("1.2.3.4/40").unwrap_err(), "CIDR prefix out of range: 1.2.3.4/40");
    assert_eq!(
        parse_cidr("0.0.0.0/8").unwrap_err(),
        "CIDR range 0.0.0.0/8 is reserved: 0.0.0.0/8 is not allowed"
    );
    assert_eq!(
        parse_cidr("240.0.0.0/24").unwrap_err(),
        "CIDR range 240.0.0.0/24 is reserved: class D/E are not allowed"
    );
}

#[test]
fn payload_checks_version_header_and_source() {
    let good = make_ipv4_packet([8, 8, 4, 4], [1, 1, 1, 1], 1, 2, 6);
    assert_eq!(process_ip_payload(&good, &[], &[]), Some((8, 8, 4)));
    assert_eq!(process_ip_payload(&good[..19], &[], &[]), None);
    let mut v6 = good.clone();
    v6[0] = 0x65;
    assert_eq!(process_ip_payload(&v6, &[], &[]), None);
    let mut short_ihl = good.clone();
    short_ihl[0] = 0x44;
    assert_eq!(process_ip_payload(&short_ihl, &[], &[]), None);
    let mut long_ihl = good.clone();
    long_ihl[0] = 0x4F; // 60-byte header in a 40-byte packet
    assert_eq!(process_ip_payload(&long_ihl, &[], &[]), None);
    let multicast = make_ipv4_packet([224, 0, 0, 1], [1, 1, 1, 1], 1, 2, 17);
    assert_eq!(process_ip_payload(&multicast, &[], &[]), None);
    let mut options = make_ipv4_packet([8, 8, 4, 4], [1, 1, 1, 1], 0, 0, 6);
    options[0] = 0x46; // 24-byte header: the port is read after the options
    options[26..28].copy_from_slice(&443u16.to_be_bytes());
    assert_eq!(process_ip_payload(&options, &[443], &[]), Some((8, 8, 4)));
    assert_eq!(process_ip_payload(&options[..27], &[443], &[]), None);
}
