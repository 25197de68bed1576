use dhcp_parser::dhcp::{bytes_to_ip, parse_dhcp, DhcpMessageType};

const MAGIC: [u8; 4] = [99, 130, 83, 99];

fn make_dhcp_packet(options: &[u8]) -> Vec<u8> {
    let mut pkt = vec![0u8; 240];
    pkt[0] = 1;
    pkt[4..8].copy_from_slice(&[0xde, 0xad, 0xbe, 0xef]);
    pkt[28..34].copy_from_slice(&[0xaa, 0xbb, 0xcc, 0xdd, 0xee, 0xff]);
    pkt[12..16].copy_from_slice(&[192, 168, 1, 10]);
    pkt[16..20].copy_from_slice(&[192, 168, 1, 20]);
    pkt[236..240].copy_from_slice(&MAGIC);
    pkt.extend_from_slice(options);
    pkt
}

fn opt53(t: u8) -> Vec<u8> { vec![53, 1, t] }
fn opt50(ip: [u8; 4]) -> Vec<u8> { let mut v = vec![50, 4]; v.extend_from_slice(&ip); v }
fn opt54(ip: [u8; 4]) -> Vec<u8> { let mut v = vec![54, 4]; v.extend_from_slice(&ip); v }
fn opt51(s: u32) -> Vec<u8> { let mut v = vec![51, 4]; v.extend_from_slice(&s.to_be_bytes()); v }
fn end() -> Vec<u8> { vec![255] }

#[test]
fn test_parse_discover() {
    let mut opts = opt53(1); opts.extend(end());
    let result = parse_dhcp(&make_dhcp_packet(&opts)).expect("should parse");
    assert_eq!(result.msg_type, DhcpMessageType::Discover);
    assert_eq!(result.xid, 0xdeadbeef);
    assert_eq!(result.op, 1);
}

#[test]
fn test_parse_offer_with_server_id_and_lease() {
    let mut opts = opt53(2);
    opts.extend(opt54([192, 168, 1, 1]));
    opts.extend(opt51(86400));
    opts.extend(end());
    let result = parse_dhcp(&make_dhcp_packet(&opts)).unwrap();
    assert_eq!(result.msg_type, DhcpMessageType::Offer);
    assert_eq!(result.server_id, Some([192, 168, 1, 1]));
    assert_eq!(result.lease_time, Some(86400));
}

#[test]
fn test_parse_request_with_requested_ip() {
    let mut opts = opt53(3);
    opts.extend(opt50([10, 0, 0, 100]));
    opts.extend(opt54([10, 0, 0, 1]));
    opts.extend(end());
    let result = parse_dhcp(&make_dhcp_packet(&opts)).unwrap();
    assert_eq!(result.msg_type, DhcpMessageType::Request);
    assert_eq!(result.requested_ip, Some([10, 0, 0, 100]));
    assert_eq!(result.server_id, Some([10, 0, 0, 1]));
}

#[test]
fn test_parse_ack() { let mut o = opt53(5); o.extend(end()); assert_eq!(parse_dhcp(&make_dhcp_packet(&o)).unwrap().msg_type, DhcpMessageType::Ack); }
#[test]
fn test_parse_nak() { let mut o = opt53(6); o.extend(end()); assert_eq!(parse_dhcp(&make_dhcp_packet(&o)).unwrap().msg_type, DhcpMessageType::Nak); }
#[test]
fn test_parse_release() { let mut o = opt53(7); o.extend(end()); assert_eq!(parse_dhcp(&make_dhcp_packet(&o)).unwrap().msg_type, DhcpMessageType::Release); }
#[test]
fn test_parse_decline() { let mut o = opt53(4); o.extend(end()); assert_eq!(parse_dhcp(&make_dhcp_packet(&o)).unwrap().msg_type, DhcpMessageType::Decline); }
#[test]
fn test_parse_inform() { let mut o = opt53(8); o.extend(end()); assert_eq!(parse_dhcp(&make_dhcp_packet(&o)).unwrap().msg_type, DhcpMessageType::Inform); }

#[test]
fn test_unknown_msg_type() {
    let mut o = opt53(99); o.extend(end());
    assert!(matches!(parse_dhcp(&make_dhcp_packet(&o)).unwrap().msg_type, DhcpMessageType::Unknown(99)));
}

#[test]
fn test_too_short_returns_none() {
    assert!(parse_dhcp(&vec![0u8; 200]).is_none());
}

#[test]
fn test_wrong_magic_returns_none() {
    let mut pkt = make_dhcp_packet(&end());
    pkt[236] = 0xde;
    assert!(parse_dhcp(&pkt).is_none());
}

#[test]
fn test_no_options_returns_unknown() {
    assert!(matches!(parse_dhcp(&make_dhcp_packet(&end())).unwrap().msg_type, DhcpMessageType::Unknown(0)));
}

#[test]
fn test_pad_bytes_skipped() {
    let mut opts = vec![0u8, 0u8];
    opts.extend(opt53(1));
    opts.extend(end());
    assert_eq!(parse_dhcp(&make_dhcp_packet(&opts)).unwrap().msg_type, DhcpMessageType::Discover);
}

#[test]
fn test_options_order_independent() {
    let mut opts = opt51(3600);
    opts.extend(opt54([172, 16, 0, 1]));
    opts.extend(opt50([172, 16, 0, 50]));
    opts.extend(opt53(3));
    opts.extend(end());
    let result = parse_dhcp(&make_dhcp_packet(&opts)).unwrap();
    assert_eq!(result.msg_type, DhcpMessageType::Request);
    assert_eq!(result.lease_time, Some(3600));
    assert_eq!(result.server_id, Some([172, 16, 0, 1]));
    assert_eq!(result.requested_ip, Some([172, 16, 0, 50]));
}

#[test]
fn test_truncated_option_no_panic() {
    let _ = parse_dhcp(&make_dhcp_packet(&vec![53, 4, 1, 2]));
}

#[test]
fn test_client_mac_str() {
    assert_eq!(parse_dhcp(&make_dhcp_packet(&end())).unwrap().client_mac_str(), "aa:bb:cc:dd:ee:ff");
}

#[test]
fn test_yiaddr_and_ciaddr() {
    let result = parse_dhcp(&make_dhcp_packet(&end())).unwrap();
    assert_eq!(result.yiaddr_str(), "192.168.1.20");
    assert_eq!(result.ciaddr_str(), "192.168.1.10");
}

#[test]
fn test_xid_big_endian() {
    assert_eq!(parse_dhcp(&make_dhcp_packet(&end())).unwrap().xid, 0xdeadbeef);
}

#[test]
fn test_server_id_str() {
    let mut opts = opt53(2); opts.extend(opt54([10, 1, 1, 1])); opts.extend(end());
    assert_eq!(parse_dhcp(&make_dhcp_packet(&opts)).unwrap().server_id_str(), Some("10.1.1.1".to_string()));
}

#[test]
fn test_requested_ip_str() {
    let mut opts = opt53(3); opts.extend(opt50([192, 168, 100, 50])); opts.extend(end());
    assert_eq!(parse_dhcp(&make_dhcp_packet(&opts)).unwrap().requested_ip_str(), Some("192.168.100.50".to_string()));
}

#[test]
fn test_bytes_to_ip() {
    assert_eq!(bytes_to_ip(&[192, 168, 1, 1]), "192.168.1.1");
    assert_eq!(bytes_to_ip(&[0, 0, 0, 0]), "0.0.0.0");
    assert_eq!(bytes_to_ip(&[255, 255, 255, 255]), "255.255.255.255");
}

#[test]
fn test_msg_type_as_str() {
    assert_eq!(DhcpMessageType::Discover.as_str(), "DHCPDISCOVER");
    assert_eq!(DhcpMessageType::Offer.as_str(), "DHCPOFFER");
    assert_eq!(DhcpMessageType::Ack.as_str(), "DHCPACK");
    assert_eq!(DhcpMessageType::Nak.as_str(), "DHCPNAK");
    assert_eq!(DhcpMessageType::Unknown(42).as_str(), "UNKNOWN");
}

// ── Further cases ──────────────────────────────────────────────────────────

#[test]
fn parse_exactly_header_and_cookie() {
    let pkt = make_dhcp_packet(&[]);
    assert_eq!(pkt.len(), 240);
    let p = parse_dhcp(&pkt).unwrap();
    assert_eq!(p.msg_type, DhcpMessageType::Unknown(0));
    assert_eq!(p.requested_ip, None);
    assert_eq!(p.server_id, None);
    assert_eq!(p.lease_time, None);
}

#[test]
fn parse_239_bytes_is_none() {
    let pkt = make_dhcp_packet(&[]);
    assert!(parse_dhcp(&pkt[..239]).is_none());
}

#[test]
fn each_cookie_byte_is_checked() {
    for k in 236..240 {
        let mut pkt = make_dhcp_packet(&end());
        pkt[k] ^= 1;
        assert!(parse_dhcp(&pkt).is_none());
    }
}

#[test]
fn options_after_end_are_ignored() {
    let mut opts = opt53(1);
    opts.extend(end());
    opts.extend(opt53(2));
    assert_eq!(parse_dhcp(&make_dhcp_packet(&opts)).unwrap().msg_type, DhcpMessageType::Discover);
}

#[test]
fn later_option_overrides_earlier() {
    let mut opts = opt53(1);
    opts.extend(opt53(5));
    opts.extend(end());
    assert_eq!(parse_dhcp(&make_dhcp_packet(&opts)).unwrap().msg_type, DhcpMessageType::Ack);
}

#[test]
fn wrong_length_option_ignored() {
    let mut opts = vec![54, 3, 1, 2, 3];
    opts.extend(opt51(7));
    opts.extend(end());
    let p = parse_dhcp(&make_dhcp_packet(&opts)).unwrap();
    assert_eq!(p.server_id, None);
    assert_eq!(p.lease_time, Some(7));
}

#[test]
fn truncated_value_stops_scan() {
    let mut opts = opt53(3);
    opts.extend(vec![50, 4, 1, 2]);
    let p = parse_dhcp(&make_dhcp_packet(&opts)).unwrap();
    assert_eq!(p.msg_type, DhcpMessageType::Request);
    assert_eq!(p.requested_ip, None);
}

#[test]
fn lone_code_without_length_stops_scan() {
    let mut opts = opt53(6);
    opts.push(54);
    let p = parse_dhcp(&make_dhcp_packet(&opts)).unwrap();
    assert_eq!(p.msg_type, DhcpMessageType::Nak);
    assert_eq!(p.server_id, None);
}

#[test]
fn header_addresses_and_mac() {
    let mut pkt = make_dhcp_packet(&end());
    pkt[20..24].copy_from_slice(&[10, 0, 0, 254]);
    pkt[24..28].copy_from_slice(&[10, 9, 8, 7]);
    let p = parse_dhcp(&pkt).unwrap();
    assert_eq!(p.ciaddr, [192, 168, 1, 10]);
    assert_eq!(p.yiaddr, [192, 168, 1, 20]);
    assert_eq!(p.siaddr_str(), "10.0.0.254");
    assert_eq!(p.giaddr_str(), "10.9.8.7");
    assert_eq!(p.client_mac, [0xaa, 0xbb, 0xcc, 0xdd, 0xee, 0xff]);
}

#[test]
fn lease_time_big_endian() {
    let mut opts = opt51(0x01020304);
    opts.extend(end());
    assert_eq!(parse_dhcp(&make_dhcp_packet(&opts)).unwrap().lease_time, Some(0x01020304));
}

#[test]
fn mac_str_pads_with_zero() {
    let mut pkt = make_dhcp_packet(&end());
    pkt[28..34].copy_from_slice(&[0x00, 0x01, 0x0a, 0x10, 0xf0, 0xff]);
    assert_eq!(parse_dhcp(&pkt).unwrap().client_mac_str(), "00:01:0a:10:f0:ff");
}

#[test]
fn absent_optional_strings_are_none() {
    let p = parse_dhcp(&make_dhcp_packet(&end())).unwrap();
    assert_eq!(p.server_id_str(), None);
    assert_eq!(p.requested_ip_str(), None);
}

#[test]
fn all_message_type_names() {
    assert_eq!(DhcpMessageType::Request.as_str(), "DHCPREQUEST");
    assert_eq!(DhcpMessageType::Decline.as_str(), "DHCPDECLINE");
    assert_eq!(DhcpMessageType::Release.as_str(), "DHCPRELEASE");
    assert_eq!(DhcpMessageType::Inform.as_str(), "DHCPINFORM");
}

#[test]
fn end_first_means_no_options() {
    let mut opts = end();
    opts.extend(opt53(1));
    opts.extend(opt54([1, 2, 3, 4]));
    let p = parse_dhcp(&make_dhcp_packet(&opts)).unwrap();
    assert_eq!(p.msg_type, DhcpMessageType::Unknown(0));
    assert_eq!(p.server_id, None);
}

#[test]
fn dotted_quad_lengths_and_distinctness() {
    assert_eq!(bytes_to_ip(&[0, 0, 0, 0]).len(), 7);
    assert_eq!(bytes_to_ip(&[255, 255, 255, 255]).len(), 15);
    assert_ne!(bytes_to_ip(&[1, 11, 1, 1]), bytes_to_ip(&[11, 1, 1, 1]));
    assert_ne!(bytes_to_ip(&[1, 2, 3, 4]), bytes_to_ip(&[1, 2, 34, 0]));
}
