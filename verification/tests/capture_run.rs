use dhcp_parser::analyzer::{DhcpEvent, Severity, Timestamp};
use dhcp_parser::capture::{analyze_capture, capture_format, CaptureFormat, CapturedPacket, DhcpFrame};
use dhcp_parser::root_cause::RootCauseKind;

fn frame(msg: u8, xid: u32, mac_last: u8, yiaddr: [u8; 4]) -> Vec<u8> {
    let mut p = vec![0u8; 240];
    p[0] = 1;
    p[4..8].copy_from_slice(&xid.to_be_bytes());
    p[16..20].copy_from_slice(&yiaddr);
    p[28..34].copy_from_slice(&[2, 0, 0, 0, 0, mac_last]);
    p[236..240].copy_from_slice(&[99, 130, 83, 99]);
    p.extend_from_slice(&[53, 1, msg, 255]);
    p
}

fn packet(sec: u32, src: &str, payload: Vec<u8>) -> CapturedPacket {
    CapturedPacket {
        ts: Timestamp { sec, usec: 0 },
        dhcp: Some(DhcpFrame { src_ip: src.to_string(), dst_ip: "255.255.255.255".to_string(), payload }),
    }
}

#[test]
fn empty_capture() {
    let r = analyze_capture(&[]);
    assert_eq!(r.total_packets, 0);
    assert_eq!(r.dhcp_packets, 0);
    assert!(r.events.is_empty());
    assert_eq!(r.summary.clients_seen, 0);
    assert_eq!(r.root_cause.causes[0].kind, RootCauseKind::Clean);
}

#[test]
fn dora_and_a_timeout() {
    let pkts = vec![
        packet(1, "0.0.0.0", frame(1, 1, 1, [0, 0, 0, 0])),
        CapturedPacket { ts: Timestamp { sec: 2, usec: 0 }, dhcp: None },
        packet(2, "10.0.0.1", frame(2, 1, 1, [10, 0, 0, 9])),
        packet(3, "0.0.0.0", frame(3, 1, 1, [0, 0, 0, 0])),
        packet(4, "10.0.0.1", frame(5, 1, 1, [10, 0, 0, 9])),
        packet(5, "0.0.0.0", frame(1, 2, 2, [0, 0, 0, 0])),
        packet(6, "0.0.0.0", vec![1, 2, 3]),
        CapturedPacket { ts: Timestamp { sec: 30, usec: 0 }, dhcp: None },
    ];
    let r = analyze_capture(&pkts);
    assert_eq!(r.total_packets, 8);
    assert_eq!(r.dhcp_packets, 5);
    assert_eq!(r.first_ts.sec, 1);
    assert_eq!(r.last_ts.sec, 30);
    // discover, offer, transition + request, transition + ack, discover, timeout
    assert_eq!(r.events.len(), 8);
    let last = r.events.last().unwrap();
    assert_eq!(last.ts.sec, 30);
    assert_eq!(last.severity, Severity::Warning);
    match &last.event {
        DhcpEvent::LeaseTimeout { client_mac, elapsed_us, .. } => {
            assert_eq!(client_mac, "02:00:00:00:00:02");
            assert_eq!(*elapsed_us, 25_000_000);
        }
        other => panic!("unexpected {:?}", other),
    }
    assert_eq!(r.summary.clients_seen, 2);
    assert_eq!(r.summary.leases_acquired, 1);
    assert_eq!(r.summary.timeouts, 1);
    assert_eq!(r.summary.anomalies, 1);
    assert_eq!(r.summary.rogue_servers, 0);
    assert_eq!(r.summary.nak_count, 0);
    assert_eq!(r.summary.conflicts, 0);
    assert_eq!(r.root_cause.causes[0].kind, RootCauseKind::ServerUnreachable);
    assert!(!r.root_cause.stable);
}

#[test]
fn repeated_client_counted_once() {
    let pkts = vec![
        packet(1, "0.0.0.0", frame(1, 1, 7, [0, 0, 0, 0])),
        packet(2, "0.0.0.0", frame(1, 2, 7, [0, 0, 0, 0])),
    ];
    let r = analyze_capture(&pkts);
    assert_eq!(r.summary.clients_seen, 1);
}

#[test]
fn capture_format_detection() {
    assert_eq!(capture_format(&[0x0a, 0x0d, 0x0d, 0x0a, 0x1c, 0, 0, 0]), CaptureFormat::Pcapng);
    assert_eq!(capture_format(&[0xd4, 0xc3, 0xb2, 0xa1, 2, 0]), CaptureFormat::Pcap);
    assert_eq!(capture_format(&[0x0a, 0x0d, 0x0d]), CaptureFormat::Pcap);
    assert_eq!(capture_format(&[]), CaptureFormat::Pcap);
}
