use dhcp_parser::analyzer::{classify_event, Analyzer, DhcpClientState, DhcpEvent, Severity, Timestamp};
use dhcp_parser::dhcp::{DhcpMessageType, DhcpPacket};

fn pkt(t: DhcpMessageType, xid: u32, mac_last: u8) -> DhcpPacket {
    DhcpPacket {
        op: 1,
        xid,
        client_mac: [0xaa, 0xbb, 0xcc, 0xdd, 0xee, mac_last],
        ciaddr: [0, 0, 0, 0],
        yiaddr: [0, 0, 0, 0],
        siaddr: [0, 0, 0, 0],
        giaddr: [0, 0, 0, 0],
        msg_type: t,
        requested_ip: None,
        server_id: None,
        lease_time: None,
    }
}

fn at(sec: u32) -> Timestamp {
    Timestamp { sec, usec: 0 }
}

#[test]
fn clean_dora_exchange() {
    let mut a = Analyzer::new();
    let ev = a.process(&pkt(DhcpMessageType::Discover, 7, 1), "0.0.0.0", "255.255.255.255", at(100));
    assert_eq!(ev.len(), 1);
    match &ev[0] {
        DhcpEvent::ClientDiscovered { xid, client_mac, src_ip, ts } => {
            assert_eq!(*xid, 7);
            assert_eq!(client_mac, "aa:bb:cc:dd:ee:01");
            assert_eq!(src_ip, "0.0.0.0");
            assert_eq!(ts.sec, 100);
        }
        other => panic!("unexpected {:?}", other),
    }

    let mut offer = pkt(DhcpMessageType::Offer, 7, 1);
    offer.yiaddr = [192, 168, 1, 50];
    offer.server_id = Some([192, 168, 1, 1]);
    let ev = a.process(&offer, "192.168.1.1", "255.255.255.255", at(101));
    assert_eq!(ev.len(), 1);
    match &ev[0] {
        DhcpEvent::OfferReceived { offered_ip, server_ip, client_mac, .. } => {
            assert_eq!(offered_ip, "192.168.1.50");
            assert_eq!(server_ip, "192.168.1.1");
            assert_eq!(client_mac, "aa:bb:cc:dd:ee:01");
        }
        other => panic!("unexpected {:?}", other),
    }

    let mut req = pkt(DhcpMessageType::Request, 7, 1);
    req.requested_ip = Some([192, 168, 1, 50]);
    req.server_id = Some([192, 168, 1, 1]);
    let ev = a.process(&req, "0.0.0.0", "255.255.255.255", at(102));
    assert_eq!(ev.len(), 2);
    match &ev[0] {
        DhcpEvent::StateTransition { from_state, to_state, .. } => {
            assert_eq!(from_state, "Selecting");
            assert_eq!(to_state, "Requesting");
        }
        other => panic!("unexpected {:?}", other),
    }
    match &ev[1] {
        DhcpEvent::RequestSent { requested_ip, server_ip, .. } => {
            assert_eq!(requested_ip, "192.168.1.50");
            assert_eq!(server_ip, "192.168.1.1");
        }
        other => panic!("unexpected {:?}", other),
    }

    let mut ack = pkt(DhcpMessageType::Ack, 7, 1);
    ack.yiaddr = [192, 168, 1, 50];
    let ev = a.process(&ack, "192.168.1.1", "192.168.1.50", at(103));
    assert_eq!(ev.len(), 2);
    match &ev[0] {
        DhcpEvent::StateTransition { from_state, to_state, .. } => {
            assert_eq!(from_state, "Requesting");
            assert_eq!(to_state, "Bound");
        }
        other => panic!("unexpected {:?}", other),
    }
    match &ev[1] {
        DhcpEvent::LeaseAcquired { assigned_ip, server_ip, lease_time, .. } => {
            assert_eq!(assigned_ip, "192.168.1.50");
            assert_eq!(server_ip, "192.168.1.1");
            assert_eq!(*lease_time, 86400);
        }
        other => panic!("unexpected {:?}", other),
    }
    assert_eq!(a.finalize(at(1000)).len(), 0);
}

#[test]
fn retransmitted_discover_reports_nothing() {
    let mut a = Analyzer::new();
    assert_eq!(a.process(&pkt(DhcpMessageType::Discover, 1, 1), "0.0.0.0", "x", at(10)).len(), 1);
    assert_eq!(a.process(&pkt(DhcpMessageType::Discover, 1, 1), "0.0.0.0", "x", at(11)).len(), 0);
}

#[test]
fn second_server_is_rogue() {
    let mut a = Analyzer::new();
    a.process(&pkt(DhcpMessageType::Discover, 9, 2), "0.0.0.0", "x", at(1));
    let ev = a.process(&pkt(DhcpMessageType::Offer, 9, 2), "10.0.0.1", "x", at(2));
    assert_eq!(ev.len(), 1);
    let ev = a.process(&pkt(DhcpMessageType::Offer, 9, 2), "10.0.0.1", "x", at(2));
    assert_eq!(ev.len(), 1);
    let ev = a.process(&pkt(DhcpMessageType::Offer, 9, 2), "10.6.6.6", "x", at(3));
    assert_eq!(ev.len(), 2);
    match &ev[0] {
        DhcpEvent::RogueServerDetected { legitimate_server, rogue_server, xid, .. } => {
            assert_eq!(legitimate_server, "10.0.0.1");
            assert_eq!(rogue_server, "10.6.6.6");
            assert_eq!(*xid, 9);
        }
        other => panic!("unexpected {:?}", other),
    }
    assert_eq!(classify_event(&ev[0]), Severity::Critical);
    assert_eq!(classify_event(&ev[1]), Severity::Info);
}

#[test]
fn ack_of_leased_address_conflicts() {
    let mut a = Analyzer::new();
    let mut ack1 = pkt(DhcpMessageType::Ack, 1, 1);
    ack1.yiaddr = [10, 0, 0, 5];
    ack1.lease_time = Some(600);
    let ev = a.process(&ack1, "10.0.0.1", "x", at(1));
    assert_eq!(ev.len(), 2);
    match &ev[1] {
        DhcpEvent::LeaseAcquired { lease_time, .. } => assert_eq!(*lease_time, 600),
        other => panic!("unexpected {:?}", other),
    }
    let mut ack2 = pkt(DhcpMessageType::Ack, 2, 2);
    ack2.yiaddr = [10, 0, 0, 5];
    let ev = a.process(&ack2, "10.0.0.1", "x", at(2));
    assert_eq!(ev.len(), 4);
    match &ev[0] {
        DhcpEvent::LeaseConflict { conflicting_ip, client_mac, .. } => {
            assert_eq!(conflicting_ip, "10.0.0.5");
            assert_eq!(client_mac, "aa:bb:cc:dd:ee:02");
        }
        other => panic!("unexpected {:?}", other),
    }
    match &ev[1] {
        DhcpEvent::IpConflict { mac_a, mac_b, server_ip, .. } => {
            assert_eq!(mac_a, "aa:bb:cc:dd:ee:01");
            assert_eq!(mac_b, "aa:bb:cc:dd:ee:02");
            assert_eq!(server_ip, "10.0.0.1");
        }
        other => panic!("unexpected {:?}", other),
    }
    assert_eq!(classify_event(&ev[0]), Severity::Warning);
    assert_eq!(classify_event(&ev[1]), Severity::Critical);
}

#[test]
fn release_frees_the_address() {
    let mut a = Analyzer::new();
    let mut ack1 = pkt(DhcpMessageType::Ack, 1, 1);
    ack1.yiaddr = [10, 0, 0, 5];
    a.process(&ack1, "10.0.0.1", "x", at(1));
    let mut rel = pkt(DhcpMessageType::Release, 1, 1);
    rel.ciaddr = [10, 0, 0, 5];
    let ev = a.process(&rel, "10.0.0.5", "x", at(2));
    assert_eq!(ev.len(), 1);
    match &ev[0] {
        DhcpEvent::StateTransition { from_state, to_state, .. } => {
            assert_eq!(from_state, "Bound");
            assert_eq!(to_state, "Init");
        }
        other => panic!("unexpected {:?}", other),
    }
    let mut ack2 = pkt(DhcpMessageType::Ack, 2, 2);
    ack2.yiaddr = [10, 0, 0, 5];
    assert_eq!(a.process(&ack2, "10.0.0.1", "x", at(3)).len(), 2);
}

#[test]
fn same_client_reacknowledged_is_no_conflict() {
    let mut a = Analyzer::new();
    let mut ack = pkt(DhcpMessageType::Ack, 1, 1);
    ack.yiaddr = [10, 0, 0, 5];
    a.process(&ack, "10.0.0.1", "x", at(1));
    assert_eq!(a.process(&ack, "10.0.0.1", "x", at(2)).len(), 2);
}

#[test]
fn zero_address_ack_is_not_tracked() {
    let mut a = Analyzer::new();
    let ack1 = pkt(DhcpMessageType::Ack, 1, 1);
    let ack2 = pkt(DhcpMessageType::Ack, 2, 2);
    a.process(&ack1, "10.0.0.1", "x", at(1));
    assert_eq!(a.process(&ack2, "10.0.0.1", "x", at(2)).len(), 2);
}

#[test]
fn flood_reported_once_per_window() {
    let mut a = Analyzer::new();
    let mut floods = 0;
    for k in 0..25u32 {
        let ev = a.process(&pkt(DhcpMessageType::Discover, 1000 + k, k as u8), "0.0.0.0", "x", Timestamp { sec: 100, usec: k * 1000 });
        for e in &ev {
            if let DhcpEvent::DiscoverFlood { discover_count, window_ms, unique_macs, .. } = e {
                floods += 1;
                assert_eq!(*discover_count, 20);
                assert_eq!(*window_ms, 5000);
                assert_eq!(*unique_macs, 20);
                assert_eq!(classify_event(e), Severity::Critical);
            }
        }
    }
    assert_eq!(floods, 1);
}

#[test]
fn nak_uses_sender_as_server() {
    let mut a = Analyzer::new();
    let ev = a.process(&pkt(DhcpMessageType::Nak, 3, 3), "10.0.0.1", "x", at(5));
    assert_eq!(ev.len(), 1);
    match &ev[0] {
        DhcpEvent::NakReceived { server_ip, .. } => assert_eq!(server_ip, "10.0.0.1"),
        other => panic!("unexpected {:?}", other),
    }
    assert_eq!(classify_event(&ev[0]), Severity::Warning);
}

#[test]
fn request_without_option_50_uses_ciaddr() {
    let mut a = Analyzer::new();
    let mut req = pkt(DhcpMessageType::Request, 4, 4);
    req.ciaddr = [10, 1, 2, 3];
    let ev = a.process(&req, "10.1.2.3", "x", at(5));
    match &ev[1] {
        DhcpEvent::RequestSent { requested_ip, server_ip, .. } => {
            assert_eq!(requested_ip, "10.1.2.3");
            assert_eq!(server_ip, "0.0.0.0");
        }
        other => panic!("unexpected {:?}", other),
    }
    let req2 = pkt(DhcpMessageType::Request, 5, 5);
    let ev = a.process(&req2, "0.0.0.0", "x", at(6));
    match &ev[1] {
        DhcpEvent::RequestSent { requested_ip, .. } => assert_eq!(requested_ip, "0.0.0.0"),
        other => panic!("unexpected {:?}", other),
    }
}

#[test]
fn ignored_message_types() {
    let mut a = Analyzer::new();
    assert_eq!(a.process(&pkt(DhcpMessageType::Decline, 1, 1), "a", "b", at(1)).len(), 0);
    assert_eq!(a.process(&pkt(DhcpMessageType::Inform, 1, 1), "a", "b", at(1)).len(), 0);
    assert_eq!(a.process(&pkt(DhcpMessageType::Unknown(0), 1, 1), "a", "b", at(1)).len(), 0);
}

#[test]
fn selecting_client_times_out_after_ten_seconds() {
    let mut a = Analyzer::new();
    a.process(&pkt(DhcpMessageType::Discover, 1, 1), "0.0.0.0", "x", at(100));
    assert_eq!(a.finalize(at(110)).len(), 0);
    let ev = a.finalize(Timestamp { sec: 110, usec: 1 });
    assert_eq!(ev.len(), 1);
    match &ev[0] {
        DhcpEvent::LeaseTimeout { elapsed_us, discover_ts, .. } => {
            assert_eq!(*elapsed_us, 10_000_001);
            assert_eq!(discover_ts.sec, 100);
        }
        other => panic!("unexpected {:?}", other),
    }
    assert_eq!(classify_event(&ev[0]), Severity::Warning);
}

#[test]
fn client_state_names() {
    assert_eq!(DhcpClientState::Init.as_str(), "Init");
    assert_eq!(DhcpClientState::Selecting.as_str(), "Selecting");
    assert_eq!(DhcpClientState::Requesting.as_str(), "Requesting");
    assert_eq!(DhcpClientState::Bound.as_str(), "Bound");
    assert_eq!(DhcpClientState::Renewing.as_str(), "Renewing");
    assert_eq!(DhcpClientState::Rebinding.as_str(), "Rebinding");
    assert_eq!(DhcpClientState::Expired.as_str(), "Expired");
}

#[test]
fn timestamp_micros() {
    assert_eq!(Timestamp { sec: 3, usec: 250_000 }.as_micros(), 3_250_000);
}

#[test]
fn reply_for_unseen_transaction_opens_it() {
    let mut a = Analyzer::new();
    // An OFFER with no DISCOVER in the capture opens the transaction and records its server.
    a.process(&pkt(DhcpMessageType::Offer, 77, 7), "10.0.0.1", "x", at(10));
    let ev = a.process(&pkt(DhcpMessageType::Offer, 77, 7), "10.6.6.6", "x", at(11));
    assert_eq!(ev.len(), 2);
    match &ev[0] {
        DhcpEvent::RogueServerDetected { legitimate_server, client_mac, .. } => {
            assert_eq!(legitimate_server, "10.0.0.1");
            assert_eq!(client_mac, "aa:bb:cc:dd:ee:07");
        }
        other => panic!("unexpected {:?}", other),
    }
    // A REQUEST opens its transaction in Requesting, which never times out.
    a.process(&pkt(DhcpMessageType::Request, 78, 8), "0.0.0.0", "x", at(10));
    assert_eq!(a.finalize(at(100)).len(), 0);
}

#[test]
fn offered_client_does_not_time_out() {
    let mut a = Analyzer::new();
    a.process(&pkt(DhcpMessageType::Discover, 1, 1), "0.0.0.0", "x", at(1));
    a.process(&pkt(DhcpMessageType::Offer, 1, 1), "10.0.0.1", "x", at(2));
    assert_eq!(a.finalize(at(20)).len(), 0);
}

#[test]
fn nak_returns_transaction_to_init() {
    let mut a = Analyzer::new();
    a.process(&pkt(DhcpMessageType::Discover, 5, 5), "0.0.0.0", "x", at(1));
    a.process(&pkt(DhcpMessageType::Nak, 5, 5), "10.0.0.1", "x", at(2));
    assert_eq!(a.finalize(at(100)).len(), 0);
    let ev = a.process(&pkt(DhcpMessageType::Request, 5, 5), "0.0.0.0", "x", at(3));
    match &ev[0] {
        DhcpEvent::StateTransition { from_state, .. } => assert_eq!(from_state, "Init"),
        other => panic!("unexpected {:?}", other),
    }
}

#[test]
fn every_event_carries_packet_time() {
    let mut a = Analyzer::new();
    let mut ack = pkt(DhcpMessageType::Ack, 1, 1);
    ack.yiaddr = [10, 0, 0, 5];
    a.process(&ack, "10.0.0.1", "x", at(1));
    let mut ack2 = pkt(DhcpMessageType::Ack, 2, 2);
    ack2.yiaddr = [10, 0, 0, 5];
    let t = Timestamp { sec: 9, usec: 123 };
    for e in a.process(&ack2, "10.0.0.1", "x", t) {
        let ts = match e {
            DhcpEvent::LeaseConflict { ts, .. } => ts,
            DhcpEvent::IpConflict { ts, .. } => ts,
            DhcpEvent::StateTransition { ts, .. } => ts,
            DhcpEvent::LeaseAcquired { ts, .. } => ts,
            other => panic!("unexpected {:?}", other),
        };
        assert_eq!((ts.sec, ts.usec), (9, 123));
    }
}

#[test]
fn rogue_names_first_offering_server() {
    let mut a = Analyzer::new();
    a.process(&pkt(DhcpMessageType::Discover, 4, 4), "0.0.0.0", "x", at(1));
    assert_eq!(a.process(&pkt(DhcpMessageType::Offer, 4, 4), "10.0.0.1", "x", at(2)).len(), 1);
    assert_eq!(a.process(&pkt(DhcpMessageType::Offer, 4, 4), "10.0.0.2", "x", at(3)).len(), 2);
    // a server that already offered is not reported again
    assert_eq!(a.process(&pkt(DhcpMessageType::Offer, 4, 4), "10.0.0.2", "x", at(4)).len(), 1);
    let ev = a.process(&pkt(DhcpMessageType::Offer, 4, 4), "10.0.0.3", "x", at(5));
    match &ev[0] {
        DhcpEvent::RogueServerDetected { legitimate_server, rogue_server, .. } => {
            assert_eq!(legitimate_server, "10.0.0.1");
            assert_eq!(rogue_server, "10.0.0.3");
        }
        other => panic!("unexpected {:?}", other),
    }
}

#[test]
fn released_client_does_not_time_out() {
    let mut a = Analyzer::new();
    a.process(&pkt(DhcpMessageType::Discover, 6, 6), "0.0.0.0", "x", at(1));
    a.process(&pkt(DhcpMessageType::Release, 6, 6), "0.0.0.0", "x", at(2));
    assert_eq!(a.finalize(at(100)).len(), 0);
}
