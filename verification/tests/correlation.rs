use dhcp_parser::analyzer::{DhcpEvent, Severity, TimedEvent, Timestamp};
use dhcp_parser::root_cause::{correlate, ChainRole, RootCauseKind, RootCauseSeverity};

fn at(sec: u32) -> Timestamp {
    Timestamp { sec, usec: 0 }
}

fn te(sec: u32, event: DhcpEvent, severity: Severity) -> TimedEvent {
    TimedEvent { ts: at(sec), event, severity }
}

fn rogue(sec: u32, mac: &str) -> TimedEvent {
    te(
        sec,
        DhcpEvent::RogueServerDetected {
            ts: at(sec),
            xid: 0xab,
            client_mac: mac.to_string(),
            legitimate_server: "10.0.0.1".to_string(),
            rogue_server: "10.6.6.6".to_string(),
        },
        Severity::Critical,
    )
}

fn nak(sec: u32, mac: &str) -> TimedEvent {
    te(
        sec,
        DhcpEvent::NakReceived { ts: at(sec), xid: 1, client_mac: mac.to_string(), server_ip: "10.0.0.1".to_string() },
        Severity::Warning,
    )
}

fn timeout(sec: u32, mac: &str, elapsed_us: u64) -> TimedEvent {
    te(
        sec,
        DhcpEvent::LeaseTimeout {
            ts: at(sec),
            xid: 2,
            client_mac: mac.to_string(),
            discover_ts: Timestamp { sec: 1, usec: 234_500 },
            elapsed_us,
        },
        Severity::Warning,
    )
}

fn info(sec: u32) -> TimedEvent {
    te(
        sec,
        DhcpEvent::ClientDiscovered { ts: at(sec), xid: 3, client_mac: "m".to_string(), src_ip: "0.0.0.0".to_string() },
        Severity::Info,
    )
}

#[test]
fn empty_timeline_is_clean() {
    let r = correlate(&[]);
    assert_eq!(r.causes.len(), 1);
    assert_eq!(r.causes[0].kind, RootCauseKind::Clean);
    assert_eq!(r.causes[0].confidence, 90);
    assert!(r.stable);
    assert_eq!(r.verdict, "DHCP operating normally. No anomalies detected.");
    assert_eq!(r.action_plan, vec!["No action required.".to_string()]);
    assert_eq!(RootCauseKind::Clean.title(), "No Issues Detected");
}

#[test]
fn rogue_server_cause() {
    let evs = vec![info(1), rogue(2, "aa"), rogue(3, "bb"), rogue(4, "aa"), info(100)];
    let r = correlate(&evs);
    assert_eq!(r.causes.len(), 1);
    let c = &r.causes[0];
    assert_eq!(c.kind, RootCauseKind::RogueServer);
    assert_eq!(c.severity, RootCauseSeverity::Critical);
    assert_eq!(c.headline, "Rogue DHCP server detected — 2 client(s) affected");
    assert_eq!(c.affected_clients, vec!["aa".to_string(), "bb".to_string()]);
    assert_eq!(c.evidence.len(), 3);
    assert_eq!(c.evidence[0].description, "xid=0x000000ab client=aa — rogue 10.6.6.6 vs legitimate 10.0.0.1");
    assert_eq!(c.first_seen, 2_000_000);
    assert_eq!(c.last_seen, 4_000_000);
    assert_eq!(c.confidence, 95);
    assert_eq!(c.causal_chain.len(), 3);
    assert_eq!(c.causal_chain[0].description, "Client aa sent DHCPDISCOVER (xid=0x000000ab)");
    assert_eq!(c.causal_chain[1].role, ChainRole::Cause);
    assert_eq!(c.causal_chain[2].ts, 4_000_000);
    assert!(r.stable);
    assert_eq!(r.verdict, "1 critical issue(s) detected: Rogue DHCP Server. DHCP may have recovered by end of capture.");
    assert_eq!(r.action_plan.len(), 1);
    assert!(r.action_plan[0].starts_with("1. URGENT"));
}

#[test]
fn late_anomaly_is_unstable() {
    let evs = vec![info(0), rogue(10, "aa")];
    let r = correlate(&evs);
    assert!(!r.stable);
    assert_eq!(r.verdict, "1 critical issue(s) detected: Rogue DHCP Server. DHCP had NOT stabilized by end of capture.");
}

#[test]
fn anomaly_at_four_fifths_is_late() {
    // span 0..10 s: the window starts at 8 s
    let r = correlate(&[info(0), nak(8, "x"), info(10)]);
    assert!(!r.stable);
    let r = correlate(&[info(0), nak(7, "x"), info(10)]);
    assert!(r.stable);
}

#[test]
fn nak_storm_needs_three() {
    let evs = vec![nak(1, "aa"), nak(2, "bb"), nak(3, "aa"), nak(4, "aa"), nak(5, "bb"), info(100)];
    let r = correlate(&evs);
    assert_eq!(r.causes.len(), 1);
    let c = &r.causes[0];
    assert_eq!(c.kind, RootCauseKind::NakStorm);
    assert_eq!(c.severity, RootCauseSeverity::Warning);
    assert_eq!(c.affected_clients, vec!["aa".to_string()]);
    assert_eq!(c.first_seen, 1_000_000);
    assert_eq!(c.last_seen, 4_000_000);
    assert_eq!(c.evidence[0].ts, 1_000_000);
    assert_eq!(
        c.evidence[0].description,
        "Client aa received 3 NAK responses — stuck in Discover→Request→NAK loop"
    );
    assert_eq!(c.headline, "NAK storm — 1 client(s) in repetitive NAK loop");
    assert_eq!(r.verdict, "1 warning(s): NAK Storm. Network stable.");
}

#[test]
fn two_naks_are_no_storm() {
    let r = correlate(&[nak(1, "aa"), nak(2, "aa"), info(100)]);
    assert_eq!(r.causes[0].kind, RootCauseKind::Clean);
    assert_eq!(r.verdict, "DHCP operating normally. No anomalies detected.");
}

#[test]
fn server_unreachable_without_flood_is_critical() {
    let r = correlate(&[timeout(20, "cc", 12_345_500), info(100)]);
    assert_eq!(r.causes.len(), 1);
    let c = &r.causes[0];
    assert_eq!(c.kind, RootCauseKind::ServerUnreachable);
    assert_eq!(c.severity, RootCauseSeverity::Critical);
    assert_eq!(c.confidence, 85);
    assert_eq!(c.evidence[0].description, "Client cc — no OFFER received after 12346ms (discover at 1.234s)");
    assert_eq!(c.confidence_reason, "No OFFER received by any client in 12346ms — consistent with server/relay failure");
}

#[test]
fn flood_with_timeouts_orders_causes_by_severity() {
    let flood = te(
        5,
        DhcpEvent::DiscoverFlood { ts: at(5), discover_count: 42, window_ms: 5000, unique_macs: 30 },
        Severity::Critical,
    );
    let r = correlate(&[flood, timeout(20, "cc", 11_000_000), nak(21, "dd"), info(200)]);
    assert_eq!(r.causes.len(), 2);
    assert_eq!(r.causes[0].kind, RootCauseKind::Starvation);
    assert_eq!(r.causes[1].kind, RootCauseKind::ServerUnreachable);
    assert_eq!(r.causes[1].severity, RootCauseSeverity::Warning);
    assert_eq!(r.causes[1].confidence, 60);
    let s = &r.causes[0];
    assert_eq!(s.headline, "DHCP starvation attack — 42 DISCOVER/5s from 30 MACs");
    assert_eq!(s.confidence, 90);
    assert_eq!(s.evidence.len(), 2);
    assert_eq!(s.evidence[0].description, "42 DISCOVER in 5000ms window from 30 unique MACs");
    assert_eq!(s.evidence[1].description, "Client cc failed to get lease after 11000ms — pool likely exhausted");
    assert_eq!(s.causal_chain[1].ts, 5_100_000);
    assert_eq!(r.verdict, "1 critical issue(s) detected: DHCP Starvation Attack. DHCP may have recovered by end of capture.");
    assert_eq!(r.action_plan.len(), 2);
    assert!(r.action_plan[0].starts_with("2. URGENT"));
    assert!(r.action_plan[1].starts_with("6. "));
}

#[test]
fn small_flood_has_lower_confidence() {
    let flood = te(
        5,
        DhcpEvent::DiscoverFlood { ts: at(5), discover_count: 20, window_ms: 5000, unique_macs: 2 },
        Severity::Critical,
    );
    let r = correlate(&[flood, info(100)]);
    assert_eq!(r.causes[0].confidence, 70);
    assert_eq!(r.causes[0].confidence_reason, "Flood pattern detected but only 2 unique MACs — may be misconfigured client");
}

#[test]
fn conflicts_produce_two_causes() {
    let lc = te(
        3,
        DhcpEvent::LeaseConflict { ts: at(3), xid: 0x10, client_mac: "bb".to_string(), conflicting_ip: "10.0.0.5".to_string() },
        Severity::Warning,
    );
    let ic = te(
        3,
        DhcpEvent::IpConflict {
            ts: at(3),
            conflicting_ip: "10.0.0.5".to_string(),
            mac_a: "aa".to_string(),
            mac_b: "bb".to_string(),
            server_ip: "10.0.0.1".to_string(),
        },
        Severity::Critical,
    );
    let r = correlate(&[lc, ic, info(100)]);
    assert_eq!(r.causes.len(), 2);
    assert_eq!(r.causes[0].kind, RootCauseKind::IpConflict);
    assert_eq!(r.causes[0].affected_clients, vec!["10.0.0.5".to_string()]);
    assert_eq!(r.causes[0].evidence[0].description, "IP 10.0.0.5 assigned to both aa and bb by server 10.0.0.1");
    assert_eq!(r.causes[1].kind, RootCauseKind::LeaseConflict);
    assert_eq!(r.causes[1].evidence[0].description, "xid=0x00000010 client=bb — ACK for 10.0.0.5 which is already leased");
    assert_eq!(r.causes[1].headline, "Lease conflict on 1 address(es) — server pool inconsistency");
    assert_eq!(r.verdict, "1 critical issue(s) detected: IP Address Conflict. DHCP may have recovered by end of capture.");
    assert_eq!(r.action_plan.len(), 2);
    assert!(r.action_plan[0].starts_with("3. "));
    assert!(r.action_plan[1].starts_with("4. "));
}

#[test]
fn titles() {
    assert_eq!(RootCauseKind::RogueServer.title(), "Rogue DHCP Server");
    assert_eq!(RootCauseKind::Starvation.title(), "DHCP Starvation Attack");
    assert_eq!(RootCauseKind::LeaseConflict.title(), "Lease Conflict");
    assert_eq!(RootCauseKind::NakStorm.title(), "NAK Storm");
    assert_eq!(RootCauseKind::ServerUnreachable.title(), "Server Unreachable");
    assert_eq!(RootCauseKind::IpConflict.title(), "IP Address Conflict");
}

#[test]
fn quiet_timeline_is_clean() {
    let r = correlate(&[info(1), info(2), info(3)]);
    assert_eq!(r.causes.len(), 1);
    assert_eq!(r.causes[0].kind, RootCauseKind::Clean);
    assert_eq!(r.causes[0].headline, "DHCP operating normally");
    assert!(r.stable);
}
