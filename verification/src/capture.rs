//! Whole-capture analysis: runs every DHCP frame of a capture through the
//! parser and the analyzer, then summarises and correlates the timeline.

use vstd::prelude::*;
use crate::analyzer::{
    Analyzer, AnalyzerView, DhcpEvent, EventView, ReportSummary, Severity, TimedEvent, TimedEventView,
    Timestamp, classify_event, events_view, initial_state, process_spec, seq_add, severity_of,
    strings_view, timed_view, timeouts,
};
use crate::dhcp::{parse_dhcp, parse_spec};
use crate::root_cause::{
    RootCauseReport, add_distinct, correlate, correlate_spec, distinct, lemma_select_len, lemma_select_step,
    lemma_take_all, select,
};

verus! {

/// A UDP datagram between DHCP ports, as carried by one captured packet.
pub struct DhcpFrame {
    /// Source IPv4 address, dotted quad.
    pub src_ip: String,
    /// Destination IPv4 address, dotted quad.
    pub dst_ip: String,
    /// The UDP payload.
    pub payload: Vec<u8>,
}

/// One captured packet: its timestamp and, when it is an IPv4/UDP datagram
/// between DHCP ports, that datagram.
pub struct CapturedPacket {
    pub ts: Timestamp,
    pub dhcp: Option<DhcpFrame>,
}

/// The mathematical content of a [`CapturedPacket`].
pub struct CapturedView {
    pub ts: Timestamp,
    pub dhcp: Option<(Seq<char>, Seq<u8>)>,
}

impl View for CapturedPacket {
    type V = CapturedView;

    open spec fn view(&self) -> CapturedView {
        CapturedView {
            ts: self.ts,
            dhcp: match &self.dhcp {
                Some(f) => Some((f.src_ip@, f.payload@)),
                None => None,
            },
        }
    }
}

/// The views of a capture.
pub open spec fn capture_view(v: Seq<CapturedPacket>) -> Seq<CapturedView> {
    v.map_values(|p: CapturedPacket| p@)
}

/// An event stamped with time `ts` and its severity.
pub open spec fn stamp(ts: Timestamp, e: EventView) -> TimedEventView {
    TimedEventView { ts, event: e, severity: severity_of(e) }
}

/// Events stamped with time `ts` and their severities.
pub open spec fn stamp_all(ts: Timestamp, es: Seq<EventView>) -> Seq<TimedEventView> {
    es.map_values(|e: EventView| stamp(ts, e))
}

/// Analyzer state, timeline and number of DHCP messages after feeding a
/// capture to a fresh analyzer: frames whose payload is not a DHCP message are skipped.
pub open spec fn run(pkts: Seq<CapturedView>) -> (AnalyzerView, Seq<TimedEventView>, nat)
    decreases pkts.len(),
{
    if pkts.len() == 0 {
        (initial_state(), Seq::empty(), 0)
    } else {
        let (a, evs, n) = run(pkts.drop_last());
        let p = pkts.last();
        match p.dhcp {
            Some((src, payload)) => match parse_spec(payload) {
                Some(pv) => {
                    let (a2, es) = process_spec(a, pv, src, p.ts);
                    (a2, evs + stamp_all(p.ts, es), n + 1)
                },
                None => (a, evs, n),
            },
            None => (a, evs, n),
        }
    }
}

/// The time of the last packet (zero for an empty capture).
pub open spec fn last_ts_of(pkts: Seq<CapturedView>) -> Timestamp {
    if pkts.len() == 0 { Timestamp { sec: 0, usec: 0 } } else { pkts.last().ts }
}

/// The time of the first packet (zero for an empty capture).
pub open spec fn first_ts_of(pkts: Seq<CapturedView>) -> Timestamp {
    if pkts.len() == 0 { Timestamp { sec: 0, usec: 0 } } else { pkts[0].ts }
}

/// The complete timeline: every packet's events, then the lease timeouts
/// found at the time of the last packet.
pub open spec fn timeline(pkts: Seq<CapturedView>) -> Seq<TimedEventView> {
    let (a, evs, _n) = run(pkts);
    let last = last_ts_of(pkts);
    evs + stamp_all(last, timeouts(a.txs, last))
}

/// The number of events satisfying `p`.
pub open spec fn count_events(evs: Seq<TimedEventView>, p: spec_fn(EventView) -> bool) -> nat {
    select(evs, p).len()
}

/// The number of warnings and critical events.
pub open spec fn count_anomalies(evs: Seq<TimedEventView>) -> nat
    decreases evs.len(),
{
    if evs.len() == 0 {
        0
    } else {
        let n = count_anomalies(evs.drop_last());
        let s = evs.last().severity;
        if s == Severity::Warning || s == Severity::Critical { n + 1 } else { n }
    }
}

/// The client addresses of `ClientDiscovered` events, in order.
pub open spec fn discovered_clients(evs: Seq<TimedEventView>) -> Seq<Seq<char>>
    decreases evs.len(),
{
    if evs.len() == 0 {
        Seq::empty()
    } else {
        let r = discovered_clients(evs.drop_last());
        match evs.last().event {
            EventView::ClientDiscovered { client_mac, .. } => r.push(client_mac),
            _ => r,
        }
    }
}

/// The counts of a timeline: distinct discovering clients, leases acquired,
/// anomalies (warnings and critical events), rogue servers, NAKs, timeouts,
/// and conflicts (address and lease conflicts together).
pub open spec fn summary_spec(evs: Seq<TimedEventView>) -> ReportSummary {
    ReportSummary {
        clients_seen: distinct(discovered_clients(evs)).len() as usize,
        leases_acquired: count_events(evs, |e: EventView| e is LeaseAcquired) as usize,
        anomalies: count_anomalies(evs) as usize,
        rogue_servers: count_events(evs, |e: EventView| e is RogueServerDetected) as usize,
        nak_count: count_events(evs, |e: EventView| e is NakReceived) as usize,
        timeouts: count_events(evs, |e: EventView| e is LeaseTimeout) as usize,
        conflicts: count_events(evs, |e: EventView| e is IpConflict || e is LeaseConflict) as usize,
    }
}


/// Distinct members of a sequence extended by one.
proof fn lemma_distinct_push(s: Seq<Seq<char>>, x: Seq<char>)
    ensures
        distinct(s.push(x)) == seq_add(distinct(s), x),
{
    assert(s.push(x).drop_last() =~= s);
}

/// Counts over a timeline.
pub fn summarize(events: &[TimedEvent]) -> (r: ReportSummary)
    ensures
        r == summary_spec(timed_view(events@)),
{
    let ghost evs = timed_view(events@);
    let ghost pl = |e: EventView| e is LeaseAcquired;
    let ghost pr = |e: EventView| e is RogueServerDetected;
    let ghost pn = |e: EventView| e is NakReceived;
    let ghost pt = |e: EventView| e is LeaseTimeout;
    let ghost pc = |e: EventView| e is IpConflict || e is LeaseConflict;
    let mut macs: Vec<String> = Vec::new();
    let mut leases: usize = 0;
    let mut anomalies: usize = 0;
    let mut rogue: usize = 0;
    let mut naks: usize = 0;
    let mut timeouts_n: usize = 0;
    let mut conflicts: usize = 0;
    let mut i: usize = 0;
    while i < events.len()
        invariant
            evs == timed_view(events@),
            pl == (|e: EventView| e is LeaseAcquired),
            pr == (|e: EventView| e is RogueServerDetected),
            pn == (|e: EventView| e is NakReceived),
            pt == (|e: EventView| e is LeaseTimeout),
            pc == (|e: EventView| e is IpConflict || e is LeaseConflict),
            i <= events@.len(),
            strings_view(macs@) == distinct(discovered_clients(evs.take(i as int))),
            leases == select(evs.take(i as int), pl).len(),
            anomalies == count_anomalies(evs.take(i as int)),
            anomalies <= i,
            rogue == select(evs.take(i as int), pr).len(),
            naks == select(evs.take(i as int), pn).len(),
            timeouts_n == select(evs.take(i as int), pt).len(),
            conflicts == select(evs.take(i as int), pc).len(),
        decreases events@.len() - i,
    {
        proof {
            lemma_select_step(evs, i as int, pl);
            lemma_select_step(evs, i as int, pr);
            lemma_select_step(evs, i as int, pn);
            lemma_select_step(evs, i as int, pt);
            lemma_select_step(evs, i as int, pc);
            lemma_select_len(evs.take(i as int), pl);
            lemma_select_len(evs.take(i as int), pr);
            lemma_select_len(evs.take(i as int), pn);
            lemma_select_len(evs.take(i as int), pt);
            lemma_select_len(evs.take(i as int), pc);
            assert(evs.take(i as int + 1).drop_last() =~= evs.take(i as int));
        }
        let te = &events[i];
        assert(evs[i as int] == te@);
        assert(evs.take(i as int + 1).last() == te@);
        match te.severity {
            Severity::Warning => anomalies += 1,
            Severity::Critical => anomalies += 1,
            Severity::Info => {},
        }
        match &te.event {
            DhcpEvent::ClientDiscovered { client_mac, .. } => {
                proof {
                    lemma_distinct_push(discovered_clients(evs.take(i as int)), client_mac@);
                }
                add_distinct(&mut macs, client_mac.clone());
            },
            DhcpEvent::LeaseAcquired { .. } => leases += 1,
            DhcpEvent::RogueServerDetected { .. } => rogue += 1,
            DhcpEvent::NakReceived { .. } => naks += 1,
            DhcpEvent::LeaseTimeout { .. } => timeouts_n += 1,
            DhcpEvent::IpConflict { .. } => conflicts += 1,
            DhcpEvent::LeaseConflict { .. } => conflicts += 1,
            _ => {},
        }
        i += 1;
    }
    proof {
        lemma_take_all(evs);
    }
    let r = ReportSummary {
        clients_seen: macs.len(),
        leases_acquired: leases,
        anomalies,
        rogue_servers: rogue,
        nak_count: naks,
        timeouts: timeouts_n,
        conflicts,
    };
    assert(macs@.len() == strings_view(macs@).len());
    r
}


/// Everything the analysis of a capture yields.
pub struct CaptureReport {
    /// Packets in the capture.
    pub total_packets: usize,
    /// Packets that carried a DHCP message.
    pub dhcp_packets: usize,
    /// Time of the first packet (zero for an empty capture).
    pub first_ts: Timestamp,
    /// Time of the last packet (zero for an empty capture).
    pub last_ts: Timestamp,
    /// The timeline: each packet's events, then the lease timeouts.
    pub events: Vec<TimedEvent>,
    pub summary: ReportSummary,
    pub root_cause: RootCauseReport,
}

/// Moves `new` to the end of `events`, each stamped with `ts` and its severity.
fn append_stamped(events: &mut Vec<TimedEvent>, new: Vec<DhcpEvent>, ts: Timestamp)
    ensures
        timed_view(final(events)@) == timed_view(old(events)@) + stamp_all(ts, events_view(new@)),
{
    let ghost nv = events_view(new@);
    let ghost start = timed_view(events@);
    let mut rest = new;
    let ghost mut k: int = 0;
    while rest.len() > 0
        invariant
            0 <= k <= nv.len(),
            events_view(rest@) == nv.subrange(k, nv.len() as int),
            timed_view(events@) == start + stamp_all(ts, nv.take(k)),
        decreases rest@.len(),
    {
        assert(events_view(rest@).len() == rest@.len());
        let ghost pre = rest@;
        assert(events_view(pre)[0] == nv.subrange(k, nv.len() as int)[0]);
        let ev = rest.remove(0);
        let severity = classify_event(&ev);
        let ghost before = events@;
        events.push(TimedEvent { ts, event: ev, severity });
        proof {
            assert(ev == pre[0]);
            assert(events_view(rest@) =~= events_view(pre).subrange(1, pre.len() as int));
            assert(timed_view(events@) =~= timed_view(before).push(stamp(ts, nv[k])));
            assert(stamp_all(ts, nv.take(k + 1)) =~= stamp_all(ts, nv.take(k)).push(stamp(ts, nv[k])));
            k = k + 1;
            assert(events_view(rest@) =~= nv.subrange(k, nv.len() as int));
        }
    }
    proof {
        assert(events_view(rest@).len() == rest@.len());
        assert(nv.take(k) =~= nv);
    }
}

/// The number of DHCP messages never exceeds the number of packets.
proof fn lemma_run_count(pkts: Seq<CapturedView>)
    ensures
        run(pkts).2 <= pkts.len(),
    decreases pkts.len(),
{
    if pkts.len() > 0 {
        lemma_run_count(pkts.drop_last());
    }
}

/// Analyses a capture: parses every DHCP frame, feeds the messages through
/// a fresh [`Analyzer`] in capture order, collects the timeline (each
/// packet's events stamped with the packet time, then the lease timeouts at
/// the time of the last packet), and summarises and correlates it.
pub fn analyze_capture(packets: &[CapturedPacket]) -> (r: CaptureReport)
    ensures
        r.total_packets == packets@.len(),
        r.dhcp_packets == run(capture_view(packets@)).2,
        r.first_ts == first_ts_of(capture_view(packets@)),
        r.last_ts == last_ts_of(capture_view(packets@)),
        timed_view(r.events@) == timeline(capture_view(packets@)),
        r.summary == summary_spec(timeline(capture_view(packets@))),
        r.root_cause@ == correlate_spec(timeline(capture_view(packets@))),
{
    let ghost cv = capture_view(packets@);
    let mut analyzer = Analyzer::new();
    let mut events: Vec<TimedEvent> = Vec::new();
    let mut dhcp_count: usize = 0;
    let mut last_ts = Timestamp { sec: 0, usec: 0 };
    let mut i: usize = 0;
    while i < packets.len()
        invariant
            cv == capture_view(packets@),
            i <= packets@.len(),
            analyzer.wf(),
            analyzer@ == run(cv.take(i as int)).0,
            timed_view(events@) == run(cv.take(i as int)).1,
            dhcp_count == run(cv.take(i as int)).2,
            last_ts == last_ts_of(cv.take(i as int)),
        decreases packets@.len() - i,
    {
        proof {
            assert(cv.take(i as int + 1).drop_last() =~= cv.take(i as int));
            lemma_run_count(cv.take(i as int));
        }
        let p = &packets[i];
        assert(cv.take(i as int + 1).last() == p@);
        last_ts = p.ts;
        match &p.dhcp {
            Some(f) => {
                match parse_dhcp(f.payload.as_slice()) {
                    Some(pkt) => {
                        dhcp_count += 1;
                        let new_events = analyzer.process(&pkt, f.src_ip.as_str(), f.dst_ip.as_str(), p.ts);
                        append_stamped(&mut events, new_events, p.ts);
                    },
                    None => {},
                }
            },
            None => {},
        }
        i += 1;
    }
    proof {
        assert(cv.take(packets@.len() as int) =~= cv);
    }
    let final_events = analyzer.finalize(last_ts);
    append_stamped(&mut events, final_events, last_ts);
    let first_ts = if packets.len() > 0 { packets[0].ts } else { Timestamp { sec: 0, usec: 0 } };
    let summary = summarize(events.as_slice());
    let root_cause = correlate(events.as_slice());
    CaptureReport {
        total_packets: packets.len(),
        dhcp_packets: dhcp_count,
        first_ts,
        last_ts,
        events,
        summary,
        root_cause,
    }
}


/// The container format of a capture file.
#[derive(Debug, Clone, Copy, PartialEq, Eq, Structural)]
pub enum CaptureFormat {
    /// Legacy libpcap.
    Pcap,
    /// PCAP Next Generation.
    Pcapng,
}

/// The little-endian value of four bytes.
pub open spec fn le32(b: Seq<u8>) -> int {
    b[0] as int + b[1] as int * 256 + b[2] as int * 65536 + b[3] as int * 16777216
}

/// The PCAP Next Generation section-header block type, 0x0A0D0D0A.
pub open spec fn pcapng_block_type() -> int {
    0x0A0D0D0A
}

/// The format of a capture file: PCAP Next Generation when it starts with
/// the section-header block type (read little-endian), legacy pcap otherwise.
pub fn capture_format(data: &[u8]) -> (f: CaptureFormat)
    ensures
        f == (if data@.len() >= 4 && le32(data@.subrange(0, 4)) == pcapng_block_type() {
            CaptureFormat::Pcapng
        } else {
            CaptureFormat::Pcap
        }),
{
    if data.len() >= 4 {
        let v: u32 = data[0] as u32 + (data[1] as u32) * 256 + (data[2] as u32) * 65536 + (data[3] as u32)
            * 16777216;
        assert(le32(data@.subrange(0, 4)) == v);
        if v == 0x0A0D0D0Au32 {
            return CaptureFormat::Pcapng;
        }
    }
    CaptureFormat::Pcap
}

} // verus!
