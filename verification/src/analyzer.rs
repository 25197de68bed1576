//! Per-transaction DHCP client state machine (RFC 2131) and anomaly detection.

use vstd::prelude::*;
use crate::dhcp::{DhcpMessageType, DhcpPacket, PacketView, bytes_to_ip, opt_string_view};
use crate::text::{ip_text, mac_text};

verus! {

// ── Time ────────────────────────────────────────────────────────────────────

/// A capture timestamp: whole seconds and microseconds.
#[derive(Debug, Clone, Copy)]
pub struct Timestamp {
    pub sec: u32,
    pub usec: u32,
}

impl Timestamp {
    /// The instant in microseconds.
    pub open spec fn micros(self) -> int {
        self.sec as int * 1_000_000 + self.usec as int
    }

    /// The instant in microseconds.
    pub fn as_micros(&self) -> (r: u64)
        ensures
            r == self.micros(),
    {
        self.sec as u64 * 1_000_000 + self.usec as u64
    }
}

/// Microseconds from `earlier` to `later` (negative when `later` comes first).
pub open spec fn elapsed_micros(later: Timestamp, earlier: Timestamp) -> int {
    later.micros() - earlier.micros()
}

/// Whether more than `limit` microseconds pass from `earlier` to `later`.
fn elapsed_exceeds(later: &Timestamp, earlier: &Timestamp, limit: u64) -> (r: bool)
    ensures
        r == (elapsed_micros(*later, *earlier) > limit),
{
    let a = later.as_micros();
    let b = earlier.as_micros();
    a > b && a - b > limit
}

/// Length of the DISCOVER flood window: 5 s.
pub open spec fn flood_window_us() -> int {
    5_000_000
}

/// Time without an OFFER after which a selecting client has timed out: 10 s.
pub open spec fn offer_timeout_us() -> int {
    10_000_000
}

// ── Client states ───────────────────────────────────────────────────────────

/// Client states of RFC 2131.
#[derive(Debug, Clone, Copy, PartialEq, Eq, Structural)]
pub enum DhcpClientState {
    Init,
    Selecting,
    Requesting,
    Bound,
    Renewing,
    Rebinding,
    Expired,
}

/// The name of a client state.
pub open spec fn state_name(s: DhcpClientState) -> Seq<char> {
    match s {
        DhcpClientState::Init => "Init"@,
        DhcpClientState::Selecting => "Selecting"@,
        DhcpClientState::Requesting => "Requesting"@,
        DhcpClientState::Bound => "Bound"@,
        DhcpClientState::Renewing => "Renewing"@,
        DhcpClientState::Rebinding => "Rebinding"@,
        DhcpClientState::Expired => "Expired"@,
    }
}

impl DhcpClientState {
    /// The name of this state.
    pub fn as_str(&self) -> (r: &'static str)
        ensures
            r@ == state_name(*self),
    {
        match self {
            DhcpClientState::Init => "Init",
            DhcpClientState::Selecting => "Selecting",
            DhcpClientState::Requesting => "Requesting",
            DhcpClientState::Bound => "Bound",
            DhcpClientState::Renewing => "Renewing",
            DhcpClientState::Rebinding => "Rebinding",
            DhcpClientState::Expired => "Expired",
        }
    }
}

// ── Events ──────────────────────────────────────────────────────────────────

/// Something the analyzer observed. Times are capture timestamps; durations are in microseconds.
#[derive(Debug, Clone)]
pub enum DhcpEvent {
    /// A client started a DORA exchange (DISCOVER).
    ClientDiscovered { ts: Timestamp, xid: u32, client_mac: String, src_ip: String },
    /// A server answered with an OFFER.
    OfferReceived { ts: Timestamp, xid: u32, client_mac: String, offered_ip: String, server_ip: String },
    /// The client sent a REQUEST.
    RequestSent { ts: Timestamp, xid: u32, client_mac: String, requested_ip: String, server_ip: String },
    /// The server confirmed: a lease was granted.
    LeaseAcquired {
        ts: Timestamp,
        xid: u32,
        client_mac: String,
        assigned_ip: String,
        server_ip: String,
        lease_time: u32,
    },
    /// The server refused (NAK).
    NakReceived { ts: Timestamp, xid: u32, client_mac: String, server_ip: String },
    /// OFFERs from two different servers for one transaction.
    RogueServerDetected {
        ts: Timestamp,
        xid: u32,
        client_mac: String,
        legitimate_server: String,
        rogue_server: String,
    },
    /// Too many DISCOVERs within one window: a sign of pool starvation.
    DiscoverFlood { ts: Timestamp, discover_count: usize, window_ms: u32, unique_macs: usize },
    /// One address acknowledged to two different hardware addresses.
    IpConflict { ts: Timestamp, conflicting_ip: String, mac_a: String, mac_b: String, server_ip: String },
    /// An ACK for an address that is still leased to another client.
    LeaseConflict { ts: Timestamp, xid: u32, client_mac: String, conflicting_ip: String },
    /// A client never got an OFFER (server unreachable).
    LeaseTimeout {
        ts: Timestamp,
        xid: u32,
        client_mac: String,
        discover_ts: Timestamp,
        elapsed_us: u64,
    },
    /// A client state machine transition.
    StateTransition { ts: Timestamp, xid: u32, client_mac: String, from_state: String, to_state: String },
}

/// The mathematical content of a [`DhcpEvent`]: text fields as character sequences.
pub enum EventView {
    ClientDiscovered { ts: Timestamp, xid: u32, client_mac: Seq<char>, src_ip: Seq<char> },
    OfferReceived { ts: Timestamp, xid: u32, client_mac: Seq<char>, offered_ip: Seq<char>, server_ip: Seq<char> },
    RequestSent { ts: Timestamp, xid: u32, client_mac: Seq<char>, requested_ip: Seq<char>, server_ip: Seq<char> },
    LeaseAcquired {
        ts: Timestamp,
        xid: u32,
        client_mac: Seq<char>,
        assigned_ip: Seq<char>,
        server_ip: Seq<char>,
        lease_time: u32,
    },
    NakReceived { ts: Timestamp, xid: u32, client_mac: Seq<char>, server_ip: Seq<char> },
    RogueServerDetected {
        ts: Timestamp,
        xid: u32,
        client_mac: Seq<char>,
        legitimate_server: Seq<char>,
        rogue_server: Seq<char>,
    },
    DiscoverFlood { ts: Timestamp, discover_count: usize, window_ms: u32, unique_macs: usize },
    IpConflict {
        ts: Timestamp,
        conflicting_ip: Seq<char>,
        mac_a: Seq<char>,
        mac_b: Seq<char>,
        server_ip: Seq<char>,
    },
    LeaseConflict { ts: Timestamp, xid: u32, client_mac: Seq<char>, conflicting_ip: Seq<char> },
    LeaseTimeout {
        ts: Timestamp,
        xid: u32,
        client_mac: Seq<char>,
        discover_ts: Timestamp,
        elapsed_us: u64,
    },
    StateTransition {
        ts: Timestamp,
        xid: u32,
        client_mac: Seq<char>,
        from_state: Seq<char>,
        to_state: Seq<char>,
    },
}

impl View for DhcpEvent {
    type V = EventView;

    open spec fn view(&self) -> EventView {
        match self {
            DhcpEvent::ClientDiscovered { ts, xid, client_mac, src_ip } =>
                EventView::ClientDiscovered { ts: *ts, xid: *xid, client_mac: client_mac@, src_ip: src_ip@ },
            DhcpEvent::OfferReceived { ts, xid, client_mac, offered_ip, server_ip } =>
                EventView::OfferReceived {
                    ts: *ts,
                    xid: *xid,
                    client_mac: client_mac@,
                    offered_ip: offered_ip@,
                    server_ip: server_ip@,
                },
            DhcpEvent::RequestSent { ts, xid, client_mac, requested_ip, server_ip } =>
                EventView::RequestSent {
                    ts: *ts,
                    xid: *xid,
                    client_mac: client_mac@,
                    requested_ip: requested_ip@,
                    server_ip: server_ip@,
                },
            DhcpEvent::LeaseAcquired { ts, xid, client_mac, assigned_ip, server_ip, lease_time } =>
                EventView::LeaseAcquired {
                    ts: *ts,
                    xid: *xid,
                    client_mac: client_mac@,
                    assigned_ip: assigned_ip@,
                    server_ip: server_ip@,
                    lease_time: *lease_time,
                },
            DhcpEvent::NakReceived { ts, xid, client_mac, server_ip } =>
                EventView::NakReceived { ts: *ts, xid: *xid, client_mac: client_mac@, server_ip: server_ip@ },
            DhcpEvent::RogueServerDetected { ts, xid, client_mac, legitimate_server, rogue_server } =>
                EventView::RogueServerDetected {
                    ts: *ts,
                    xid: *xid,
                    client_mac: client_mac@,
                    legitimate_server: legitimate_server@,
                    rogue_server: rogue_server@,
                },
            DhcpEvent::DiscoverFlood { ts, discover_count, window_ms, unique_macs } =>
                EventView::DiscoverFlood {
                    ts: *ts,
                    discover_count: *discover_count,
                    window_ms: *window_ms,
                    unique_macs: *unique_macs,
                },
            DhcpEvent::IpConflict { ts, conflicting_ip, mac_a, mac_b, server_ip } =>
                EventView::IpConflict {
                    ts: *ts,
                    conflicting_ip: conflicting_ip@,
                    mac_a: mac_a@,
                    mac_b: mac_b@,
                    server_ip: server_ip@,
                },
            DhcpEvent::LeaseConflict { ts, xid, client_mac, conflicting_ip } =>
                EventView::LeaseConflict {
                    ts: *ts,
                    xid: *xid,
                    client_mac: client_mac@,
                    conflicting_ip: conflicting_ip@,
                },
            DhcpEvent::LeaseTimeout { ts, xid, client_mac, discover_ts, elapsed_us } =>
                EventView::LeaseTimeout {
                    ts: *ts,
                    xid: *xid,
                    client_mac: client_mac@,
                    discover_ts: *discover_ts,
                    elapsed_us: *elapsed_us,
                },
            DhcpEvent::StateTransition { ts, xid, client_mac, from_state, to_state } =>
                EventView::StateTransition {
                    ts: *ts,
                    xid: *xid,
                    client_mac: client_mac@,
                    from_state: from_state@,
                    to_state: to_state@,
                },
        }
    }
}

/// The views of a sequence of events.
pub open spec fn events_view(v: Seq<DhcpEvent>) -> Seq<EventView> {
    v.map_values(|e: DhcpEvent| e@)
}

// ── Severity ────────────────────────────────────────────────────────────────

/// How serious an event is.
#[derive(Debug, Clone, Copy, PartialEq, Eq, Structural)]
pub enum Severity {
    Info,
    Warning,
    Critical,
}

/// The severity of an event: rogue servers, address conflicts and floods are
/// critical; lease conflicts, NAKs and timeouts are warnings; the rest is information.
pub open spec fn severity_of(e: EventView) -> Severity {
    match e {
        EventView::RogueServerDetected { .. } => Severity::Critical,
        EventView::IpConflict { .. } => Severity::Critical,
        EventView::DiscoverFlood { .. } => Severity::Critical,
        EventView::LeaseConflict { .. } => Severity::Warning,
        EventView::NakReceived { .. } => Severity::Warning,
        EventView::LeaseTimeout { .. } => Severity::Warning,
        _ => Severity::Info,
    }
}

/// The severity of an event.
pub fn classify_event(event: &DhcpEvent) -> (r: Severity)
    ensures
        r == severity_of(event@),
{
    match event {
        DhcpEvent::RogueServerDetected { .. } => Severity::Critical,
        DhcpEvent::IpConflict { .. } => Severity::Critical,
        DhcpEvent::DiscoverFlood { .. } => Severity::Critical,
        DhcpEvent::LeaseConflict { .. } => Severity::Warning,
        DhcpEvent::NakReceived { .. } => Severity::Warning,
        DhcpEvent::LeaseTimeout { .. } => Severity::Warning,
        _ => Severity::Info,
    }
}

/// An event with the time of the packet that produced it and its severity.
#[derive(Debug)]
pub struct TimedEvent {
    pub ts: Timestamp,
    pub event: DhcpEvent,
    pub severity: Severity,
}

/// The mathematical content of a [`TimedEvent`].
pub struct TimedEventView {
    pub ts: Timestamp,
    pub event: EventView,
    pub severity: Severity,
}

impl View for TimedEvent {
    type V = TimedEventView;

    open spec fn view(&self) -> TimedEventView {
        TimedEventView { ts: self.ts, event: self.event@, severity: self.severity }
    }
}

/// The views of a sequence of timed events.
pub open spec fn timed_view(v: Seq<TimedEvent>) -> Seq<TimedEventView> {
    v.map_values(|e: TimedEvent| e@)
}

/// Counts over a whole capture.
#[derive(Debug)]
pub struct ReportSummary {
    pub clients_seen: usize,
    pub leases_acquired: usize,
    pub anomalies: usize,
    pub rogue_servers: usize,
    pub nak_count: usize,
    pub timeouts: usize,
    pub conflicts: usize,
}


// ── Analyzer state ──────────────────────────────────────────────────────────

/// What the analyzer keeps about one transaction (xid).
#[derive(Debug)]
struct TransactionState {
    xid: u32,
    client_mac: String,
    fsm_state: DhcpClientState,
    discover_ts: Timestamp,
    /// Servers that sent an OFFER, in the order first seen.
    offers: Vec<String>,
    requested_ip: Option<String>,
    assigned_ip: Option<String>,
    server_ip: Option<String>,
    nak_count: u8,
    last_ts: Timestamp,
}

/// The mathematical content of a transaction record.
#[verifier::ext_equal]
pub struct TxView {
    pub xid: u32,
    pub client_mac: Seq<char>,
    pub fsm_state: DhcpClientState,
    pub discover_ts: Timestamp,
    pub offers: Seq<Seq<char>>,
    pub requested_ip: Option<Seq<char>>,
    pub assigned_ip: Option<Seq<char>>,
    pub server_ip: Option<Seq<char>>,
    pub nak_count: u8,
    pub last_ts: Timestamp,
}

/// The views of a sequence of strings.
pub open spec fn strings_view(v: Seq<String>) -> Seq<Seq<char>> {
    v.map_values(|s: String| s@)
}

impl View for TransactionState {
    type V = TxView;

    closed spec fn view(&self) -> TxView {
        TxView {
            xid: self.xid,
            client_mac: self.client_mac@,
            fsm_state: self.fsm_state,
            discover_ts: self.discover_ts,
            offers: strings_view(self.offers@),
            requested_ip: opt_string_view(self.requested_ip),
            assigned_ip: opt_string_view(self.assigned_ip),
            server_ip: opt_string_view(self.server_ip),
            nak_count: self.nak_count,
            last_ts: self.last_ts,
        }
    }
}

/// DISCOVER flood tracking for the current window.
#[derive(Debug)]
struct DiscoverTracker {
    window_start: Timestamp,
    count: usize,
    /// Distinct client hardware addresses seen in the window.
    unique_macs: Vec<String>,
}

/// The DHCP analyzer: feeds packets through per-transaction state machines and reports events.
pub struct Analyzer {
    /// Transactions in the order first seen; at most one per xid.
    transactions: Vec<TransactionState>,
    /// Active leases: (assigned address, client hardware address); at most one per address.
    active_leases: Vec<(String, String)>,
    discover_tracker: DiscoverTracker,
    /// DISCOVERs per window that count as a flood.
    flood_threshold: usize,
    /// Windows (by start second) for which a flood was already reported.
    flood_reported: Vec<u32>,
}

/// The mathematical state of an [`Analyzer`].
#[verifier::ext_equal]
pub struct AnalyzerView {
    pub txs: Seq<TxView>,
    pub leases: Seq<(Seq<char>, Seq<char>)>,
    pub window_start: Timestamp,
    pub count: usize,
    pub macs: Seq<Seq<char>>,
    pub threshold: usize,
    pub reported: Seq<u32>,
}

/// The view of a lease table.
pub open spec fn leases_view(v: Seq<(String, String)>) -> Seq<(Seq<char>, Seq<char>)> {
    v.map_values(|e: (String, String)| (e.0@, e.1@))
}

/// The views of a sequence of transaction records.
spec fn txs_view(v: Seq<TransactionState>) -> Seq<TxView> {
    v.map_values(|t: TransactionState| t@)
}

impl View for Analyzer {
    type V = AnalyzerView;

    closed spec fn view(&self) -> AnalyzerView {
        AnalyzerView {
            txs: txs_view(self.transactions@),
            leases: leases_view(self.active_leases@),
            window_start: self.discover_tracker.window_start,
            count: self.discover_tracker.count,
            macs: strings_view(self.discover_tracker.unique_macs@),
            threshold: self.flood_threshold,
            reported: self.flood_reported@,
        }
    }
}

/// The index of the transaction for `xid`, if any.
pub open spec fn tx_index(txs: Seq<TxView>, xid: u32) -> Option<int> {
    if exists|i: int| 0 <= i < txs.len() && txs[i].xid == xid {
        Some(choose|i: int| 0 <= i < txs.len() && txs[i].xid == xid)
    } else {
        None
    }
}

/// The index of the lease for address `ip`, if any.
pub open spec fn lease_index(leases: Seq<(Seq<char>, Seq<char>)>, ip: Seq<char>) -> Option<int> {
    if exists|i: int| 0 <= i < leases.len() && leases[i].0 == ip {
        Some(choose|i: int| 0 <= i < leases.len() && leases[i].0 == ip)
    } else {
        None
    }
}

/// The client that holds the lease on `ip`, if any.
pub open spec fn lease_holder(leases: Seq<(Seq<char>, Seq<char>)>, ip: Seq<char>) -> Option<Seq<char>> {
    match lease_index(leases, ip) {
        Some(i) => Some(leases[i].1),
        None => None,
    }
}

/// The lease table with `ip` leased to `mac` (replacing any earlier holder).
pub open spec fn lease_put(leases: Seq<(Seq<char>, Seq<char>)>, ip: Seq<char>, mac: Seq<char>) -> Seq<
    (Seq<char>, Seq<char>),
> {
    match lease_index(leases, ip) {
        Some(i) => leases.update(i, (ip, mac)),
        None => leases.push((ip, mac)),
    }
}

/// The lease table without any lease on `ip`.
pub open spec fn lease_drop(leases: Seq<(Seq<char>, Seq<char>)>, ip: Seq<char>) -> Seq<(Seq<char>, Seq<char>)> {
    match lease_index(leases, ip) {
        Some(i) => leases.remove(i),
        None => leases,
    }
}

/// `s` with `x` added at the end unless already present.
pub open spec fn seq_add<T>(s: Seq<T>, x: T) -> Seq<T> {
    if s.contains(x) { s } else { s.push(x) }
}

/// The successor of `c`, wrapping to 0 after `usize::MAX`.
pub open spec fn wrapping_inc(c: usize) -> usize {
    if c == usize::MAX { 0 } else { (c + 1) as usize }
}

/// The successor of `c`, wrapping to 0 after 255.
pub open spec fn wrapping_inc_u8(c: u8) -> u8 {
    if c == 255 { 0 } else { (c + 1) as u8 }
}

/// No two transactions share an xid.
pub open spec fn txs_distinct(txs: Seq<TxView>) -> bool {
    forall|i: int, j: int| 0 <= i < txs.len() && 0 <= j < txs.len() && i != j ==> txs[i].xid != txs[j].xid
}

/// No two leases share an address.
pub open spec fn leases_distinct(leases: Seq<(Seq<char>, Seq<char>)>) -> bool {
    forall|i: int, j: int| 0 <= i < leases.len() && 0 <= j < leases.len() && i != j ==> leases[i].0 != leases[j].0
}

/// Distinct transaction ids, distinct leased addresses, distinct window
/// addresses and distinct reported windows.
pub open spec fn state_wf(a: AnalyzerView) -> bool {
    &&& txs_distinct(a.txs)
    &&& leases_distinct(a.leases)
    &&& a.macs.no_duplicates()
    &&& a.reported.no_duplicates()
}

/// A fresh transaction record.
pub open spec fn new_tx(xid: u32, mac: Seq<char>, state: DhcpClientState, ts: Timestamp) -> TxView {
    TxView {
        xid,
        client_mac: mac,
        fsm_state: state,
        discover_ts: ts,
        offers: Seq::empty(),
        requested_ip: None,
        assigned_ip: None,
        server_ip: None,
        nak_count: 0,
        last_ts: ts,
    }
}

/// The transactions with one for `xid` guaranteed (appending `fresh` when
/// there was none), and the index of that transaction.
pub open spec fn ensure_tx(txs: Seq<TxView>, xid: u32, fresh: TxView) -> (Seq<TxView>, int) {
    match tx_index(txs, xid) {
        Some(i) => (txs, i),
        None => (txs.push(fresh), txs.len() as int),
    }
}

/// "0.0.0.0"
pub open spec fn zero_ip() -> Seq<char> {
    "0.0.0.0"@
}

/// The server named by option 54, else `fallback`.
pub open spec fn server_or(p: PacketView, fallback: Seq<char>) -> Seq<char> {
    match p.server_id {
        Some(b) => ip_text(b),
        None => fallback,
    }
}

/// DISCOVER: the flood window restarts when more than 5 s have passed since
/// it began; the DISCOVER is counted and its client address recorded; the
/// first time the count reaches the threshold within a window a
/// `DiscoverFlood` is reported. A retransmission (known xid) only refreshes
/// the transaction's time; a new xid opens a transaction in Selecting and
/// reports `ClientDiscovered`.
pub open spec fn discover_step(a: AnalyzerView, p: PacketView, src_ip: Seq<char>, ts: Timestamp) -> (
    AnalyzerView,
    Seq<EventView>,
) {
    let mac = mac_text(p.client_mac);
    let reset = elapsed_micros(ts, a.window_start) > flood_window_us();
    let window_start = if reset { ts } else { a.window_start };
    let count = wrapping_inc(if reset { 0 } else { a.count });
    let macs = seq_add(if reset { Seq::empty() } else { a.macs }, mac);
    let flood = count >= a.threshold && !a.reported.contains(window_start.sec);
    let reported = if flood { a.reported.push(window_start.sec) } else { a.reported };
    let flood_events = if flood {
        seq![EventView::DiscoverFlood { ts, discover_count: count, window_ms: 5000, unique_macs: macs.len() as usize }]
    } else {
        Seq::empty()
    };
    let a1 = AnalyzerView { window_start, count, macs, reported, ..a };
    match tx_index(a.txs, p.xid) {
        Some(i) => (
            AnalyzerView { txs: a.txs.update(i, TxView { last_ts: ts, ..a.txs[i] }), ..a1 },
            flood_events,
        ),
        None => (
            AnalyzerView { txs: a.txs.push(new_tx(p.xid, mac, DhcpClientState::Selecting, ts)), ..a1 },
            flood_events.push(EventView::ClientDiscovered { ts, xid: p.xid, client_mac: mac, src_ip }),
        ),
    }
}

/// OFFER: the server is option 54, else the sender. An OFFER for a
/// transaction that already has offers, none from this server, is reported as
/// `RogueServerDetected` naming the first offering server as legitimate. The
/// server is recorded and `OfferReceived` reported. Unknown xids open a
/// transaction in Selecting.
pub open spec fn offer_step(a: AnalyzerView, p: PacketView, src_ip: Seq<char>, ts: Timestamp) -> (
    AnalyzerView,
    Seq<EventView>,
) {
    let server = server_or(p, src_ip);
    let (txs, i) = ensure_tx(a.txs, p.xid, new_tx(p.xid, mac_text(p.client_mac), DhcpClientState::Selecting, ts));
    let tx = txs[i];
    let rogue = tx.offers.len() > 0 && !tx.offers.contains(server);
    let rogue_events = if rogue {
        seq![EventView::RogueServerDetected {
            ts,
            xid: p.xid,
            client_mac: tx.client_mac,
            legitimate_server: tx.offers[0],
            rogue_server: server,
        }]
    } else {
        Seq::empty()
    };
    (
        AnalyzerView { txs: txs.update(i, TxView { offers: seq_add(tx.offers, server), last_ts: ts, ..tx }), ..a },
        rogue_events.push(EventView::OfferReceived {
            ts,
            xid: p.xid,
            client_mac: tx.client_mac,
            offered_ip: ip_text(p.yiaddr),
            server_ip: server,
        }),
    )
}

/// The address a REQUEST asks for: option 50, else ciaddr (renewing or rebinding).
pub open spec fn requested_of(p: PacketView) -> Seq<char> {
    match p.requested_ip {
        Some(b) => ip_text(b),
        None => ip_text(p.ciaddr),
    }
}

/// REQUEST: the transaction (opened in Selecting if unknown) moves to
/// Requesting, remembering the requested address and server (option 54, else
/// "0.0.0.0"); a `StateTransition` and a `RequestSent` are reported.
pub open spec fn request_step(a: AnalyzerView, p: PacketView, ts: Timestamp) -> (AnalyzerView, Seq<EventView>) {
    let requested = requested_of(p);
    let server = server_or(p, zero_ip());
    let (txs, i) = ensure_tx(a.txs, p.xid, new_tx(p.xid, mac_text(p.client_mac), DhcpClientState::Selecting, ts));
    let tx = txs[i];
    (
        AnalyzerView {
            txs: txs.update(
                i,
                TxView {
                    fsm_state: DhcpClientState::Requesting,
                    requested_ip: Some(requested),
                    server_ip: Some(server),
                    last_ts: ts,
                    ..tx
                },
            ),
            ..a
        },
        seq![
            EventView::StateTransition {
                ts,
                xid: p.xid,
                client_mac: tx.client_mac,
                from_state: state_name(tx.fsm_state),
                to_state: "Requesting"@,
            },
            EventView::RequestSent { ts, xid: p.xid, client_mac: tx.client_mac, requested_ip: requested, server_ip: server },
        ],
    )
}

/// ACK: the address is yiaddr; the server is option 54, else the sender; the
/// lease time is option 51, else 86400 s. Unless the address is "0.0.0.0":
/// when it is leased to another client, a `LeaseConflict` and an `IpConflict`
/// are reported, and the lease is recorded for this transaction's client. The
/// transaction (opened in Requesting if unknown) becomes Bound; a
/// `StateTransition` and a `LeaseAcquired` are reported.
pub open spec fn ack_step(a: AnalyzerView, p: PacketView, src_ip: Seq<char>, ts: Timestamp) -> (
    AnalyzerView,
    Seq<EventView>,
) {
    let assigned = ip_text(p.yiaddr);
    let server = server_or(p, src_ip);
    let lease_time: u32 = match p.lease_time {
        Some(t) => t,
        None => 86400,
    };
    let (txs, i) = ensure_tx(a.txs, p.xid, new_tx(p.xid, mac_text(p.client_mac), DhcpClientState::Requesting, ts));
    let tx = txs[i];
    let recordable = assigned != zero_ip();
    let conflict_events = if recordable {
        match lease_holder(a.leases, assigned) {
            Some(holder) => if holder != tx.client_mac {
                seq![
                    EventView::LeaseConflict { ts, xid: p.xid, client_mac: tx.client_mac, conflicting_ip: assigned },
                    EventView::IpConflict {
                        ts,
                        conflicting_ip: assigned,
                        mac_a: holder,
                        mac_b: tx.client_mac,
                        server_ip: server,
                    },
                ]
            } else {
                Seq::empty()
            },
            None => Seq::empty(),
        }
    } else {
        Seq::empty()
    };
    let leases = if recordable { lease_put(a.leases, assigned, tx.client_mac) } else { a.leases };
    (
        AnalyzerView {
            txs: txs.update(
                i,
                TxView { fsm_state: DhcpClientState::Bound, assigned_ip: Some(assigned), last_ts: ts, ..tx },
            ),
            leases,
            ..a
        },
        conflict_events + seq![
            EventView::StateTransition {
                ts,
                xid: p.xid,
                client_mac: tx.client_mac,
                from_state: state_name(tx.fsm_state),
                to_state: "Bound"@,
            },
            EventView::LeaseAcquired {
                ts,
                xid: p.xid,
                client_mac: tx.client_mac,
                assigned_ip: assigned,
                server_ip: server,
                lease_time,
            },
        ],
    )
}

/// NAK: the transaction (opened in Requesting if unknown) counts the NAK
/// (wrapping after 255) and returns to Init; `NakReceived` is reported with
/// the server from option 54, else the sender.
pub open spec fn nak_step(a: AnalyzerView, p: PacketView, src_ip: Seq<char>, ts: Timestamp) -> (
    AnalyzerView,
    Seq<EventView>,
) {
    let server = server_or(p, src_ip);
    let (txs, i) = ensure_tx(a.txs, p.xid, new_tx(p.xid, mac_text(p.client_mac), DhcpClientState::Requesting, ts));
    let tx = txs[i];
    (
        AnalyzerView {
            txs: txs.update(
                i,
                TxView {
                    nak_count: wrapping_inc_u8(tx.nak_count),
                    fsm_state: DhcpClientState::Init,
                    last_ts: ts,
                    ..tx
                },
            ),
            ..a
        },
        seq![EventView::NakReceived { ts, xid: p.xid, client_mac: tx.client_mac, server_ip: server }],
    )
}

/// RELEASE: the lease on ciaddr ends; a known transaction returns to Init; a
/// Bound → Init `StateTransition` is reported for the packet's client.
pub open spec fn release_step(a: AnalyzerView, p: PacketView, ts: Timestamp) -> (AnalyzerView, Seq<EventView>) {
    let txs = match tx_index(a.txs, p.xid) {
        Some(i) => a.txs.update(i, TxView { fsm_state: DhcpClientState::Init, last_ts: ts, ..a.txs[i] }),
        None => a.txs,
    };
    (
        AnalyzerView { txs, leases: lease_drop(a.leases, ip_text(p.ciaddr)), ..a },
        seq![EventView::StateTransition {
            ts,
            xid: p.xid,
            client_mac: mac_text(p.client_mac),
            from_state: "Bound"@,
            to_state: "Init"@,
        }],
    )
}

/// The state after a packet and the events it yields. DECLINE, INFORM and
/// unknown types change nothing and yield nothing.
pub open spec fn process_spec(a: AnalyzerView, p: PacketView, src_ip: Seq<char>, ts: Timestamp) -> (
    AnalyzerView,
    Seq<EventView>,
) {
    match p.msg_type {
        DhcpMessageType::Discover => discover_step(a, p, src_ip, ts),
        DhcpMessageType::Offer => offer_step(a, p, src_ip, ts),
        DhcpMessageType::Request => request_step(a, p, ts),
        DhcpMessageType::Ack => ack_step(a, p, src_ip, ts),
        DhcpMessageType::Nak => nak_step(a, p, src_ip, ts),
        DhcpMessageType::Release => release_step(a, p, ts),
        _ => (a, Seq::empty()),
    }
}

/// The state of a fresh analyzer.
pub open spec fn initial_state() -> AnalyzerView {
    AnalyzerView {
        txs: Seq::empty(),
        leases: Seq::empty(),
        window_start: Timestamp { sec: 0, usec: 0 },
        count: 0,
        macs: Seq::empty(),
        threshold: 20,
        reported: Seq::empty(),
    }
}

/// Whether a transaction is still selecting, has received no OFFER, and its
/// DISCOVER lies more than 10 s back: the server did not answer.
pub open spec fn timed_out(tx: TxView, last_ts: Timestamp) -> bool {
    &&& tx.fsm_state == DhcpClientState::Selecting
    &&& tx.offers.len() == 0
    &&& elapsed_micros(last_ts, tx.discover_ts) > offer_timeout_us()
}

/// A `LeaseTimeout` for `tx` at `last_ts`.
pub open spec fn timeout_event(tx: TxView, last_ts: Timestamp) -> EventView {
    EventView::LeaseTimeout {
        ts: last_ts,
        xid: tx.xid,
        client_mac: tx.client_mac,
        discover_ts: tx.discover_ts,
        elapsed_us: elapsed_micros(last_ts, tx.discover_ts) as u64,
    }
}

/// One `LeaseTimeout` per timed-out transaction, in transaction order.
pub open spec fn timeouts(txs: Seq<TxView>, last_ts: Timestamp) -> Seq<EventView>
    decreases txs.len(),
{
    if txs.len() == 0 {
        Seq::empty()
    } else {
        let rest = timeouts(txs.drop_last(), last_ts);
        if timed_out(txs.last(), last_ts) { rest.push(timeout_event(txs.last(), last_ts)) } else { rest }
    }
}


// ── Lookup helpers ──────────────────────────────────────────────────────────

/// Whether `v` holds a string equal to `s`.
fn contains_string(v: &Vec<String>, s: &String) -> (r: bool)
    ensures
        r == strings_view(v@).contains(s@),
{
    let mut i: usize = 0;
    while i < v.len()
        invariant
            i <= v@.len(),
            forall|j: int| 0 <= j < i ==> v@[j]@ != s@,
        decreases v@.len() - i,
    {
        if v[i].eq(s) {
            assert(strings_view(v@)[i as int] == s@);
            return true;
        }
        i += 1;
    }
    assert forall|j: int| 0 <= j < strings_view(v@).len() implies strings_view(v@)[j] != s@ by {
        assert(strings_view(v@)[j] == v@[j]@);
    }
    false
}

/// Whether `v` holds `x`.
fn contains_u32(v: &Vec<u32>, x: u32) -> (r: bool)
    ensures
        r == v@.contains(x),
{
    let mut i: usize = 0;
    while i < v.len()
        invariant
            i <= v@.len(),
            forall|j: int| 0 <= j < i ==> v@[j] != x,
        decreases v@.len() - i,
    {
        if v[i] == x {
            return true;
        }
        i += 1;
    }
    false
}

/// With distinct xids, a found index (or its absence) is what `tx_index` denotes.
proof fn lemma_tx_index(txs: Seq<TxView>, xid: u32, r: Option<usize>)
    requires
        forall|i: int, j: int| 0 <= i < txs.len() && 0 <= j < txs.len() && i != j ==> txs[i].xid != txs[j].xid,
        r matches Some(i) ==> i < txs.len() && txs[i as int].xid == xid,
        r is None ==> forall|j: int| 0 <= j < txs.len() ==> txs[j].xid != xid,
    ensures
        tx_index(txs, xid) == (match r {
            Some(i) => Some(i as int),
            None => None::<int>,
        }),
{
    if let Some(i) = r {
        assert(0 <= i < txs.len() && txs[i as int].xid == xid);
    }
}

/// With distinct addresses, a found index (or its absence) is what `lease_index` denotes.
proof fn lemma_lease_index(leases: Seq<(Seq<char>, Seq<char>)>, ip: Seq<char>, r: Option<usize>)
    requires
        forall|i: int, j: int| 0 <= i < leases.len() && 0 <= j < leases.len() && i != j ==> leases[i].0 != leases[j].0,
        r matches Some(i) ==> i < leases.len() && leases[i as int].0 == ip,
        r is None ==> forall|j: int| 0 <= j < leases.len() ==> leases[j].0 != ip,
    ensures
        lease_index(leases, ip) == (match r {
            Some(i) => Some(i as int),
            None => None::<int>,
        }),
{
    if let Some(i) = r {
        assert(0 <= i < leases.len() && leases[i as int].0 == ip);
    }
}

impl Analyzer {
    /// Distinct transaction ids, leased addresses, window addresses and reported windows.
    pub open spec fn wf(&self) -> bool {
        state_wf(self@)
    }

    /// An analyzer that has seen nothing, with a flood threshold of 20 DISCOVERs per 5 s.
    pub fn new() -> (r: Self)
        ensures
            r@ == initial_state(),
            r.wf(),
    {
        let r = Analyzer {
            transactions: Vec::new(),
            active_leases: Vec::new(),
            discover_tracker: DiscoverTracker {
                window_start: Timestamp { sec: 0, usec: 0 },
                count: 0,
                unique_macs: Vec::new(),
            },
            flood_threshold: 20,
            flood_reported: Vec::new(),
        };
        assert(r@ =~= initial_state());
        r
    }

    /// The index of the transaction for `xid`, if any.
    fn find_tx(&self, xid: u32) -> (r: Option<usize>)
        requires
            txs_distinct(self@.txs),
        ensures
            tx_index(self@.txs, xid) == (match r {
                Some(i) => Some(i as int),
                None => None::<int>,
            }),
            r matches Some(i) ==> i < self.transactions@.len(),
    {
        let mut i: usize = 0;
        while i < self.transactions.len()
            invariant
                txs_distinct(self@.txs),
                i <= self.transactions@.len(),
                forall|j: int| 0 <= j < i ==> self.transactions@[j].xid != xid,
            decreases self.transactions@.len() - i,
        {
            if self.transactions[i].xid == xid {
                proof {
                    lemma_tx_index(self@.txs, xid, Some(i));
                }
                return Some(i);
            }
            i += 1;
        }
        proof {
            assert forall|j: int| 0 <= j < self@.txs.len() implies self@.txs[j].xid != xid by {
                assert(self@.txs[j] == self.transactions@[j]@);
            }
            lemma_tx_index(self@.txs, xid, None);
        }
        None
    }

    /// The index of the lease on `ip`, if any.
    fn find_lease(&self, ip: &String) -> (r: Option<usize>)
        requires
            leases_distinct(self@.leases),
        ensures
            lease_index(self@.leases, ip@) == (match r {
                Some(i) => Some(i as int),
                None => None::<int>,
            }),
            r matches Some(i) ==> i < self.active_leases@.len(),
    {
        let mut i: usize = 0;
        while i < self.active_leases.len()
            invariant
                leases_distinct(self@.leases),
                i <= self.active_leases@.len(),
                forall|j: int| 0 <= j < i ==> self.active_leases@[j].0@ != ip@,
            decreases self.active_leases@.len() - i,
        {
            if self.active_leases[i].0.eq(ip) {
                proof {
                    assert(self@.leases[i as int] == (self.active_leases@[i as int].0@, self.active_leases@[i as int].1@));
                    lemma_lease_index(self@.leases, ip@, Some(i));
                }
                return Some(i);
            }
            i += 1;
        }
        proof {
            assert forall|j: int| 0 <= j < self@.leases.len() implies self@.leases[j].0 != ip@ by {
                assert(self@.leases[j].0 == self.active_leases@[j].0@);
            }
            lemma_lease_index(self@.leases, ip@, None);
        }
        None
    }
}


impl Analyzer {
    /// The DISCOVER case of [`Analyzer::process`].
    fn on_discover(&mut self, pkt: &DhcpPacket, src_ip: &str, ts: Timestamp) -> (events: Vec<DhcpEvent>)
        requires
            old(self).wf(),
            pkt.msg_type == DhcpMessageType::Discover,
        ensures
            final(self).wf(),
            final(self)@ == discover_step(old(self)@, pkt@, src_ip@, ts).0,
            events_view(events@) == discover_step(old(self)@, pkt@, src_ip@, ts).1,
    {
        let ghost a = self@;
        let mac = pkt.client_mac_str();
        if elapsed_exceeds(&ts, &self.discover_tracker.window_start, 5_000_000) {
            self.discover_tracker.window_start = ts;
            self.discover_tracker.count = 0;
            self.discover_tracker.unique_macs = Vec::new();
        }
        let c = self.discover_tracker.count;
        self.discover_tracker.count = if c == usize::MAX { 0 } else { c + 1 };
        let ghost before = strings_view(self.discover_tracker.unique_macs@);
        if !contains_string(&self.discover_tracker.unique_macs, &mac) {
            self.discover_tracker.unique_macs.push(mac.clone());
            assert(strings_view(self.discover_tracker.unique_macs@) =~= before.push(mac@));
        }
        assert(self@.macs == seq_add(before, mac@));
        let ghost mid = self@;
        let mut events: Vec<DhcpEvent> = Vec::new();
        if self.discover_tracker.count >= self.flood_threshold {
            let key = self.discover_tracker.window_start.sec;
            if !contains_u32(&self.flood_reported, key) {
                self.flood_reported.push(key);
                events.push(
                    DhcpEvent::DiscoverFlood {
                        ts,
                        discover_count: self.discover_tracker.count,
                        window_ms: 5000,
                        unique_macs: self.discover_tracker.unique_macs.len(),
                    },
                );
            }
        }
        let found = self.find_tx(pkt.xid);
        match found {
            Some(i) => {
                let ghost prev = self.transactions@;
                self.transactions[i].last_ts = ts;
                proof {
                    assert(self.transactions@[i as int]@ == TxView { last_ts: ts, ..prev[i as int]@ });
                    assert(txs_view(self.transactions@) =~= txs_view(prev).update(i as int, TxView { last_ts: ts, ..prev[i as int]@ }));
                }
            },
            None => {
                let tx = TransactionState {
                    xid: pkt.xid,
                    client_mac: mac.clone(),
                    fsm_state: DhcpClientState::Selecting,
                    discover_ts: ts,
                    offers: Vec::new(),
                    requested_ip: None,
                    assigned_ip: None,
                    server_ip: None,
                    nak_count: 0,
                    last_ts: ts,
                };
                let ghost prev = self.transactions@;
                self.transactions.push(tx);
                proof {
                    assert(tx@ =~= new_tx(pkt.xid, mac@, DhcpClientState::Selecting, ts));
                    assert(txs_view(self.transactions@) =~= txs_view(prev).push(tx@));
                }
                events.push(DhcpEvent::ClientDiscovered { ts, xid: pkt.xid, client_mac: mac, src_ip: String::from_str(src_ip) });
            },
        }
        proof {
            let r = discover_step(a, pkt@, src_ip@, ts);
            assert(self@.txs =~= r.0.txs);
            assert(self@ =~= r.0);
            assert(events_view(events@) =~= r.1);
        }
        events
    }
}


impl Analyzer {
    /// Makes sure a transaction for `pkt.xid` exists, opening one in `state`
    /// for the packet's client at `ts` if needed, and returns its index.
    fn tx_slot(&mut self, pkt: &DhcpPacket, state: DhcpClientState, ts: Timestamp) -> (i: usize)
        requires
            old(self).wf(),
        ensures
            final(self).wf(),
            i < final(self).transactions@.len(),
            final(self)@ == (AnalyzerView {
                txs: ensure_tx(old(self)@.txs, pkt.xid, new_tx(pkt.xid, mac_text(pkt.client_mac@), state, ts)).0,
                ..old(self)@
            }),
            i == ensure_tx(old(self)@.txs, pkt.xid, new_tx(pkt.xid, mac_text(pkt.client_mac@), state, ts)).1,
    {
        match self.find_tx(pkt.xid) {
            Some(i) => {
                assert(self@ =~= AnalyzerView { txs: self@.txs, ..self@ });
                i
            },
            None => {
                let ghost prev = self.transactions@;
                let tx = TransactionState {
                    xid: pkt.xid,
                    client_mac: pkt.client_mac_str(),
                    fsm_state: state,
                    discover_ts: ts,
                    offers: Vec::new(),
                    requested_ip: None,
                    assigned_ip: None,
                    server_ip: None,
                    nak_count: 0,
                    last_ts: ts,
                };
                let i = self.transactions.len();
                self.transactions.push(tx);
                proof {
                    assert(tx@ =~= new_tx(pkt.xid, mac_text(pkt.client_mac@), state, ts));
                    assert(txs_view(self.transactions@) =~= txs_view(prev).push(tx@));
                    assert(forall|j: int| 0 <= j < txs_view(prev).len() ==> txs_view(prev)[j].xid != pkt.xid);
                    assert(self@ =~= AnalyzerView {
                        txs: ensure_tx(old(self)@.txs, pkt.xid, new_tx(pkt.xid, mac_text(pkt.client_mac@), state, ts)).0,
                        ..old(self)@
                    });
                }
                i
            },
        }
    }

    /// The OFFER case of [`Analyzer::process`].
    fn on_offer(&mut self, pkt: &DhcpPacket, src_ip: &str, ts: Timestamp) -> (events: Vec<DhcpEvent>)
        requires
            old(self).wf(),
        ensures
            final(self).wf(),
            final(self)@ == offer_step(old(self)@, pkt@, src_ip@, ts).0,
            events_view(events@) == offer_step(old(self)@, pkt@, src_ip@, ts).1,
    {
        let ghost a = self@;
        let offered_ip = pkt.yiaddr_str();
        let server_ip = match pkt.server_id_str() {
            Some(s) => s,
            None => String::from_str(src_ip),
        };
        assert(server_ip@ == server_or(pkt@, src_ip@));
        let i = self.tx_slot(pkt, DhcpClientState::Selecting, ts);
        let ghost t = self@.txs[i as int];
        let known = contains_string(&self.transactions[i].offers, &server_ip);
        let mut events: Vec<DhcpEvent> = Vec::new();
        if self.transactions[i].offers.len() > 0 && !known {
            let legitimate = self.transactions[i].offers[0].clone();
            events.push(
                DhcpEvent::RogueServerDetected {
                    ts,
                    xid: pkt.xid,
                    client_mac: self.transactions[i].client_mac.clone(),
                    legitimate_server: legitimate,
                    rogue_server: server_ip.clone(),
                },
            );
        }
        let ghost prev = self.transactions@;
        if !known {
            self.transactions[i].offers.push(server_ip.clone());
        }
        self.transactions[i].last_ts = ts;
        proof {
            assert(strings_view(self.transactions@[i as int].offers@) =~= seq_add(t.offers, server_ip@));
            assert(self.transactions@[i as int]@ =~= TxView { offers: seq_add(t.offers, server_ip@), last_ts: ts, ..t });
            assert(txs_view(self.transactions@) =~= txs_view(prev).update(i as int, self.transactions@[i as int]@));
        }
        let client_mac = self.transactions[i].client_mac.clone();
        events.push(DhcpEvent::OfferReceived { ts, xid: pkt.xid, client_mac, offered_ip, server_ip });
        proof {
            let r = offer_step(a, pkt@, src_ip@, ts);
            assert(self@ =~= r.0);
            assert(events_view(events@) =~= r.1);
        }
        events
    }
}


impl Analyzer {
    /// The REQUEST case of [`Analyzer::process`].
    fn on_request(&mut self, pkt: &DhcpPacket, ts: Timestamp) -> (events: Vec<DhcpEvent>)
        requires
            old(self).wf(),
        ensures
            final(self).wf(),
            final(self)@ == request_step(old(self)@, pkt@, ts).0,
            events_view(events@) == request_step(old(self)@, pkt@, ts).1,
    {
        let ghost a = self@;
        let requested_ip = match &pkt.requested_ip {
            Some(b) => bytes_to_ip(b),
            None => {
                // Renewing and rebinding clients leave option 50 out and use ciaddr.
                let ci = pkt.ciaddr_str();
                let zero = String::from_str("0.0.0.0");
                if ci.eq(&zero) {
                    zero
                } else {
                    ci
                }
            },
        };
        let server_ip = match pkt.server_id_str() {
            Some(s) => s,
            None => String::from_str("0.0.0.0"),
        };
        assert(requested_ip@ == requested_of(pkt@));
        assert(server_ip@ == server_or(pkt@, zero_ip()));
        let i = self.tx_slot(pkt, DhcpClientState::Selecting, ts);
        let ghost t = self@.txs[i as int];
        let from = String::from_str(self.transactions[i].fsm_state.as_str());
        let ghost prev = self.transactions@;
        self.transactions[i].fsm_state = DhcpClientState::Requesting;
        self.transactions[i].requested_ip = Some(requested_ip.clone());
        self.transactions[i].server_ip = Some(server_ip.clone());
        self.transactions[i].last_ts = ts;
        let ghost nt = TxView {
            fsm_state: DhcpClientState::Requesting,
            requested_ip: Some(requested_ip@),
            server_ip: Some(server_ip@),
            last_ts: ts,
            ..t
        };
        proof {
            assert(self.transactions@[i as int]@ =~= nt);
            assert(txs_view(self.transactions@) =~= txs_view(prev).update(i as int, nt));
        }
        let mut events: Vec<DhcpEvent> = Vec::new();
        events.push(
            DhcpEvent::StateTransition {
                ts,
                xid: pkt.xid,
                client_mac: self.transactions[i].client_mac.clone(),
                from_state: from,
                to_state: String::from_str("Requesting"),
            },
        );
        events.push(
            DhcpEvent::RequestSent {
                ts,
                xid: pkt.xid,
                client_mac: self.transactions[i].client_mac.clone(),
                requested_ip,
                server_ip,
            },
        );
        proof {
            let r = request_step(a, pkt@, ts);
            assert(self@ =~= r.0);
            assert(events_view(events@) =~= r.1);
        }
        events
    }
}


impl Analyzer {
    /// Records that `ip` is leased to `mac` (the ACK lease bookkeeping).
    fn put_lease(&mut self, ip: String, mac: String)
        requires
            old(self).wf(),
        ensures
            final(self).wf(),
            final(self)@ == (AnalyzerView { leases: lease_put(old(self)@.leases, ip@, mac@), ..old(self)@ }),
            final(self).transactions == old(self).transactions,
    {
        let ghost prev = self.active_leases@;
        let ghost ipv = ip@;
        let ghost macv = mac@;
        match self.find_lease(&ip) {
            Some(j) => {
                self.active_leases.set(j, (ip, mac));
                proof {
                    assert(leases_view(self.active_leases@) =~= leases_view(prev).update(j as int, (ipv, macv)));
                }
            },
            None => {
                self.active_leases.push((ip, mac));
                proof {
                    assert(leases_view(self.active_leases@) =~= leases_view(prev).push((ipv, macv)));
                }
            },
        }
        assert(self@ =~= AnalyzerView { leases: lease_put(old(self)@.leases, ipv, macv), ..old(self)@ });
    }

    /// The ACK case of [`Analyzer::process`].
    fn on_ack(&mut self, pkt: &DhcpPacket, src_ip: &str, ts: Timestamp) -> (events: Vec<DhcpEvent>)
        requires
            old(self).wf(),
        ensures
            final(self).wf(),
            final(self)@ == ack_step(old(self)@, pkt@, src_ip@, ts).0,
            events_view(events@) == ack_step(old(self)@, pkt@, src_ip@, ts).1,
    {
        let ghost a = self@;
        let assigned_ip = pkt.yiaddr_str();
        let server_ip = match pkt.server_id_str() {
            Some(s) => s,
            None => String::from_str(src_ip),
        };
        assert(server_ip@ == server_or(pkt@, src_ip@));
        let lease_time: u32 = match pkt.lease_time {
            Some(t) => t,
            None => 86400,
        };
        let i = self.tx_slot(pkt, DhcpClientState::Requesting, ts);
        let ghost t = self@.txs[i as int];
        let ghost a1 = self@;
        let mut events: Vec<DhcpEvent> = Vec::new();
        let zero = String::from_str("0.0.0.0");
        if !assigned_ip.eq(&zero) {
            match self.find_lease(&assigned_ip) {
                Some(j) => {
                    if !self.active_leases[j].1.eq(&self.transactions[i].client_mac) {
                        events.push(
                            DhcpEvent::LeaseConflict {
                                ts,
                                xid: pkt.xid,
                                client_mac: self.transactions[i].client_mac.clone(),
                                conflicting_ip: assigned_ip.clone(),
                            },
                        );
                        events.push(
                            DhcpEvent::IpConflict {
                                ts,
                                conflicting_ip: assigned_ip.clone(),
                                mac_a: self.active_leases[j].1.clone(),
                                mac_b: self.transactions[i].client_mac.clone(),
                                server_ip: server_ip.clone(),
                            },
                        );
                    }
                },
                None => {},
            }
            let mac = self.transactions[i].client_mac.clone();
            self.put_lease(assigned_ip.clone(), mac);
        }
        let ghost conflict_view = events_view(events@);
        let from = String::from_str(self.transactions[i].fsm_state.as_str());
        let ghost prev = self.transactions@;
        self.transactions[i].fsm_state = DhcpClientState::Bound;
        self.transactions[i].assigned_ip = Some(assigned_ip.clone());
        self.transactions[i].last_ts = ts;
        let ghost nt = TxView {
            fsm_state: DhcpClientState::Bound,
            assigned_ip: Some(assigned_ip@),
            last_ts: ts,
            ..t
        };
        proof {
            assert(self.transactions@[i as int]@ =~= nt);
            assert(txs_view(self.transactions@) =~= txs_view(prev).update(i as int, nt));
        }
        events.push(
            DhcpEvent::StateTransition {
                ts,
                xid: pkt.xid,
                client_mac: self.transactions[i].client_mac.clone(),
                from_state: from,
                to_state: String::from_str("Bound"),
            },
        );
        events.push(
            DhcpEvent::LeaseAcquired {
                ts,
                xid: pkt.xid,
                client_mac: self.transactions[i].client_mac.clone(),
                assigned_ip,
                server_ip,
                lease_time,
            },
        );
        proof {
            let r = ack_step(a, pkt@, src_ip@, ts);
            assert(self@ =~= r.0);
            assert(events_view(events@) =~= r.1);
        }
        events
    }

    /// The NAK case of [`Analyzer::process`].
    fn on_nak(&mut self, pkt: &DhcpPacket, src_ip: &str, ts: Timestamp) -> (events: Vec<DhcpEvent>)
        requires
            old(self).wf(),
        ensures
            final(self).wf(),
            final(self)@ == nak_step(old(self)@, pkt@, src_ip@, ts).0,
            events_view(events@) == nak_step(old(self)@, pkt@, src_ip@, ts).1,
    {
        let ghost a = self@;
        let server_ip = match pkt.server_id_str() {
            Some(s) => s,
            None => String::from_str(src_ip),
        };
        assert(server_ip@ == server_or(pkt@, src_ip@));
        let i = self.tx_slot(pkt, DhcpClientState::Requesting, ts);
        let ghost t = self@.txs[i as int];
        let ghost prev = self.transactions@;
        let n = self.transactions[i].nak_count;
        self.transactions[i].nak_count = if n == 255 { 0 } else { n + 1 };
        self.transactions[i].fsm_state = DhcpClientState::Init;
        self.transactions[i].last_ts = ts;
        let ghost nt = TxView {
            nak_count: wrapping_inc_u8(t.nak_count),
            fsm_state: DhcpClientState::Init,
            last_ts: ts,
            ..t
        };
        proof {
            assert(self.transactions@[i as int]@ =~= nt);
            assert(txs_view(self.transactions@) =~= txs_view(prev).update(i as int, nt));
        }
        let mut events: Vec<DhcpEvent> = Vec::new();
        events.push(
            DhcpEvent::NakReceived {
                ts,
                xid: pkt.xid,
                client_mac: self.transactions[i].client_mac.clone(),
                server_ip,
            },
        );
        proof {
            let r = nak_step(a, pkt@, src_ip@, ts);
            assert(self@ =~= r.0);
            assert(events_view(events@) =~= r.1);
        }
        events
    }

    /// The RELEASE case of [`Analyzer::process`].
    fn on_release(&mut self, pkt: &DhcpPacket, ts: Timestamp) -> (events: Vec<DhcpEvent>)
        requires
            old(self).wf(),
        ensures
            final(self).wf(),
            final(self)@ == release_step(old(self)@, pkt@, ts).0,
            events_view(events@) == release_step(old(self)@, pkt@, ts).1,
    {
        let ghost a = self@;
        let released_ip = pkt.ciaddr_str();
        match self.find_lease(&released_ip) {
            Some(j) => {
                let ghost prev = self.active_leases@;
                self.active_leases.remove(j);
                proof {
                    assert(leases_view(self.active_leases@) =~= leases_view(prev).remove(j as int));
                }
            },
            None => {},
        }
        match self.find_tx(pkt.xid) {
            Some(i) => {
                let ghost prev = self.transactions@;
                let ghost t = prev[i as int]@;
                self.transactions[i].fsm_state = DhcpClientState::Init;
                self.transactions[i].last_ts = ts;
                let ghost nt = TxView { fsm_state: DhcpClientState::Init, last_ts: ts, ..t };
                proof {
                    assert(self.transactions@[i as int]@ =~= nt);
                    assert(txs_view(self.transactions@) =~= txs_view(prev).update(i as int, nt));
                }
            },
            None => {},
        }
        let mut events: Vec<DhcpEvent> = Vec::new();
        events.push(
            DhcpEvent::StateTransition {
                ts,
                xid: pkt.xid,
                client_mac: pkt.client_mac_str(),
                from_state: String::from_str("Bound"),
                to_state: String::from_str("Init"),
            },
        );
        proof {
            let r = release_step(a, pkt@, ts);
            assert(self@ =~= r.0);
            assert(events_view(events@) =~= r.1);
        }
        events
    }

    /// Feeds one DHCP packet, sent by `src_ip` at `ts`, through the analyzer
    /// and returns the events it gives rise to, in order.
    pub fn process(&mut self, pkt: &DhcpPacket, src_ip: &str, _dst_ip: &str, ts: Timestamp) -> (events: Vec<
        DhcpEvent,
    >)
        requires
            old(self).wf(),
        ensures
            final(self).wf(),
            final(self)@ == process_spec(old(self)@, pkt@, src_ip@, ts).0,
            events_view(events@) == process_spec(old(self)@, pkt@, src_ip@, ts).1,
    {
        match pkt.msg_type {
            DhcpMessageType::Discover => self.on_discover(pkt, src_ip, ts),
            DhcpMessageType::Offer => self.on_offer(pkt, src_ip, ts),
            DhcpMessageType::Request => self.on_request(pkt, ts),
            DhcpMessageType::Ack => self.on_ack(pkt, src_ip, ts),
            DhcpMessageType::Nak => self.on_nak(pkt, src_ip, ts),
            DhcpMessageType::Release => self.on_release(pkt, ts),
            _ => {
                let events: Vec<DhcpEvent> = Vec::new();
                assert(events_view(events@) =~= Seq::<EventView>::empty());
                events
            },
        }
    }

    /// Reports, at `last_ts`, every transaction that is still selecting without
    /// having received any OFFER more than 10 s after its DISCOVER, in the order
    /// the transactions were first seen.
    pub fn finalize(&mut self, last_ts: Timestamp) -> (events: Vec<DhcpEvent>)
        requires
            old(self).wf(),
        ensures
            final(self)@ == old(self)@,
            final(self).wf(),
            events_view(events@) == timeouts(old(self)@.txs, last_ts),
    {
        let mut events: Vec<DhcpEvent> = Vec::new();
        let mut k: usize = 0;
        while k < self.transactions.len()
            invariant
                k <= self.transactions@.len(),
                events_view(events@) == timeouts(self@.txs.take(k as int), last_ts),
            decreases self.transactions@.len() - k,
        {
            let ghost tv = self@.txs[k as int];
            assert(self@.txs.take(k as int + 1).drop_last() =~= self@.txs.take(k as int));
            let tx = &self.transactions[k];
            if tx.fsm_state == DhcpClientState::Selecting && tx.offers.len() == 0 && elapsed_exceeds(
                &last_ts,
                &tx.discover_ts,
                10_000_000,
            ) {
                let elapsed = last_ts.as_micros() - tx.discover_ts.as_micros();
                events.push(
                    DhcpEvent::LeaseTimeout {
                        ts: last_ts,
                        xid: tx.xid,
                        client_mac: tx.client_mac.clone(),
                        discover_ts: tx.discover_ts,
                        elapsed_us: elapsed,
                    },
                );
            }
            assert(events_view(events@) =~= timeouts(self@.txs.take(k as int + 1), last_ts));
            k += 1;
        }
        assert(self@.txs.take(k as int) =~= self@.txs);
        events
    }
}

} // verus!
