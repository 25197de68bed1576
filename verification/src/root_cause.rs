//! Correlation of the event timeline into root causes with evidence,
//! causal chains, a verdict and an action plan.

use vstd::prelude::*;
use crate::analyzer::{
    DhcpEvent, EventView, Severity, TimedEvent, TimedEventView, seq_add, strings_view, timed_view,
};
use crate::text::{
    dec_text, hex_text, ms_text, secs3_text, push_dec, push_hex, push_ms, push_secs3, push_str,
};

verus! {

/// The kinds of root cause.
#[derive(Debug, Clone, Copy, PartialEq, Eq, Structural)]
pub enum RootCauseKind {
    RogueServer,
    Starvation,
    LeaseConflict,
    NakStorm,
    ServerUnreachable,
    IpConflict,
    Clean,
}

/// The display title of a root cause kind.
pub open spec fn kind_title(k: RootCauseKind) -> Seq<char> {
    match k {
        RootCauseKind::RogueServer => "Rogue DHCP Server"@,
        RootCauseKind::Starvation => "DHCP Starvation Attack"@,
        RootCauseKind::LeaseConflict => "Lease Conflict"@,
        RootCauseKind::NakStorm => "NAK Storm"@,
        RootCauseKind::ServerUnreachable => "Server Unreachable"@,
        RootCauseKind::IpConflict => "IP Address Conflict"@,
        RootCauseKind::Clean => "No Issues Detected"@,
    }
}

impl RootCauseKind {
    /// The display title of this kind.
    pub fn title(&self) -> (r: &'static str)
        ensures
            r@ == kind_title(*self),
    {
        match self {
            RootCauseKind::RogueServer => "Rogue DHCP Server",
            RootCauseKind::Starvation => "DHCP Starvation Attack",
            RootCauseKind::LeaseConflict => "Lease Conflict",
            RootCauseKind::NakStorm => "NAK Storm",
            RootCauseKind::ServerUnreachable => "Server Unreachable",
            RootCauseKind::IpConflict => "IP Address Conflict",
            RootCauseKind::Clean => "No Issues Detected",
        }
    }
}

/// The part a step plays in a causal chain.
#[derive(Debug, Clone, Copy, PartialEq, Eq, Structural)]
pub enum ChainRole {
    Cause,
    Effect,
    Context,
}

/// One step of a causal chain. `ts` is in microseconds.
#[derive(Debug, Clone)]
pub struct ChainStep {
    pub ts: u64,
    pub event_type: String,
    pub description: String,
    pub role: ChainRole,
}

/// How serious a root cause is (ordered Info < Warning < Critical).
#[derive(Debug, Clone, Copy, PartialEq, Eq, PartialOrd, Ord, Structural)]
pub enum RootCauseSeverity {
    Info,
    Warning,
    Critical,
}

/// A reference to an event of the timeline. `ts` is in microseconds.
#[derive(Debug, Clone)]
pub struct EvidenceRef {
    pub ts: u64,
    pub event_type: String,
    pub description: String,
}

/// One root cause. `first_seen` and `last_seen` are in microseconds.
#[derive(Debug, Clone)]
pub struct RootCause {
    pub kind: RootCauseKind,
    pub severity: RootCauseSeverity,
    pub headline: String,
    pub impact: String,
    pub remediation: String,
    pub evidence: Vec<EvidenceRef>,
    pub secondary_effects: Vec<String>,
    pub affected_clients: Vec<String>,
    pub first_seen: u64,
    pub last_seen: u64,
    pub confidence: u8,
    pub confidence_reason: String,
    pub causal_chain: Vec<ChainStep>,
}

/// The correlation result.
#[derive(Debug)]
pub struct RootCauseReport {
    pub causes: Vec<RootCause>,
    pub verdict: String,
    pub stable: bool,
    pub action_plan: Vec<String>,
}

/// The mathematical content of a [`ChainStep`].
pub struct ChainStepView {
    pub ts: u64,
    pub event_type: Seq<char>,
    pub description: Seq<char>,
    pub role: ChainRole,
}

/// The mathematical content of an [`EvidenceRef`].
pub struct EvidenceView {
    pub ts: u64,
    pub event_type: Seq<char>,
    pub description: Seq<char>,
}

/// The mathematical content of a [`RootCause`].
pub struct RootCauseView {
    pub kind: RootCauseKind,
    pub severity: RootCauseSeverity,
    pub headline: Seq<char>,
    pub impact: Seq<char>,
    pub remediation: Seq<char>,
    pub evidence: Seq<EvidenceView>,
    pub secondary_effects: Seq<Seq<char>>,
    pub affected_clients: Seq<Seq<char>>,
    pub first_seen: u64,
    pub last_seen: u64,
    pub confidence: u8,
    pub confidence_reason: Seq<char>,
    pub causal_chain: Seq<ChainStepView>,
}

/// The mathematical content of a [`RootCauseReport`].
pub struct ReportView {
    pub causes: Seq<RootCauseView>,
    pub verdict: Seq<char>,
    pub stable: bool,
    pub action_plan: Seq<Seq<char>>,
}

impl View for ChainStep {
    type V = ChainStepView;

    open spec fn view(&self) -> ChainStepView {
        ChainStepView {
            ts: self.ts,
            event_type: self.event_type@,
            description: self.description@,
            role: self.role,
        }
    }
}

impl View for EvidenceRef {
    type V = EvidenceView;

    open spec fn view(&self) -> EvidenceView {
        EvidenceView { ts: self.ts, event_type: self.event_type@, description: self.description@ }
    }
}

impl View for RootCause {
    type V = RootCauseView;

    open spec fn view(&self) -> RootCauseView {
        RootCauseView {
            kind: self.kind,
            severity: self.severity,
            headline: self.headline@,
            impact: self.impact@,
            remediation: self.remediation@,
            evidence: self.evidence@.map_values(|e: EvidenceRef| e@),
            secondary_effects: strings_view(self.secondary_effects@),
            affected_clients: strings_view(self.affected_clients@),
            first_seen: self.first_seen,
            last_seen: self.last_seen,
            confidence: self.confidence,
            confidence_reason: self.confidence_reason@,
            causal_chain: self.causal_chain@.map_values(|c: ChainStep| c@),
        }
    }
}

impl View for RootCauseReport {
    type V = ReportView;

    open spec fn view(&self) -> ReportView {
        ReportView {
            causes: self.causes@.map_values(|c: RootCause| c@),
            verdict: self.verdict@,
            stable: self.stable,
            action_plan: strings_view(self.action_plan@),
        }
    }
}

/// The view of an optional root cause.
pub open spec fn cause_opt_view(c: Option<RootCause>) -> Option<RootCauseView> {
    match c {
        Some(x) => Some(x@),
        None => None,
    }
}

// ── Selection helpers ───────────────────────────────────────────────────────

/// The events satisfying `p`, in timeline order.
pub open spec fn select(evs: Seq<TimedEventView>, p: spec_fn(EventView) -> bool) -> Seq<TimedEventView>
    decreases evs.len(),
{
    if evs.len() == 0 {
        Seq::empty()
    } else {
        let r = select(evs.drop_last(), p);
        if p(evs.last().event) { r.push(evs.last()) } else { r }
    }
}

/// The distinct members of `s`, in order of first occurrence.
pub open spec fn distinct(s: Seq<Seq<char>>) -> Seq<Seq<char>>
    decreases s.len(),
{
    if s.len() == 0 {
        Seq::empty()
    } else {
        seq_add(distinct(s.drop_last()), s.last())
    }
}

/// The client hardware address an event names (empty for events that name none).
pub open spec fn event_client(e: EventView) -> Seq<char> {
    match e {
        EventView::ClientDiscovered { client_mac, .. } => client_mac,
        EventView::OfferReceived { client_mac, .. } => client_mac,
        EventView::RequestSent { client_mac, .. } => client_mac,
        EventView::LeaseAcquired { client_mac, .. } => client_mac,
        EventView::NakReceived { client_mac, .. } => client_mac,
        EventView::RogueServerDetected { client_mac, .. } => client_mac,
        EventView::LeaseConflict { client_mac, .. } => client_mac,
        EventView::LeaseTimeout { client_mac, .. } => client_mac,
        EventView::StateTransition { client_mac, .. } => client_mac,
        _ => Seq::empty(),
    }
}

/// The client addresses named by a sequence of events.
pub open spec fn clients_of(evs: Seq<TimedEventView>) -> Seq<Seq<char>> {
    evs.map_values(|t: TimedEventView| event_client(t.event))
}

/// An event's time in microseconds.
pub open spec fn ts_us(t: TimedEventView) -> u64 {
    t.ts.micros() as u64
}

/// Adds `s` to `v` unless an equal string is already there.
pub(crate) fn add_distinct(v: &mut Vec<String>, s: String)
    ensures
        strings_view(final(v)@) == seq_add(strings_view(old(v)@), s@),
{
    let mut i: usize = 0;
    while i < v.len()
        invariant
            i <= v@.len(),
            forall|j: int| 0 <= j < i ==> v@[j]@ != s@,
        decreases v@.len() - i,
    {
        if v[i].eq(&s) {
            assert(strings_view(v@)[i as int] == s@);
            return;
        }
        i += 1;
    }
    assert(!strings_view(v@).contains(s@)) by {
        assert forall|j: int| 0 <= j < strings_view(v@).len() implies strings_view(v@)[j] != s@ by {
            assert(strings_view(v@)[j] == v@[j]@);
        }
    }
    let ghost before = v@;
    v.push(s);
    assert(strings_view(v@) =~= strings_view(before).push(s@));
}

/// A fresh string holding `lit`.
fn text(lit: &str) -> (r: String)
    ensures
        r@ == lit@,
{
    String::from_str(lit)
}


/// Taking one more event extends the selection exactly when the event qualifies.
pub(crate) proof fn lemma_select_step(evs: Seq<TimedEventView>, i: int, p: spec_fn(EventView) -> bool)
    requires
        0 <= i < evs.len(),
    ensures
        select(evs.take(i + 1), p) == (if p(evs[i].event) {
            select(evs.take(i), p).push(evs[i])
        } else {
            select(evs.take(i), p)
        }),
{
    assert(evs.take(i + 1).drop_last() =~= evs.take(i));
    assert(evs.take(i + 1).last() == evs[i]);
}

/// Distinct clients of a selection extended by one event.
proof fn lemma_distinct_clients_push(sel: Seq<TimedEventView>, e: TimedEventView)
    ensures
        distinct(clients_of(sel.push(e))) == seq_add(distinct(clients_of(sel)), event_client(e.event)),
{
    assert(clients_of(sel.push(e)).drop_last() =~= clients_of(sel));
    assert(clients_of(sel.push(e)).last() == event_client(e.event));
}

/// The selection of the whole timeline.
pub(crate) proof fn lemma_take_all(evs: Seq<TimedEventView>)
    ensures
        evs.take(evs.len() as int) == evs,
{
    assert(evs.take(evs.len() as int) =~= evs);
}

// ── Rogue server ────────────────────────────────────────────────────────────

/// Whether an event reports a rogue server.
pub open spec fn is_rogue(e: EventView) -> bool {
    e is RogueServerDetected
}

/// The rogue-server events of a timeline.
pub open spec fn rogue_events(evs: Seq<TimedEventView>) -> Seq<TimedEventView> {
    select(evs, |e: EventView| is_rogue(e))
}

/// The evidence line for a rogue-server event.
pub open spec fn rogue_evidence(t: TimedEventView) -> EvidenceView {
    match t.event {
        EventView::RogueServerDetected { xid, client_mac, legitimate_server, rogue_server, .. } => EvidenceView {
            ts: ts_us(t),
            event_type: "RogueServerDetected"@,
            description: "xid=0x"@ + hex_text(xid as nat, 8) + " client="@ + client_mac + " — rogue "@
                + rogue_server + " vs legitimate "@ + legitimate_server,
        },
        _ => EvidenceView { ts: ts_us(t), event_type: Seq::empty(), description: Seq::empty() },
    }
}

/// The causal chain of the first rogue incident.
pub open spec fn rogue_chain(first: TimedEventView, first_seen: u64, last_seen: u64) -> Seq<ChainStepView> {
    match first.event {
        EventView::RogueServerDetected { xid, client_mac, legitimate_server, rogue_server, .. } => seq![
            ChainStepView {
                ts: first_seen,
                event_type: "ClientDiscovered"@,
                description: "Client "@ + client_mac + " sent DHCPDISCOVER (xid=0x"@ + hex_text(xid as nat, 8) + ")"@,
                role: ChainRole::Context,
            },
            ChainStepView {
                ts: first_seen,
                event_type: "RogueServerDetected"@,
                description: "Rogue server "@ + rogue_server + " sent competing OFFER (legitimate: "@
                    + legitimate_server + ")"@,
                role: ChainRole::Cause,
            },
            ChainStepView {
                ts: last_seen,
                event_type: "SecurityRisk"@,
                description: "Client may receive incorrect gateway/DNS — traffic interception risk"@,
                role: ChainRole::Effect,
            },
        ],
        _ => Seq::empty(),
    }
}

/// The rogue-server root cause of a timeline, if it reports any rogue server.
pub open spec fn rogue_cause(evs: Seq<TimedEventView>) -> Option<RootCauseView> {
    let r = rogue_events(evs);
    if r.len() == 0 {
        None
    } else {
        let affected = distinct(clients_of(r));
        let first_seen = ts_us(r[0]);
        let last_seen = ts_us(r.last());
        Some(RootCauseView {
            kind: RootCauseKind::RogueServer,
            severity: RootCauseSeverity::Critical,
            headline: "Rogue DHCP server detected — "@ + dec_text(affected.len()) + " client(s) affected"@,
            impact: "Clients may be assigned attacker-controlled gateway/DNS, enabling MITM attacks and traffic interception."@,
            remediation: "Enable DHCP snooping on all access-layer switches. Locate rogue server by MAC/port — run `show ip dhcp snooping binding`. Isolate the port immediately."@,
            evidence: r.map_values(|t: TimedEventView| rogue_evidence(t)),
            secondary_effects: seq![
                "Incorrect default gateway assigned"@,
                "DNS hijacking possible"@,
                "Traffic interception via ARP poisoning"@,
            ],
            affected_clients: affected,
            first_seen,
            last_seen,
            confidence: 95,
            confidence_reason: "Direct observation of two OFFER responses to identical xid from different servers."@,
            causal_chain: rogue_chain(r[0], first_seen, last_seen),
        })
    }
}

/// Appends `s` (a string's contents) to `out`.
fn push_string(out: &mut String, s: &String)
    ensures
        final(out)@ == old(out)@ + s@,
{
    push_str(out, s.as_str());
}

/// Three strings as a vector.
fn strings3(a: &str, b: &str, c: &str) -> (r: Vec<String>)
    ensures
        strings_view(r@) == seq![a@, b@, c@],
{
    let mut v: Vec<String> = Vec::new();
    v.push(text(a));
    v.push(text(b));
    v.push(text(c));
    assert(strings_view(v@) =~= seq![a@, b@, c@]);
    v
}

/// Two strings as a vector.
fn strings2(a: &str, b: &str) -> (r: Vec<String>)
    ensures
        strings_view(r@) == seq![a@, b@],
{
    let mut v: Vec<String> = Vec::new();
    v.push(text(a));
    v.push(text(b));
    assert(strings_view(v@) =~= seq![a@, b@]);
    v
}

/// Rogue DHCP servers: every `RogueServerDetected` event becomes evidence;
/// the affected clients are the distinct clients named, in order.
fn detect_rogue_server(events: &[TimedEvent]) -> (r: Option<RootCause>)
    ensures
        cause_opt_view(r) == rogue_cause(timed_view(events@)),
{
    let ghost evs = timed_view(events@);
    let ghost p = |e: EventView| is_rogue(e);
    let mut affected: Vec<String> = Vec::new();
    let mut evidence: Vec<EvidenceRef> = Vec::new();
    let mut first: Option<usize> = None;
    let mut last: usize = 0;
    let mut i: usize = 0;
    while i < events.len()
        invariant
            evs == timed_view(events@),
            p == (|e: EventView| is_rogue(e)),
            i <= events@.len(),
            strings_view(affected@) == distinct(clients_of(select(evs.take(i as int), p))),
            evidence@.map_values(|e: EvidenceRef| e@) == select(evs.take(i as int), p).map_values(
                |t: TimedEventView| rogue_evidence(t),
            ),
            select(evs.take(i as int), p).len() == 0 <==> first is None,
            first matches Some(f) ==> f < events@.len() && evs[f as int] == select(evs.take(i as int), p)[0],
            first is Some ==> last < events@.len() && evs[last as int] == select(evs.take(i as int), p).last(),
        decreases events@.len() - i,
    {
        proof {
            lemma_select_step(evs, i as int, p);
        }
        let ghost sel = select(evs.take(i as int), p);
        let te = &events[i];
        assert(evs[i as int] == te@);
        match &te.event {
            DhcpEvent::RogueServerDetected { xid, client_mac, legitimate_server, rogue_server, .. } => {
                proof {
                    lemma_distinct_clients_push(sel, te@);
                }
                add_distinct(&mut affected, client_mac.clone());
                let mut d = String::new();
                push_str(&mut d, "xid=0x");
                push_hex(&mut d, *xid as u64, 8);
                push_str(&mut d, " client=");
                push_string(&mut d, client_mac);
                push_str(&mut d, " — rogue ");
                push_string(&mut d, rogue_server);
                push_str(&mut d, " vs legitimate ");
                push_string(&mut d, legitimate_server);
                let ev = EvidenceRef { ts: te.ts.as_micros(), event_type: text("RogueServerDetected"), description: d };
                let ghost before = evidence@;
                evidence.push(ev);
                assert(ev@ == rogue_evidence(te@));
                assert(evidence@.map_values(|e: EvidenceRef| e@) =~= before.map_values(|e: EvidenceRef| e@).push(ev@));
                assert(sel.push(te@).map_values(|t: TimedEventView| rogue_evidence(t)) =~= sel.map_values(
                    |t: TimedEventView| rogue_evidence(t),
                ).push(rogue_evidence(te@)));
                if first.is_none() {
                    first = Some(i);
                }
                last = i;
            },
            _ => {},
        }
        i += 1;
    }
    proof {
        lemma_take_all(evs);
    }
    match first {
        None => None,
        Some(f) => {
            let fe = &events[f];
            let first_seen = fe.ts.as_micros();
            let last_seen = events[last].ts.as_micros();
            let mut chain: Vec<ChainStep> = Vec::new();
            match &fe.event {
                DhcpEvent::RogueServerDetected { xid, client_mac, legitimate_server, rogue_server, .. } => {
                    let mut d1 = String::new();
                    push_str(&mut d1, "Client ");
                    push_string(&mut d1, client_mac);
                    push_str(&mut d1, " sent DHCPDISCOVER (xid=0x");
                    push_hex(&mut d1, *xid as u64, 8);
                    push_str(&mut d1, ")");
                    chain.push(ChainStep { ts: first_seen, event_type: text("ClientDiscovered"), description: d1, role: ChainRole::Context });
                    let mut d2 = String::new();
                    push_str(&mut d2, "Rogue server ");
                    push_string(&mut d2, rogue_server);
                    push_str(&mut d2, " sent competing OFFER (legitimate: ");
                    push_string(&mut d2, legitimate_server);
                    push_str(&mut d2, ")");
                    chain.push(ChainStep { ts: first_seen, event_type: text("RogueServerDetected"), description: d2, role: ChainRole::Cause });
                    chain.push(
                        ChainStep {
                            ts: last_seen,
                            event_type: text("SecurityRisk"),
                            description: text("Client may receive incorrect gateway/DNS — traffic interception risk"),
                            role: ChainRole::Effect,
                        },
                    );
                },
                _ => {},
            }
            let mut headline = String::new();
            push_str(&mut headline, "Rogue DHCP server detected — ");
            push_dec(&mut headline, affected.len() as u64);
            push_str(&mut headline, " client(s) affected");
            let c = RootCause {
                kind: RootCauseKind::RogueServer,
                severity: RootCauseSeverity::Critical,
                headline,
                impact: text("Clients may be assigned attacker-controlled gateway/DNS, enabling MITM attacks and traffic interception."),
                remediation: text("Enable DHCP snooping on all access-layer switches. Locate rogue server by MAC/port — run `show ip dhcp snooping binding`. Isolate the port immediately."),
                evidence,
                secondary_effects: strings3(
                    "Incorrect default gateway assigned",
                    "DNS hijacking possible",
                    "Traffic interception via ARP poisoning",
                ),
                affected_clients: affected,
                first_seen,
                last_seen,
                confidence: 95,
                confidence_reason: text("Direct observation of two OFFER responses to identical xid from different servers."),
                causal_chain: chain,
            };
            proof {
                let r = rogue_events(evs);
                assert(r == select(evs, p));
                assert(c@.causal_chain =~= rogue_chain(r[0], first_seen, last_seen));
                assert(c@ == rogue_cause(evs).unwrap());
            }
            Some(c)
        },
    }
}


// ── Starvation ──────────────────────────────────────────────────────────────

/// Whether an event reports a DISCOVER flood.
pub open spec fn is_flood(e: EventView) -> bool {
    e is DiscoverFlood
}

/// Whether an event reports a lease timeout.
pub open spec fn is_timeout(e: EventView) -> bool {
    e is LeaseTimeout
}

/// The largest of a sequence of counts (0 when empty).
pub open spec fn max_of(s: Seq<usize>) -> usize
    decreases s.len(),
{
    if s.len() == 0 {
        0
    } else {
        let m = max_of(s.drop_last());
        if s.last() > m { s.last() } else { m }
    }
}

/// The DISCOVER count of a flood event.
pub open spec fn flood_count(e: EventView) -> usize {
    match e {
        EventView::DiscoverFlood { discover_count, .. } => discover_count,
        _ => 0,
    }
}

/// The distinct-address count of a flood event.
pub open spec fn flood_macs(e: EventView) -> usize {
    match e {
        EventView::DiscoverFlood { unique_macs, .. } => unique_macs,
        _ => 0,
    }
}

/// The largest DISCOVER count among flood events.
pub open spec fn max_flood_count(fl: Seq<TimedEventView>) -> usize {
    max_of(fl.map_values(|t: TimedEventView| flood_count(t.event)))
}

/// The largest distinct-address count among flood events.
pub open spec fn max_flood_macs(fl: Seq<TimedEventView>) -> usize {
    max_of(fl.map_values(|t: TimedEventView| flood_macs(t.event)))
}

/// The evidence line for a flood event.
pub open spec fn flood_evidence(t: TimedEventView) -> EvidenceView {
    match t.event {
        EventView::DiscoverFlood { discover_count, window_ms, unique_macs, .. } => EvidenceView {
            ts: ts_us(t),
            event_type: "DiscoverFlood"@,
            description: dec_text(discover_count as nat) + " DISCOVER in "@ + dec_text(window_ms as nat)
                + "ms window from "@ + dec_text(unique_macs as nat) + " unique MACs"@,
        },
        _ => EvidenceView { ts: ts_us(t), event_type: Seq::empty(), description: Seq::empty() },
    }
}

/// The evidence line for a lease timeout seen alongside a flood.
pub open spec fn exhaustion_evidence(t: TimedEventView) -> EvidenceView {
    match t.event {
        EventView::LeaseTimeout { client_mac, elapsed_us, .. } => EvidenceView {
            ts: ts_us(t),
            event_type: "LeaseTimeout"@,
            description: "Client "@ + client_mac + " failed to get lease after "@ + ms_text(elapsed_us as nat)
                + "ms — pool likely exhausted"@,
        },
        _ => EvidenceView { ts: ts_us(t), event_type: Seq::empty(), description: Seq::empty() },
    }
}

/// The starvation root cause of a timeline, if it reports any DISCOVER flood.
/// Confidence is 90 when some flood window saw more than 10 distinct clients, else 70.
pub open spec fn starvation_cause(evs: Seq<TimedEventView>) -> Option<RootCauseView> {
    let fl = select(evs, |e: EventView| is_flood(e));
    let to = select(evs, |e: EventView| is_timeout(e));
    if fl.len() == 0 {
        None
    } else {
        let first_seen = ts_us(fl[0]);
        let last_seen = ts_us(fl.last());
        let max_count = max_flood_count(fl);
        let max_macs = max_flood_macs(fl);
        Some(RootCauseView {
            kind: RootCauseKind::Starvation,
            severity: RootCauseSeverity::Critical,
            headline: "DHCP starvation attack — "@ + dec_text(max_count as nat) + " DISCOVER/5s from "@
                + dec_text(max_macs as nat) + " MACs"@,
            impact: "DHCP pool exhausted. Legitimate clients cannot obtain IP addresses (Denial of Service)."@,
            remediation: "Enable DHCP snooping + rate limiting: `ip dhcp snooping limit rate 10` on access ports. Investigate source port via MAC table."@,
            evidence: fl.map_values(|t: TimedEventView| flood_evidence(t)) + to.map_values(
                |t: TimedEventView| exhaustion_evidence(t),
            ),
            secondary_effects: seq!["New clients cannot join network"@, "DHCP pool fully consumed"@],
            affected_clients: Seq::empty(),
            first_seen,
            last_seen,
            confidence: if max_macs > 10 { 90 } else { 70 },
            confidence_reason: if max_macs > 10 {
                dec_text(max_macs as nat) + " unique MACs in flood window strongly indicates spoofed MAC starvation attack"@
            } else {
                "Flood pattern detected but only "@ + dec_text(max_macs as nat) + " unique MACs — may be misconfigured client"@
            },
            causal_chain: seq![
                ChainStepView {
                    ts: first_seen,
                    event_type: "DiscoverFlood"@,
                    description: "Attacker sends "@ + dec_text(max_count as nat) + " DISCOVER with spoofed MACs"@,
                    role: ChainRole::Cause,
                },
                ChainStepView {
                    ts: (first_seen + 100_000) as u64,
                    event_type: "PoolExhaustion"@,
                    description: "DHCP server pool exhausted — no addresses available for legitimate clients"@,
                    role: ChainRole::Effect,
                },
                ChainStepView {
                    ts: last_seen,
                    event_type: "LeaseTimeout"@,
                    description: "Legitimate clients fail to obtain IP — network access denied (DoS)"@,
                    role: ChainRole::Effect,
                },
            ],
        })
    }
}

/// Microsecond timestamps stay far below `u64::MAX`.
proof fn lemma_ts_bound(t: TimedEventView)
    ensures
        ts_us(t) as int == t.ts.micros(),
        ts_us(t) < 0x20_0000_0000_0000,
{
}

/// DHCP starvation: DISCOVER floods, with lease timeouts as corroborating evidence.
fn detect_starvation(events: &[TimedEvent]) -> (r: Option<RootCause>)
    ensures
        cause_opt_view(r) == starvation_cause(timed_view(events@)),
{
    let ghost evs = timed_view(events@);
    let ghost p = |e: EventView| is_flood(e);
    let ghost q = |e: EventView| is_timeout(e);
    let ghost fe = |t: TimedEventView| flood_evidence(t);
    let ghost xe = |t: TimedEventView| exhaustion_evidence(t);
    let ghost fc = |t: TimedEventView| flood_count(t.event);
    let ghost fm = |t: TimedEventView| flood_macs(t.event);
    let mut max_count: usize = 0;
    let mut max_macs: usize = 0;
    let mut evidence: Vec<EvidenceRef> = Vec::new();
    let mut first: Option<usize> = None;
    let mut last: usize = 0;
    let mut i: usize = 0;
    while i < events.len()
        invariant
            evs == timed_view(events@),
            p == (|e: EventView| is_flood(e)),
            fe == (|t: TimedEventView| flood_evidence(t)),
            fc == (|t: TimedEventView| flood_count(t.event)),
            fm == (|t: TimedEventView| flood_macs(t.event)),
            i <= events@.len(),
            max_count == max_of(select(evs.take(i as int), p).map_values(fc)),
            max_macs == max_of(select(evs.take(i as int), p).map_values(fm)),
            evidence@.map_values(|e: EvidenceRef| e@) == select(evs.take(i as int), p).map_values(fe),
            select(evs.take(i as int), p).len() == 0 <==> first is None,
            first matches Some(f) ==> f < events@.len() && evs[f as int] == select(evs.take(i as int), p)[0],
            first is Some ==> last < events@.len() && evs[last as int] == select(evs.take(i as int), p).last(),
        decreases events@.len() - i,
    {
        proof {
            lemma_select_step(evs, i as int, p);
        }
        let ghost sel = select(evs.take(i as int), p);
        let te = &events[i];
        assert(evs[i as int] == te@);
        match &te.event {
            DhcpEvent::DiscoverFlood { discover_count, window_ms, unique_macs, .. } => {
                assert(sel.push(te@).map_values(fc).drop_last() =~= sel.map_values(fc));
                assert(sel.push(te@).map_values(fm).drop_last() =~= sel.map_values(fm));
                if *discover_count > max_count {
                    max_count = *discover_count;
                }
                if *unique_macs > max_macs {
                    max_macs = *unique_macs;
                }
                let mut d = String::new();
                push_dec(&mut d, *discover_count as u64);
                push_str(&mut d, " DISCOVER in ");
                push_dec(&mut d, *window_ms as u64);
                push_str(&mut d, "ms window from ");
                push_dec(&mut d, *unique_macs as u64);
                push_str(&mut d, " unique MACs");
                let ev = EvidenceRef { ts: te.ts.as_micros(), event_type: text("DiscoverFlood"), description: d };
                let ghost before = evidence@;
                evidence.push(ev);
                assert(ev@ == flood_evidence(te@));
                assert(evidence@.map_values(|e: EvidenceRef| e@) =~= before.map_values(|e: EvidenceRef| e@).push(ev@));
                assert(sel.push(te@).map_values(fe) =~= sel.map_values(fe).push(fe(te@)));
                if first.is_none() {
                    first = Some(i);
                }
                last = i;
            },
            _ => {},
        }
        i += 1;
    }
    proof {
        lemma_take_all(evs);
    }
    let ghost flood_part = evidence@.map_values(|e: EvidenceRef| e@);
    let mut k: usize = 0;
    while k < events.len()
        invariant
            evs == timed_view(events@),
            q == (|e: EventView| is_timeout(e)),
            xe == (|t: TimedEventView| exhaustion_evidence(t)),
            k <= events@.len(),
            evidence@.map_values(|e: EvidenceRef| e@) == flood_part + select(evs.take(k as int), q).map_values(xe),
        decreases events@.len() - k,
    {
        proof {
            lemma_select_step(evs, k as int, q);
        }
        let ghost sel = select(evs.take(k as int), q);
        let te = &events[k];
        assert(evs[k as int] == te@);
        match &te.event {
            DhcpEvent::LeaseTimeout { client_mac, elapsed_us, .. } => {
                let mut d = String::new();
                push_str(&mut d, "Client ");
                push_string(&mut d, client_mac);
                push_str(&mut d, " failed to get lease after ");
                push_ms(&mut d, *elapsed_us);
                push_str(&mut d, "ms — pool likely exhausted");
                let ev = EvidenceRef { ts: te.ts.as_micros(), event_type: text("LeaseTimeout"), description: d };
                let ghost before = evidence@;
                evidence.push(ev);
                assert(ev@ == exhaustion_evidence(te@));
                assert(evidence@.map_values(|e: EvidenceRef| e@) =~= before.map_values(|e: EvidenceRef| e@).push(ev@));
                assert(sel.push(te@).map_values(xe) =~= sel.map_values(xe).push(xe(te@)));
                assert(flood_part + sel.map_values(xe).push(xe(te@)) =~= (flood_part + sel.map_values(xe)).push(xe(te@)));
            },
            _ => {},
        }
        k += 1;
    }
    match first {
        None => None,
        Some(f) => {
            let first_seen = events[f].ts.as_micros();
            let last_seen = events[last].ts.as_micros();
            proof {
                lemma_ts_bound(evs[f as int]);
            }
            let mut headline = String::new();
            push_str(&mut headline, "DHCP starvation attack — ");
            push_dec(&mut headline, max_count as u64);
            push_str(&mut headline, " DISCOVER/5s from ");
            push_dec(&mut headline, max_macs as u64);
            push_str(&mut headline, " MACs");
            let confidence: u8 = if max_macs > 10 { 90 } else { 70 };
            let mut reason = String::new();
            if max_macs > 10 {
                push_dec(&mut reason, max_macs as u64);
                push_str(&mut reason, " unique MACs in flood window strongly indicates spoofed MAC starvation attack");
            } else {
                push_str(&mut reason, "Flood pattern detected but only ");
                push_dec(&mut reason, max_macs as u64);
                push_str(&mut reason, " unique MACs — may be misconfigured client");
            }
            let mut d1 = String::new();
            push_str(&mut d1, "Attacker sends ");
            push_dec(&mut d1, max_count as u64);
            push_str(&mut d1, " DISCOVER with spoofed MACs");
            let mut chain: Vec<ChainStep> = Vec::new();
            chain.push(ChainStep { ts: first_seen, event_type: text("DiscoverFlood"), description: d1, role: ChainRole::Cause });
            chain.push(
                ChainStep {
                    ts: first_seen + 100_000,
                    event_type: text("PoolExhaustion"),
                    description: text("DHCP server pool exhausted — no addresses available for legitimate clients"),
                    role: ChainRole::Effect,
                },
            );
            chain.push(
                ChainStep {
                    ts: last_seen,
                    event_type: text("LeaseTimeout"),
                    description: text("Legitimate clients fail to obtain IP — network access denied (DoS)"),
                    role: ChainRole::Effect,
                },
            );
            let c = RootCause {
                kind: RootCauseKind::Starvation,
                severity: RootCauseSeverity::Critical,
                headline,
                impact: text("DHCP pool exhausted. Legitimate clients cannot obtain IP addresses (Denial of Service)."),
                remediation: text("Enable DHCP snooping + rate limiting: `ip dhcp snooping limit rate 10` on access ports. Investigate source port via MAC table."),
                evidence,
                secondary_effects: strings2("New clients cannot join network", "DHCP pool fully consumed"),
                affected_clients: Vec::new(),
                first_seen,
                last_seen,
                confidence,
                confidence_reason: reason,
                causal_chain: chain,
            };
            proof {
                assert(c@.causal_chain =~= starvation_cause(evs).unwrap().causal_chain);
                assert(c@.affected_clients =~= Seq::<Seq<char>>::empty());
                assert(c@ == starvation_cause(evs).unwrap());
            }
            Some(c)
        },
    }
}


// ── Lease conflict ──────────────────────────────────────────────────────────

/// Whether an event reports a lease conflict.
pub open spec fn is_lease_conflict(e: EventView) -> bool {
    e is LeaseConflict
}

/// The evidence line for a lease conflict.
pub open spec fn lease_conflict_evidence(t: TimedEventView) -> EvidenceView {
    match t.event {
        EventView::LeaseConflict { xid, client_mac, conflicting_ip, .. } => EvidenceView {
            ts: ts_us(t),
            event_type: "LeaseConflict"@,
            description: "xid=0x"@ + hex_text(xid as nat, 8) + " client="@ + client_mac + " — ACK for "@
                + conflicting_ip + " which is already leased"@,
        },
        _ => EvidenceView { ts: ts_us(t), event_type: Seq::empty(), description: Seq::empty() },
    }
}

/// The lease-conflict root cause of a timeline, if it reports any lease conflict.
pub open spec fn lease_conflict_cause(evs: Seq<TimedEventView>) -> Option<RootCauseView> {
    let lc = select(evs, |e: EventView| is_lease_conflict(e));
    if lc.len() == 0 {
        None
    } else {
        Some(RootCauseView {
            kind: RootCauseKind::LeaseConflict,
            severity: RootCauseSeverity::Warning,
            headline: "Lease conflict on "@ + dec_text(lc.len()) + " address(es) — server pool inconsistency"@,
            impact: "Multiple clients assigned the same IP. Will cause ARP conflicts and intermittent connectivity loss."@,
            remediation: "Run `clear ip dhcp conflict *` on server. Check for static IPs overlapping the DHCP pool. Review pool exclusions."@,
            evidence: lc.map_values(|t: TimedEventView| lease_conflict_evidence(t)),
            secondary_effects: seq!["ARP table instability"@, "Intermittent packet loss for affected clients"@],
            affected_clients: distinct(clients_of(lc)),
            first_seen: ts_us(lc[0]),
            last_seen: ts_us(lc.last()),
            confidence: 85,
            confidence_reason: "ACK observed for IP already tracked as active lease in this capture window."@,
            causal_chain: Seq::empty(),
        })
    }
}

/// Lease conflicts: ACKs for addresses that were still leased to another client.
fn detect_lease_conflict(events: &[TimedEvent]) -> (r: Option<RootCause>)
    ensures
        cause_opt_view(r) == lease_conflict_cause(timed_view(events@)),
{
    let ghost evs = timed_view(events@);
    let ghost p = |e: EventView| is_lease_conflict(e);
    let ghost fe = |t: TimedEventView| lease_conflict_evidence(t);
    let mut affected: Vec<String> = Vec::new();
    let mut evidence: Vec<EvidenceRef> = Vec::new();
    let mut count: usize = 0;
    let mut first: usize = 0;
    let mut last: usize = 0;
    let mut i: usize = 0;
    while i < events.len()
        invariant
            evs == timed_view(events@),
            p == (|e: EventView| is_lease_conflict(e)),
            fe == (|t: TimedEventView| lease_conflict_evidence(t)),
            i <= events@.len(),
            count == select(evs.take(i as int), p).len(),
            strings_view(affected@) == distinct(clients_of(select(evs.take(i as int), p))),
            evidence@.map_values(|e: EvidenceRef| e@) == select(evs.take(i as int), p).map_values(fe),
            count > 0 ==> first < events@.len() && evs[first as int] == select(evs.take(i as int), p)[0],
            count > 0 ==> last < events@.len() && evs[last as int] == select(evs.take(i as int), p).last(),
        decreases events@.len() - i,
    {
        proof {
            lemma_select_step(evs, i as int, p);
            assert(select(evs.take(i as int), p).len() <= i) by {
                lemma_select_len(evs.take(i as int), p);
            }
        }
        let ghost sel = select(evs.take(i as int), p);
        let te = &events[i];
        assert(evs[i as int] == te@);
        match &te.event {
            DhcpEvent::LeaseConflict { xid, client_mac, conflicting_ip, .. } => {
                proof {
                    lemma_distinct_clients_push(sel, te@);
                }
                add_distinct(&mut affected, client_mac.clone());
                let mut d = String::new();
                push_str(&mut d, "xid=0x");
                push_hex(&mut d, *xid as u64, 8);
                push_str(&mut d, " client=");
                push_string(&mut d, client_mac);
                push_str(&mut d, " — ACK for ");
                push_string(&mut d, conflicting_ip);
                push_str(&mut d, " which is already leased");
                let ev = EvidenceRef { ts: te.ts.as_micros(), event_type: text("LeaseConflict"), description: d };
                let ghost before = evidence@;
                evidence.push(ev);
                assert(ev@ == fe(te@));
                assert(evidence@.map_values(|e: EvidenceRef| e@) =~= before.map_values(|e: EvidenceRef| e@).push(ev@));
                assert(sel.push(te@).map_values(fe) =~= sel.map_values(fe).push(fe(te@)));
                if count == 0 {
                    first = i;
                }
                last = i;
                count += 1;
            },
            _ => {},
        }
        i += 1;
    }
    proof {
        lemma_take_all(evs);
    }
    if count == 0 {
        return None;
    }
    let mut headline = String::new();
    push_str(&mut headline, "Lease conflict on ");
    push_dec(&mut headline, count as u64);
    push_str(&mut headline, " address(es) — server pool inconsistency");
    let c = RootCause {
        kind: RootCauseKind::LeaseConflict,
        severity: RootCauseSeverity::Warning,
        headline,
        impact: text("Multiple clients assigned the same IP. Will cause ARP conflicts and intermittent connectivity loss."),
        remediation: text("Run `clear ip dhcp conflict *` on server. Check for static IPs overlapping the DHCP pool. Review pool exclusions."),
        evidence,
        secondary_effects: strings2("ARP table instability", "Intermittent packet loss for affected clients"),
        affected_clients: affected,
        first_seen: events[first].ts.as_micros(),
        last_seen: events[last].ts.as_micros(),
        confidence: 85,
        confidence_reason: text("ACK observed for IP already tracked as active lease in this capture window."),
        causal_chain: Vec::new(),
    };
    proof {
        assert(c@.causal_chain =~= Seq::<ChainStepView>::empty());
        assert(c@ == lease_conflict_cause(evs).unwrap());
    }
    Some(c)
}

/// A selection is no longer than what it selects from.
pub(crate) proof fn lemma_select_len(evs: Seq<TimedEventView>, p: spec_fn(EventView) -> bool)
    ensures
        select(evs, p).len() <= evs.len(),
    decreases evs.len(),
{
    if evs.len() > 0 {
        lemma_select_len(evs.drop_last(), p);
    }
}

// ── Server unreachable ──────────────────────────────────────────────────────

/// The largest of a sequence of durations (0 when empty).
pub open spec fn max_u64(s: Seq<u64>) -> u64
    decreases s.len(),
{
    if s.len() == 0 {
        0
    } else {
        let m = max_u64(s.drop_last());
        if s.last() > m { s.last() } else { m }
    }
}

/// The elapsed time of a timeout event.
pub open spec fn timeout_elapsed(e: EventView) -> u64 {
    match e {
        EventView::LeaseTimeout { elapsed_us, .. } => elapsed_us,
        _ => 0,
    }
}

/// The evidence line for a lease timeout.
pub open spec fn timeout_evidence(t: TimedEventView) -> EvidenceView {
    match t.event {
        EventView::LeaseTimeout { client_mac, elapsed_us, discover_ts, .. } => EvidenceView {
            ts: ts_us(t),
            event_type: "LeaseTimeout"@,
            description: "Client "@ + client_mac + " — no OFFER received after "@ + ms_text(elapsed_us as nat)
                + "ms (discover at "@ + secs3_text(discover_ts.micros() as nat) + "s)"@,
        },
        _ => EvidenceView { ts: ts_us(t), event_type: Seq::empty(), description: Seq::empty() },
    }
}

/// The server-unreachable root cause of a timeline, if it reports any lease
/// timeout. Alongside a DISCOVER flood it is a warning (confidence 60),
/// otherwise critical (confidence 85).
pub open spec fn unreachable_cause(evs: Seq<TimedEventView>) -> Option<RootCauseView> {
    let to = select(evs, |e: EventView| is_timeout(e));
    let has_flood = select(evs, |e: EventView| is_flood(e)).len() > 0;
    if to.len() == 0 {
        None
    } else {
        let affected = distinct(clients_of(to));
        let max_elapsed = max_u64(to.map_values(|t: TimedEventView| timeout_elapsed(t.event)));
        Some(RootCauseView {
            kind: RootCauseKind::ServerUnreachable,
            severity: if has_flood { RootCauseSeverity::Warning } else { RootCauseSeverity::Critical },
            headline: "DHCP server unreachable — "@ + dec_text(affected.len()) + " client(s) timed out without OFFER"@,
            impact: "Clients cannot obtain IP address. Network access fully denied."@,
            remediation: "Check DHCP server process (Windows: `Get-Service DHCPServer`, Linux: `systemctl status isc-dhcp-server`). Verify UDP 67/68 reachability. Check `ip helper-address` on router interfaces."@,
            evidence: to.map_values(|t: TimedEventView| timeout_evidence(t)),
            secondary_effects: seq!["All new clients fail to join network"@, "APIPA addresses assigned (169.254.x.x)"@],
            affected_clients: affected,
            first_seen: ts_us(to[0]),
            last_seen: ts_us(to.last()),
            confidence: if has_flood { 60 } else { 85 },
            confidence_reason: if has_flood {
                "Timeout co-occurs with flood — likely pool exhaustion rather than server failure"@
            } else {
                "No OFFER received by any client in "@ + ms_text(max_elapsed as nat)
                    + "ms — consistent with server/relay failure"@
            },
            causal_chain: Seq::empty(),
        })
    }
}

/// Whether the timeline reports a DISCOVER flood anywhere.
fn any_flood(events: &[TimedEvent]) -> (r: bool)
    ensures
        r == (select(timed_view(events@), |e: EventView| is_flood(e)).len() > 0),
{
    let ghost evs = timed_view(events@);
    let ghost p = |e: EventView| is_flood(e);
    let mut i: usize = 0;
    while i < events.len()
        invariant
            evs == timed_view(events@),
            p == (|e: EventView| is_flood(e)),
            i <= events@.len(),
            select(evs.take(i as int), p).len() == 0,
        decreases events@.len() - i,
    {
        proof {
            lemma_select_step(evs, i as int, p);
        }
        assert(evs[i as int] == events@[i as int]@);
        match &events[i].event {
            DhcpEvent::DiscoverFlood { .. } => {
                proof {
                    lemma_select_monotone(evs, i as int + 1, p);
                }
                return true;
            },
            _ => {},
        }
        i += 1;
    }
    proof {
        lemma_take_all(evs);
    }
    false
}

/// Selecting from a longer prefix never selects fewer events.
proof fn lemma_select_monotone(evs: Seq<TimedEventView>, i: int, p: spec_fn(EventView) -> bool)
    requires
        0 <= i <= evs.len(),
    ensures
        select(evs.take(i), p).len() <= select(evs, p).len(),
    decreases evs.len() - i,
{
    if i < evs.len() {
        lemma_select_step(evs, i, p);
        lemma_select_monotone(evs, i + 1, p);
    } else {
        lemma_take_all(evs);
    }
}

/// Server unreachable: clients that timed out without any OFFER.
fn detect_server_unreachable(events: &[TimedEvent]) -> (r: Option<RootCause>)
    ensures
        cause_opt_view(r) == unreachable_cause(timed_view(events@)),
{
    let ghost evs = timed_view(events@);
    let ghost p = |e: EventView| is_timeout(e);
    let ghost fe = |t: TimedEventView| timeout_evidence(t);
    let ghost fx = |t: TimedEventView| timeout_elapsed(t.event);
    let has_flood = any_flood(events);
    let mut affected: Vec<String> = Vec::new();
    let mut evidence: Vec<EvidenceRef> = Vec::new();
    let mut max_elapsed: u64 = 0;
    let mut count: usize = 0;
    let mut first: usize = 0;
    let mut last: usize = 0;
    let mut i: usize = 0;
    while i < events.len()
        invariant
            evs == timed_view(events@),
            p == (|e: EventView| is_timeout(e)),
            fe == (|t: TimedEventView| timeout_evidence(t)),
            fx == (|t: TimedEventView| timeout_elapsed(t.event)),
            i <= events@.len(),
            count == select(evs.take(i as int), p).len(),
            max_elapsed == max_u64(select(evs.take(i as int), p).map_values(fx)),
            strings_view(affected@) == distinct(clients_of(select(evs.take(i as int), p))),
            evidence@.map_values(|e: EvidenceRef| e@) == select(evs.take(i as int), p).map_values(fe),
            count > 0 ==> first < events@.len() && evs[first as int] == select(evs.take(i as int), p)[0],
            count > 0 ==> last < events@.len() && evs[last as int] == select(evs.take(i as int), p).last(),
        decreases events@.len() - i,
    {
        proof {
            lemma_select_step(evs, i as int, p);
            lemma_select_len(evs.take(i as int), p);
        }
        let ghost sel = select(evs.take(i as int), p);
        let te = &events[i];
        assert(evs[i as int] == te@);
        match &te.event {
            DhcpEvent::LeaseTimeout { client_mac, elapsed_us, discover_ts, .. } => {
                proof {
                    lemma_distinct_clients_push(sel, te@);
                }
                assert(sel.push(te@).map_values(fx).drop_last() =~= sel.map_values(fx));
                add_distinct(&mut affected, client_mac.clone());
                if *elapsed_us > max_elapsed {
                    max_elapsed = *elapsed_us;
                }
                let mut d = String::new();
                push_str(&mut d, "Client ");
                push_string(&mut d, client_mac);
                push_str(&mut d, " — no OFFER received after ");
                push_ms(&mut d, *elapsed_us);
                push_str(&mut d, "ms (discover at ");
                push_secs3(&mut d, discover_ts.as_micros());
                push_str(&mut d, "s)");
                let ev = EvidenceRef { ts: te.ts.as_micros(), event_type: text("LeaseTimeout"), description: d };
                let ghost before = evidence@;
                evidence.push(ev);
                assert(ev@ == fe(te@));
                assert(evidence@.map_values(|e: EvidenceRef| e@) =~= before.map_values(|e: EvidenceRef| e@).push(ev@));
                assert(sel.push(te@).map_values(fe) =~= sel.map_values(fe).push(fe(te@)));
                if count == 0 {
                    first = i;
                }
                last = i;
                count += 1;
            },
            _ => {},
        }
        i += 1;
    }
    proof {
        lemma_take_all(evs);
    }
    if count == 0 {
        return None;
    }
    let mut headline = String::new();
    push_str(&mut headline, "DHCP server unreachable — ");
    push_dec(&mut headline, affected.len() as u64);
    push_str(&mut headline, " client(s) timed out without OFFER");
    let (severity, confidence, reason) = if has_flood {
        (
            RootCauseSeverity::Warning,
            60u8,
            text("Timeout co-occurs with flood — likely pool exhaustion rather than server failure"),
        )
    } else {
        let mut r = String::new();
        push_str(&mut r, "No OFFER received by any client in ");
        push_ms(&mut r, max_elapsed);
        push_str(&mut r, "ms — consistent with server/relay failure");
        (RootCauseSeverity::Critical, 85u8, r)
    };
    let c = RootCause {
        kind: RootCauseKind::ServerUnreachable,
        severity,
        headline,
        impact: text("Clients cannot obtain IP address. Network access fully denied."),
        remediation: text("Check DHCP server process (Windows: `Get-Service DHCPServer`, Linux: `systemctl status isc-dhcp-server`). Verify UDP 67/68 reachability. Check `ip helper-address` on router interfaces."),
        evidence,
        secondary_effects: strings2("All new clients fail to join network", "APIPA addresses assigned (169.254.x.x)"),
        affected_clients: affected,
        first_seen: events[first].ts.as_micros(),
        last_seen: events[last].ts.as_micros(),
        confidence,
        confidence_reason: reason,
        causal_chain: Vec::new(),
    };
    proof {
        assert(c@.causal_chain =~= Seq::<ChainStepView>::empty());
        assert(c@ == unreachable_cause(evs).unwrap());
    }
    Some(c)
}

// ── IP conflict ─────────────────────────────────────────────────────────────

/// Whether an event reports an address conflict.
pub open spec fn is_ip_conflict(e: EventView) -> bool {
    e is IpConflict
}

/// The address an address-conflict event names.
pub open spec fn conflict_ip(e: EventView) -> Seq<char> {
    match e {
        EventView::IpConflict { conflicting_ip, .. } => conflicting_ip,
        _ => Seq::empty(),
    }
}

/// The evidence line for an address conflict.
pub open spec fn ip_conflict_evidence(t: TimedEventView) -> EvidenceView {
    match t.event {
        EventView::IpConflict { conflicting_ip, mac_a, mac_b, server_ip, .. } => EvidenceView {
            ts: ts_us(t),
            event_type: "IpConflict"@,
            description: "IP "@ + conflicting_ip + " assigned to both "@ + mac_a + " and "@ + mac_b + " by server "@
                + server_ip,
        },
        _ => EvidenceView { ts: ts_us(t), event_type: Seq::empty(), description: Seq::empty() },
    }
}

/// The address-conflict root cause of a timeline, if it reports any address
/// conflict. Its affected entries are the distinct conflicting addresses.
pub open spec fn ip_conflict_cause(evs: Seq<TimedEventView>) -> Option<RootCauseView> {
    let ic = select(evs, |e: EventView| is_ip_conflict(e));
    if ic.len() == 0 {
        None
    } else {
        let ips = distinct(ic.map_values(|t: TimedEventView| conflict_ip(t.event)));
        Some(RootCauseView {
            kind: RootCauseKind::IpConflict,
            severity: RootCauseSeverity::Critical,
            headline: "IP address conflict — "@ + dec_text(ips.len()) + " address(es) assigned to multiple clients"@,
            impact: "Duplicate IP causes ARP conflicts. Both clients lose connectivity intermittently. May corrupt ARP caches network-wide."@,
            remediation: "Run `show ip dhcp conflict` on server to see flagged addresses. Clear with `clear ip dhcp conflict <ip>`. Check for static assignments overlapping pool. Review pool ranges and exclusions."@,
            evidence: ic.map_values(|t: TimedEventView| ip_conflict_evidence(t)),
            secondary_effects: seq![
                "ARP cache poisoning on local segment"@,
                "Packet loss for both conflicting clients"@,
                "Intermittent connectivity for entire subnet"@,
            ],
            affected_clients: ips,
            first_seen: ts_us(ic[0]),
            last_seen: ts_us(ic.last()),
            confidence: 95,
            confidence_reason: "Server sent ACK for same IP to two different MAC addresses within capture window."@,
            causal_chain: Seq::empty(),
        })
    }
}

/// Address conflicts: one address acknowledged to two different clients.
fn detect_ip_conflict(events: &[TimedEvent]) -> (r: Option<RootCause>)
    ensures
        cause_opt_view(r) == ip_conflict_cause(timed_view(events@)),
{
    let ghost evs = timed_view(events@);
    let ghost p = |e: EventView| is_ip_conflict(e);
    let ghost fe = |t: TimedEventView| ip_conflict_evidence(t);
    let ghost fi = |t: TimedEventView| conflict_ip(t.event);
    let mut ips: Vec<String> = Vec::new();
    let mut evidence: Vec<EvidenceRef> = Vec::new();
    let mut count: usize = 0;
    let mut first: usize = 0;
    let mut last: usize = 0;
    let mut i: usize = 0;
    while i < events.len()
        invariant
            evs == timed_view(events@),
            p == (|e: EventView| is_ip_conflict(e)),
            fe == (|t: TimedEventView| ip_conflict_evidence(t)),
            fi == (|t: TimedEventView| conflict_ip(t.event)),
            i <= events@.len(),
            count == select(evs.take(i as int), p).len(),
            strings_view(ips@) == distinct(select(evs.take(i as int), p).map_values(fi)),
            evidence@.map_values(|e: EvidenceRef| e@) == select(evs.take(i as int), p).map_values(fe),
            count > 0 ==> first < events@.len() && evs[first as int] == select(evs.take(i as int), p)[0],
            count > 0 ==> last < events@.len() && evs[last as int] == select(evs.take(i as int), p).last(),
        decreases events@.len() - i,
    {
        proof {
            lemma_select_step(evs, i as int, p);
            lemma_select_len(evs.take(i as int), p);
        }
        let ghost sel = select(evs.take(i as int), p);
        let te = &events[i];
        assert(evs[i as int] == te@);
        match &te.event {
            DhcpEvent::IpConflict { conflicting_ip, mac_a, mac_b, server_ip, .. } => {
                assert(sel.push(te@).map_values(fi).drop_last() =~= sel.map_values(fi));
                add_distinct(&mut ips, conflicting_ip.clone());
                let mut d = String::new();
                push_str(&mut d, "IP ");
                push_string(&mut d, conflicting_ip);
                push_str(&mut d, " assigned to both ");
                push_string(&mut d, mac_a);
                push_str(&mut d, " and ");
                push_string(&mut d, mac_b);
                push_str(&mut d, " by server ");
                push_string(&mut d, server_ip);
                let ev = EvidenceRef { ts: te.ts.as_micros(), event_type: text("IpConflict"), description: d };
                let ghost before = evidence@;
                evidence.push(ev);
                assert(ev@ == fe(te@));
                assert(evidence@.map_values(|e: EvidenceRef| e@) =~= before.map_values(|e: EvidenceRef| e@).push(ev@));
                assert(sel.push(te@).map_values(fe) =~= sel.map_values(fe).push(fe(te@)));
                if count == 0 {
                    first = i;
                }
                last = i;
                count += 1;
            },
            _ => {},
        }
        i += 1;
    }
    proof {
        lemma_take_all(evs);
    }
    if count == 0 {
        return None;
    }
    let mut headline = String::new();
    push_str(&mut headline, "IP address conflict — ");
    push_dec(&mut headline, ips.len() as u64);
    push_str(&mut headline, " address(es) assigned to multiple clients");
    let c = RootCause {
        kind: RootCauseKind::IpConflict,
        severity: RootCauseSeverity::Critical,
        headline,
        impact: text("Duplicate IP causes ARP conflicts. Both clients lose connectivity intermittently. May corrupt ARP caches network-wide."),
        remediation: text("Run `show ip dhcp conflict` on server to see flagged addresses. Clear with `clear ip dhcp conflict <ip>`. Check for static assignments overlapping pool. Review pool ranges and exclusions."),
        evidence,
        secondary_effects: strings3(
            "ARP cache poisoning on local segment",
            "Packet loss for both conflicting clients",
            "Intermittent connectivity for entire subnet",
        ),
        affected_clients: ips,
        first_seen: events[first].ts.as_micros(),
        last_seen: events[last].ts.as_micros(),
        confidence: 95,
        confidence_reason: text("Server sent ACK for same IP to two different MAC addresses within capture window."),
        causal_chain: Vec::new(),
    };
    proof {
        assert(c@.causal_chain =~= Seq::<ChainStepView>::empty());
        assert(c@ == ip_conflict_cause(evs).unwrap());
    }
    Some(c)
}


// ── NAK storm ───────────────────────────────────────────────────────────────

/// Whether an event reports a NAK.
pub open spec fn is_nak(e: EventView) -> bool {
    e is NakReceived
}

/// The index of `mac`'s group, if any.
pub open spec fn group_index(g: Seq<(Seq<char>, Seq<u64>)>, mac: Seq<char>) -> Option<int> {
    if exists|i: int| 0 <= i < g.len() && g[i].0 == mac {
        Some(choose|i: int| 0 <= i < g.len() && g[i].0 == mac)
    } else {
        None
    }
}

/// No two groups share a client.
pub open spec fn groups_distinct(g: Seq<(Seq<char>, Seq<u64>)>) -> bool {
    forall|i: int, j: int| 0 <= i < g.len() && 0 <= j < g.len() && i != j ==> g[i].0 != g[j].0
}

/// `g` with time `t` added to `mac`'s group (a new group at the end if none).
pub open spec fn group_add(g: Seq<(Seq<char>, Seq<u64>)>, mac: Seq<char>, t: u64) -> Seq<(Seq<char>, Seq<u64>)> {
    match group_index(g, mac) {
        Some(i) => g.update(i, (mac, g[i].1.push(t))),
        None => g.push((mac, seq![t])),
    }
}

/// NAK times grouped by client, clients in order of their first NAK.
pub open spec fn nak_groups(evs: Seq<TimedEventView>) -> Seq<(Seq<char>, Seq<u64>)>
    decreases evs.len(),
{
    if evs.len() == 0 {
        Seq::empty()
    } else {
        let g = nak_groups(evs.drop_last());
        let e = evs.last();
        if is_nak(e.event) { group_add(g, event_client(e.event), ts_us(e)) } else { g }
    }
}

/// The groups with at least three NAKs, in order.
pub open spec fn storm_groups(g: Seq<(Seq<char>, Seq<u64>)>) -> Seq<(Seq<char>, Seq<u64>)>
    decreases g.len(),
{
    if g.len() == 0 {
        Seq::empty()
    } else {
        let r = storm_groups(g.drop_last());
        if g.last().1.len() >= 3 { r.push(g.last()) } else { r }
    }
}

/// All times of a list of groups, group by group.
pub open spec fn all_times(g: Seq<(Seq<char>, Seq<u64>)>) -> Seq<u64>
    decreases g.len(),
{
    if g.len() == 0 {
        Seq::empty()
    } else {
        all_times(g.drop_last()) + g.last().1
    }
}

/// The smallest of a sequence of times (`u64::MAX` when empty).
pub open spec fn min_u64(s: Seq<u64>) -> u64
    decreases s.len(),
{
    if s.len() == 0 {
        u64::MAX
    } else {
        let m = min_u64(s.drop_last());
        if s.last() < m { s.last() } else { m }
    }
}

/// The evidence line for a client stuck in a NAK loop.
pub open spec fn storm_evidence(g: (Seq<char>, Seq<u64>)) -> EvidenceView {
    EvidenceView {
        ts: g.1[0],
        event_type: "NakStorm"@,
        description: "Client "@ + g.0 + " received "@ + dec_text(g.1.len()) + " NAK responses — stuck in Discover→Request→NAK loop"@,
    }
}

/// The NAK-storm root cause of a timeline: clients with three or more NAKs.
pub open spec fn nak_storm_cause(evs: Seq<TimedEventView>) -> Option<RootCauseView> {
    let storm = storm_groups(nak_groups(evs));
    if storm.len() == 0 {
        None
    } else {
        Some(RootCauseView {
            kind: RootCauseKind::NakStorm,
            severity: RootCauseSeverity::Warning,
            headline: "NAK storm — "@ + dec_text(storm.len()) + " client(s) in repetitive NAK loop"@,
            impact: "Clients cannot obtain IP. Repeated NAK causes exponential backoff, degrading responsiveness."@,
            remediation: "Check if client is requesting IP from wrong subnet (after network change). Verify server pool range. Check for stale lease entries on server."@,
            evidence: storm.map_values(|g: (Seq<char>, Seq<u64>)| storm_evidence(g)),
            secondary_effects: seq!["Client connectivity loss"@, "Increased DHCP broadcast traffic"@],
            affected_clients: storm.map_values(|g: (Seq<char>, Seq<u64>)| g.0),
            first_seen: min_u64(all_times(storm)),
            last_seen: max_u64(all_times(storm)),
            confidence: 80,
            confidence_reason: "3+ consecutive NAK responses to same client MAC observed."@,
            causal_chain: Seq::empty(),
        })
    }
}

/// The view of a list of NAK groups.
pub open spec fn groups_view(v: Seq<(String, Vec<u64>)>) -> Seq<(Seq<char>, Seq<u64>)> {
    v.map_values(|g: (String, Vec<u64>)| (g.0@, g.1@))
}

/// The index of `mac`'s group, if any.
fn find_group(groups: &Vec<(String, Vec<u64>)>, mac: &String) -> (r: Option<usize>)
    requires
        groups_distinct(groups_view(groups@)),
    ensures
        group_index(groups_view(groups@), mac@) == (match r {
            Some(i) => Some(i as int),
            None => None::<int>,
        }),
        r matches Some(i) ==> i < groups@.len(),
{
    let ghost gv = groups_view(groups@);
    let mut j: usize = 0;
    while j < groups.len()
        invariant
            gv == groups_view(groups@),
            groups_distinct(gv),
            j <= groups@.len(),
            forall|k: int| 0 <= k < j ==> groups@[k].0@ != mac@,
        decreases groups@.len() - j,
    {
        if groups[j].0.eq(mac) {
            assert(gv[j as int].0 == mac@);
            assert(group_index(gv, mac@) == Some(j as int));
            return Some(j);
        }
        j += 1;
    }
    assert forall|k: int| 0 <= k < gv.len() implies gv[k].0 != mac@ by {
        assert(gv[k].0 == groups@[k].0@);
    }
    None
}

/// Groups NAK times by client.
fn group_naks(events: &[TimedEvent]) -> (r: Vec<(String, Vec<u64>)>)
    ensures
        groups_view(r@) == nak_groups(timed_view(events@)),
        forall|k: int| 0 <= k < r@.len() ==> r@[k].1@.len() > 0,
{
    let ghost evs = timed_view(events@);
    let mut groups: Vec<(String, Vec<u64>)> = Vec::new();
    let mut i: usize = 0;
    while i < events.len()
        invariant
            evs == timed_view(events@),
            i <= events@.len(),
            groups_view(groups@) == nak_groups(evs.take(i as int)),
            groups_distinct(groups_view(groups@)),
            forall|k: int| 0 <= k < groups@.len() ==> groups@[k].1@.len() > 0,
        decreases events@.len() - i,
    {
        let te = &events[i];
        assert(evs[i as int] == te@);
        assert(evs.take(i as int + 1).drop_last() =~= evs.take(i as int));
        assert(evs.take(i as int + 1).last() == te@);
        match &te.event {
            DhcpEvent::NakReceived { client_mac, .. } => {
                let t = te.ts.as_micros();
                let ghost gv = groups_view(groups@);
                let found = find_group(&groups, client_mac);
                if let Some(j) = found {
                    groups[j].1.push(t);
                    assert(groups_view(groups@) =~= gv.update(j as int, (client_mac@, gv[j as int].1.push(t))));
                } else {
                    let mut ts_list: Vec<u64> = Vec::new();
                    ts_list.push(t);
                    groups.push((client_mac.clone(), ts_list));
                    assert(groups_view(groups@) =~= gv.push((client_mac@, seq![t])));
                }
            },
            _ => {},
        }
        i += 1;
    }
    assert(evs.take(events@.len() as int) =~= evs);
    groups
}

/// NAK storm: clients that received three or more NAKs.
fn detect_nak_storm(events: &[TimedEvent]) -> (r: Option<RootCause>)
    ensures
        cause_opt_view(r) == nak_storm_cause(timed_view(events@)),
{
    let ghost evs = timed_view(events@);
    let mut groups = group_naks(events);
    let ghost gv = groups_view(groups@);
    // Keep the groups with three or more NAKs, in order.
    let mut storm: Vec<(String, Vec<u64>)> = Vec::new();
    let ghost mut consumed: int = 0;
    while groups.len() > 0
        invariant
            gv == nak_groups(evs),
            0 <= consumed <= gv.len(),
            groups_view(groups@) == gv.subrange(consumed, gv.len() as int),
            groups_view(storm@) == storm_groups(gv.take(consumed)),
            forall|k: int| 0 <= k < groups@.len() ==> groups@[k].1@.len() > 0,
            forall|k: int| 0 <= k < storm@.len() ==> storm@[k].1@.len() >= 3,
        decreases groups@.len(),
    {
        assert(groups_view(groups@).len() == groups@.len());
        let ghost pre = groups@;
        assert(groups_view(pre)[0] == gv.subrange(consumed, gv.len() as int)[0]);
        let g = groups.remove(0);
        proof {
            assert(g == pre[0]);
            assert(groups_view(groups@) =~= groups_view(pre).subrange(1, pre.len() as int));
            assert(gv.take(consumed + 1).drop_last() =~= gv.take(consumed));
            assert(gv.take(consumed + 1).last() == gv[consumed]);
            assert(gv[consumed] == (g.0@, g.1@));
        }
        let ghost before = storm@;
        if g.1.len() >= 3 {
            storm.push(g);
            assert(groups_view(storm@) =~= groups_view(before).push(gv[consumed]));
        }
        proof {
            consumed = consumed + 1;
            assert(groups_view(groups@) =~= gv.subrange(consumed, gv.len() as int));
        }
    }
    proof {
        assert(groups_view(groups@).len() == groups@.len());
        assert(consumed == gv.len());
        assert(gv.take(gv.len() as int) =~= gv);
    }
    let ghost sv = groups_view(storm@);
    if storm.len() == 0 {
        return None;
    }
    // Earliest and latest NAK among the storm clients.
    let mut first_seen: u64 = u64::MAX;
    let mut last_seen: u64 = 0;
    let mut affected: Vec<String> = Vec::new();
    let mut evidence: Vec<EvidenceRef> = Vec::new();
    let mut k: usize = 0;
    while k < storm.len()
        invariant
            sv == groups_view(storm@),
            forall|m: int| 0 <= m < storm@.len() ==> storm@[m].1@.len() >= 3,
            k <= storm@.len(),
            first_seen == min_u64(all_times(sv.take(k as int))),
            last_seen == max_u64(all_times(sv.take(k as int))),
            strings_view(affected@) == sv.take(k as int).map_values(|g: (Seq<char>, Seq<u64>)| g.0),
            evidence@.map_values(|e: EvidenceRef| e@) == sv.take(k as int).map_values(
                |g: (Seq<char>, Seq<u64>)| storm_evidence(g),
            ),
        decreases storm@.len() - k,
    {
        let ghost prefix = all_times(sv.take(k as int));
        let ghost cur = sv[k as int];
        assert(sv.take(k as int + 1).drop_last() =~= sv.take(k as int));
        assert(sv.take(k as int + 1).last() == cur);
        assert(cur.1 == storm@[k as int].1@);
        let mut j: usize = 0;
        while j < storm[k].1.len()
            invariant
                sv == groups_view(storm@),
                k < storm@.len(),
                cur == sv[k as int],
                cur.1 == storm@[k as int].1@,
                j <= cur.1.len(),
                first_seen == min_u64(prefix + cur.1.take(j as int)),
                last_seen == max_u64(prefix + cur.1.take(j as int)),
            decreases cur.1.len() - j,
        {
            let t = storm[k].1[j];
            assert((prefix + cur.1.take(j as int + 1)).drop_last() =~= prefix + cur.1.take(j as int));
            assert((prefix + cur.1.take(j as int + 1)).last() == t);
            if t < first_seen {
                first_seen = t;
            }
            if t > last_seen {
                last_seen = t;
            }
            j += 1;
        }
        assert(cur.1.take(cur.1.len() as int) =~= cur.1);
        assert(all_times(sv.take(k as int + 1)) == prefix + cur.1);
        let mac = storm[k].0.clone();
        let n = storm[k].1.len();
        let t0 = storm[k].1[0];
        let mut d = String::new();
        push_str(&mut d, "Client ");
        push_string(&mut d, &mac);
        push_str(&mut d, " received ");
        push_dec(&mut d, n as u64);
        push_str(&mut d, " NAK responses — stuck in Discover→Request→NAK loop");
        let ev = EvidenceRef { ts: t0, event_type: text("NakStorm"), description: d };
        let ghost before_e = evidence@;
        let ghost before_a = affected@;
        evidence.push(ev);
        affected.push(mac);
        proof {
            assert(ev@ == storm_evidence(cur));
            assert(evidence@.map_values(|e: EvidenceRef| e@) =~= before_e.map_values(|e: EvidenceRef| e@).push(ev@));
            assert(sv.take(k as int + 1).map_values(|g: (Seq<char>, Seq<u64>)| storm_evidence(g)) =~= sv.take(
                k as int,
            ).map_values(|g: (Seq<char>, Seq<u64>)| storm_evidence(g)).push(storm_evidence(cur)));
            assert(strings_view(affected@) =~= strings_view(before_a).push(cur.0));
            assert(sv.take(k as int + 1).map_values(|g: (Seq<char>, Seq<u64>)| g.0) =~= sv.take(k as int).map_values(
                |g: (Seq<char>, Seq<u64>)| g.0,
            ).push(cur.0));
        }
        k += 1;
    }
    assert(sv.take(storm@.len() as int) =~= sv);
    let mut headline = String::new();
    push_str(&mut headline, "NAK storm — ");
    push_dec(&mut headline, affected.len() as u64);
    push_str(&mut headline, " client(s) in repetitive NAK loop");
    let c = RootCause {
        kind: RootCauseKind::NakStorm,
        severity: RootCauseSeverity::Warning,
        headline,
        impact: text("Clients cannot obtain IP. Repeated NAK causes exponential backoff, degrading responsiveness."),
        remediation: text("Check if client is requesting IP from wrong subnet (after network change). Verify server pool range. Check for stale lease entries on server."),
        evidence,
        secondary_effects: strings2("Client connectivity loss", "Increased DHCP broadcast traffic"),
        affected_clients: affected,
        first_seen,
        last_seen,
        confidence: 80,
        confidence_reason: text("3+ consecutive NAK responses to same client MAC observed."),
        causal_chain: Vec::new(),
    };
    proof {
        assert(c@.causal_chain =~= Seq::<ChainStepView>::empty());
        assert(c@ == nak_storm_cause(evs).unwrap());
    }
    Some(c)
}


// ── Stability, verdict, action plan ─────────────────────────────────────────

/// Warnings and critical events are anomalies.
pub open spec fn is_anomaly(s: Severity) -> bool {
    s == Severity::Warning || s == Severity::Critical
}

/// Whether an event is an anomaly in the last fifth of the span from `first`
/// to `last` (times in microseconds): `ts >= first + 0.8 * (last - first)`.
pub open spec fn late_anomaly(t: TimedEventView, first: int, last: int) -> bool {
    5 * t.ts.micros() >= first + 4 * last && is_anomaly(t.severity)
}

/// A timeline is stable when no anomaly falls in the last fifth of its span
/// (from its first to its last event); an empty timeline is stable.
pub open spec fn stable_spec(evs: Seq<TimedEventView>) -> bool {
    evs.len() == 0 || forall|i: int|
        0 <= i < evs.len() ==> !late_anomaly(evs[i], evs[0].ts.micros(), evs.last().ts.micros())
}

/// Whether the capture ended without anomalies in its last fifth.
fn assess_stability(events: &[TimedEvent]) -> (r: bool)
    ensures
        r == stable_spec(timed_view(events@)),
{
    let ghost evs = timed_view(events@);
    if events.len() == 0 {
        return true;
    }
    let first = events[0].ts.as_micros();
    let last = events[events.len() - 1].ts.as_micros();
    assert(evs[0] == events@[0]@);
    assert(evs.last() == events@[events@.len() - 1]@);
    let bound = first + 4 * last;
    let mut i: usize = 0;
    while i < events.len()
        invariant
            evs == timed_view(events@),
            evs.len() > 0,
            first == evs[0].ts.micros(),
            last == evs.last().ts.micros(),
            bound == first + 4 * last,
            i <= events@.len(),
            forall|j: int| 0 <= j < i ==> !late_anomaly(evs[j], first as int, last as int),
        decreases events@.len() - i,
    {
        let te = &events[i];
        assert(evs[i as int] == te@);
        let late = 5 * te.ts.as_micros() >= bound;
        let anomalous = match te.severity {
            Severity::Warning => true,
            Severity::Critical => true,
            Severity::Info => false,
        };
        if late && anomalous {
            assert(late_anomaly(evs[i as int], evs[0].ts.micros(), evs.last().ts.micros()));
            return false;
        }
        i += 1;
    }
    true
}

/// The causes of severity `sev`, in order.
pub open spec fn with_severity(c: Seq<RootCauseView>, sev: RootCauseSeverity) -> Seq<RootCauseView>
    decreases c.len(),
{
    if c.len() == 0 {
        Seq::empty()
    } else {
        let r = with_severity(c.drop_last(), sev);
        if c.last().severity == sev { r.push(c.last()) } else { r }
    }
}

/// The causes sorted from most to least severe, equal severities keeping their order.
pub open spec fn by_severity(c: Seq<RootCauseView>) -> Seq<RootCauseView> {
    with_severity(c, RootCauseSeverity::Critical) + with_severity(c, RootCauseSeverity::Warning) + with_severity(
        c,
        RootCauseSeverity::Info,
    )
}

/// The items of `s` separated by `sep`.
pub open spec fn join(s: Seq<Seq<char>>, sep: Seq<char>) -> Seq<char>
    decreases s.len(),
{
    if s.len() == 0 {
        Seq::empty()
    } else if s.len() == 1 {
        s[0]
    } else {
        join(s.drop_last(), sep) + sep + s.last()
    }
}

/// The titles of a list of causes.
pub open spec fn titles(c: Seq<RootCauseView>) -> Seq<Seq<char>> {
    c.map_values(|x: RootCauseView| kind_title(x.kind))
}

/// The verdict sentence: it names the critical causes when there are some, otherwise the warnings.
pub open spec fn verdict_spec(causes: Seq<RootCauseView>, stable: bool) -> Seq<char> {
    let crit = with_severity(causes, RootCauseSeverity::Critical);
    let warn = with_severity(causes, RootCauseSeverity::Warning);
    if causes.len() == 0 {
        "DHCP operating normally. No anomalies detected."@
    } else if crit.len() > 0 {
        dec_text(crit.len()) + " critical issue(s) detected: "@ + join(titles(crit), ", "@) + ". "@ + (if stable {
            "DHCP may have recovered by end of capture."@
        } else {
            "DHCP had NOT stabilized by end of capture."@
        })
    } else {
        dec_text(warn.len()) + " warning(s): "@ + join(titles(warn), ", "@) + ". "@ + (if stable {
            "Network stable."@
        } else {
            "Instability persisted."@
        })
    }
}

/// The action-plan line for a kind of cause (none for `Clean`).
pub open spec fn action_line(k: RootCauseKind) -> Seq<Seq<char>> {
    match k {
        RootCauseKind::RogueServer => seq!["1. URGENT: Locate and isolate rogue DHCP server — check `show ip dhcp server statistics` on all switches, enable DHCP snooping"@],
        RootCauseKind::Starvation => seq!["2. URGENT: DHCP starvation detected — enable DHCP snooping + rate limiting on access ports, investigate source MAC"@],
        RootCauseKind::IpConflict => seq!["3. Fix IP conflict — check DHCP pool for duplicate static assignments, verify exclusion ranges"@],
        RootCauseKind::LeaseConflict => seq!["4. Fix lease conflict — clear conflicting leases, check for static IP assignments overlapping DHCP pool"@],
        RootCauseKind::NakStorm => seq!["5. Investigate NAK storm — check client is requesting valid IP, verify server pool configuration"@],
        RootCauseKind::ServerUnreachable => seq!["6. Check DHCP server availability — verify UDP 67/68 reachability, check helper-address config on routers"@],
        RootCauseKind::Clean => Seq::empty(),
    }
}

/// The action lines of the causes, in order.
pub open spec fn action_lines(c: Seq<RootCauseView>) -> Seq<Seq<char>>
    decreases c.len(),
{
    if c.len() == 0 {
        Seq::empty()
    } else {
        action_lines(c.drop_last()) + action_line(c.last().kind)
    }
}

/// The action plan: one line per cause, or "No action required." when there is none.
pub open spec fn action_plan_spec(c: Seq<RootCauseView>) -> Seq<Seq<char>> {
    let lines = action_lines(c);
    if lines.len() == 0 { seq!["No action required."@] } else { lines }
}

/// The views of a list of causes.
pub open spec fn causes_view(v: Seq<RootCause>) -> Seq<RootCauseView> {
    v.map_values(|c: RootCause| c@)
}

/// Appends the titles of the causes of severity `sev`, separated by ", ".
fn push_titles(out: &mut String, causes: &Vec<RootCause>, sev: RootCauseSeverity)
    ensures
        final(out)@ == old(out)@ + join(titles(with_severity(causes_view(causes@), sev)), ", "@),
{
    let ghost cv = causes_view(causes@);
    let ghost start = out@;
    let mut n: usize = 0;
    let mut i: usize = 0;
    while i < causes.len()
        invariant
            cv == causes_view(causes@),
            i <= causes@.len(),
            n == with_severity(cv.take(i as int), sev).len(),
            n <= i,
            out@ == start + join(titles(with_severity(cv.take(i as int), sev)), ", "@),
        decreases causes@.len() - i,
    {
        let ghost w = with_severity(cv.take(i as int), sev);
        assert(cv.take(i as int + 1).drop_last() =~= cv.take(i as int));
        assert(cv.take(i as int + 1).last() == causes@[i as int]@);
        if causes[i].severity == sev {
            let ghost w2 = w.push(cv[i as int]);
            assert(titles(w2).drop_last() =~= titles(w));
            assert(titles(w2).last() == kind_title(causes@[i as int].kind));
            if n > 0 {
                push_str(out, ", ");
            }
            push_str(out, causes[i].kind.title());
            proof {
                if n > 0 {
                    assert(out@ =~= start + (join(titles(w), ", "@) + ", "@ + titles(w2).last()));
                } else {
                    assert(titles(w2).len() == 1);
                    assert(out@ =~= start + titles(w2)[0]);
                }
            }
            n += 1;
        }
        i += 1;
    }
    assert(cv.take(causes@.len() as int) =~= cv);
}

/// The number of causes of severity `sev`.
fn count_severity(causes: &Vec<RootCause>, sev: RootCauseSeverity) -> (n: usize)
    ensures
        n == with_severity(causes_view(causes@), sev).len(),
{
    let ghost cv = causes_view(causes@);
    let mut n: usize = 0;
    let mut i: usize = 0;
    while i < causes.len()
        invariant
            cv == causes_view(causes@),
            i <= causes@.len(),
            n == with_severity(cv.take(i as int), sev).len(),
            n <= i,
        decreases causes@.len() - i,
    {
        assert(cv.take(i as int + 1).drop_last() =~= cv.take(i as int));
        assert(cv.take(i as int + 1).last() == causes@[i as int]@);
        if causes[i].severity == sev {
            n += 1;
        }
        i += 1;
    }
    assert(cv.take(causes@.len() as int) =~= cv);
    n
}

/// The one-line verdict for sorted causes.
fn build_verdict(causes: &Vec<RootCause>, stable: bool) -> (r: String)
    ensures
        r@ == verdict_spec(causes_view(causes@), stable),
{
    if causes.len() == 0 {
        return text("DHCP operating normally. No anomalies detected.");
    }
    let critical = count_severity(causes, RootCauseSeverity::Critical);
    let mut s = String::new();
    if critical > 0 {
        push_dec(&mut s, critical as u64);
        push_str(&mut s, " critical issue(s) detected: ");
        push_titles(&mut s, causes, RootCauseSeverity::Critical);
        push_str(&mut s, ". ");
        if stable {
            push_str(&mut s, "DHCP may have recovered by end of capture.");
        } else {
            push_str(&mut s, "DHCP had NOT stabilized by end of capture.");
        }
    } else {
        let warnings = count_severity(causes, RootCauseSeverity::Warning);
        push_dec(&mut s, warnings as u64);
        push_str(&mut s, " warning(s): ");
        push_titles(&mut s, causes, RootCauseSeverity::Warning);
        push_str(&mut s, ". ");
        if stable {
            push_str(&mut s, "Network stable.");
        } else {
            push_str(&mut s, "Instability persisted.");
        }
    }
    assert(s@ =~= verdict_spec(causes_view(causes@), stable));
    s
}

/// The action plan for sorted causes.
fn build_action_plan(causes: &Vec<RootCause>) -> (r: Vec<String>)
    ensures
        strings_view(r@) == action_plan_spec(causes_view(causes@)),
{
    let ghost cv = causes_view(causes@);
    let mut plan: Vec<String> = Vec::new();
    let mut i: usize = 0;
    while i < causes.len()
        invariant
            cv == causes_view(causes@),
            i <= causes@.len(),
            strings_view(plan@) == action_lines(cv.take(i as int)),
        decreases causes@.len() - i,
    {
        assert(cv.take(i as int + 1).drop_last() =~= cv.take(i as int));
        assert(cv.take(i as int + 1).last() == causes@[i as int]@);
        let ghost before = plan@;
        let line: Option<&str> = match causes[i].kind {
            RootCauseKind::RogueServer => Some("1. URGENT: Locate and isolate rogue DHCP server — check `show ip dhcp server statistics` on all switches, enable DHCP snooping"),
            RootCauseKind::Starvation => Some("2. URGENT: DHCP starvation detected — enable DHCP snooping + rate limiting on access ports, investigate source MAC"),
            RootCauseKind::IpConflict => Some("3. Fix IP conflict — check DHCP pool for duplicate static assignments, verify exclusion ranges"),
            RootCauseKind::LeaseConflict => Some("4. Fix lease conflict — clear conflicting leases, check for static IP assignments overlapping DHCP pool"),
            RootCauseKind::NakStorm => Some("5. Investigate NAK storm — check client is requesting valid IP, verify server pool configuration"),
            RootCauseKind::ServerUnreachable => Some("6. Check DHCP server availability — verify UDP 67/68 reachability, check helper-address config on routers"),
            RootCauseKind::Clean => None,
        };
        match line {
            Some(l) => {
                plan.push(text(l));
                assert(action_line(causes@[i as int].kind) =~= seq![l@]);
                assert(strings_view(plan@) =~= strings_view(before) + seq![l@]);
            },
            None => {
                assert(action_line(causes@[i as int].kind) =~= Seq::<Seq<char>>::empty());
                assert(strings_view(plan@) =~= strings_view(before) + Seq::<Seq<char>>::empty());
            },
        }
        i += 1;
    }
    assert(cv.take(causes@.len() as int) =~= cv);
    if plan.len() == 0 {
        plan.push(text("No action required."));
        assert(strings_view(plan@) =~= seq!["No action required."@]);
    }
    plan
}


// ── Correlation ─────────────────────────────────────────────────────────────

/// Sorts causes from most to least severe, keeping the order of equal severities.
fn sort_by_severity(causes: Vec<RootCause>) -> (r: Vec<RootCause>)
    ensures
        causes_view(r@) == by_severity(causes_view(causes@)),
{
    let ghost cv = causes_view(causes@);
    let mut rest = causes;
    let mut critical: Vec<RootCause> = Vec::new();
    let mut warning: Vec<RootCause> = Vec::new();
    let mut info: Vec<RootCause> = Vec::new();
    let ghost mut done: int = 0;
    while rest.len() > 0
        invariant
            0 <= done <= cv.len(),
            causes_view(rest@) == cv.subrange(done, cv.len() as int),
            causes_view(critical@) == with_severity(cv.take(done), RootCauseSeverity::Critical),
            causes_view(warning@) == with_severity(cv.take(done), RootCauseSeverity::Warning),
            causes_view(info@) == with_severity(cv.take(done), RootCauseSeverity::Info),
        decreases rest@.len(),
    {
        assert(causes_view(rest@).len() == rest@.len());
        let ghost pre = rest@;
        assert(causes_view(pre)[0] == cv.subrange(done, cv.len() as int)[0]);
        let c = rest.remove(0);
        proof {
            assert(c == pre[0]);
            assert(causes_view(rest@) =~= causes_view(pre).subrange(1, pre.len() as int));
            assert(cv.take(done + 1).drop_last() =~= cv.take(done));
            assert(cv.take(done + 1).last() == c@);
        }
        let ghost (bc, bw, bi) = (critical@, warning@, info@);
        match c.severity {
            RootCauseSeverity::Critical => {
                critical.push(c);
                assert(causes_view(critical@) =~= causes_view(bc).push(c@));
            },
            RootCauseSeverity::Warning => {
                warning.push(c);
                assert(causes_view(warning@) =~= causes_view(bw).push(c@));
            },
            RootCauseSeverity::Info => {
                info.push(c);
                assert(causes_view(info@) =~= causes_view(bi).push(c@));
            },
        }
        proof {
            done = done + 1;
            assert(causes_view(rest@) =~= cv.subrange(done, cv.len() as int));
        }
    }
    proof {
        assert(causes_view(rest@).len() == rest@.len());
        assert(done == cv.len());
        assert(cv.take(done) =~= cv);
    }
    let ghost (bc, bw, bi) = (critical@, warning@, info@);
    let mut out = critical;
    out.append(&mut warning);
    out.append(&mut info);
    assert(causes_view(out@) =~= causes_view(bc) + causes_view(bw) + causes_view(bi));
    out
}

/// The report when no cause was found.
pub open spec fn clean_cause() -> RootCauseView {
    RootCauseView {
        kind: RootCauseKind::Clean,
        severity: RootCauseSeverity::Info,
        headline: "DHCP operating normally"@,
        impact: "All leases acquired via clean DORA exchange. No anomalies detected."@,
        remediation: "No action required."@,
        evidence: Seq::empty(),
        secondary_effects: Seq::empty(),
        affected_clients: Seq::empty(),
        first_seen: 0,
        last_seen: 0,
        confidence: 90,
        confidence_reason: "No anomalous patterns detected across full capture window."@,
        causal_chain: Seq::empty(),
    }
}

/// An optional cause as a sequence of zero or one causes.
pub open spec fn opt_seq(c: Option<RootCauseView>) -> Seq<RootCauseView> {
    match c {
        Some(x) => seq![x],
        None => Seq::empty(),
    }
}

/// The causes detected in a timeline, in detector order: rogue server,
/// starvation, lease conflict, NAK storm, server unreachable, address conflict.
pub open spec fn detected_causes(evs: Seq<TimedEventView>) -> Seq<RootCauseView> {
    opt_seq(rogue_cause(evs)) + opt_seq(starvation_cause(evs)) + opt_seq(lease_conflict_cause(evs)) + opt_seq(
        nak_storm_cause(evs),
    ) + opt_seq(unreachable_cause(evs)) + opt_seq(ip_conflict_cause(evs))
}

/// The correlation report of a timeline: the detected causes sorted from most
/// to least severe (or the single "clean" cause when none was detected), the
/// stability assessment, and the verdict and action plan for the detected causes.
pub open spec fn correlate_spec(evs: Seq<TimedEventView>) -> ReportView {
    let sorted = by_severity(detected_causes(evs));
    let stable = stable_spec(evs);
    ReportView {
        causes: if sorted.len() == 0 { seq![clean_cause()] } else { sorted },
        verdict: verdict_spec(sorted, stable),
        stable,
        action_plan: action_plan_spec(sorted),
    }
}

/// Appends a detected cause, if any.
fn push_cause(v: &mut Vec<RootCause>, c: Option<RootCause>)
    ensures
        causes_view(final(v)@) == causes_view(old(v)@) + opt_seq(cause_opt_view(c)),
{
    let ghost before = v@;
    match c {
        Some(x) => {
            v.push(x);
            assert(causes_view(v@) =~= causes_view(before) + seq![x@]);
        },
        None => {
            assert(causes_view(v@) =~= causes_view(before) + Seq::<RootCauseView>::empty());
        },
    }
}

/// Correlates the event timeline into root causes, a verdict and an action plan.
pub fn correlate(events: &[TimedEvent]) -> (r: RootCauseReport)
    ensures
        r@ == correlate_spec(timed_view(events@)),
{
    let ghost evs = timed_view(events@);
    let mut causes: Vec<RootCause> = Vec::new();
    push_cause(&mut causes, detect_rogue_server(events));
    push_cause(&mut causes, detect_starvation(events));
    push_cause(&mut causes, detect_lease_conflict(events));
    push_cause(&mut causes, detect_nak_storm(events));
    push_cause(&mut causes, detect_server_unreachable(events));
    push_cause(&mut causes, detect_ip_conflict(events));
    assert(causes_view(causes@) =~= detected_causes(evs));
    let mut causes = sort_by_severity(causes);
    let stable = assess_stability(events);
    let verdict = build_verdict(&causes, stable);
    let action_plan = build_action_plan(&causes);
    let ghost sorted = causes_view(causes@);
    if causes.len() == 0 {
        causes.push(
            RootCause {
                kind: RootCauseKind::Clean,
                severity: RootCauseSeverity::Info,
                headline: text("DHCP operating normally"),
                impact: text("All leases acquired via clean DORA exchange. No anomalies detected."),
                remediation: text("No action required."),
                evidence: Vec::new(),
                secondary_effects: Vec::new(),
                affected_clients: Vec::new(),
                first_seen: 0,
                last_seen: 0,
                confidence: 90,
                confidence_reason: text("No anomalous patterns detected across full capture window."),
                causal_chain: Vec::new(),
            },
        );
        proof {
            let c = causes@[0];
            assert(c@.evidence =~= Seq::<EvidenceView>::empty());
            assert(c@.secondary_effects =~= Seq::<Seq<char>>::empty());
            assert(c@.affected_clients =~= Seq::<Seq<char>>::empty());
            assert(c@.causal_chain =~= Seq::<ChainStepView>::empty());
            assert(causes_view(causes@) =~= seq![clean_cause()]);
        }
    }
    let r = RootCauseReport { causes, verdict, stable, action_plan };
    assert(r@ == correlate_spec(evs));
    r
}

} // verus!
