//! Properties of the parser, the analyzer and the correlator that hold for
//! all inputs, stated over the specifications the functions are proved against.

use vstd::prelude::*;
use crate::analyzer::{
    AnalyzerView, DhcpClientState, EventView, Severity, TimedEventView, severity_of, Timestamp, TxView, ack_step, lease_drop,
    lease_holder, lease_index, lease_put, leases_distinct, process_spec, seq_add, server_or, state_wf, timed_out,
    timeout_event, timeouts, tx_index, txs_distinct, zero_ip,
};
use crate::dhcp::{
    DhcpMessageType, OptionsView, PacketView, apply_option, msg_type_of, no_options, options_of, scan_options,
};
use crate::capture::{CapturedView, count_anomalies, discovered_clients, last_ts_of, run, stamp_all, summary_spec, timeline};
use crate::text::{dec_text, hex_char, ip_text, mac_text};
use crate::root_cause::{
    RootCauseKind, RootCauseSeverity, RootCauseView, by_severity, clean_cause, correlate_spec, detected_causes,
    with_severity, select, nak_groups, storm_groups, is_rogue, is_flood, is_lease_conflict, is_nak, is_timeout,
    is_ip_conflict, rogue_cause, starvation_cause, lease_conflict_cause, nak_storm_cause, unreachable_cause,
    ip_conflict_cause, opt_seq, stable_spec, late_anomaly, lemma_select_len, distinct, clients_of, event_client, conflict_ip,
};

verus! {

// ── Options ─────────────────────────────────────────────────────────────────

/// Scanning `prefix + data` from inside `data` is scanning `data`.
proof fn lemma_scan_shift(prefix: Seq<u8>, data: Seq<u8>, i: nat, acc: OptionsView)
    ensures
        scan_options(prefix + data, prefix.len() + i, acc) == scan_options(data, i, acc),
    decreases data.len() - i,
{
    let whole = prefix + data;
    let ii = i as int;
    let jj = prefix.len() + ii;
    if i < data.len() {
        assert(whole[jj] == data[ii]);
        if data[ii] != 255 && data[ii] != 0 {
            if ii + 1 < data.len() {
                assert(whole[jj + 1] == data[ii + 1]);
                let len = data[ii + 1] as int;
                if ii + 2 + len <= data.len() {
                    assert(whole.subrange(jj + 2, jj + 2 + len) =~= data.subrange(ii + 2, ii + 2 + len));
                    lemma_scan_shift(
                        prefix,
                        data,
                        (ii + 2 + len) as nat,
                        apply_option(acc, data[ii], data.subrange(ii + 2, ii + 2 + len)),
                    );
                }
            }
        } else if data[ii] == 0 {
            lemma_scan_shift(prefix, data, i + 1, acc);
        }
    }
}

/// Pad options (code 0) in front of the options area change nothing.
pub proof fn law_leading_pads_ignored(pads: nat, data: Seq<u8>)
    ensures
        options_of(Seq::new(pads, |k: int| 0u8) + data) == options_of(data),
    decreases pads,
{
    let p = Seq::new(pads, |k: int| 0u8);
    lemma_scan_shift(p, data, 0, no_options());
    assert(p.len() + 0 == pads);
    lemma_pads_skip(p, data, 0);
}

/// From inside a run of pads, the scan continues after the run.
proof fn lemma_pads_skip(p: Seq<u8>, data: Seq<u8>, i: nat)
    requires
        i <= p.len(),
        forall|k: int| 0 <= k < p.len() ==> p[k] == 0u8,
    ensures
        scan_options(p + data, i, no_options()) == scan_options(
            p + data,
            p.len(),
            no_options(),
        ),
    decreases p.len() - i,
{
    if i < p.len() {
        assert((p + data)[i as int] == 0u8);
        lemma_pads_skip(p, data, i + 1);
    }
}

/// The End option (code 255) at the front leaves every option unset.
pub proof fn law_end_first_means_no_options(rest: Seq<u8>)
    ensures
        options_of(seq![255u8] + rest) == no_options(),
{
    assert((seq![255u8] + rest)[0] == 255u8);
}

/// A complete option whose code is none of pad (0), message type (53),
/// requested address (50), server identifier (54), lease time (51) and end
/// (255) is stepped over without effect: the scan goes on after its value,
/// whatever the code and whatever the value.
pub proof fn law_other_option_skipped(code: u8, len: u8, value: Seq<u8>, rest: Seq<u8>)
    requires
        code != 0 && code != 50 && code != 51 && code != 53 && code != 54 && code != 255,
        value.len() == len,
    ensures
        options_of(seq![code, len] + value + rest) == options_of(rest),
{
    let head = seq![code, len] + value;
    let whole = head + rest;
    assert(whole[0] == code);
    assert(whole[1] == len);
    assert(whole.subrange(2, 2 + len as int) =~= value);
    assert(apply_option(no_options(), code, value) == no_options());
    assert(head.len() == 2 + len as int);
    lemma_scan_shift(head, rest, 0, no_options());
    assert(head.len() + 0 == 2 + len as nat);
}

/// A pad (code 0) anywhere is stepped over; the End option (code 255), and
/// an option whose length byte or value is cut off, end the scan with what
/// was read before.
pub proof fn law_pad_end_and_truncation(data: Seq<u8>, i: nat, acc: OptionsView)
    requires
        i < data.len(),
    ensures
        data[i as int] == 0 ==> scan_options(data, i, acc) == scan_options(data, i + 1, acc),
        data[i as int] == 255 ==> scan_options(data, i, acc) == acc,
        data[i as int] != 0 && (i + 1 == data.len() || i + 2 + data[i as int + 1] > data.len())
            ==> scan_options(data, i, acc) == acc,
{
}

/// Wherever the scan meets a complete option that it does not record
/// (another code, or one of codes 53, 50, 54, 51 with a length other than 1,
/// 4, 4, 4), whatever was read before it, the option leaves what was read
/// unchanged and the scan goes on right after its value.
pub proof fn law_other_option_transparent(data: Seq<u8>, i: nat, acc: OptionsView)
    requires
        i + 1 < data.len(),
        data[i as int] != 0 && data[i as int] != 255,
        !(data[i as int] == 53 && data[i as int + 1] == 1),
        !((data[i as int] == 50 || data[i as int] == 54 || data[i as int] == 51) && data[i as int + 1] == 4),
        i + 2 + data[i as int + 1] <= data.len(),
    ensures
        scan_options(data, i, acc) == scan_options(data, i + 2 + data[i as int + 1] as nat, acc),
{
}

/// Wherever the scan meets a complete option it records, that option sets
/// its field to the option's value, leaving the other fields as they were,
/// and the scan goes on right after it: a later option of the same code
/// overrides an earlier one. The lease time is read big-endian.
pub proof fn law_recorded_option(data: Seq<u8>, i: nat, acc: OptionsView)
    requires
        i + 1 < data.len(),
        i + 2 + data[i as int + 1] <= data.len(),
    ensures
        data[i as int] == 53 && data[i as int + 1] == 1 ==> scan_options(data, i, acc) == scan_options(
            data,
            i + 3,
            OptionsView { msg_type: msg_type_of(data[i as int + 2]), ..acc },
        ),
        data[i as int] == 50 && data[i as int + 1] == 4 ==> scan_options(data, i, acc) == scan_options(
            data,
            i + 6,
            OptionsView {
                requested_ip: Some(seq![data[i as int + 2], data[i as int + 3], data[i as int + 4], data[i as int + 5]]),
                ..acc
            },
        ),
        data[i as int] == 54 && data[i as int + 1] == 4 ==> scan_options(data, i, acc) == scan_options(
            data,
            i + 6,
            OptionsView { server_id: Some(seq![data[i as int + 2], data[i as int + 3], data[i as int + 4], data[i as int + 5]]), ..acc },
        ),
        data[i as int] == 51 && data[i as int + 1] == 4 ==> scan_options(data, i, acc) == scan_options(
            data,
            i + 6,
            OptionsView {
                lease_time: Some(
                    (data[i as int + 2] * 16777216 + data[i as int + 3] * 65536 + data[i as int + 4] * 256 + data[i as int + 5]) as u32,
                ),
                ..acc
            },
        ),
{
    let ii = i as int;
    let v = data.subrange(ii + 2, ii + 2 + data[ii + 1]);
    if data[ii + 1] == 4 {
        assert(v =~= seq![data[ii + 2], data[ii + 3], data[ii + 4], data[ii + 5]]);
    }
    if data[ii + 1] == 1 {
        assert(v[0] == data[ii + 2]);
    }
}



// ── Address text ────────────────────────────────────────────────────────────

/// A text without a '.'.
pub open spec fn no_dot(s: Seq<char>) -> bool {
    forall|k: int| 0 <= k < s.len() ==> s[k] != '.'
}

/// Decimal text consists of digits, one to three of them below 1000.
proof fn lemma_dec_text_shape(n: nat)
    ensures
        no_dot(dec_text(n)),
        dec_text(n).len() >= 1,
        n < 10 ==> dec_text(n).len() == 1,
        n >= 10 ==> dec_text(n).len() >= 2,
        n < 100 ==> dec_text(n).len() <= 2,
        n < 1000 ==> dec_text(n).len() <= 3,
    decreases n,
{
    if n >= 10 {
        lemma_dec_text_shape(n / 10);
        let d = dec_text(n);
        assert forall|k: int| 0 <= k < d.len() implies d[k] != '.' by {
            if k < d.len() - 1 {
                assert(d[k] == dec_text(n / 10)[k]);
            }
        }
    }
}

/// Distinct numbers have distinct decimal texts.
proof fn lemma_dec_text_injective(n: nat, m: nat)
    requires
        dec_text(n) == dec_text(m),
    ensures
        n == m,
    decreases n,
{
    lemma_dec_text_shape(n);
    lemma_dec_text_shape(m);
    if n >= 10 && m >= 10 {
        assert(dec_text(n).last() == hex_char(n % 10));
        assert(dec_text(m).last() == hex_char(m % 10));
        assert(dec_text(n).drop_last() =~= dec_text(n / 10));
        assert(dec_text(m).drop_last() =~= dec_text(m / 10));
        lemma_dec_text_injective(n / 10, m / 10);
    } else if n < 10 && m < 10 {
        assert(dec_text(n)[0] == hex_char(n));
        assert(dec_text(m)[0] == hex_char(m));
    }
}

/// Two texts joined by a '.' split back at the first '.' when the first parts hold none.
proof fn lemma_split_at_dot(x1: Seq<char>, y1: Seq<char>, x2: Seq<char>, y2: Seq<char>)
    requires
        no_dot(x1),
        no_dot(x2),
        x1 + seq!['.'] + y1 == x2 + seq!['.'] + y2,
    ensures
        x1 == x2,
        y1 == y2,
{
    let s = x1 + seq!['.'] + y1;
    let t = x2 + seq!['.'] + y2;
    if x1.len() < x2.len() {
        assert(s[x1.len() as int] == '.');
        assert(t[x1.len() as int] == x2[x1.len() as int]);
    } else if x2.len() < x1.len() {
        assert(t[x2.len() as int] == '.');
        assert(s[x2.len() as int] == x1[x2.len() as int]);
    }
    assert(x1 =~= s.subrange(0, x1.len() as int));
    assert(x2 =~= t.subrange(0, x2.len() as int));
    assert(y1 =~= s.subrange(x1.len() as int + 1, s.len() as int));
    assert(y2 =~= t.subrange(x2.len() as int + 1, t.len() as int));
}

/// The dotted quad of four bytes is 7 to 15 characters long.
pub proof fn law_ip_text_length(b: Seq<u8>)
    requires
        b.len() == 4,
    ensures
        7 <= ip_text(b).len() <= 15,
{
    lemma_dec_text_shape(b[0] as nat);
    lemma_dec_text_shape(b[1] as nat);
    lemma_dec_text_shape(b[2] as nat);
    lemma_dec_text_shape(b[3] as nat);
}

/// Four texts joined by '.' split back into the same four, when the first three hold no '.'.
proof fn lemma_quad_split(
    a0: Seq<char>,
    a1: Seq<char>,
    a2: Seq<char>,
    a3: Seq<char>,
    b0: Seq<char>,
    b1: Seq<char>,
    b2: Seq<char>,
    b3: Seq<char>,
)
    requires
        no_dot(a0),
        no_dot(a1),
        no_dot(a2),
        no_dot(b0),
        no_dot(b1),
        no_dot(b2),
        a0 + seq!['.'] + a1 + seq!['.'] + a2 + seq!['.'] + a3 == b0 + seq!['.'] + b1 + seq!['.'] + b2 + seq!['.'] + b3,
    ensures
        a0 == b0,
        a1 == b1,
        a2 == b2,
        a3 == b3,
{
    let dot = seq!['.'];
    let ra1 = a2 + dot + a3;
    let rb1 = b2 + dot + b3;
    let ra0 = a1 + dot + ra1;
    let rb0 = b1 + dot + rb1;
    assert(a0 + dot + a1 + dot + a2 + dot + a3 =~= a0 + dot + ra0);
    assert(b0 + dot + b1 + dot + b2 + dot + b3 =~= b0 + dot + rb0);
    lemma_split_at_dot(a0, ra0, b0, rb0);
    lemma_split_at_dot(a1, ra1, b1, rb1);
    lemma_split_at_dot(a2, a3, b2, b3);
}

/// Distinct addresses have distinct dotted quads.
pub proof fn law_ip_text_injective(a: Seq<u8>, b: Seq<u8>)
    requires
        a.len() == 4,
        b.len() == 4,
        ip_text(a) == ip_text(b),
    ensures
        a == b,
{
    lemma_dec_text_shape(a[0] as nat);
    lemma_dec_text_shape(a[1] as nat);
    lemma_dec_text_shape(a[2] as nat);
    lemma_dec_text_shape(b[0] as nat);
    lemma_dec_text_shape(b[1] as nat);
    lemma_dec_text_shape(b[2] as nat);
    lemma_quad_split(
        dec_text(a[0] as nat),
        dec_text(a[1] as nat),
        dec_text(a[2] as nat),
        dec_text(a[3] as nat),
        dec_text(b[0] as nat),
        dec_text(b[1] as nat),
        dec_text(b[2] as nat),
        dec_text(b[3] as nat),
    );
    lemma_dec_text_injective(a[0] as nat, b[0] as nat);
    lemma_dec_text_injective(a[1] as nat, b[1] as nat);
    lemma_dec_text_injective(a[2] as nat, b[2] as nat);
    lemma_dec_text_injective(a[3] as nat, b[3] as nat);
    assert(a =~= b);
}

// ── Analyzer ────────────────────────────────────────────────────────────────

/// The time an event carries.
pub open spec fn event_ts(e: EventView) -> Timestamp {
    match e {
        EventView::ClientDiscovered { ts, .. } => ts,
        EventView::OfferReceived { ts, .. } => ts,
        EventView::RequestSent { ts, .. } => ts,
        EventView::LeaseAcquired { ts, .. } => ts,
        EventView::NakReceived { ts, .. } => ts,
        EventView::RogueServerDetected { ts, .. } => ts,
        EventView::DiscoverFlood { ts, .. } => ts,
        EventView::IpConflict { ts, .. } => ts,
        EventView::LeaseConflict { ts, .. } => ts,
        EventView::LeaseTimeout { ts, .. } => ts,
        EventView::StateTransition { ts, .. } => ts,
    }
}

/// Every event a packet gives rise to carries the packet's time.
pub proof fn law_events_carry_packet_time(a: AnalyzerView, p: PacketView, src_ip: Seq<char>, ts: Timestamp)
    ensures
        forall|k: int| 0 <= k < process_spec(a, p, src_ip, ts).1.len()
            ==> event_ts(#[trigger] process_spec(a, p, src_ip, ts).1[k]) == ts,
{
    let evs = process_spec(a, p, src_ip, ts).1;
    assert forall|k: int| 0 <= k < evs.len() implies event_ts(#[trigger] evs[k]) == ts by {
        match p.msg_type {
            DhcpMessageType::Ack => {
                let r = ack_step(a, p, src_ip, ts).1;
                assert(evs == r);
            },
            _ => {},
        }
    }
}

/// DECLINE, INFORM and unknown message types change nothing and report nothing.
pub proof fn law_ignored_types(a: AnalyzerView, p: PacketView, src_ip: Seq<char>, ts: Timestamp)
    requires
        p.msg_type is Decline || p.msg_type is Inform || p.msg_type is Unknown,
    ensures
        process_spec(a, p, src_ip, ts) == (a, Seq::<EventView>::empty()),
{
}

/// A DISCOVER for a new transaction opens it in Selecting and ends with a
/// `ClientDiscovered` for the packet's client; a retransmitted DISCOVER (known
/// xid) opens nothing and reports no `ClientDiscovered`.
pub proof fn law_discover_opens_once(a: AnalyzerView, p: PacketView, src_ip: Seq<char>, ts: Timestamp)
    requires
        p.msg_type == DhcpMessageType::Discover,
    ensures
        ({
            let (b, evs) = process_spec(a, p, src_ip, ts);
            match tx_index(a.txs, p.xid) {
                None => {
                    &&& b.txs.len() == a.txs.len() + 1
                    &&& b.txs.last().fsm_state == DhcpClientState::Selecting
                    &&& b.txs.last().xid == p.xid
                    &&& evs.last() == (EventView::ClientDiscovered {
                        ts,
                        xid: p.xid,
                        client_mac: mac_text(p.client_mac),
                        src_ip,
                    })
                },
                Some(_) => {
                    &&& b.txs.len() == a.txs.len()
                    &&& forall|k: int| 0 <= k < evs.len() ==> !(#[trigger] evs[k] is ClientDiscovered)
                },
            }
        }),
{
}

/// An OFFER for a transaction that already has offers, none of them from
/// this OFFER's server, reports a rogue server: the first offering server is
/// the legitimate one, this one the rogue.
pub proof fn law_second_server_is_rogue(a: AnalyzerView, p: PacketView, src_ip: Seq<char>, ts: Timestamp, i: int)
    requires
        p.msg_type == DhcpMessageType::Offer,
        tx_index(a.txs, p.xid) == Some(i),
        a.txs[i].offers.len() > 0,
        !a.txs[i].offers.contains(server_or(p, src_ip)),
    ensures
        process_spec(a, p, src_ip, ts).1[0] == (EventView::RogueServerDetected {
            ts,
            xid: p.xid,
            client_mac: a.txs[i].client_mac,
            legitimate_server: a.txs[i].offers[0],
            rogue_server: server_or(p, src_ip),
        }),
{
}

/// An OFFER from a server that already offered for the transaction (or the
/// first OFFER at all) reports no rogue server.
pub proof fn law_known_server_not_rogue(a: AnalyzerView, p: PacketView, src_ip: Seq<char>, ts: Timestamp)
    requires
        p.msg_type == DhcpMessageType::Offer,
        match tx_index(a.txs, p.xid) {
            Some(i) => a.txs[i].offers.len() == 0 || a.txs[i].offers.contains(server_or(p, src_ip)),
            None => true,
        },
    ensures
        forall|k: int| 0 <= k < process_spec(a, p, src_ip, ts).1.len()
            ==> !(#[trigger] process_spec(a, p, src_ip, ts).1[k] is RogueServerDetected),
{
    let evs = process_spec(a, p, src_ip, ts).1;
    assert(evs.len() == 1);
}

/// After the lease table holds `ip` for `mac`, looking `ip` up gives `mac`.
proof fn lemma_lease_put_get(l: Seq<(Seq<char>, Seq<char>)>, ip: Seq<char>, mac: Seq<char>)
    requires
        leases_distinct(l),
    ensures
        leases_distinct(lease_put(l, ip, mac)),
        lease_holder(lease_put(l, ip, mac), ip) == Some(mac),
{
    let n = lease_put(l, ip, mac);
    match lease_index(l, ip) {
        Some(i) => {
            assert(n[i].0 == ip);
            assert(lease_index(n, ip) == Some(i));
        },
        None => {
            assert(n[l.len() as int].0 == ip);
            assert(forall|j: int| 0 <= j < l.len() ==> l[j].0 != ip);
            assert(lease_index(n, ip) == Some(l.len() as int));
        },
    }
}

/// An ACK for an address (other than 0.0.0.0) that is leased to another
/// client reports a lease conflict and an address conflict, in that order,
/// naming the earlier holder; afterwards the address is leased to the
/// acknowledged transaction's client.
pub proof fn law_ack_of_leased_address(
    a: AnalyzerView,
    p: PacketView,
    src_ip: Seq<char>,
    ts: Timestamp,
    holder: Seq<char>,
    client: Seq<char>,
)
    requires
        state_wf(a),
        p.msg_type == DhcpMessageType::Ack,
        ip_text(p.yiaddr) != zero_ip(),
        lease_holder(a.leases, ip_text(p.yiaddr)) == Some(holder),
        client == (match tx_index(a.txs, p.xid) {
            Some(i) => a.txs[i].client_mac,
            None => mac_text(p.client_mac),
        }),
        holder != client,
    ensures
        process_spec(a, p, src_ip, ts).1[0] == (EventView::LeaseConflict {
            ts,
            xid: p.xid,
            client_mac: client,
            conflicting_ip: ip_text(p.yiaddr),
        }),
        process_spec(a, p, src_ip, ts).1[1] == (EventView::IpConflict {
            ts,
            conflicting_ip: ip_text(p.yiaddr),
            mac_a: holder,
            mac_b: client,
            server_ip: server_or(p, src_ip),
        }),
        lease_holder(process_spec(a, p, src_ip, ts).0.leases, ip_text(p.yiaddr)) == Some(client),
{
    lemma_lease_put_get(a.leases, ip_text(p.yiaddr), client);
}

/// After an ACK for an address other than 0.0.0.0, that address is leased to
/// the acknowledged transaction's client.
pub proof fn law_ack_records_lease(a: AnalyzerView, p: PacketView, src_ip: Seq<char>, ts: Timestamp)
    requires
        state_wf(a),
        p.msg_type == DhcpMessageType::Ack,
        ip_text(p.yiaddr) != zero_ip(),
    ensures
        lease_holder(process_spec(a, p, src_ip, ts).0.leases, ip_text(p.yiaddr)) == Some(
            match tx_index(a.txs, p.xid) {
                Some(i) => a.txs[i].client_mac,
                None => mac_text(p.client_mac),
            },
        ),
{
    let client = match tx_index(a.txs, p.xid) {
        Some(i) => a.txs[i].client_mac,
        None => mac_text(p.client_mac),
    };
    lemma_lease_put_get(a.leases, ip_text(p.yiaddr), client);
}

/// After a RELEASE, nothing is leased on the released address (ciaddr).
pub proof fn law_release_frees_address(a: AnalyzerView, p: PacketView, ts: Timestamp)
    requires
        state_wf(a),
        p.msg_type == DhcpMessageType::Release,
    ensures
        lease_holder(process_spec(a, p, Seq::empty(), ts).0.leases, ip_text(p.ciaddr)) is None,
{
    let l = a.leases;
    let ip = ip_text(p.ciaddr);
    let n = lease_drop(l, ip);
    match lease_index(l, ip) {
        Some(i) => {
            assert forall|j: int| 0 <= j < n.len() implies n[j].0 != ip by {
                if j < i {
                    assert(n[j] == l[j]);
                } else {
                    assert(n[j] == l[j + 1]);
                }
            }
        },
        None => {},
    }
    assert(process_spec(a, p, Seq::empty(), ts).0.leases == n);
}

/// A DISCOVER reports a flood only for a window not reported before, and the
/// window is reported afterwards; reported windows are never forgotten.
pub proof fn law_flood_reported_once_per_window(a: AnalyzerView, p: PacketView, src_ip: Seq<char>, ts: Timestamp)
    requires
        p.msg_type == DhcpMessageType::Discover,
    ensures
        ({
            let (b, evs) = process_spec(a, p, src_ip, ts);
            &&& forall|x: u32| a.reported.contains(x) ==> #[trigger] b.reported.contains(x)
            &&& (exists|k: int| 0 <= k < evs.len() && #[trigger] evs[k] is DiscoverFlood) ==> {
                &&& !a.reported.contains(b.window_start.sec)
                &&& b.reported.contains(b.window_start.sec)
            }
        }),
{
    let (b, evs) = process_spec(a, p, src_ip, ts);
    assert forall|x: u32| a.reported.contains(x) implies #[trigger] b.reported.contains(x) by {
        let k = choose|k: int| 0 <= k < a.reported.len() && a.reported[k] == x;
        assert(b.reported[k] == x);
    }
    if exists|k: int| 0 <= k < evs.len() && #[trigger] evs[k] is DiscoverFlood {
        assert(b.reported.last() == b.window_start.sec);
    }
}

/// The lease timeouts found at `last_ts` are exactly those of the
/// transactions still selecting without any OFFER more than 10 s after their DISCOVER, one each,
/// in transaction order.
pub proof fn law_timeouts_exact(txs: Seq<TxView>, last_ts: Timestamp)
    ensures
        forall|k: int| 0 <= k < timeouts(txs, last_ts).len() ==> exists|j: int|
            0 <= j < txs.len() && timed_out(txs[j], last_ts) && #[trigger] timeouts(txs, last_ts)[k]
                == timeout_event(txs[j], last_ts),
        forall|j: int| 0 <= j < txs.len() && #[trigger] timed_out(txs[j], last_ts) ==> timeouts(txs, last_ts).contains(
            timeout_event(txs[j], last_ts),
        ),
    decreases txs.len(),
{
    if txs.len() > 0 {
        let rest = txs.drop_last();
        law_timeouts_exact(rest, last_ts);
        let t = timeouts(txs, last_ts);
        let r = timeouts(rest, last_ts);
        assert forall|k: int| 0 <= k < t.len() implies exists|j: int|
            0 <= j < txs.len() && timed_out(txs[j], last_ts) && #[trigger] t[k] == timeout_event(txs[j], last_ts) by {
            if k < r.len() {
                assert(t[k] == r[k]);
                let j = choose|j: int|
                    0 <= j < rest.len() && timed_out(rest[j], last_ts) && r[k] == timeout_event(rest[j], last_ts);
                assert(txs[j] == rest[j]);
            } else {
                assert(txs[txs.len() - 1] == txs.last());
            }
        }
        assert forall|j: int| 0 <= j < txs.len() && #[trigger] timed_out(txs[j], last_ts) implies t.contains(
            timeout_event(txs[j], last_ts),
        ) by {
            if j < rest.len() {
                assert(rest[j] == txs[j]);
                let k = choose|k: int| 0 <= k < r.len() && r[k] == timeout_event(rest[j], last_ts);
                assert(t[k] == r[k]);
            } else {
                assert(t.last() == timeout_event(txs.last(), last_ts));
            }
        }
    }
}


// ── Correlation ─────────────────────────────────────────────────────────────

/// The rank of a severity: Info 0, Warning 1, Critical 2.
pub open spec fn rank(s: RootCauseSeverity) -> int {
    match s {
        RootCauseSeverity::Info => 0,
        RootCauseSeverity::Warning => 1,
        RootCauseSeverity::Critical => 2,
    }
}

/// Every cause kept for a severity has that severity, and the three
/// severities together keep every cause.
proof fn lemma_with_severity(c: Seq<RootCauseView>, sev: RootCauseSeverity)
    ensures
        forall|k: int| 0 <= k < with_severity(c, sev).len() ==> (#[trigger] with_severity(c, sev)[k]).severity == sev,
        with_severity(c, RootCauseSeverity::Critical).len() + with_severity(c, RootCauseSeverity::Warning).len()
            + with_severity(c, RootCauseSeverity::Info).len() == c.len(),
    decreases c.len(),
{
    if c.len() > 0 {
        lemma_with_severity(c.drop_last(), sev);
    }
}

/// The correlation report lists causes from most to least severe.
pub proof fn law_causes_sorted(evs: Seq<TimedEventView>)
    ensures
        forall|i: int, j: int|
            0 <= i < j < correlate_spec(evs).causes.len() ==> rank(
                #[trigger] correlate_spec(evs).causes[i].severity,
            ) >= rank(#[trigger] correlate_spec(evs).causes[j].severity),
{
    let d = detected_causes(evs);
    let cr = with_severity(d, RootCauseSeverity::Critical);
    let wa = with_severity(d, RootCauseSeverity::Warning);
    let inf = with_severity(d, RootCauseSeverity::Info);
    lemma_with_severity(d, RootCauseSeverity::Critical);
    lemma_with_severity(d, RootCauseSeverity::Warning);
    lemma_with_severity(d, RootCauseSeverity::Info);
    let sorted = by_severity(d);
    assert forall|k: int| 0 <= k < sorted.len() implies rank((#[trigger] sorted[k]).severity) == (if k < cr.len() {
        2int
    } else if k < cr.len() + wa.len() {
        1int
    } else {
        0int
    }) by {
        if k < cr.len() {
            assert(sorted[k] == cr[k]);
        } else if k < cr.len() + wa.len() {
            assert(sorted[k] == wa[k - cr.len()]);
        } else {
            assert(sorted[k] == inf[k - cr.len() - wa.len()]);
        }
    }
}

/// No cause in the list is the clean one.
pub open spec fn none_clean(c: Seq<RootCauseView>) -> bool {
    forall|k: int| 0 <= k < c.len() ==> (#[trigger] c[k]).kind != RootCauseKind::Clean
}

/// Joining lists without the clean cause gives a list without it.
proof fn lemma_none_clean_concat(a: Seq<RootCauseView>, b: Seq<RootCauseView>)
    requires
        none_clean(a),
        none_clean(b),
    ensures
        none_clean(a + b),
{
    assert forall|k: int| 0 <= k < (a + b).len() implies (#[trigger] (a + b)[k]).kind != RootCauseKind::Clean by {
        if k < a.len() {
            assert((a + b)[k] == a[k]);
        } else {
            assert((a + b)[k] == b[k - a.len()]);
        }
    }
}

/// Keeping one severity keeps only causes of the list.
proof fn lemma_with_severity_none_clean(c: Seq<RootCauseView>, sev: RootCauseSeverity)
    requires
        none_clean(c),
    ensures
        none_clean(with_severity(c, sev)),
    decreases c.len(),
{
    if c.len() > 0 {
        assert(none_clean(c.drop_last()));
        lemma_with_severity_none_clean(c.drop_last(), sev);
    }
}

/// Detectors never report the clean cause.
proof fn lemma_detected_none_clean(evs: Seq<TimedEventView>)
    ensures
        none_clean(detected_causes(evs)),
{
    let a = opt_seq(rogue_cause(evs));
    let b = opt_seq(starvation_cause(evs));
    let c = opt_seq(lease_conflict_cause(evs));
    let d = opt_seq(nak_storm_cause(evs));
    let e = opt_seq(unreachable_cause(evs));
    let f = opt_seq(ip_conflict_cause(evs));
    assert(none_clean(a));
    assert(none_clean(b));
    assert(none_clean(c));
    assert(none_clean(d));
    assert(none_clean(e));
    assert(none_clean(f));
    lemma_none_clean_concat(a, b);
    lemma_none_clean_concat(a + b, c);
    lemma_none_clean_concat(a + b + c, d);
    lemma_none_clean_concat(a + b + c + d, e);
    lemma_none_clean_concat(a + b + c + d + e, f);
}

/// The correlation report always names at least one cause and at least one
/// action; it consists of the clean cause alone exactly when no detector fired.
pub proof fn law_report_never_empty(evs: Seq<TimedEventView>)
    ensures
        correlate_spec(evs).causes.len() >= 1,
        correlate_spec(evs).action_plan.len() >= 1,
        (correlate_spec(evs).causes == seq![clean_cause()]) <==> detected_causes(evs).len() == 0,
{
    let d = detected_causes(evs);
    lemma_with_severity(d, RootCauseSeverity::Critical);
    let sorted = by_severity(d);
    assert(sorted.len() == d.len());
    if d.len() > 0 {
        lemma_detected_none_clean(evs);
        lemma_with_severity_none_clean(d, RootCauseSeverity::Critical);
        lemma_with_severity_none_clean(d, RootCauseSeverity::Warning);
        lemma_with_severity_none_clean(d, RootCauseSeverity::Info);
        lemma_none_clean_concat(
            with_severity(d, RootCauseSeverity::Critical),
            with_severity(d, RootCauseSeverity::Warning),
        );
        lemma_none_clean_concat(
            with_severity(d, RootCauseSeverity::Critical) + with_severity(d, RootCauseSeverity::Warning),
            with_severity(d, RootCauseSeverity::Info),
        );
        assert(sorted[0].kind != RootCauseKind::Clean);
        assert(correlate_spec(evs).causes == sorted);
        assert(seq![clean_cause()][0].kind == RootCauseKind::Clean);
    }
}

/// An empty timeline is stable and yields the clean report with the
/// "operating normally" verdict and no action.
pub proof fn law_empty_timeline_is_clean()
    ensures
        correlate_spec(Seq::empty()).causes == seq![clean_cause()],
        correlate_spec(Seq::empty()).stable,
        correlate_spec(Seq::empty()).verdict == "DHCP operating normally. No anomalies detected."@,
        correlate_spec(Seq::empty()).action_plan == seq!["No action required."@],
{
    let e = Seq::<TimedEventView>::empty();
    assert(detected_causes(e) =~= Seq::<RootCauseView>::empty());
    assert(with_severity(Seq::<RootCauseView>::empty(), RootCauseSeverity::Critical).len() == 0);
    assert(by_severity(Seq::<RootCauseView>::empty()) =~= Seq::<RootCauseView>::empty());
}


/// Whether an event is one of the kinds the detectors look for.
pub open spec fn is_alarm(e: EventView) -> bool {
    is_rogue(e) || is_flood(e) || is_lease_conflict(e) || is_nak(e) || is_timeout(e) || is_ip_conflict(e)
}

/// Nothing is selected when nothing qualifies.
proof fn lemma_select_none(evs: Seq<TimedEventView>, p: spec_fn(EventView) -> bool)
    requires
        forall|k: int| 0 <= k < evs.len() ==> !p(#[trigger] evs[k].event),
    ensures
        select(evs, p).len() == 0,
    decreases evs.len(),
{
    if evs.len() > 0 {
        assert(!p(evs[evs.len() - 1].event));
        lemma_select_none(evs.drop_last(), p);
    }
}

/// Without NAKs there are no NAK groups.
proof fn lemma_no_nak_groups(evs: Seq<TimedEventView>)
    requires
        forall|k: int| 0 <= k < evs.len() ==> !is_nak(#[trigger] evs[k].event),
    ensures
        nak_groups(evs).len() == 0,
    decreases evs.len(),
{
    if evs.len() > 0 {
        assert(!is_nak(evs[evs.len() - 1].event));
        lemma_no_nak_groups(evs.drop_last());
    }
}

/// A timeline without rogue servers, floods, lease or address conflicts,
/// NAKs or timeouts yields the clean report.
pub proof fn law_quiet_timeline_is_clean(evs: Seq<TimedEventView>)
    requires
        forall|k: int| 0 <= k < evs.len() ==> !is_alarm(#[trigger] evs[k].event),
    ensures
        correlate_spec(evs).causes == seq![clean_cause()],
{
    lemma_select_none(evs, |e: EventView| is_rogue(e));
    lemma_select_none(evs, |e: EventView| is_flood(e));
    lemma_select_none(evs, |e: EventView| is_lease_conflict(e));
    lemma_select_none(evs, |e: EventView| is_timeout(e));
    lemma_select_none(evs, |e: EventView| is_ip_conflict(e));
    lemma_no_nak_groups(evs);
    assert(storm_groups(nak_groups(evs)).len() == 0);
    assert(detected_causes(evs) =~= Seq::<RootCauseView>::empty());
    law_report_never_empty(evs);
}


// ── Stability ───────────────────────────────────────────────────────────────

/// The same timeline with every event moved `d` seconds later.
pub open spec fn shift_events(evs: Seq<TimedEventView>, d: u32) -> Seq<TimedEventView> {
    evs.map_values(
        |t: TimedEventView|
            TimedEventView { ts: Timestamp { sec: (t.ts.sec + d) as u32, usec: t.ts.usec }, ..t },
    )
}

/// The report calls a timeline stable exactly when every warning and every
/// critical event lies before the last fifth of the capture, measured from
/// the first event to the last one: `5 * (ts - first) < 4 * (last - first)`.
/// An empty timeline is stable.
pub proof fn law_stable_iff_no_late_anomaly(evs: Seq<TimedEventView>)
    ensures
        correlate_spec(evs).stable <==> forall|k: int|
            0 <= k < evs.len() && (#[trigger] evs[k].severity == Severity::Warning
                || evs[k].severity == Severity::Critical) ==> 5 * (evs[k].ts.micros() - evs[0].ts.micros()) < 4
                * (evs[evs.len() - 1].ts.micros() - evs[0].ts.micros()),
{
    assert(correlate_spec(evs).stable == stable_spec(evs));
    if evs.len() > 0 {
        let first = evs[0].ts.micros();
        let last = evs[evs.len() - 1].ts.micros();
        assert(evs.last() == evs[evs.len() - 1]);
        assert forall|k: int| 0 <= k < evs.len() implies (late_anomaly(evs[k], first, last) <==> ((
        #[trigger] evs[k].severity == Severity::Warning || evs[k].severity == Severity::Critical) && !(5 * (
        evs[k].ts.micros() - first) < 4 * (last - first)))) by {}
    }
}

/// Stability does not depend on when the capture was taken: moving every
/// event by the same number of seconds leaves the verdict on stability as it was.
pub proof fn law_stability_shift_invariant(evs: Seq<TimedEventView>, d: u32)
    requires
        forall|k: int| 0 <= k < evs.len() ==> #[trigger] evs[k].ts.sec + d <= u32::MAX,
    ensures
        correlate_spec(shift_events(evs, d)).stable == correlate_spec(evs).stable,
{
    let sh = shift_events(evs, d);
    assert(sh.len() == evs.len());
    if evs.len() == 0 {
        assert(correlate_spec(sh).stable == stable_spec(sh));
        assert(correlate_spec(evs).stable == stable_spec(evs));
    } else {
        law_stable_iff_no_late_anomaly(evs);
        law_stable_iff_no_late_anomaly(sh);
        let n = evs.len() - 1;
        let dd = d * 1_000_000;
        assert(sh[n].ts.micros() == evs[n].ts.micros() + dd) by {
            assert(evs[n].ts.sec + d <= u32::MAX);
        }
        assert(sh[0].ts.micros() == evs[0].ts.micros() + dd) by {
            assert(evs[0].ts.sec + d <= u32::MAX);
        }
        assert forall|k: int| 0 <= k < evs.len() implies ((#[trigger] sh[k].severity == Severity::Warning
            || sh[k].severity == Severity::Critical) ==> 5 * (sh[k].ts.micros() - sh[0].ts.micros()) < 4 * (
        sh[n].ts.micros() - sh[0].ts.micros())) == ((evs[k].severity == Severity::Warning
            || evs[k].severity == Severity::Critical) ==> 5 * (evs[k].ts.micros() - evs[0].ts.micros()) < 4 * (
        evs[n].ts.micros() - evs[0].ts.micros())) by {
            assert(evs[k].ts.sec + d <= u32::MAX);
            assert(sh[k].ts.micros() == evs[k].ts.micros() + dd);
            assert(sh[k].severity == evs[k].severity);
        }
        if correlate_spec(evs).stable {
            assert forall|k: int| 0 <= k < sh.len() && (#[trigger] sh[k].severity == Severity::Warning
                || sh[k].severity == Severity::Critical) implies 5 * (sh[k].ts.micros() - sh[0].ts.micros()) < 4
                * (sh[sh.len() - 1].ts.micros() - sh[0].ts.micros()) by {
                assert(evs[k].severity == Severity::Warning || evs[k].severity == Severity::Critical);
            }
        }
        if correlate_spec(sh).stable {
            assert forall|k: int| 0 <= k < evs.len() && (#[trigger] evs[k].severity == Severity::Warning
                || evs[k].severity == Severity::Critical) implies 5 * (evs[k].ts.micros() - evs[0].ts.micros()) < 4
                * (evs[evs.len() - 1].ts.micros() - evs[0].ts.micros()) by {
                assert(sh[k].severity == Severity::Warning || sh[k].severity == Severity::Critical);
            }
        }
    }
}

// ── Summary counts ──────────────────────────────────────────────────────────

/// The anomaly count of the summary is the number of events of the timeline
/// whose severity is warning or critical.
pub proof fn law_anomalies_are_warnings_and_criticals(evs: Seq<TimedEventView>)
    requires
        evs.len() <= usize::MAX,
    ensures
        summary_spec(evs).anomalies == evs.filter(
            |t: TimedEventView| t.severity == Severity::Warning || t.severity == Severity::Critical,
        ).len(),
{
    lemma_anomalies_filter(evs);
    lemma_anomalies_bounded(evs);
}

/// Each count of the summary is the number of events of its kind: leases
/// acquired, rogue servers, NAKs, lease timeouts, and address and lease
/// conflicts together; clients seen is the number of distinct client
/// addresses that sent a DISCOVER.
pub proof fn law_summary_counts(evs: Seq<TimedEventView>)
    requires
        evs.len() <= usize::MAX,
    ensures
        ({
            let s = summary_spec(evs);
            &&& s.leases_acquired == evs.filter(|t: TimedEventView| t.event is LeaseAcquired).len()
            &&& s.rogue_servers == evs.filter(|t: TimedEventView| t.event is RogueServerDetected).len()
            &&& s.nak_count == evs.filter(|t: TimedEventView| t.event is NakReceived).len()
            &&& s.timeouts == evs.filter(|t: TimedEventView| t.event is LeaseTimeout).len()
            &&& s.conflicts == evs.filter(|t: TimedEventView| t.event is IpConflict || t.event is LeaseConflict).len()
            &&& s.clients_seen == Set::new(
                |m: Seq<char>|
                    exists|k: int|
                        0 <= k < evs.len() && evs[k].event is ClientDiscovered && event_client(evs[k].event) == m,
            ).len()
        }),
{
    lemma_select_filter(evs, |e: EventView| e is LeaseAcquired, |t: TimedEventView| t.event is LeaseAcquired);
    lemma_select_filter(
        evs,
        |e: EventView| e is RogueServerDetected,
        |t: TimedEventView| t.event is RogueServerDetected,
    );
    lemma_select_filter(evs, |e: EventView| e is NakReceived, |t: TimedEventView| t.event is NakReceived);
    lemma_select_filter(evs, |e: EventView| e is LeaseTimeout, |t: TimedEventView| t.event is LeaseTimeout);
    lemma_select_filter(
        evs,
        |e: EventView| e is IpConflict || e is LeaseConflict,
        |t: TimedEventView| t.event is IpConflict || t.event is LeaseConflict,
    );
    lemma_select_len(evs, |e: EventView| e is LeaseAcquired);
    lemma_select_len(evs, |e: EventView| e is RogueServerDetected);
    lemma_select_len(evs, |e: EventView| e is NakReceived);
    lemma_select_len(evs, |e: EventView| e is LeaseTimeout);
    lemma_select_len(evs, |e: EventView| e is IpConflict || e is LeaseConflict);
    let pd = |e: EventView| e is ClientDiscovered;
    let f = |e: EventView| event_client(e);
    lemma_discovered_keys(evs);
    lemma_distinct_keys(evs, pd, f);
    let d = distinct(keys_of(select(evs, pd), f));
    let clients = Set::new(
        |m: Seq<char>|
            exists|k: int| 0 <= k < evs.len() && evs[k].event is ClientDiscovered && event_client(evs[k].event) == m,
    );
    assert(d.to_set() =~= clients) by {
        assert forall|m: Seq<char>| d.to_set().contains(m) <==> clients.contains(m) by {
            assert(d.contains(m) == d.to_set().contains(m));
        }
    }
    d.unique_seq_to_set();
    lemma_distinct_len(keys_of(select(evs, pd), f));
    lemma_select_len(evs, pd);
}

/// Selecting by the kind of event is filtering by it.
proof fn lemma_select_filter(evs: Seq<TimedEventView>, p: spec_fn(EventView) -> bool, q: spec_fn(TimedEventView) -> bool)
    requires
        forall|t: TimedEventView| #[trigger] q(t) == p(t.event),
    ensures
        select(evs, p) == evs.filter(q),
    decreases evs.len(),
{
    reveal(Seq::filter);
    if evs.len() > 0 {
        lemma_select_filter(evs.drop_last(), p, q);
    }
}

/// The client addresses of `ClientDiscovered` events are the clients of those events.
proof fn lemma_discovered_keys(evs: Seq<TimedEventView>)
    ensures
        discovered_clients(evs) == keys_of(select(evs, |e: EventView| e is ClientDiscovered), |e: EventView| event_client(e)),
    decreases evs.len(),
{
    let pd = |e: EventView| e is ClientDiscovered;
    let f = |e: EventView| event_client(e);
    if evs.len() == 0 {
        assert(keys_of(select(evs, pd), f) =~= Seq::<Seq<char>>::empty());
    } else {
        lemma_discovered_keys(evs.drop_last());
        let ps = select(evs.drop_last(), pd);
        if pd(evs.last().event) {
            assert(keys_of(ps.push(evs.last()), f) =~= keys_of(ps, f).push(event_client(evs.last().event)));
        }
    }
}

/// Removing repetitions never lengthens a sequence.
proof fn lemma_distinct_len(s: Seq<Seq<char>>)
    ensures
        distinct(s).len() <= s.len(),
    decreases s.len(),
{
    if s.len() > 0 {
        lemma_distinct_len(s.drop_last());
    }
}

/// Counting anomalies one by one is filtering them.
proof fn lemma_anomalies_filter(evs: Seq<TimedEventView>)
    ensures
        count_anomalies(evs) == evs.filter(
            |t: TimedEventView| t.severity == Severity::Warning || t.severity == Severity::Critical,
        ).len(),
    decreases evs.len(),
{
    reveal(Seq::filter);
    if evs.len() > 0 {
        lemma_anomalies_filter(evs.drop_last());
    }
}

/// There are no more anomalies than events.
proof fn lemma_anomalies_bounded(evs: Seq<TimedEventView>)
    ensures
        count_anomalies(evs) <= evs.len(),
    decreases evs.len(),
{
    if evs.len() > 0 {
        lemma_anomalies_bounded(evs.drop_last());
    }
}

/// In a timeline whose events carry the severity of their kind, every rogue
/// server, NAK, lease timeout, address or lease conflict and DISCOVER flood
/// is an anomaly, and nothing else is: the anomaly count is the sum of those
/// counts. In particular it is at least the number of rogue servers, NAKs,
/// timeouts and conflicts together.
pub proof fn law_anomalies_by_kind(evs: Seq<TimedEventView>)
    requires
        evs.len() <= usize::MAX,
        forall|k: int| 0 <= k < evs.len() ==> #[trigger] evs[k].severity == severity_of(evs[k].event),
    ensures
        ({
            let s = summary_spec(evs);
            &&& s.anomalies == s.rogue_servers + s.nak_count + s.timeouts + s.conflicts + select(
                evs,
                |e: EventView| e is DiscoverFlood,
            ).len()
            &&& s.anomalies >= s.rogue_servers + s.nak_count + s.timeouts + s.conflicts
        }),
{
    lemma_anomalies_by_kind(evs);
    lemma_anomalies_bounded(evs);
    lemma_select_len(evs, |e: EventView| e is RogueServerDetected);
    lemma_select_len(evs, |e: EventView| e is NakReceived);
    lemma_select_len(evs, |e: EventView| e is LeaseTimeout);
    lemma_select_len(evs, |e: EventView| e is IpConflict || e is LeaseConflict);
}

/// For a whole capture the anomaly count of its summary is the number of
/// rogue servers, NAKs, lease timeouts, conflicts and DISCOVER floods in its timeline.
pub proof fn law_capture_anomalies_by_kind(pkts: Seq<CapturedView>)
    requires
        timeline(pkts).len() <= usize::MAX,
    ensures
        ({
            let s = summary_spec(timeline(pkts));
            &&& s.anomalies == s.rogue_servers + s.nak_count + s.timeouts + s.conflicts + select(
                timeline(pkts),
                |e: EventView| e is DiscoverFlood,
            ).len()
            &&& s.anomalies >= s.rogue_servers + s.nak_count + s.timeouts + s.conflicts
        }),
{
    let (a, evs, _n) = run(pkts);
    let last = last_ts_of(pkts);
    let t = timeline(pkts);
    lemma_run_severities(pkts);
    assert forall|k: int| 0 <= k < t.len() implies #[trigger] t[k].severity == severity_of(t[k].event) by {
        if k >= evs.len() {
            assert(t[k] == stamp_all(last, timeouts(a.txs, last))[k - evs.len()]);
        } else {
            assert(t[k] == evs[k]);
        }
    }
    law_anomalies_by_kind(t);
}

/// Every event of a run carries the severity of its kind.
proof fn lemma_run_severities(pkts: Seq<CapturedView>)
    ensures
        forall|k: int| 0 <= k < run(pkts).1.len() ==> #[trigger] run(pkts).1[k].severity == severity_of(
            run(pkts).1[k].event,
        ),
    decreases pkts.len(),
{
    if pkts.len() > 0 {
        lemma_run_severities(pkts.drop_last());
        let evs0 = run(pkts.drop_last()).1;
        let evs = run(pkts).1;
        assert forall|k: int| 0 <= k < evs.len() implies #[trigger] evs[k].severity == severity_of(evs[k].event) by {
            if k < evs0.len() {
                assert(evs[k] == evs0[k]);
            }
        }
    }
}

/// The anomaly count split by kind.
proof fn lemma_anomalies_by_kind(evs: Seq<TimedEventView>)
    requires
        forall|k: int| 0 <= k < evs.len() ==> #[trigger] evs[k].severity == severity_of(evs[k].event),
    ensures
        count_anomalies(evs) == select(evs, |e: EventView| e is RogueServerDetected).len() + select(
            evs,
            |e: EventView| e is NakReceived,
        ).len() + select(evs, |e: EventView| e is LeaseTimeout).len() + select(
            evs,
            |e: EventView| e is IpConflict || e is LeaseConflict,
        ).len() + select(evs, |e: EventView| e is DiscoverFlood).len(),
    decreases evs.len(),
{
    if evs.len() > 0 {
        let prev = evs.drop_last();
        assert forall|k: int| 0 <= k < prev.len() implies #[trigger] prev[k].severity == severity_of(prev[k].event) by {
            assert(prev[k] == evs[k]);
        }
        lemma_anomalies_by_kind(prev);
        assert(evs.last() == evs[evs.len() - 1]);
    }
}

// ── Affected clients ────────────────────────────────────────────────────────

/// The keys `f` gives to the events of a sequence.
pub open spec fn keys_of(s: Seq<TimedEventView>, f: spec_fn(EventView) -> Seq<char>) -> Seq<Seq<char>> {
    s.map_values(|t: TimedEventView| f(t.event))
}

/// The distinct keys of the events selected by `p` hold no key twice and
/// are exactly the keys of those events.
proof fn lemma_distinct_keys(evs: Seq<TimedEventView>, p: spec_fn(EventView) -> bool, f: spec_fn(EventView) -> Seq<char>)
    ensures
        distinct(keys_of(select(evs, p), f)).no_duplicates(),
        forall|m: Seq<char>| #[trigger] distinct(keys_of(select(evs, p), f)).contains(m) <==> exists|k: int|
            0 <= k < evs.len() && p(evs[k].event) && f(evs[k].event) == m,
    decreases evs.len(),
{
    let sel = select(evs, p);
    if evs.len() == 0 {
        assert(keys_of(sel, f) =~= Seq::<Seq<char>>::empty());
    } else {
        let prev = evs.drop_last();
        let n = evs.len() - 1;
        lemma_distinct_keys(prev, p, f);
        let ps = select(prev, p);
        let d0 = distinct(keys_of(ps, f));
        assert(evs.last() == evs[n]);
        if p(evs[n].event) {
            let x = f(evs[n].event);
            assert(sel == ps.push(evs[n]));
            assert(keys_of(sel, f).drop_last() =~= keys_of(ps, f));
            assert(keys_of(sel, f).last() == x);
            assert(distinct(keys_of(sel, f)) == seq_add(d0, x));
            if !d0.contains(x) {
                assert forall|i: int, j: int| 0 <= i < j < d0.push(x).len() implies d0.push(x)[i] != d0.push(x)[j] by {
                    if j == d0.len() {
                        assert(d0.push(x)[i] == d0[i]);
                    }
                }
            }
        } else {
            assert(sel == ps);
        }
        let d = distinct(keys_of(sel, f));
        assert forall|m: Seq<char>| #[trigger] d.contains(m) <==> exists|k: int|
            0 <= k < evs.len() && p(evs[k].event) && f(evs[k].event) == m by {
            if d.contains(m) {
                if d0.contains(m) {
                    let k = choose|k: int| 0 <= k < prev.len() && p(prev[k].event) && f(prev[k].event) == m;
                    assert(evs[k] == prev[k]);
                } else {
                    let i = choose|i: int| 0 <= i < d.len() && d[i] == m;
                    if p(evs[n].event) && !d0.contains(f(evs[n].event)) {
                        if i < d0.len() {
                            assert(d0[i] == m);
                        }
                    }
                    assert(p(evs[n].event) && f(evs[n].event) == m);
                }
            }
            if exists|k: int| 0 <= k < evs.len() && p(evs[k].event) && f(evs[k].event) == m {
                let k = choose|k: int| 0 <= k < evs.len() && p(evs[k].event) && f(evs[k].event) == m;
                if k < n {
                    assert(prev[k] == evs[k]);
                    assert(d0.contains(m));
                    let i = choose|i: int| 0 <= i < d0.len() && d0[i] == m;
                    if p(evs[n].event) && !d0.contains(f(evs[n].event)) {
                        assert(d[i] == m);
                    }
                } else {
                    if !d0.contains(m) {
                        assert(d[d0.len() as int] == m);
                    }
                }
            }
        }
    }
}

/// A server-unreachable cause is reported exactly when some client timed
/// out. Its affected clients hold each client address once: exactly the
/// addresses of the clients that timed out, however many of their
/// transactions did. Its headline counts those clients.
pub proof fn law_unreachable_affected_clients(evs: Seq<TimedEventView>)
    ensures
        unreachable_cause(evs) is Some <==> exists|k: int| 0 <= k < evs.len() && #[trigger] evs[k].event is LeaseTimeout,
        unreachable_cause(evs) matches Some(c) ==> {
            &&& c.affected_clients.no_duplicates()
            &&& forall|m: Seq<char>| #[trigger] c.affected_clients.contains(m) <==> exists|k: int|
                0 <= k < evs.len() && evs[k].event is LeaseTimeout && event_client(evs[k].event) == m
            &&& c.headline == "DHCP server unreachable — "@ + dec_text(c.affected_clients.len())
                + " client(s) timed out without OFFER"@
        },
{
    let p = |e: EventView| is_timeout(e);
    let f = |e: EventView| event_client(e);
    lemma_distinct_keys(evs, p, f);
    let sel = select(evs, p);
    assert(clients_of(sel) =~= keys_of(sel, f));
    lemma_some_selected(evs, p);
}

/// A rogue-server cause is reported exactly when some OFFER came from a
/// rogue server. Its affected clients are the distinct addresses of the
/// clients that received such an OFFER, each once, and its headline counts them.
pub proof fn law_rogue_affected_clients(evs: Seq<TimedEventView>)
    ensures
        rogue_cause(evs) is Some <==> exists|k: int| 0 <= k < evs.len() && #[trigger] evs[k].event is RogueServerDetected,
        rogue_cause(evs) matches Some(c) ==> {
            &&& c.affected_clients.no_duplicates()
            &&& forall|m: Seq<char>| #[trigger] c.affected_clients.contains(m) <==> exists|k: int|
                0 <= k < evs.len() && evs[k].event is RogueServerDetected && event_client(evs[k].event) == m
            &&& c.headline == "Rogue DHCP server detected — "@ + dec_text(c.affected_clients.len())
                + " client(s) affected"@
        },
{
    let p = |e: EventView| is_rogue(e);
    let f = |e: EventView| event_client(e);
    lemma_distinct_keys(evs, p, f);
    let sel = select(evs, p);
    assert(clients_of(sel) =~= keys_of(sel, f));
    lemma_some_selected(evs, p);
}

/// A lease-conflict cause is reported exactly when some ACK hit an address
/// leased to another client. Its affected clients are the distinct
/// addresses of the clients acknowledged such an address, each once.
pub proof fn law_lease_conflict_affected_clients(evs: Seq<TimedEventView>)
    ensures
        lease_conflict_cause(evs) is Some <==> exists|k: int| 0 <= k < evs.len() && #[trigger] evs[k].event is LeaseConflict,
        lease_conflict_cause(evs) matches Some(c) ==> {
            &&& c.affected_clients.no_duplicates()
            &&& forall|m: Seq<char>| #[trigger] c.affected_clients.contains(m) <==> exists|k: int|
                0 <= k < evs.len() && evs[k].event is LeaseConflict && event_client(evs[k].event) == m
        },
{
    let p = |e: EventView| is_lease_conflict(e);
    let f = |e: EventView| event_client(e);
    lemma_distinct_keys(evs, p, f);
    let sel = select(evs, p);
    assert(clients_of(sel) =~= keys_of(sel, f));
    lemma_some_selected(evs, p);
}

/// An address-conflict cause is reported exactly when some address was
/// acknowledged to two clients. It lists the conflicting addresses, each
/// once, and its headline counts them.
pub proof fn law_ip_conflict_addresses(evs: Seq<TimedEventView>)
    ensures
        ip_conflict_cause(evs) is Some <==> exists|k: int| 0 <= k < evs.len() && #[trigger] evs[k].event is IpConflict,
        ip_conflict_cause(evs) matches Some(c) ==> {
            &&& c.affected_clients.no_duplicates()
            &&& forall|m: Seq<char>| #[trigger] c.affected_clients.contains(m) <==> exists|k: int|
                0 <= k < evs.len() && evs[k].event is IpConflict && conflict_ip(evs[k].event) == m
            &&& c.headline == "IP address conflict — "@ + dec_text(c.affected_clients.len())
                + " address(es) assigned to multiple clients"@
        },
{
    let p = |e: EventView| is_ip_conflict(e);
    let f = |e: EventView| conflict_ip(e);
    lemma_distinct_keys(evs, p, f);
    let sel = select(evs, p);
    assert(sel.map_values(|t: TimedEventView| conflict_ip(t.event)) =~= keys_of(sel, f));
    lemma_some_selected(evs, p);
}

/// The first selected event is the first event of the timeline that qualifies.
proof fn lemma_select_first(evs: Seq<TimedEventView>, p: spec_fn(EventView) -> bool)
    ensures
        select(evs, p).len() > 0 ==> exists|k: int|
            0 <= k < evs.len() && p(#[trigger] evs[k].event) && (forall|j: int| 0 <= j < k ==> !p(#[trigger] evs[j].event))
                && select(evs, p)[0] == evs[k],
    decreases evs.len(),
{
    if evs.len() > 0 {
        let prev = evs.drop_last();
        let n = evs.len() - 1;
        lemma_select_first(prev, p);
        let ps = select(prev, p);
        assert(evs.last() == evs[n]);
        if ps.len() > 0 {
            let k = choose|k: int|
                0 <= k < prev.len() && p(#[trigger] prev[k].event) && (forall|j: int| 0 <= j < k ==> !p(#[trigger] prev[j].event))
                    && ps[0] == prev[k];
            assert(evs[k] == prev[k]);
            assert forall|j: int| 0 <= j < k implies !p(#[trigger] evs[j].event) by {
                assert(evs[j] == prev[j]);
            }
            assert(select(evs, p)[0] == ps[0]);
        } else if p(evs[n].event) {
            lemma_some_selected(prev, p);
            assert forall|j: int| 0 <= j < n implies !p(#[trigger] evs[j].event) by {
                assert(evs[j] == prev[j]);
            }
        }
    }
}

/// The last selected event is the last event of the timeline that qualifies.
proof fn lemma_select_last(evs: Seq<TimedEventView>, p: spec_fn(EventView) -> bool)
    ensures
        select(evs, p).len() > 0 ==> exists|k: int|
            0 <= k < evs.len() && p(#[trigger] evs[k].event) && (forall|j: int|
                k < j < evs.len() ==> !p(#[trigger] evs[j].event)) && select(evs, p).last() == evs[k],
    decreases evs.len(),
{
    if evs.len() > 0 {
        let prev = evs.drop_last();
        let n = evs.len() - 1;
        assert(evs.last() == evs[n]);
        if !p(evs[n].event) {
            lemma_select_last(prev, p);
            let ps = select(prev, p);
            if ps.len() > 0 {
                let k = choose|k: int|
                    0 <= k < prev.len() && p(#[trigger] prev[k].event) && (forall|j: int|
                        k < j < prev.len() ==> !p(#[trigger] prev[j].event)) && ps.last() == prev[k];
                assert(evs[k] == prev[k]);
                assert forall|j: int| k < j < evs.len() implies !p(#[trigger] evs[j].event) by {
                    if j < n {
                        assert(evs[j] == prev[j]);
                    }
                }
            }
        }
    }
}

/// A server-unreachable cause is a warning with confidence 60 when the
/// timeline also reports a DISCOVER flood, and critical with confidence 85
/// otherwise. It cites one piece of evidence per lease timeout, and spans
/// from the first lease timeout to the last.
pub proof fn law_unreachable_span_and_severity(evs: Seq<TimedEventView>)
    ensures
        unreachable_cause(evs) matches Some(c) ==> {
            &&& (exists|k: int| 0 <= k < evs.len() && #[trigger] evs[k].event is DiscoverFlood) ==> c.severity
                == RootCauseSeverity::Warning && c.confidence == 60
            &&& (forall|k: int| 0 <= k < evs.len() ==> !(#[trigger] evs[k].event is DiscoverFlood)) ==> c.severity
                == RootCauseSeverity::Critical && c.confidence == 85
            &&& c.evidence.len() == evs.filter(|t: TimedEventView| t.event is LeaseTimeout).len()
            &&& exists|k: int|
                0 <= k < evs.len() && (#[trigger] evs[k].event) is LeaseTimeout && (forall|j: int|
                    0 <= j < k ==> !(#[trigger] evs[j].event is LeaseTimeout)) && c.first_seen == evs[k].ts.micros()
            &&& exists|k: int|
                0 <= k < evs.len() && (#[trigger] evs[k].event) is LeaseTimeout && (forall|j: int|
                    k < j < evs.len() ==> !(#[trigger] evs[j].event is LeaseTimeout)) && c.last_seen
                    == evs[k].ts.micros()
        },
{
    let pt = |e: EventView| is_timeout(e);
    let pf = |e: EventView| is_flood(e);
    lemma_some_selected(evs, pf);
    lemma_select_first(evs, pt);
    lemma_select_last(evs, pt);
    lemma_select_filter(evs, pt, |t: TimedEventView| t.event is LeaseTimeout);
    let to = select(evs, pt);
    if to.len() > 0 {
        let k0 = choose|k: int|
            0 <= k < evs.len() && pt(#[trigger] evs[k].event) && (forall|j: int| 0 <= j < k ==> !pt(#[trigger] evs[j].event))
                && to[0] == evs[k];
        let k1 = choose|k: int|
            0 <= k < evs.len() && pt(#[trigger] evs[k].event) && (forall|j: int|
                k < j < evs.len() ==> !pt(#[trigger] evs[j].event)) && to.last() == evs[k];
        assert(evs[k0].event is LeaseTimeout);
        assert(evs[k1].event is LeaseTimeout);
        assert(forall|j: int| 0 <= j < k0 ==> !pt(#[trigger] evs[j].event));
    }
}

/// A selection is empty exactly when no event qualifies.
proof fn lemma_some_selected(evs: Seq<TimedEventView>, p: spec_fn(EventView) -> bool)
    ensures
        select(evs, p).len() > 0 <==> exists|k: int| 0 <= k < evs.len() && p(#[trigger] evs[k].event),
    decreases evs.len(),
{
    if evs.len() > 0 {
        let prev = evs.drop_last();
        lemma_some_selected(prev, p);
        let n = evs.len() - 1;
        assert(evs.last() == evs[n]);
        if exists|k: int| 0 <= k < prev.len() && p(#[trigger] prev[k].event) {
            let k = choose|k: int| 0 <= k < prev.len() && p(#[trigger] prev[k].event);
            assert(evs[k] == prev[k]);
        }
        if exists|k: int| 0 <= k < evs.len() && p(#[trigger] evs[k].event) {
            let k = choose|k: int| 0 <= k < evs.len() && p(#[trigger] evs[k].event);
            if k < n {
                assert(prev[k] == evs[k]);
            }
        }
    }
}

/// The state a message leaves its transaction in: Requesting after a
/// REQUEST, Bound after an ACK, Init after a NAK; after an OFFER the
/// transaction keeps its state (Selecting when it is new). Each of these
/// messages opens the transaction when the capture missed its beginning.
pub proof fn law_message_moves_transaction(a: AnalyzerView, p: PacketView, src_ip: Seq<char>, ts: Timestamp)
    requires
        txs_distinct(a.txs),
        p.msg_type is Offer || p.msg_type is Request || p.msg_type is Ack || p.msg_type is Nak,
    ensures
        ({
            let b = process_spec(a, p, src_ip, ts).0;
            exists|i: int| #![trigger b.txs[i]]
                0 <= i < b.txs.len() && b.txs[i].xid == p.xid && b.txs[i].last_ts == ts && (match p.msg_type {
                    DhcpMessageType::Request => b.txs[i].fsm_state == DhcpClientState::Requesting,
                    DhcpMessageType::Ack => b.txs[i].fsm_state == DhcpClientState::Bound,
                    DhcpMessageType::Nak => b.txs[i].fsm_state == DhcpClientState::Init,
                    _ => b.txs[i].fsm_state == (match tx_index(a.txs, p.xid) {
                        Some(j) => a.txs[j].fsm_state,
                        None => DhcpClientState::Selecting,
                    }),
                })
        }),
{
    let b = process_spec(a, p, src_ip, ts).0;
    let i = match tx_index(a.txs, p.xid) {
        Some(j) => j,
        None => a.txs.len() as int,
    };
    assert(b.txs[i].xid == p.xid);
}

} // verus!
