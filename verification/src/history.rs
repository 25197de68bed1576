//! What the analyzer reports for a packet, stated over the history of
//! packets fed to a fresh analyzer rather than over its internal state.

use vstd::prelude::*;
use crate::analyzer::{
    AnalyzerView, DhcpClientState, EventView, Timestamp, TxView, ack_step, discover_step, ensure_tx, offer_step, initial_state, lease_drop,
    lease_holder, lease_index, lease_put, leases_distinct, new_tx, process_spec, seq_add, server_or,
    state_name, tx_index, txs_distinct, zero_ip,
};
use crate::dhcp::{DhcpMessageType, PacketView};
use crate::text::{ip_text, mac_text};
use crate::analyzer::{elapsed_micros, offer_timeout_us, timed_out, timeout_event, timeouts};
use crate::laws::law_timeouts_exact;
use crate::root_cause::distinct;

verus! {

/// One packet fed to the analyzer: the packet, its sender and its time.
pub struct Step {
    pub packet: PacketView,
    pub src_ip: Seq<char>,
    pub ts: Timestamp,
}

/// The analyzer state after feeding `steps`, in order, to a fresh analyzer.
pub open spec fn replay(steps: Seq<Step>) -> AnalyzerView
    decreases steps.len(),
{
    if steps.len() == 0 {
        initial_state()
    } else {
        let s = steps.last();
        process_spec(replay(steps.drop_last()), s.packet, s.src_ip, s.ts).0
    }
}

/// The message types that open a transaction for an unseen xid.
pub open spec fn opens_tx(t: DhcpMessageType) -> bool {
    t is Discover || t is Offer || t is Request || t is Ack || t is Nak
}

/// The client address of the packet that first opened a transaction for `xid`, if any.
pub open spec fn creator_mac(steps: Seq<Step>, xid: u32) -> Option<Seq<char>>
    decreases steps.len(),
{
    if steps.len() == 0 {
        None
    } else {
        let prev = creator_mac(steps.drop_last(), xid);
        let p = steps.last().packet;
        if prev is Some {
            prev
        } else if p.xid == xid && opens_tx(p.msg_type) {
            Some(mac_text(p.client_mac))
        } else {
            None
        }
    }
}

/// The distinct servers of the OFFERs for `xid`, in order of their first OFFER.
pub open spec fn offer_servers(steps: Seq<Step>, xid: u32) -> Seq<Seq<char>>
    decreases steps.len(),
{
    if steps.len() == 0 {
        Seq::empty()
    } else {
        let prev = offer_servers(steps.drop_last(), xid);
        let s = steps.last();
        if s.packet.xid == xid && s.packet.msg_type == DhcpMessageType::Offer {
            seq_add(prev, server_or(s.packet, s.src_ip))
        } else {
            prev
        }
    }
}

/// The client holding `ip` after `steps`: the transaction client of the
/// latest ACK for `ip` (never for "0.0.0.0"), unless a RELEASE of `ip` came after it.
pub open spec fn lease_history(steps: Seq<Step>, ip: Seq<char>) -> Option<Seq<char>>
    decreases steps.len(),
{
    if steps.len() == 0 {
        None
    } else {
        let p = steps.last().packet;
        if p.msg_type == DhcpMessageType::Ack && ip_text(p.yiaddr) == ip && ip != zero_ip() {
            creator_mac(steps, p.xid)
        } else if p.msg_type == DhcpMessageType::Release && ip_text(p.ciaddr) == ip {
            None
        } else {
            lease_history(steps.drop_last(), ip)
        }
    }
}

/// When the client of `xid` has been waiting for an OFFER since its
/// DISCOVER: the time of the DISCOVER that opened the transaction, as long as
/// no OFFER, REQUEST, ACK, NAK or RELEASE for `xid` followed.
pub open spec fn waiting_since(steps: Seq<Step>, xid: u32) -> Option<Timestamp>
    decreases steps.len(),
{
    if steps.len() == 0 {
        None
    } else {
        let prev = waiting_since(steps.drop_last(), xid);
        let s = steps.last();
        let p = s.packet;
        if p.xid != xid {
            prev
        } else {
            match p.msg_type {
                DhcpMessageType::Discover => if creator_mac(steps.drop_last(), xid) is Some { prev } else { Some(s.ts) },
                DhcpMessageType::Offer | DhcpMessageType::Request | DhcpMessageType::Ack | DhcpMessageType::Nak
                | DhcpMessageType::Release => None,
                _ => prev,
            }
        }
    }
}

/// The transaction record for `xid`, if any.
pub open spec fn tx_of(txs: Seq<TxView>, xid: u32) -> Option<TxView> {
    match tx_index(txs, xid) {
        Some(i) => Some(txs[i]),
        None => None,
    }
}

/// A transaction record's client and servers.
pub open spec fn client_and_offers(t: Option<TxView>) -> Option<(Seq<char>, Seq<Seq<char>>)> {
    match t {
        Some(x) => Some((x.client_mac, x.offers)),
        None => None,
    }
}

/// The client and servers that the history gives a transaction.
pub open spec fn history_tx(steps: Seq<Step>, xid: u32) -> Option<(Seq<char>, Seq<Seq<char>>)> {
    match creator_mac(steps, xid) {
        Some(m) => Some((m, offer_servers(steps, xid))),
        None => None,
    }
}

/// Replacing a record by one with the same xid keeps every lookup but that one.
proof fn lemma_update_tx(txs: Seq<TxView>, i: int, t: TxView)
    requires
        txs_distinct(txs),
        0 <= i < txs.len(),
        t.xid == txs[i].xid,
    ensures
        txs_distinct(txs.update(i, t)),
        forall|x: u32| #[trigger] tx_of(txs.update(i, t), x) == (if x == t.xid { Some(t) } else { tx_of(txs, x) }),
{
    let u = txs.update(i, t);
    assert forall|k: int| 0 <= k < u.len() implies #[trigger] u[k].xid == txs[k].xid by {}
    assert forall|x: u32| #[trigger] tx_of(u, x) == (if x == t.xid { Some(t) } else { tx_of(txs, x) }) by {
        if exists|k: int| 0 <= k < txs.len() && txs[k].xid == x {
            let k1 = choose|k: int| 0 <= k < txs.len() && txs[k].xid == x;
            assert(u[k1].xid == x);
            let k2 = choose|k: int| 0 <= k < u.len() && u[k].xid == x;
            assert(txs[k2].xid == x);
            assert(k1 == k2);
            if x == t.xid {
                assert(txs[i].xid == x);
                assert(k1 == i);
            }
        } else {
            assert forall|k: int| 0 <= k < u.len() implies u[k].xid != x by {
                assert(u[k].xid == txs[k].xid);
            }
            if x == t.xid {
                assert(txs[i].xid == x);
            }
        }
    }
}

/// Appending a record for an unseen xid keeps every other lookup.
proof fn lemma_push_tx(txs: Seq<TxView>, t: TxView)
    requires
        txs_distinct(txs),
        tx_index(txs, t.xid) is None,
    ensures
        txs_distinct(txs.push(t)),
        forall|x: u32| #[trigger] tx_of(txs.push(t), x) == (if x == t.xid { Some(t) } else { tx_of(txs, x) }),
{
    let u = txs.push(t);
    assert forall|x: u32| #[trigger] tx_of(u, x) == (if x == t.xid { Some(t) } else { tx_of(txs, x) }) by {
        if x == t.xid {
            assert(u[txs.len() as int].xid == x);
            let k2 = choose|k: int| 0 <= k < u.len() && u[k].xid == x;
            if k2 < txs.len() {
                assert(txs[k2].xid == x);
            }
        } else if exists|k: int| 0 <= k < txs.len() && txs[k].xid == x {
            let k1 = choose|k: int| 0 <= k < txs.len() && txs[k].xid == x;
            assert(u[k1].xid == x);
            let k2 = choose|k: int| 0 <= k < u.len() && u[k].xid == x;
            assert(k2 < txs.len());
            assert(txs[k2].xid == x);
        } else {
            assert forall|k: int| 0 <= k < u.len() implies u[k].xid != x by {
                if k < txs.len() {
                    assert(u[k] == txs[k]);
                }
            }
        }
    }
}

/// Recording a lease changes the holder of that address only.
proof fn lemma_put_holder(l: Seq<(Seq<char>, Seq<char>)>, k: Seq<char>, v: Seq<char>)
    requires
        leases_distinct(l),
    ensures
        leases_distinct(lease_put(l, k, v)),
        forall|ip: Seq<char>| #[trigger] lease_holder(lease_put(l, k, v), ip) == (if ip == k {
            Some(v)
        } else {
            lease_holder(l, ip)
        }),
{
    let n = lease_put(l, k, v);
    assert forall|ip: Seq<char>| #[trigger] lease_holder(n, ip) == (if ip == k {
        Some(v)
    } else {
        lease_holder(l, ip)
    }) by {
        match lease_index(l, k) {
            Some(i) => {
                assert(n[i].0 == k);
                assert forall|j: int| 0 <= j < n.len() implies #[trigger] n[j].0 == l[j].0 by {}
                if exists|j: int| 0 <= j < l.len() && l[j].0 == ip {
                    let j1 = choose|j: int| 0 <= j < l.len() && l[j].0 == ip;
                    assert(n[j1].0 == ip);
                    let j2 = choose|j: int| 0 <= j < n.len() && n[j].0 == ip;
                    assert(l[j2].0 == ip);
                    assert(j1 == j2);
                    if ip == k {
                        assert(l[i].0 == ip);
                    }
                }
            },
            None => {
                assert(n[l.len() as int].0 == k);
                if ip == k {
                    let j2 = choose|j: int| 0 <= j < n.len() && n[j].0 == ip;
                    if j2 < l.len() {
                        assert(l[j2].0 == ip);
                    }
                } else if exists|j: int| 0 <= j < l.len() && l[j].0 == ip {
                    let j1 = choose|j: int| 0 <= j < l.len() && l[j].0 == ip;
                    assert(n[j1].0 == ip);
                    let j2 = choose|j: int| 0 <= j < n.len() && n[j].0 == ip;
                    assert(j2 < l.len());
                    assert(l[j2].0 == ip);
                } else {
                    assert forall|j: int| 0 <= j < n.len() implies n[j].0 != ip by {
                        if j < l.len() {
                            assert(n[j] == l[j]);
                        }
                    }
                }
            },
        }
    }
}

/// Ending a lease changes the holder of that address only.
proof fn lemma_drop_holder(l: Seq<(Seq<char>, Seq<char>)>, k: Seq<char>)
    requires
        leases_distinct(l),
    ensures
        leases_distinct(lease_drop(l, k)),
        forall|ip: Seq<char>| #[trigger] lease_holder(lease_drop(l, k), ip) == (if ip == k {
            None
        } else {
            lease_holder(l, ip)
        }),
{
    let n = lease_drop(l, k);
    match lease_index(l, k) {
        Some(i) => {
            assert forall|j: int| 0 <= j < n.len() implies #[trigger] n[j] == (if j < i { l[j] } else { l[j + 1] }) by {}
            assert forall|ip: Seq<char>| #[trigger] lease_holder(n, ip) == (if ip == k {
                None
            } else {
                lease_holder(l, ip)
            }) by {
                if ip == k {
                    assert forall|j: int| 0 <= j < n.len() implies n[j].0 != ip by {
                        if j < i {
                            assert(n[j] == l[j]);
                        } else {
                            assert(n[j] == l[j + 1]);
                        }
                    }
                } else if exists|j: int| 0 <= j < l.len() && l[j].0 == ip {
                    let j1 = choose|j: int| 0 <= j < l.len() && l[j].0 == ip;
                    assert(j1 != i);
                    let m = if j1 < i { j1 } else { j1 - 1 };
                    assert(n[m] == l[j1]);
                    let j2 = choose|j: int| 0 <= j < n.len() && n[j].0 == ip;
                    let o = if j2 < i { j2 } else { j2 + 1 };
                    assert(n[j2] == l[o]);
                    assert(o == j1);
                } else {
                    assert forall|j: int| 0 <= j < n.len() implies n[j].0 != ip by {
                        if j < i {
                            assert(n[j] == l[j]);
                        } else {
                            assert(n[j] == l[j + 1]);
                        }
                    }
                }
            }
        },
        None => {},
    }
}


/// A transaction's client and servers after a packet for its xid.
pub open spec fn stepped_tx(cur: Option<(Seq<char>, Seq<Seq<char>>)>, p: PacketView, src_ip: Seq<char>) -> Option<
    (Seq<char>, Seq<Seq<char>>),
> {
    if opens_tx(p.msg_type) {
        let base = match cur {
            Some(c) => c,
            None => (mac_text(p.client_mac), Seq::empty()),
        };
        if p.msg_type == DhcpMessageType::Offer {
            Some((base.0, seq_add(base.1, server_or(p, src_ip))))
        } else {
            Some(base)
        }
    } else {
        cur
    }
}

/// When a transaction is still selecting without any OFFER: the time of its DISCOVER.
pub open spec fn quiet_tx(t: Option<TxView>) -> Option<Timestamp> {
    match t {
        Some(x) => if x.fsm_state == DhcpClientState::Selecting && x.offers.len() == 0 {
            Some(x.discover_ts)
        } else {
            None
        },
        None => None,
    }
}

/// How a packet for a transaction changes `quiet_tx`: a DISCOVER that opens
/// it starts the wait; a retransmitted DISCOVER keeps it; an OFFER, REQUEST,
/// ACK, NAK or RELEASE ends it.
pub open spec fn stepped_quiet(cur: Option<Timestamp>, known: bool, p: PacketView, ts: Timestamp) -> Option<
    Timestamp,
> {
    match p.msg_type {
        DhcpMessageType::Discover => if known { cur } else { Some(ts) },
        DhcpMessageType::Offer | DhcpMessageType::Request | DhcpMessageType::Ack | DhcpMessageType::Nak
        | DhcpMessageType::Release => None,
        _ => cur,
    }
}

/// A record with a transaction made sure of and then replaced at its index.
proof fn lemma_ensure_update(
    txs: Seq<TxView>,
    xid: u32,
    fresh: TxView,
    after: Seq<TxView>,
)
    requires
        txs_distinct(txs),
        fresh.xid == xid,
        ensure_tx(txs, xid, fresh).1 < after.len(),
        after == ensure_tx(txs, xid, fresh).0.update(
            ensure_tx(txs, xid, fresh).1,
            after[ensure_tx(txs, xid, fresh).1],
        ),
        after[ensure_tx(txs, xid, fresh).1].xid == xid,
    ensures
        txs_distinct(after),
        forall|x: u32| #[trigger] tx_of(after, x) == (if x == xid {
            Some(after[ensure_tx(txs, xid, fresh).1])
        } else {
            tx_of(txs, x)
        }),
{
    let (t1, i) = ensure_tx(txs, xid, fresh);
    match tx_index(txs, xid) {
        Some(j) => {
            assert(txs[j].xid == xid);
            lemma_update_tx(txs, i, after[i]);
        },
        None => {
            lemma_push_tx(txs, fresh);
            assert(t1[i] == fresh);
            lemma_update_tx(t1, i, after[i]);
            assert forall|x: u32| #[trigger] tx_of(after, x) == (if x == xid {
                Some(after[i])
            } else {
                tx_of(txs, x)
            }) by {
                assert(tx_of(after, x) == (if x == xid { Some(after[i]) } else { tx_of(t1, x) }));
            }
        },
    }
}

/// How a packet changes the transaction records: only its own xid's record
/// changes, and its client and servers become `stepped_tx` of the old ones.
proof fn lemma_step_txs(a: AnalyzerView, p: PacketView, src_ip: Seq<char>, ts: Timestamp)
    requires
        txs_distinct(a.txs),
    ensures
        txs_distinct(process_spec(a, p, src_ip, ts).0.txs),
        forall|x: u32| #[trigger] client_and_offers(tx_of(process_spec(a, p, src_ip, ts).0.txs, x)) == (if x
            == p.xid {
            stepped_tx(client_and_offers(tx_of(a.txs, x)), p, src_ip)
        } else {
            client_and_offers(tx_of(a.txs, x))
        }),
        forall|x: u32| #[trigger] quiet_tx(tx_of(process_spec(a, p, src_ip, ts).0.txs, x)) == (if x == p.xid {
            stepped_quiet(quiet_tx(tx_of(a.txs, x)), tx_of(a.txs, x) is Some, p, ts)
        } else {
            quiet_tx(tx_of(a.txs, x))
        }),
{
    let b = process_spec(a, p, src_ip, ts).0;
    let mac = mac_text(p.client_mac);
    match p.msg_type {
        DhcpMessageType::Discover => {
            match tx_index(a.txs, p.xid) {
                Some(i) => {
                    assert(a.txs[i].xid == p.xid);
                    lemma_update_tx(a.txs, i, b.txs[i]);
                    assert(b.txs == a.txs.update(i, b.txs[i]));
                },
                None => {
                    lemma_push_tx(a.txs, new_tx(p.xid, mac, DhcpClientState::Selecting, ts));
                },
            }
        },
        DhcpMessageType::Offer | DhcpMessageType::Request => {
            let fresh = new_tx(p.xid, mac, DhcpClientState::Selecting, ts);
            let (t1, i) = ensure_tx(a.txs, p.xid, fresh);
            if let Some(j) = tx_index(a.txs, p.xid) {
                assert(a.txs[j].xid == p.xid);
            }
            assert(b.txs == t1.update(i, b.txs[i]));
            lemma_ensure_update(a.txs, p.xid, fresh, b.txs);
        },
        DhcpMessageType::Ack | DhcpMessageType::Nak => {
            let fresh = new_tx(p.xid, mac, DhcpClientState::Requesting, ts);
            let (t1, i) = ensure_tx(a.txs, p.xid, fresh);
            if let Some(j) = tx_index(a.txs, p.xid) {
                assert(a.txs[j].xid == p.xid);
            }
            assert(b.txs == t1.update(i, b.txs[i]));
            lemma_ensure_update(a.txs, p.xid, fresh, b.txs);
        },
        DhcpMessageType::Release => {
            match tx_index(a.txs, p.xid) {
                Some(i) => {
                    assert(a.txs[i].xid == p.xid);
                    lemma_update_tx(a.txs, i, b.txs[i]);
                    assert(b.txs == a.txs.update(i, b.txs[i]));
                },
                None => {},
            }
        },
        _ => {},
    }
}


/// The client of the transaction a packet belongs to, once opened.
pub open spec fn packet_client(a: AnalyzerView, p: PacketView) -> Seq<char> {
    match tx_of(a.txs, p.xid) {
        Some(t) => t.client_mac,
        None => mac_text(p.client_mac),
    }
}

/// How a packet changes the lease table: an ACK (for an address other than
/// "0.0.0.0") leases its address to its transaction's client, a RELEASE
/// ends the lease on ciaddr, nothing else changes it.
proof fn lemma_step_leases(a: AnalyzerView, p: PacketView, src_ip: Seq<char>, ts: Timestamp)
    requires
        txs_distinct(a.txs),
        leases_distinct(a.leases),
    ensures
        leases_distinct(process_spec(a, p, src_ip, ts).0.leases),
        forall|ip: Seq<char>| #[trigger] lease_holder(process_spec(a, p, src_ip, ts).0.leases, ip) == (if p.msg_type
            == DhcpMessageType::Ack && ip_text(p.yiaddr) != zero_ip() && ip == ip_text(p.yiaddr) {
            Some(packet_client(a, p))
        } else if p.msg_type == DhcpMessageType::Release && ip == ip_text(p.ciaddr) {
            None
        } else {
            lease_holder(a.leases, ip)
        }),
{
    let mac = mac_text(p.client_mac);
    match p.msg_type {
        DhcpMessageType::Ack => {
            let fresh = new_tx(p.xid, mac, DhcpClientState::Requesting, ts);
            let (t1, i) = ensure_tx(a.txs, p.xid, fresh);
            match tx_index(a.txs, p.xid) {
                Some(j) => {
                    assert(t1[i] == a.txs[j]);
                },
                None => {},
            }
            assert(t1[i].client_mac == packet_client(a, p));
            if ip_text(p.yiaddr) != zero_ip() {
                lemma_put_holder(a.leases, ip_text(p.yiaddr), t1[i].client_mac);
            }
        },
        DhcpMessageType::Release => {
            lemma_drop_holder(a.leases, ip_text(p.ciaddr));
        },
        _ => {},
    }
}

/// What the analyzer state after a history says about each transaction and each lease.
pub open spec fn replay_agrees(steps: Seq<Step>) -> bool {
    let a = replay(steps);
    &&& txs_distinct(a.txs)
    &&& leases_distinct(a.leases)
    &&& forall|x: u32| #[trigger] client_and_offers(tx_of(a.txs, x)) == history_tx(steps, x)
    &&& forall|x: u32| #[trigger] creator_mac(steps, x) is None ==> offer_servers(steps, x).len() == 0
    &&& forall|ip: Seq<char>| #[trigger] lease_holder(a.leases, ip) == lease_history(steps, ip)
    &&& forall|x: u32| #[trigger] quiet_tx(tx_of(a.txs, x)) == waiting_since(steps, x)
}

/// The analyzer state after any history agrees with the history.
pub proof fn lemma_replay_agrees(steps: Seq<Step>)
    ensures
        replay_agrees(steps),
    decreases steps.len(),
{
    if steps.len() == 0 {
        assert forall|x: u32| #[trigger] client_and_offers(tx_of(replay(steps).txs, x)) == history_tx(steps, x) by {
            assert(tx_index(replay(steps).txs, x) is None);
        }
        assert forall|x: u32| #[trigger] quiet_tx(tx_of(replay(steps).txs, x)) == waiting_since(steps, x) by {
            assert(tx_index(replay(steps).txs, x) is None);
        }
    } else {
        let prev = steps.drop_last();
        lemma_replay_agrees(prev);
        let a = replay(prev);
        let s = steps.last();
        let p = s.packet;
        lemma_step_txs(a, p, s.src_ip, s.ts);
        lemma_step_leases(a, p, s.src_ip, s.ts);
        let b = replay(steps);
        assert(b == process_spec(a, p, s.src_ip, s.ts).0);
        assert forall|x: u32| #[trigger] client_and_offers(tx_of(b.txs, x)) == history_tx(steps, x) by {
            assert(client_and_offers(tx_of(a.txs, x)) == history_tx(prev, x));
            assert(creator_mac(prev, x) is None ==> offer_servers(prev, x).len() == 0);
            if creator_mac(prev, x) is None {
                assert(offer_servers(prev, x) =~= Seq::<Seq<char>>::empty());
            }
        }
        assert forall|x: u32| #[trigger] quiet_tx(tx_of(b.txs, x)) == waiting_since(steps, x) by {
            assert(quiet_tx(tx_of(a.txs, x)) == waiting_since(prev, x));
            assert(client_and_offers(tx_of(a.txs, x)) == history_tx(prev, x));
        }
        assert forall|x: u32| #[trigger] creator_mac(steps, x) is None implies offer_servers(steps, x).len() == 0 by {
            assert(creator_mac(prev, x) is None ==> offer_servers(prev, x).len() == 0);
        }
        assert forall|ip: Seq<char>| #[trigger] lease_holder(b.leases, ip) == lease_history(steps, ip) by {
            assert(lease_holder(a.leases, ip) == lease_history(prev, ip));
            if p.msg_type == DhcpMessageType::Ack {
                assert(client_and_offers(tx_of(a.txs, p.xid)) == history_tx(prev, p.xid));
                assert(creator_mac(steps, p.xid) == Some(packet_client(a, p)));
            }
        }
    }
}


/// The client a transaction has after `steps`, or the packet's own client for a new one.
pub open spec fn history_client(steps: Seq<Step>, p: PacketView) -> Seq<char> {
    match creator_mac(steps, p.xid) {
        Some(m) => m,
        None => mac_text(p.client_mac),
    }
}

/// After any history of packets fed to a fresh analyzer, an OFFER reports a
/// rogue server exactly when earlier OFFERs for its xid came from other
/// servers only: the first of them is named legitimate, this OFFER's server
/// (option 54, else the sender) rogue; then `OfferReceived` follows. The
/// client named is the one of the packet that opened the transaction.
pub proof fn law_offer_over_history(steps: Seq<Step>, p: PacketView, src_ip: Seq<char>, ts: Timestamp)
    requires
        p.msg_type == DhcpMessageType::Offer,
    ensures
        ({
            let server = server_or(p, src_ip);
            let earlier = offer_servers(steps, p.xid);
            let client = history_client(steps, p);
            process_spec(replay(steps), p, src_ip, ts).1 == (if earlier.len() > 0 && !earlier.contains(server) {
                seq![EventView::RogueServerDetected {
                    ts,
                    xid: p.xid,
                    client_mac: client,
                    legitimate_server: earlier[0],
                    rogue_server: server,
                }]
            } else {
                Seq::empty()
            }).push(EventView::OfferReceived {
                ts,
                xid: p.xid,
                client_mac: client,
                offered_ip: ip_text(p.yiaddr),
                server_ip: server,
            })
        }),
{
    lemma_replay_agrees(steps);
    let a = replay(steps);
    assert(client_and_offers(tx_of(a.txs, p.xid)) == history_tx(steps, p.xid));
    let fresh = new_tx(p.xid, mac_text(p.client_mac), DhcpClientState::Selecting, ts);
    let (t1, i) = ensure_tx(a.txs, p.xid, fresh);
    match tx_index(a.txs, p.xid) {
        Some(j) => {
            assert(t1[i] == a.txs[j]);
        },
        None => {
            assert(offer_servers(steps, p.xid) =~= Seq::<Seq<char>>::empty());
        },
    }
    assert(process_spec(a, p, src_ip, ts) == offer_step(a, p, src_ip, ts));
}

/// After any history of packets fed to a fresh analyzer, an ACK for address
/// Y reports a lease conflict and an address conflict exactly when Y is not
/// "0.0.0.0" and the latest earlier ACK for Y (not followed by a RELEASE of Y)
/// went to another client; then the transition to Bound and `LeaseAcquired`
/// follow, and Y is leased to the acknowledged transaction's client.
pub proof fn law_ack_over_history(steps: Seq<Step>, p: PacketView, src_ip: Seq<char>, ts: Timestamp)
    requires
        p.msg_type == DhcpMessageType::Ack,
    ensures
        ({
            let y = ip_text(p.yiaddr);
            let server = server_or(p, src_ip);
            let client = history_client(steps, p);
            let a = replay(steps);
            let from = match tx_of(a.txs, p.xid) {
                Some(t) => state_name(t.fsm_state),
                None => "Requesting"@,
            };
            let lease_time: u32 = match p.lease_time {
                Some(t) => t,
                None => 86400,
            };
            let conflicts = match lease_history(steps, y) {
                Some(h) => if y != zero_ip() && h != client {
                    seq![
                        EventView::LeaseConflict { ts, xid: p.xid, client_mac: client, conflicting_ip: y },
                        EventView::IpConflict { ts, conflicting_ip: y, mac_a: h, mac_b: client, server_ip: server },
                    ]
                } else {
                    Seq::empty()
                },
                None => Seq::empty(),
            };
            &&& process_spec(a, p, src_ip, ts).1 == conflicts + seq![
                EventView::StateTransition { ts, xid: p.xid, client_mac: client, from_state: from, to_state: "Bound"@ },
                EventView::LeaseAcquired {
                    ts,
                    xid: p.xid,
                    client_mac: client,
                    assigned_ip: y,
                    server_ip: server,
                    lease_time,
                },
            ]
            &&& y != zero_ip() ==> lease_holder(process_spec(a, p, src_ip, ts).0.leases, y) == Some(client)
        }),
{
    lemma_replay_agrees(steps);
    let a = replay(steps);
    let y = ip_text(p.yiaddr);
    assert(client_and_offers(tx_of(a.txs, p.xid)) == history_tx(steps, p.xid));
    assert(lease_holder(a.leases, y) == lease_history(steps, y));
    let fresh = new_tx(p.xid, mac_text(p.client_mac), DhcpClientState::Requesting, ts);
    let (t1, i) = ensure_tx(a.txs, p.xid, fresh);
    match tx_index(a.txs, p.xid) {
        Some(j) => {
            assert(t1[i] == a.txs[j]);
        },
        None => {},
    }
    assert(t1[i].client_mac == history_client(steps, p));
    lemma_step_leases(a, p, src_ip, ts);
    assert(process_spec(a, p, src_ip, ts) == ack_step(a, p, src_ip, ts));
}


/// The lease timeout the history gives `xid` at `last_ts`: when its client
/// has been waiting for an OFFER since a DISCOVER more than 10 s back.
pub open spec fn history_timeout(steps: Seq<Step>, xid: u32, last_ts: Timestamp) -> Option<EventView> {
    match waiting_since(steps, xid) {
        Some(d) => if elapsed_micros(last_ts, d) > offer_timeout_us() {
            Some(EventView::LeaseTimeout {
                ts: last_ts,
                xid,
                client_mac: match creator_mac(steps, xid) {
                    Some(m) => m,
                    None => Seq::empty(),
                },
                discover_ts: d,
                elapsed_us: elapsed_micros(last_ts, d) as u64,
            })
        } else {
            None
        },
        None => None,
    }
}

/// Whether `e` is the lease timeout the history gives some transaction.
pub open spec fn has_history_timeout(steps: Seq<Step>, last_ts: Timestamp, e: EventView) -> bool {
    exists|x: u32| #[trigger] history_timeout(steps, x, last_ts) == Some(e)
}

/// After any history of packets fed to a fresh analyzer, the lease timeouts
/// found at `last_ts` are exactly those of the transactions opened by a
/// DISCOVER more than 10 s back and followed by no OFFER, REQUEST, ACK, NAK
/// or RELEASE.
pub proof fn law_timeouts_over_history(steps: Seq<Step>, last_ts: Timestamp)
    ensures
        forall|k: int|
            0 <= k < timeouts(replay(steps).txs, last_ts).len() ==> #[trigger] has_history_timeout(
                steps,
                last_ts,
                timeouts(replay(steps).txs, last_ts)[k],
            ),
        forall|x: u32| #[trigger] history_timeout(steps, x, last_ts) is Some ==> timeouts(
            replay(steps).txs,
            last_ts,
        ).contains(history_timeout(steps, x, last_ts).unwrap()),
{
    lemma_replay_agrees(steps);
    let txs = replay(steps).txs;
    let t = timeouts(txs, last_ts);
    law_timeouts_exact(txs, last_ts);
    assert forall|k: int| 0 <= k < t.len() implies #[trigger] has_history_timeout(steps, last_ts, t[k]) by {
        let j = choose|j: int| 0 <= j < txs.len() && timed_out(txs[j], last_ts) && t[k] == timeout_event(txs[j], last_ts);
        let x = txs[j].xid;
        let i = choose|i: int| 0 <= i < txs.len() && txs[i].xid == x;
        assert(i == j);
        assert(tx_of(txs, x) == Some(txs[j]));
        assert(quiet_tx(tx_of(txs, x)) == waiting_since(steps, x));
        assert(client_and_offers(tx_of(txs, x)) == history_tx(steps, x));
        assert(history_timeout(steps, x, last_ts) == Some(t[k]));
    }
    assert(forall|k: int| 0 <= k < t.len() ==> #[trigger] has_history_timeout(steps, last_ts, t[k]));
    assert forall|x: u32| #[trigger] history_timeout(steps, x, last_ts) is Some implies t.contains(
        history_timeout(steps, x, last_ts).unwrap(),
    ) by {
        assert(quiet_tx(tx_of(txs, x)) == waiting_since(steps, x));
        assert(client_and_offers(tx_of(txs, x)) == history_tx(steps, x));
        if let Some(i) = tx_index(txs, x) {
            assert(timed_out(txs[i], last_ts));
            assert(history_timeout(steps, x, last_ts) == Some(timeout_event(txs[i], last_ts)));
        }
    }
}


// ── DISCOVER floods ─────────────────────────────────────────────────────────

/// Whether every two DISCOVERs of a history lie more than 5 s apart, in the order fed.
pub open spec fn discovers_spaced(steps: Seq<Step>) -> bool {
    forall|i: int, j: int|
        0 <= i < j < steps.len() && (#[trigger] steps[i].packet.msg_type) is Discover
            && (#[trigger] steps[j].packet.msg_type) is Discover ==> steps[j].ts.micros() - steps[i].ts.micros()
            > 5_000_000
}

/// With DISCOVERs more than 5 s apart, the flood window never holds more
/// than one of them, and when it holds one it began no later than some DISCOVER.
proof fn lemma_spaced_window(steps: Seq<Step>)
    requires
        discovers_spaced(steps),
    ensures
        replay(steps).threshold == 20,
        replay(steps).count <= 1,
        replay(steps).count == 0 ==> replay(steps).window_start.micros() == 0,
        replay(steps).count == 1 ==> exists|d: int|
            0 <= d < steps.len() && (#[trigger] steps[d].packet.msg_type) is Discover
                && replay(steps).window_start.micros() <= steps[d].ts.micros(),
    decreases steps.len(),
{
    if steps.len() > 0 {
        let prev = steps.drop_last();
        let n = steps.len() - 1;
        assert forall|i: int, j: int|
            0 <= i < j < prev.len() && (#[trigger] prev[i].packet.msg_type) is Discover
                && (#[trigger] prev[j].packet.msg_type) is Discover implies prev[j].ts.micros()
            - prev[i].ts.micros() > 5_000_000 by {
            assert(prev[i] == steps[i] && prev[j] == steps[j]);
        }
        lemma_spaced_window(prev);
        let a = replay(prev);
        let s = steps[n];
        assert(steps.last() == s);
        let b = replay(steps);
        assert(b == process_spec(a, s.packet, s.src_ip, s.ts).0);
        if s.packet.msg_type is Discover {
            if a.count == 1 {
                let d = choose|d: int|
                    0 <= d < prev.len() && (#[trigger] prev[d].packet.msg_type) is Discover
                        && a.window_start.micros() <= prev[d].ts.micros();
                assert(prev[d] == steps[d]);
                assert(s.ts.micros() - steps[d].ts.micros() > 5_000_000);
            }
            assert(b.count == 1);
            assert(steps[n].packet.msg_type is Discover);
            assert(b.window_start.micros() <= steps[n].ts.micros());
        } else {
            assert(b.count == a.count && b.window_start == a.window_start && b.threshold == a.threshold);
            if a.count == 1 {
                let d = choose|d: int|
                    0 <= d < prev.len() && (#[trigger] prev[d].packet.msg_type) is Discover
                        && a.window_start.micros() <= prev[d].ts.micros();
                assert(prev[d] == steps[d]);
            }
        }
    }
}

/// If every two DISCOVERs fed to a fresh analyzer lie more than 5 s apart,
/// no packet ever makes it report a DISCOVER flood.
pub proof fn law_spaced_discovers_never_flood(steps: Seq<Step>, p: PacketView, src_ip: Seq<char>, ts: Timestamp)
    requires
        discovers_spaced(steps.push(Step { packet: p, src_ip, ts })),
    ensures
        forall|k: int|
            0 <= k < process_spec(replay(steps), p, src_ip, ts).1.len() ==> !((#[trigger] process_spec(
                replay(steps),
                p,
                src_ip,
                ts,
            ).1[k]) is DiscoverFlood),
{
    let all = steps.push(Step { packet: p, src_ip, ts });
    assert(all.drop_last() =~= steps);
    lemma_spaced_window(all);
    lemma_spaced_window(steps);
    assert(all.last() == all[steps.len() as int]);
    assert(replay(all) == process_spec(replay(steps), p, src_ip, ts).0);
    let a = replay(steps);
    let evs = process_spec(a, p, src_ip, ts).1;
    if p.msg_type is Discover {
        assert(replay(all).count == 1);
        assert(discover_step(a, p, src_ip, ts).0.count == 1);
    }
}


/// The client addresses of the DISCOVERs of a history, in order.
pub open spec fn discover_macs(steps: Seq<Step>) -> Seq<Seq<char>>
    decreases steps.len(),
{
    if steps.len() == 0 {
        Seq::empty()
    } else {
        let r = discover_macs(steps.drop_last());
        if steps.last().packet.msg_type is Discover {
            r.push(mac_text(steps.last().packet.client_mac))
        } else {
            r
        }
    }
}

/// A history without DISCOVERs leaves the flood window as a fresh analyzer has it.
proof fn lemma_quiet_window(steps: Seq<Step>)
    requires
        forall|i: int| 0 <= i < steps.len() ==> !((#[trigger] steps[i].packet.msg_type) is Discover),
    ensures
        replay(steps).window_start == initial_state().window_start,
        replay(steps).count == 0,
        replay(steps).macs == Seq::<Seq<char>>::empty(),
        replay(steps).threshold == 20,
        replay(steps).reported == Seq::<u32>::empty(),
        discover_macs(steps) == Seq::<Seq<char>>::empty(),
    decreases steps.len(),
{
    if steps.len() > 0 {
        let prev = steps.drop_last();
        assert forall|i: int| 0 <= i < prev.len() implies !((#[trigger] prev[i].packet.msg_type) is Discover) by {
            assert(prev[i] == steps[i]);
        }
        lemma_quiet_window(prev);
        let s = steps[steps.len() - 1];
        assert(steps.last() == s);
        assert(!(s.packet.msg_type is Discover));
    }
}

/// A burst of DISCOVERs, the first more than 5 s into the capture and every
/// other within 5 s of it, fills one flood window: it starts at the first
/// DISCOVER, counts every DISCOVER and records each client address once; the
/// window is reported once the count has reached 20.
proof fn lemma_burst_window(steps: Seq<Step>, f: int)
    requires
        steps.len() < usize::MAX,
        0 <= f < steps.len(),
        steps[f].packet.msg_type is Discover,
        steps[f].ts.micros() > 5_000_000,
        forall|i: int| 0 <= i < f ==> !((#[trigger] steps[i].packet.msg_type) is Discover),
        forall|i: int|
            0 <= i < steps.len() && (#[trigger] steps[i].packet.msg_type) is Discover ==> steps[i].ts.micros()
                - steps[f].ts.micros() <= 5_000_000,
    ensures
        replay(steps).window_start == steps[f].ts,
        replay(steps).count == discover_macs(steps).len(),
        replay(steps).macs == distinct(discover_macs(steps)),
        replay(steps).threshold == 20,
        replay(steps).reported == (if discover_macs(steps).len() >= 20 {
            seq![steps[f].ts.sec]
        } else {
            Seq::<u32>::empty()
        }),
        discover_macs(steps).len() <= steps.len(),
    decreases steps.len(),
{
    let prev = steps.drop_last();
    let n = steps.len() - 1;
    let s = steps[n];
    assert(steps.last() == s);
    let b = replay(steps);
    assert(b == process_spec(replay(prev), s.packet, s.src_ip, s.ts).0);
    assert(discover_macs(steps).drop_last() =~= discover_macs(prev) || discover_macs(steps) == discover_macs(prev));
    if n == f {
        assert forall|i: int| 0 <= i < prev.len() implies !((#[trigger] prev[i].packet.msg_type) is Discover) by {
            assert(prev[i] == steps[i]);
        }
        lemma_quiet_window(prev);
        assert(distinct(discover_macs(steps)) == seq_add(distinct(discover_macs(prev)), mac_text(s.packet.client_mac))) by {
            assert(discover_macs(steps).drop_last() =~= discover_macs(prev));
        }
    } else {
        assert forall|i: int| 0 <= i < f implies !((#[trigger] prev[i].packet.msg_type) is Discover) by {
            assert(prev[i] == steps[i]);
        }
        assert forall|i: int|
            0 <= i < prev.len() && (#[trigger] prev[i].packet.msg_type) is Discover implies prev[i].ts.micros()
                - prev[f].ts.micros() <= 5_000_000 by {
            assert(prev[i] == steps[i]);
        }
        assert(prev[f] == steps[f]);
        lemma_burst_window(prev, f);
        if s.packet.msg_type is Discover {
            assert(steps[n].ts.micros() - steps[f].ts.micros() <= 5_000_000);
            assert(discover_macs(steps).drop_last() =~= discover_macs(prev));
            assert(distinct(discover_macs(steps)) == seq_add(distinct(discover_macs(prev)), mac_text(s.packet.client_mac)));
            if discover_macs(prev).len() >= 20 {
                assert(replay(prev).reported.contains(steps[f].ts.sec)) by {
                    assert(replay(prev).reported[0] == steps[f].ts.sec);
                }
            }
        }
    }
}

/// A burst of DISCOVERs within 5 s of the first one, which comes more than
/// 5 s into the capture, makes the analyzer report a DISCOVER flood exactly
/// once: at the 20th DISCOVER, which counts 20 DISCOVERs in a 5000 ms window
/// and the number of distinct client addresses among them.
pub proof fn law_burst_floods_at_threshold(
    steps: Seq<Step>,
    p: PacketView,
    src_ip: Seq<char>,
    ts: Timestamp,
    f: int,
)
    requires
        steps.len() + 1 < usize::MAX,
        p.msg_type is Discover,
        0 <= f <= steps.len(),
        steps.push(Step { packet: p, src_ip, ts })[f].packet.msg_type is Discover,
        steps.push(Step { packet: p, src_ip, ts })[f].ts.micros() > 5_000_000,
        forall|i: int| 0 <= i < f ==> !((#[trigger] steps[i].packet.msg_type) is Discover),
        forall|i: int|
            0 <= i <= steps.len() && (#[trigger] steps.push(Step { packet: p, src_ip, ts })[i].packet.msg_type) is Discover
                ==> steps.push(Step { packet: p, src_ip, ts })[i].ts.micros() - steps.push(
                Step { packet: p, src_ip, ts },
            )[f].ts.micros() <= 5_000_000,
    ensures
        ({
            let all = steps.push(Step { packet: p, src_ip, ts });
            let evs = process_spec(replay(steps), p, src_ip, ts).1;
            &&& (exists|k: int| 0 <= k < evs.len() && (#[trigger] evs[k]) is DiscoverFlood) <==> discover_macs(all).len()
                == 20
            &&& discover_macs(all).len() == 20 ==> evs[0] == EventView::DiscoverFlood {
                ts,
                discover_count: 20,
                window_ms: 5000,
                unique_macs: distinct(discover_macs(all)).len() as usize,
            }
        }),
{
    let all = steps.push(Step { packet: p, src_ip, ts });
    assert(all.drop_last() =~= steps);
    assert(all.last() == all[steps.len() as int]);
    assert forall|i: int| 0 <= i < f implies !((#[trigger] all[i].packet.msg_type) is Discover) by {
        assert(all[i] == steps[i]);
    }
    lemma_burst_window(all, f);
    let a = replay(steps);
    let evs = process_spec(a, p, src_ip, ts).1;
    assert(replay(all) == process_spec(a, p, src_ip, ts).0);
    assert(discover_macs(all).drop_last() =~= discover_macs(steps));
    if f == steps.len() {
        lemma_quiet_window(steps);
    } else {
        assert forall|i: int|
            0 <= i < steps.len() && (#[trigger] steps[i].packet.msg_type) is Discover implies steps[i].ts.micros()
                - steps[f].ts.micros() <= 5_000_000 by {
            assert(all[i] == steps[i]);
        }
        assert(all[f] == steps[f]);
        lemma_burst_window(steps, f);
        if discover_macs(steps).len() >= 20 {
            assert(a.reported.contains(steps[f].ts.sec)) by {
                assert(a.reported[0] == steps[f].ts.sec);
            }
        }
    }
}

} // verus!
