//! DHCP message parsing (RFC 2131 header, RFC 2132 options).

use vstd::prelude::*;
use crate::text::{ip_text, mac_text, push_dec, push_hex, push_str};

verus! {

/// The DHCP message type carried in option 53.
#[derive(Debug, Clone, Copy, PartialEq, Eq, Structural)]
pub enum DhcpMessageType {
    Discover,
    Offer,
    Request,
    Decline,
    Ack,
    Nak,
    Release,
    Inform,
    Unknown(u8),
}

/// The message type that option 53 value `code` denotes.
pub open spec fn msg_type_of(code: u8) -> DhcpMessageType {
    if code == 1 { DhcpMessageType::Discover }
    else if code == 2 { DhcpMessageType::Offer }
    else if code == 3 { DhcpMessageType::Request }
    else if code == 4 { DhcpMessageType::Decline }
    else if code == 5 { DhcpMessageType::Ack }
    else if code == 6 { DhcpMessageType::Nak }
    else if code == 7 { DhcpMessageType::Release }
    else if code == 8 { DhcpMessageType::Inform }
    else { DhcpMessageType::Unknown(code) }
}

/// The conventional name of a message type.
pub open spec fn msg_type_name(t: DhcpMessageType) -> Seq<char> {
    match t {
        DhcpMessageType::Discover => "DHCPDISCOVER"@,
        DhcpMessageType::Offer => "DHCPOFFER"@,
        DhcpMessageType::Request => "DHCPREQUEST"@,
        DhcpMessageType::Decline => "DHCPDECLINE"@,
        DhcpMessageType::Ack => "DHCPACK"@,
        DhcpMessageType::Nak => "DHCPNAK"@,
        DhcpMessageType::Release => "DHCPRELEASE"@,
        DhcpMessageType::Inform => "DHCPINFORM"@,
        DhcpMessageType::Unknown(_) => "UNKNOWN"@,
    }
}

impl DhcpMessageType {
    /// The conventional name of this message type ("UNKNOWN" for unassigned codes).
    pub fn as_str(&self) -> (r: &'static str)
        ensures
            r@ == msg_type_name(*self),
    {
        match self {
            DhcpMessageType::Discover => "DHCPDISCOVER",
            DhcpMessageType::Offer => "DHCPOFFER",
            DhcpMessageType::Request => "DHCPREQUEST",
            DhcpMessageType::Decline => "DHCPDECLINE",
            DhcpMessageType::Ack => "DHCPACK",
            DhcpMessageType::Nak => "DHCPNAK",
            DhcpMessageType::Release => "DHCPRELEASE",
            DhcpMessageType::Inform => "DHCPINFORM",
            DhcpMessageType::Unknown(_) => "UNKNOWN",
        }
    }
}

/// A parsed DHCP message.
#[derive(Debug, Clone, Copy)]
pub struct DhcpPacket {
    /// 1 = BOOTREQUEST, 2 = BOOTREPLY.
    pub op: u8,
    /// Transaction id.
    pub xid: u32,
    /// The first six bytes of chaddr.
    pub client_mac: [u8; 6],
    /// Client address (ciaddr).
    pub ciaddr: [u8; 4],
    /// "Your" address (yiaddr), set in OFFER and ACK.
    pub yiaddr: [u8; 4],
    /// Server address (siaddr).
    pub siaddr: [u8; 4],
    /// Relay agent address (giaddr).
    pub giaddr: [u8; 4],
    /// Message type from option 53.
    pub msg_type: DhcpMessageType,
    /// Requested address (option 50).
    pub requested_ip: Option<[u8; 4]>,
    /// Server identifier (option 54).
    pub server_id: Option<[u8; 4]>,
    /// Lease time in seconds (option 51).
    pub lease_time: Option<u32>,
}

/// The mathematical content of a [`DhcpPacket`]: addresses as byte sequences.
pub struct PacketView {
    pub op: u8,
    pub xid: u32,
    pub client_mac: Seq<u8>,
    pub ciaddr: Seq<u8>,
    pub yiaddr: Seq<u8>,
    pub siaddr: Seq<u8>,
    pub giaddr: Seq<u8>,
    pub msg_type: DhcpMessageType,
    pub requested_ip: Option<Seq<u8>>,
    pub server_id: Option<Seq<u8>>,
    pub lease_time: Option<u32>,
}

/// An optional four-byte address as an optional byte sequence.
pub open spec fn addr_opt_view(a: Option<[u8; 4]>) -> Option<Seq<u8>> {
    match a {
        Some(b) => Some(b@),
        None => None,
    }
}

impl View for DhcpPacket {
    type V = PacketView;

    open spec fn view(&self) -> PacketView {
        PacketView {
            op: self.op,
            xid: self.xid,
            client_mac: self.client_mac@,
            ciaddr: self.ciaddr@,
            yiaddr: self.yiaddr@,
            siaddr: self.siaddr@,
            giaddr: self.giaddr@,
            msg_type: self.msg_type,
            requested_ip: addr_opt_view(self.requested_ip),
            server_id: addr_opt_view(self.server_id),
            lease_time: self.lease_time,
        }
    }
}

/// Renders a four-byte address as a dotted quad.
pub fn bytes_to_ip(b: &[u8; 4]) -> (r: String)
    ensures
        r@ == ip_text(b@),
{
    let mut s = String::new();
    push_dec(&mut s, b[0] as u64);
    push_str(&mut s, ".");
    push_dec(&mut s, b[1] as u64);
    push_str(&mut s, ".");
    push_dec(&mut s, b[2] as u64);
    push_str(&mut s, ".");
    push_dec(&mut s, b[3] as u64);
    proof {
        reveal_strlit(".");
        assert("."@ =~= seq!['.']);
    }
    assert(s@ =~= ip_text(b@));
    s
}

/// An optional address rendered as an optional dotted quad.
pub open spec fn opt_ip_text(a: Option<Seq<u8>>) -> Option<Seq<char>> {
    match a {
        Some(b) => Some(ip_text(b)),
        None => None,
    }
}

/// The view of an optional string.
pub open spec fn opt_string_view(s: Option<String>) -> Option<Seq<char>> {
    match s {
        Some(t) => Some(t@),
        None => None,
    }
}

impl DhcpPacket {
    /// The client hardware address as `aa:bb:cc:dd:ee:ff`.
    pub fn client_mac_str(&self) -> (r: String)
        ensures
            r@ == mac_text(self.client_mac@),
    {
        let m = &self.client_mac;
        let mut s = String::new();
        push_hex(&mut s, m[0] as u64, 2);
        push_str(&mut s, ":");
        push_hex(&mut s, m[1] as u64, 2);
        push_str(&mut s, ":");
        push_hex(&mut s, m[2] as u64, 2);
        push_str(&mut s, ":");
        push_hex(&mut s, m[3] as u64, 2);
        push_str(&mut s, ":");
        push_hex(&mut s, m[4] as u64, 2);
        push_str(&mut s, ":");
        push_hex(&mut s, m[5] as u64, 2);
        proof {
            reveal_strlit(":");
            assert(":"@ =~= seq![':']);
        }
        assert(s@ =~= mac_text(self.client_mac@));
        s
    }

    /// yiaddr as a dotted quad.
    pub fn yiaddr_str(&self) -> (r: String)
        ensures
            r@ == ip_text(self.yiaddr@),
    {
        bytes_to_ip(&self.yiaddr)
    }

    /// ciaddr as a dotted quad.
    pub fn ciaddr_str(&self) -> (r: String)
        ensures
            r@ == ip_text(self.ciaddr@),
    {
        bytes_to_ip(&self.ciaddr)
    }

    /// siaddr as a dotted quad.
    pub fn siaddr_str(&self) -> (r: String)
        ensures
            r@ == ip_text(self.siaddr@),
    {
        bytes_to_ip(&self.siaddr)
    }

    /// giaddr as a dotted quad.
    pub fn giaddr_str(&self) -> (r: String)
        ensures
            r@ == ip_text(self.giaddr@),
    {
        bytes_to_ip(&self.giaddr)
    }

    /// The requested address (option 50) as a dotted quad, if present.
    pub fn requested_ip_str(&self) -> (r: Option<String>)
        ensures
            opt_string_view(r) == opt_ip_text(addr_opt_view(self.requested_ip)),
    {
        match &self.requested_ip {
            Some(ip) => Some(bytes_to_ip(ip)),
            None => None,
        }
    }

    /// The server identifier (option 54) as a dotted quad, if present.
    pub fn server_id_str(&self) -> (r: Option<String>)
        ensures
            opt_string_view(r) == opt_ip_text(addr_opt_view(self.server_id)),
    {
        match &self.server_id {
            Some(ip) => Some(bytes_to_ip(ip)),
            None => None,
        }
    }
}

/// What the options area contributes to a packet.
pub struct OptionsView {
    pub msg_type: DhcpMessageType,
    pub requested_ip: Option<Seq<u8>>,
    pub server_id: Option<Seq<u8>>,
    pub lease_time: Option<u32>,
}

/// Nothing seen yet: message type `Unknown(0)`, no other option.
pub open spec fn no_options() -> OptionsView {
    OptionsView {
        msg_type: DhcpMessageType::Unknown(0),
        requested_ip: None,
        server_id: None,
        lease_time: None,
    }
}

/// The big-endian 32-bit value of four bytes.
pub open spec fn be32(v: Seq<u8>) -> u32 {
    (v[0] as int * 16777216 + v[1] as int * 65536 + v[2] as int * 256 + v[3] as int) as u32
}

/// The effect of one well-formed option with code `code` and value `val`.
/// Only options 53 (one byte), 50, 54 and 51 (four bytes each) are recorded;
/// any other option, or one of these with another length, is ignored.
pub open spec fn apply_option(acc: OptionsView, code: u8, val: Seq<u8>) -> OptionsView {
    if code == 53 && val.len() == 1 {
        OptionsView { msg_type: msg_type_of(val[0]), ..acc }
    } else if code == 50 && val.len() == 4 {
        OptionsView { requested_ip: Some(val), ..acc }
    } else if code == 54 && val.len() == 4 {
        OptionsView { server_id: Some(val), ..acc }
    } else if code == 51 && val.len() == 4 {
        OptionsView { lease_time: Some(be32(val)), ..acc }
    } else {
        acc
    }
}

/// Scans the options area `data` from offset `i`, starting from `acc`.
/// Code 0 is a one-byte pad; code 255 ends the scan; any other code is
/// followed by a length byte and that many value bytes. The scan stops at the
/// end of the data, and at an option whose length byte or value is cut off.
pub open spec fn scan_options(data: Seq<u8>, i: nat, acc: OptionsView) -> OptionsView
    decreases data.len() - i,
{
    if i >= data.len() {
        acc
    } else if data[i as int] == 255 {
        acc
    } else if data[i as int] == 0 {
        scan_options(data, i + 1, acc)
    } else if i + 1 >= data.len() {
        acc
    } else {
        let len = data[i as int + 1] as nat;
        let start = i + 2;
        if i + 2 + len > data.len() {
            acc
        } else {
            scan_options(
                data,
                i + 2 + len,
                apply_option(acc, data[i as int], data.subrange(start as int, (start + len) as int)),
            )
        }
    }
}

/// The options found in the whole options area `data`.
pub open spec fn options_of(data: Seq<u8>) -> OptionsView {
    scan_options(data, 0, no_options())
}

/// The magic cookie that follows the fixed BOOTP header.
pub open spec fn dhcp_magic() -> Seq<u8> {
    seq![99u8, 130u8, 83u8, 99u8]
}

/// Whether `data` is long enough for the fixed header and cookie and carries the cookie at offset 236.
pub open spec fn is_dhcp_frame(data: Seq<u8>) -> bool {
    data.len() >= 240 && data.subrange(236, 240) == dhcp_magic()
}

/// The packet that a well-formed frame denotes.
pub open spec fn packet_of(data: Seq<u8>) -> PacketView {
    let opts = options_of(data.subrange(240, data.len() as int));
    PacketView {
        op: data[0],
        xid: be32(data.subrange(4, 8)),
        client_mac: data.subrange(28, 34),
        ciaddr: data.subrange(12, 16),
        yiaddr: data.subrange(16, 20),
        siaddr: data.subrange(20, 24),
        giaddr: data.subrange(24, 28),
        msg_type: opts.msg_type,
        requested_ip: opts.requested_ip,
        server_id: opts.server_id,
        lease_time: opts.lease_time,
    }
}

/// The parse of a UDP payload: `None` unless it is a DHCP frame.
pub open spec fn parse_spec(data: Seq<u8>) -> Option<PacketView> {
    if is_dhcp_frame(data) {
        Some(packet_of(data))
    } else {
        None
    }
}

/// The big-endian value of four bytes starting at `at`.
fn read_be32(data: &[u8], at: usize) -> (r: u32)
    requires
        at + 4 <= data@.len(),
    ensures
        r == be32(data@.subrange(at as int, at + 4)),
{
    let r = (data[at] as u32) * 16777216 + (data[at + 1] as u32) * 65536 + (data[at + 2] as u32) * 256
        + (data[at + 3] as u32);
    r
}

/// Four bytes starting at `at`.
fn read_addr(data: &[u8], at: usize) -> (r: [u8; 4])
    requires
        at + 4 <= data@.len(),
    ensures
        r@ == data@.subrange(at as int, at + 4),
{
    let r = [data[at], data[at + 1], data[at + 2], data[at + 3]];
    assert(r@ =~= data@.subrange(at as int, at + 4));
    r
}

/// The message type that option 53 value `code` denotes.
fn message_type_from_code(code: u8) -> (r: DhcpMessageType)
    ensures
        r == msg_type_of(code),
{
    match code {
        1 => DhcpMessageType::Discover,
        2 => DhcpMessageType::Offer,
        3 => DhcpMessageType::Request,
        4 => DhcpMessageType::Decline,
        5 => DhcpMessageType::Ack,
        6 => DhcpMessageType::Nak,
        7 => DhcpMessageType::Release,
        8 => DhcpMessageType::Inform,
        n => DhcpMessageType::Unknown(n),
    }
}

/// Scans an options area: message type, requested address, server identifier and lease time.
fn parse_options(data: &[u8]) -> (r: (DhcpMessageType, Option<[u8; 4]>, Option<[u8; 4]>, Option<u32>))
    ensures
        r.0 == options_of(data@).msg_type,
        addr_opt_view(r.1) == options_of(data@).requested_ip,
        addr_opt_view(r.2) == options_of(data@).server_id,
        r.3 == options_of(data@).lease_time,
{
    let mut msg_type = DhcpMessageType::Unknown(0);
    let mut requested_ip: Option<[u8; 4]> = None;
    let mut server_id: Option<[u8; 4]> = None;
    let mut lease_time: Option<u32> = None;
    let ghost d = data@;

    let mut i: usize = 0;
    while i < data.len()
        invariant
            d == data@,
            i <= data@.len(),
            scan_options(d, i as nat, OptionsView {
                msg_type,
                requested_ip: addr_opt_view(requested_ip),
                server_id: addr_opt_view(server_id),
                lease_time,
            }) == options_of(d),
        decreases data@.len() - i,
    {
        let opt = data[i];
        if opt == 255 {
            i = data.len();
        } else if opt == 0 {
            i += 1;
        } else if i + 1 >= data.len() {
            i = data.len();
        } else {
            let len = data[i + 1] as usize;
            if len > data.len() - i - 2 {
                i = data.len();
            } else {
                let ghost acc = OptionsView {
                    msg_type,
                    requested_ip: addr_opt_view(requested_ip),
                    server_id: addr_opt_view(server_id),
                    lease_time,
                };
                let ghost val = d.subrange(i + 2, i + 2 + len);
                if opt == 53 && len == 1 {
                    msg_type = message_type_from_code(data[i + 2]);
                } else if opt == 50 && len == 4 {
                    requested_ip = Some(read_addr(data, i + 2));
                } else if opt == 54 && len == 4 {
                    server_id = Some(read_addr(data, i + 2));
                } else if opt == 51 && len == 4 {
                    lease_time = Some(read_be32(data, i + 2));
                }
                assert(OptionsView {
                    msg_type,
                    requested_ip: addr_opt_view(requested_ip),
                    server_id: addr_opt_view(server_id),
                    lease_time,
                } == apply_option(acc, opt, val));
                i += 2 + len;
            }
        }
    }
    (msg_type, requested_ip, server_id, lease_time)
}

/// Parses a DHCP message from a UDP payload.
///
/// Returns `None` when the payload is shorter than the 236-byte fixed header
/// plus the 4-byte magic cookie, or when the cookie at offset 236 is not
/// `99.130.83.99`; otherwise the header fields and the recognised options.
pub fn parse_dhcp(data: &[u8]) -> (r: Option<DhcpPacket>)
    ensures
        match r {
            Some(p) => parse_spec(data@) == Some(p@),
            None => parse_spec(data@) is None,
        },
{
    if data.len() < 240 {
        return None;
    }
    let op = data[0];
    let xid = read_be32(data, 4);
    let ciaddr = read_addr(data, 12);
    let yiaddr = read_addr(data, 16);
    let siaddr = read_addr(data, 20);
    let giaddr = read_addr(data, 24);
    let client_mac = [data[28], data[29], data[30], data[31], data[32], data[33]];
    assert(client_mac@ =~= data@.subrange(28, 34));

    if !(data[236] == 99 && data[237] == 130 && data[238] == 83 && data[239] == 99) {
        assert(data@.subrange(236, 240)[0] == data@[236]);
        return None;
    }
    assert(data@.subrange(236, 240) =~= dhcp_magic());

    let options = &data[240..data.len()];
    let (msg_type, requested_ip, server_id, lease_time) = parse_options(options);
    let p = DhcpPacket {
        op,
        xid,
        client_mac,
        ciaddr,
        yiaddr,
        siaddr,
        giaddr,
        msg_type,
        requested_ip,
        server_id,
        lease_time,
    };
    assert(p@ == packet_of(data@));
    Some(p)
}

} // verus!
