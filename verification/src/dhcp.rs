//! DHCP messages: the question that is sent and the offers that come back.

use crate::addr::{Ipv4Addr, MacAddr};
use crate::channels::{CLIENT_PORT, SERVER_PORT};
use crate::draw::is_drawn_u16;
use crate::wire::{
    be16, be32, build_eth_ip_udp_frame, built_frame_fields, udp_frame, zeros, Route,
};
use dhcproto::v4::DhcpOption;
use dhcproto::{v4, Decodable, Decoder, Encodable, Encoder};
use vstd::prelude::*;

verus! {

/// The message type of a DHCPDISCOVER.
pub const DISCOVER: u8 = 1;

/// The message type of a DHCPOFFER.
pub const OFFER: u8 = 2;

/// The number of bytes in front of the options.
pub const FIXED_PART: usize = 240;

// ---------------------------------------------------------------------------
// Reading

/// What is read of a message: the transaction, the message type and the server
/// identifier.
pub type Fields = (u32, Option<u8>, Option<u32>);

/// What dhcproto's `Message::decode` makes of a datagram: nothing, or the
/// transaction of the message, the value of its message type option and the
/// value of its server identifier option, where it has them.
pub uninterp spec fn dhcp_fields(bytes: Seq<u8>) -> Option<(u32, Option<u8>, Option<u32>)>;

/// Whether `len` bytes are too few for an option of this code. Only the codes
/// count whose length is fixed, or has a lower bound, in dhcproto.
pub open spec fn too_short(code: u8, len: nat) -> bool {
    ||| code == 81 && len < 3
    ||| code == 94 && len < 3
    ||| 152 <= code <= 155 && len < 4
}

/// Whether `len` bytes are too many for an option of this code.
pub open spec fn too_long(code: u8, len: nat) -> bool {
    ||| code == 80 && len > 0
    ||| code == 94 && len > 3
    ||| 152 <= code <= 155 && len > 4
}

/// Where the option of code `code` at index `at` ends, and how many bytes it
/// holds. Parts of the same code that follow each other are one option; `None` if
/// one of them is cut off.
pub open spec fn option_at(s: Seq<u8>, at: int, code: u8) -> Option<(int, nat)>
    decreases s.len() - at,
{
    if at < 0 || at >= s.len() || s[at] != code {
        Some((at, 0))
    } else if at + 1 >= s.len() || at + 2 + s[at + 1] > s.len() {
        None
    } else {
        match option_at(s, at + 2 + s[at + 1], code) {
            Some((end, len)) => Some((end, len + s[at + 1] as nat)),
            None => None,
        }
    }
}

/// Whether all options from index `at` on have a length that fits. Padding and
/// the end marker are single bytes; an option that is cut off ends the list.
pub open spec fn lengths_hold_from(s: Seq<u8>, at: int) -> bool
    decreases s.len() - at,
{
    if at < 0 || at >= s.len() || s[at] == 255 {
        true
    } else if s[at] == 0 {
        lengths_hold_from(s, at + 1)
    } else {
        proof {
            option_goes_forward(s, at, s[at]);
        }
        match option_at(s, at, s[at]) {
            Some((end, len)) => !too_short(s[at], len) && !too_long(s[at], len)
                && lengths_hold_from(s, end),
            None => true,
        }
    }
}

/// Whether all options of a message have a length that fits.
pub open spec fn lengths_hold(s: Seq<u8>) -> bool {
    lengths_hold_from(s, FIXED_PART as int)
}

/// The bytes with padding in place of those from `from` up to `to`.
pub open spec fn blanked(s: Seq<u8>, from: int, to: int) -> Seq<u8> {
    Seq::new(s.len(), |i: int| if from <= i < to { 0u8 } else { s[i] })
}

/// The bytes with all options from index `at` on made to fit. Where its debug
/// assertions are off, dhcproto reads an option that is too long all the same and
/// stops at one that is too short. So the first gives way to padding, and the
/// second to the end marker.
pub open spec fn mended_from(s: Seq<u8>, at: int) -> Seq<u8>
    decreases s.len() - at,
{
    if at < 0 || at >= s.len() || s[at] == 255 {
        s
    } else if s[at] == 0 {
        mended_from(s, at + 1)
    } else {
        proof {
            option_goes_forward(s, at, s[at]);
        }
        match option_at(s, at, s[at]) {
            Some((end, len)) => if too_short(s[at], len) {
                s.update(at, 255)
            } else if too_long(s[at], len) {
                mended_from(blanked(s, at, end), end)
            } else {
                mended_from(s, end)
            },
            None => s,
        }
    }
}

/// A message with all options made to fit.
pub open spec fn mended(s: Seq<u8>) -> Seq<u8> {
    mended_from(s, FIXED_PART as int)
}

/// Calls `Message::decode` of dhcproto and reads, from the message, its `xid`
/// and the options for the message type and the server identifier. What the
/// options hold is named by `dhcp_fields`. Decoding fails on a datagram shorter
/// than the part in front of the options, and on no other; the transaction is
/// the big-endian number at offset 4. Of a request of the three options that are
/// written here the message type is read back, and no server identifier is found.
/// dhcproto states the lengths of a few options as debug assertions, so datagrams
/// that break these are left out.
#[verifier::external_body]
fn decode_message(bytes: &[u8]) -> (r: Option<Fields>)
    requires
        lengths_hold(bytes@),
    ensures
        r == dhcp_fields(bytes@),
        r is Some <==> bytes@.len() >= FIXED_PART,
        r matches Some(fields) ==> be32(fields.0) == bytes@.subrange(4, 8),
        forall|xid: u32, kind: u8| #[trigger]
            is_request_of(bytes@, xid, kind) ==> r == Some((xid, Some(kind), None::<u32>)),
{
    let message = v4::Message::decode(&mut Decoder::new(bytes)).ok()?;
    let kind = match message.opts().get(v4::OptionCode::MessageType) {
        Some(DhcpOption::MessageType(kind)) => Some(u8::from(*kind)),
        _ => None,
    };
    let server = match message.opts().get(v4::OptionCode::ServerIdentifier) {
        Some(DhcpOption::ServerIdentifier(ip)) => Some(u32::from(*ip)),
        _ => None,
    };
    Some((message.xid(), kind, server))
}

/// Where the option of code `code` at index `at` ends, and how many bytes it holds.
fn find_option(bytes: &Vec<u8>, at: usize, code: u8) -> (r: Option<(usize, usize)>)
    requires
        at < bytes@.len(),
        bytes@[at as int] == code,
    ensures
        match r {
            Some((end, len)) => {
                &&& at < end <= bytes@.len()
                &&& option_at(bytes@, at as int, code) == Some((end as int, len as nat))
            },
            None => option_at(bytes@, at as int, code) is None,
        },
{
    let mut end: usize = at;
    let mut len: usize = 0;
    while end < bytes.len() && bytes[end] == code
        invariant
            at <= end <= bytes@.len(),
            bytes@[at as int] == code,
            len <= end - at,
            at < bytes@.len(),
            option_at(bytes@, at as int, code) == match option_at(bytes@, end as int, code) {
                Some((last, more)) => Some((last, len as nat + more)),
                None => None,
            },
        decreases bytes@.len() - end,
    {
        if end + 1 >= bytes.len() || bytes[end + 1] as usize > bytes.len() - end - 2 {
            return None;
        }
        let size: usize = bytes[end + 1] as usize;
        len = len + size;
        end = end + 2 + size;
    }
    Some((end, len))
}

fn is_too_short(code: u8, len: usize) -> (r: bool)
    ensures
        r == too_short(code, len as nat),
{
    (code == 81 && len < 3) || (code == 94 && len < 3) || (152 <= code && code <= 155 && len < 4)
}

fn is_too_long(code: u8, len: usize) -> (r: bool)
    ensures
        r == too_long(code, len as nat),
{
    (code == 80 && len > 0) || (code == 94 && len > 3) || (152 <= code && code <= 155 && len > 4)
}

fn blank(bytes: &mut Vec<u8>, from: usize, to: usize)
    requires
        from <= to <= old(bytes)@.len(),
    ensures
        final(bytes)@ == blanked(old(bytes)@, from as int, to as int),
{
    let mut next: usize = from;
    assert(bytes@ =~= blanked(old(bytes)@, from as int, from as int));
    while next < to
        invariant
            from <= next <= to <= bytes@.len(),
            bytes@ == blanked(old(bytes)@, from as int, next as int),
        decreases to - next,
    {
        bytes.set(next, 0);
        next = next + 1;
        assert(bytes@ =~= blanked(old(bytes)@, from as int, next as int));
    }
}

/// A copy of a message with all options made to fit.
fn mend(message: &[u8]) -> (r: Vec<u8>)
    ensures
        r@ == mended(message@),
        lengths_hold(r@),
{
    let mut bytes: Vec<u8> = Vec::new();
    bytes.extend_from_slice(message);
    assert(bytes@ =~= message@);
    let mut at: usize = FIXED_PART;
    proof {
        mended_fits(message@, FIXED_PART as int);
    }
    while at < bytes.len() && bytes[at] != 255
        invariant
            FIXED_PART <= at,
            mended(message@) == mended_from(bytes@, at as int),
            lengths_hold(mended(message@)),
        decreases bytes@.len() - at,
    {
        let code: u8 = bytes[at];
        if code == 0 {
            at = at + 1;
        } else {
            match find_option(&bytes, at, code) {
                None => {
                    return bytes;
                },
                Some((end, len)) => {
                    if is_too_short(code, len) {
                        bytes.set(at, 255);
                        return bytes;
                    }
                    if is_too_long(code, len) {
                        blank(&mut bytes, at, end);
                    }
                    at = end;
                },
            }
        }
    }
    bytes
}

/// A server's offer: the transaction that it answers and the server's own
/// address, where the offer states it.
#[derive(Clone, Copy, PartialEq, Eq, Structural, Debug)]
pub struct DhcpOfferInfo {
    pub xid: u32,
    pub server_id: Option<Ipv4Addr>,
}

/// A message is an offer if its message type says so.
pub open spec fn offer_of(fields: Option<Fields>) -> Option<DhcpOfferInfo> {
    match fields {
        Some((xid, Some(kind), server)) if kind == OFFER => Some(
            DhcpOfferInfo {
                xid,
                server_id: match server {
                    Some(bits) => Some(Ipv4Addr { bits }),
                    None => None,
                },
            },
        ),
        _ => None,
    }
}

/// The offer in what was read of a message, if it is an offer.
pub fn offer_from_fields(fields: Option<Fields>) -> (r: Option<DhcpOfferInfo>)
    ensures
        r == offer_of(fields),
{
    match fields {
        Some((xid, Some(kind), server)) => {
            if kind != OFFER {
                return None;
            }
            let server_id = match server {
                Some(bits) => Some(Ipv4Addr { bits }),
                None => None,
            };
            Some(DhcpOfferInfo { xid, server_id })
        },
        _ => None,
    }
}

/// Reads the offer in a datagram, if it holds one. Options whose length does not
/// fit are no obstacle.
pub fn parse_dhcp_offer(dhcp_bytes: &[u8]) -> (r: Option<DhcpOfferInfo>)
    ensures
        r == offer_of(dhcp_fields(mended(dhcp_bytes@))),
        lengths_hold(dhcp_bytes@) ==> r == offer_of(dhcp_fields(dhcp_bytes@)),
        dhcp_bytes@.len() < FIXED_PART ==> r is None,
        r matches Some(info) ==> be32(info.xid) == dhcp_bytes@.subrange(4, 8),
        forall|xid: u32, kind: u8| #[trigger]
            is_request_of(dhcp_bytes@, xid, kind) ==> r == offer_of(
                Some((xid, Some(kind), None::<u32>)),
            ),
{
    let message = mend(dhcp_bytes);
    proof {
        assert forall|xid: u32, kind: u8| #[trigger]
            is_request_of(dhcp_bytes@, xid, kind) implies lengths_hold(dhcp_bytes@) by {
            request_fits(dhcp_bytes@, xid, kind);
        }
        mended_keeps_the_rest(dhcp_bytes@, FIXED_PART as int);
        assert(message@.len() >= FIXED_PART ==> message@.subrange(4, 8)
            =~= dhcp_bytes@.subrange(4, 8));
        if lengths_hold(dhcp_bytes@) {
            fitting_is_left_alone(dhcp_bytes@, FIXED_PART as int);
        }
    }
    offer_from_fields(decode_message(message.as_slice()))
}

// ---------------------------------------------------------------------------
// Writing

/// A request with three options, as plain values.
#[derive(Debug)]
pub struct Request {
    pub xid: u32,
    pub flags: u16,
    /// The addresses of client, assigned client, server and relay.
    pub ciaddr: Ipv4Addr,
    pub yiaddr: Ipv4Addr,
    pub siaddr: Ipv4Addr,
    pub giaddr: Ipv4Addr,
    /// The client's hardware address.
    pub chaddr: Vec<u8>,
    pub message_type: u8,
    /// The codes of the options that the client asks for.
    pub requested: Vec<u8>,
    pub max_message_size: u16,
}

/// The part of a request in front of its options.
pub open spec fn request_head(q: Request) -> Seq<u8> {
    seq![1u8, 1u8, q.chaddr@.len() as u8, 0u8] + be32(q.xid) + be16(0) + be16(q.flags)
        + q.ciaddr.octets_view() + q.yiaddr.octets_view() + q.siaddr.octets_view()
        + q.giaddr.octets_view() + q.chaddr@ + zeros((16 - q.chaddr@.len()) as nat) + zeros(64)
        + zeros(128) + seq![99u8, 130u8, 83u8, 99u8]
}

/// The option that states the message type.
pub open spec fn message_type_option(q: Request) -> Seq<u8> {
    seq![53u8, 1u8, q.message_type]
}

/// The option that lists what the client asks for.
pub open spec fn requested_option(q: Request) -> Seq<u8> {
    seq![55u8, q.requested@.len() as u8] + q.requested@
}

/// The option that states how long a message may be.
pub open spec fn max_size_option(q: Request) -> Seq<u8> {
    seq![57u8, 2u8] + be16(q.max_message_size)
}

/// Whether `s` is `a`, `b` and `c`, in any order.
pub open spec fn in_some_order(s: Seq<u8>, a: Seq<u8>, b: Seq<u8>, c: Seq<u8>) -> bool {
    s == a + b + c || s == a + c + b || s == b + a + c || s == b + c + a || s == c + a + b || s == c
        + b + a
}

/// Whether `bytes` is the request: its head, its options in any order, and the
/// end marker.
pub open spec fn is_request(bytes: Seq<u8>, q: Request) -> bool {
    exists|options: Seq<u8>|
        #[trigger] in_some_order(
            options,
            message_type_option(q),
            requested_option(q),
            max_size_option(q),
        ) && bytes == request_head(q) + options + seq![255u8]
}

/// Whether a request can be encoded: its hardware address and its list of options
/// asked for have room.
pub open spec fn is_encodable(q: Request) -> bool {
    q.chaddr@.len() <= 16 && 1 <= q.requested@.len() <= 255
}

/// Whether `bytes` is a request in transaction `xid` whose message type is `kind`.
pub open spec fn is_request_of(bytes: Seq<u8>, xid: u32, kind: u8) -> bool {
    exists|q: Request| #[trigger]
        is_request(bytes, q) && is_encodable(q) && q.xid == xid && q.message_type == kind
}

/// Calls dhcproto: makes a message with `Message::new_with_id`, sets its flags,
/// inserts the three options and calls `encode`. dhcproto keeps the options in a
/// hash map, so the contract leaves their order open; all else of the bytes is
/// fixed. Decoding gives back the transaction and the message type, and finds no
/// server identifier, which was never inserted. A list of options asked for that
/// is empty or longer than 255 is encoded otherwise, and a hardware address
/// longer than 16 makes `new_with_id` panic: both are left out.
#[verifier::external_body]
fn encode_request(q: &Request) -> (r: Option<Vec<u8>>)
    requires
        is_encodable(*q),
    ensures
        r is Some,
        r matches Some(bytes) ==> is_request(bytes@, *q) && dhcp_fields(bytes@) == Some(
            (q.xid, Some(q.message_type), None::<u32>),
        ),
{
    let [ci, yi, si, gi] = [q.ciaddr, q.yiaddr, q.siaddr, q.giaddr].map(|ip| ip.bits.into());
    let mut message = v4::Message::new_with_id(q.xid, ci, yi, si, gi, &q.chaddr);
    message.set_flags(q.flags.into());
    let codes = q.requested.iter().copied().map(Into::into).collect();
    let options = message.opts_mut();
    options.insert(DhcpOption::MessageType(q.message_type.into()));
    options.insert(DhcpOption::ParameterRequestList(codes));
    options.insert(DhcpOption::MaxMessageSize(q.max_message_size));
    let mut bytes = Vec::new();
    message.encode(&mut Encoder::new(&mut bytes)).ok()?;
    Some(bytes)
}

/// Whether `q` is the discovery that `src_mac` starts: a broadcast question for
/// an address, which also asks for the subnet mask, the router, the name
/// servers, the domain, the lease time and the two renewal times.
pub open spec fn is_discovery(q: Request, src_mac: MacAddr, xid: u32) -> bool {
    &&& q.xid == xid
    &&& q.flags == 0x8000
    &&& q.ciaddr == Ipv4Addr::spec_unspecified()
    &&& q.yiaddr == Ipv4Addr::spec_unspecified()
    &&& q.siaddr == Ipv4Addr::spec_unspecified()
    &&& q.giaddr == Ipv4Addr::spec_unspecified()
    &&& q.chaddr@ == src_mac.octets_view()
    &&& q.message_type == DISCOVER
    &&& q.requested@ == seq![1u8, 3u8, 6u8, 15u8, 51u8, 58u8, 59u8]
    &&& q.max_message_size == 1500
}

/// Whether `bytes` is a DHCPDISCOVER from `src_mac` in transaction `xid`.
pub open spec fn is_discover_message(bytes: Seq<u8>, src_mac: MacAddr, xid: u32) -> bool {
    exists|q: Request| #[trigger] is_discovery(q, src_mac, xid) && is_request(bytes, q)
}

/// Builds the DHCPDISCOVER of transaction `xid`. Should it be heard again, it is
/// not taken for an offer.
pub fn build_dhcp_message(src_mac: MacAddr, xid: u32) -> (r: Vec<u8>)
    ensures
        is_discover_message(r@, src_mac, xid),
        r@.len() == 257,
        dhcp_fields(r@) == Some((xid, Some(DISCOVER), None::<u32>)),
        offer_of(dhcp_fields(r@)) is None,
{
    let mac = src_mac.octets();
    let q = Request {
        xid,
        flags: 0x8000,
        ciaddr: Ipv4Addr::unspecified(),
        yiaddr: Ipv4Addr::unspecified(),
        siaddr: Ipv4Addr::unspecified(),
        giaddr: Ipv4Addr::unspecified(),
        chaddr: vec![mac[0], mac[1], mac[2], mac[3], mac[4], mac[5]],
        message_type: DISCOVER,
        requested: vec![1u8, 3u8, 6u8, 15u8, 51u8, 58u8, 59u8],
        max_message_size: 1500,
    };
    assert(q.chaddr@ =~= src_mac.octets_view());
    assert(q.requested@ =~= seq![1u8, 3u8, 6u8, 15u8, 51u8, 58u8, 59u8]);
    assert(is_discovery(q, src_mac, xid));
    encode_request(&q).unwrap()
}

/// The way of a broadcast from a client without an address to all DHCP servers.
pub open spec fn broadcast_route(src_mac: MacAddr) -> Route {
    Route {
        src_mac,
        dst_mac: MacAddr::spec_broadcast(),
        src_ip: Ipv4Addr::spec_unspecified(),
        dst_ip: Ipv4Addr::spec_broadcast(),
        src_port: CLIENT_PORT,
        dst_port: SERVER_PORT,
    }
}

/// Whether `frame` carries a DHCPDISCOVER of `src_mac`, in transaction `xid`,
/// along `route`.
pub open spec fn is_discover_frame(frame: Seq<u8>, route: Route, src_mac: MacAddr, xid: u32) -> bool {
    exists|identification: u16, message: Seq<u8>|
        frame == #[trigger] udp_frame(route, identification, message) && is_discover_message(
            message,
            src_mac,
            xid,
        )
}

/// Whether `frame` is such a frame under an IPv4 identification that was drawn.
pub open spec fn is_fresh_discover_frame(
    frame: Seq<u8>,
    route: Route,
    src_mac: MacAddr,
    xid: u32,
) -> bool {
    exists|identification: u16, message: Seq<u8>|
        is_drawn_u16(identification) && frame == #[trigger] udp_frame(
            route,
            identification,
            message,
        ) && is_discover_message(message, src_mac, xid)
}

/// Builds the frame that broadcasts the DHCPDISCOVER of transaction `xid`.
pub fn build_dhcp_discover(src_mac: MacAddr, xid: u32) -> (r: Vec<u8>)
    ensures
        is_fresh_discover_frame(r@, broadcast_route(src_mac), src_mac, xid),
        is_discover_frame(r@, broadcast_route(src_mac), src_mac, xid),
{
    let message = build_dhcp_message(src_mac, xid);
    build_eth_ip_udp_frame(
        src_mac,
        MacAddr::broadcast(),
        Ipv4Addr::unspecified(),
        Ipv4Addr::broadcast(),
        CLIENT_PORT,
        SERVER_PORT,
        message.as_slice(),
    )
}

// ---------------------------------------------------------------------------
// Laws

/// Mending turns bytes into padding or the end marker and into nothing else, and
/// leaves those in front of `at` alone.
pub proof fn mended_keeps_the_rest(s: Seq<u8>, at: int)
    ensures
        mended_from(s, at).len() == s.len(),
        forall|i: int| 0 <= i < at && i < s.len() ==> #[trigger] mended_from(s, at)[i] == s[i],
        forall|i: int|
            0 <= i < s.len() ==> (#[trigger] mended_from(s, at)[i] == s[i] || mended_from(s, at)[i]
                == 0 || mended_from(s, at)[i] == 255),
    decreases s.len() - at,
{
    if at < 0 || at >= s.len() || s[at] == 255 {
    } else if s[at] == 0 {
        mended_keeps_the_rest(s, at + 1);
    } else {
        option_goes_forward(s, at, s[at]);
        match option_at(s, at, s[at]) {
            Some((end, len)) => {
                let t = blanked(s, at, end);
                mended_keeps_the_rest(t, end);
                mended_keeps_the_rest(s, end);
                assert forall|i: int| 0 <= i < s.len() implies (#[trigger] mended_from(t, end)[i]
                    == s[i] || mended_from(t, end)[i] == 0 || mended_from(t, end)[i] == 255) by {
                    assert(t[i] == s[i] || t[i] == 0);
                }
                assert forall|i: int| 0 <= i < at && i < s.len() implies #[trigger] mended_from(
                    t,
                    end,
                )[i] == s[i] by {
                    assert(t[i] == s[i]);
                }
            },
            _ => {},
        }
    }
}

/// An option reads the same in `t` as in `s` if its bytes are the same and what
/// follows is still no part of it.
proof fn same_option(s: Seq<u8>, t: Seq<u8>, at: int, code: u8)
    requires
        0 <= at,
        t.len() == s.len(),
        option_at(s, at, code) matches Some((end, _)) && (forall|i: int|
            at <= i < end ==> #[trigger] t[i] == s[i]) && (end < s.len() ==> t[end] != code),
    ensures
        option_at(t, at, code) == option_at(s, at, code),
    decreases s.len() - at,
{
    if at < s.len() && s[at] == code {
        let next = at + 2 + s[at + 1];
        option_goes_forward(s, next, code);
        assert(t[at] == s[at] && t[at + 1] == s[at + 1]);
        same_option(s, t, next, code);
    }
}

/// An option does not end before it begins, nor behind the message; what follows
/// it is of another code.
pub proof fn option_goes_forward(s: Seq<u8>, at: int, code: u8)
    requires
        0 <= at <= s.len(),
    ensures
        option_at(s, at, code) matches Some((end, len)) ==> {
            &&& at <= end <= s.len()
            &&& at < s.len() && s[at] == code ==> at < end
            &&& end < s.len() ==> s[end] != code
        },
    decreases s.len() - at,
{
    if at < s.len() && s[at] == code && at + 1 < s.len() && at + 2 + s[at + 1] <= s.len() {
        option_goes_forward(s, at + 2 + s[at + 1], code);
    }
}

/// Padding is passed over.
proof fn padding_fits(s: Seq<u8>, from: int, to: int)
    requires
        0 <= from <= to <= s.len(),
        forall|i: int| from <= i < to ==> #[trigger] s[i] == 0,
        lengths_hold_from(s, to),
    ensures
        lengths_hold_from(s, from),
    decreases to - from,
{
    if from < to {
        padding_fits(s, from + 1, to);
    }
}

/// All options of a mended message fit.
pub proof fn mended_fits(s: Seq<u8>, at: int)
    requires
        0 <= at,
    ensures
        lengths_hold_from(mended_from(s, at), at),
    decreases s.len() - at,
{
    let m = mended_from(s, at);
    mended_keeps_the_rest(s, at);
    if at >= s.len() || s[at] == 255 {
    } else if s[at] == 0 {
        mended_fits(s, at + 1);
        mended_keeps_the_rest(s, at + 1);
    } else {
        let code = s[at];
        option_goes_forward(s, at, code);
        match option_at(s, at, code) {
            Some((end, len)) => {
                if too_short(code, len) {
                    assert(m[at] == 255);
                } else if too_long(code, len) {
                    let t = blanked(s, at, end);
                    mended_fits(t, end);
                    mended_keeps_the_rest(t, end);
                    assert forall|i: int| at <= i < end implies #[trigger] m[i] == 0 by {
                        assert(t[i] == 0);
                    }
                    padding_fits(m, at, end);
                } else {
                    mended_fits(s, end);
                    mended_keeps_the_rest(s, end);
                    assert(end < s.len() ==> m[end] != code);
                    same_option(s, m, at, code);
                }
            },
            _ => {},
        }
    }
}

/// A message whose options fit is not changed by mending.
pub proof fn fitting_is_left_alone(s: Seq<u8>, at: int)
    requires
        lengths_hold_from(s, at),
    ensures
        mended_from(s, at) == s,
    decreases s.len() - at,
{
    if at < 0 || at >= s.len() || s[at] == 255 {
    } else if s[at] == 0 {
        fitting_is_left_alone(s, at + 1);
    } else {
        option_goes_forward(s, at, s[at]);
        match option_at(s, at, s[at]) {
            Some((end, len)) => fitting_is_left_alone(s, end),
            _ => {},
        }
    }
}

/// Whether `s` is one option of a kind that a request holds, in one part.
spec fn is_own_option(s: Seq<u8>) -> bool {
    &&& s.len() >= 2
    &&& s.len() == 2 + s[1]
    &&& s[0] == 53 || s[0] == 55 || s[0] == 57
}

/// An option in one part, of a kind that a request holds, fits.
proof fn own_option_fits(s: Seq<u8>, at: int)
    requires
        0 <= at,
        at + 1 < s.len(),
        at + 2 + s[at + 1] < s.len(),
        s[at] == 53 || s[at] == 55 || s[at] == 57,
        s[at + 2 + s[at + 1]] != s[at],
        lengths_hold_from(s, at + 2 + s[at + 1]),
    ensures
        lengths_hold_from(s, at),
{
    let end = at + 2 + s[at + 1];
    assert(option_at(s, end, s[at]) == Some((end, 0nat)));
    assert(option_at(s, at, s[at]) == Some((end, s[at + 1] as nat)));
}

/// Three options of different kinds, behind a head and in front of the end marker,
/// fit.
proof fn own_options_fit(s: Seq<u8>, head: Seq<u8>, x: Seq<u8>, y: Seq<u8>, z: Seq<u8>)
    requires
        head.len() == FIXED_PART,
        is_own_option(x),
        is_own_option(y),
        is_own_option(z),
        x[0] != y[0],
        y[0] != z[0],
        s == head + (x + y + z) + seq![255u8],
    ensures
        lengths_hold(s),
{
    let at_x = head.len() as int;
    let at_y = at_x + x.len();
    let at_z = at_y + y.len();
    let end = at_z + z.len();
    assert(s.len() == end + 1 && s[end] == 255);
    assert(s[at_x] == x[0] && s[at_x + 1] == x[1]);
    assert(s[at_y] == y[0] && s[at_y + 1] == y[1]);
    assert(s[at_z] == z[0] && s[at_z + 1] == z[1]);
    assert(lengths_hold_from(s, end));
    own_option_fits(s, at_z);
    own_option_fits(s, at_y);
    own_option_fits(s, at_x);
}

/// The options of every request fit.
pub proof fn request_fits(bytes: Seq<u8>, xid: u32, kind: u8)
    requires
        is_request_of(bytes, xid, kind),
    ensures
        lengths_hold(bytes),
{
    let q = choose|q: Request| #[trigger]
        is_request(bytes, q) && is_encodable(q) && q.xid == xid && q.message_type == kind;
    let a = message_type_option(q);
    let b = requested_option(q);
    let c = max_size_option(q);
    let head = request_head(q);
    let options = choose|options: Seq<u8>|
        #[trigger] in_some_order(options, a, b, c) && bytes == head + options + seq![255u8];
    assert(is_own_option(a) && is_own_option(b) && is_own_option(c));
    if options == a + b + c {
        own_options_fit(bytes, head, a, b, c);
    } else if options == a + c + b {
        own_options_fit(bytes, head, a, c, b);
    } else if options == b + a + c {
        own_options_fit(bytes, head, b, a, c);
    } else if options == b + c + a {
        own_options_fit(bytes, head, b, c, a);
    } else if options == c + a + b {
        own_options_fit(bytes, head, c, a, b);
    } else {
        own_options_fit(bytes, head, c, b, a);
    }
}

/// What a server finds in a DHCPDISCOVER that was built: a boot request on
/// Ethernet from `src_mac`, in transaction `xid`, with the broadcast flag, no
/// addresses, and options whose lengths fit.
pub proof fn discover_message_fields(bytes: Seq<u8>, src_mac: MacAddr, xid: u32)
    requires
        is_discover_message(bytes, src_mac, xid),
    ensures
        bytes.len() == 257,
        bytes.subrange(0, 4) == seq![1u8, 1u8, 6u8, 0u8],
        bytes.subrange(4, 8) == be32(xid),
        bytes.subrange(8, 12) == seq![0u8, 0u8, 0x80u8, 0u8],
        bytes.subrange(12, 28) == zeros(16),
        bytes.subrange(28, 34) == src_mac.octets_view(),
        bytes.subrange(34, 236) == zeros(202),
        bytes.subrange(236, 240) == seq![99u8, 130u8, 83u8, 99u8],
        bytes[256] == 255,
        lengths_hold(bytes),
        is_request_of(bytes, xid, DISCOVER),
{
    let q = choose|q: Request| #[trigger] is_discovery(q, src_mac, xid) && is_request(bytes, q);
    let options = choose|options: Seq<u8>|
        #[trigger] in_some_order(
            options,
            message_type_option(q),
            requested_option(q),
            max_size_option(q),
        ) && bytes == request_head(q) + options + seq![255u8];
    assert(options.len() == 16);
    assert(is_request_of(bytes, xid, DISCOVER));
    request_fits(bytes, xid, DISCOVER);
    discovery_head_fields(q, src_mac, xid);
    let head = request_head(q);
    assert(bytes.subrange(0, 4) =~= head.subrange(0, 4));
    assert(bytes.subrange(4, 8) =~= head.subrange(4, 8));
    assert(bytes.subrange(8, 12) =~= head.subrange(8, 12));
    assert(bytes.subrange(12, 28) =~= head.subrange(12, 28));
    assert(bytes.subrange(28, 34) =~= head.subrange(28, 34));
    assert(bytes.subrange(34, 236) =~= head.subrange(34, 236));
    assert(bytes.subrange(236, 240) =~= head.subrange(236, 240));
}

proof fn discovery_head_fields(q: Request, src_mac: MacAddr, xid: u32)
    requires
        is_discovery(q, src_mac, xid),
    ensures
        request_head(q).len() == FIXED_PART,
        request_head(q).subrange(0, 4) == seq![1u8, 1u8, 6u8, 0u8],
        request_head(q).subrange(4, 8) == be32(xid),
        request_head(q).subrange(8, 12) == seq![0u8, 0u8, 0x80u8, 0u8],
        request_head(q).subrange(12, 28) == zeros(16),
        request_head(q).subrange(28, 34) == src_mac.octets_view(),
        request_head(q).subrange(34, 236) == zeros(202),
        request_head(q).subrange(236, 240) == seq![99u8, 130u8, 83u8, 99u8],
{
    let head = request_head(q);
    assert(head.len() == FIXED_PART);
    assert(head.subrange(0, 4) =~= seq![1u8, 1u8, 6u8, 0u8]);
    assert(head.subrange(4, 8) =~= be32(xid));
    assert(head.subrange(8, 12) =~= seq![0u8, 0u8, 0x80u8, 0u8]);
    assert(head.subrange(12, 28) =~= zeros(16));
    assert(head.subrange(28, 34) =~= src_mac.octets_view());
    assert(head.subrange(34, 236) =~= zeros(202));
    assert(head.subrange(236, 240) =~= seq![99u8, 130u8, 83u8, 99u8]);
}

/// The message type alone tells an offer from a DISCOVER: with the value of its
/// message type option, which begins at `at`, turned into that of an offer, a
/// DISCOVER is an offer in the same transaction. What `parse_dhcp_offer` states of
/// requests then says that the first is no offer and the second is one.
pub proof fn message_type_decides(bytes: Seq<u8>, src_mac: MacAddr, xid: u32, at: int)
    requires
        is_discover_message(bytes, src_mac, xid),
        FIXED_PART <= at < bytes.len(),
        bytes[at] == 53,
    ensures
        is_request_of(bytes, xid, DISCOVER),
        is_request_of(bytes.update(at + 2, OFFER), xid, OFFER),
        offer_of(Some((xid, Some(DISCOVER), None::<u32>))) is None,
        offer_of(Some((xid, Some(OFFER), None::<u32>))) == Some(
            DhcpOfferInfo { xid, server_id: None },
        ),
{
    let q = choose|q: Request| #[trigger] is_discovery(q, src_mac, xid) && is_request(bytes, q);
    assert(is_encodable(q));
    let offer = Request { message_type: OFFER, ..q };
    let head = request_head(q);
    discovery_head_fields(q, src_mac, xid);
    let options = choose|options: Seq<u8>|
        #[trigger] in_some_order(
            options,
            message_type_option(q),
            requested_option(q),
            max_size_option(q),
        ) && bytes == head + options + seq![255u8];
    let (before, after) = around_message_type(q, options, src_mac, xid);
    message_type_turned(bytes, head, before, q, after, at);
    let turned = before + message_type_option(offer) + after;
    assert(message_type_option(offer) == seq![53u8, 1u8, OFFER]);
    assert(requested_option(offer) == requested_option(q));
    assert(max_size_option(offer) == max_size_option(q));
    assert(request_head(offer) == head);
    assert(bytes.update(at + 2, OFFER) == head + turned + seq![255u8]);
    assert(is_request(bytes.update(at + 2, OFFER), offer));
}

/// What stands before and after the message type option of a discovery; another
/// message type may stand in between as well.
proof fn around_message_type(q: Request, options: Seq<u8>, src_mac: MacAddr, xid: u32) -> (r: (
    Seq<u8>,
    Seq<u8>,
))
    requires
        is_discovery(q, src_mac, xid),
        in_some_order(
            options,
            message_type_option(q),
            requested_option(q),
            max_size_option(q),
        ),
    ensures
        options == r.0 + message_type_option(q) + r.1,
        forall|i: int| 0 <= i < r.0.len() ==> #[trigger] r.0[i] != 53,
        forall|i: int| 0 <= i < r.1.len() ==> #[trigger] r.1[i] != 53,
        in_some_order(
            r.0 + seq![53u8, 1u8, OFFER] + r.1,
            seq![53u8, 1u8, OFFER],
            requested_option(q),
            max_size_option(q),
        ),
{
    let a = message_type_option(q);
    let b = requested_option(q);
    let c = max_size_option(q);
    let t = seq![53u8, 1u8, OFFER];
    let none = Seq::<u8>::empty();
    assert(b =~= seq![55u8, 7u8, 1u8, 3u8, 6u8, 15u8, 51u8, 58u8, 59u8]);
    assert(c =~= seq![57u8, 2u8, 5u8, 220u8]);
    assert(forall|i: int| 0 <= i < b.len() ==> #[trigger] b[i] != 53);
    assert(forall|i: int| 0 <= i < c.len() ==> #[trigger] c[i] != 53);
    if options == a + b + c {
        assert(options =~= none + a + (b + c));
        assert(none + t + (b + c) =~= t + b + c);
        (none, b + c)
    } else if options == a + c + b {
        assert(options =~= none + a + (c + b));
        assert(none + t + (c + b) =~= t + c + b);
        (none, c + b)
    } else if options == b + a + c {
        (b, c)
    } else if options == b + c + a {
        assert(options =~= (b + c) + a + none);
        assert((b + c) + t + none =~= b + c + t);
        (b + c, none)
    } else if options == c + a + b {
        (c, b)
    } else {
        assert(options =~= (c + b) + a + none);
        assert((c + b) + t + none =~= c + b + t);
        (c + b, none)
    }
}

/// What turning the message type does to the bytes.
proof fn message_type_turned(
    bytes: Seq<u8>,
    head: Seq<u8>,
    before: Seq<u8>,
    q: Request,
    after: Seq<u8>,
    at: int,
)
    requires
        head.len() == FIXED_PART <= at < bytes.len(),
        bytes[at] == 53,
        q.message_type == DISCOVER,
        forall|i: int| 0 <= i < before.len() ==> #[trigger] before[i] != 53,
        forall|i: int| 0 <= i < after.len() ==> #[trigger] after[i] != 53,
        bytes == head + (before + message_type_option(q) + after) + seq![255u8],
    ensures
        bytes.update(at + 2, OFFER) == head + (before + seq![53u8, 1u8, OFFER] + after) + seq![
            255u8,
        ],
{
    let place = head.len() + before.len();
    assert(at == place) by {
        if at < place {
            assert(bytes[at] == before[at - head.len()]);
        } else if at > place + 2 && at < bytes.len() - 1 {
            assert(bytes[at] == after[at - place - 3]);
        }
    }
    assert(bytes.update(at + 2, OFFER) =~= head + (before + seq![53u8, 1u8, OFFER] + after) + seq![
        255u8,
    ]);
}

/// A message is an offer if and only if its message type is 2; the offer then has
/// the message's transaction, and its server identifier where it has one.
pub proof fn offers_are_told_by_their_type(xid: u32, kind: Option<u8>, server: Option<u32>)
    ensures
        offer_of(Some((xid, kind, server))) is Some <==> kind == Some(2u8),
        offer_of(Some((xid, kind, server))) matches Some(info) ==> {
            &&& info.xid == xid
            &&& server matches Some(bits) ==> info.server_id == Some(Ipv4Addr { bits })
            &&& server is None ==> info.server_id is None
        },
        offer_of(None) is None,
{
}

/// Mending leaves all options alone but those of the seven codes whose length
/// dhcproto asserts, and of these the ones whose length is right.
pub proof fn only_asserted_lengths_matter(code: u8, len: nat)
    ensures
        code != 80 && code != 81 && code != 94 && !(152 <= code <= 155) ==> !too_short(code, len)
            && !too_long(code, len),
        code == 80 ==> !too_short(code, len) && (too_long(code, len) <==> len != 0),
        code == 81 ==> !too_long(code, len) && (too_short(code, len) <==> len < 3),
        code == 94 || 152 <= code <= 155 ==> {
            let right: nat = if code == 94 {
                3
            } else {
                4
            };
            &&& too_short(code, len) <==> len < right
            &&& too_long(code, len) <==> len > right
        },
{
}

/// The options of a DHCPDISCOVER: that it is one, the seven that it asks for, and
/// that a message may be 1500 bytes long.
pub proof fn discover_message_options(bytes: Seq<u8>, src_mac: MacAddr, xid: u32)
    requires
        is_discover_message(bytes, src_mac, xid),
    ensures
        ({
            let a = seq![53u8, 1u8, 1u8];
            let b = seq![55u8, 7u8, 1u8, 3u8, 6u8, 15u8, 51u8, 58u8, 59u8];
            let c = seq![57u8, 2u8, 0x05u8, 0xdcu8];
            let options = bytes.subrange(240, 256);
            ||| options == a + b + c
            ||| options == a + c + b
            ||| options == b + a + c
            ||| options == b + c + a
            ||| options == c + a + b
            ||| options == c + b + a
        }),
{
    let q = choose|q: Request| #[trigger] is_discovery(q, src_mac, xid) && is_request(bytes, q);
    let options = choose|options: Seq<u8>|
        #[trigger] in_some_order(
            options,
            message_type_option(q),
            requested_option(q),
            max_size_option(q),
        ) && bytes == request_head(q) + options + seq![255u8];
    discovery_head_fields(q, src_mac, xid);
    assert(message_type_option(q) =~= seq![53u8, 1u8, 1u8]);
    assert(requested_option(q) =~= seq![55u8, 7u8, 1u8, 3u8, 6u8, 15u8, 51u8, 58u8, 59u8]);
    assert(max_size_option(q) =~= seq![57u8, 2u8, 0x05u8, 0xdcu8]);
    assert(options.len() == 16);
    assert(bytes.subrange(240, 256) =~= options);
}

/// Where a frame with a DHCPDISCOVER goes and what it carries, byte by byte.
pub proof fn discover_frame_fields(frame: Seq<u8>, route: Route, src_mac: MacAddr, xid: u32)
    requires
        is_discover_frame(frame, route, src_mac, xid),
    ensures
        frame.len() == 299,
        frame.subrange(0, 6) == route.dst_mac.octets_view(),
        frame.subrange(6, 12) == route.src_mac.octets_view(),
        frame.subrange(26, 30) == route.src_ip.octets_view(),
        frame.subrange(30, 34) == route.dst_ip.octets_view(),
        frame.subrange(34, 36) == be16(route.src_port),
        frame.subrange(36, 38) == be16(route.dst_port),
        is_discover_message(frame.subrange(42, 299), src_mac, xid),
{
    let (identification, message) = choose|identification: u16, message: Seq<u8>|
        frame == #[trigger] udp_frame(route, identification, message) && is_discover_message(
            message,
            src_mac,
            xid,
        );
    discover_message_fields(message, src_mac, xid);
    built_frame_fields(route, identification, message);
    assert(frame.subrange(42, 42 + message.len() as int) == message);
}

/// A broadcast goes from a station without an address to every station, from port
/// 68 to port 67.
pub proof fn broadcasts_go_to_every_station(src_mac: MacAddr)
    ensures
        ({
            let route = broadcast_route(src_mac);
            &&& route.src_mac == src_mac
            &&& route.dst_mac == MacAddr(255, 255, 255, 255, 255, 255)
            &&& route.src_ip.bits == 0
            &&& route.dst_ip.bits == 0xffff_ffff
            &&& route.src_port == 68
            &&& route.dst_port == 67
        }),
{
}

/// What mending does to the option at index `at`: one that fits stays, one that is
/// too long becomes padding, and what is behind either is mended as if it stood
/// alone; one that is too short becomes the end marker, and one that is cut off
/// stays, and nothing behind these changes.
pub proof fn options_are_mended_one_by_one(s: Seq<u8>, at: int)
    requires
        0 <= at < s.len(),
        s[at] != 0,
        s[at] != 255,
    ensures
        match option_at(s, at, s[at]) {
            Some((end, len)) => if too_short(s[at], len) {
                mended_from(s, at) == s.update(at, 255)
            } else {
                let kept = if too_long(s[at], len) {
                    zeros((end - at) as nat)
                } else {
                    s.subrange(at, end)
                };
                &&& at < end <= s.len()
                &&& mended_from(s, at).subrange(at, end) == kept
                &&& mended_from(s, at).skip(end) == mended_from(s, end).skip(end)
            },
            None => mended_from(s, at) == s,
        },
{
    option_goes_forward(s, at, s[at]);
    match option_at(s, at, s[at]) {
        Some((end, len)) => {
            let m = mended_from(s, at);
            mended_keeps_the_rest(s, end);
            if too_short(s[at], len) {
            } else if too_long(s[at], len) {
                let t = blanked(s, at, end);
                mended_keeps_the_rest(t, end);
                mending_looks_ahead(s, t, end);
                assert forall|i: int| at <= i < end implies #[trigger] m[i] == 0 by {
                    assert(t[i] == 0);
                }
                assert(m.subrange(at, end) =~= zeros((end - at) as nat));
                assert(m.skip(end) =~= mended_from(s, end).skip(end));
            } else {
                assert(m.subrange(at, end) =~= s.subrange(at, end));
            }
        },
        None => {},
    }
}

/// How the bytes from `at` on are mended does not depend on those in front.
proof fn mending_looks_ahead(s: Seq<u8>, t: Seq<u8>, at: int)
    requires
        0 <= at,
        s.len() == t.len(),
        forall|i: int| at <= i < s.len() ==> #[trigger] s[i] == t[i],
    ensures
        forall|i: int|
            at <= i < s.len() ==> #[trigger] mended_from(s, at)[i] == mended_from(t, at)[i],
    decreases s.len() - at,
{
    mended_keeps_the_rest(s, at);
    mended_keeps_the_rest(t, at);
    if at >= s.len() || s[at] == 255 {
        if at < s.len() {
            assert(t[at] == 255);
        }
    } else if s[at] == 0 {
        assert(t[at] == 0);
        mending_looks_ahead(s, t, at + 1);
        assert forall|i: int| at <= i < s.len() implies #[trigger] mended_from(s, at)[i]
            == mended_from(t, at)[i] by {
            mended_keeps_the_rest(s, at + 1);
            mended_keeps_the_rest(t, at + 1);
        }
    } else {
        let code = s[at];
        assert(t[at] == code);
        option_looks_ahead(s, t, at, code);
        option_goes_forward(s, at, code);
        match option_at(s, at, code) {
            Some((end, len)) => {
                if too_short(code, len) {
                } else {
                    let (x, y) = if too_long(code, len) {
                        (blanked(s, at, end), blanked(t, at, end))
                    } else {
                        (s, t)
                    };
                    assert forall|i: int| at <= i < s.len() implies #[trigger] x[i] == y[i] by {
                        assert(s[i] == t[i]);
                    }
                    mending_looks_ahead(x, y, end);
                    mended_keeps_the_rest(x, end);
                    mended_keeps_the_rest(y, end);
                    assert forall|i: int| at <= i < s.len() implies #[trigger] mended_from(s, at)[i]
                        == mended_from(t, at)[i] by {
                        if i < end {
                            assert(mended_from(x, end)[i] == x[i]);
                            assert(mended_from(y, end)[i] == y[i]);
                        } else {
                            assert(mended_from(x, end)[i] == mended_from(y, end)[i]);
                        }
                    }
                }
            },
            None => {},
        }
    }
}

proof fn option_looks_ahead(s: Seq<u8>, t: Seq<u8>, at: int, code: u8)
    requires
        0 <= at,
        s.len() == t.len(),
        forall|i: int| at <= i < s.len() ==> #[trigger] s[i] == t[i],
    ensures
        option_at(s, at, code) == option_at(t, at, code),
    decreases s.len() - at,
{
    if at < s.len() {
        assert(s[at] == t[at]);
        if at + 1 < s.len() {
            assert(s[at + 1] == t[at + 1]);
            if s[at] == code && at + 2 + s[at + 1] <= s.len() {
                option_looks_ahead(s, t, at + 2 + s[at + 1], code);
            }
        }
    }
}

} // verus!
