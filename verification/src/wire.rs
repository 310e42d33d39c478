//! Frames on the wire: Ethernet, ARP, IPv4 and UDP, as bytes.

use crate::addr::{
    octets_determine_address, octets_spell_bits, text_spells_the_octets, Ipv4Addr, MacAddr,
};
use crate::draw::{draw_u16, is_drawn_u16};
use vstd::prelude::*;

verus! {

/// A 16-bit number in network order.
pub open spec fn be16(n: u16) -> Seq<u8> {
    seq![(n / 0x100) as u8, (n % 0x100) as u8]
}

/// A 32-bit number in network order.
pub open spec fn be32(n: u32) -> Seq<u8> {
    seq![
        (n / 0x1000000) as u8,
        (n / 0x10000 % 0x100) as u8,
        (n / 0x100 % 0x100) as u8,
        (n % 0x100) as u8,
    ]
}

/// `n` zero bytes.
pub open spec fn zeros(n: nat) -> Seq<u8> {
    Seq::new(n, |i: int| 0u8)
}

fn push16(out: &mut Vec<u8>, n: u16)
    ensures
        final(out)@ == old(out)@ + be16(n),
{
    out.push((n / 0x100) as u8);
    out.push((n % 0x100) as u8);
    assert(out@ =~= old(out)@ + be16(n));
}

fn push_bytes(out: &mut Vec<u8>, bytes: &[u8])
    ensures
        final(out)@ == old(out)@ + bytes@,
{
    out.extend_from_slice(bytes);
    assert(out@ =~= old(out)@ + bytes@);
}

// ---------------------------------------------------------------------------
// IPv4 header checksum

/// The 16-bit word at index `i`, in network order.
pub open spec fn word_at(s: Seq<u8>, i: int) -> nat {
    (s[2 * i] * 0x100 + s[2 * i + 1]) as nat
}

/// The sum of the first `n` words, the word at `skip` left out.
pub open spec fn word_sum(s: Seq<u8>, n: nat, skip: int) -> nat
    decreases n,
{
    if n == 0 {
        0
    } else {
        word_sum(s, (n - 1) as nat, skip) + (if n - 1 == skip {
            0
        } else {
            word_at(s, n - 1)
        })
    }
}

/// End-around carry: the sum folded into 16 bits.
pub open spec fn fold16(sum: nat) -> nat
    decreases sum,
{
    if sum < 0x10000 {
        sum
    } else {
        fold16(sum / 0x10000 + sum % 0x10000)
    }
}

/// The Internet checksum of a 20-byte header, its checksum field left out.
pub open spec fn header_checksum(header: Seq<u8>) -> u16 {
    (0xffff - fold16(word_sum(header, 10, 5))) as u16
}

/// Calls pnet's `ipv4::checksum` on a 20-byte header. That function sums the
/// 16-bit big-endian words of the header without the sixth, folds the carries
/// in and complements. It takes the header's length from the header itself,
/// but never less than 20 bytes nor more than it was given, so here it is 20.
#[verifier::external_body]
fn pnet_ipv4_checksum(header: &[u8]) -> (r: u16)
    requires
        header@.len() == 20,
    ensures
        r == header_checksum(header@),
{
    pnet::packet::ipv4::checksum(&pnet::packet::ipv4::Ipv4Packet::new(header).unwrap())
}

// ---------------------------------------------------------------------------
// UDP in IPv4 in Ethernet

/// The longest payload that a UDP datagram carries over IPv4.
pub const MAX_PAYLOAD: usize = 65507;

/// The shortest Ethernet frame, its check sequence not counted.
pub const MIN_FRAME: usize = 60;

/// A UDP datagram without a checksum.
pub open spec fn udp_datagram(src_port: u16, dst_port: u16, payload: Seq<u8>) -> Seq<u8> {
    be16(src_port) + be16(dst_port) + be16((8 + payload.len()) as u16) + be16(0) + payload
}

/// An IPv4 header for UDP without options or fragments, time to live 128.
pub open spec fn ipv4_header_with(
    total: u16,
    identification: u16,
    checksum: u16,
    src: Ipv4Addr,
    dst: Ipv4Addr,
) -> Seq<u8> {
    seq![0x45u8, 0u8] + be16(total) + be16(identification) + be16(0) + seq![128u8, 17u8] + be16(
        checksum,
    ) + src.octets_view() + dst.octets_view()
}

/// The same header with its own checksum filled in.
pub open spec fn ipv4_header(total: u16, identification: u16, src: Ipv4Addr, dst: Ipv4Addr) -> Seq<
    u8,
> {
    let checksum = header_checksum(ipv4_header_with(total, identification, 0, src, dst));
    ipv4_header_with(total, identification, checksum, src, dst)
}

/// The addresses and ports that a UDP frame goes from and to.
#[derive(Clone, Copy, Debug)]
pub struct Route {
    pub src_mac: MacAddr,
    pub dst_mac: MacAddr,
    pub src_ip: Ipv4Addr,
    pub dst_ip: Ipv4Addr,
    pub src_port: u16,
    pub dst_port: u16,
}

/// An Ethernet frame that is filled up with zeros to the shortest length allowed.
pub open spec fn padded(frame: Seq<u8>) -> Seq<u8> {
    if frame.len() < MIN_FRAME {
        frame + zeros((MIN_FRAME - frame.len()) as nat)
    } else {
        frame
    }
}

/// The Ethernet frame that carries `payload` over UDP and IPv4 along `route`.
pub open spec fn udp_frame(route: Route, identification: u16, payload: Seq<u8>) -> Seq<u8> {
    padded(
        route.dst_mac.octets_view() + route.src_mac.octets_view() + be16(0x0800) + ipv4_header(
            (28 + payload.len()) as u16,
            identification,
            route.src_ip,
            route.dst_ip,
        ) + udp_datagram(route.src_port, route.dst_port, payload),
    )
}

fn build_ipv4_header_with(
    total: u16,
    identification: u16,
    checksum: u16,
    src: Ipv4Addr,
    dst: Ipv4Addr,
) -> (r: Vec<u8>)
    ensures
        r@ == ipv4_header_with(total, identification, checksum, src, dst),
{
    let mut out: Vec<u8> = vec![0x45u8, 0u8];
    assert(out@ =~= seq![0x45u8, 0u8]);
    push16(&mut out, total);
    push16(&mut out, identification);
    push16(&mut out, 0);
    let life: [u8; 2] = [128, 17];
    assert(life@ =~= seq![128u8, 17u8]);
    push_bytes(&mut out, &life);
    push16(&mut out, checksum);
    push_bytes(&mut out, &src.octets());
    push_bytes(&mut out, &dst.octets());
    out
}

/// Builds the frame that carries `payload` along `route`, under a given IPv4
/// identification.
pub fn frame_with_identification(route: &Route, payload: &[u8], identification: u16) -> (r: Vec<u8>)
    requires
        payload@.len() <= MAX_PAYLOAD,
    ensures
        r@ == udp_frame(*route, identification, payload@),
{
    let udp_len: usize = 8 + payload.len();
    let total: u16 = (20 + udp_len) as u16;
    let blank = build_ipv4_header_with(total, identification, 0, route.src_ip, route.dst_ip);
    let checksum: u16 = pnet_ipv4_checksum(blank.as_slice());
    let header = build_ipv4_header_with(
        total,
        identification,
        checksum,
        route.src_ip,
        route.dst_ip,
    );

    let mut udp: Vec<u8> = Vec::new();
    push16(&mut udp, route.src_port);
    assert(udp@ =~= be16(route.src_port));
    push16(&mut udp, route.dst_port);
    push16(&mut udp, udp_len as u16);
    push16(&mut udp, 0);
    push_bytes(&mut udp, payload);

    let mut frame: Vec<u8> = Vec::new();
    push_bytes(&mut frame, &route.dst_mac.octets());
    assert(frame@ =~= route.dst_mac.octets_view());
    push_bytes(&mut frame, &route.src_mac.octets());
    push16(&mut frame, 0x0800);
    push_bytes(&mut frame, header.as_slice());
    push_bytes(&mut frame, udp.as_slice());
    pad(&mut frame);
    frame
}

fn pad(frame: &mut Vec<u8>)
    ensures
        final(frame)@ == padded(old(frame)@),
{
    let ghost before = frame@;
    while frame.len() < MIN_FRAME
        invariant
            frame@.len() >= before.len(),
            frame@.len() > before.len() ==> frame@.len() <= MIN_FRAME,
            frame@ == before + zeros((frame@.len() - before.len()) as nat),
        decreases MIN_FRAME - frame@.len(),
    {
        let ghost n = (frame@.len() - before.len()) as nat;
        frame.push(0);
        assert(frame@ =~= before + zeros(n + 1));
    }
    assert(frame@ =~= padded(before));
}

/// Builds an Ethernet frame that carries `payload` over IPv4 and UDP, under a
/// fresh random IPv4 identification.
pub fn build_eth_ip_udp_frame(
    src_mac: MacAddr,
    dst_mac: MacAddr,
    src_ip: Ipv4Addr,
    dst_ip: Ipv4Addr,
    src_port: u16,
    dst_port: u16,
    payload: &[u8],
) -> (r: Vec<u8>)
    requires
        payload@.len() <= MAX_PAYLOAD,
    ensures
        exists|identification: u16|
            is_drawn_u16(identification) && r@ == #[trigger] udp_frame(
                (Route { src_mac, dst_mac, src_ip, dst_ip, src_port, dst_port }),
                identification,
                payload@,
            ),
{
    let route = Route { src_mac, dst_mac, src_ip, dst_ip, src_port, dst_port };
    let identification: u16 = draw_u16();
    frame_with_identification(&route, payload, identification)
}

// ---------------------------------------------------------------------------
// ARP

/// An Ethernet frame that holds an ARP packet for IPv4 addresses.
pub open spec fn arp_frame(
    dst: MacAddr,
    src: MacAddr,
    operation: u16,
    sender_mac: MacAddr,
    sender_ip: Ipv4Addr,
    target_mac: Seq<u8>,
    target_ip: Ipv4Addr,
) -> Seq<u8> {
    dst.octets_view() + src.octets_view() + be16(0x0806) + be16(1) + be16(0x0800) + seq![6u8, 4u8]
        + be16(operation) + sender_mac.octets_view() + sender_ip.octets_view() + target_mac
        + target_ip.octets_view()
}

/// The broadcast question which station has `target_ip`.
pub open spec fn arp_request(src_mac: MacAddr, src_ip: Ipv4Addr, target_ip: Ipv4Addr) -> Seq<u8> {
    arp_frame(MacAddr::spec_broadcast(), src_mac, 1, src_mac, src_ip, zeros(6), target_ip)
}

/// Builds the broadcast question which station has `target_ip`.
pub fn build_arp_request(src_mac: MacAddr, src_ip: Ipv4Addr, target_ip: Ipv4Addr) -> (r: Vec<u8>)
    ensures
        r@ == arp_request(src_mac, src_ip, target_ip),
{
    let mut frame: Vec<u8> = Vec::new();
    push_bytes(&mut frame, &MacAddr::broadcast().octets());
    assert(frame@ =~= MacAddr::spec_broadcast().octets_view());
    push_bytes(&mut frame, &src_mac.octets());
    push16(&mut frame, 0x0806);
    push16(&mut frame, 1);
    push16(&mut frame, 0x0800);
    let sizes: [u8; 2] = [6, 4];
    assert(sizes@ =~= seq![6u8, 4u8]);
    push_bytes(&mut frame, &sizes);
    push16(&mut frame, 1);
    push_bytes(&mut frame, &src_mac.octets());
    push_bytes(&mut frame, &src_ip.octets());
    let unknown: [u8; 6] = [0, 0, 0, 0, 0, 0];
    assert(unknown@ =~= zeros(6));
    push_bytes(&mut frame, &unknown);
    push_bytes(&mut frame, &target_ip.octets());
    frame
}

/// Whether a frame is an ARP reply in which `target_ip` states its address: an
/// Ethernet frame of type ARP that holds a whole packet, of operation 2, whose
/// sender address is `target_ip`.
pub open spec fn is_arp_reply(frame: Seq<u8>, target_ip: Ipv4Addr) -> bool {
    &&& frame.len() >= 42
    &&& frame.subrange(12, 14) == be16(0x0806)
    &&& frame.subrange(20, 22) == be16(2)
    &&& frame.subrange(28, 32) == target_ip.octets_view()
}

/// What an ARP reply says of `target_ip`.
pub open spec fn arp_answer(frame: Seq<u8>, target_ip: Ipv4Addr) -> Option<MacAddr> {
    if is_arp_reply(frame, target_ip) {
        Some(MacAddr(frame[22], frame[23], frame[24], frame[25], frame[26], frame[27]))
    } else {
        None
    }
}

/// Reads the Ethernet address of `target_ip` from a frame, if the frame is its
/// ARP reply.
pub fn parse_arp_reply(eth_bytes: &[u8], target_ip: Ipv4Addr) -> (r: Option<MacAddr>)
    ensures
        r == arp_answer(eth_bytes@, target_ip),
{
    if eth_bytes.len() < 42 {
        return None;
    }
    proof {
        assert(be16(0x0806) =~= seq![0x08u8, 0x06u8]);
        assert(be16(2) =~= seq![0u8, 2u8]);
        let ethertype = eth_bytes@.subrange(12, 14);
        let operation = eth_bytes@.subrange(20, 22);
        assert(ethertype == be16(0x0806) <==> ethertype[0] == 0x08 && ethertype[1] == 0x06) by {
            if ethertype[0] == 0x08 && ethertype[1] == 0x06 {
                assert(ethertype =~= be16(0x0806));
            }
        }
        assert(operation == be16(2) <==> operation[0] == 0 && operation[1] == 2) by {
            if operation[0] == 0 && operation[1] == 2 {
                assert(operation =~= be16(2));
            }
        }
    }
    if eth_bytes[12] != 0x08 || eth_bytes[13] != 0x06 {
        return None;
    }
    if eth_bytes[20] != 0 || eth_bytes[21] != 2 {
        return None;
    }
    let sender = Ipv4Addr::new(eth_bytes[28], eth_bytes[29], eth_bytes[30], eth_bytes[31]);
    assert(sender.octets_view() =~= eth_bytes@.subrange(28, 32));
    if sender.bits == target_ip.bits {
        Some(
            MacAddr(
                eth_bytes[22],
                eth_bytes[23],
                eth_bytes[24],
                eth_bytes[25],
                eth_bytes[26],
                eth_bytes[27],
            ),
        )
    } else {
        proof {
            if eth_bytes@.subrange(28, 32) == target_ip.octets_view() {
                octets_determine_address(sender, target_ip);
            }
        }
        None
    }
}

// ---------------------------------------------------------------------------
// Laws

/// Folding the carries in keeps a sum's remainder by 65535, ends below 65536
/// and turns no other sum into zero.
proof fn fold16_keeps_remainder(sum: nat)
    ensures
        fold16(sum) < 0x10000,
        fold16(sum) % 0xffff == sum % 0xffff,
        sum > 0 ==> fold16(sum) > 0,
    decreases sum,
{
    if sum >= 0x10000 {
        let next = sum / 0x10000 + sum % 0x10000;
        fold16_keeps_remainder(next);
        assert(sum == 0xffff * (sum / 0x10000) + next);
        assert((0xffff * (sum / 0x10000) + next) % 0xffff == next % 0xffff) by (nonlinear_arith);
    }
}

/// Only the word at `skip` tells the two sums apart.
proof fn word_sum_with_skipped_word(s: Seq<u8>, n: nat, skip: int)
    ensures
        word_sum(s, n, -1) == word_sum(s, n, skip) + (if 0 <= skip < n {
            word_at(s, skip)
        } else {
            0
        }),
    decreases n,
{
    if n > 0 {
        word_sum_with_skipped_word(s, (n - 1) as nat, skip);
    }
}

/// Headers that differ in the word at `skip` alone have the same sum without it.
proof fn word_sum_ignores_skipped_word(s: Seq<u8>, t: Seq<u8>, n: nat, skip: int)
    requires
        forall|i: int| 0 <= i < n && i != skip ==> #[trigger] word_at(s, i) == word_at(t, i),
    ensures
        word_sum(s, n, skip) == word_sum(t, n, skip),
    decreases n,
{
    if n > 0 {
        word_sum_ignores_skipped_word(s, t, (n - 1) as nat, skip);
    }
}

/// Every IPv4 header that is built verifies: the ten words of it, the checksum
/// with them, fold into 0xffff.
pub proof fn built_header_verifies(total: u16, identification: u16, src: Ipv4Addr, dst: Ipv4Addr)
    ensures
        ipv4_header(total, identification, src, dst).len() == 20,
        fold16(word_sum(ipv4_header(total, identification, src, dst), 10, -1)) == 0xffff,
{
    let blank = ipv4_header_with(total, identification, 0, src, dst);
    let header = ipv4_header(total, identification, src, dst);
    let checksum = header_checksum(blank);
    assert(header[10] == (checksum / 0x100) as u8 && header[11] == (checksum % 0x100) as u8);
    assert(word_at(header, 5) == checksum);
    assert forall|i: int| 0 <= i < 10 && i != 5 implies #[trigger] word_at(blank, i) == word_at(
        header,
        i,
    ) by {
        assert(blank[2 * i] == header[2 * i] && blank[2 * i + 1] == header[2 * i + 1]);
    }
    word_sum_ignores_skipped_word(blank, header, 10, 5);
    word_sum_with_skipped_word(header, 10, 5);
    let rest = word_sum(blank, 10, 5);
    fold16_keeps_remainder(rest);
    let whole = rest + checksum as nat;
    assert(word_at(header, 0) >= 0x4500);
    assert(word_sum(header, 10, -1) > 0) by {
        reveal_with_fuel(word_sum, 11);
    }
    fold16_keeps_remainder(whole);
    assert(whole % 0xffff == 0) by {
        assert(rest == 0xffff * (rest / 0xffff) + rest % 0xffff);
        let folded = fold16(rest);
        assert(folded == 0xffff * (folded / 0xffff) + folded % 0xffff);
        assert(whole == 0xffff * (rest / 0xffff - folded / 0xffff + 1));
    }
}

/// What a receiver finds in a built frame, field by field: the addresses, the
/// lengths, a UDP checksum of zero, and the payload where the lengths say.
pub proof fn built_frame_fields(route: Route, identification: u16, payload: Seq<u8>)
    requires
        payload.len() <= MAX_PAYLOAD,
    ensures
        ({
            let frame = udp_frame(route, identification, payload);
            let n = payload.len();
            &&& frame.len() == if 42 + n < MIN_FRAME { MIN_FRAME as nat } else { 42 + n }
            &&& frame.subrange(0, 6) == route.dst_mac.octets_view()
            &&& frame.subrange(6, 12) == route.src_mac.octets_view()
            &&& frame.subrange(12, 14) == be16(0x0800)
            &&& frame.subrange(14, 34) == ipv4_header(
                (28 + n) as u16,
                identification,
                route.src_ip,
                route.dst_ip,
            )
            &&& frame.subrange(16, 18) == be16((28 + n) as u16)
            &&& frame.subrange(26, 30) == route.src_ip.octets_view()
            &&& frame.subrange(30, 34) == route.dst_ip.octets_view()
            &&& frame.subrange(34, 36) == be16(route.src_port)
            &&& frame.subrange(36, 38) == be16(route.dst_port)
            &&& frame.subrange(38, 40) == be16((8 + n) as u16)
            &&& frame.subrange(40, 42) == zeros(2)
            &&& frame.subrange(42, 42 + n as int) == payload
            &&& frame.subrange(42 + n as int, frame.len() as int) == zeros(
                (frame.len() - 42 - n) as nat,
            )
        }),
{
    let frame = udp_frame(route, identification, payload);
    let n = payload.len();
    let header = ipv4_header((28 + n) as u16, identification, route.src_ip, route.dst_ip);
    assert(header.len() == 20);
    assert(be16(0) =~= zeros(2));
    assert(frame.subrange(0, 6) =~= route.dst_mac.octets_view());
    assert(frame.subrange(6, 12) =~= route.src_mac.octets_view());
    assert(frame.subrange(12, 14) =~= be16(0x0800));
    assert(frame.subrange(14, 34) =~= header);
    assert(frame.subrange(16, 18) =~= be16((28 + n) as u16));
    assert(frame.subrange(26, 30) =~= route.src_ip.octets_view());
    assert(frame.subrange(30, 34) =~= route.dst_ip.octets_view());
    assert(frame.subrange(34, 36) =~= be16(route.src_port));
    assert(frame.subrange(36, 38) =~= be16(route.dst_port));
    assert(frame.subrange(38, 40) =~= be16((8 + n) as u16));
    assert(frame.subrange(40, 42) =~= zeros(2));
    assert(frame.subrange(42, 42 + n as int) =~= payload);
    assert(frame.subrange(42 + n as int, frame.len() as int) =~= zeros(
        (frame.len() - 42 - n) as nat,
    ));
}

/// A station's answer is understood: from a reply in which `owner` says that it
/// has `ip`, padded as Ethernet may pad it, the address of `owner` is read.
pub proof fn arp_reply_is_understood(
    dst: MacAddr,
    src: MacAddr,
    owner: MacAddr,
    ip: Ipv4Addr,
    asker: MacAddr,
    asker_ip: Ipv4Addr,
    trailer: Seq<u8>,
)
    ensures
        arp_answer(
            arp_frame(dst, src, 2, owner, ip, asker.octets_view(), asker_ip) + trailer,
            ip,
        ) == Some(owner),
{
    let frame = arp_frame(dst, src, 2, owner, ip, asker.octets_view(), asker_ip) + trailer;
    assert(frame.subrange(12, 14) =~= be16(0x0806));
    assert(frame.subrange(20, 22) =~= be16(2));
    assert(frame.subrange(28, 32) =~= ip.octets_view());
}

/// A question is never taken for an answer, whoever hears it.
pub proof fn arp_request_is_no_reply(
    src_mac: MacAddr,
    src_ip: Ipv4Addr,
    target_ip: Ipv4Addr,
    expected: Ipv4Addr,
)
    ensures
        arp_request(src_mac, src_ip, target_ip).len() == 42,
        arp_answer(arp_request(src_mac, src_ip, target_ip), expected) is None,
{
    let frame = arp_request(src_mac, src_ip, target_ip);
    assert(frame.subrange(20, 22)[1] == 1);
    assert(be16(2)[1] == 2);
}

/// Numbers in network order read back.
pub proof fn network_order_reads_back(n: u16, m: u32)
    ensures
        be16(n).len() == 2,
        be16(n)[0] * 0x100 + be16(n)[1] == n,
        be32(m).len() == 4,
        be32(m)[0] * 0x1000000 + be32(m)[1] * 0x10000 + be32(m)[2] * 0x100 + be32(m)[3] == m,
{
    assert(m / 0x10000 == (m / 0x100) / 0x100);
    assert(m / 0x1000000 == (m / 0x10000) / 0x100);
}

/// What stands in the IPv4 header of a built frame: version 4 and five words, no
/// service type, the length, the identification, no fragments, time to live 128,
/// UDP, and the two addresses.
pub proof fn built_header_fields(total: u16, identification: u16, src: Ipv4Addr, dst: Ipv4Addr)
    ensures
        ({
            let header = ipv4_header(total, identification, src, dst);
            &&& header.len() == 20
            &&& header[0] == 0x45
            &&& header[1] == 0
            &&& header[2] * 0x100 + header[3] == total
            &&& header[4] * 0x100 + header[5] == identification
            &&& header[6] == 0 && header[7] == 0
            &&& header[8] == 128
            &&& header[9] == 17
            &&& header.subrange(12, 16) == src.octets_view()
            &&& header.subrange(16, 20) == dst.octets_view()
        }),
{
    let header = ipv4_header(total, identification, src, dst);
    assert(header.subrange(12, 16) =~= src.octets_view());
    assert(header.subrange(16, 20) =~= dst.octets_view());
}

/// A frame is 42 bytes longer than its payload, but never shorter than 60 bytes.
pub proof fn built_frame_length(route: Route, identification: u16, payload: Seq<u8>)
    requires
        payload.len() <= 65507,
    ensures
        payload.len() >= 18 ==> udp_frame(route, identification, payload).len() == 42
            + payload.len(),
        payload.len() <= 18 ==> udp_frame(route, identification, payload).len() == 60,
{
    built_frame_fields(route, identification, payload);
}

/// The question for an address goes to every station, as an ARP request of the
/// asking station that names the address.
pub proof fn arp_request_fields(src_mac: MacAddr, src_ip: Ipv4Addr, target_ip: Ipv4Addr)
    ensures
        ({
            let frame = arp_request(src_mac, src_ip, target_ip);
            &&& frame.len() == 42
            &&& forall|i: int| 0 <= i < 6 ==> #[trigger] frame[i] == 0xff
            &&& frame.subrange(6, 12) == src_mac.octets_view()
            &&& frame.subrange(12, 22) == seq![8u8, 6u8, 0u8, 1u8, 8u8, 0u8, 6u8, 4u8, 0u8, 1u8]
            &&& frame.subrange(22, 28) == src_mac.octets_view()
            &&& frame.subrange(28, 32) == src_ip.octets_view()
            &&& forall|i: int| 32 <= i < 38 ==> #[trigger] frame[i] == 0
            &&& frame.subrange(38, 42) == target_ip.octets_view()
        }),
{
    let frame = arp_request(src_mac, src_ip, target_ip);
    assert(frame.subrange(6, 12) =~= src_mac.octets_view());
    assert(frame.subrange(12, 22) =~= seq![8u8, 6u8, 0u8, 1u8, 8u8, 0u8, 6u8, 4u8, 0u8, 1u8]);
    assert(frame.subrange(22, 28) =~= src_mac.octets_view());
    assert(frame.subrange(28, 32) =~= src_ip.octets_view());
    assert(frame.subrange(38, 42) =~= target_ip.octets_view());
}

/// Whether the bytes of a frame are an ARP reply of the station at `ip`.
pub open spec fn is_reply_of(frame: Seq<u8>, ip: Ipv4Addr) -> bool {
    &&& frame.len() >= 42
    &&& frame[12] == 8 && frame[13] == 6
    &&& frame[20] == 0 && frame[21] == 2
    &&& frame[28] * 0x1000000 + frame[29] * 0x10000 + frame[30] * 0x100 + frame[31] == ip.bits
}

/// Every ARP reply of a station tells the address that stands in it, and no other
/// frame tells one.
pub proof fn replies_are_read(frame: Seq<u8>, ip: Ipv4Addr)
    ensures
        is_reply_of(frame, ip) ==> arp_answer(frame, ip) == Some(
            MacAddr(frame[22], frame[23], frame[24], frame[25], frame[26], frame[27]),
        ),
        !is_reply_of(frame, ip) ==> arp_answer(frame, ip) is None,
{
    if frame.len() >= 42 {
        let kind = frame.subrange(12, 14);
        let operation = frame.subrange(20, 22);
        let sender = frame.subrange(28, 32);
        assert(kind[0] == frame[12] && kind[1] == frame[13]);
        assert(operation[0] == frame[20] && operation[1] == frame[21]);
        assert(be16(0x0806) =~= seq![8u8, 6u8]);
        assert(be16(2) =~= seq![0u8, 2u8]);
        if frame[12] == 8 && frame[13] == 6 {
            assert(kind =~= be16(0x0806));
        }
        if frame[20] == 0 && frame[21] == 2 {
            assert(operation =~= be16(2));
        }
        let (a, b, c, d) = (frame[28], frame[29], frame[30], frame[31]);
        assert(sender =~= seq![a, b, c, d]);
        if a * 0x1000000 + b * 0x10000 + c * 0x100 + d == ip.bits {
            text_spells_the_octets(ip, a, b, c, d);
        } else if sender == ip.octets_view() {
            octets_spell_bits(ip);
            assert(ip.octets_view()[0] == a && ip.octets_view()[1] == b && ip.octets_view()[2] == c
                && ip.octets_view()[3] == d);
        }
    }
}

} // verus!
