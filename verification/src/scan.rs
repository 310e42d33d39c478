//! The full scan: find the DHCP servers by broadcast, then ask the servers and
//! the common gateways one by one.

use crate::addr::{IpAddr, Ipv4Addr, MacAddr};
use crate::arp::{
    arp_action, arp_goes_on, arp_next, arp_start, arp_wants, resolve_arp, ArpStage,
};
use crate::channels::{CLIENT_PORT, SERVER_PORT};
use crate::dhcp::{
    broadcast_route, build_dhcp_discover, build_dhcp_message, is_discover_frame,
    is_fresh_discover_frame, DhcpOfferInfo,
};
use crate::draw::{draw_u32, is_drawn_u32};
use crate::servers::{
    answer_recorded, can_count, gateways, keyed_by_address, listing_is_unique, listing_of,
    lists_addresses, mac_recorded, offer_recorded, probe_targets, targets_are_complete,
    with_missing, ServerEntry, ServerTable,
};
use crate::steps::{in_time, still_in_time, Action, ActionView, Event};
use crate::text::{
    decimal, hex, lines_view, no_lines, push_decimal, push_hex, push_line, push_text,
};
use crate::wire::{build_eth_ip_udp_frame, Route};
use vstd::prelude::*;

verus! {

/// How often the DISCOVER is broadcast.
pub const BROADCASTS: u8 = 3;

/// How long offers are collected after a broadcast, in nanoseconds.
pub const COLLECT_TIME: u64 = 2_000_000_000;

/// How long the answer of a single server is waited for, in nanoseconds.
pub const AWAIT_TIME: u64 = 3_000_000_000;

/// How long a single read of the socket may take, in milliseconds.
pub const SCAN_POLL_MS: u64 = 50;

/// How far a scan has come.
#[derive(Clone, Copy, PartialEq, Eq, Structural, Debug)]
pub enum ScanStage {
    /// The broadcast of this round is to be sent.
    Broadcast { round: u8 },
    /// The broadcast was sent at `since`; offers are collected.
    Collect { round: u8, since: u64 },
    /// Target number `pos` is asked for its Ethernet address.
    Resolve { pos: usize, arp: ArpStage },
    /// A DISCOVER in transaction `xid` is to be sent to the target alone.
    Probe { pos: usize, mac: MacAddr, xid: u32 },
    /// The DISCOVER was sent at `since`; the target's offer is waited for.
    Await { pos: usize, mac: MacAddr, xid: u32, since: u64 },
    Finished,
}

/// A scan by content.
pub struct ScanView {
    /// The station that scans.
    pub src_mac: MacAddr,
    pub local_ip: Ipv4Addr,
    /// The transaction of the broadcasts, and the frame that is broadcast.
    pub xid: u32,
    pub discover: Seq<u8>,
    /// The servers that were found, and how many datagrams came in the meantime.
    pub servers: Map<u32, ServerEntry>,
    pub received: nat,
    /// Whom to ask one by one. The first `known` of them answered the broadcast.
    pub targets: Seq<Ipv4Addr>,
    pub known: nat,
    /// The frame for the target alone.
    pub probe: Seq<u8>,
    pub stage: ScanStage,
}

/// What a step leads to: the scan after it and the lines that it logs.
pub struct Outcome {
    pub scan: ScanView,
    pub lines: Seq<Seq<char>>,
}

// ---------------------------------------------------------------------------
// What is logged

pub open spec fn round_line(round: u8) -> Seq<char> {
    "发送第 "@ + decimal(round as nat) + " 次广播 DISCOVER..."@
}

pub open spec fn start_lines(xid: u32) -> Seq<Seq<char>> {
    seq![
        "本次扫描 XID: 0x"@ + hex(xid as nat, 8),
        ""@,
        "阶段一：广播 DHCP 服务器检测（UDP Socket 接收）"@,
        "发送 3 次广播 DISCOVER..."@,
        round_line(1),
    ]
}

pub open spec fn found_line(server: Ipv4Addr, source: IpAddr) -> Seq<char> {
    "  发现 DHCP 服务器 -> Server ID: "@ + server.text() + " (来源: "@ + source.text() + ")"@
}

pub open spec fn phase_lines(received: nat, servers: Map<u32, ServerEntry>) -> Seq<Seq<char>> {
    seq![
        "阶段一 UDP Socket 共收到 "@ + decimal(received) + " 个包"@,
        if servers == Map::<u32, ServerEntry>::empty() {
            "未发现任何 DHCP 服务器响应（广播方式）。"@
        } else {
            "阶段一共发现 "@ + decimal(servers.len()) + " 个 DHCP 服务器："@
        },
        ""@,
        "阶段二：ARP 解析 + 单播 DHCP 探测（UDP Socket 接收）"@,
    ]
}

pub open spec fn target_line(target: Ipv4Addr) -> Seq<char> {
    "检查 "@ + target.text() + " ..."@
}

pub open spec fn no_mac_line(target: Ipv4Addr, is_known: bool) -> Seq<char> {
    if is_known {
        "  "@ + target.text() + " ARP 解析失败，无法获取 MAC"@
    } else {
        "  "@ + target.text() + " 未响应 ARP（离线或不可达）"@
    }
}

pub open spec fn online_line(target: Ipv4Addr, mac: MacAddr) -> Seq<char> {
    "  "@ + target.text() + " 在线! MAC: "@ + mac.text()
}

pub open spec fn probe_line(target: Ipv4Addr, mac: MacAddr) -> Seq<char> {
    "  已向 "@ + target.text() + " (MAC "@ + mac.text() + ") 发送单播 DISCOVER..."@
}

pub open spec fn answer_line(target: Ipv4Addr, server: Ipv4Addr) -> Seq<char> {
    "  ✅ "@ + target.text() + " 有响应！DHCP Server ID: "@ + server.text()
}

pub open spec fn silence_line(target: Ipv4Addr, is_known: bool) -> Seq<char> {
    if is_known {
        "  "@ + target.text() + " 未响应单播 DHCP，但 ARP 成功，已补充 MAC"@
    } else {
        "  "@ + target.text() + " 未响应（单播方式）"@
    }
}

pub open spec fn summary_lines(servers: Map<u32, ServerEntry>) -> Seq<Seq<char>> {
    if servers == Map::<u32, ServerEntry>::empty() {
        seq!["（未发现任何 DHCP 服务器）"@]
    } else {
        seq![""@, "━━━━━━━━━━━━━━━━━━━━━━━━━━━━━━━━━━━━━━━━"@, " 发现的 DHCP 服务器汇总："@]
            + listing_of(servers).map_values(|entry: ServerEntry| "  📡 "@ + entry.text())
            + seq!["━━━━━━━━━━━━━━━━━━━━━━━━━━━━━━━━━━━━━━━━"@]
    }
}

// ---------------------------------------------------------------------------
// How a scan goes on

/// The way from the scanning station to a target alone.
pub open spec fn unicast_route(src_mac: MacAddr, mac: MacAddr, target: Ipv4Addr) -> Route {
    Route {
        src_mac,
        dst_mac: mac,
        src_ip: Ipv4Addr::spec_unspecified(),
        dst_ip: target,
        src_port: CLIENT_PORT,
        dst_port: SERVER_PORT,
    }
}

/// Who made an offer: the server that the offer names, or else its source.
pub open spec fn server_of(info: DhcpOfferInfo, source: IpAddr) -> Ipv4Addr {
    match info.server_id {
        Some(ip) => ip,
        None => source.ipv4(),
    }
}

/// The server whose offer in transaction `xid` an event is, if it is one.
pub open spec fn offering_server(event: Event, xid: u32) -> Option<Ipv4Addr> {
    match event {
        Event::Datagram { offer: Some(info), source, .. } => if info.xid == xid {
            Some(server_of(info, source))
        } else {
            None
        },
        _ => None,
    }
}

/// Target number `pos` is next; after the last one, the scan is summed up.
pub open spec fn at_target(scan: ScanView, pos: int, lines: Seq<Seq<char>>) -> Outcome {
    if pos < scan.targets.len() {
        Outcome {
            scan: ScanView {
                stage: ScanStage::Resolve { pos: pos as usize, arp: arp_start() },
                ..scan
            },
            lines: lines.push(target_line(scan.targets[pos])),
        }
    } else {
        Outcome {
            scan: ScanView { stage: ScanStage::Finished, ..scan },
            lines: lines + summary_lines(scan.servers),
        }
    }
}

/// After a broadcast offers are collected, whether or not the link took it.
pub open spec fn after_broadcast(scan: ScanView, round: u8, ok: bool, now: u64) -> Outcome {
    Outcome {
        scan: ScanView { stage: ScanStage::Collect { round, since: now }, ..scan },
        lines: if ok {
            seq![]
        } else {
            seq!["  [警告] 数据包发送失败"@]
        },
    }
}

/// Every datagram counts as received; an offer in the scan's transaction counts
/// for its server.
pub open spec fn datagram_noted(
    scan: ScanView,
    offer: Option<DhcpOfferInfo>,
    source: IpAddr,
) -> Outcome {
    let counted = ScanView { received: scan.received + 1, ..scan };
    match offer {
        Some(info) if info.xid == scan.xid => {
            let server = server_of(info, source);
            Outcome {
                scan: ScanView { servers: offer_recorded(scan.servers, server), ..counted },
                lines: seq![found_line(server, source)],
            }
        },
        _ => Outcome { scan: counted, lines: seq![] },
    }
}

/// Once the time for collecting is over, the next round begins; after the last
/// round, the servers in `order` and the remaining gateways are the targets.
pub open spec fn collecting_on(
    so_far: Outcome,
    round: u8,
    since: u64,
    now: u64,
    order: Seq<Ipv4Addr>,
) -> Outcome {
    let scan = so_far.scan;
    if in_time(since, now, COLLECT_TIME) {
        so_far
    } else if round < BROADCASTS {
        Outcome {
            scan: ScanView { stage: ScanStage::Broadcast { round: (round + 1) as u8 }, ..scan },
            lines: so_far.lines.push(round_line((round + 1) as u8)),
        }
    } else {
        at_target(
            ScanView {
                targets: with_missing(order, gateways()),
                known: order.len(),
                ..scan
            },
            0,
            so_far.lines + phase_lines(scan.received, scan.servers),
        )
    }
}

/// A target that has told its Ethernet address is sent `frame`, a DISCOVER of
/// its own in transaction `xid`; one that has not is left alone.
pub open spec fn after_arp(
    scan: ScanView,
    pos: usize,
    mac: Option<MacAddr>,
    xid: u32,
    frame: Seq<u8>,
) -> Outcome {
    let target = scan.targets[pos as int];
    match mac {
        Some(mac) => Outcome {
            scan: ScanView { stage: ScanStage::Probe { pos, mac, xid }, probe: frame, ..scan },
            lines: seq![online_line(target, mac)],
        },
        None => at_target(scan, pos + 1, seq![no_mac_line(target, pos < scan.known)]),
    }
}

/// A DISCOVER that the link did not take is not repeated.
pub open spec fn after_probe(
    scan: ScanView,
    pos: usize,
    mac: MacAddr,
    xid: u32,
    ok: bool,
    now: u64,
) -> Outcome {
    if ok {
        Outcome {
            scan: ScanView { stage: ScanStage::Await { pos, mac, xid, since: now }, ..scan },
            lines: seq![probe_line(scan.targets[pos as int], mac)],
        }
    } else {
        at_target(scan, pos + 1, seq!["  [警告] 单播探测包发送失败"@])
    }
}

/// The target answered: a server that was known before gets its Ethernet
/// address; for another one the answer also counts, under the address that the
/// answer names.
pub open spec fn after_answer(scan: ScanView, pos: usize, mac: MacAddr, server: Ipv4Addr) -> Outcome {
    let target = scan.targets[pos as int];
    let is_known = pos < scan.known;
    let key = if is_known {
        target
    } else {
        server
    };
    at_target(
        ScanView { servers: answer_recorded(scan.servers, key, mac, !is_known), ..scan },
        pos + 1,
        seq![answer_line(target, server)],
    )
}

/// The target did not answer, but its Ethernet address is known.
pub open spec fn after_silence(scan: ScanView, pos: usize, mac: MacAddr) -> Outcome {
    let target = scan.targets[pos as int];
    let is_known = pos < scan.known;
    at_target(
        ScanView {
            servers: if is_known {
                mac_recorded(scan.servers, target, mac)
            } else {
                scan.servers
            },
            ..scan
        },
        pos + 1,
        seq![silence_line(target, is_known)],
    )
}

/// What neither the scan nor the event decides: the order in which the servers
/// come out of their table, the transaction for a target, and the frame for it.
pub struct Choice {
    pub order: Seq<Ipv4Addr>,
    pub xid: u32,
    pub frame: Seq<u8>,
}

/// The step that `event` is, under given choices. An event that the stage does
/// not wait for changes nothing.
pub open spec fn scan_next(scan: ScanView, event: Event, choice: Choice) -> Outcome {
    let unchanged = Outcome { scan, lines: seq![] };
    match (scan.stage, event) {
        (ScanStage::Broadcast { round }, Event::Sent { ok, now }) => after_broadcast(
            scan,
            round,
            ok,
            now,
        ),
        (
            ScanStage::Collect { round, since },
            Event::Datagram { offer, source, now },
        ) => collecting_on(datagram_noted(scan, offer, source), round, since, now, choice.order),
        (ScanStage::Collect { round, since }, Event::Quiet { now }) => collecting_on(
            unchanged,
            round,
            since,
            now,
            choice.order,
        ),
        (ScanStage::Resolve { pos, arp }, _) => match arp_next(
            arp,
            event,
            scan.targets[pos as int],
        ) {
            ArpStage::Done { mac } => after_arp(scan, pos, mac, choice.xid, choice.frame),
            arp => Outcome {
                scan: ScanView { stage: ScanStage::Resolve { pos, arp }, ..scan },
                lines: seq![],
            },
        },
        (ScanStage::Probe { pos, mac, xid }, Event::Sent { ok, now }) => after_probe(
            scan,
            pos,
            mac,
            xid,
            ok,
            now,
        ),
        (ScanStage::Await { pos, mac, xid, since }, Event::Datagram { now, .. }) => {
            match offering_server(event, xid) {
                Some(server) => after_answer(scan, pos, mac, server),
                None => if in_time(since, now, AWAIT_TIME) {
                    unchanged
                } else {
                    after_silence(scan, pos, mac)
                },
            }
        },
        (ScanStage::Await { pos, mac, since, .. }, Event::Quiet { now }) => if in_time(
            since,
            now,
            AWAIT_TIME,
        ) {
            unchanged
        } else {
            after_silence(scan, pos, mac)
        },
        _ => unchanged,
    }
}

/// The table that a collected event leaves behind.
pub open spec fn servers_after(scan: ScanView, event: Event) -> Map<u32, ServerEntry> {
    match offering_server(event, scan.xid) {
        Some(server) => offer_recorded(scan.servers, server),
        None => scan.servers,
    }
}

/// Whether `event` ends the last round of collecting.
pub open spec fn ends_broadcasts(scan: ScanView, event: Event) -> bool {
    &&& scan.stage matches ScanStage::Collect { round, since }
    &&& round >= BROADCASTS
    &&& match event {
        Event::Datagram { now, .. } => !in_time(since, now, COLLECT_TIME),
        Event::Quiet { now } => !in_time(since, now, COLLECT_TIME),
        _ => false,
    }
}

/// Whether the choices are ones that can be made: the order holds each server
/// once (and a list can hold them), the transaction was drawn, and the frame is a
/// DISCOVER in it, for the target that has just told its address.
pub open spec fn choice_fits(scan: ScanView, event: Event, choice: Choice) -> bool {
    &&& ends_broadcasts(scan, event) ==> {
        &&& lists_addresses(choice.order, servers_after(scan, event))
        &&& with_missing(choice.order, gateways()).len() <= usize::MAX
    }
    &&& scan.stage matches ScanStage::Resolve { pos, arp } ==> {
        arp_next(arp, event, scan.targets[pos as int]) matches ArpStage::Done { mac: Some(mac) }
            ==> {
            &&& is_drawn_u32(choice.xid)
            &&& is_fresh_discover_frame(
                choice.frame,
                unicast_route(scan.src_mac, mac, scan.targets[pos as int]),
                scan.src_mac,
                choice.xid,
            )
        }
    }
}

/// Whether `event` takes the scan from `pre` to `post`, logging `lines`.
pub open spec fn scan_step(pre: ScanView, event: Event, post: ScanView, lines: Seq<Seq<char>>) -> bool {
    exists|choice: Choice| #[trigger]
        choice_fits(pre, event, choice) && scan_next(pre, event, choice) == (Outcome {
            scan: post,
            lines,
        })
}

/// Whether the counts that `event` raises have room for one more.
pub open spec fn has_room(scan: ScanView, event: Event) -> bool {
    &&& scan.stage is Collect && event is Datagram ==> {
        &&& scan.received < u64::MAX
        &&& offering_server(event, scan.xid) matches Some(server) ==> can_count(
            scan.servers,
            server,
        )
    }
    &&& scan.stage matches ScanStage::Await { pos, xid, .. } ==> (offering_server(
        event,
        xid,
    ) matches Some(server) ==> pos >= scan.known ==> can_count(scan.servers, server))
}

/// Whether the targets are those of a scan that has finished its broadcasts: the
/// servers that it has found, and the gateways that are not among them.
pub open spec fn has_targets(scan: ScanView) -> bool {
    &&& scan.known <= scan.targets.len() <= usize::MAX
    &&& scan.targets == with_missing(scan.targets.take(scan.known as int), gateways())
    &&& scan.targets.no_duplicates()
    &&& forall|i: int|
        0 <= i < scan.known ==> scan.servers.contains_key((#[trigger] scan.targets[i]).bits)
}

impl ScanView {
    /// What holds of a scan at any time.
    pub open spec fn wf(self) -> bool {
        &&& self.servers.dom().finite()
        &&& keyed_by_address(self.servers)
        &&& self.received <= u64::MAX
        &&& is_discover_frame(
            self.discover,
            broadcast_route(self.src_mac),
            self.src_mac,
            self.xid,
        )
        &&& match self.stage {
            ScanStage::Broadcast { round } => 1 <= round <= BROADCASTS,
            ScanStage::Collect { round, .. } => 1 <= round <= BROADCASTS,
            ScanStage::Resolve { pos, arp } => {
                &&& has_targets(self)
                &&& pos < self.targets.len()
                &&& arp_goes_on(arp)
            },
            ScanStage::Probe { pos, mac, xid } => {
                &&& has_targets(self)
                &&& pos < self.targets.len()
                &&& is_discover_frame(
                    self.probe,
                    unicast_route(self.src_mac, mac, self.targets[pos as int]),
                    self.src_mac,
                    xid,
                )
            },
            ScanStage::Await { pos, .. } => has_targets(self) && pos < self.targets.len(),
            ScanStage::Finished => has_targets(self),
        }
    }
}

/// A scan that has not sent anything yet.
pub open spec fn scan_start(
    src_mac: MacAddr,
    local_ip: Ipv4Addr,
    xid: u32,
    discover: Seq<u8>,
) -> ScanView {
    ScanView {
        src_mac,
        local_ip,
        xid,
        discover,
        servers: Map::empty(),
        received: 0,
        targets: seq![],
        known: 0,
        probe: seq![],
        stage: ScanStage::Broadcast { round: 1 },
    }
}

/// What is to be done in a stage.
pub open spec fn scan_wants(scan: ScanView) -> ActionView {
    match scan.stage {
        ScanStage::Broadcast { .. } => ActionView::Send { frame: scan.discover },
        ScanStage::Collect { .. } => ActionView::ReceiveDatagram { timeout_ms: SCAN_POLL_MS },
        ScanStage::Resolve { pos, arp } => arp_wants(
            arp,
            scan.src_mac,
            scan.local_ip,
            scan.targets[pos as int],
        ),
        ScanStage::Probe { .. } => ActionView::Send { frame: scan.probe },
        ScanStage::Await { .. } => ActionView::ReceiveDatagram { timeout_ms: SCAN_POLL_MS },
        ScanStage::Finished => ActionView::Finish,
    }
}

// ---------------------------------------------------------------------------
// Running a scan

fn line_of(before: &str, ip: Ipv4Addr, after: &str) -> (r: String)
    ensures
        r@ == before@ + ip.text() + after@,
{
    let mut line = before.to_owned();
    ip.push_text(&mut line);
    line.append(after);
    line
}

fn line_of_round(round: u8) -> (r: String)
    ensures
        r@ == round_line(round),
{
    let mut line = "发送第 ".to_owned();
    push_decimal(&mut line, round as u64);
    line.append(" 次广播 DISCOVER...");
    line
}

fn line_of_silence(target: Ipv4Addr, is_known: bool) -> (r: String)
    ensures
        r@ == silence_line(target, is_known),
{
    if is_known {
        line_of("  ", target, " 未响应单播 DHCP，但 ARP 成功，已补充 MAC")
    } else {
        line_of("  ", target, " 未响应（单播方式）")
    }
}

fn push_phase_lines(lines: &mut Vec<String>, received: u64, servers: &ServerTable)
    ensures
        lines_view(final(lines)@) == lines_view(old(lines)@) + phase_lines(
            received as nat,
            servers@,
        ),
{
    let ghost before = lines_view(lines@);
    let mut count = "阶段一 UDP Socket 共收到 ".to_owned();
    push_decimal(&mut count, received);
    count.append(" 个包");
    push_line(lines, count);
    if servers.is_empty() {
        push_text(lines, "未发现任何 DHCP 服务器响应（广播方式）。");
    } else {
        let mut found = "阶段一共发现 ".to_owned();
        push_decimal(&mut found, servers.len() as u64);
        found.append(" 个 DHCP 服务器：");
        push_line(lines, found);
    }
    push_text(lines, "");
    push_text(lines, "阶段二：ARP 解析 + 单播 DHCP 探测（UDP Socket 接收）");
    assert(lines_view(lines@) =~= before + phase_lines(received as nat, servers@));
}

/// The servers of a table in the order in which they are shown.
fn shown(servers: &ServerTable) -> (r: Vec<ServerEntry>)
    requires
        keyed_by_address(servers@),
    ensures
        r@ == listing_of(servers@),
{
    let list = servers.listing();
    proof {
        listing_is_unique(list@, listing_of(servers@), servers@);
    }
    list
}

fn push_summary(lines: &mut Vec<String>, servers: &ServerTable)
    requires
        keyed_by_address(servers@),
    ensures
        lines_view(final(lines)@) == lines_view(old(lines)@) + summary_lines(servers@),
{
    let ghost before = lines_view(lines@);
    if servers.is_empty() {
        push_text(lines, "（未发现任何 DHCP 服务器）");
        assert(lines_view(lines@) =~= before + summary_lines(servers@));
        return;
    }
    let list = shown(servers);
    push_text(lines, "");
    push_text(lines, "━━━━━━━━━━━━━━━━━━━━━━━━━━━━━━━━━━━━━━━━");
    push_text(lines, " 发现的 DHCP 服务器汇总：");
    let ghost head = lines_view(lines@);
    let ghost shown_lines = list@.map_values(|entry: ServerEntry| "  📡 "@ + entry.text());
    let mut next: usize = 0;
    assert(head + shown_lines.take(0) =~= head);
    while next < list.len()
        invariant
            next <= list@.len(),
            shown_lines == list@.map_values(|entry: ServerEntry| "  📡 "@ + entry.text()),
            lines_view(lines@) == head + shown_lines.take(next as int),
        decreases list@.len() - next,
    {
        let mut line = "  📡 ".to_owned();
        line.append(list[next].display().as_str());
        push_line(lines, line);
        next = next + 1;
        assert(lines_view(lines@) =~= head + shown_lines.take(next as int));
    }
    push_text(lines, "━━━━━━━━━━━━━━━━━━━━━━━━━━━━━━━━━━━━━━━━");
    assert(lines_view(lines@) =~= before + summary_lines(servers@));
}

/// A scan in progress.
pub struct FullScan {
    src_mac: MacAddr,
    local_ip: Ipv4Addr,
    xid: u32,
    discover: Vec<u8>,
    servers: ServerTable,
    received: u64,
    targets: Vec<Ipv4Addr>,
    known: usize,
    probe: Vec<u8>,
    stage: ScanStage,
}

impl View for FullScan {
    type V = ScanView;

    closed spec fn view(&self) -> ScanView {
        ScanView {
            src_mac: self.src_mac,
            local_ip: self.local_ip,
            xid: self.xid,
            discover: self.discover@,
            servers: self.servers@,
            received: self.received as nat,
            targets: self.targets@,
            known: self.known as nat,
            probe: self.probe@,
            stage: self.stage,
        }
    }
}

impl FullScan {
    /// A scan from a given station in a given transaction.
    pub fn new(src_mac: MacAddr, local_ip: Ipv4Addr, xid: u32, discover: Vec<u8>) -> (r: FullScan)
        requires
            is_discover_frame(discover@, broadcast_route(src_mac), src_mac, xid),
        ensures
            r@ == scan_start(src_mac, local_ip, xid, discover@),
            r@.wf(),
    {
        FullScan {
            src_mac,
            local_ip,
            xid,
            discover,
            servers: ServerTable::new(),
            received: 0,
            targets: Vec::new(),
            known: 0,
            probe: Vec::new(),
            stage: ScanStage::Broadcast { round: 1 },
        }
    }

    /// A scan from a given station in a fresh random transaction, and the lines
    /// that announce it.
    pub fn start(src_mac: MacAddr, local_ip: Ipv4Addr) -> (r: (FullScan, Vec<String>))
        ensures
            r.0@ == scan_start(src_mac, local_ip, r.0@.xid, r.0@.discover),
            r.0@.wf(),
            is_drawn_u32(r.0@.xid),
            is_fresh_discover_frame(
                r.0@.discover,
                broadcast_route(src_mac),
                src_mac,
                r.0@.xid,
            ),
            lines_view(r.1@) == start_lines(r.0@.xid),
    {
        let xid: u32 = draw_u32();
        let mut lines = no_lines();
        let mut title = "本次扫描 XID: 0x".to_owned();
        push_hex(&mut title, xid, 8);
        push_line(&mut lines, title);
        push_text(&mut lines, "");
        push_text(&mut lines, "阶段一：广播 DHCP 服务器检测（UDP Socket 接收）");
        push_text(&mut lines, "发送 3 次广播 DISCOVER...");
        push_line(&mut lines, line_of_round(1));
        assert(lines_view(lines@) =~= start_lines(xid));
        let discover = build_dhcp_discover(src_mac, xid);
        (FullScan::new(src_mac, local_ip, xid, discover), lines)
    }

    /// What is to be done next.
    pub fn action(&self) -> (r: Action)
        requires
            self@.wf(),
        ensures
            r@ == scan_wants(self@),
    {
        match self.stage {
            ScanStage::Broadcast { .. } => Action::Send { frame: self.discover.clone() },
            ScanStage::Collect { .. } => Action::ReceiveDatagram { timeout_ms: SCAN_POLL_MS },
            ScanStage::Resolve { pos, arp } => arp_action(
                arp,
                self.src_mac,
                self.local_ip,
                self.targets[pos],
            ),
            ScanStage::Probe { .. } => Action::Send { frame: self.probe.clone() },
            ScanStage::Await { .. } => Action::ReceiveDatagram { timeout_ms: SCAN_POLL_MS },
            ScanStage::Finished => Action::Finish,
        }
    }

    /// The servers that were found, in the order in which they are shown, one
    /// line each.
    pub fn server_lines(&self) -> (r: Vec<String>)
        requires
            self@.wf(),
        ensures
            lines_view(r@) == listing_of(self@.servers).map_values(
                |entry: ServerEntry| entry.text(),
            ),
    {
        let list = shown(&self.servers);
        let ghost texts = list@.map_values(|entry: ServerEntry| entry.text());
        let mut lines = no_lines();
        let mut next: usize = 0;
        while next < list.len()
            invariant
                next <= list@.len(),
                texts == list@.map_values(|entry: ServerEntry| entry.text()),
                lines_view(lines@) == texts.take(next as int),
            decreases list@.len() - next,
        {
            push_line(&mut lines, list[next].display());
            next = next + 1;
            assert(lines_view(lines@) =~= texts.take(next as int));
        }
        assert(texts.take(next as int) =~= texts);
        lines
    }

    fn turn_to(&mut self, pos: usize, lines: &mut Vec<String>)
        requires
            keyed_by_address(old(self)@.servers),
        ensures
            (Outcome { scan: final(self)@, lines: lines_view(final(lines)@) }) == at_target(
                old(self)@,
                pos as int,
                lines_view(old(lines)@),
            ),
    {
        if pos < self.targets.len() {
            push_line(lines, line_of("检查 ", self.targets[pos], " ..."));
            self.stage = ScanStage::Resolve { pos, arp: ArpStage::Ask { attempt: 1 } };
        } else {
            push_summary(lines, &self.servers);
            self.stage = ScanStage::Finished;
        }
    }

    fn note_datagram(&mut self, offer: &Option<DhcpOfferInfo>, source: &IpAddr) -> (lines: Vec<
        String,
    >)
        requires
            old(self)@.received < u64::MAX,
            *offer matches Some(info) ==> info.xid == old(self)@.xid ==> can_count(
                old(self)@.servers,
                server_of(info, *source),
            ),
        ensures
            (Outcome { scan: final(self)@, lines: lines_view(lines@) }) == datagram_noted(
                old(self)@,
                *offer,
                *source,
            ),
    {
        let mut lines = no_lines();
        self.received = self.received + 1;
        if let Some(info) = offer {
            if info.xid == self.xid {
                let server = offer_maker(info, source);
                let mut line = line_of("  发现 DHCP 服务器 -> Server ID: ", server, " (来源: ");
                source.push_text(&mut line);
                line.append(")");
                push_line(&mut lines, line);
                self.servers.record_offer(server);
                assert(lines_view(lines@) =~= seq![found_line(server, *source)]);
            }
        }
        lines
    }

    /// Goes on collecting; `order` is the order in which the servers come out of
    /// their table.
    fn collect_on(
        &mut self,
        lines: &mut Vec<String>,
        round: u8,
        since: u64,
        now: u64,
        order: Vec<Ipv4Addr>,
    )
        requires
            1 <= round <= BROADCASTS,
            keyed_by_address(old(self)@.servers),
        ensures
            (Outcome { scan: final(self)@, lines: lines_view(final(lines)@) }) == collecting_on(
                Outcome { scan: old(self)@, lines: lines_view(old(lines)@) },
                round,
                since,
                now,
                order@,
            ),
    {
        if still_in_time(since, now, COLLECT_TIME) {
        } else if round < BROADCASTS {
            push_line(lines, line_of_round(round + 1));
            self.stage = ScanStage::Broadcast { round: round + 1 };
        } else {
            push_phase_lines(lines, self.received, &self.servers);
            self.targets = probe_targets(&order);
            self.known = order.len();
            self.turn_to(0, lines);
        }
    }

    /// Goes on with the target whose Ethernet address is `mac`: `frame` is the
    /// DISCOVER for it, in transaction `xid`.
    fn begin_probe(&mut self, pos: usize, mac: MacAddr, xid: u32, frame: Vec<u8>) -> (lines: Vec<
        String,
    >)
        requires
            pos < old(self)@.targets.len(),
        ensures
            (Outcome { scan: final(self)@, lines: lines_view(lines@) }) == after_arp(
                old(self)@,
                pos,
                Some(mac),
                xid,
                frame@,
            ),
    {
        let mut lines = no_lines();
        let mut line = line_of("  ", self.targets[pos], " 在线! MAC: ");
        line.append(mac.to_text().as_str());
        push_line(&mut lines, line);
        self.probe = frame;
        self.stage = ScanStage::Probe { pos, mac, xid };
        assert(lines_view(lines@) =~= seq![online_line(self@.targets[pos as int], mac)]);
        lines
    }

    fn give_up_target(&mut self, pos: usize) -> (lines: Vec<String>)
        requires
            pos < old(self)@.targets.len(),
            keyed_by_address(old(self)@.servers),
        ensures
            forall|xid: u32, frame: Seq<u8>|
                (Outcome { scan: final(self)@, lines: lines_view(lines@) }) == #[trigger] after_arp(
                    old(self)@,
                    pos,
                    None,
                    xid,
                    frame,
                ),
    {
        let target = self.targets[pos];
        let mut lines = no_lines();
        if pos < self.known {
            push_line(&mut lines, line_of("  ", target, " ARP 解析失败，无法获取 MAC"));
        } else {
            push_line(&mut lines, line_of("  ", target, " 未响应 ARP（离线或不可达）"));
        }
        assert(lines_view(lines@) =~= seq![no_mac_line(target, pos < self.known)]);
        assert(pos < self.targets.len());
        self.turn_to(pos + 1, &mut lines);
        lines
    }

    fn note_probe(&mut self, pos: usize, mac: MacAddr, xid: u32, ok: bool, now: u64) -> (lines: Vec<
        String,
    >)
        requires
            pos < old(self)@.targets.len(),
            keyed_by_address(old(self)@.servers),
        ensures
            (Outcome { scan: final(self)@, lines: lines_view(lines@) }) == after_probe(
                old(self)@,
                pos,
                mac,
                xid,
                ok,
                now,
            ),
    {
        let mut lines = no_lines();
        if ok {
            let mut line = line_of("  已向 ", self.targets[pos], " (MAC ");
            line.append(mac.to_text().as_str());
            line.append(") 发送单播 DISCOVER...");
            push_line(&mut lines, line);
            assert(lines_view(lines@) =~= seq![probe_line(self@.targets[pos as int], mac)]);
            self.stage = ScanStage::Await { pos, mac, xid, since: now };
        } else {
            push_text(&mut lines, "  [警告] 单播探测包发送失败");
            assert(lines_view(lines@) =~= seq!["  [警告] 单播探测包发送失败"@]);
            assert(pos < self.targets.len());
            self.turn_to(pos + 1, &mut lines);
        }
        lines
    }

    fn note_answer(&mut self, pos: usize, mac: MacAddr, server: Ipv4Addr) -> (lines: Vec<String>)
        requires
            pos < old(self)@.targets.len(),
            keyed_by_address(old(self)@.servers),
            pos >= old(self)@.known ==> can_count(old(self)@.servers, server),
        ensures
            (Outcome { scan: final(self)@, lines: lines_view(lines@) }) == after_answer(
                old(self)@,
                pos,
                mac,
                server,
            ),
    {
        let target = self.targets[pos];
        let is_known = pos < self.known;
        let mut lines = no_lines();
        let mut line = line_of("  ✅ ", target, " 有响应！DHCP Server ID: ");
        server.push_text(&mut line);
        push_line(&mut lines, line);
        assert(lines_view(lines@) =~= seq![answer_line(target, server)]);
        let key = if is_known {
            target
        } else {
            server
        };
        self.servers.record_answer(key, mac, !is_known);
        assert(pos < self.targets.len());
        self.turn_to(pos + 1, &mut lines);
        lines
    }

    fn note_silence(&mut self, pos: usize, mac: MacAddr) -> (lines: Vec<String>)
        requires
            pos < old(self)@.targets.len(),
            keyed_by_address(old(self)@.servers),
        ensures
            (Outcome { scan: final(self)@, lines: lines_view(lines@) }) == after_silence(
                old(self)@,
                pos,
                mac,
            ),
    {
        let target = self.targets[pos];
        let is_known = pos < self.known;
        let mut lines = no_lines();
        push_line(&mut lines, line_of_silence(target, is_known));
        assert(lines_view(lines@) =~= seq![silence_line(target, is_known)]);
        if is_known {
            self.servers.record_mac(target, mac);
        }
        assert(pos < self.targets.len());
        self.turn_to(pos + 1, &mut lines);
        lines
    }
}

impl FullScan {
    /// The order in which the servers come out of their table, once it is needed.
    fn order_at(&self, round: u8, since: u64, now: u64) -> (r: Vec<Ipv4Addr>)
        ensures
            round >= BROADCASTS && !in_time(since, now, COLLECT_TIME) ==> lists_addresses(
                r@,
                self@.servers,
            ),
    {
        if round < BROADCASTS || still_in_time(since, now, COLLECT_TIME) {
            Vec::new()
        } else {
            self.servers.addresses()
        }
    }

    /// Whether the counts that `event` raises have room for one more.
    pub fn has_room_for(&self, event: &Event) -> (r: bool)
        ensures
            r == has_room(self@, *event),
    {
        match (self.stage, event) {
            (ScanStage::Collect { .. }, Event::Datagram { offer, source, .. }) => {
                let room = match offer {
                    Some(info) => info.xid != self.xid || self.servers.has_room(
                        offer_maker(info, source),
                    ),
                    None => true,
                };
                self.received < u64::MAX && room
            },
            (ScanStage::Await { pos, xid, .. }, Event::Datagram { offer, source, .. }) => {
                match offer {
                    Some(info) => info.xid != xid || pos < self.known || self.servers.has_room(
                        offer_maker(info, source),
                    ),
                    None => true,
                }
            },
            _ => true,
        }
    }

    /// Takes the scan one step further and returns the lines to log.
    pub fn step(&mut self, event: &Event) -> (lines: Vec<String>)
        requires
            old(self)@.wf(),
            has_room(old(self)@, *event),
        ensures
            scan_step(old(self)@, *event, final(self)@, lines_view(lines@)),
            final(self)@.wf(),
    {
        let ghost pre = self@;
        let ghost mut choice = Choice { order: seq![], xid: 0, frame: seq![] };
        let lines = match (self.stage, event) {
            (ScanStage::Broadcast { round }, Event::Sent { ok, now }) => {
                let mut lines = no_lines();
                if !*ok {
                    push_text(&mut lines, "  [警告] 数据包发送失败");
                    assert(lines_view(lines@) =~= seq!["  [警告] 数据包发送失败"@]);
                }
                self.stage = ScanStage::Collect { round, since: *now };
                lines
            },
            (ScanStage::Collect { round, since }, Event::Datagram { offer, source, now }) => {
                let mut lines = self.note_datagram(offer, source);
                let order = self.order_at(round, since, *now);
                proof {
                    choice = Choice { order: order@, ..choice };
                    nothing_is_forgotten_by_offer(pre, *event);
                }
                self.collect_on(&mut lines, round, since, *now, order);
                lines
            },
            (ScanStage::Collect { round, since }, Event::Quiet { now }) => {
                let mut lines = no_lines();
                let order = self.order_at(round, since, *now);
                proof {
                    choice = Choice { order: order@, ..choice };
                }
                self.collect_on(&mut lines, round, since, *now, order);
                lines
            },
            (ScanStage::Resolve { pos, arp }, _) => {
                let target = self.targets[pos];
                match resolve_arp(arp, event, target) {
                    ArpStage::Done { mac: Some(mac) } => {
                        let xid: u32 = draw_u32();
                        let message = build_dhcp_message(self.src_mac, xid);
                        let frame = build_eth_ip_udp_frame(
                            self.src_mac,
                            mac,
                            Ipv4Addr::unspecified(),
                            target,
                            CLIENT_PORT,
                            SERVER_PORT,
                            message.as_slice(),
                        );
                        proof {
                            choice = Choice { xid, frame: frame@, ..choice };
                        }
                        self.begin_probe(pos, mac, xid, frame)
                    },
                    ArpStage::Done { mac: None } => self.give_up_target(pos),
                    next => {
                        self.stage = ScanStage::Resolve { pos, arp: next };
                        no_lines()
                    },
                }
            },
            (ScanStage::Probe { pos, mac, xid }, Event::Sent { ok, now }) => self.note_probe(
                pos,
                mac,
                xid,
                *ok,
                *now,
            ),
            (ScanStage::Await { pos, mac, xid, since }, Event::Datagram { offer, source, now }) => {
                let answer = match offer {
                    Some(info) => if info.xid == xid {
                        Some(offer_maker(info, source))
                    } else {
                        None
                    },
                    None => None,
                };
                match answer {
                    Some(server) => self.note_answer(pos, mac, server),
                    None => if still_in_time(since, *now, AWAIT_TIME) {
                        no_lines()
                    } else {
                        self.note_silence(pos, mac)
                    },
                }
            },
            (ScanStage::Await { pos, mac, since, .. }, Event::Quiet { now }) => {
                if still_in_time(since, *now, AWAIT_TIME) {
                    no_lines()
                } else {
                    self.note_silence(pos, mac)
                }
            },
            _ => no_lines(),
        };
        proof {
            assert(self.targets.len() <= usize::MAX);
            assert(choice_fits(pre, *event, choice));
            assert(scan_next(pre, *event, choice) == (Outcome {
                scan: self@,
                lines: lines_view(lines@),
            }));
            step_keeps_wf(pre, *event, choice);
        }
        lines
    }
}

/// An offer leaves every server in the table under its own address.
proof fn nothing_is_forgotten_by_offer(scan: ScanView, event: Event)
    requires
        keyed_by_address(scan.servers),
    ensures
        keyed_by_address(servers_after(scan, event)),
{
}

/// Whatever happens, a scan stays well formed: each server stands in the table
/// under its own address, all that is sent is a DISCOVER in the transaction that
/// is waited for or a question for an address, and the targets are the servers
/// that were found and the gateways, each once.
pub proof fn step_keeps_wf(scan: ScanView, event: Event, choice: Choice)
    requires
        scan.wf(),
        has_room(scan, event),
        choice_fits(scan, event, choice),
    ensures
        scan_next(scan, event, choice).scan.wf(),
{
    match scan.stage {
        ScanStage::Broadcast { .. } => {},
        ScanStage::Collect { round, since } => {
            if ends_broadcasts(scan, event) {
                last_round_keeps_wf(scan, event, choice);
            }
        },
        ScanStage::Resolve { pos, arp } => {
            let target = scan.targets[pos as int];
            if arp_next(arp, event, target) == (ArpStage::Done { mac: None }) {
                turn_keeps_wf(
                    scan,
                    scan.servers,
                    pos + 1,
                    seq![no_mac_line(target, pos < scan.known)],
                );
            }
        },
        ScanStage::Probe { pos, .. } => {
            turn_keeps_wf(scan, scan.servers, pos + 1, seq!["  [警告] 单播探测包发送失败"@]);
        },
        ScanStage::Await { pos, mac, xid, .. } => {
            let target = scan.targets[pos as int];
            let is_known = pos < scan.known;
            turn_keeps_wf(
                scan,
                if is_known {
                    mac_recorded(scan.servers, target, mac)
                } else {
                    scan.servers
                },
                pos + 1,
                seq![silence_line(target, is_known)],
            );
            if let Some(server) = offering_server(event, xid) {
                let key = if is_known {
                    target
                } else {
                    server
                };
                turn_keeps_wf(
                    scan,
                    answer_recorded(scan.servers, key, mac, !is_known),
                    pos + 1,
                    seq![answer_line(target, server)],
                );
            }
        },
        ScanStage::Finished => {},
    }
}

/// Turning to a target keeps a scan well formed, with servers noted on the way.
proof fn turn_keeps_wf(
    scan: ScanView,
    servers: Map<u32, ServerEntry>,
    pos: int,
    lines: Seq<Seq<char>>,
)
    requires
        scan.wf(),
        has_targets(scan),
        0 <= pos <= scan.targets.len(),
        servers.dom().finite(),
        keyed_by_address(servers),
        forall|key: u32| #[trigger]
            scan.servers.contains_key(key) ==> servers.contains_key(key),
    ensures
        at_target(ScanView { servers, ..scan }, pos, lines).scan.wf(),
{
    let noted = ScanView { servers, ..scan };
    let next = at_target(noted, pos, lines).scan;
    assert(next.targets == scan.targets && next.known == scan.known);
    assert(has_targets(next));
}

proof fn last_round_keeps_wf(scan: ScanView, event: Event, choice: Choice)
    requires
        scan.wf(),
        has_room(scan, event),
        choice_fits(scan, event, choice),
        ends_broadcasts(scan, event),
    ensures
        scan_next(scan, event, choice).scan.wf(),
{
    let next = scan_next(scan, event, choice).scan;
    let order = choice.order;
    let list = with_missing(order, gateways());
    assert(order.no_duplicates());
    targets_are_complete(order, gateways());
    assert(gateways().contains(gateways()[0]));
    assert(list.contains(gateways()[0]));
    assert(next.targets == list && next.known == order.len());
    assert(next.servers == servers_after(scan, event));
    nothing_is_forgotten_by_offer(scan, event);
    assert(next.targets.take(next.known as int) == order);
    assert forall|i: int| 0 <= i < next.known implies next.servers.contains_key(
        (#[trigger] next.targets[i]).bits,
    ) by {
        assert(next.targets.take(next.known as int)[i] == order[i]);
    }
    assert(has_targets(next));
}

fn offer_maker(info: &DhcpOfferInfo, source: &IpAddr) -> (r: Ipv4Addr)
    ensures
        r == server_of(*info, *source),
{
    match info.server_id {
        Some(ip) => ip,
        None => source.to_ipv4(),
    }
}

} // verus!
