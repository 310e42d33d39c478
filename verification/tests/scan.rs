use dhcproto::{v4, Decodable, Decoder};
use sonar::addr::{IpAddr, Ipv4Addr, MacAddr};
use sonar::dhcp::{build_dhcp_discover, DhcpOfferInfo};
use sonar::scan::FullScan;
use sonar::steps::{Action, Event};
use sonar::wire::build_arp_request;

const SECOND: u64 = 1_000_000_000;
const SRC: MacAddr = MacAddr(2, 0, 0, 0, 0, 1);
const XID: u32 = 0x00c0_ffee;

fn local() -> Ipv4Addr {
    Ipv4Addr::new(192, 168, 1, 7)
}

fn router() -> Ipv4Addr {
    Ipv4Addr::new(192, 168, 1, 1)
}

fn scan() -> FullScan {
    FullScan::new(SRC, local(), XID, build_dhcp_discover(SRC, XID))
}

fn datagram(xid: u32, server: Option<Ipv4Addr>, source: IpAddr, now: u64) -> Event {
    Event::Datagram { offer: Some(DhcpOfferInfo { xid, server_id: server }), source, now }
}

fn from_router(xid: u32, now: u64) -> Event {
    datagram(xid, Some(router()), IpAddr::V4(router()), now)
}

/// An ARP reply in which `ip` says that it is at `mac`.
fn reply(ip: Ipv4Addr, mac: MacAddr) -> Vec<u8> {
    let mut frame: Vec<u8> = vec![0u8; 12];
    frame.extend_from_slice(&[0x08, 0x06, 0, 1, 8, 0, 6, 4, 0, 2]);
    frame.extend_from_slice(&mac.octets());
    frame.extend_from_slice(&ip.octets());
    frame.extend_from_slice(&[0u8; 10]);
    frame
}

/// Takes a step that must be possible.
fn step(scan: &mut FullScan, event: Event) -> Vec<String> {
    assert!(scan.has_room_for(&event));
    scan.step(&event)
}

/// Goes through the three broadcasts; `offers` come in the first round.
fn broadcasts(scan: &mut FullScan, offers: Vec<Event>) -> Vec<String> {
    let mut lines: Vec<String> = Vec::new();
    lines.extend(step(scan, Event::Sent { ok: true, now: 0 }));
    for offer in offers {
        lines.extend(step(scan, offer));
    }
    lines.extend(step(scan, Event::Quiet { now: 2 * SECOND }));
    for _ in 0..2 {
        lines.extend(step(scan, Event::Sent { ok: true, now: 0 }));
        lines.extend(step(scan, Event::Quiet { now: 2 * SECOND }));
    }
    lines
}

/// Lets the target whose turn it is not answer ARP.
fn skip_target(scan: &mut FullScan) -> Vec<String> {
    let mut lines: Vec<String> = Vec::new();
    for _ in 0..3 {
        lines.extend(step(scan, Event::Sent { ok: false, now: 0 }));
    }
    lines
}

/// The transaction of the DISCOVER that is to be sent to a target alone.
fn probe_xid(scan: &FullScan, target: Ipv4Addr, mac: MacAddr) -> u32 {
    match scan.action() {
        Action::Send { frame } => {
            assert_eq!(&frame[..6], &mac.octets());
            assert_eq!(&frame[6..12], &SRC.octets());
            assert_eq!(&frame[26..30], &[0, 0, 0, 0]);
            assert_eq!(&frame[30..34], &target.octets());
            let message = v4::Message::decode(&mut Decoder::new(&frame[42..])).unwrap();
            assert_eq!(message.chaddr(), &SRC.octets()[..]);
            message.xid()
        }
        _ => panic!("the target is to be asked"),
    }
}

#[test]
fn scan_begins_with_a_broadcast() {
    let discover = build_dhcp_discover(SRC, XID);
    let scan = FullScan::new(SRC, local(), XID, discover.clone());
    match scan.action() {
        Action::Send { frame } => assert_eq!(frame, discover),
        _ => panic!("the broadcast is to be sent"),
    }
    assert_eq!(scan.server_lines().len(), 0);
}

#[test]
fn fresh_scan_announces_its_transaction() {
    let (scan, lines) = FullScan::start(SRC, local());
    let xid: u32 = match scan.action() {
        Action::Send { frame } => {
            v4::Message::decode(&mut Decoder::new(&frame[42..])).unwrap().xid()
        }
        _ => panic!("the broadcast is to be sent"),
    };
    assert_eq!(
        lines,
        vec![
            format!("本次扫描 XID: 0x{:08X}", xid),
            String::new(),
            String::from("阶段一：广播 DHCP 服务器检测（UDP Socket 接收）"),
            String::from("发送 3 次广播 DISCOVER..."),
            String::from("发送第 1 次广播 DISCOVER..."),
        ]
    );
}

#[test]
fn transactions_are_drawn_anew() {
    let first = FullScan::start(SRC, local()).1[0].clone();
    assert!((0..20).any(|_| FullScan::start(SRC, local()).1[0] != first));
}

#[test]
fn failed_broadcast_is_a_warning() {
    let mut scan = scan();
    assert_eq!(
        step(&mut scan, Event::Sent { ok: false, now: 0 }),
        vec![String::from("  [警告] 数据包发送失败")]
    );
    assert!(matches!(scan.action(), Action::ReceiveDatagram { timeout_ms: 50 }));
}

#[test]
fn offers_of_the_transaction_are_found() {
    let mut scan = scan();
    step(&mut scan, Event::Sent { ok: true, now: 0 });
    assert_eq!(
        step(&mut scan, from_router(XID, 5)),
        vec![String::from("  发现 DHCP 服务器 -> Server ID: 192.168.1.1 (来源: 192.168.1.1)")]
    );
    assert_eq!(step(&mut scan, from_router(XID + 1, 6)).len(), 0);
    let other = Event::Datagram {
        offer: None,
        source: IpAddr::V4(router()),
        now: 7,
    };
    assert_eq!(step(&mut scan, other).len(), 0);
    assert_eq!(
        step(&mut scan, datagram(XID, None, IpAddr::V4(Ipv4Addr::new(10, 9, 8, 7)), 8)),
        vec![String::from("  发现 DHCP 服务器 -> Server ID: 10.9.8.7 (来源: 10.9.8.7)")]
    );
    assert_eq!(
        step(&mut scan, datagram(XID, None, IpAddr::V6(String::from("fe80::5")), 9)),
        vec![String::from("  发现 DHCP 服务器 -> Server ID: 0.0.0.0 (来源: fe80::5)")]
    );
    step(&mut scan, from_router(XID, 10));
    assert_eq!(
        scan.server_lines(),
        vec![
            String::from("0.0.0.0  |  MAC 未解析 (响应 1 次)"),
            String::from("10.9.8.7  |  MAC 未解析 (响应 1 次)"),
            String::from("192.168.1.1  |  MAC 未解析 (响应 2 次)"),
        ]
    );
}

#[test]
fn three_rounds_are_broadcast() {
    let mut scan = scan();
    let mut sent: usize = 0;
    let mut lines: Vec<String> = Vec::new();
    for _ in 0..3 {
        assert!(matches!(scan.action(), Action::Send { .. }));
        sent += 1;
        step(&mut scan, Event::Sent { ok: true, now: 0 });
        assert_eq!(step(&mut scan, Event::Quiet { now: 2 * SECOND - 1 }).len(), 0);
        lines = step(&mut scan, Event::Quiet { now: 2 * SECOND });
        if sent < 3 {
            assert_eq!(lines, vec![format!("发送第 {} 次广播 DISCOVER...", sent + 1)]);
        }
    }
    assert_eq!(
        lines,
        vec![
            String::from("阶段一 UDP Socket 共收到 0 个包"),
            String::from("未发现任何 DHCP 服务器响应（广播方式）。"),
            String::new(),
            String::from("阶段二：ARP 解析 + 单播 DHCP 探测（UDP Socket 接收）"),
            String::from("检查 192.168.0.1 ..."),
        ]
    );
}

#[test]
fn last_datagram_still_counts() {
    let mut scan = scan();
    for _ in 0..2 {
        step(&mut scan, Event::Sent { ok: true, now: 0 });
        step(&mut scan, Event::Quiet { now: 2 * SECOND });
    }
    step(&mut scan, Event::Sent { ok: true, now: 0 });
    let lines = step(&mut scan, from_router(XID, 2 * SECOND));
    assert_eq!(
        lines,
        vec![
            String::from("  发现 DHCP 服务器 -> Server ID: 192.168.1.1 (来源: 192.168.1.1)"),
            String::from("阶段一 UDP Socket 共收到 1 个包"),
            String::from("阶段一共发现 1 个 DHCP 服务器："),
            String::new(),
            String::from("阶段二：ARP 解析 + 单播 DHCP 探测（UDP Socket 接收）"),
            String::from("检查 192.168.1.1 ..."),
        ]
    );
}

#[test]
fn silent_network_is_walked_through() {
    let mut scan = scan();
    broadcasts(&mut scan, Vec::new());
    let mut lines: Vec<String> = Vec::new();
    for _ in 0..14 {
        assert!(matches!(scan.action(), Action::Send { .. }));
        lines.extend(skip_target(&mut scan));
    }
    assert!(matches!(scan.action(), Action::Finish));
    assert_eq!(lines.len(), 14 + 13 + 1);
    assert_eq!(lines[0], "  192.168.0.1 未响应 ARP（离线或不可达）");
    assert_eq!(lines[1], "检查 192.168.1.1 ...");
    assert_eq!(lines[26], "  172.16.1.1 未响应 ARP（离线或不可达）");
    assert_eq!(lines[27], "（未发现任何 DHCP 服务器）");
    assert_eq!(step(&mut scan, Event::Rested).len(), 0);
    assert!(matches!(scan.action(), Action::Finish));
}

#[test]
fn known_server_that_answers_gets_its_address() {
    let mut scan = scan();
    let mac = MacAddr(2, 0, 0, 0, 0, 9);
    broadcasts(&mut scan, vec![from_router(XID, 1)]);
    step(&mut scan, Event::Sent { ok: true, now: 0 });
    assert!(matches!(scan.action(), Action::ReceiveFrame { timeout_ms: 30 }));
    let heard = Event::Heard { frame: Some(reply(router(), mac)), now: 1 };
    assert_eq!(
        step(&mut scan, heard),
        vec![String::from("  192.168.1.1 在线! MAC: 02:00:00:00:00:09")]
    );
    let xid: u32 = probe_xid(&scan, router(), mac);
    assert_eq!(
        step(&mut scan, Event::Sent { ok: true, now: 10 }),
        vec![String::from("  已向 192.168.1.1 (MAC 02:00:00:00:00:09) 发送单播 DISCOVER...")]
    );
    assert!(matches!(scan.action(), Action::ReceiveDatagram { timeout_ms: 50 }));
    assert_eq!(step(&mut scan, from_router(xid.wrapping_add(1), 11)).len(), 0);
    assert_eq!(
        step(&mut scan, from_router(xid, 12)),
        vec![
            String::from("  ✅ 192.168.1.1 有响应！DHCP Server ID: 192.168.1.1"),
            String::from("检查 192.168.0.1 ..."),
        ]
    );
    assert_eq!(
        scan.server_lines(),
        vec![String::from("192.168.1.1  |  02:00:00:00:00:09 (响应 1 次)")]
    );
}

#[test]
fn known_server_that_is_silent_gets_its_address_too() {
    let mut scan = scan();
    let mac = MacAddr(2, 0, 0, 0, 0, 9);
    broadcasts(&mut scan, vec![from_router(XID, 1)]);
    step(&mut scan, Event::Sent { ok: true, now: 0 });
    step(&mut scan, Event::Heard { frame: Some(reply(router(), mac)), now: 1 });
    step(&mut scan, Event::Sent { ok: true, now: 10 });
    assert_eq!(step(&mut scan, Event::Quiet { now: 3 * SECOND }).len(), 0);
    assert_eq!(
        step(&mut scan, Event::Quiet { now: 3 * SECOND + 10 }),
        vec![
            String::from("  192.168.1.1 未响应单播 DHCP，但 ARP 成功，已补充 MAC"),
            String::from("检查 192.168.0.1 ..."),
        ]
    );
    assert_eq!(
        scan.server_lines(),
        vec![String::from("192.168.1.1  |  02:00:00:00:00:09 (响应 1 次)")]
    );
}

#[test]
fn known_server_without_arp_stays_unresolved() {
    let mut scan = scan();
    broadcasts(&mut scan, vec![from_router(XID, 1)]);
    assert_eq!(
        skip_target(&mut scan),
        vec![
            String::from("  192.168.1.1 ARP 解析失败，无法获取 MAC"),
            String::from("检查 192.168.0.1 ..."),
        ]
    );
    assert_eq!(
        scan.server_lines(),
        vec![String::from("192.168.1.1  |  MAC 未解析 (响应 1 次)")]
    );
}

#[test]
fn gateway_that_answers_is_found() {
    let mut scan = scan();
    let gateway = Ipv4Addr::new(192, 168, 0, 1);
    let mac = MacAddr(2, 0, 0, 0, 0, 8);
    broadcasts(&mut scan, Vec::new());
    step(&mut scan, Event::Sent { ok: true, now: 0 });
    step(&mut scan, Event::Heard { frame: Some(reply(gateway, mac)), now: 1 });
    let xid: u32 = probe_xid(&scan, gateway, mac);
    step(&mut scan, Event::Sent { ok: true, now: 10 });
    // the answer names another address than the one that was asked
    let answer = datagram(xid, Some(router()), IpAddr::V4(gateway), 12);
    assert_eq!(
        step(&mut scan, answer),
        vec![
            String::from("  ✅ 192.168.0.1 有响应！DHCP Server ID: 192.168.1.1"),
            String::from("检查 192.168.1.1 ..."),
        ]
    );
    assert_eq!(
        scan.server_lines(),
        vec![String::from("192.168.1.1  |  02:00:00:00:00:08 (响应 1 次)")]
    );
    let mut lines: Vec<String> = Vec::new();
    for _ in 0..13 {
        lines.extend(skip_target(&mut scan));
    }
    assert_eq!(
        &lines[lines.len() - 5..],
        &[
            String::new(),
            String::from("━━━━━━━━━━━━━━━━━━━━━━━━━━━━━━━━━━━━━━━━"),
            String::from(" 发现的 DHCP 服务器汇总："),
            String::from("  📡 192.168.1.1  |  02:00:00:00:00:08 (响应 1 次)"),
            String::from("━━━━━━━━━━━━━━━━━━━━━━━━━━━━━━━━━━━━━━━━"),
        ]
    );
    assert!(matches!(scan.action(), Action::Finish));
}

#[test]
fn gateway_that_is_silent_is_not_listed() {
    let mut scan = scan();
    let gateway = Ipv4Addr::new(192, 168, 0, 1);
    broadcasts(&mut scan, Vec::new());
    step(&mut scan, Event::Sent { ok: true, now: 0 });
    step(&mut scan, Event::Heard { frame: Some(reply(gateway, SRC)), now: 1 });
    step(&mut scan, Event::Sent { ok: true, now: 10 });
    let late = Event::Datagram {
        offer: None,
        source: IpAddr::V4(gateway),
        now: 3 * SECOND + 10,
    };
    assert_eq!(
        step(&mut scan, late),
        vec![
            String::from("  192.168.0.1 未响应（单播方式）"),
            String::from("检查 192.168.1.1 ..."),
        ]
    );
    assert_eq!(scan.server_lines().len(), 0);
}

#[test]
fn failed_probe_is_not_repeated() {
    let mut scan = scan();
    let gateway = Ipv4Addr::new(192, 168, 0, 1);
    broadcasts(&mut scan, Vec::new());
    step(&mut scan, Event::Sent { ok: true, now: 0 });
    step(&mut scan, Event::Heard { frame: Some(reply(gateway, SRC)), now: 1 });
    assert_eq!(
        step(&mut scan, Event::Sent { ok: false, now: 10 }),
        vec![
            String::from("  [警告] 单播探测包发送失败"),
            String::from("检查 192.168.1.1 ..."),
        ]
    );
}

#[test]
fn each_server_is_a_target_once() {
    let mut scan = scan();
    let second = Ipv4Addr::new(10, 0, 0, 1);
    let offers = vec![
        from_router(XID, 1),
        datagram(XID, Some(second), IpAddr::V4(second), 2),
        from_router(XID, 3),
    ];
    let lines = broadcasts(&mut scan, offers);
    assert!(lines.contains(&String::from("阶段一 UDP Socket 共收到 3 个包")));
    assert!(lines.contains(&String::from("阶段一共发现 2 个 DHCP 服务器：")));
    let mut turns: usize = 0;
    while !matches!(scan.action(), Action::Finish) {
        skip_target(&mut scan);
        turns += 1;
    }
    assert_eq!(turns, 14);
    assert_eq!(
        scan.server_lines(),
        vec![
            String::from("10.0.0.1  |  MAC 未解析 (响应 1 次)"),
            String::from("192.168.1.1  |  MAC 未解析 (响应 2 次)"),
        ]
    );
}

#[test]
fn targets_are_asked_by_arp_first() {
    let mut scan = scan();
    broadcasts(&mut scan, Vec::new());
    let asked = Ipv4Addr::new(192, 168, 0, 1);
    match scan.action() {
        Action::Send { frame } => assert_eq!(frame, build_arp_request(SRC, local(), asked)),
        _ => panic!("the address is to be asked for"),
    }
}

#[test]
fn found_servers_are_kept_to_the_end() {
    let mut scan = scan();
    let silent = Ipv4Addr::new(172, 20, 0, 3);
    broadcasts(&mut scan, vec![datagram(XID, Some(silent), IpAddr::V4(silent), 1)]);
    while !matches!(scan.action(), Action::Finish) {
        assert_eq!(
            scan.server_lines(),
            vec![String::from("172.20.0.3  |  MAC 未解析 (响应 1 次)")]
        );
        skip_target(&mut scan);
    }
    assert_eq!(
        scan.server_lines(),
        vec![String::from("172.20.0.3  |  MAC 未解析 (响应 1 次)")]
    );
}

#[test]
fn traffic_stays_within_bounds() {
    let mut scan = scan();
    let mut sent: usize = 0;
    let mut now: u64 = 0;
    let mut event = Event::Rested;
    loop {
        step(&mut scan, event);
        now += SECOND;
        event = match scan.action() {
            Action::Send { frame } => {
                sent += 1;
                assert!(frame.len() == 42 || frame.len() == 299);
                Event::Sent { ok: true, now }
            }
            Action::ReceiveDatagram { .. } => Event::Quiet { now },
            Action::ReceiveFrame { .. } => Event::Heard { frame: None, now },
            Action::Rest { .. } => Event::Rested,
            Action::Finish => break,
        };
    }
    assert_eq!(sent, 3 + 3 * 14);
}

#[test]
fn responses_are_counted_to_the_end() {
    let mut scan = scan();
    let mac = MacAddr(2, 0, 0, 0, 0, 9);
    // two offers to the broadcasts, and an answer of the server itself, which was
    // known and is not counted again
    broadcasts(&mut scan, vec![from_router(XID, 1), from_router(XID, 2)]);
    step(&mut scan, Event::Sent { ok: true, now: 0 });
    step(&mut scan, Event::Heard { frame: Some(reply(router(), mac)), now: 1 });
    let own: u32 = probe_xid(&scan, router(), mac);
    step(&mut scan, Event::Sent { ok: true, now: 10 });
    step(&mut scan, from_router(own, 11));
    assert_eq!(
        scan.server_lines(),
        vec![String::from("192.168.1.1  |  02:00:00:00:00:09 (响应 2 次)")]
    );
    // a gateway that was not known answers in the server's name
    let gateway = Ipv4Addr::new(192, 168, 0, 1);
    step(&mut scan, Event::Sent { ok: true, now: 0 });
    step(&mut scan, Event::Heard { frame: Some(reply(gateway, SRC)), now: 1 });
    let other: u32 = probe_xid(&scan, gateway, SRC);
    step(&mut scan, Event::Sent { ok: true, now: 10 });
    step(&mut scan, from_router(other, 11));
    assert_eq!(
        scan.server_lines(),
        vec![String::from("192.168.1.1  |  02:00:00:00:00:01 (响应 3 次)")]
    );
}

#[test]
fn unexpected_events_change_nothing() {
    let mut scan = scan();
    assert_eq!(step(&mut scan, from_router(XID, 1)).len(), 0);
    assert_eq!(step(&mut scan, Event::Quiet { now: 9 * SECOND }).len(), 0);
    assert_eq!(step(&mut scan, Event::Rested).len(), 0);
    assert!(matches!(scan.action(), Action::Send { .. }));
    assert_eq!(scan.server_lines().len(), 0);
}
