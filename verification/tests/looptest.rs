use dhcproto::{v4, Decodable, Decoder};
use sonar::addr::{IpAddr, Ipv4Addr, MacAddr};
use sonar::dhcp::{build_dhcp_discover, DhcpOfferInfo};
use sonar::looptest::{detects_loop, smallest_gap, LoopTest};
use sonar::steps::{Action, Event};

const SECOND: u64 = 1_000_000_000;
const MILLI: u64 = 1_000_000;
const SRC: MacAddr = MacAddr(2, 0, 0, 0, 0, 1);
const XID: u32 = 0x0000_beef;

fn test() -> LoopTest {
    LoopTest::new(SRC, XID, build_dhcp_discover(SRC, XID))
}

fn offer(xid: u32, now: u64) -> Event {
    Event::Datagram {
        offer: Some(DhcpOfferInfo { xid, server_id: None }),
        source: IpAddr::V4(Ipv4Addr::new(192, 168, 1, 1)),
        now,
    }
}

fn run(times: &[u64]) -> LoopTest {
    let mut test = test();
    test.step(&Event::Sent { ok: true, now: 0 });
    for time in times {
        test.step(&offer(XID, *time));
    }
    test.step(&Event::Quiet { now: 5 * SECOND });
    test
}

#[test]
fn one_discover_is_sent() {
    let discover = build_dhcp_discover(SRC, XID);
    let mut test = LoopTest::new(SRC, XID, discover.clone());
    match test.action() {
        Action::Send { frame } => assert_eq!(frame, discover),
        _ => panic!("the broadcast is to be sent"),
    }
    test.step(&Event::Sent { ok: false, now: 0 });
    for tick in 1..200u64 {
        assert!(matches!(test.action(), Action::ReceiveDatagram { timeout_ms: 30 }));
        test.step(&Event::Quiet { now: tick * 25 * MILLI });
    }
    test.step(&Event::Quiet { now: 5 * SECOND });
    assert!(matches!(test.action(), Action::Finish));
    test.step(&Event::Sent { ok: true, now: 6 * SECOND });
    assert!(matches!(test.action(), Action::Finish));
}

#[test]
fn fresh_test_tells_its_transaction() {
    let (test, line) = LoopTest::start(SRC);
    match test.action() {
        Action::Send { frame } => {
            let xid: u32 = v4::Message::decode(&mut Decoder::new(&frame[42..])).unwrap().xid();
            assert_eq!(line, format!("环路检测专用 XID: 0x{:08X}", xid));
        }
        _ => panic!("the broadcast is to be sent"),
    }
    assert_eq!(LoopTest::announcement(), "发送单个 DHCP DISCOVER 广播...");
}

#[test]
fn sending_is_followed_by_listening() {
    assert_eq!(
        test().step(&Event::Sent { ok: true, now: 0 }),
        vec![String::from("监听 5 秒等待 Offer（UDP Socket）...")]
    );
    assert_eq!(
        test().step(&Event::Sent { ok: false, now: 0 }),
        vec![
            String::from("  [警告] 数据包发送失败"),
            String::from("监听 5 秒等待 Offer（UDP Socket）..."),
        ]
    );
}

#[test]
fn offers_of_the_test_are_noted() {
    let mut test = test();
    test.step(&Event::Sent { ok: true, now: 0 });
    assert_eq!(
        test.step(&offer(XID, 1)),
        vec![String::from("  收到第 1 个 Offer（XID: 0x0000BEEF）")]
    );
    assert_eq!(test.step(&offer(XID + 1, 2)).len(), 0);
    let other = Event::Datagram {
        offer: None,
        source: IpAddr::V4(Ipv4Addr::unspecified()),
        now: 3,
    };
    assert_eq!(test.step(&other).len(), 0);
    assert_eq!(
        test.step(&offer(XID, 5 * SECOND)),
        vec![String::from("  收到第 2 个 Offer（XID: 0x0000BEEF）")]
    );
    assert!(matches!(test.action(), Action::Finish));
    assert_eq!(test.step(&offer(XID, 5 * SECOND + 1)).len(), 0);
    assert_eq!(test.smallest_gap(), Some(5 * SECOND - 1));
}

#[test]
fn too_few_offers_give_no_loop() {
    assert_eq!(
        run(&[]).report(""),
        vec![
            String::new(),
            String::from("监听结束，共收到 0 个匹配 Offer"),
            String::from("结果：未检测到网络环路（Offer 数量不足 2 个）"),
        ]
    );
    assert_eq!(run(&[7]).report("")[1], "监听结束，共收到 1 个匹配 Offer");
    assert_eq!(run(&[7]).smallest_gap(), None);
}

#[test]
fn close_offers_give_a_loop() {
    let test = run(&[SECOND, SECOND + 150 * MILLI, SECOND + 152 * MILLI]);
    assert_eq!(test.smallest_gap(), Some(2 * MILLI));
    assert_eq!(
        test.report("2.00"),
        vec![
            String::new(),
            String::from("监听结束，共收到 3 个匹配 Offer"),
            String::from("最小 Offer 间隔: 2.00 ms"),
            String::new(),
            String::from("!!! 检测到二层网络环路 !!!"),
            String::from("  - 相同 XID 收到 3 个 DHCP Offer"),
            String::from("  - 最小间隔: 2.00 ms (< 100ms)"),
            String::from("建议：检查交换机级联线路，排查冗余链路或启用 STP/RSTP。"),
        ]
    );
}

#[test]
fn distant_offers_give_no_loop() {
    let test = run(&[SECOND, SECOND + 100 * MILLI]);
    assert_eq!(
        test.report("100.00"),
        vec![
            String::new(),
            String::from("监听结束，共收到 2 个匹配 Offer"),
            String::from("最小 Offer 间隔: 100.00 ms"),
            String::from("结果：未检测到网络环路"),
            String::from("收到 2 个 Offer 但间隔 ≥ 100ms，正常多服务器响应"),
        ]
    );
}

#[test]
fn hundred_milliseconds_decide() {
    assert!(detects_loop(&[0, 100 * MILLI - 1]));
    assert!(!detects_loop(&[0, 100 * MILLI]));
    assert!(!detects_loop(&[]));
    assert!(!detects_loop(&[5]));
    assert!(detects_loop(&[5, 5]));
    assert!(detects_loop(&[0, 200 * MILLI, 250 * MILLI, SECOND]));
    assert!(detects_loop(&[9, 3]));
}

#[test]
fn further_offers_do_not_hide_a_loop() {
    assert!(detects_loop(&[0, 5 * MILLI]));
    assert!(detects_loop(&[0, 5 * MILLI, SECOND]));
    assert!(detects_loop(&[0, 5 * MILLI, SECOND, 3 * SECOND]));
}

#[test]
fn close_offers_need_not_be_neighbours() {
    let offers: [u64; 3] = [SECOND, SECOND + 40 * MILLI, SECOND + 90 * MILLI];
    assert!(offers[2] - offers[0] < 100 * MILLI);
    assert!(detects_loop(&offers));
}

#[test]
fn integer_and_float_thresholds_agree() {
    for gap in [0u64, 1, 99_999_999, 100_000_000, 100_000_001, 4_999_999_999] {
        let millis = std::time::Duration::from_nanos(gap).as_secs_f64() * 1000.0;
        assert_eq!(detects_loop(&[0, gap]), millis < 100.0);
    }
}

#[test]
fn smallest_gap_is_the_shortest() {
    assert_eq!(smallest_gap(&[]), None);
    assert_eq!(smallest_gap(&[4]), None);
    assert_eq!(smallest_gap(&[4, 9]), Some(5));
    assert_eq!(smallest_gap(&[4, 9, 12, 20]), Some(3));
    assert_eq!(smallest_gap(&[9, 4, 12]), Some(0));
}
