use sonar::addr::{Ipv4Addr, MacAddr};
use sonar::arp::{arp_action, resolve_arp, ArpStage};
use sonar::steps::{Action, Event};
use sonar::wire::build_arp_request;

const SECOND: u64 = 1_000_000_000;
const SRC: MacAddr = MacAddr(2, 0, 0, 0, 0, 1);
const OWNER: MacAddr = MacAddr(2, 0, 0, 0, 0, 9);

fn target() -> Ipv4Addr {
    Ipv4Addr::new(192, 168, 1, 1)
}

fn reply() -> Vec<u8> {
    let mut frame: Vec<u8> = vec![0u8; 12];
    frame.extend_from_slice(&[0x08, 0x06, 0, 1, 8, 0, 6, 4, 0, 2, 2, 0, 0, 0, 0, 9, 192, 168, 1, 1]);
    frame.extend_from_slice(&[0u8; 10]);
    frame
}

#[test]
fn reply_ends_the_asking() {
    let mut stage = ArpStage::Ask { attempt: 1 };
    stage = resolve_arp(stage, &Event::Sent { ok: true, now: 5 }, target());
    assert_eq!(stage, ArpStage::Listen { attempt: 1, since: 5 });
    stage = resolve_arp(stage, &Event::Heard { frame: None, now: SECOND }, target());
    assert_eq!(stage, ArpStage::Listen { attempt: 1, since: 5 });
    let noise: Vec<u8> = vec![0u8; 60];
    stage = resolve_arp(stage, &Event::Heard { frame: Some(noise), now: SECOND }, target());
    assert_eq!(stage, ArpStage::Listen { attempt: 1, since: 5 });
    stage = resolve_arp(stage, &Event::Heard { frame: Some(reply()), now: 3 * SECOND }, target());
    assert_eq!(stage, ArpStage::Done { mac: Some(OWNER) });
    stage = resolve_arp(stage, &Event::Sent { ok: true, now: 9 }, target());
    assert_eq!(stage, ArpStage::Done { mac: Some(OWNER) });
}

#[test]
fn reply_for_another_station_is_ignored() {
    let stage = ArpStage::Listen { attempt: 1, since: 0 };
    let event = Event::Heard { frame: Some(reply()), now: 1 };
    assert_eq!(resolve_arp(stage, &event, Ipv4Addr::new(192, 168, 1, 2)), stage);
}

#[test]
fn silence_leads_to_three_attempts() {
    let mut stage = ArpStage::Ask { attempt: 1 };
    for attempt in 1..=3u8 {
        assert_eq!(stage, ArpStage::Ask { attempt });
        stage = resolve_arp(stage, &Event::Sent { ok: true, now: 0 }, target());
        stage = resolve_arp(stage, &Event::Heard { frame: None, now: 2 * SECOND - 1 }, target());
        assert_eq!(stage, ArpStage::Listen { attempt, since: 0 });
        stage = resolve_arp(stage, &Event::Heard { frame: None, now: 2 * SECOND }, target());
        assert_eq!(stage, ArpStage::Pause { attempt });
        stage = resolve_arp(stage, &Event::Rested, target());
    }
    assert_eq!(stage, ArpStage::Done { mac: None });
}

#[test]
fn failed_send_is_followed_by_the_next_attempt_at_once() {
    let mut stage = ArpStage::Ask { attempt: 1 };
    stage = resolve_arp(stage, &Event::Sent { ok: false, now: 0 }, target());
    assert_eq!(stage, ArpStage::Ask { attempt: 2 });
    stage = resolve_arp(stage, &Event::Sent { ok: false, now: 0 }, target());
    stage = resolve_arp(stage, &Event::Sent { ok: false, now: 0 }, target());
    assert_eq!(stage, ArpStage::Done { mac: None });
}

#[test]
fn each_stage_has_its_action() {
    let ip = Ipv4Addr::new(192, 168, 1, 7);
    match arp_action(ArpStage::Ask { attempt: 2 }, SRC, ip, target()) {
        Action::Send { frame } => assert_eq!(frame, build_arp_request(SRC, ip, target())),
        _ => panic!("the question is to be sent"),
    }
    assert!(matches!(
        arp_action(ArpStage::Listen { attempt: 1, since: 0 }, SRC, ip, target()),
        Action::ReceiveFrame { timeout_ms: 30 }
    ));
    assert!(matches!(
        arp_action(ArpStage::Pause { attempt: 1 }, SRC, ip, target()),
        Action::Rest { millis: 300 }
    ));
    assert!(matches!(
        arp_action(ArpStage::Done { mac: None }, SRC, ip, target()),
        Action::Finish
    ));
}
