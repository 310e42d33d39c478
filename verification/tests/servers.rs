use sonar::addr::{Ipv4Addr, MacAddr};
use sonar::servers::{common_gateways, contains_address, probe_targets, ServerEntry, ServerTable};

const MAC: MacAddr = MacAddr(0xa0, 0xb1, 0xc2, 0xd3, 0xe4, 0xf5);

fn ip(d: u8) -> Ipv4Addr {
    Ipv4Addr::new(192, 168, 7, d)
}

#[test]
fn entry_with_address_is_shown_with_count() {
    let entry = ServerEntry { ip: ip(1), mac: Some(MAC), response_count: 4 };
    assert_eq!(entry.display(), "192.168.7.1  |  a0:b1:c2:d3:e4:f5 (响应 4 次)");
}

#[test]
fn count_is_shown_whether_or_not_the_address_is_known() {
    for mac in [None, Some(MAC)] {
        let once = ServerEntry { ip: ip(1), mac, response_count: 1 };
        let twice = ServerEntry { ip: ip(1), mac, response_count: 2 };
        assert_ne!(once.display(), twice.display());
    }
}

#[test]
fn entry_without_address_is_shown_with_count() {
    let entry = ServerEntry { ip: ip(200), mac: None, response_count: 12 };
    assert_eq!(entry.display(), "192.168.7.200  |  MAC 未解析 (响应 12 次)");
}

#[test]
fn offers_are_counted_by_server() {
    let mut table = ServerTable::new();
    assert!(table.is_empty());
    table.record_offer(ip(1));
    table.record_offer(ip(2));
    table.record_offer(ip(1));
    assert!(!table.is_empty());
    assert_eq!(table.len(), 2);
    assert_eq!(
        table.get(ip(1)),
        Some(ServerEntry { ip: ip(1), mac: None, response_count: 2 })
    );
    assert_eq!(
        table.get(ip(2)),
        Some(ServerEntry { ip: ip(2), mac: None, response_count: 1 })
    );
    assert_eq!(table.get(ip(3)), None);
    assert!(table.has_room(ip(1)));
    assert!(table.has_room(ip(3)));
}

#[test]
fn answers_bring_the_address() {
    let mut table = ServerTable::new();
    table.record_offer(ip(1));
    table.record_answer(ip(1), MAC, false);
    assert_eq!(
        table.get(ip(1)),
        Some(ServerEntry { ip: ip(1), mac: Some(MAC), response_count: 1 })
    );
    table.record_answer(ip(1), MacAddr::zero(), true);
    assert_eq!(
        table.get(ip(1)),
        Some(ServerEntry { ip: ip(1), mac: Some(MacAddr::zero()), response_count: 2 })
    );
    table.record_answer(ip(9), MAC, true);
    assert_eq!(
        table.get(ip(9)),
        Some(ServerEntry { ip: ip(9), mac: Some(MAC), response_count: 1 })
    );
    table.record_answer(ip(10), MAC, false);
    assert_eq!(
        table.get(ip(10)),
        Some(ServerEntry { ip: ip(10), mac: Some(MAC), response_count: 1 })
    );
}

#[test]
fn address_is_noted_for_known_servers_only() {
    let mut table = ServerTable::new();
    table.record_mac(ip(1), MAC);
    assert!(table.is_empty());
    table.record_offer(ip(1));
    table.record_mac(ip(1), MAC);
    assert_eq!(
        table.get(ip(1)),
        Some(ServerEntry { ip: ip(1), mac: Some(MAC), response_count: 1 })
    );
}

#[test]
fn listing_shows_resolved_servers_first() {
    let mut table = ServerTable::new();
    for d in [9u8, 3, 250, 7, 100] {
        table.record_offer(ip(d));
    }
    table.record_offer(Ipv4Addr::new(10, 0, 0, 1));
    table.record_mac(ip(250), MAC);
    table.record_mac(ip(7), MAC);
    let shown: Vec<Ipv4Addr> = table.listing().iter().map(|entry| entry.ip).collect();
    assert_eq!(
        shown,
        vec![ip(7), ip(250), Ipv4Addr::new(10, 0, 0, 1), ip(3), ip(9), ip(100)]
    );
    assert_eq!(ServerTable::new().listing().len(), 0);
}

#[test]
fn addresses_come_once_each() {
    let mut table = ServerTable::new();
    for d in [5u8, 6, 5, 8, 6] {
        table.record_offer(ip(d));
    }
    let mut found: Vec<u32> = table.addresses().iter().map(|a| a.bits).collect();
    found.sort();
    assert_eq!(found, vec![ip(5).bits, ip(6).bits, ip(8).bits]);
}

#[test]
fn gateways_are_the_common_ones() {
    let expected = vec![
        Ipv4Addr::new(192, 168, 0, 1),
        Ipv4Addr::new(192, 168, 1, 1),
        Ipv4Addr::new(192, 168, 2, 1),
        Ipv4Addr::new(192, 168, 10, 1),
        Ipv4Addr::new(192, 168, 31, 1),
        Ipv4Addr::new(192, 168, 50, 1),
        Ipv4Addr::new(192, 168, 100, 1),
        Ipv4Addr::new(192, 168, 123, 1),
        Ipv4Addr::new(192, 168, 254, 1),
        Ipv4Addr::new(10, 0, 0, 1),
        Ipv4Addr::new(10, 0, 0, 2),
        Ipv4Addr::new(10, 1, 1, 1),
        Ipv4Addr::new(172, 16, 0, 1),
        Ipv4Addr::new(172, 16, 1, 1),
    ];
    assert_eq!(common_gateways(), expected);
}

#[test]
fn targets_hold_each_address_once() {
    let known = vec![ip(1), Ipv4Addr::new(10, 0, 0, 1)];
    let targets = probe_targets(&known);
    assert_eq!(targets.len(), 2 + 13);
    assert_eq!(targets[0], ip(1));
    assert_eq!(targets[1], Ipv4Addr::new(10, 0, 0, 1));
    assert_eq!(targets[2], Ipv4Addr::new(192, 168, 0, 1));
    assert_eq!(targets[14], Ipv4Addr::new(172, 16, 1, 1));
    assert_eq!(targets.iter().filter(|a| **a == Ipv4Addr::new(10, 0, 0, 1)).count(), 1);
    assert_eq!(probe_targets(&Vec::new()), common_gateways());
    assert!(contains_address(&targets, ip(1)));
    assert!(!contains_address(&targets, ip(2)));
}
