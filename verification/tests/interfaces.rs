use sonar::addr::{IpAddr, Ipv4Addr, MacAddr};
use sonar::interfaces::{
    collect_interfaces, describe_station, initial_mac, select_interface, select_station,
    InterfaceInfo, Station,
};

const MAC: MacAddr = MacAddr(0xa0, 0xb1, 0xc2, 0xd3, 0xe4, 0xf5);

fn iface(name: &str, mac: Option<MacAddr>, ips: Vec<IpAddr>) -> InterfaceInfo {
    InterfaceInfo {
        name: String::from(name),
        description: format!("card {}", name),
        mac,
        ips,
    }
}

fn v4(d: u8) -> IpAddr {
    IpAddr::V4(Ipv4Addr::new(10, 0, 0, d))
}

fn v6() -> IpAddr {
    IpAddr::V6(String::from("fe80::1"))
}

#[test]
fn usable_interfaces_are_collected() {
    let all = vec![
        iface("a", Some(MAC), vec![]),
        iface("b", Some(MAC), vec![v6()]),
        iface("c", None, vec![v4(1)]),
        iface("d", Some(MAC), vec![v4(1), v4(2)]),
    ];
    assert_eq!(collect_interfaces(&all), vec![1, 3]);
    assert_eq!(collect_interfaces(&[]).len(), 0);
    assert!(all[1].is_usable());
    assert!(!all[0].is_usable());
}

#[test]
fn label_names_and_describes() {
    assert_eq!(iface("eth0", None, vec![]).label(), "eth0 - card eth0");
}

#[test]
fn local_address_is_the_first_ipv4() {
    assert_eq!(
        iface("a", None, vec![v6(), v4(4), v4(5)]).local_ip(),
        Ipv4Addr::new(10, 0, 0, 4)
    );
    assert_eq!(iface("a", None, vec![v6()]).local_ip(), Ipv4Addr::unspecified());
    assert_eq!(iface("a", None, vec![]).local_ip(), Ipv4Addr::unspecified());
}

#[test]
fn first_interface_is_shown_at_start() {
    assert_eq!(initial_mac(&[]), None);
    assert_eq!(initial_mac(&[iface("a", None, vec![])]), None);
    assert_eq!(
        initial_mac(&[iface("a", Some(MAC), vec![])]),
        Some(String::from("a0:b1:c2:d3:e4:f5"))
    );
}

#[test]
fn interface_is_selected_by_label() {
    let ifaces = vec![
        iface("a", Some(MAC), vec![v4(1)]),
        iface("b", None, vec![v4(2)]),
        iface("b", Some(MAC), vec![v4(3)]),
    ];
    assert_eq!(
        select_interface(&ifaces, &String::from("a - card a")),
        Some((0, String::from("a0:b1:c2:d3:e4:f5")))
    );
    assert_eq!(
        select_interface(&ifaces, &String::from("b - card b")),
        Some((1, String::from("00:00:00:00:00:00")))
    );
    assert_eq!(select_interface(&ifaces, &String::from("c - card c")), None);
    assert_eq!(select_interface(&ifaces, &String::from("a")), None);
}

#[test]
fn station_comes_from_the_selected_interface() {
    let ifaces = vec![iface("a", Some(MAC), vec![v6(), v4(9)]), iface("b", None, vec![v4(2)])];
    let station = Station { mac: MAC, ip: Ipv4Addr::new(10, 0, 0, 9) };
    assert_eq!(select_station(&ifaces, 0), Ok(station));
    assert_eq!(
        describe_station(&ifaces[0], station),
        vec![
            String::from("使用网卡: a - card a"),
            String::from("源 MAC: a0:b1:c2:d3:e4:f5"),
        ]
    );
    assert_eq!(select_station(&ifaces, 1), Err(String::from("选中网卡无 MAC 地址")));
    assert_eq!(select_station(&ifaces, 2), Err(String::from("未找到选中的网卡")));
    assert_eq!(select_station(&[], 0), Err(String::from("未找到选中的网卡")));
}
