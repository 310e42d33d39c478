use sonar::channels::{check_arp_link, open_channels, ArpLink, OpenAction, OpenEvent};

#[test]
fn channels_open_step_by_step() {
    assert_eq!(open_channels(&OpenEvent::LinkIsEthernet), Ok(OpenAction::BindSocket));
    assert_eq!(open_channels(&OpenEvent::SocketBound), Ok(OpenAction::UnblockSocket));
    assert_eq!(open_channels(&OpenEvent::SocketUnblocked), Ok(OpenAction::Ready));
}

#[test]
fn each_failure_has_its_text() {
    assert_eq!(
        open_channels(&OpenEvent::LinkIsOther),
        Err(String::from("不支持的通道类型"))
    );
    assert_eq!(
        open_channels(&OpenEvent::LinkFailed(String::from("denied"))),
        Err(String::from(
            "创建底层网络接口失败：denied。\n请右键【以管理员身份运行】此程序，并确保已安装 Npcap"
        ))
    );
    assert_eq!(
        open_channels(&OpenEvent::BindFailed(String::from("in use"))),
        Err(String::from(
            "无法绑定 UDP 端口 68（错误:in use）。\n可能原因：\n1. 另一个程序已占用该端口\n2. 需要以管理员身份运行\n3. Windows DHCP Client 服务可能需要临时停止"
        ))
    );
    assert_eq!(
        open_channels(&OpenEvent::UnblockFailed(String::from("no"))),
        Err(String::from("设置 UDP Socket 非阻塞模式失败: no"))
    );
}

#[test]
fn only_ethernet_will_do_for_arp() {
    assert_eq!(check_arp_link(&ArpLink::Ethernet), Ok(()));
    assert_eq!(
        check_arp_link(&ArpLink::Other),
        Err(String::from("不支持的网络通道类型"))
    );
    assert_eq!(
        check_arp_link(&ArpLink::Failed(String::from("gone"))),
        Err(String::from("无法创建 ARP 接收通道: gone"))
    );
}
