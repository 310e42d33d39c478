//! Opening the channels that a diagnosis needs: raw frames out, datagrams in.

use vstd::prelude::*;

verus! {

/// The longest that a read on the link may block, in milliseconds.
pub const LINK_READ_TIMEOUT_MS: u64 = 50;

/// The port on which DHCP clients listen.
pub const CLIENT_PORT: u16 = 68;

/// The port on which DHCP servers listen.
pub const SERVER_PORT: u16 = 67;

/// What came of the last step of opening the channels. A failure carries the
/// system's own words.
#[derive(Debug)]
pub enum OpenEvent {
    LinkIsEthernet,
    LinkIsOther,
    LinkFailed(String),
    SocketBound,
    BindFailed(String),
    SocketUnblocked,
    UnblockFailed(String),
}

/// What is done next to open the channels.
#[derive(Clone, Copy, PartialEq, Eq, Structural, Debug)]
pub enum OpenAction {
    BindSocket,
    UnblockSocket,
    Ready,
}

/// The link is opened first and must be Ethernet, the socket is bound next and
/// made non-blocking last; each failure ends it, with a text for the user.
pub open spec fn open_next(event: OpenEvent) -> Result<OpenAction, Seq<char>> {
    match event {
        OpenEvent::LinkIsEthernet => Ok(OpenAction::BindSocket),
        OpenEvent::LinkIsOther => Err("不支持的通道类型"@),
        OpenEvent::LinkFailed(cause) => Err(
            "创建底层网络接口失败："@ + cause@
                + "。\n请右键【以管理员身份运行】此程序，并确保已安装 Npcap"@,
        ),
        OpenEvent::SocketBound => Ok(OpenAction::UnblockSocket),
        OpenEvent::BindFailed(cause) => Err(
            "无法绑定 UDP 端口 68（错误:"@ + cause@
                + "）。\n可能原因：\n1. 另一个程序已占用该端口\n2. 需要以管理员身份运行\n3. Windows DHCP Client 服务可能需要临时停止"@,
        ),
        OpenEvent::SocketUnblocked => Ok(OpenAction::Ready),
        OpenEvent::UnblockFailed(cause) => Err("设置 UDP Socket 非阻塞模式失败: "@ + cause@),
    }
}

/// Decides how opening the channels goes on after `event`.
pub fn open_channels(event: &OpenEvent) -> (r: Result<OpenAction, String>)
    ensures
        r matches Ok(action) ==> open_next(*event) == Ok::<OpenAction, Seq<char>>(action),
        r matches Err(text) ==> open_next(*event) == Err::<OpenAction, Seq<char>>(text@),
{
    match event {
        OpenEvent::LinkIsEthernet => Ok(OpenAction::BindSocket),
        OpenEvent::LinkIsOther => Err("不支持的通道类型".to_owned()),
        OpenEvent::LinkFailed(cause) => {
            let mut text = "创建底层网络接口失败：".to_owned();
            text.append(cause.as_str());
            text.append("。\n请右键【以管理员身份运行】此程序，并确保已安装 Npcap");
            Err(text)
        },
        OpenEvent::SocketBound => Ok(OpenAction::UnblockSocket),
        OpenEvent::BindFailed(cause) => {
            let mut text = "无法绑定 UDP 端口 68（错误:".to_owned();
            text.append(cause.as_str());
            text.append(
                "）。\n可能原因：\n1. 另一个程序已占用该端口\n2. 需要以管理员身份运行\n3. Windows DHCP Client 服务可能需要临时停止",
            );
            Err(text)
        },
        OpenEvent::SocketUnblocked => Ok(OpenAction::Ready),
        OpenEvent::UnblockFailed(cause) => {
            let mut text = "设置 UDP Socket 非阻塞模式失败: ".to_owned();
            text.append(cause.as_str());
            Err(text)
        },
    }
}

/// The channels are ready once the socket does not block, and not before.
pub proof fn ready_when_unblocked(event: OpenEvent)
    ensures
        open_next(event) == Ok::<OpenAction, Seq<char>>(OpenAction::Ready) <==> event
            is SocketUnblocked,
{
}

/// What came of opening a second link, the one that ARP replies come through.
#[derive(Debug)]
pub enum ArpLink {
    Ethernet,
    Other,
    Failed(String),
}

/// Only an Ethernet link will do for ARP.
pub open spec fn arp_link_error(link: ArpLink) -> Option<Seq<char>> {
    match link {
        ArpLink::Ethernet => None,
        ArpLink::Other => Some("不支持的网络通道类型"@),
        ArpLink::Failed(cause) => Some("无法创建 ARP 接收通道: "@ + cause@),
    }
}

/// Accepts the link for ARP, or says why it will not do.
pub fn check_arp_link(link: &ArpLink) -> (r: Result<(), String>)
    ensures
        r is Ok <==> arp_link_error(*link) is None,
        r matches Err(text) ==> arp_link_error(*link) == Some(text@),
{
    match link {
        ArpLink::Ethernet => Ok(()),
        ArpLink::Other => Err("不支持的网络通道类型".to_owned()),
        ArpLink::Failed(cause) => {
            let mut text = "无法创建 ARP 接收通道: ".to_owned();
            text.append(cause.as_str());
            Err(text)
        },
    }
}

// ---------------------------------------------------------------------------
// Laws

/// Opening goes on after every success and ends with every failure.
pub proof fn each_failure_ends_it(event: OpenEvent)
    ensures
        open_next(event) is Ok <==> event is LinkIsEthernet || event is SocketBound || event
            is SocketUnblocked,
        event is LinkIsEthernet ==> open_next(event) == Ok::<OpenAction, Seq<char>>(
            OpenAction::BindSocket,
        ),
        event is SocketBound ==> open_next(event) == Ok::<OpenAction, Seq<char>>(
            OpenAction::UnblockSocket,
        ),
{
}

/// Whether `part` stands somewhere in `text`.
pub open spec fn holds_text(text: Seq<char>, part: Seq<char>) -> bool {
    exists|before: Seq<char>, after: Seq<char>| text == #[trigger] (before + part + after)
}

/// The system's own words are passed on to the user.
pub proof fn cause_is_passed_on(event: OpenEvent, link: ArpLink)
    ensures
        match event {
            OpenEvent::LinkFailed(cause) => holds_text(open_next(event)->Err_0, cause@),
            OpenEvent::BindFailed(cause) => holds_text(open_next(event)->Err_0, cause@),
            OpenEvent::UnblockFailed(cause) => holds_text(open_next(event)->Err_0, cause@),
            _ => true,
        },
        arp_link_error(link) is None <==> link is Ethernet,
        link matches ArpLink::Failed(cause) ==> holds_text(arp_link_error(link)->0, cause@),
{
    match event {
        OpenEvent::UnblockFailed(cause) => {
            let text = open_next(event)->Err_0;
            assert(text =~= "设置 UDP Socket 非阻塞模式失败: "@ + cause@ + Seq::<char>::empty());
        },
        _ => {},
    }
    match link {
        ArpLink::Failed(cause) => {
            let text = arp_link_error(link)->0;
            assert(text =~= "无法创建 ARP 接收通道: "@ + cause@ + Seq::<char>::empty());
        },
        _ => {},
    }
}

} // verus!
