//! The network interfaces: which can be used, how they are shown, and the one
//! that a diagnosis runs on.

use crate::addr::{IpAddr, Ipv4Addr, MacAddr};
use crate::text::{lines_view, no_lines, push_line};
use vstd::prelude::*;

verus! {

/// What is known of a network interface.
#[derive(Debug)]
pub struct InterfaceInfo {
    pub name: String,
    pub description: String,
    pub mac: Option<MacAddr>,
    pub ips: Vec<IpAddr>,
}

/// The first IPv4 address of a list, if it has one.
pub open spec fn first_ipv4(ips: Seq<IpAddr>) -> Option<Ipv4Addr>
    decreases ips.len(),
{
    if ips.len() == 0 {
        None
    } else {
        match ips[0] {
            IpAddr::V4(ip) => Some(ip),
            IpAddr::V6(_) => first_ipv4(ips.drop_first()),
        }
    }
}

impl InterfaceInfo {
    /// An interface can be used if it has addresses of both kinds.
    pub open spec fn usable(self) -> bool {
        self.ips@.len() > 0 && self.mac is Some
    }

    /// How the interface is shown.
    pub open spec fn label_text(self) -> Seq<char> {
        self.name@ + " - "@ + self.description@
    }

    /// The interface's first IPv4 address, or `0.0.0.0` where it has none.
    pub open spec fn local_ip_view(self) -> Ipv4Addr {
        match first_ipv4(self.ips@) {
            Some(ip) => ip,
            None => Ipv4Addr::spec_unspecified(),
        }
    }

    /// The Ethernet address as it is shown; zeros where there is none.
    pub open spec fn shown_mac(self) -> Seq<char> {
        match self.mac {
            Some(mac) => mac.text(),
            None => MacAddr(0, 0, 0, 0, 0, 0).text(),
        }
    }

    /// Whether the interface can be used.
    pub fn is_usable(&self) -> (r: bool)
        ensures
            r == self.usable(),
    {
        self.ips.len() > 0 && self.mac.is_some()
    }

    /// How the interface is shown.
    pub fn label(&self) -> (r: String)
        ensures
            r@ == self.label_text(),
    {
        let mut text = self.name.clone();
        text.append(" - ");
        text.append(self.description.as_str());
        text
    }

    /// The interface's first IPv4 address, or `0.0.0.0` where it has none.
    pub fn local_ip(&self) -> (r: Ipv4Addr)
        ensures
            r == self.local_ip_view(),
    {
        let mut next: usize = 0;
        assert(self.ips@.skip(0) =~= self.ips@);
        while next < self.ips.len()
            invariant
                next <= self.ips@.len(),
                first_ipv4(self.ips@) == first_ipv4(self.ips@.skip(next as int)),
            decreases self.ips@.len() - next,
        {
            if let IpAddr::V4(ip) = &self.ips[next] {
                return *ip;
            }
            assert(self.ips@.skip(next as int).drop_first() =~= self.ips@.skip(next + 1));
            next = next + 1;
        }
        Ipv4Addr::unspecified()
    }

    fn mac_text(&self) -> (r: String)
        ensures
            r@ == self.shown_mac(),
    {
        match self.mac {
            Some(mac) => mac.to_text(),
            None => MacAddr::zero().to_text(),
        }
    }
}

/// The numbers of the interfaces that can be used, in order.
pub open spec fn usable_numbers(all: Seq<InterfaceInfo>) -> Seq<usize>
    decreases all.len(),
{
    if all.len() == 0 {
        seq![]
    } else {
        let before = usable_numbers(all.drop_last());
        if all.last().usable() {
            before.push((all.len() - 1) as usize)
        } else {
            before
        }
    }
}

/// Picks the interfaces that can be used, by number and in order.
pub fn collect_interfaces(all: &[InterfaceInfo]) -> (r: Vec<usize>)
    ensures
        r@ == usable_numbers(all@),
{
    let mut numbers: Vec<usize> = Vec::new();
    let mut next: usize = 0;
    while next < all.len()
        invariant
            next <= all@.len(),
            numbers@ == usable_numbers(all@.take(next as int)),
        decreases all@.len() - next,
    {
        assert(all@.take(next + 1).drop_last() =~= all@.take(next as int));
        if all[next].is_usable() {
            numbers.push(next);
        }
        next = next + 1;
    }
    assert(all@.take(next as int) =~= all@);
    numbers
}

/// The Ethernet address that is shown before anything is selected: that of the
/// first interface.
pub fn initial_mac(ifaces: &[InterfaceInfo]) -> (r: Option<String>)
    ensures
        r is Some <==> ifaces@.len() > 0 && ifaces@[0].mac is Some,
        r matches Some(text) ==> text@ == ifaces@[0].mac->0.text(),
{
    if ifaces.len() == 0 {
        return None;
    }
    match ifaces[0].mac {
        Some(mac) => Some(mac.to_text()),
        None => None,
    }
}

/// Whether interface number `i` is the first that is shown as `label`.
pub open spec fn is_first_labelled(ifaces: Seq<InterfaceInfo>, label: Seq<char>, i: int) -> bool {
    &&& 0 <= i < ifaces.len()
    &&& ifaces[i].label_text() == label
    &&& forall|j: int| 0 <= j < i ==> (#[trigger] ifaces[j]).label_text() != label
}

/// The interface that the user selects by its label: its number and its Ethernet
/// address as it is shown. A label that no interface has selects nothing.
pub fn select_interface(ifaces: &[InterfaceInfo], label: &String) -> (r: Option<(usize, String)>)
    ensures
        match r {
            Some((i, mac)) => {
                &&& is_first_labelled(ifaces@, label@, i as int)
                &&& mac@ == ifaces@[i as int].shown_mac()
            },
            None => forall|i: int|
                0 <= i < ifaces@.len() ==> (#[trigger] ifaces@[i]).label_text() != label@,
        },
{
    let mut next: usize = 0;
    while next < ifaces.len()
        invariant
            next <= ifaces@.len(),
            forall|j: int| 0 <= j < next ==> (#[trigger] ifaces@[j]).label_text() != label@,
        decreases ifaces@.len() - next,
    {
        if ifaces[next].label() == *label {
            return Some((next, ifaces[next].mac_text()));
        }
        next = next + 1;
    }
    None
}

// ---------------------------------------------------------------------------
// The station of a diagnosis

/// The station that a diagnosis runs on.
#[derive(Clone, Copy, PartialEq, Eq, Structural, Debug)]
pub struct Station {
    pub mac: MacAddr,
    pub ip: Ipv4Addr,
}

/// The station of the selected interface, or why there is none.
pub open spec fn station_of(ifaces: Seq<InterfaceInfo>, selected: usize) -> Result<
    Station,
    Seq<char>,
> {
    if selected >= ifaces.len() {
        Err("未找到选中的网卡"@)
    } else {
        match ifaces[selected as int].mac {
            Some(mac) => Ok(Station { mac, ip: ifaces[selected as int].local_ip_view() }),
            None => Err("选中网卡无 MAC 地址"@),
        }
    }
}

/// The station of the selected interface, or why there is none.
pub fn select_station(ifaces: &[InterfaceInfo], selected: usize) -> (r: Result<Station, String>)
    ensures
        r matches Ok(station) ==> station_of(ifaces@, selected) == Ok::<Station, Seq<char>>(station),
        r matches Err(text) ==> station_of(ifaces@, selected) == Err::<Station, Seq<char>>(text@),
{
    if selected >= ifaces.len() {
        return Err("未找到选中的网卡".to_owned());
    }
    match ifaces[selected].mac {
        Some(mac) => Ok(Station { mac, ip: ifaces[selected].local_ip() }),
        None => Err("选中网卡无 MAC 地址".to_owned()),
    }
}

/// The lines that tell which station a scan runs on.
pub open spec fn station_lines(iface: InterfaceInfo, mac: MacAddr) -> Seq<Seq<char>> {
    seq!["使用网卡: "@ + iface.label_text(), "源 MAC: "@ + mac.text()]
}

/// The lines that tell which station a scan runs on: the selected interface.
pub fn describe_station(iface: &InterfaceInfo, station: Station) -> (r: Vec<String>)
    ensures
        lines_view(r@) == station_lines(*iface, station.mac),
{
    let mut lines = no_lines();
    let mut used = "使用网卡: ".to_owned();
    used.append(iface.label().as_str());
    push_line(&mut lines, used);
    let mut source = "源 MAC: ".to_owned();
    source.append(station.mac.to_text().as_str());
    push_line(&mut lines, source);
    assert(lines_view(lines@) =~= station_lines(*iface, station.mac));
    lines
}

// ---------------------------------------------------------------------------
// Laws

/// Exactly the interfaces that have an address and an Ethernet address are picked,
/// each once and in order.
pub proof fn picks_the_usable(all: Seq<InterfaceInfo>, i: int)
    requires
        0 <= i < all.len() <= usize::MAX,
    ensures
        usable_numbers(all).contains(i as usize) <==> all[i].ips@.len() > 0 && all[i].mac is Some,
        forall|a: int, b: int|
            0 <= a < b < usable_numbers(all).len() ==> usable_numbers(all)[a] < usable_numbers(
                all,
            )[b],
        forall|a: int|
            0 <= a < usable_numbers(all).len() ==> #[trigger] usable_numbers(all)[a] < all.len(),
    decreases all.len(),
{
    picked_below(all);
    picked_in_order(all);
    picked_if_usable(all, i);
}

proof fn picked_below(all: Seq<InterfaceInfo>)
    requires
        all.len() <= usize::MAX,
    ensures
        forall|a: int|
            0 <= a < usable_numbers(all).len() ==> #[trigger] usable_numbers(all)[a] < all.len(),
    decreases all.len(),
{
    if all.len() > 0 {
        picked_below(all.drop_last());
        let before = usable_numbers(all.drop_last());
        let picked = usable_numbers(all);
        assert forall|a: int| 0 <= a < picked.len() implies #[trigger] picked[a] < all.len() by {
            if a < before.len() {
                assert(picked[a] == before[a]);
            }
        }
    }
}

proof fn picked_in_order(all: Seq<InterfaceInfo>)
    requires
        all.len() <= usize::MAX,
    ensures
        forall|a: int, b: int|
            0 <= a < b < usable_numbers(all).len() ==> usable_numbers(all)[a] < usable_numbers(
                all,
            )[b],
    decreases all.len(),
{
    if all.len() > 0 {
        picked_in_order(all.drop_last());
        picked_below(all.drop_last());
        let before = usable_numbers(all.drop_last());
        let picked = usable_numbers(all);
        assert forall|a: int, b: int| 0 <= a < b < picked.len() implies picked[a] < picked[b] by {
            assert(picked[a] == before[a]);
            if b < before.len() {
                assert(picked[b] == before[b]);
            }
        }
    }
}

proof fn picked_if_usable(all: Seq<InterfaceInfo>, i: int)
    requires
        0 <= i < all.len() <= usize::MAX,
    ensures
        usable_numbers(all).contains(i as usize) <==> all[i].usable(),
    decreases all.len(),
{
    let front = all.drop_last();
    let before = usable_numbers(front);
    let picked = usable_numbers(all);
    picked_below(front);
    if i < front.len() {
        picked_if_usable(front, i);
        assert(front[i] == all[i]);
        if before.contains(i as usize) {
            let a = before.index_of(i as usize);
            assert(picked[a] == i as usize);
        }
        if picked.contains(i as usize) {
            let a = picked.index_of(i as usize);
            assert(before[a] == i as usize);
        }
    } else if all.last().usable() {
        assert(picked[before.len() as int] == i as usize);
    }
}

/// An interface that was picked always gives a station.
pub proof fn usable_gives_a_station(ifaces: Seq<InterfaceInfo>, selected: usize)
    requires
        selected < ifaces.len(),
        ifaces[selected as int].usable(),
    ensures
        station_of(ifaces, selected) is Ok,
{
}

/// The local address of an interface is the first IPv4 address among its
/// addresses, wherever that stands.
pub proof fn local_ip_is_the_first_ipv4(iface: InterfaceInfo, i: int)
    requires
        0 <= i < iface.ips@.len(),
        iface.ips@[i] is V4,
        forall|j: int| 0 <= j < i ==> #[trigger] iface.ips@[j] is V6,
    ensures
        iface.local_ip_view() == iface.ips@[i]->V4_0,
{
    first_ipv4_stands_at(iface.ips@, i);
}

proof fn first_ipv4_stands_at(ips: Seq<IpAddr>, i: int)
    requires
        0 <= i < ips.len(),
        ips[i] is V4,
        forall|j: int| 0 <= j < i ==> #[trigger] ips[j] is V6,
    ensures
        first_ipv4(ips) == Some(ips[i]->V4_0),
    decreases ips.len(),
{
    if i > 0 {
        let rest = ips.drop_first();
        assert(ips[0] is V6);
        assert forall|j: int| 0 <= j < i - 1 implies #[trigger] rest[j] is V6 by {
            assert(rest[j] == ips[j + 1]);
        }
        first_ipv4_stands_at(rest, i - 1);
    }
}

/// Only an interface without any IPv4 address has the local address `0.0.0.0` for
/// want of one.
pub proof fn no_ipv4_is_unspecified(iface: InterfaceInfo)
    requires
        forall|j: int| 0 <= j < iface.ips@.len() ==> #[trigger] iface.ips@[j] is V6,
    ensures
        iface.local_ip_view().bits == 0,
{
    no_ipv4_is_found(iface.ips@);
}

proof fn no_ipv4_is_found(ips: Seq<IpAddr>)
    requires
        forall|j: int| 0 <= j < ips.len() ==> #[trigger] ips[j] is V6,
    ensures
        first_ipv4(ips) is None,
    decreases ips.len(),
{
    if ips.len() > 0 {
        let rest = ips.drop_first();
        assert(ips[0] is V6);
        assert forall|j: int| 0 <= j < rest.len() implies #[trigger] rest[j] is V6 by {
            assert(rest[j] == ips[j + 1]);
        }
        no_ipv4_is_found(rest);
    }
}

/// The station has the Ethernet address of the selected interface and its first
/// IPv4 address; there is none if nothing is selected or the interface has no
/// Ethernet address.
pub proof fn station_is_the_selected_interface(ifaces: Seq<InterfaceInfo>, selected: usize, i: int)
    ensures
        station_of(ifaces, selected) is Ok <==> selected < ifaces.len()
            && ifaces[selected as int].mac is Some,
        selected >= ifaces.len() ==> station_of(ifaces, selected) == Err::<Station, Seq<char>>(
            "未找到选中的网卡"@,
        ),
        selected < ifaces.len() && ifaces[selected as int].mac is None ==> station_of(
            ifaces,
            selected,
        ) == Err::<Station, Seq<char>>("选中网卡无 MAC 地址"@),
        station_of(ifaces, selected) matches Ok(station) ==> {
            let ips = ifaces[selected as int].ips@;
            &&& Some(station.mac) == ifaces[selected as int].mac
            &&& (0 <= i < ips.len() && ips[i] is V4 && (forall|j: int|
                0 <= j < i ==> #[trigger] ips[j] is V6)) ==> station.ip == ips[i]->V4_0
        },
{
    if selected < ifaces.len() {
        let ips = ifaces[selected as int].ips@;
        if 0 <= i < ips.len() && ips[i] is V4 && (forall|j: int|
            0 <= j < i ==> #[trigger] ips[j] is V6) {
            local_ip_is_the_first_ipv4(ifaces[selected as int], i);
        }
    }
}

/// A label begins with the interface's name and ends with its description.
pub proof fn label_names_and_describes(iface: InterfaceInfo)
    ensures
        iface.label_text().take(iface.name@.len() as int) == iface.name@,
        iface.label_text().skip(iface.name@.len() as int).take(3) == " - "@,
        iface.label_text().skip(iface.name@.len() as int + 3) == iface.description@,
{
    reveal_strlit(" - ");
    let text = iface.label_text();
    let n = iface.name@.len() as int;
    assert(text.take(n) =~= iface.name@);
    assert(text.skip(n).take(3) =~= " - "@);
    assert(text.skip(n + 3) =~= iface.description@);
}

/// What is shown of an interface is its own Ethernet address.
pub proof fn own_address_is_shown(iface: InterfaceInfo)
    ensures
        iface.mac matches Some(mac) ==> iface.shown_mac() == mac.text(),
        iface.mac is None ==> iface.shown_mac() == MacAddr(0, 0, 0, 0, 0, 0).text(),
{
}

/// Of several interfaces with the same label the first is the one that is selected.
pub proof fn first_of_the_same_label(ifaces: Seq<InterfaceInfo>, label: Seq<char>, i: int, j: int)
    requires
        is_first_labelled(ifaces, label, i),
        0 <= j < ifaces.len(),
        ifaces[j].label_text() == label,
    ensures
        0 <= i <= j,
        ifaces[i].label_text() == label,
{
}

} // verus!
