//! The DHCP servers that a scan has found.

use crate::addr::{Ipv4Addr, MacAddr};
use crate::text::{decimal, push_decimal};
use std::collections::HashMap;
use vstd::prelude::*;
use vstd::std_specs::iter::IteratorSpec;

verus! {

broadcast use vstd::std_specs::hash::group_hash_axioms;

/// A server that was found: its address, its Ethernet address once that is
/// known, and how often it has answered.
#[derive(Clone, Copy, PartialEq, Eq, Structural, Debug)]
pub struct ServerEntry {
    pub ip: Ipv4Addr,
    pub mac: Option<MacAddr>,
    pub response_count: u32,
}

impl ServerEntry {
    /// The line that shows the server to the user: its address, its Ethernet
    /// address where it is known, and how often it has answered.
    pub open spec fn text(self) -> Seq<char> {
        match self.mac {
            Some(mac) => self.ip.text() + "  |  "@ + mac.text() + " (响应 "@ + decimal(
                self.response_count as nat,
            ) + " 次)"@,
            None => self.ip.text() + "  |  MAC 未解析 (响应 "@ + decimal(
                self.response_count as nat,
            ) + " 次)"@,
        }
    }

    /// The line that shows the server to the user.
    pub fn display(&self) -> (r: String)
        ensures
            r@ == self.text(),
    {
        let mut text = String::new();
        self.ip.push_text(&mut text);
        assert(text@ =~= self.ip.text());
        match self.mac {
            Some(mac) => {
                text.append("  |  ");
                text.append(mac.to_text().as_str());
                text.append(" (响应 ");
            },
            None => {
                text.append("  |  MAC 未解析 (响应 ");
            },
        }
        push_decimal(&mut text, self.response_count as u64);
        text.append(" 次)");
        text
    }
}

// ---------------------------------------------------------------------------
// The table

/// Every server stands in the table under its own address.
pub open spec fn keyed_by_address(table: Map<u32, ServerEntry>) -> bool {
    forall|key: u32| #[trigger] table.contains_key(key) ==> table[key].ip.bits == key
}

/// Whether one more answer of `ip` can be counted.
pub open spec fn can_count(table: Map<u32, ServerEntry>, ip: Ipv4Addr) -> bool {
    table.contains_key(ip.bits) ==> table[ip.bits].response_count < u32::MAX
}

/// The table after one more offer of `ip`.
pub open spec fn offer_recorded(table: Map<u32, ServerEntry>, ip: Ipv4Addr) -> Map<
    u32,
    ServerEntry,
> {
    let known = if table.contains_key(ip.bits) {
        table[ip.bits]
    } else {
        ServerEntry { ip, mac: None, response_count: 0 }
    };
    table.insert(
        ip.bits,
        ServerEntry { response_count: (known.response_count + 1) as u32, ..known },
    )
}

/// The table after `ip` answered from `mac` when it was asked alone. The answer
/// counts for a server that had not answered the broadcast.
pub open spec fn answer_recorded(
    table: Map<u32, ServerEntry>,
    ip: Ipv4Addr,
    mac: MacAddr,
    counts: bool,
) -> Map<u32, ServerEntry> {
    if table.contains_key(ip.bits) {
        let known = table[ip.bits];
        let response_count = if counts {
            (known.response_count + 1) as u32
        } else {
            known.response_count
        };
        table.insert(ip.bits, ServerEntry { ip: known.ip, mac: Some(mac), response_count })
    } else {
        table.insert(ip.bits, ServerEntry { ip, mac: Some(mac), response_count: 1 })
    }
}

/// The table after the Ethernet address of `ip` became known.
pub open spec fn mac_recorded(table: Map<u32, ServerEntry>, ip: Ipv4Addr, mac: MacAddr) -> Map<
    u32,
    ServerEntry,
> {
    if table.contains_key(ip.bits) {
        table.insert(ip.bits, ServerEntry { mac: Some(mac), ..table[ip.bits] })
    } else {
        table
    }
}

/// Whether `addresses` holds the address of every server once, and nothing else.
pub open spec fn lists_addresses(addresses: Seq<Ipv4Addr>, table: Map<u32, ServerEntry>) -> bool {
    &&& forall|i: int|
        0 <= i < addresses.len() ==> table.contains_key(#[trigger] addresses[i].bits)
    &&& forall|i: int, j: int|
        0 <= i < j < addresses.len() ==> #[trigger] addresses[i] != #[trigger] addresses[j]
    &&& forall|key: u32| #[trigger]
        table.contains_key(key) ==> addresses.contains(Ipv4Addr { bits: key })
}

/// Whether `a` is shown above `b`: servers with a known Ethernet address come
/// first, and among equals the lower address does.
pub open spec fn shown_before(a: ServerEntry, b: ServerEntry) -> bool {
    if a.mac is Some != b.mac is Some {
        a.mac is Some
    } else {
        a.ip.bits < b.ip.bits
    }
}

/// Whether each entry of `list` is shown before all that follow it.
pub open spec fn in_order(list: Seq<ServerEntry>) -> bool {
    forall|i: int, j: int|
        0 <= i < j < list.len() ==> shown_before(#[trigger] list[i], #[trigger] list[j])
}

/// Whether `list` shows every server of the table once, in order.
pub open spec fn is_listing(list: Seq<ServerEntry>, table: Map<u32, ServerEntry>) -> bool {
    &&& forall|i: int|
        0 <= i < list.len() ==> table.contains_key((#[trigger] list[i]).ip.bits)
            && table[list[i].ip.bits] == list[i]
    &&& in_order(list)
    &&& forall|key: u32| #[trigger] table.contains_key(key) ==> list.contains(table[key])
}

/// The servers of a table in the order in which they are shown.
pub open spec fn listing_of(servers: Map<u32, ServerEntry>) -> Seq<ServerEntry> {
    choose|list: Seq<ServerEntry>| is_listing(list, servers)
}

/// The servers that were found, by address.
pub struct ServerTable {
    entries: HashMap<u32, ServerEntry>,
}

impl View for ServerTable {
    type V = Map<u32, ServerEntry>;

    closed spec fn view(&self) -> Map<u32, ServerEntry> {
        self.entries@
    }
}

impl ServerTable {
    /// A table without servers.
    pub fn new() -> (r: ServerTable)
        ensures
            r@ == Map::<u32, ServerEntry>::empty(),
    {
        ServerTable { entries: HashMap::new() }
    }

    /// How many servers there are.
    pub fn len(&self) -> (r: usize)
        ensures
            r == self@.len(),
    {
        self.entries.len()
    }

    /// Whether there is no server.
    pub fn is_empty(&self) -> (r: bool)
        ensures
            r == (self@ == Map::<u32, ServerEntry>::empty()),
    {
        let empty = self.entries.is_empty();
        proof {
            if empty {
                assert(self@.dom() =~= Set::<u32>::empty());
                assert(self@ =~= Map::<u32, ServerEntry>::empty());
            }
        }
        empty
    }

    /// The server with address `ip`.
    pub fn get(&self, ip: Ipv4Addr) -> (r: Option<ServerEntry>)
        ensures
            r == self@.get(ip.bits),
    {
        match self.entries.get(&ip.bits) {
            Some(entry) => Some(*entry),
            None => None,
        }
    }

    /// Whether one more answer of `ip` can be counted.
    pub fn has_room(&self, ip: Ipv4Addr) -> (r: bool)
        ensures
            r == can_count(self@, ip),
    {
        match self.entries.get(&ip.bits) {
            Some(entry) => entry.response_count < u32::MAX,
            None => true,
        }
    }

    /// Counts an offer of `ip`.
    pub fn record_offer(&mut self, ip: Ipv4Addr)
        requires
            can_count(old(self)@, ip),
        ensures
            final(self)@ == offer_recorded(old(self)@, ip),
    {
        let entry = self.entries.entry(ip.bits).or_insert(
            ServerEntry { ip, mac: None, response_count: 0 },
        );
        entry.response_count = entry.response_count + 1;
    }

    /// Notes that `ip` answered from `mac` when it was asked alone.
    pub fn record_answer(&mut self, ip: Ipv4Addr, mac: MacAddr, counts: bool)
        requires
            counts ==> can_count(old(self)@, ip),
        ensures
            final(self)@ == answer_recorded(old(self)@, ip, mac, counts),
    {
        match self.get(ip) {
            Some(known) => {
                let response_count: u32 = if counts {
                    known.response_count + 1
                } else {
                    known.response_count
                };
                self.entries.insert(
                    ip.bits,
                    ServerEntry { ip: known.ip, mac: Some(mac), response_count },
                );
            },
            None => {
                self.entries.insert(
                    ip.bits,
                    ServerEntry { ip, mac: Some(mac), response_count: 1 },
                );
            },
        }
    }

    /// Notes the Ethernet address of `ip`, if `ip` is in the table.
    pub fn record_mac(&mut self, ip: Ipv4Addr, mac: MacAddr)
        ensures
            final(self)@ == mac_recorded(old(self)@, ip, mac),
    {
        if let Some(known) = self.get(ip) {
            self.entries.insert(
                ip.bits,
                ServerEntry {
                    ip: known.ip,
                    mac: Some(mac),
                    response_count: known.response_count,
                },
            );
        }
    }

    /// The addresses of all servers, in no particular order.
    pub fn addresses(&self) -> (r: Vec<Ipv4Addr>)
        ensures
            lists_addresses(r@, self@),
    {
        let mut found: Vec<Ipv4Addr> = Vec::new();
        let ghost order = vstd::std_specs::hash::spec_keys_iter(&self.entries).remaining();
        for key in keys: self.entries.keys()
            invariant
                keys.seq() == order,
                found@.len() == keys.index(),
                forall|i: int| 0 <= i < found@.len() ==> (#[trigger] found@[i]).bits == *order[i],
        {
            found.push(Ipv4Addr { bits: *key });
        }
        proof {
            assert(found@.len() == order.len());
            assert forall|i: int| 0 <= i < found@.len() implies self@.contains_key(
                #[trigger] found@[i].bits,
            ) by {
                assert(order.unref()[i] == *order[i]);
                assert(order.unref().to_set().contains(order.unref()[i]));
            }
            assert forall|i: int, j: int| 0 <= i < j < found@.len() implies #[trigger] found@[i]
                != #[trigger] found@[j] by {
                assert(order[i] != order[j]);
            }
            assert forall|key: u32| #[trigger] self@.contains_key(key) implies found@.contains(
                Ipv4Addr { bits: key },
            ) by {
                assert(order.unref().to_set().contains(key));
                let i = choose|i: int| 0 <= i < order.unref().len() && order.unref()[i] == key;
                assert(found@[i] == (Ipv4Addr { bits: key }));
            }
        }
        found
    }

    /// The servers in the order in which they are shown.
    pub fn listing(&self) -> (r: Vec<ServerEntry>)
        requires
            keyed_by_address(self@),
        ensures
            is_listing(r@, self@),
    {
        let addresses = self.addresses();
        let mut list: Vec<ServerEntry> = Vec::new();
        let mut next: usize = 0;
        while next < addresses.len()
            invariant
                next <= addresses@.len(),
                keyed_by_address(self@),
                lists_addresses(addresses@, self@),
                in_order(list@),
                forall|i: int|
                    0 <= i < list@.len() ==> self@.contains_key((#[trigger] list@[i]).ip.bits)
                        && self@[list@[i].ip.bits] == list@[i],
                forall|i: int|
                    0 <= i < list@.len() ==> addresses@.take(next as int).contains(
                        (#[trigger] list@[i]).ip,
                    ),
                forall|k: int|
                    0 <= k < next ==> list@.contains(self@[(#[trigger] addresses@[k]).bits]),
            decreases addresses@.len() - next,
        {
            let ghost before = list@;
            let address = addresses[next];
            assert(self@.contains_key(addresses@[next as int].bits));
            let entry = self.get(address).unwrap();
            assert forall|i: int| 0 <= i < list@.len() implies (#[trigger] list@[i]).ip.bits
                != entry.ip.bits by {
                let k = choose|k: int|
                    0 <= k < next && addresses@.take(next as int)[k] == list@[i].ip;
                assert(addresses@[k] != addresses@[next as int]);
            }
            let at = insert_in_order(&mut list, entry);
            proof {
                assert(list@[at as int] == entry);
                assert(addresses@.take(next + 1)[next as int] == entry.ip);
                assert forall|i: int| 0 <= i < list@.len() implies addresses@.take(
                    next + 1,
                ).contains((#[trigger] list@[i]).ip) by {
                    if i != at {
                        let e = if i < at {
                            before[i]
                        } else {
                            before[i - 1]
                        };
                        assert(list@[i] == e);
                        let k = choose|k: int|
                            0 <= k < next && addresses@.take(next as int)[k] == e.ip;
                        assert(addresses@.take(next + 1)[k] == e.ip);
                    }
                }
                assert forall|k: int| 0 <= k < next + 1 implies list@.contains(
                    self@[(#[trigger] addresses@[k]).bits],
                ) by {
                    if k < next {
                        let e = self@[addresses@[k].bits];
                        let i = choose|i: int| 0 <= i < before.len() && before[i] == e;
                        assert(list@[if i < at { i } else { i + 1 }] == e);
                    }
                }
            }
            next = next + 1;
        }
        proof {
            assert forall|key: u32| #[trigger] self@.contains_key(key) implies list@.contains(
                self@[key],
            ) by {
                let k = choose|k: int|
                    0 <= k < addresses@.len() && addresses@[k] == (Ipv4Addr { bits: key });
                assert(list@.contains(self@[addresses@[k].bits]));
            }
        }
        list
    }
}

/// Inserts `entry` where it belongs, and says where that is.
fn insert_in_order(list: &mut Vec<ServerEntry>, entry: ServerEntry) -> (at: usize)
    requires
        in_order(old(list)@),
        forall|i: int| 0 <= i < old(list)@.len() ==> (#[trigger] old(list)@[i]).ip.bits
            != entry.ip.bits,
    ensures
        at <= old(list)@.len(),
        final(list)@ == old(list)@.insert(at as int, entry),
        in_order(final(list)@),
{
    let mut at: usize = 0;
    while at < list.len() && is_shown_before(&list[at], &entry)
        invariant
            at <= list@.len(),
            list@ == old(list)@,
            forall|i: int| 0 <= i < at ==> shown_before(#[trigger] list@[i], entry),
        decreases list@.len() - at,
    {
        at = at + 1;
    }
    let ghost before = list@;
    list.insert(at, entry);
    assert forall|i: int, j: int| 0 <= i < j < list@.len() implies shown_before(
        #[trigger] list@[i],
        #[trigger] list@[j],
    ) by {
        if i == at {
            assert(shown_before(entry, before[at as int]));
            assert(list@[j] == before[j - 1]);
        }
    }
    at
}

fn is_shown_before(a: &ServerEntry, b: &ServerEntry) -> (r: bool)
    ensures
        r == shown_before(*a, *b),
{
    if a.mac.is_some() != b.mac.is_some() {
        a.mac.is_some()
    } else {
        a.ip.bits < b.ip.bits
    }
}

// ---------------------------------------------------------------------------
// Whom to ask

/// The address with octets `a.b.c.d`.
pub open spec fn dotted(a: int, b: int, c: int, d: int) -> Ipv4Addr {
    Ipv4Addr { bits: (a * 0x1000000 + b * 0x10000 + c * 0x100 + d) as u32 }
}

/// Addresses that routers commonly have.
pub open spec fn gateways() -> Seq<Ipv4Addr> {
    seq![
        dotted(192, 168, 0, 1),
        dotted(192, 168, 1, 1),
        dotted(192, 168, 2, 1),
        dotted(192, 168, 10, 1),
        dotted(192, 168, 31, 1),
        dotted(192, 168, 50, 1),
        dotted(192, 168, 100, 1),
        dotted(192, 168, 123, 1),
        dotted(192, 168, 254, 1),
        dotted(10, 0, 0, 1),
        dotted(10, 0, 0, 2),
        dotted(10, 1, 1, 1),
        dotted(172, 16, 0, 1),
        dotted(172, 16, 1, 1),
    ]
}

/// Addresses that routers commonly have.
pub fn common_gateways() -> (r: Vec<Ipv4Addr>)
    ensures
        r@ == gateways(),
{
    let list = vec![
        Ipv4Addr::new(192, 168, 0, 1),
        Ipv4Addr::new(192, 168, 1, 1),
        Ipv4Addr::new(192, 168, 2, 1),
        Ipv4Addr::new(192, 168, 10, 1),
        Ipv4Addr::new(192, 168, 31, 1),
        Ipv4Addr::new(192, 168, 50, 1),
        Ipv4Addr::new(192, 168, 100, 1),
        Ipv4Addr::new(192, 168, 123, 1),
        Ipv4Addr::new(192, 168, 254, 1),
        Ipv4Addr::new(10, 0, 0, 1),
        Ipv4Addr::new(10, 0, 0, 2),
        Ipv4Addr::new(10, 1, 1, 1),
        Ipv4Addr::new(172, 16, 0, 1),
        Ipv4Addr::new(172, 16, 1, 1),
    ];
    assert(list@ =~= gateways());
    list
}

/// `known`, followed by those of `more` that are not yet in the list.
pub open spec fn with_missing(known: Seq<Ipv4Addr>, more: Seq<Ipv4Addr>) -> Seq<Ipv4Addr>
    decreases more.len(),
{
    if more.len() == 0 {
        known
    } else {
        let list = with_missing(known, more.drop_last());
        if list.contains(more.last()) {
            list
        } else {
            list.push(more.last())
        }
    }
}

/// Whether `list` holds `ip`.
pub fn contains_address(list: &Vec<Ipv4Addr>, ip: Ipv4Addr) -> (r: bool)
    ensures
        r == list@.contains(ip),
{
    let mut at: usize = 0;
    while at < list.len()
        invariant
            at <= list@.len(),
            forall|i: int| 0 <= i < at ==> list@[i] != ip,
        decreases list@.len() - at,
    {
        if list[at].bits == ip.bits {
            assert(list@[at as int] == ip);
            return true;
        }
        at = at + 1;
    }
    false
}

/// Whom to ask one by one: the servers that were found, and the common gateways
/// that are not among them.
pub fn probe_targets(known: &Vec<Ipv4Addr>) -> (r: Vec<Ipv4Addr>)
    ensures
        r@ == with_missing(known@, gateways()),
{
    let more = common_gateways();
    let mut list: Vec<Ipv4Addr> = Vec::new();
    let mut copied: usize = 0;
    while copied < known.len()
        invariant
            copied <= known@.len(),
            list@ == known@.take(copied as int),
        decreases known@.len() - copied,
    {
        list.push(known[copied]);
        assert(known@.take(copied + 1) =~= known@.take(copied as int).push(known@[copied as int]));
        copied = copied + 1;
    }
    assert(known@.take(copied as int) =~= known@);
    let mut next: usize = 0;
    assert(more@.take(0) =~= Seq::<Ipv4Addr>::empty());
    while next < more.len()
        invariant
            next <= more@.len(),
            more@ == gateways(),
            list@ == with_missing(known@, more@.take(next as int)),
        decreases more@.len() - next,
    {
        let gateway = more[next];
        assert(more@.take(next + 1).drop_last() =~= more@.take(next as int));
        if !contains_address(&list, gateway) {
            list.push(gateway);
        }
        next = next + 1;
    }
    assert(more@.take(next as int) =~= more@);
    list
}

// ---------------------------------------------------------------------------
// Laws

/// Every table can be shown, and showing it shows each of its servers once.
pub proof fn every_server_is_listed(table: Map<u32, ServerEntry>)
    requires
        table.dom().finite(),
        keyed_by_address(table),
    ensures
        is_listing(listing_of(table), table),
        listing_of(table).len() == table.len(),
        listing_of(table).no_duplicates(),
{
    let list = some_listing(table);
    listing_is_unique(list, listing_of(table), table);
}

/// A listing of a table, made by inserting one server after the other.
proof fn some_listing(table: Map<u32, ServerEntry>) -> (list: Seq<ServerEntry>)
    requires
        table.dom().finite(),
        keyed_by_address(table),
    ensures
        is_listing(list, table),
        list.len() == table.len(),
    decreases table.len(),
{
    if table.len() == 0 {
        assert(table.dom() =~= Set::empty());
        seq![]
    } else {
        let key = table.dom().choose();
        let entry = table[key];
        let rest = table.remove(key);
        let before = some_listing(rest);
        let at = place_for(before, entry);
        place_is_right(before, entry);
        let list = before.insert(at, entry);
        assert forall|i: int| 0 <= i < list.len() implies table.contains_key(
            (#[trigger] list[i]).ip.bits,
        ) && table[list[i].ip.bits] == list[i] by {
            if i != at {
                let e = before[if i < at { i } else { i - 1 }];
                assert(list[i] == e);
                assert(rest.contains_key(e.ip.bits) && rest[e.ip.bits] == e);
            }
        }
        assert forall|i: int, j: int| 0 <= i < j < list.len() implies shown_before(
            #[trigger] list[i],
            #[trigger] list[j],
        ) by {
            let a = before[if i < at { i } else { i - 1 }];
            let b = before[if j < at { j } else { j - 1 }];
            assert(i != at ==> list[i] == a && rest.contains_key(a.ip.bits));
            assert(j != at ==> list[j] == b && rest.contains_key(b.ip.bits));
        }
        assert forall|k: u32| #[trigger] table.contains_key(k) implies list.contains(table[k]) by {
            if k == key {
                assert(list[at] == entry);
            } else {
                assert(rest.contains_key(k));
                let i = before.index_of(table[k]);
                assert(list[if i < at { i } else { i + 1 }] == table[k]);
            }
        }
        list
    }
}

/// Where `entry` belongs in a list that is in order.
spec fn place_for(list: Seq<ServerEntry>, entry: ServerEntry) -> int
    decreases list.len(),
{
    if list.len() == 0 || shown_before(list.last(), entry) {
        list.len() as int
    } else {
        place_for(list.drop_last(), entry)
    }
}

proof fn place_is_right(list: Seq<ServerEntry>, entry: ServerEntry)
    requires
        in_order(list),
    ensures
        0 <= place_for(list, entry) <= list.len(),
        forall|i: int|
            0 <= i < place_for(list, entry) ==> shown_before(#[trigger] list[i], entry),
        forall|i: int|
            place_for(list, entry) <= i < list.len() ==> !shown_before(#[trigger] list[i], entry),
    decreases list.len(),
{
    if list.len() == 0 {
    } else if shown_before(list.last(), entry) {
        assert forall|i: int| 0 <= i < list.len() implies shown_before(#[trigger] list[i], entry) by {
            if i < list.len() - 1 {
                assert(shown_before(list[i], list[list.len() - 1]));
            }
        }
    } else {
        let front = list.drop_last();
        assert forall|i: int, j: int| 0 <= i < j < front.len() implies shown_before(
            #[trigger] front[i],
            #[trigger] front[j],
        ) by {
            assert(shown_before(list[i], list[j]));
        }
        place_is_right(front, entry);
        assert forall|i: int| 0 <= i < place_for(list, entry) implies shown_before(
            #[trigger] list[i],
            entry,
        ) by {
            assert(front[i] == list[i]);
        }
        assert forall|i: int| place_for(list, entry) <= i < list.len() implies !shown_before(
            #[trigger] list[i],
            entry,
        ) by {
            if i < front.len() {
                assert(front[i] == list[i]);
            }
        }
    }
}

/// The order in which servers are shown depends on the table alone: there is one
/// listing of it.
pub proof fn listing_is_unique(
    one: Seq<ServerEntry>,
    other: Seq<ServerEntry>,
    table: Map<u32, ServerEntry>,
)
    requires
        is_listing(one, table),
        is_listing(other, table),
    ensures
        one == other,
{
    listings_agree_up_to(one, other, table, one.len());
    listings_agree_up_to(other, one, table, other.len());
    assert(one.take(one.len() as int) =~= one);
    assert(other.take(other.len() as int) =~= other);
}

proof fn listings_agree_up_to(
    one: Seq<ServerEntry>,
    other: Seq<ServerEntry>,
    table: Map<u32, ServerEntry>,
    n: nat,
)
    requires
        is_listing(one, table),
        is_listing(other, table),
        n <= one.len(),
    ensures
        n <= other.len(),
        one.take(n as int) == other.take(n as int),
    decreases n,
{
    if n > 0 {
        let last = n - 1;
        listings_agree_up_to(one, other, table, last as nat);
        let a = one[last];
        assert(other.contains(a)) by {
            assert(table.contains_key(a.ip.bits));
        }
        let p = choose|p: int| 0 <= p < other.len() && other[p] == a;
        if p < last {
            assert(one.take(last)[p] == other.take(last)[p]);
            assert(shown_before(one[p], one[last]));
        }
        let b = other[last];
        assert(one.contains(b)) by {
            assert(table.contains_key(b.ip.bits));
        }
        let q = choose|q: int| 0 <= q < one.len() && one[q] == b;
        if q < last {
            assert(one.take(last)[q] == other.take(last)[q]);
            assert(shown_before(other[q], other[last]));
        }
        if a != b {
            assert(shown_before(other[last], other[p]));
            assert(shown_before(one[last], one[q]));
        }
        assert(one.take(n as int) =~= other.take(n as int)) by {
            assert forall|i: int| 0 <= i < n implies one[i] == other[i] by {
                if i < last {
                    assert(one.take(last)[i] == other.take(last)[i]);
                }
            }
        }
    }
}

/// Whatever is noted, every server stays in the table, under its own address,
/// and no answer is ever taken back.
pub proof fn nothing_is_forgotten(
    table: Map<u32, ServerEntry>,
    ip: Ipv4Addr,
    mac: MacAddr,
    counts: bool,
    key: u32,
)
    requires
        keyed_by_address(table),
        can_count(table, ip),
    ensures
        keyed_by_address(offer_recorded(table, ip)),
        keyed_by_address(answer_recorded(table, ip, mac, counts)),
        keyed_by_address(mac_recorded(table, ip, mac)),
        table.contains_key(key) ==> {
            &&& offer_recorded(table, ip).contains_key(key)
            &&& answer_recorded(table, ip, mac, counts).contains_key(key)
            &&& mac_recorded(table, ip, mac).contains_key(key)
            &&& table[key].response_count <= offer_recorded(table, ip)[key].response_count
            &&& table[key].response_count <= answer_recorded(
                table,
                ip,
                mac,
                counts,
            )[key].response_count
            &&& table[key].response_count == mac_recorded(table, ip, mac)[key].response_count
        },
{
}

/// The table after the offers of `ips`, one after the other.
pub open spec fn offers_recorded(table: Map<u32, ServerEntry>, ips: Seq<Ipv4Addr>) -> Map<
    u32,
    ServerEntry,
>
    decreases ips.len(),
{
    if ips.len() == 0 {
        table
    } else {
        offer_recorded(offers_recorded(table, ips.drop_last()), ips.last())
    }
}

/// How often `ip` is in `ips`.
pub open spec fn occurrences(ips: Seq<Ipv4Addr>, ip: Ipv4Addr) -> nat
    decreases ips.len(),
{
    if ips.len() == 0 {
        0
    } else {
        occurrences(ips.drop_last(), ip) + if ips.last() == ip {
            1nat
        } else {
            0nat
        }
    }
}

/// From an empty table, the servers that made an offer are in the table, no
/// others are, and each with the number of its offers.
pub proof fn offers_are_counted(ips: Seq<Ipv4Addr>, ip: Ipv4Addr)
    requires
        ips.len() <= u32::MAX,
    ensures
        ({
            let table = offers_recorded(Map::empty(), ips);
            &&& table.contains_key(ip.bits) <==> ips.contains(ip)
            &&& table.contains_key(ip.bits) ==> table[ip.bits] == (ServerEntry {
                ip,
                mac: None,
                response_count: occurrences(ips, ip) as u32,
            })
            &&& occurrences(ips, ip) <= ips.len()
            &&& occurrences(ips, ip) > 0 <==> ips.contains(ip)
        }),
    decreases ips.len(),
{
    if ips.len() > 0 {
        offers_are_counted(ips.drop_last(), ip);
        offers_are_counted(ips.drop_last(), ips.last());
        if ips.contains(ip) && ips.last() != ip {
            let i = choose|i: int| 0 <= i < ips.len() && ips[i] == ip;
            assert(ips.drop_last()[i] == ip);
        }
        if ips.last() == ip {
            assert(ips[ips.len() - 1] == ip);
        }
        if ips.drop_last().contains(ip) {
            let i = choose|i: int| 0 <= i < ips.len() - 1 && ips.drop_last()[i] == ip;
            assert(ips[i] == ip);
        }
        assert(ip.bits == ips.last().bits <==> ip == ips.last());
    }
}

/// Everybody is asked once: the targets are the servers that were found, in the
/// order given, followed by the remaining gateways, and no address comes twice.
pub proof fn targets_are_complete(known: Seq<Ipv4Addr>, more: Seq<Ipv4Addr>)
    requires
        known.no_duplicates(),
    ensures
        with_missing(known, more).no_duplicates(),
        known.len() <= with_missing(known, more).len() <= known.len() + more.len(),
        with_missing(known, more).take(known.len() as int) == known,
        forall|ip: Ipv4Addr| #[trigger]
            with_missing(known, more).contains(ip) <==> known.contains(ip) || more.contains(ip),
    decreases more.len(),
{
    let list = with_missing(known, more);
    if more.len() == 0 {
        assert(list.take(known.len() as int) =~= known);
    } else {
        let shorter = with_missing(known, more.drop_last());
        targets_are_complete(known, more.drop_last());
        assert(list.take(known.len() as int) =~= shorter.take(known.len() as int));
        assert forall|ip: Ipv4Addr| #[trigger] list.contains(ip) <==> known.contains(ip)
            || more.contains(ip) by {
            assert(more.contains(ip) <==> more.drop_last().contains(ip) || ip == more.last()) by {
                if more.contains(ip) && ip != more.last() {
                    let i = choose|i: int| 0 <= i < more.len() && more[i] == ip;
                    assert(more.drop_last()[i] == ip);
                }
                if more.drop_last().contains(ip) {
                    let i = choose|i: int|
                        0 <= i < more.len() - 1 && more.drop_last()[i] == ip;
                    assert(more[i] == ip);
                }
                assert(more[more.len() - 1] == more.last());
            }
            assert(list.contains(ip) <==> shorter.contains(ip) || ip == more.last()) by {
                if !shorter.contains(more.last()) {
                    assert(list[list.len() - 1] == more.last());
                    if shorter.contains(ip) {
                        let i = choose|i: int| 0 <= i < shorter.len() && shorter[i] == ip;
                        assert(list[i] == ip);
                    }
                }
            }
            assert(shorter.contains(ip) <==> known.contains(ip) || more.drop_last().contains(ip));
        }
    }
}

/// An offer counts once for its server, which is noted if it was not, and changes
/// nothing else.
pub proof fn offer_counts_once(table: Map<u32, ServerEntry>, ip: Ipv4Addr, other: u32)
    requires
        can_count(table, ip),
        other != ip.bits,
    ensures
        ({
            let after = offer_recorded(table, ip);
            &&& after.contains_key(ip.bits)
            &&& table.contains_key(ip.bits) ==> {
                &&& after[ip.bits].response_count == table[ip.bits].response_count + 1
                &&& after[ip.bits].ip == table[ip.bits].ip
                &&& after[ip.bits].mac == table[ip.bits].mac
            }
            &&& !table.contains_key(ip.bits) ==> after[ip.bits] == (ServerEntry {
                ip,
                mac: None,
                response_count: 1,
            })
            &&& after.contains_key(other) <==> table.contains_key(other)
            &&& table.contains_key(other) ==> after[other] == table[other]
        }),
{
}

/// An answer brings the Ethernet address that it came from, counts only if it is
/// to, and changes nothing else.
pub proof fn answer_brings_the_address(
    table: Map<u32, ServerEntry>,
    ip: Ipv4Addr,
    mac: MacAddr,
    counted: bool,
    other: u32,
)
    requires
        can_count(table, ip),
        other != ip.bits,
    ensures
        ({
            let after = answer_recorded(table, ip, mac, counted);
            &&& after.contains_key(ip.bits)
            &&& after[ip.bits].mac == Some(mac)
            &&& table.contains_key(ip.bits) ==> {
                &&& after[ip.bits].ip == table[ip.bits].ip
                &&& counted ==> after[ip.bits].response_count == table[ip.bits].response_count + 1
                &&& !counted ==> after[ip.bits].response_count == table[ip.bits].response_count
            }
            &&& !table.contains_key(ip.bits) ==> after[ip.bits].ip == ip
                && after[ip.bits].response_count == 1
            &&& after.contains_key(other) <==> table.contains_key(other)
            &&& table.contains_key(other) ==> after[other] == table[other]
        }),
{
}

/// Noting an Ethernet address changes nothing but that address, and only of a
/// server that is known.
pub proof fn address_is_noted_alone(
    table: Map<u32, ServerEntry>,
    ip: Ipv4Addr,
    mac: MacAddr,
    key: u32,
)
    ensures
        ({
            let after = mac_recorded(table, ip, mac);
            &&& after.contains_key(key) <==> table.contains_key(key)
            &&& table.contains_key(key) ==> after[key].ip == table[key].ip
                && after[key].response_count == table[key].response_count
            &&& table.contains_key(key) && key == ip.bits ==> after[key].mac == Some(mac)
            &&& table.contains_key(key) && key != ip.bits ==> after[key].mac == table[key].mac
        }),
{
}

/// In the list, servers whose Ethernet address is known stand above those whose is
/// not, and within each group the addresses rise.
pub proof fn listing_puts_resolved_servers_first(
    list: Seq<ServerEntry>,
    table: Map<u32, ServerEntry>,
    i: int,
    j: int,
)
    requires
        is_listing(list, table),
        0 <= i < j < list.len(),
    ensures
        list[i].mac is None ==> list[j].mac is None,
        (list[i].mac is Some <==> list[j].mac is Some) ==> list[i].ip.bits < list[j].ip.bits,
        table.contains_key(list[i].ip.bits) && table[list[i].ip.bits] == list[i],
{
    assert(shown_before(list[i], list[j]));
}

/// The line of a server tells its address, its Ethernet address or that it is not
/// known, and its response count.
pub proof fn line_tells_address_and_count(entry: ServerEntry)
    ensures
        ({
            let line = entry.text();
            let n = entry.ip.text().len() as int;
            let count = decimal(entry.response_count as nat);
            &&& line.take(n) == entry.ip.text()
            &&& line.skip(n).take(5) == "  |  "@
            &&& entry.mac matches Some(mac) ==> line.skip(n + 5) == mac.text() + " (响应 "@ + count
                + " 次)"@
            &&& entry.mac is None ==> line.skip(n + 5) == "MAC 未解析 (响应 "@ + count + " 次)"@
        }),
{
    let line = entry.text();
    let n = entry.ip.text().len() as int;
    let count = decimal(entry.response_count as nat);
    reveal_strlit("  |  ");
    reveal_strlit(" (响应 ");
    reveal_strlit(" 次)");
    reveal_strlit("  |  MAC 未解析 (响应 ");
    reveal_strlit("MAC 未解析 (响应 ");
    assert(line.take(n) =~= entry.ip.text());
    assert(line.skip(n).take(5) =~= "  |  "@);
    match entry.mac {
        Some(mac) => {
            assert(line.skip(n + 5) =~= mac.text() + " (响应 "@ + count + " 次)"@);
        },
        None => {
            assert(line.skip(n + 5) =~= "MAC 未解析 (响应 "@ + count + " 次)"@);
        },
    }
}

/// There is room for a count as long as it has not reached the largest number.
pub proof fn room_below_the_largest_count(table: Map<u32, ServerEntry>, ip: Ipv4Addr)
    ensures
        can_count(table, ip) <==> !table.contains_key(ip.bits)
            || table[ip.bits].response_count < 0xffff_ffff,
{
}

/// The servers come first, and after them, in their own order, the addresses that
/// are not among them.
pub proof fn missing_addresses_follow(known: Seq<Ipv4Addr>, more: Seq<Ipv4Addr>)
    requires
        known.no_duplicates(),
        more.no_duplicates(),
    ensures
        with_missing(known, more) == known + more.filter(|ip: Ipv4Addr| !known.contains(ip)),
    decreases more.len(),
{
    let missing = |ip: Ipv4Addr| !known.contains(ip);
    reveal(Seq::filter);
    if more.len() == 0 {
        assert(known + more.filter(missing) =~= known);
    } else {
        let front = more.drop_last();
        assert(front.no_duplicates()) by {
            assert forall|i: int, j: int| 0 <= i < front.len() && 0 <= j < front.len() && i
                != j implies front[i] != front[j] by {
                assert(more[i] != more[j]);
            }
        }
        missing_addresses_follow(known, front);
        targets_are_complete(known, front);
        assert(!front.contains(more.last())) by {
            if front.contains(more.last()) {
                let i = front.index_of(more.last());
                assert(more[i] == more[more.len() - 1]);
            }
        }
        assert(with_missing(known, more) =~= known + more.filter(missing));
    }
}

/// The addresses that routers commonly have are these fourteen.
pub proof fn fourteen_gateways()
    ensures
        gateways().len() == 14,
        gateways()[0].bits == 0xc0a8_0001,
        gateways()[1].bits == 0xc0a8_0101,
        gateways()[2].bits == 0xc0a8_0201,
        gateways()[3].bits == 0xc0a8_0a01,
        gateways()[4].bits == 0xc0a8_1f01,
        gateways()[5].bits == 0xc0a8_3201,
        gateways()[6].bits == 0xc0a8_6401,
        gateways()[7].bits == 0xc0a8_7b01,
        gateways()[8].bits == 0xc0a8_fe01,
        gateways()[9].bits == 0x0a00_0001,
        gateways()[10].bits == 0x0a00_0002,
        gateways()[11].bits == 0x0a01_0101,
        gateways()[12].bits == 0xac10_0001,
        gateways()[13].bits == 0xac10_0101,
        gateways().no_duplicates(),
{
}

} // verus!
