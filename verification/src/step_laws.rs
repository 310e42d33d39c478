//! What each step of a full scan does: how long is waited, what is noted, and what
//! comes next.

use crate::addr::{text_spells_the_octets, IpAddr, Ipv4Addr, MacAddr};
use crate::arp::{
    arp_next, asking_is_done_by_stages, attempt_listens_for_two_seconds,
    attempts_follow_each_other, came_at, is_reply_heard, ArpStage,
};
use crate::dhcp::{
    broadcast_route, broadcasts_go_to_every_station, discover_frame_fields, is_discover_message,
    DhcpOfferInfo,
};
use crate::scan::{
    choice_fits, ends_broadcasts, has_room, scan_next, scan_start, scan_step, scan_wants,
    start_lines, summary_lines, unicast_route, Choice, Outcome, ScanStage, ScanView,
};
use crate::scan_laws::{
    choice_of, found_server_is_shown, found_servers_stay, is_run, is_shown, moves,
    run_is_well_formed,
};
use crate::servers::{
    every_server_is_listed, fourteen_gateways, gateways, keyed_by_address, listing_of,
    lists_addresses, missing_addresses_follow, targets_are_complete, with_missing, ServerEntry,
};
use crate::text::{decimal, hex};
use crate::steps::{ActionView, Event};
use crate::wire::{arp_request, be16};
use vstd::prelude::*;

verus! {

/// The server that an offer comes from: the one that it names, else the sender, or
/// `0.0.0.0` where the sender has no IPv4 address.
pub open spec fn maker_of(info: DhcpOfferInfo, source: IpAddr) -> Ipv4Addr {
    match (info.server_id, source) {
        (Some(ip), _) => ip,
        (None, IpAddr::V4(ip)) => ip,
        (None, IpAddr::V6(_)) => Ipv4Addr { bits: 0 },
    }
}

/// Whether an event is an offer in transaction `xid` that `server` makes.
pub open spec fn is_offer_of(event: Event, xid: u32, server: Ipv4Addr) -> bool {
    event matches Event::Datagram { offer: Some(info), source, .. } && info.xid == xid && server
        == maker_of(info, source)
}

/// Whether an event is an offer in transaction `xid`.
pub open spec fn is_offer(event: Event, xid: u32) -> bool {
    event matches Event::Datagram { offer: Some(info), .. } && info.xid == xid
}

/// Whether two states differ in their stage and in nothing else.
pub open spec fn only_stage_differs(pre: ScanView, post: ScanView) -> bool {
    post == (ScanView { stage: post.stage, ..pre })
}

/// Whether the turn goes from target number `pos` to the next one, or the scan ends
/// with the last.
pub open spec fn turn_passes(pre: ScanView, post: ScanView, pos: usize) -> bool {
    if pos + 1 < pre.targets.len() {
        post.stage == (ScanStage::Resolve {
            pos: (pos + 1) as usize,
            arp: ArpStage::Ask { attempt: 1 },
        })
    } else {
        post.stage is Finished
    }
}

/// Whether everything but the servers and the stage stays.
pub open spec fn only_servers_change(pre: ScanView, post: ScanView) -> bool {
    post == (ScanView { stage: post.stage, servers: post.servers, ..pre })
}

/// Whether the tables are the same in all servers but that at `key`.
pub open spec fn same_elsewhere(
    before: Map<u32, ServerEntry>,
    after: Map<u32, ServerEntry>,
    key: u32,
) -> bool {
    forall|k: u32| k != key ==> (#[trigger] after.contains_key(k) <==> before.contains_key(k)) && (
    before.contains_key(k) ==> after[k] == before[k])
}

/// A broadcast is followed by collecting from the time at which it was sent,
/// whether or not the link took it.
pub proof fn collecting_begins_with_the_broadcast(pre: ScanView, event: Event, post: ScanView)
    requires
        moves(pre, event, post),
        pre.stage is Broadcast,
    ensures
        only_stage_differs(pre, post),
        event matches Event::Sent { now, .. } ==> post.stage == (ScanStage::Collect {
            round: pre.stage->Broadcast_round,
            since: now,
        }),
        event !is Sent ==> post == pre,
{
    let choice = choice_of(pre, event, post);
}

/// Offers are collected for two seconds, counted from when the round's own
/// broadcast was sent: the round goes on as long as they have not passed, whatever
/// comes, and ends when they have. After the third round the first target is asked.
pub proof fn round_collects_for_two_seconds(pre: ScanView, event: Event, post: ScanView)
    requires
        pre.wf(),
        moves(pre, event, post),
        pre.stage is Collect,
    ensures
        ({
            let round = pre.stage->Collect_round;
            let since = pre.stage->Collect_since;
            &&& (came_at(event) matches Some(now) ==> now < since + 2_000_000_000) ==> post.stage
                == pre.stage
            &&& (event is Datagram || event is Quiet) && came_at(event)->0 >= since + 2_000_000_000
                ==> if round < 3 {
                post.stage == (ScanStage::Broadcast { round: (round + 1) as u8 })
            } else {
                post.stage == (ScanStage::Resolve { pos: 0, arp: ArpStage::Ask { attempt: 1 } })
            }
            &&& event !is Datagram && event !is Quiet ==> post == pre
            &&& round <= 3
        }),
{
    let choice = choice_of(pre, event, post);
    if ends_broadcasts(pre, event) {
        targets_are_not_empty(choice.order);
        round_ends(pre, event, choice);
    } else {
        round_goes_on(pre, event, choice);
    }
}

proof fn targets_are_not_empty(order: Seq<Ipv4Addr>)
    requires
        order.no_duplicates(),
    ensures
        with_missing(order, gateways()).len() > 0,
{
    let list = with_missing(order, gateways());
    targets_are_complete(order, gateways());
    assert(gateways().contains(gateways()[0]));
    assert(list.contains(gateways()[0]));
}

proof fn round_ends(pre: ScanView, event: Event, choice: Choice)
    requires
        pre.wf(),
        pre.stage is Collect,
        ends_broadcasts(pre, event),
        with_missing(choice.order, gateways()).len() > 0,
    ensures
        scan_next(pre, event, choice).scan.stage == (ScanStage::Resolve {
            pos: 0,
            arp: ArpStage::Ask { attempt: 1 },
        }),
        pre.stage->Collect_round == 3,
        came_at(event)->0 >= pre.stage->Collect_since + 2_000_000_000,
        event is Datagram || event is Quiet,
{
}

proof fn round_goes_on(pre: ScanView, event: Event, choice: Choice)
    requires
        pre.wf(),
        pre.stage is Collect,
        !ends_broadcasts(pre, event),
    ensures
        ({
            let post = scan_next(pre, event, choice).scan;
            let round = pre.stage->Collect_round;
            let since = pre.stage->Collect_since;
            &&& (came_at(event) matches Some(now) ==> now < since + 2_000_000_000) ==> post.stage
                == pre.stage
            &&& (event is Datagram || event is Quiet) && came_at(event)->0 >= since + 2_000_000_000
                ==> round < 3 && post.stage == (ScanStage::Broadcast { round: (round + 1) as u8 })
            &&& event !is Datagram && event !is Quiet ==> post == pre
        }),
{
}

/// Every offer in the scan's transaction that comes while offers are collected
/// counts once for its server, at whatever time it comes, and every datagram counts
/// as received; nothing else changes.
pub proof fn collected_offers_count(pre: ScanView, event: Event, post: ScanView, server: Ipv4Addr)
    requires
        pre.wf(),
        has_room(pre, event),
        moves(pre, event, post),
        pre.stage is Collect,
    ensures
        post.received == pre.received + if event is Datagram {
            1nat
        } else {
            0nat
        },
        is_offer_of(event, pre.xid, server) ==> {
            let key = server.bits;
            &&& post.servers.contains_key(key)
            &&& pre.servers.contains_key(key) ==> post.servers[key] == (ServerEntry {
                response_count: (pre.servers[key].response_count + 1) as u32,
                ..pre.servers[key]
            }) && pre.servers[key].response_count < 0xffff_ffff
            &&& !pre.servers.contains_key(key) ==> post.servers[key] == (ServerEntry {
                ip: server,
                mac: None,
                response_count: 1,
            })
            &&& same_elsewhere(pre.servers, post.servers, key)
        },
        !is_offer(event, pre.xid) ==> post.servers == pre.servers,
{
    let choice = choice_of(pre, event, post);
    offer_is_counted(pre, event, choice, server);
}

proof fn offer_is_counted(pre: ScanView, event: Event, choice: Choice, server: Ipv4Addr)
    requires
        has_room(pre, event),
        pre.stage is Collect,
    ensures
        ({
            let post = scan_next(pre, event, choice).scan;
            let key = server.bits;
            &&& post.received == pre.received + if event is Datagram {
                1nat
            } else {
                0nat
            }
            &&& is_offer_of(event, pre.xid, server) ==> {
                &&& post.servers.contains_key(key)
                &&& pre.servers.contains_key(key) ==> post.servers[key] == (ServerEntry {
                    response_count: (pre.servers[key].response_count + 1) as u32,
                    ..pre.servers[key]
                }) && pre.servers[key].response_count < 0xffff_ffff
                &&& !pre.servers.contains_key(key) ==> post.servers[key] == (ServerEntry {
                    ip: server,
                    mac: None,
                    response_count: 1,
                })
                &&& same_elsewhere(pre.servers, post.servers, key)
            }
            &&& !is_offer(event, pre.xid) ==> post.servers == pre.servers
        }),
{
}

/// Asking a target for its address changes no server; once it is told the target is
/// sent a DISCOVER of its own, and once the attempts are used up the turn passes.
pub proof fn asking_a_target(pre: ScanView, event: Event, post: ScanView)
    requires
        pre.wf(),
        moves(pre, event, post),
        pre.stage is Resolve,
    ensures
        ({
            let pos = pre.stage->Resolve_pos;
            let arp = pre.stage->Resolve_arp;
            &&& post == (ScanView { stage: post.stage, probe: post.probe, ..pre })
            &&& match arp_next(arp, event, pre.targets[pos as int]) {
                ArpStage::Done { mac: Some(mac) } => post.stage matches ScanStage::Probe {
                    pos: asked,
                    mac: at,
                    ..
                } && asked == pos && at == mac,
                ArpStage::Done { mac: None } => turn_passes(pre, post, pos),
                next => post.stage == (ScanStage::Resolve { pos, arp: next }),
            }
        }),
{
    let choice = choice_of(pre, event, post);
    asking_goes_on(pre, event, choice);
}

proof fn asking_goes_on(pre: ScanView, event: Event, choice: Choice)
    requires
        pre.wf(),
        pre.stage is Resolve,
    ensures
        ({
            let post = scan_next(pre, event, choice).scan;
            let pos = pre.stage->Resolve_pos;
            let arp = pre.stage->Resolve_arp;
            &&& post == (ScanView { stage: post.stage, probe: post.probe, ..pre })
            &&& match arp_next(arp, event, pre.targets[pos as int]) {
                ArpStage::Done { mac: Some(mac) } => post.stage matches ScanStage::Probe {
                    pos: asked,
                    mac: at,
                    ..
                } && asked == pos && at == mac,
                ArpStage::Done { mac: None } => turn_passes(pre, post, pos),
                next => post.stage == (ScanStage::Resolve { pos, arp: next }),
            }
        }),
{
}

/// A DISCOVER to a target that was sent is followed by waiting from then on, in the
/// same transaction; one that was not sent lets the turn pass.
pub proof fn waiting_begins_with_the_probe(pre: ScanView, event: Event, post: ScanView)
    requires
        pre.wf(),
        moves(pre, event, post),
        pre.stage is Probe,
    ensures
        ({
            let pos = pre.stage->Probe_pos;
            &&& only_stage_differs(pre, post)
            &&& event matches Event::Sent { ok, now } ==> if ok {
                post.stage == (ScanStage::Await {
                    pos,
                    mac: pre.stage->Probe_mac,
                    xid: pre.stage->Probe_xid,
                    since: now,
                })
            } else {
                turn_passes(pre, post, pos)
            }
            &&& event !is Sent ==> post == pre
        }),
{
    let choice = choice_of(pre, event, post);
}

/// A target is waited for three seconds, counted from when its own DISCOVER was
/// sent. An offer in its transaction is taken as its answer whenever it comes: it
/// brings the Ethernet address, to the server itself where the broadcasts found it,
/// else to the one that the answer names, for which it also counts. Anything else
/// changes nothing until the time is over.
pub proof fn target_is_waited_for_three_seconds(
    pre: ScanView,
    event: Event,
    post: ScanView,
    server: Ipv4Addr,
)
    requires
        pre.wf(),
        has_room(pre, event),
        moves(pre, event, post),
        pre.stage is Await,
    ensures
        ({
            let pos = pre.stage->Await_pos;
            let mac = pre.stage->Await_mac;
            let xid = pre.stage->Await_xid;
            let since = pre.stage->Await_since;
            let target = pre.targets[pos as int];
            &&& is_offer_of(event, xid, server) ==> {
                let known = pos < pre.known;
                let key = if known {
                    target.bits
                } else {
                    server.bits
                };
                &&& only_servers_change(pre, post)
                &&& turn_passes(pre, post, pos)
                &&& post.servers.contains_key(key)
                &&& post.servers[key].mac == Some(mac)
                &&& post.servers[key].ip.bits == key
                &&& pre.servers.contains_key(key) ==> post.servers[key].response_count
                    == pre.servers[key].response_count + if known {
                    0int
                } else {
                    1int
                }
                &&& !pre.servers.contains_key(key) ==> post.servers[key].response_count == 1
                &&& same_elsewhere(pre.servers, post.servers, key)
            }
            &&& !is_offer(event, xid) && (came_at(event) matches Some(now) ==> now < since
                + 3_000_000_000) ==> post == pre
            &&& !is_offer(event, xid) && (event is Datagram || event is Quiet) && came_at(event)->0
                >= since + 3_000_000_000 ==> {
                &&& only_servers_change(pre, post)
                &&& turn_passes(pre, post, pos)
                &&& pos >= pre.known ==> post.servers == pre.servers
                &&& pos < pre.known ==> {
                    &&& post.servers.contains_key(target.bits)
                    &&& post.servers[target.bits] == (ServerEntry {
                        mac: Some(mac),
                        ..pre.servers[target.bits]
                    })
                    &&& same_elsewhere(pre.servers, post.servers, target.bits)
                }
            }
            &&& event !is Datagram && event !is Quiet ==> post == pre
        }),
{
    let choice = choice_of(pre, event, post);
    let pos = pre.stage->Await_pos;
    if pos < pre.known {
        assert(pre.servers.contains_key(pre.targets[pos as int].bits));
    }
    match event {
        Event::Datagram { .. } => {
            if is_offer(event, pre.stage->Await_xid) {
                if is_offer_of(event, pre.stage->Await_xid, server) {
                    answer_is_taken(pre, event, choice, server);
                }
            } else {
                silence_is_waited_out(pre, event, choice);
            }
        },
        Event::Quiet { .. } => silence_is_waited_out(pre, event, choice),
        _ => {},
    }
}

proof fn answer_is_taken(pre: ScanView, event: Event, choice: Choice, server: Ipv4Addr)
    requires
        pre.wf(),
        has_room(pre, event),
        pre.stage is Await,
        is_offer_of(event, pre.stage->Await_xid, server),
        pre.stage->Await_pos < pre.known ==> pre.servers.contains_key(
            pre.targets[pre.stage->Await_pos as int].bits,
        ),
    ensures
        ({
            let post = scan_next(pre, event, choice).scan;
            let pos = pre.stage->Await_pos;
            let known = pos < pre.known;
            let key = if known {
                pre.targets[pos as int].bits
            } else {
                server.bits
            };
            &&& only_servers_change(pre, post)
            &&& turn_passes(pre, post, pos)
            &&& post.servers.contains_key(key)
            &&& post.servers[key].mac == Some(pre.stage->Await_mac)
            &&& post.servers[key].ip.bits == key
            &&& pre.servers.contains_key(key) ==> post.servers[key].response_count
                == pre.servers[key].response_count + if known {
                0int
            } else {
                1int
            }
            &&& !pre.servers.contains_key(key) ==> post.servers[key].response_count == 1
            &&& same_elsewhere(pre.servers, post.servers, key)
        }),
{
    let post = scan_next(pre, event, choice).scan;
    assert(post.targets == pre.targets);
}

proof fn silence_is_waited_out(pre: ScanView, event: Event, choice: Choice)
    requires
        pre.wf(),
        pre.stage is Await,
        event is Datagram || event is Quiet,
        !is_offer(event, pre.stage->Await_xid),
        pre.stage->Await_pos < pre.known ==> pre.servers.contains_key(
            pre.targets[pre.stage->Await_pos as int].bits,
        ),
    ensures
        ({
            let post = scan_next(pre, event, choice).scan;
            let pos = pre.stage->Await_pos;
            let target = pre.targets[pos as int];
            if came_at(event)->0 < pre.stage->Await_since + 3_000_000_000 {
                post == pre
            } else {
                &&& only_servers_change(pre, post)
                &&& turn_passes(pre, post, pos)
                &&& pos >= pre.known ==> post.servers == pre.servers
                &&& pos < pre.known ==> {
                    &&& post.servers.contains_key(target.bits)
                    &&& post.servers[target.bits] == (ServerEntry {
                        mac: Some(pre.stage->Await_mac),
                        ..pre.servers[target.bits]
                    })
                    &&& same_elsewhere(pre.servers, post.servers, target.bits)
                }
            }
        }),
{
}

/// A finished scan stays as it is.
pub proof fn finished_scan_stays(pre: ScanView, event: Event, post: ScanView)
    requires
        moves(pre, event, post),
        pre.stage is Finished,
    ensures
        post == pre,
{
    let choice = choice_of(pre, event, post);
}

// ---------------------------------------------------------------------------
// Over whole runs

/// Whether all events of a run from step `from` on and before step `to` came, as
/// far as they tell, before `end`.
pub open spec fn all_came_before(events: Seq<Event>, from: int, to: int, end: int) -> bool {
    forall|k: int|
        from <= k < to ==> (came_at(#[trigger] events[k]) matches Some(now) ==> now < end)
}

/// After each of the broadcasts offers are collected for two seconds, whatever
/// comes.
pub proof fn collecting_lasts(states: Seq<ScanView>, events: Seq<Event>, i: int, j: int)
    requires
        is_run(states, events),
        0 <= i < j <= events.len(),
        states[i].stage is Broadcast,
        events[i] is Sent,
        all_came_before(events, i + 1, j, events[i]->Sent_now + 2_000_000_000),
    ensures
        states[j].stage == (ScanStage::Collect {
            round: states[i].stage->Broadcast_round,
            since: events[i]->Sent_now,
        }),
    decreases j,
{
    if j == i + 1 {
        collecting_begins_with_the_broadcast(states[i], events[i], states[i + 1]);
    } else {
        collecting_lasts(states, events, i, j - 1);
        run_is_well_formed(states, events, j - 1);
        assert(came_at(events[j - 1]) matches Some(now) ==> now < events[i]->Sent_now
            + 2_000_000_000);
        round_collects_for_two_seconds(states[j - 1], events[j - 1], states[j]);
    }
}

/// Every offer in the scan's transaction that comes within two seconds after any of
/// the broadcasts is recorded: it counts for its server, which is shown from then
/// on to the end.
pub proof fn offers_in_time_are_recorded(
    states: Seq<ScanView>,
    events: Seq<Event>,
    i: int,
    j: int,
    n: int,
    server: Ipv4Addr,
)
    requires
        is_run(states, events),
        0 <= i < j < n <= events.len(),
        states[i].stage is Broadcast,
        events[i] is Sent,
        all_came_before(events, i + 1, j, events[i]->Sent_now + 2_000_000_000),
        is_offer_of(events[j], states[0].xid, server),
    ensures
        states[j + 1].servers.contains_key(server.bits),
        states[j + 1].servers[server.bits].response_count == if states[j].servers.contains_key(
            server.bits,
        ) {
            states[j].servers[server.bits].response_count + 1
        } else {
            1
        },
        states[n].servers.contains_key(server.bits),
        is_shown(states[n], server),
{
    collecting_lasts(states, events, i, j);
    run_is_well_formed(states, events, j);
    run_is_well_formed(states, events, n);
    collected_offers_count(states[j], events[j], states[j + 1], server);
    found_servers_stay(states, events, j + 1, n, server.bits);
    found_server_is_shown(states[n], server);
}

/// A target is waited for three seconds after its own DISCOVER was sent, whatever
/// comes that is not its answer.
pub proof fn waiting_lasts(states: Seq<ScanView>, events: Seq<Event>, i: int, j: int)
    requires
        is_run(states, events),
        0 <= i < j <= events.len(),
        states[i].stage is Probe,
        events[i] matches Event::Sent { ok: true, .. },
        all_came_before(events, i + 1, j, events[i]->Sent_now + 3_000_000_000),
        forall|k: int|
            i < k < j ==> !is_offer(#[trigger] events[k], states[i].stage->Probe_xid),
    ensures
        states[j] == (ScanView {
            stage: ScanStage::Await {
                pos: states[i].stage->Probe_pos,
                mac: states[i].stage->Probe_mac,
                xid: states[i].stage->Probe_xid,
                since: events[i]->Sent_now,
            },
            ..states[i]
        }),
    decreases j,
{
    run_is_well_formed(states, events, j - 1);
    if j == i + 1 {
        waiting_begins_with_the_probe(states[i], events[i], states[i + 1]);
    } else {
        waiting_lasts(states, events, i, j - 1);
        let event = events[j - 1];
        assert(!is_offer(event, states[i].stage->Probe_xid));
        target_is_waited_for_three_seconds(
            states[j - 1],
            event,
            states[j],
            Ipv4Addr { bits: 0 },
        );
    }
}

/// The answer of a target that comes within three seconds after its DISCOVER was
/// sent is always recorded: the server that it stands for has the Ethernet address
/// that was asked, and is shown from then on to the end.
pub proof fn answers_in_time_are_recorded(
    states: Seq<ScanView>,
    events: Seq<Event>,
    i: int,
    j: int,
    n: int,
    server: Ipv4Addr,
)
    requires
        is_run(states, events),
        0 <= i < j < n <= events.len(),
        states[i].stage is Probe,
        events[i] matches Event::Sent { ok: true, .. },
        all_came_before(events, i + 1, j, events[i]->Sent_now + 3_000_000_000),
        forall|k: int|
            i < k < j ==> !is_offer(#[trigger] events[k], states[i].stage->Probe_xid),
        is_offer_of(events[j], states[i].stage->Probe_xid, server),
    ensures
        ({
            let pos = states[i].stage->Probe_pos;
            let shown = if pos < states[i].known {
                states[i].targets[pos as int]
            } else {
                server
            };
            &&& states[j + 1].servers.contains_key(shown.bits)
            &&& states[j + 1].servers[shown.bits].mac == Some(states[i].stage->Probe_mac)
            &&& states[n].servers.contains_key(shown.bits)
            &&& states[n].servers[shown.bits].mac is Some
            &&& is_shown(states[n], shown)
        }),
{
    let pos = states[i].stage->Probe_pos;
    let shown = if pos < states[i].known {
        states[i].targets[pos as int]
    } else {
        server
    };
    waiting_lasts(states, events, i, j);
    run_is_well_formed(states, events, j);
    run_is_well_formed(states, events, n);
    target_is_waited_for_three_seconds(states[j], events[j], states[j + 1], server);
    found_servers_stay(states, events, j + 1, n, shown.bits);
    found_server_is_shown(states[n], shown);
}

/// Whether, before step `to`, a target told nothing since step `from`.
pub open spec fn nothing_told(events: Seq<Event>, from: int, to: int, target: Ipv4Addr) -> bool {
    forall|k: int| from <= k < to ==> !is_reply_heard(#[trigger] events[k], target)
}

/// A reply of a target that is heard within two seconds after a question was sent
/// is always learnt: the target is sent a DISCOVER at the address in the reply.
pub proof fn replies_in_time_are_learnt(states: Seq<ScanView>, events: Seq<Event>, i: int, j: int)
    requires
        is_run(states, events),
        0 <= i < j < events.len(),
        states[i].stage matches ScanStage::Resolve { arp, .. } && arp is Ask,
        events[i] matches Event::Sent { ok: true, .. },
        all_came_before(events, i + 1, j, events[i]->Sent_now + 2_000_000_000),
        nothing_told(events, i + 1, j, asked_target(states[i])),
        is_reply_heard(events[j], asked_target(states[i])),
    ensures
        ({
            let bytes = events[j]->Heard_frame->0@;
            &&& states[j + 1].stage matches ScanStage::Probe { pos, mac, .. }
            &&& pos == states[i].stage->Resolve_pos
            &&& mac == MacAddr(bytes[22], bytes[23], bytes[24], bytes[25], bytes[26], bytes[27])
        }),
{
    listening_lasts(states, events, i, j);
    run_is_well_formed(states, events, j);
    let stage = states[i].stage->Resolve_arp;
    attempt_listens_for_two_seconds(
        stage->Ask_attempt,
        events[i]->Sent_now,
        events[j],
        asked_target(states[i]),
    );
    asking_a_target(states[j], events[j], states[j + 1]);
}

/// The target that is asked for its Ethernet address.
pub open spec fn asked_target(scan: ScanView) -> Ipv4Addr {
    scan.targets[scan.stage->Resolve_pos as int]
}

proof fn listening_lasts(states: Seq<ScanView>, events: Seq<Event>, i: int, j: int)
    requires
        is_run(states, events),
        0 <= i < j <= events.len(),
        states[i].stage matches ScanStage::Resolve { arp, .. } && arp is Ask,
        events[i] matches Event::Sent { ok: true, .. },
        all_came_before(events, i + 1, j, events[i]->Sent_now + 2_000_000_000),
        nothing_told(events, i + 1, j, asked_target(states[i])),
    ensures
        states[j].targets == states[i].targets,
        states[j].stage == (ScanStage::Resolve {
            pos: states[i].stage->Resolve_pos,
            arp: ArpStage::Listen {
                attempt: states[i].stage->Resolve_arp->Ask_attempt,
                since: events[i]->Sent_now,
            },
        }),
    decreases j,
{
    run_is_well_formed(states, events, j - 1);
    let attempt = states[i].stage->Resolve_arp->Ask_attempt;
    let target = asked_target(states[i]);
    if j == i + 1 {
        asking_a_target(states[i], events[i], states[j]);
        attempts_follow_each_other(attempt, events[i], target);
    } else {
        listening_lasts(states, events, i, j - 1);
        asking_a_target(states[j - 1], events[j - 1], states[j]);
        assert(!is_reply_heard(events[j - 1], target));
        attempt_listens_for_two_seconds(attempt, events[i]->Sent_now, events[j - 1], target);
    }
}

/// How many datagrams came in the first `n` steps while offers were collected.
pub open spec fn datagrams(states: Seq<ScanView>, events: Seq<Event>, n: int) -> nat
    decreases n,
{
    if n <= 0 {
        0
    } else {
        datagrams(states, events, n - 1) + if states[n - 1].stage is Collect && events[n
            - 1] is Datagram {
            1nat
        } else {
            0nat
        }
    }
}

/// Every datagram that came while offers were collected counts as received, and no
/// other.
pub proof fn datagrams_are_counted(states: Seq<ScanView>, events: Seq<Event>, n: int)
    requires
        is_run(states, events),
        0 <= n <= events.len(),
    ensures
        states[n].received == datagrams(states, events, n),
    decreases n,
{
    if n > 0 {
        datagrams_are_counted(states, events, n - 1);
        run_is_well_formed(states, events, n - 1);
        let pre = states[n - 1];
        let event = events[n - 1];
        let post = states[n];
        match pre.stage {
            ScanStage::Broadcast { .. } => collecting_begins_with_the_broadcast(pre, event, post),
            ScanStage::Collect { .. } => collected_offers_count(
                pre,
                event,
                post,
                Ipv4Addr { bits: 0 },
            ),
            ScanStage::Resolve { .. } => asking_a_target(pre, event, post),
            ScanStage::Probe { .. } => waiting_begins_with_the_probe(pre, event, post),
            ScanStage::Await { .. } => {
                let server = match event {
                    Event::Datagram { offer: Some(info), source, .. } => maker_of(info, source),
                    _ => Ipv4Addr { bits: 0 },
                };
                target_is_waited_for_three_seconds(pre, event, post, server);
            },
            ScanStage::Finished => finished_scan_stays(pre, event, post),
        }
    }
}

// ---------------------------------------------------------------------------
// Whom to ask

/// When the broadcasts are over, the targets are the servers that were found, each
/// once, and after them, in their own order, those of the fourteen common gateways
/// that were not found.
pub proof fn targets_follow_the_broadcasts(pre: ScanView, event: Event, post: ScanView)
    requires
        pre.wf(),
        has_room(pre, event),
        moves(pre, event, post),
        pre.stage is Collect,
        post.stage is Resolve,
    ensures
        ({
            let found = post.targets.take(post.known as int);
            &&& lists_addresses(found, post.servers)
            &&& post.targets == found + gateways().filter(|ip: Ipv4Addr| !found.contains(ip))
            &&& forall|ip: Ipv4Addr| #[trigger]
                post.targets.contains(ip) <==> post.servers.contains_key(ip.bits)
                    || gateways().contains(ip)
        }),
{
    let choice = choice_of(pre, event, post);
    let order = choice.order;
    targets_are_taken(pre, event, choice);
    fourteen_gateways();
    missing_addresses_follow(order, gateways());
    targets_are_complete(order, gateways());
    assert(post.targets.take(post.known as int) =~= order);
    assert forall|ip: Ipv4Addr| #[trigger] post.targets.contains(ip) <==> post.servers.contains_key(
        ip.bits,
    ) || gateways().contains(ip) by {
        if order.contains(ip) {
            let k = order.index_of(ip);
            assert(post.servers.contains_key(order[k].bits));
        }
        if post.servers.contains_key(ip.bits) {
            assert(order.contains(Ipv4Addr { bits: ip.bits }));
        }
    }
}

proof fn targets_are_taken(pre: ScanView, event: Event, choice: Choice)
    requires
        pre.wf(),
        choice_fits(pre, event, choice),
        pre.stage is Collect,
        scan_next(pre, event, choice).scan.stage is Resolve,
    ensures
        ({
            let post = scan_next(pre, event, choice).scan;
            &&& lists_addresses(choice.order, post.servers)
            &&& choice.order.no_duplicates()
            &&& post.targets == with_missing(choice.order, gateways())
            &&& post.known == choice.order.len()
        }),
{
}

// ---------------------------------------------------------------------------
// What is done

/// What is done in each stage of a scan: the broadcast or the target's own DISCOVER
/// is sent, the socket is read for 50 ms at a time, and a target is asked as
/// `asking_is_done_by_stages` says.
pub proof fn scan_is_done_by_stages(scan: ScanView)
    ensures
        match scan.stage {
            ScanStage::Broadcast { .. } => scan_wants(scan) == (ActionView::Send {
                frame: scan.discover,
            }),
            ScanStage::Collect { .. } => scan_wants(scan) == (ActionView::ReceiveDatagram {
                timeout_ms: 50,
            }),
            ScanStage::Resolve { pos, arp } => {
                &&& arp is Ask ==> scan_wants(scan) == (ActionView::Send {
                    frame: arp_request(scan.src_mac, scan.local_ip, scan.targets[pos as int]),
                })
                &&& arp is Listen ==> scan_wants(scan) == (ActionView::ReceiveFrame {
                    timeout_ms: 30,
                })
                &&& arp is Pause ==> scan_wants(scan) == (ActionView::Rest { millis: 300 })
            },
            ScanStage::Probe { .. } => scan_wants(scan) == (ActionView::Send {
                frame: scan.probe,
            }),
            ScanStage::Await { .. } => scan_wants(scan) == (ActionView::ReceiveDatagram {
                timeout_ms: 50,
            }),
            ScanStage::Finished => scan_wants(scan) == ActionView::Finish,
        },
{
    match scan.stage {
        ScanStage::Resolve { pos, arp } => asking_is_done_by_stages(
            arp,
            scan.src_mac,
            scan.local_ip,
            scan.targets[pos as int],
        ),
        _ => {},
    }
}

/// The DISCOVER to a target alone goes to the address that the target told and to
/// no other, from a station without an address, and is in the transaction in which
/// the answer is waited for.
pub proof fn probe_goes_to_the_target(scan: ScanView)
    requires
        scan.wf(),
        scan.stage is Probe,
    ensures
        scan.probe.len() == 299,
        scan.probe.subrange(0, 6) == scan.stage->Probe_mac.octets_view(),
        scan.probe.subrange(6, 12) == scan.src_mac.octets_view(),
        scan.probe.subrange(26, 30) == seq![0u8, 0u8, 0u8, 0u8],
        scan.probe.subrange(30, 34) == scan.targets[scan.stage->Probe_pos as int].octets_view(),
        scan.probe.subrange(34, 36) == seq![0u8, 68u8],
        scan.probe.subrange(36, 38) == seq![0u8, 67u8],
        is_discover_message(
            scan.probe.subrange(42, 299),
            scan.src_mac,
            scan.stage->Probe_xid,
        ),
{
    let target = scan.targets[scan.stage->Probe_pos as int];
    let route = unicast_route(scan.src_mac, scan.stage->Probe_mac, target);
    discover_frame_fields(scan.probe, route, scan.src_mac, scan.stage->Probe_xid);
    route_bytes();
}

/// The broadcast goes to every station, from a station without an address, and is
/// in the scan's transaction.
pub proof fn broadcast_goes_to_every_station(scan: ScanView)
    requires
        scan.wf(),
    ensures
        scan.discover.len() == 299,
        scan.discover.subrange(0, 6) == seq![255u8, 255u8, 255u8, 255u8, 255u8, 255u8],
        scan.discover.subrange(6, 12) == scan.src_mac.octets_view(),
        scan.discover.subrange(26, 30) == seq![0u8, 0u8, 0u8, 0u8],
        scan.discover.subrange(30, 34) == seq![255u8, 255u8, 255u8, 255u8],
        scan.discover.subrange(34, 36) == seq![0u8, 68u8],
        scan.discover.subrange(36, 38) == seq![0u8, 67u8],
        is_discover_message(scan.discover.subrange(42, 299), scan.src_mac, scan.xid),
{
    let route = broadcast_route(scan.src_mac);
    discover_frame_fields(scan.discover, route, scan.src_mac, scan.xid);
    broadcasts_go_to_every_station(scan.src_mac);
    route_bytes();
}

/// The bytes of the addresses and ports that the frames of a scan go from and to.
proof fn route_bytes()
    ensures
        be16(68) == seq![0u8, 68u8],
        be16(67) == seq![0u8, 67u8],
        (Ipv4Addr { bits: 0 }).octets_view() == seq![0u8, 0u8, 0u8, 0u8],
        (Ipv4Addr { bits: 0xffff_ffff }).octets_view() == seq![255u8, 255u8, 255u8, 255u8],
        MacAddr(255, 255, 255, 255, 255, 255).octets_view() == seq![
            255u8,
            255u8,
            255u8,
            255u8,
            255u8,
            255u8,
        ],
{
    assert(be16(68) =~= seq![0u8, 68u8]);
    assert(be16(67) =~= seq![0u8, 67u8]);
    text_spells_the_octets(Ipv4Addr { bits: 0 }, 0, 0, 0, 0);
    text_spells_the_octets(Ipv4Addr { bits: 0xffff_ffff }, 255, 255, 255, 255);
}

/// A scan begins with the first broadcast and knows nothing yet.
pub proof fn scan_begins_with_nothing(
    src_mac: MacAddr,
    local_ip: Ipv4Addr,
    xid: u32,
    discover: Seq<u8>,
)
    ensures
        ({
            let scan = scan_start(src_mac, local_ip, xid, discover);
            &&& scan.stage == (ScanStage::Broadcast { round: 1 })
            &&& scan.servers == Map::<u32, ServerEntry>::empty()
            &&& scan.received == 0
            &&& scan.targets.len() == 0
            &&& scan.src_mac == src_mac && scan.local_ip == local_ip
            &&& scan.xid == xid && scan.discover == discover
        }),
{
}

/// No event is turned away before a count has reached its largest number.
pub proof fn room_for_every_event(scan: ScanView, event: Event)
    requires
        scan.received < 0xffff_ffff_ffff_ffff,
        forall|key: u32| #[trigger]
            scan.servers.contains_key(key) ==> scan.servers[key].response_count < 0xffff_ffff,
    ensures
        has_room(scan, event),
{
}

// ---------------------------------------------------------------------------
// What is logged

proof fn choice_with_lines(
    pre: ScanView,
    event: Event,
    post: ScanView,
    lines: Seq<Seq<char>>,
) -> (choice: Choice)
    requires
        scan_step(pre, event, post, lines),
    ensures
        choice_fits(pre, event, choice),
        scan_next(pre, event, choice).scan == post,
        scan_next(pre, event, choice).lines == lines,
{
    choose|choice: Choice| #[trigger]
        choice_fits(pre, event, choice) && scan_next(pre, event, choice) == (Outcome {
            scan: post,
            lines,
        })
}

/// What is logged while offers are collected: each offer in the scan's transaction,
/// with its server and its sender, and at the end of a round what comes next; after
/// the third, how many datagrams came and how many servers were found.
pub proof fn collecting_is_logged(
    pre: ScanView,
    event: Event,
    post: ScanView,
    lines: Seq<Seq<char>>,
)
    requires
        pre.wf(),
        scan_step(pre, event, post, lines),
        pre.stage is Collect,
    ensures
        ({
            let noted: int = if is_offer(event, pre.xid) {
                1
            } else {
                0
            };
            &&& event matches Event::Datagram { offer: Some(info), source, .. } ==> (info.xid
                == pre.xid ==> lines.len() >= 1 && lines[0] == "  发现 DHCP 服务器 -> Server ID: "@
                + maker_of(info, source).text() + " (来源: "@ + source.text() + ")"@)
            &&& post.stage is Collect ==> lines.len() == noted
            &&& post.stage is Broadcast ==> {
                &&& lines.len() == noted + 1
                &&& lines[noted] == "发送第 "@ + decimal(post.stage->Broadcast_round as nat)
                    + " 次广播 DISCOVER..."@
            }
            &&& post.stage is Resolve ==> {
                &&& lines.len() == noted + 5
                &&& lines[noted] == "阶段一 UDP Socket 共收到 "@ + decimal(post.received) + " 个包"@
                &&& lines[noted + 1] == if post.servers == Map::<u32, ServerEntry>::empty() {
                    "未发现任何 DHCP 服务器响应（广播方式）。"@
                } else {
                    "阶段一共发现 "@ + decimal(post.servers.len()) + " 个 DHCP 服务器："@
                }
                &&& lines[noted + 4] == "检查 "@ + post.targets[0].text() + " ..."@
            }
        }),
{
    let choice = choice_with_lines(pre, event, post, lines);
    if post.stage is Resolve {
        collecting_end_is_logged(pre, event, choice);
    } else {
        collecting_goes_on_logged(pre, event, choice);
    }
}

proof fn collecting_end_is_logged(pre: ScanView, event: Event, choice: Choice)
    requires
        pre.wf(),
        pre.stage is Collect,
        scan_next(pre, event, choice).scan.stage is Resolve,
    ensures
        ({
            let post = scan_next(pre, event, choice).scan;
            let lines = scan_next(pre, event, choice).lines;
            let noted: int = if is_offer(event, pre.xid) {
                1
            } else {
                0
            };
            &&& event matches Event::Datagram { offer: Some(info), source, .. } ==> (info.xid
                == pre.xid ==> lines[0] == "  发现 DHCP 服务器 -> Server ID: "@ + maker_of(
                info,
                source,
            ).text() + " (来源: "@ + source.text() + ")"@)
            &&& lines.len() == noted + 5
            &&& lines[noted] == "阶段一 UDP Socket 共收到 "@ + decimal(post.received) + " 个包"@
            &&& lines[noted + 1] == if post.servers == Map::<u32, ServerEntry>::empty() {
                "未发现任何 DHCP 服务器响应（广播方式）。"@
            } else {
                "阶段一共发现 "@ + decimal(post.servers.len()) + " 个 DHCP 服务器："@
            }
            &&& lines[noted + 4] == "检查 "@ + post.targets[0].text() + " ..."@
        }),
{
}

proof fn collecting_goes_on_logged(pre: ScanView, event: Event, choice: Choice)
    requires
        pre.wf(),
        pre.stage is Collect,
        !(scan_next(pre, event, choice).scan.stage is Resolve),
    ensures
        ({
            let post = scan_next(pre, event, choice).scan;
            let lines = scan_next(pre, event, choice).lines;
            let noted: int = if is_offer(event, pre.xid) {
                1
            } else {
                0
            };
            &&& event matches Event::Datagram { offer: Some(info), source, .. } ==> (info.xid
                == pre.xid ==> lines.len() >= 1 && lines[0] == "  发现 DHCP 服务器 -> Server ID: "@
                + maker_of(info, source).text() + " (来源: "@ + source.text() + ")"@)
            &&& post.stage is Collect ==> lines.len() == noted
            &&& post.stage is Broadcast ==> {
                &&& lines.len() == noted + 1
                &&& lines[noted] == "发送第 "@ + decimal(post.stage->Broadcast_round as nat)
                    + " 次广播 DISCOVER..."@
            }
        }),
{
}

/// Whether the lines after the first `told` say what comes next: the target whose
/// turn it is, or the summary.
pub open spec fn tells_what_is_next(lines: Seq<Seq<char>>, told: int, post: ScanView) -> bool {
    if post.stage is Finished {
        lines.skip(told) == summary_lines(post.servers)
    } else {
        lines.len() == told + 1 && lines[told] == "检查 "@
            + post.targets[post.stage->Resolve_pos as int].text() + " ..."@
    }
}

/// What is logged when a target is asked for its address: that it is there, with
/// the address, or that it is not.
pub proof fn asking_is_logged(
    pre: ScanView,
    event: Event,
    post: ScanView,
    lines: Seq<Seq<char>>,
)
    requires
        pre.wf(),
        scan_step(pre, event, post, lines),
        pre.stage is Resolve,
    ensures
        ({
            let pos = pre.stage->Resolve_pos;
            let target = pre.targets[pos as int];
            match arp_next(pre.stage->Resolve_arp, event, target) {
                ArpStage::Done { mac: Some(mac) } => lines == seq![
                    "  "@ + target.text() + " 在线! MAC: "@ + mac.text(),
                ],
                ArpStage::Done { mac: None } => {
                    &&& lines[0] == if pos < pre.known {
                        "  "@ + target.text() + " ARP 解析失败，无法获取 MAC"@
                    } else {
                        "  "@ + target.text() + " 未响应 ARP（离线或不可达）"@
                    }
                    &&& tells_what_is_next(lines, 1, post)
                },
                _ => lines.len() == 0,
            }
        }),
{
    let choice = choice_with_lines(pre, event, post, lines);
    asking_lines(pre, event, choice);
}

proof fn asking_lines(pre: ScanView, event: Event, choice: Choice)
    requires
        pre.wf(),
        pre.stage is Resolve,
    ensures
        ({
            let post = scan_next(pre, event, choice).scan;
            let lines = scan_next(pre, event, choice).lines;
            let pos = pre.stage->Resolve_pos;
            let target = pre.targets[pos as int];
            match arp_next(pre.stage->Resolve_arp, event, target) {
                ArpStage::Done { mac: Some(mac) } => lines == seq![
                    "  "@ + target.text() + " 在线! MAC: "@ + mac.text(),
                ],
                ArpStage::Done { mac: None } => {
                    &&& lines[0] == if pos < pre.known {
                        "  "@ + target.text() + " ARP 解析失败，无法获取 MAC"@
                    } else {
                        "  "@ + target.text() + " 未响应 ARP（离线或不可达）"@
                    }
                    &&& tells_what_is_next(lines, 1, post)
                },
                _ => lines.len() == 0,
            }
        }),
{
    let post = scan_next(pre, event, choice).scan;
    let lines = scan_next(pre, event, choice).lines;
    if post.stage is Finished {
        assert(lines.skip(1) =~= summary_lines(post.servers));
    }
}

/// What is logged when a target is sent a DISCOVER of its own, and when the link
/// did not take a frame.
pub proof fn sending_is_logged(
    pre: ScanView,
    event: Event,
    post: ScanView,
    lines: Seq<Seq<char>>,
)
    requires
        pre.wf(),
        scan_step(pre, event, post, lines),
        event is Sent,
    ensures
        pre.stage is Broadcast ==> lines == if event->Sent_ok {
            Seq::<Seq<char>>::empty()
        } else {
            seq!["  [警告] 数据包发送失败"@]
        },
        pre.stage matches ScanStage::Probe { pos, mac, .. } ==> if event->Sent_ok {
            lines == seq![
                "  已向 "@ + pre.targets[pos as int].text() + " (MAC "@ + mac.text()
                    + ") 发送单播 DISCOVER..."@,
            ]
        } else {
            lines[0] == "  [警告] 单播探测包发送失败"@ && tells_what_is_next(lines, 1, post)
        },
{
    let choice = choice_with_lines(pre, event, post, lines);
    if pre.stage is Probe && post.stage is Finished {
        assert(lines.skip(1) =~= summary_lines(post.servers));
    }
}

/// What is logged when a target is waited for: its answer with the server that the
/// answer names, or in the end that none came.
pub proof fn waiting_is_logged(
    pre: ScanView,
    event: Event,
    post: ScanView,
    lines: Seq<Seq<char>>,
    server: Ipv4Addr,
)
    requires
        pre.wf(),
        scan_step(pre, event, post, lines),
        pre.stage is Await,
    ensures
        ({
            let pos = pre.stage->Await_pos;
            let target = pre.targets[pos as int];
            &&& is_offer_of(event, pre.stage->Await_xid, server) ==> {
                &&& lines[0] == "  ✅ "@ + target.text() + " 有响应！DHCP Server ID: "@
                    + server.text()
                &&& tells_what_is_next(lines, 1, post)
            }
            &&& !is_offer(event, pre.stage->Await_xid) && post.stage is Await ==> lines.len() == 0
            &&& !is_offer(event, pre.stage->Await_xid) && !(post.stage is Await) ==> {
                &&& lines[0] == if pos < pre.known {
                    "  "@ + target.text() + " 未响应单播 DHCP，但 ARP 成功，已补充 MAC"@
                } else {
                    "  "@ + target.text() + " 未响应（单播方式）"@
                }
                &&& tells_what_is_next(lines, 1, post)
            }
        }),
{
    let choice = choice_with_lines(pre, event, post, lines);
    if is_offer(event, pre.stage->Await_xid) {
        if is_offer_of(event, pre.stage->Await_xid, server) {
            answer_lines(pre, event, choice, server);
        }
    } else if event is Datagram || event is Quiet {
        silence_lines(pre, event, choice);
    }
}

proof fn answer_lines(pre: ScanView, event: Event, choice: Choice, server: Ipv4Addr)
    requires
        pre.wf(),
        pre.stage is Await,
        is_offer_of(event, pre.stage->Await_xid, server),
    ensures
        ({
            let post = scan_next(pre, event, choice).scan;
            let lines = scan_next(pre, event, choice).lines;
            let target = pre.targets[pre.stage->Await_pos as int];
            &&& lines[0] == "  ✅ "@ + target.text() + " 有响应！DHCP Server ID: "@ + server.text()
            &&& tells_what_is_next(lines, 1, post)
        }),
{
    let post = scan_next(pre, event, choice).scan;
    let lines = scan_next(pre, event, choice).lines;
    assert(post.targets == pre.targets);
    if post.stage is Finished {
        assert(lines.skip(1) =~= summary_lines(post.servers));
    }
}

proof fn silence_lines(pre: ScanView, event: Event, choice: Choice)
    requires
        pre.wf(),
        pre.stage is Await,
        event is Datagram || event is Quiet,
        !is_offer(event, pre.stage->Await_xid),
    ensures
        ({
            let post = scan_next(pre, event, choice).scan;
            let lines = scan_next(pre, event, choice).lines;
            let pos = pre.stage->Await_pos;
            let target = pre.targets[pos as int];
            if post.stage is Await {
                lines.len() == 0
            } else {
                &&& lines[0] == if pos < pre.known {
                    "  "@ + target.text() + " 未响应单播 DHCP，但 ARP 成功，已补充 MAC"@
                } else {
                    "  "@ + target.text() + " 未响应（单播方式）"@
                }
                &&& tells_what_is_next(lines, 1, post)
            }
        }),
{
    let post = scan_next(pre, event, choice).scan;
    let lines = scan_next(pre, event, choice).lines;
    assert(post.targets == pre.targets);
    if post.stage is Finished {
        assert(lines.skip(1) =~= summary_lines(post.servers));
    }
}

/// The summary has one line for each server that was found, in the order of the
/// list, between a title and a rule; without a server it says so.
pub proof fn summary_shows_every_server(servers: Map<u32, ServerEntry>, i: int)
    requires
        servers.dom().finite(),
        keyed_by_address(servers),
        0 <= i < servers.len(),
    ensures
        summary_lines(servers).len() == servers.len() + 4,
        summary_lines(servers)[2] == " 发现的 DHCP 服务器汇总："@,
        summary_lines(servers)[3 + i] == "  📡 "@ + listing_of(servers)[i].text(),
        summary_lines(Map::<u32, ServerEntry>::empty()) == seq!["（未发现任何 DHCP 服务器）"@],
{
    every_server_is_listed(servers);
}

/// A scan is announced with its transaction and the first broadcast.
pub proof fn scan_is_announced(xid: u32)
    ensures
        start_lines(xid)[0] == "本次扫描 XID: 0x"@ + hex(xid as nat, 8),
        start_lines(xid).last() == "发送第 "@ + decimal(1) + " 次广播 DISCOVER..."@,
        start_lines(xid).len() == 5,
{
}

} // verus!
