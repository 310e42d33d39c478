//! What holds of a full scan from its start to its end.

use crate::addr::{Ipv4Addr, MacAddr};
use crate::arp::{arp_start, heard_answer, ArpStage};
use crate::dhcp::{broadcast_route, is_discover_frame};
use crate::scan::{
    choice_fits, ends_broadcasts, has_room, offering_server, scan_next, scan_start, scan_step,
    scan_wants, step_keeps_wf, unicast_route, Choice, Outcome, ScanStage, ScanView, BROADCASTS,
};
use crate::servers::{
    every_server_is_listed, gateways, listing_of, lists_addresses, offers_recorded,
    targets_are_complete, with_missing,
};
use crate::steps::{ActionView, Event};
use crate::wire::arp_request;
use vstd::prelude::*;

verus! {

/// Whether `states` is what a scan goes through under `events`, from its start.
pub open spec fn is_run(states: Seq<ScanView>, events: Seq<Event>) -> bool {
    &&& states.len() == events.len() + 1
    &&& states[0] == scan_start(
        states[0].src_mac,
        states[0].local_ip,
        states[0].xid,
        states[0].discover,
    )
    &&& states[0].wf()
    &&& forall|i: int|
        0 <= i < events.len() ==> has_room(states[i], #[trigger] events[i]) && moves(
            states[i],
            events[i],
            states[i + 1],
        )
}

/// Whether `event` takes a scan from `pre` to `post`.
#[verifier::opaque]
pub open spec fn moves(pre: ScanView, event: Event, post: ScanView) -> bool {
    exists|lines: Seq<Seq<char>>| #[trigger] scan_step(pre, event, post, lines)
}

/// The choice that takes a scan from `pre` to `post`.
pub proof fn choice_of(pre: ScanView, event: Event, post: ScanView) -> (choice: Choice)
    requires
        moves(pre, event, post),
    ensures
        choice_fits(pre, event, choice),
        scan_next(pre, event, choice).scan == post,
{
    reveal(moves);
    let lines = choose|lines: Seq<Seq<char>>| #[trigger] scan_step(pre, event, post, lines);
    choose|choice: Choice| #[trigger]
        choice_fits(pre, event, choice) && scan_next(pre, event, choice) == (Outcome {
            scan: post,
            lines,
        })
}

/// Every state of a run is well formed, and the station, the transaction and the
/// frame that is broadcast never change.
pub proof fn run_is_well_formed(states: Seq<ScanView>, events: Seq<Event>, n: int)
    requires
        is_run(states, events),
        0 <= n <= events.len(),
    ensures
        states[n].wf(),
        states[n].src_mac == states[0].src_mac,
        states[n].local_ip == states[0].local_ip,
        states[n].xid == states[0].xid,
        states[n].discover == states[0].discover,
    decreases n,
{
    if n > 0 {
        run_is_well_formed(states, events, n - 1);
        let event = events[n - 1];
        let choice = choice_of(states[n - 1], event, states[n]);
        step_keeps_wf(states[n - 1], event, choice);
    }
}

// ---------------------------------------------------------------------------
// The broadcasts

/// How many of the first `n` steps hand the broadcast to the link.
pub open spec fn broadcasts(states: Seq<ScanView>, events: Seq<Event>, n: int) -> nat
    decreases n,
{
    if n <= 0 {
        0
    } else {
        broadcasts(states, events, n - 1) + if states[n - 1].stage is Broadcast && events[n
            - 1] is Sent {
            1nat
        } else {
            0nat
        }
    }
}

/// Three broadcasts are sent, never more, and never fewer before single targets
/// are asked.
pub proof fn three_broadcasts(states: Seq<ScanView>, events: Seq<Event>, n: int)
    requires
        is_run(states, events),
        0 <= n <= events.len(),
    ensures
        broadcasts(states, events, n) <= BROADCASTS,
        match states[n].stage {
            ScanStage::Broadcast { round } => broadcasts(states, events, n) == round - 1,
            ScanStage::Collect { round, .. } => broadcasts(states, events, n) == round,
            _ => broadcasts(states, events, n) == BROADCASTS,
        },
    decreases n,
{
    run_is_well_formed(states, events, n);
    if n > 0 {
        three_broadcasts(states, events, n - 1);
        run_is_well_formed(states, events, n - 1);
        let event = events[n - 1];
        let choice = choice_of(states[n - 1], event, states[n]);
    }
}

/// The servers whose offers are collected in the first `n` steps, in order.
pub open spec fn collected(states: Seq<ScanView>, events: Seq<Event>, n: int) -> Seq<Ipv4Addr>
    decreases n,
{
    if n <= 0 {
        seq![]
    } else {
        let before = collected(states, events, n - 1);
        match offering_server(events[n - 1], states[n - 1].xid) {
            Some(server) if states[n - 1].stage is Collect => before.push(server),
            _ => before,
        }
    }
}

/// Whether a scan still collects offers to its broadcasts.
pub open spec fn is_collecting(scan: ScanView) -> bool {
    scan.stage is Broadcast || scan.stage is Collect
}

/// The broadcasts find exactly the servers whose offers were collected, each
/// with the number of its offers; those are then the first targets.
pub proof fn broadcasts_find_the_offering_servers(
    states: Seq<ScanView>,
    events: Seq<Event>,
    n: int,
)
    requires
        is_run(states, events),
        0 <= n <= events.len(),
    ensures
        is_collecting(states[n]) ==> states[n].servers == offers_recorded(
            Map::empty(),
            collected(states, events, n),
        ),
        !is_collecting(states[n]) ==> lists_addresses(
            states[n].targets.take(states[n].known as int),
            offers_recorded(Map::empty(), collected(states, events, n)),
        ),
    decreases n,
{
    if n > 0 {
        broadcasts_find_the_offering_servers(states, events, n - 1);
        let pre = states[n - 1];
        let event = events[n - 1];
        let choice = choice_of(pre, event, states[n]);
        let before = collected(states, events, n - 1);
        let after = collected(states, events, n);
        if let Some(server) = offering_server(event, pre.xid) {
            assert(before.push(server).drop_last() =~= before);
        }
        if is_collecting(pre) && !is_collecting(states[n]) {
            let order = choice.order;
            assert(ends_broadcasts(pre, event));
            assert(order.no_duplicates());
            targets_are_complete(order, gateways());
            assert(states[n].targets == with_missing(order, gateways()));
        }
    }
}

// ---------------------------------------------------------------------------
// The targets

/// The target whose turn it is, if single targets are asked.
pub open spec fn turn(scan: ScanView) -> Option<usize> {
    match scan.stage {
        ScanStage::Resolve { pos, .. } => Some(pos),
        ScanStage::Probe { pos, .. } => Some(pos),
        ScanStage::Await { pos, .. } => Some(pos),
        _ => None,
    }
}

/// How far a scan has come, as a number that never falls.
pub open spec fn progress(scan: ScanView) -> int {
    match scan.stage {
        ScanStage::Broadcast { round } => 2 * round,
        ScanStage::Collect { round, .. } => 2 * round + 1,
        ScanStage::Resolve { pos, .. } => 2 * BROADCASTS + 2 + 3 * pos,
        ScanStage::Probe { pos, .. } => 2 * BROADCASTS + 3 + 3 * pos,
        ScanStage::Await { pos, .. } => 2 * BROADCASTS + 4 + 3 * pos,
        ScanStage::Finished => 2 * BROADCASTS + 2 + 3 * scan.targets.len(),
    }
}

/// How a step from `pre` to `post` goes on: never back, one target at a time, and
/// past a frame that was sent.
spec fn goes_forward(pre: ScanView, event: Event, post: ScanView) -> bool {
    &&& progress(pre) <= progress(post)
    &&& (pre.stage is Broadcast || pre.stage is Probe) && event is Sent ==> progress(pre)
        < progress(post)
    &&& !is_collecting(pre) ==> {
        &&& !is_collecting(post)
        &&& post.targets == pre.targets
        &&& post.known == pre.known
    }
    &&& is_collecting(pre) && !is_collecting(post) ==> post.stage == first_turn(0)
    &&& turn(pre) matches Some(pos) ==> {
        ||| turn(post) == Some(pos)
        ||| pos + 1 < pre.targets.len() && post.stage == first_turn(pos + 1)
        ||| pos + 1 == pre.targets.len() && post.stage is Finished
    }
    &&& pre.stage is Finished ==> post == pre
}

/// The stage in which the turn of target number `pos` begins.
pub open spec fn first_turn(pos: int) -> ScanStage {
    ScanStage::Resolve { pos: pos as usize, arp: arp_start() }
}

proof fn move_goes_forward(pre: ScanView, event: Event, post: ScanView)
    requires
        pre.wf(),
        has_room(pre, event),
        moves(pre, event, post),
    ensures
        goes_forward(pre, event, post),
{
    let choice = choice_of(pre, event, post);
    step_goes_forward(pre, event, choice);
}

proof fn step_goes_forward(pre: ScanView, event: Event, choice: Choice)
    requires
        pre.wf(),
        has_room(pre, event),
        choice_fits(pre, event, choice),
    ensures
        goes_forward(pre, event, scan_next(pre, event, choice).scan),
{
    match pre.stage {
        ScanStage::Collect { .. } => {
            if ends_broadcasts(pre, event) {
                last_round_goes_forward(pre, event, choice);
            } else {
                round_goes_forward(pre, event, choice);
            }
        },
        ScanStage::Resolve { .. } => resolve_goes_forward(pre, event, choice),
        ScanStage::Probe { .. } => probe_goes_forward(pre, event, choice),
        ScanStage::Await { .. } => await_goes_forward(pre, event, choice),
        _ => {},
    }
}

proof fn last_round_goes_forward(pre: ScanView, event: Event, choice: Choice)
    requires
        pre.wf(),
        choice_fits(pre, event, choice),
        ends_broadcasts(pre, event),
    ensures
        goes_forward(pre, event, scan_next(pre, event, choice).scan),
{
    let list = with_missing(choice.order, gateways());
    assert(choice.order.no_duplicates());
    targets_are_complete(choice.order, gateways());
    assert(gateways().contains(gateways()[0]));
    assert(list.contains(gateways()[0]));
}

proof fn round_goes_forward(pre: ScanView, event: Event, choice: Choice)
    requires
        pre.wf(),
        pre.stage is Collect,
        !ends_broadcasts(pre, event),
    ensures
        goes_forward(pre, event, scan_next(pre, event, choice).scan),
{
}

proof fn resolve_goes_forward(pre: ScanView, event: Event, choice: Choice)
    requires
        pre.wf(),
        pre.stage is Resolve,
    ensures
        goes_forward(pre, event, scan_next(pre, event, choice).scan),
{
}

proof fn probe_goes_forward(pre: ScanView, event: Event, choice: Choice)
    requires
        pre.wf(),
        pre.stage is Probe,
    ensures
        goes_forward(pre, event, scan_next(pre, event, choice).scan),
{
}

proof fn await_goes_forward(pre: ScanView, event: Event, choice: Choice)
    requires
        pre.wf(),
        pre.stage is Await,
    ensures
        goes_forward(pre, event, scan_next(pre, event, choice).scan),
{
}

/// A scan never goes back, and once single targets are asked they stay the same.
pub proof fn scan_goes_forward(states: Seq<ScanView>, events: Seq<Event>, i: int, j: int)
    requires
        is_run(states, events),
        0 <= i <= j <= events.len(),
    ensures
        progress(states[i]) <= progress(states[j]),
        !is_collecting(states[i]) ==> !is_collecting(states[j]) && states[j].targets
            == states[i].targets && states[j].known == states[i].known,
        states[i].stage is Finished ==> states[j] == states[i],
    decreases j,
{
    if i < j {
        scan_goes_forward(states, events, i, j - 1);
        run_is_well_formed(states, events, j - 1);
        move_goes_forward(states[j - 1], events[j - 1], states[j]);
    }
}

/// No DISCOVER to a single target is sent a second time, whether the link took
/// it or not.
pub proof fn probes_are_not_repeated(states: Seq<ScanView>, events: Seq<Event>, i: int, j: int)
    requires
        is_run(states, events),
        0 <= i < j < events.len(),
        states[i].stage is Probe,
        events[i] is Sent,
        states[j].stage is Probe,
        events[j] is Sent,
    ensures
        turn(states[i])->0 < turn(states[j])->0,
{
    run_is_well_formed(states, events, i);
    move_goes_forward(states[i], events[i], states[i + 1]);
    scan_goes_forward(states, events, i + 1, j);
}

/// When a scan is finished, every target had its turn: each was asked for its
/// Ethernet address.
pub proof fn every_target_has_its_turn(
    states: Seq<ScanView>,
    events: Seq<Event>,
    n: int,
    pos: usize,
)
    requires
        is_run(states, events),
        0 <= n <= events.len(),
        states[n].stage is Finished,
        pos < states[n].targets.len(),
    ensures
        exists|i: int|
            0 <= i < n && (#[trigger] states[i]).stage == first_turn(pos as int),
{
    turns_come_in_order(states, events, n, pos);
}

proof fn turns_come_in_order(states: Seq<ScanView>, events: Seq<Event>, n: int, pos: usize)
    requires
        is_run(states, events),
        0 <= n <= events.len(),
        match turn(states[n]) {
            Some(current) => pos <= current,
            None => states[n].stage is Finished && pos < states[n].targets.len(),
        },
    ensures
        exists|i: int|
            0 <= i <= n && (states[n].stage is Finished ==> i < n) && (
            #[trigger] states[i]).stage == first_turn(pos as int),
    decreases n,
{
    let stage = first_turn(pos as int);
    if states[n].stage != stage {
        assert(n > 0);
        let pre = states[n - 1];
        run_is_well_formed(states, events, n - 1);
        move_goes_forward(pre, events[n - 1], states[n]);
        turns_come_in_order(states, events, n - 1, pos);
        let i = choose|i: int| 0 <= i <= n - 1 && (#[trigger] states[i]).stage == stage;
        assert(states[i].stage == stage);
    }
}

// ---------------------------------------------------------------------------
// The servers

/// A step forgets no server and takes no answer back.
proof fn step_forgets_nothing(pre: ScanView, event: Event, choice: Choice, key: u32)
    requires
        pre.wf(),
        has_room(pre, event),
        choice_fits(pre, event, choice),
        pre.servers.contains_key(key),
    ensures
        ({
            let servers = scan_next(pre, event, choice).scan.servers;
            &&& servers.contains_key(key)
            &&& pre.servers[key].response_count <= servers[key].response_count
            &&& pre.servers[key].mac is Some ==> servers[key].mac is Some
        }),
{
}

/// A server that was found stays found, its answers stay counted, and its
/// Ethernet address stays known.
pub proof fn found_servers_stay(
    states: Seq<ScanView>,
    events: Seq<Event>,
    i: int,
    j: int,
    key: u32,
)
    requires
        is_run(states, events),
        0 <= i <= j <= events.len(),
        states[i].servers.contains_key(key),
    ensures
        states[j].servers.contains_key(key),
        states[i].servers[key].response_count <= states[j].servers[key].response_count,
        states[i].servers[key].mac is Some ==> states[j].servers[key].mac is Some,
    decreases j,
{
    if i < j {
        found_servers_stay(states, events, i, j - 1, key);
        run_is_well_formed(states, events, j - 1);
        let choice = choice_of(states[j - 1], events[j - 1], states[j]);
        step_forgets_nothing(states[j - 1], events[j - 1], choice, key);
    }
}

/// Whether the list that is shown after a scan holds a server at `ip`.
pub open spec fn is_shown(scan: ScanView, ip: Ipv4Addr) -> bool {
    exists|i: int|
        0 <= i < listing_of(scan.servers).len() && (#[trigger] listing_of(scan.servers)[i]).ip == ip
}

/// A server in the table is in the list that is shown.
pub proof fn found_server_is_shown(scan: ScanView, ip: Ipv4Addr)
    requires
        scan.wf(),
        scan.servers.contains_key(ip.bits),
    ensures
        is_shown(scan, ip),
{
    every_server_is_listed(scan.servers);
    let entry = scan.servers[ip.bits];
    let list = listing_of(scan.servers);
    assert(list.contains(entry));
    let i = list.index_of(entry);
    assert(list[i].ip == ip);
}

/// Every server that makes an offer while offers to the broadcasts are collected
/// is shown, from then on to the end.
pub proof fn every_offering_server_is_shown(
    states: Seq<ScanView>,
    events: Seq<Event>,
    i: int,
    n: int,
    server: Ipv4Addr,
)
    requires
        is_run(states, events),
        0 <= i < n <= events.len(),
        states[i].stage is Collect,
        offering_server(events[i], states[i].xid) == Some(server),
    ensures
        states[n].servers.contains_key(server.bits),
        is_shown(states[n], server),
{
    run_is_well_formed(states, events, i);
    run_is_well_formed(states, events, n);
    let choice = choice_of(states[i], events[i], states[i + 1]);
    offer_is_noted(states[i], events[i], choice);
    found_servers_stay(states, events, i + 1, n, server.bits);
    found_server_is_shown(states[n], server);
}

proof fn offer_is_noted(pre: ScanView, event: Event, choice: Choice)
    requires
        pre.stage is Collect,
        offering_server(event, pre.xid) is Some,
    ensures
        scan_next(pre, event, choice).scan.servers.contains_key(
            offering_server(event, pre.xid)->0.bits,
        ),
{
}

/// Every target that answers when it is asked alone is shown with its Ethernet
/// address: a server that the broadcasts found under its own address, another
/// one under the address that its answer names.
pub proof fn every_answering_server_is_shown(
    states: Seq<ScanView>,
    events: Seq<Event>,
    i: int,
    n: int,
    server: Ipv4Addr,
)
    requires
        is_run(states, events),
        0 <= i < n <= events.len(),
        states[i].stage is Await,
        offering_server(events[i], states[i].stage->Await_xid) == Some(server),
    ensures
        ({
            let pos = states[i].stage->Await_pos;
            let shown = if pos < states[i].known {
                states[i].targets[pos as int]
            } else {
                server
            };
            &&& states[n].servers.contains_key(shown.bits)
            &&& states[n].servers[shown.bits].mac is Some
            &&& is_shown(states[n], shown)
        }),
{
    run_is_well_formed(states, events, i);
    run_is_well_formed(states, events, n);
    let choice = choice_of(states[i], events[i], states[i + 1]);
    let pos = states[i].stage->Await_pos;
    let shown = if pos < states[i].known {
        states[i].targets[pos as int]
    } else {
        server
    };
    answer_is_noted(states[i], events[i], choice, shown);
    found_servers_stay(states, events, i + 1, n, shown.bits);
    found_server_is_shown(states[n], shown);
}

proof fn answer_is_noted(pre: ScanView, event: Event, choice: Choice, shown: Ipv4Addr)
    requires
        pre.stage is Await,
        offering_server(event, pre.stage->Await_xid) matches Some(server) && shown == if
            pre.stage->Await_pos < pre.known {
            pre.targets[pre.stage->Await_pos as int]
        } else {
            server
        },
    ensures
        ({
            let servers = scan_next(pre, event, choice).scan.servers;
            servers.contains_key(shown.bits) && servers[shown.bits].mac is Some
        }),
{
}

/// The server that an event of a run tells of: by an offer to the broadcasts, or
/// by the answer of a target that they did not find.
pub open spec fn offered(scan: ScanView, event: Event) -> Option<Ipv4Addr> {
    match scan.stage {
        ScanStage::Collect { .. } => offering_server(event, scan.xid),
        ScanStage::Await { pos, xid, .. } => if pos >= scan.known {
            offering_server(event, xid)
        } else {
            None
        },
        _ => None,
    }
}

/// Whether one of the first `n` steps told of a server at `ip`.
pub open spec fn was_offered(
    states: Seq<ScanView>,
    events: Seq<Event>,
    n: int,
    ip: Ipv4Addr,
) -> bool {
    exists|i: int| 0 <= i < n && #[trigger] offered(states[i], events[i]) == Some(ip)
}

/// The servers that are shown are exactly those that were told of: none is missed
/// and none is made up.
pub proof fn shown_servers_are_those_that_offered(
    states: Seq<ScanView>,
    events: Seq<Event>,
    n: int,
    ip: Ipv4Addr,
)
    requires
        is_run(states, events),
        0 <= n <= events.len(),
    ensures
        is_shown(states[n], ip) <==> was_offered(states, events, n, ip),
        states[n].servers.contains_key(ip.bits) <==> was_offered(states, events, n, ip),
{
    run_is_well_formed(states, events, n);
    if is_shown(states[n], ip) {
        every_server_is_listed(states[n].servers);
        let list = listing_of(states[n].servers);
        let i = choose|i: int| 0 <= i < list.len() && (#[trigger] list[i]).ip == ip;
        assert(states[n].servers.contains_key(list[i].ip.bits));
    }
    if states[n].servers.contains_key(ip.bits) {
        every_found_server_has_offered(states, events, n, ip.bits);
        found_server_is_shown(states[n], ip);
    }
    if was_offered(states, events, n, ip) {
        let i = choose|i: int| 0 <= i < n && #[trigger] offered(states[i], events[i]) == Some(ip);
        if states[i].stage is Collect {
            every_offering_server_is_shown(states, events, i, n, ip);
        } else {
            every_answering_server_is_shown(states, events, i, n, ip);
        }
    }
}

/// No server is made up: one that stands in the table was told of.
pub proof fn every_found_server_has_offered(
    states: Seq<ScanView>,
    events: Seq<Event>,
    n: int,
    key: u32,
)
    requires
        is_run(states, events),
        0 <= n <= events.len(),
        states[n].servers.contains_key(key),
    ensures
        was_offered(states, events, n, Ipv4Addr { bits: key }),
    decreases n,
{
    if n > 0 {
        let pre = states[n - 1];
        run_is_well_formed(states, events, n - 1);
        if pre.servers.contains_key(key) {
            every_found_server_has_offered(states, events, n - 1, key);
            let i = choose|i: int|
                0 <= i < n - 1 && #[trigger] offered(states[i], events[i]) == Some(
                    Ipv4Addr { bits: key },
                );
            assert(offered(states[i], events[i]) == Some(Ipv4Addr { bits: key }));
        } else {
            let choice = choice_of(pre, events[n - 1], states[n]);
            step_adds_the_offering_server(pre, events[n - 1], choice, key);
            assert(offered(states[n - 1], events[n - 1]) == Some(Ipv4Addr { bits: key }));
        }
    }
}

proof fn step_adds_the_offering_server(pre: ScanView, event: Event, choice: Choice, key: u32)
    requires
        pre.wf(),
        !pre.servers.contains_key(key),
        scan_next(pre, event, choice).scan.servers.contains_key(key),
    ensures
        offered(pre, event) == Some(Ipv4Addr { bits: key }),
{
    match pre.stage {
        ScanStage::Await { pos, .. } => {
            if pos < pre.known {
                assert(pre.servers.contains_key(pre.targets[pos as int].bits));
            }
        },
        _ => {},
    }
}

/// How many of the first `n` steps told of the server at `ip`.
pub open spec fn responses(states: Seq<ScanView>, events: Seq<Event>, n: int, ip: Ipv4Addr) -> nat
    decreases n,
{
    if n <= 0 {
        0
    } else {
        responses(states, events, n - 1, ip) + if offered(states[n - 1], events[n - 1]) == Some(
            ip,
        ) {
            1nat
        } else {
            0nat
        }
    }
}

/// The response count of a server is the number of times that it was told of, at
/// any time of a scan.
pub proof fn responses_are_counted(states: Seq<ScanView>, events: Seq<Event>, n: int, key: u32)
    requires
        is_run(states, events),
        0 <= n <= events.len(),
        states[n].servers.contains_key(key),
    ensures
        states[n].servers[key].response_count == responses(
            states,
            events,
            n,
            Ipv4Addr { bits: key },
        ),
{
    counts_follow_responses(states, events, n, key);
}

/// The response count that a table holds for a server, zero if it holds none.
spec fn count_in(scan: ScanView, key: u32) -> nat {
    if scan.servers.contains_key(key) {
        scan.servers[key].response_count as nat
    } else {
        0
    }
}

proof fn counts_follow_responses(states: Seq<ScanView>, events: Seq<Event>, n: int, key: u32)
    requires
        is_run(states, events),
        0 <= n <= events.len(),
    ensures
        count_in(states[n], key) == responses(states, events, n, Ipv4Addr { bits: key }),
    decreases n,
{
    if n > 0 {
        counts_follow_responses(states, events, n - 1, key);
        run_is_well_formed(states, events, n - 1);
        move_counts(states[n - 1], events[n - 1], states[n], key);
    }
}

/// Whether a step from `pre` to `post` counts one more response of a server if it
/// tells of the server, and none otherwise.
spec fn counts(pre: ScanView, event: Event, post: ScanView, key: u32) -> bool {
    count_in(post, key) == count_in(pre, key) + if offered(pre, event) == Some(
        Ipv4Addr { bits: key },
    ) {
        1nat
    } else {
        0nat
    }
}

proof fn move_counts(pre: ScanView, event: Event, post: ScanView, key: u32)
    requires
        pre.wf(),
        has_room(pre, event),
        moves(pre, event, post),
    ensures
        counts(pre, event, post, key),
{
    let choice = choice_of(pre, event, post);
    match pre.stage {
        ScanStage::Collect { .. } => collect_counts(pre, event, choice, key),
        ScanStage::Await { .. } => await_counts(pre, event, choice, key),
        _ => others_count_nothing(pre, event, choice, key),
    }
}

proof fn collect_counts(pre: ScanView, event: Event, choice: Choice, key: u32)
    requires
        pre.wf(),
        has_room(pre, event),
        pre.stage is Collect,
    ensures
        counts(pre, event, scan_next(pre, event, choice).scan, key),
{
}

proof fn await_counts(pre: ScanView, event: Event, choice: Choice, key: u32)
    requires
        pre.wf(),
        has_room(pre, event),
        pre.stage is Await,
    ensures
        counts(pre, event, scan_next(pre, event, choice).scan, key),
{
    let pos = pre.stage->Await_pos;
    if pos < pre.known {
        assert(pre.servers.contains_key(pre.targets[pos as int].bits));
    }
}

proof fn others_count_nothing(pre: ScanView, event: Event, choice: Choice, key: u32)
    requires
        !(pre.stage is Collect),
        !(pre.stage is Await),
    ensures
        counts(pre, event, scan_next(pre, event, choice).scan, key),
{
}

/// The Ethernet address that an event of a run tells of the target whose turn it
/// is.
pub open spec fn told(scan: ScanView, event: Event) -> Option<MacAddr> {
    match (turn(scan), event) {
        (Some(pos), Event::Heard { frame, .. }) => heard_answer(frame, scan.targets[pos as int]),
        _ => None,
    }
}

/// Whether step `i` told the address `mac` of target number `pos`.
pub open spec fn tells(
    states: Seq<ScanView>,
    events: Seq<Event>,
    i: int,
    pos: usize,
    mac: MacAddr,
) -> bool {
    turn(states[i]) == Some(pos) && told(states[i], events[i]) == Some(mac)
}

/// Whether in step `j` the answer of target number `pos`, which is at `mac`, named
/// the server at `ip`.
pub open spec fn names(
    states: Seq<ScanView>,
    events: Seq<Event>,
    j: int,
    pos: usize,
    mac: MacAddr,
    ip: Ipv4Addr,
) -> bool {
    &&& states[j].stage matches ScanStage::Await { pos: asked, mac: at, .. } && asked == pos && at
        == mac
    &&& offered(states[j], events[j]) == Some(ip)
}

/// Whether the first `n` steps told `mac` of the server at `ip`: its own target
/// told it, or a target told it whose answer then named the server.
pub open spec fn was_told_of(
    states: Seq<ScanView>,
    events: Seq<Event>,
    n: int,
    ip: Ipv4Addr,
    mac: MacAddr,
) -> bool {
    exists|i: int, pos: usize|
        {
            &&& 0 <= i < n
            &&& #[trigger] tells(states, events, i, pos, mac)
            &&& states[i].targets[pos as int] == ip || exists|j: int|
                i < j < n && #[trigger] names(states, events, j, pos, mac, ip)
        }
}

/// No Ethernet address is made up or given to the wrong server: one that stands
/// in the table was told by the target that the server is, or by a target whose
/// answer named the server.
pub proof fn addresses_were_told(states: Seq<ScanView>, events: Seq<Event>, n: int, key: u32)
    requires
        is_run(states, events),
        0 <= n <= events.len(),
        states[n].servers.contains_key(key),
    ensures
        states[n].servers[key].mac matches Some(mac) ==> was_told_of(
            states,
            events,
            n,
            Ipv4Addr { bits: key },
            mac,
        ),
    decreases n,
{
    if n > 0 && states[n].servers[key].mac is Some {
        let mac = states[n].servers[key].mac->0;
        let ip = Ipv4Addr { bits: key };
        let pre = states[n - 1];
        run_is_well_formed(states, events, n - 1);
        move_adds_no_mac(pre, events[n - 1], states[n]);
        assert(states[n].servers.contains_key(key));
        if pre.servers.contains_key(key) && pre.servers[key].mac == Some(mac) {
            addresses_were_told(states, events, n - 1, key);
            told_stays_told(states, events, n - 1, ip, mac);
        } else {
            let pos = pre.stage->Await_pos;
            asked_target_told(states, events, n - 1);
            let i = choose|i: int| 0 <= i < n - 1 && #[trigger] tells(states, events, i, pos, mac);
            scan_goes_forward(states, events, i, n - 1);
            if pre.targets[pos as int] != ip {
                assert(names(states, events, n - 1, pos, mac, ip));
            }
            assert(tells(states, events, i, pos, mac));
        }
    }
}

proof fn told_stays_told(
    states: Seq<ScanView>,
    events: Seq<Event>,
    n: int,
    ip: Ipv4Addr,
    mac: MacAddr,
)
    requires
        was_told_of(states, events, n, ip, mac),
    ensures
        was_told_of(states, events, n + 1, ip, mac),
{
    let (i, pos) = choose|i: int, pos: usize|
        {
            &&& 0 <= i < n
            &&& #[trigger] tells(states, events, i, pos, mac)
            &&& states[i].targets[pos as int] == ip || exists|j: int|
                i < j < n && #[trigger] names(states, events, j, pos, mac, ip)
        };
    assert(tells(states, events, i, pos, mac));
    if states[i].targets[pos as int] != ip {
        let j = choose|j: int| i < j < n && #[trigger] names(states, events, j, pos, mac, ip);
        assert(names(states, events, j, pos, mac, ip));
    }
}

/// A target that is asked alone has told its Ethernet address before.
proof fn asked_target_told(states: Seq<ScanView>, events: Seq<Event>, n: int)
    requires
        is_run(states, events),
        0 <= n <= events.len(),
    ensures
        match states[n].stage {
            ScanStage::Probe { pos, mac, .. } => exists|i: int|
                0 <= i < n && #[trigger] tells(states, events, i, pos, mac),
            ScanStage::Await { pos, mac, .. } => exists|i: int|
                0 <= i < n && #[trigger] tells(states, events, i, pos, mac),
            _ => true,
        },
    decreases n,
{
    if n > 0 {
        asked_target_told(states, events, n - 1);
        run_is_well_formed(states, events, n - 1);
        let pre = states[n - 1];
        move_adds_no_mac(pre, events[n - 1], states[n]);
        match states[n].stage {
            ScanStage::Probe { pos, mac, .. } => {
                if states[n].stage != pre.stage {
                    assert(tells(states, events, n - 1, pos, mac));
                }
            },
            _ => {},
        }
    }
}

/// Whether the Ethernet addresses after a step are those from before and that of
/// the target that is asked, which told it just now or before.
spec fn adds_no_mac(pre: ScanView, event: Event, post: ScanView) -> bool {
    &&& forall|key: u32| #[trigger]
        post.servers.contains_key(key) ==> {
            ||| post.servers[key].mac is None
            ||| pre.servers.contains_key(key) && post.servers[key].mac == pre.servers[key].mac
            ||| {
                &&& pre.stage matches ScanStage::Await { pos, mac, .. }
                &&& post.servers[key].mac == Some(mac)
                &&& pre.targets[pos as int].bits == key || offered(pre, event) == Some(
                    Ipv4Addr { bits: key },
                )
            }
        }
    &&& match post.stage {
        ScanStage::Probe { pos, mac, .. } => post.stage == pre.stage || (turn(pre) == Some(pos)
            && told(pre, event) == Some(mac)),
        ScanStage::Await { pos, mac, .. } => post.stage == pre.stage || (pre.stage matches
            ScanStage::Probe { pos: asked, mac: at, .. } && asked == pos && at == mac),
        _ => true,
    }
}

proof fn move_adds_no_mac(pre: ScanView, event: Event, post: ScanView)
    requires
        pre.wf(),
        moves(pre, event, post),
    ensures
        adds_no_mac(pre, event, post),
{
    let choice = choice_of(pre, event, post);
    match pre.stage {
        ScanStage::Broadcast { .. } => {},
        ScanStage::Collect { .. } => collect_adds_no_mac(pre, event, choice),
        ScanStage::Resolve { .. } => resolve_adds_no_mac(pre, event, choice),
        ScanStage::Probe { .. } => probe_adds_no_mac(pre, event, choice),
        ScanStage::Await { .. } => await_adds_no_mac(pre, event, choice),
        ScanStage::Finished => {},
    }
}

proof fn collect_adds_no_mac(pre: ScanView, event: Event, choice: Choice)
    requires
        pre.stage is Collect,
    ensures
        adds_no_mac(pre, event, scan_next(pre, event, choice).scan),
{
}

proof fn resolve_adds_no_mac(pre: ScanView, event: Event, choice: Choice)
    requires
        pre.wf(),
        pre.stage is Resolve,
    ensures
        adds_no_mac(pre, event, scan_next(pre, event, choice).scan),
{
}

proof fn probe_adds_no_mac(pre: ScanView, event: Event, choice: Choice)
    requires
        pre.stage is Probe,
    ensures
        adds_no_mac(pre, event, scan_next(pre, event, choice).scan),
{
}

proof fn await_adds_no_mac(pre: ScanView, event: Event, choice: Choice)
    requires
        pre.stage is Await,
    ensures
        adds_no_mac(pre, event, scan_next(pre, event, choice).scan),
{
}

// ---------------------------------------------------------------------------
// What is sent

/// All that a scan ever sends is the broadcast DISCOVER, a question for the
/// address of the target whose turn it is, and a DISCOVER to that target alone.
pub proof fn nothing_else_is_sent(scan: ScanView)
    requires
        scan.wf(),
    ensures
        scan_wants(scan) matches ActionView::Send { frame } ==> {
            ||| is_discover_frame(frame, broadcast_route(scan.src_mac), scan.src_mac, scan.xid)
            ||| {
                &&& turn(scan) matches Some(pos)
                &&& {
                    let target = scan.targets[pos as int];
                    ||| frame == arp_request(scan.src_mac, scan.local_ip, target)
                    ||| exists|mac: MacAddr, xid: u32| #[trigger]
                        is_discover_frame(
                            frame,
                            unicast_route(scan.src_mac, mac, target),
                            scan.src_mac,
                            xid,
                        )
                }
            }
        },
{
}

/// How many of the first `n` steps hand a frame to the link.
pub open spec fn sends(states: Seq<ScanView>, events: Seq<Event>, n: int) -> nat
    decreases n,
{
    if n <= 0 {
        0
    } else {
        sends(states, events, n - 1) + sent_by(states[n - 1], events[n - 1])
    }
}

/// One if `event` is that the frame which the scan wants to send was sent.
pub open spec fn sent_by(scan: ScanView, event: Event) -> nat {
    if scan_wants(scan) is Send && event is Sent {
        1
    } else {
        0
    }
}

/// How many frames are sent at most before a scan comes to its stage: three
/// broadcasts, and for each target three questions and one DISCOVER.
spec fn allowance(scan: ScanView) -> int {
    match scan.stage {
        ScanStage::Broadcast { round } => round - 1,
        ScanStage::Collect { round, .. } => round as int,
        ScanStage::Resolve { pos, arp } => 3 + 4 * pos + match arp {
            ArpStage::Ask { attempt } => attempt - 1,
            ArpStage::Listen { attempt, .. } => attempt as int,
            ArpStage::Pause { attempt } => attempt as int,
            ArpStage::Done { .. } => 3,
        },
        ScanStage::Probe { pos, .. } => 6 + 4 * pos,
        ScanStage::Await { pos, .. } => 7 + 4 * pos,
        ScanStage::Finished => 3 + 4 * scan.targets.len() as int,
    }
}

/// The traffic of a scan is bounded: three broadcasts, and at most four frames
/// for each target.
pub proof fn traffic_is_bounded(states: Seq<ScanView>, events: Seq<Event>, n: int)
    requires
        is_run(states, events),
        0 <= n <= events.len(),
    ensures
        sends(states, events, n) <= 3 + 4 * states[n].targets.len(),
{
    sends_within_allowance(states, events, n);
    run_is_well_formed(states, events, n);
}

proof fn sends_within_allowance(states: Seq<ScanView>, events: Seq<Event>, n: int)
    requires
        is_run(states, events),
        0 <= n <= events.len(),
    ensures
        sends(states, events, n) <= allowance(states[n]),
    decreases n,
{
    if n > 0 {
        sends_within_allowance(states, events, n - 1);
        run_is_well_formed(states, events, n - 1);
        run_is_well_formed(states, events, n);
        move_keeps_allowance(states[n - 1], events[n - 1], states[n]);
    }
}

proof fn move_keeps_allowance(pre: ScanView, event: Event, post: ScanView)
    requires
        pre.wf(),
        post.wf(),
        moves(pre, event, post),
    ensures
        allowance(pre) + sent_by(pre, event) <= allowance(post),
{
    let choice = choice_of(pre, event, post);
    match pre.stage {
        ScanStage::Resolve { .. } => resolve_keeps_allowance(pre, event, choice),
        ScanStage::Await { .. } => await_keeps_allowance(pre, event, choice),
        ScanStage::Collect { .. } => collect_keeps_allowance(pre, event, choice),
        ScanStage::Probe { .. } => probe_keeps_allowance(pre, event, choice),
        _ => {},
    }
}

proof fn collect_keeps_allowance(pre: ScanView, event: Event, choice: Choice)
    requires
        pre.wf(),
        pre.stage is Collect,
    ensures
        allowance(pre) + sent_by(pre, event) <= allowance(scan_next(pre, event, choice).scan),
{
}

proof fn resolve_keeps_allowance(pre: ScanView, event: Event, choice: Choice)
    requires
        pre.wf(),
        pre.stage is Resolve,
    ensures
        allowance(pre) + sent_by(pre, event) <= allowance(scan_next(pre, event, choice).scan),
{
}

proof fn probe_keeps_allowance(pre: ScanView, event: Event, choice: Choice)
    requires
        pre.wf(),
        pre.stage is Probe,
    ensures
        allowance(pre) + sent_by(pre, event) <= allowance(scan_next(pre, event, choice).scan),
{
}

proof fn await_keeps_allowance(pre: ScanView, event: Event, choice: Choice)
    requires
        pre.wf(),
        pre.stage is Await,
    ensures
        allowance(pre) + sent_by(pre, event) <= allowance(scan_next(pre, event, choice).scan),
{
}

} // verus!
