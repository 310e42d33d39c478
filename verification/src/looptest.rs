//! The loop test: one DISCOVER is broadcast once, and offers that come back too
//! close together give away a loop in the network.

use crate::addr::MacAddr;
use crate::arp::came_at;
use crate::dhcp::{
    broadcast_route, build_dhcp_discover, is_discover_frame, is_fresh_discover_frame,
};
use crate::draw::{draw_u32, is_drawn_u32};
use crate::scan::offering_server;
use crate::steps::{in_time, still_in_time, Action, ActionView, Event};
use crate::text::{decimal, hex, lines_view, no_lines, push_decimal, push_hex, push_line, push_text};
use vstd::prelude::*;

verus! {

/// How long offers are listened for, in nanoseconds.
pub const LISTEN_TIME: u64 = 5_000_000_000;

/// How long a single read of the socket may take, in milliseconds.
pub const LISTEN_POLL_MS: u64 = 30;

/// Offers closer together than this, in nanoseconds, come from a loop.
pub const LOOP_GAP: u64 = 100_000_000;

/// How far a test has come.
#[derive(Clone, Copy, PartialEq, Eq, Structural, Debug)]
pub enum LoopStage {
    /// The broadcast is to be sent.
    Send,
    /// The broadcast was sent at `since`; offers are listened for.
    Listen { since: u64 },
    Finished,
}

/// A test by content.
pub struct LoopView {
    /// The station that tests, its transaction, and the frame that it broadcasts.
    pub src_mac: MacAddr,
    pub xid: u32,
    pub discover: Seq<u8>,
    /// When the offers came.
    pub offers: Seq<u64>,
    pub stage: LoopStage,
}

/// What a step leads to: the test after it and the lines that it logs.
pub struct LoopOutcome {
    pub test: LoopView,
    pub lines: Seq<Seq<char>>,
}

// ---------------------------------------------------------------------------
// What the offers tell

/// The time between offer number `i` and the one before it.
pub open spec fn gap_at(offers: Seq<u64>, i: int) -> u64 {
    if offers[i] >= offers[i - 1] {
        (offers[i] - offers[i - 1]) as u64
    } else {
        0
    }
}

/// Whether two offers in a row came too close together.
pub open spec fn has_loop(offers: Seq<u64>) -> bool {
    exists|i: int| 1 <= i < offers.len() && #[trigger] gap_at(offers, i) < LOOP_GAP
}

/// Whether `gap` is the shortest time between two offers in a row.
pub open spec fn is_smallest_gap(gap: u64, offers: Seq<u64>) -> bool {
    &&& exists|i: int| 1 <= i < offers.len() && #[trigger] gap_at(offers, i) == gap
    &&& forall|i: int| 1 <= i < offers.len() ==> gap <= #[trigger] gap_at(offers, i)
}

/// The shortest time between two offers in a row, if there are two.
pub fn smallest_gap(offers: &[u64]) -> (r: Option<u64>)
    ensures
        r is Some <==> offers@.len() >= 2,
        r matches Some(gap) ==> is_smallest_gap(gap, offers@),
{
    if offers.len() < 2 {
        return None;
    }
    let mut smallest: u64 = gap_of(offers, 1);
    let mut next: usize = 2;
    while next < offers.len()
        invariant
            2 <= next <= offers@.len(),
            exists|i: int| 1 <= i < next && #[trigger] gap_at(offers@, i) == smallest,
            forall|i: int| 1 <= i < next ==> smallest <= #[trigger] gap_at(offers@, i),
        decreases offers@.len() - next,
    {
        let gap: u64 = gap_of(offers, next);
        if gap < smallest {
            smallest = gap;
        }
        next = next + 1;
    }
    Some(smallest)
}

fn gap_of(offers: &[u64], i: usize) -> (r: u64)
    requires
        1 <= i < offers@.len(),
    ensures
        r == gap_at(offers@, i as int),
{
    if offers[i] >= offers[i - 1] {
        offers[i] - offers[i - 1]
    } else {
        0
    }
}

/// Whether the offers come from a loop.
pub fn detects_loop(offers: &[u64]) -> (r: bool)
    ensures
        r == has_loop(offers@),
{
    match smallest_gap(offers) {
        Some(gap) => gap < LOOP_GAP,
        None => false,
    }
}

// ---------------------------------------------------------------------------
// What is logged

pub open spec fn loop_xid_line(xid: u32) -> Seq<char> {
    "环路检测专用 XID: 0x"@ + hex(xid as nat, 8)
}

pub open spec fn offer_line(count: nat, xid: u32) -> Seq<char> {
    "  收到第 "@ + decimal(count) + " 个 Offer（XID: 0x"@ + hex(xid as nat, 8) + "）"@
}

/// What is reported in the end; `gap` is the shortest time between two offers,
/// in milliseconds, as text.
pub open spec fn report_lines(offers: Seq<u64>, gap: Seq<char>) -> Seq<Seq<char>> {
    let count = decimal(offers.len());
    let head = seq![""@, "监听结束，共收到 "@ + count + " 个匹配 Offer"@];
    if offers.len() < 2 {
        head.push("结果：未检测到网络环路（Offer 数量不足 2 个）"@)
    } else if has_loop(offers) {
        head + seq![
            "最小 Offer 间隔: "@ + gap + " ms"@,
            ""@,
            "!!! 检测到二层网络环路 !!!"@,
            "  - 相同 XID 收到 "@ + count + " 个 DHCP Offer"@,
            "  - 最小间隔: "@ + gap + " ms (< 100ms)"@,
            "建议：检查交换机级联线路，排查冗余链路或启用 STP/RSTP。"@,
        ]
    } else {
        head + seq![
            "最小 Offer 间隔: "@ + gap + " ms"@,
            "结果：未检测到网络环路"@,
            "收到 "@ + count + " 个 Offer 但间隔 ≥ 100ms，正常多服务器响应"@,
        ]
    }
}

// ---------------------------------------------------------------------------
// How a test goes on

/// Every offer in the test's transaction is noted with its time.
pub open spec fn offer_noted(test: LoopView, event: Event, now: u64) -> LoopOutcome {
    match offering_server(event, test.xid) {
        Some(_) => LoopOutcome {
            test: LoopView { offers: test.offers.push(now), ..test },
            lines: seq![offer_line(test.offers.len() + 1, test.xid)],
        },
        None => LoopOutcome { test, lines: seq![] },
    }
}

/// Once the time for listening is over, the test is finished.
pub open spec fn listening_on(so_far: LoopOutcome, since: u64, now: u64) -> LoopOutcome {
    if in_time(since, now, LISTEN_TIME) {
        so_far
    } else {
        LoopOutcome {
            test: LoopView { stage: LoopStage::Finished, ..so_far.test },
            ..so_far
        }
    }
}

/// The step that `event` is. After the broadcast offers are listened for, whether
/// or not the link took it. An event that the stage does not wait for changes
/// nothing.
pub open spec fn loop_next(test: LoopView, event: Event) -> LoopOutcome {
    let unchanged = LoopOutcome { test, lines: seq![] };
    match (test.stage, event) {
        (LoopStage::Send, Event::Sent { ok, now }) => LoopOutcome {
            test: LoopView { stage: LoopStage::Listen { since: now }, ..test },
            lines: if ok {
                seq!["监听 5 秒等待 Offer（UDP Socket）..."@]
            } else {
                seq!["  [警告] 数据包发送失败"@, "监听 5 秒等待 Offer（UDP Socket）..."@]
            },
        },
        (LoopStage::Listen { since }, Event::Datagram { now, .. }) => listening_on(
            offer_noted(test, event, now),
            since,
            now,
        ),
        (LoopStage::Listen { since }, Event::Quiet { now }) => listening_on(unchanged, since, now),
        _ => unchanged,
    }
}

/// A test that has not sent anything yet.
pub open spec fn loop_start(src_mac: MacAddr, xid: u32, discover: Seq<u8>) -> LoopView {
    LoopView { src_mac, xid, discover, offers: seq![], stage: LoopStage::Send }
}

impl LoopView {
    /// The frame is a broadcast DISCOVER in the test's transaction.
    pub open spec fn wf(self) -> bool {
        is_discover_frame(self.discover, broadcast_route(self.src_mac), self.src_mac, self.xid)
    }
}

/// What is to be done in a stage.
pub open spec fn loop_wants(test: LoopView) -> ActionView {
    match test.stage {
        LoopStage::Send => ActionView::Send { frame: test.discover },
        LoopStage::Listen { .. } => ActionView::ReceiveDatagram { timeout_ms: LISTEN_POLL_MS },
        LoopStage::Finished => ActionView::Finish,
    }
}

/// A test in progress.
pub struct LoopTest {
    src_mac: MacAddr,
    xid: u32,
    discover: Vec<u8>,
    offers: Vec<u64>,
    stage: LoopStage,
}

impl View for LoopTest {
    type V = LoopView;

    closed spec fn view(&self) -> LoopView {
        LoopView {
            src_mac: self.src_mac,
            xid: self.xid,
            discover: self.discover@,
            offers: self.offers@,
            stage: self.stage,
        }
    }
}

impl LoopTest {
    /// A test from a given station in a given transaction.
    pub fn new(src_mac: MacAddr, xid: u32, discover: Vec<u8>) -> (r: LoopTest)
        requires
            is_discover_frame(discover@, broadcast_route(src_mac), src_mac, xid),
        ensures
            r@ == loop_start(src_mac, xid, discover@),
            r@.wf(),
    {
        LoopTest { src_mac, xid, discover, offers: Vec::new(), stage: LoopStage::Send }
    }

    /// A test from a given station in a fresh random transaction, and the line
    /// that tells the transaction.
    pub fn start(src_mac: MacAddr) -> (r: (LoopTest, String))
        ensures
            r.0@ == loop_start(src_mac, r.0@.xid, r.0@.discover),
            r.0@.wf(),
            is_drawn_u32(r.0@.xid),
            is_fresh_discover_frame(
                r.0@.discover,
                broadcast_route(src_mac),
                src_mac,
                r.0@.xid,
            ),
            r.1@ == loop_xid_line(r.0@.xid),
    {
        let xid: u32 = draw_u32();
        let mut line = "环路检测专用 XID: 0x".to_owned();
        push_hex(&mut line, xid, 8);
        let discover = build_dhcp_discover(src_mac, xid);
        (LoopTest::new(src_mac, xid, discover), line)
    }

    /// The line that announces the broadcast, once the channels are open.
    pub fn announcement() -> (r: String)
        ensures
            r@ == "发送单个 DHCP DISCOVER 广播..."@,
    {
        "发送单个 DHCP DISCOVER 广播...".to_owned()
    }

    /// What is to be done next.
    pub fn action(&self) -> (r: Action)
        ensures
            r@ == loop_wants(self@),
    {
        match self.stage {
            LoopStage::Send => Action::Send { frame: self.discover.clone() },
            LoopStage::Listen { .. } => Action::ReceiveDatagram { timeout_ms: LISTEN_POLL_MS },
            LoopStage::Finished => Action::Finish,
        }
    }

    fn note_offer(&mut self, event: &Event, arrived: u64) -> (lines: Vec<String>)
        ensures
            (LoopOutcome { test: final(self)@, lines: lines_view(lines@) }) == offer_noted(
                old(self)@,
                *event,
                arrived,
            ),
    {
        let mut lines = no_lines();
        if let Event::Datagram { offer: Some(info), .. } = event {
            if info.xid == self.xid {
                self.offers.push(arrived);
                let mut line = "  收到第 ".to_owned();
                push_decimal(&mut line, self.offers.len() as u64);
                line.append(" 个 Offer（XID: 0x");
                push_hex(&mut line, self.xid, 8);
                line.append("）");
                push_line(&mut lines, line);
                assert(lines_view(lines@) =~= seq![
                    offer_line(old(self)@.offers.len() + 1, self.xid),
                ]);
            }
        }
        lines
    }

    /// Takes the test one step further and returns the lines to log.
    pub fn step(&mut self, event: &Event) -> (lines: Vec<String>)
        ensures
            (LoopOutcome { test: final(self)@, lines: lines_view(lines@) }) == loop_next(
                old(self)@,
                *event,
            ),
            old(self)@.wf() ==> final(self)@.wf(),
    {
        match (self.stage, event) {
            (LoopStage::Send, Event::Sent { ok, now }) => {
                let mut lines = no_lines();
                if !*ok {
                    push_text(&mut lines, "  [警告] 数据包发送失败");
                }
                push_text(&mut lines, "监听 5 秒等待 Offer（UDP Socket）...");
                self.stage = LoopStage::Listen { since: *now };
                assert(lines_view(lines@) =~= loop_next(old(self)@, *event).lines);
                lines
            },
            (LoopStage::Listen { since }, Event::Datagram { now, .. }) => {
                let lines = self.note_offer(event, *now);
                if !still_in_time(since, *now, LISTEN_TIME) {
                    self.stage = LoopStage::Finished;
                }
                lines
            },
            (LoopStage::Listen { since }, Event::Quiet { now }) => {
                if !still_in_time(since, *now, LISTEN_TIME) {
                    self.stage = LoopStage::Finished;
                }
                no_lines()
            },
            _ => no_lines(),
        }
    }

    /// The shortest time between two offers in a row, in nanoseconds, if there
    /// are two.
    pub fn smallest_gap(&self) -> (r: Option<u64>)
        ensures
            r is Some <==> self@.offers.len() >= 2,
            r matches Some(gap) ==> is_smallest_gap(gap, self@.offers),
    {
        smallest_gap(self.offers.as_slice())
    }

    /// The lines that report the result; `gap` is the shortest time between two
    /// offers, in milliseconds, as text.
    pub fn report(&self, gap: &str) -> (lines: Vec<String>)
        ensures
            lines_view(lines@) == report_lines(self@.offers, gap@),
    {
        let mut lines = no_lines();
        push_text(&mut lines, "");
        push_line(&mut lines, self.count_line("监听结束，共收到 ", " 个匹配 Offer"));
        if self.offers.len() < 2 {
            push_text(&mut lines, "结果：未检测到网络环路（Offer 数量不足 2 个）");
        } else {
            push_line(&mut lines, gap_line("最小 Offer 间隔: ", gap, " ms"));
            if detects_loop(self.offers.as_slice()) {
                push_text(&mut lines, "");
                push_text(&mut lines, "!!! 检测到二层网络环路 !!!");
                push_line(&mut lines, self.count_line("  - 相同 XID 收到 ", " 个 DHCP Offer"));
                push_line(&mut lines, gap_line("  - 最小间隔: ", gap, " ms (< 100ms)"));
                push_text(&mut lines, "建议：检查交换机级联线路，排查冗余链路或启用 STP/RSTP。");
            } else {
                push_text(&mut lines, "结果：未检测到网络环路");
                push_line(
                    &mut lines,
                    self.count_line("收到 ", " 个 Offer 但间隔 ≥ 100ms，正常多服务器响应"),
                );
            }
        }
        assert(lines_view(lines@) =~= report_lines(self@.offers, gap@));
        lines
    }

    fn count_line(&self, before: &str, after: &str) -> (r: String)
        ensures
            r@ == before@ + decimal(self@.offers.len()) + after@,
    {
        let mut line = before.to_owned();
        push_decimal(&mut line, self.offers.len() as u64);
        line.append(after);
        line
    }
}

fn gap_line(before: &str, gap: &str, after: &str) -> (r: String)
    ensures
        r@ == before@ + gap@ + after@,
{
    let mut line = before.to_owned();
    line.append(gap);
    line.append(after);
    line
}

// ---------------------------------------------------------------------------
// Laws

/// The test that a sequence of events leads to.
pub open spec fn loop_run(start: LoopView, events: Seq<Event>) -> LoopView
    decreases events.len(),
{
    if events.len() == 0 {
        start
    } else {
        loop_next(loop_run(start, events.drop_last()), events.last()).test
    }
}

/// How often the events hand the broadcast to the link.
pub open spec fn loop_sends(start: LoopView, events: Seq<Event>) -> nat
    decreases events.len(),
{
    if events.len() == 0 {
        0
    } else {
        loop_sends(start, events.drop_last()) + if loop_run(start, events.drop_last()).stage
            is Send && events.last() is Sent {
            1nat
        } else {
            0nat
        }
    }
}

/// The DISCOVER is never sent again: a test sends once and listens from then on,
/// in the transaction and with the frame that it began with.
pub proof fn nothing_is_sent_again(start: LoopView, events: Seq<Event>)
    requires
        start.stage is Send,
    ensures
        loop_sends(start, events) <= 1,
        loop_run(start, events).stage is Send <==> loop_sends(start, events) == 0,
        loop_wants(loop_run(start, events)) is Send <==> loop_sends(start, events) == 0,
        loop_run(start, events).xid == start.xid,
        loop_run(start, events).discover == start.discover,
    decreases events.len(),
{
    if events.len() > 0 {
        nothing_is_sent_again(start, events.drop_last());
    }
}

/// When the offers came that were heard while the test was listening.
pub open spec fn heard_offers(start: LoopView, events: Seq<Event>) -> Seq<u64>
    decreases events.len(),
{
    if events.len() == 0 {
        seq![]
    } else {
        let before = heard_offers(start, events.drop_last());
        match events.last() {
            Event::Datagram { now, .. } if loop_run(start, events.drop_last()).stage is Listen
                && offering_server(events.last(), start.xid) is Some => before.push(now),
            _ => before,
        }
    }
}

/// The verdict rests on exactly the offers in the test's own transaction that
/// were heard while it was listening.
pub proof fn verdict_rests_on_heard_offers(start: LoopView, events: Seq<Event>)
    requires
        start == loop_start(start.src_mac, start.xid, start.discover),
    ensures
        loop_run(start, events).offers == heard_offers(start, events),
    decreases events.len(),
{
    if events.len() > 0 {
        verdict_rests_on_heard_offers(start, events.drop_last());
        nothing_is_sent_again(start, events.drop_last());
    }
}

/// The shortest time between offers decides.
pub proof fn smallest_gap_decides(gap: u64, offers: Seq<u64>)
    requires
        is_smallest_gap(gap, offers),
    ensures
        has_loop(offers) <==> gap < LOOP_GAP,
{
}

/// One offer, or none, gives no loop away.
pub proof fn a_loop_takes_two_offers(offers: Seq<u64>)
    requires
        has_loop(offers),
    ensures
        offers.len() >= 2,
{
}

/// A loop that was detected stays detected, whatever else comes.
pub proof fn further_offers_keep_the_loop(offers: Seq<u64>, later: u64)
    requires
        has_loop(offers),
    ensures
        has_loop(offers.push(later)),
{
    let i = choose|i: int| 1 <= i < offers.len() && #[trigger] gap_at(offers, i) < LOOP_GAP;
    assert(gap_at(offers.push(later), i) == gap_at(offers, i));
}

/// As the clock never runs backwards, any two offers that are too close together
/// give the loop away, neighbours or not.
pub proof fn any_close_pair_is_a_loop(offers: Seq<u64>)
    requires
        forall|i: int, j: int| 0 <= i <= j < offers.len() ==> offers[i] <= offers[j],
    ensures
        has_loop(offers) <==> exists|i: int, j: int|
            0 <= i < j < offers.len() && #[trigger] offers[j] - #[trigger] offers[i] < 100_000_000,
{
    if has_loop(offers) {
        let i = choose|i: int| 1 <= i < offers.len() && #[trigger] gap_at(offers, i) < LOOP_GAP;
        assert(offers[i] - offers[i - 1] < LOOP_GAP);
    }
    if exists|i: int, j: int|
        0 <= i < j < offers.len() && #[trigger] offers[j] - #[trigger] offers[i] < LOOP_GAP {
        let (i, j) = choose|i: int, j: int|
            0 <= i < j < offers.len() && #[trigger] offers[j] - #[trigger] offers[i] < LOOP_GAP;
        assert(gap_at(offers, i + 1) < LOOP_GAP);
    }
}

/// Whether an event is an offer in transaction `xid`.
pub open spec fn is_offer_in(event: Event, xid: u32) -> bool {
    event matches Event::Datagram { offer: Some(info), .. } && info.xid == xid
}

/// The test listens for five seconds, counted from when the broadcast was sent,
/// whatever comes: each offer in its transaction is noted with its time, nothing
/// else is, and only when the time is over the test is finished.
pub proof fn listens_for_five_seconds(test: LoopView, since: u64, event: Event)
    requires
        test.stage == (LoopStage::Listen { since }),
    ensures
        ({
            let next = loop_next(test, event).test;
            &&& (came_at(event) matches Some(now) ==> now < since + 5_000_000_000) ==> next.stage
                == test.stage
            &&& (event is Datagram || event is Quiet) && came_at(event)->0 >= since + 5_000_000_000
                ==> next.stage is Finished
            &&& is_offer_in(event, test.xid) ==> next.offers == test.offers.push(
                event->Datagram_now,
            )
            &&& !is_offer_in(event, test.xid) ==> next.offers == test.offers
            &&& next.xid == test.xid && next.discover == test.discover && next.src_mac
                == test.src_mac
        }),
{
}

/// The broadcast is followed by listening from the time at which it was sent,
/// whether or not the link took it; nothing else begins the listening.
pub proof fn listening_begins_with_the_broadcast(test: LoopView, event: Event)
    requires
        test.stage is Send,
    ensures
        event matches Event::Sent { now, .. } ==> loop_next(test, event).test.stage
            == (LoopStage::Listen { since: now }),
        event !is Sent ==> loop_next(test, event).test.stage is Send,
        loop_next(test, event).test.offers == test.offers,
{
}

/// A finished test stays as it is.
pub proof fn finished_test_stays(test: LoopView, event: Event)
    requires
        test.stage is Finished,
    ensures
        loop_next(test, event).test == test,
        loop_next(test, event).lines.len() == 0,
{
}

/// When the offers in transaction `xid` came that stand among the events.
pub open spec fn offer_times(events: Seq<Event>, xid: u32) -> Seq<u64>
    decreases events.len(),
{
    if events.len() == 0 {
        seq![]
    } else {
        let before = offer_times(events.drop_last(), xid);
        if is_offer_in(events.last(), xid) {
            before.push(events.last()->Datagram_now)
        } else {
            before
        }
    }
}

/// Every offer in the test's transaction that comes within five seconds after the
/// broadcast is among the offers that the verdict rests on, and no other is.
pub proof fn offers_in_time_are_judged(start: LoopView, ok: bool, sent: u64, events: Seq<Event>)
    requires
        start == loop_start(start.src_mac, start.xid, start.discover),
        forall|i: int|
            0 <= i < events.len() ==> (came_at(#[trigger] events[i]) matches Some(now) ==> now
                < sent + 5_000_000_000),
    ensures
        ({
            let end = loop_run(start, seq![Event::Sent { ok, now: sent }] + events);
            &&& end.stage == (LoopStage::Listen { since: sent })
            &&& end.offers == offer_times(events, start.xid)
        }),
    decreases events.len(),
{
    let first = seq![Event::Sent { ok, now: sent }];
    let all = first + events;
    if events.len() == 0 {
        assert(all =~= first);
        assert(all.drop_last() =~= Seq::<Event>::empty());
        assert(all.last() == (Event::Sent { ok, now: sent }));
        reveal_with_fuel(loop_run, 2);
        assert(start.offers =~= Seq::<u64>::empty());
    } else {
        let front = events.drop_last();
        assert forall|i: int| 0 <= i < front.len() implies (came_at(
            #[trigger] front[i],
        ) matches Some(now) ==> now < sent + 5_000_000_000) by {
            assert(front[i] == events[i]);
        }
        offers_in_time_are_judged(start, ok, sent, front);
        assert(all.drop_last() =~= first + front);
        assert(all.last() == events.last());
        nothing_is_sent_again(start, first + front);
        listens_for_five_seconds(loop_run(start, first + front), sent, events.last());
    }
}

/// The smallest gap is the time between some two offers in a row, and no two
/// offers are closer together.
pub proof fn no_two_offers_are_closer(gap: u64, offers: Seq<u64>)
    requires
        is_smallest_gap(gap, offers),
        forall|i: int, j: int| 0 <= i <= j < offers.len() ==> offers[i] <= offers[j],
    ensures
        exists|i: int|
            0 <= i && i + 1 < offers.len() && #[trigger] offers[i] + gap == offers[i + 1],
        forall|i: int, j: int|
            0 <= i < j < offers.len() ==> #[trigger] offers[i] + gap <= #[trigger] offers[j],
{
    let k = choose|k: int| 1 <= k < offers.len() && #[trigger] gap_at(offers, k) == gap;
    assert(offers[k - 1] + gap == offers[k - 1 + 1]);
    assert forall|i: int, j: int| 0 <= i < j < offers.len() implies #[trigger] offers[i] + gap
        <= #[trigger] offers[j] by {
        assert(gap <= gap_at(offers, i + 1));
        assert(offers[i + 1] <= offers[j]);
    }
}

/// The report warns of a loop if and only if two offers came less than 100 ms
/// apart.
pub proof fn report_warns_of_close_offers(offers: Seq<u64>, gap: Seq<char>)
    requires
        forall|i: int, j: int| 0 <= i <= j < offers.len() ==> offers[i] <= offers[j],
    ensures
        report_lines(offers, gap).contains("!!! 检测到二层网络环路 !!!"@) <==> exists|
            i: int,
            j: int,
        |
            0 <= i < j < offers.len() && #[trigger] offers[j] - #[trigger] offers[i] < 100_000_000,
{
    any_close_pair_is_a_loop(offers);
    let lines = report_lines(offers, gap);
    let warning = "!!! 检测到二层网络环路 !!!"@;
    reveal_strlit("!!! 检测到二层网络环路 !!!");
    reveal_strlit("");
    reveal_strlit("监听结束，共收到 ");
    reveal_strlit("结果：未检测到网络环路（Offer 数量不足 2 个）");
    reveal_strlit("最小 Offer 间隔: ");
    reveal_strlit("结果：未检测到网络环路");
    reveal_strlit("收到 ");
    if has_loop(offers) {
        a_loop_takes_two_offers(offers);
        assert(lines[4] == warning);
    } else {
        assert forall|i: int| 0 <= i < lines.len() implies #[trigger] lines[i] != warning by {
            assert(warning[0] == '!');
            assert(lines[0].len() == 0);
            assert(lines[1][0] == '监');
            if offers.len() < 2 {
                assert(lines[2][0] == '结');
            } else {
                assert(lines[2][0] == '最');
                assert(lines[3][0] == '结');
                assert(lines[4][0] == '收');
            }
        }
    }
}

/// The report tells how many offers came, and the smallest gap if there are two.
pub proof fn report_tells_count_and_gap(offers: Seq<u64>, gap: Seq<char>)
    ensures
        report_lines(offers, gap)[1] == "监听结束，共收到 "@ + decimal(offers.len())
            + " 个匹配 Offer"@,
        offers.len() >= 2 ==> report_lines(offers, gap)[2] == "最小 Offer 间隔: "@ + gap + " ms"@,
        offers.len() < 2 ==> report_lines(offers, gap).len() == 3,
{
}

/// An offer is logged with its number and the transaction.
pub proof fn offers_are_logged(test: LoopView, since: u64, event: Event)
    requires
        test.stage == (LoopStage::Listen { since }),
    ensures
        is_offer_in(event, test.xid) ==> loop_next(test, event).lines == seq![
            "  收到第 "@ + decimal(test.offers.len() + 1) + " 个 Offer（XID: 0x"@ + hex(
                test.xid as nat,
                8,
            ) + "）"@,
        ],
        !is_offer_in(event, test.xid) ==> loop_next(test, event).lines.len() == 0,
{
}

/// What is done in a test: the broadcast is sent, then the socket is read for 30 ms
/// at a time.
pub proof fn test_is_done_by_stages(test: LoopView)
    ensures
        test.stage is Send ==> loop_wants(test) == (ActionView::Send { frame: test.discover }),
        test.stage is Listen ==> loop_wants(test) == (ActionView::ReceiveDatagram {
            timeout_ms: 30,
        }),
        test.stage is Finished ==> loop_wants(test) == ActionView::Finish,
{
}

/// A broadcast that the link did not take is a warning; either way the listening is
/// announced.
pub proof fn sending_is_logged(test: LoopView, ok: bool, now: u64)
    requires
        test.stage is Send,
    ensures
        ({
            let lines = loop_next(test, Event::Sent { ok, now }).lines;
            &&& lines.last() == "监听 5 秒等待 Offer（UDP Socket）..."@
            &&& ok ==> lines.len() == 1
            &&& !ok ==> lines.len() == 2 && lines[0] == "  [警告] 数据包发送失败"@
        }),
{
}

} // verus!
