//! Asking a station for its Ethernet address.

use crate::addr::{Ipv4Addr, MacAddr};
use crate::steps::{in_time, still_in_time, Action, ActionView, Event};
use crate::wire::{
    arp_answer, arp_request, build_arp_request, is_reply_of, parse_arp_reply, replies_are_read,
};
use vstd::prelude::*;

verus! {

/// How often a station is asked.
pub const ARP_ATTEMPTS: u8 = 3;

/// How long an answer is waited for, in nanoseconds.
pub const ARP_WAIT: u64 = 2_000_000_000;

/// How long a single read of the link may take, in milliseconds.
pub const ARP_POLL_MS: u64 = 30;

/// The rest between two attempts, in milliseconds.
pub const ARP_PAUSE_MS: u64 = 300;

/// How far the asking has come.
#[derive(Clone, Copy, PartialEq, Eq, Structural, Debug)]
pub enum ArpStage {
    /// The question of this attempt is to be sent.
    Ask { attempt: u8 },
    /// The question was sent at `since`; an answer is waited for.
    Listen { attempt: u8, since: u64 },
    /// No answer came; a rest is taken.
    Pause { attempt: u8 },
    /// The address was learnt, or all attempts are used up.
    Done { mac: Option<MacAddr> },
}

/// The stage in which the asking begins.
pub open spec fn arp_start() -> ArpStage {
    ArpStage::Ask { attempt: 1 }
}

/// What follows an attempt that brought no answer.
pub open spec fn after_attempt(attempt: u8) -> ArpStage {
    if attempt < ARP_ATTEMPTS {
        ArpStage::Ask { attempt: (attempt + 1) as u8 }
    } else {
        ArpStage::Done { mac: None }
    }
}

/// Whether the asking goes on, in one of the attempts that are allowed.
pub open spec fn arp_goes_on(stage: ArpStage) -> bool {
    match stage {
        ArpStage::Ask { attempt } => 1 <= attempt <= ARP_ATTEMPTS,
        ArpStage::Listen { attempt, .. } => 1 <= attempt <= ARP_ATTEMPTS,
        ArpStage::Pause { attempt } => 1 <= attempt <= ARP_ATTEMPTS,
        ArpStage::Done { .. } => false,
    }
}

/// What a captured frame says of `target`.
pub open spec fn heard_answer(frame: Option<Vec<u8>>, target: Ipv4Addr) -> Option<MacAddr> {
    match frame {
        Some(bytes) => arp_answer(bytes@, target),
        None => None,
    }
}

/// The stage after `event`. A question that could not be sent is followed by
/// the next attempt at once; one that is not answered in time is followed by a
/// rest first. An event that the stage does not wait for changes nothing.
pub open spec fn arp_next(stage: ArpStage, event: Event, target: Ipv4Addr) -> ArpStage {
    match (stage, event) {
        (ArpStage::Ask { attempt }, Event::Sent { ok, now }) => if ok {
            ArpStage::Listen { attempt, since: now }
        } else {
            after_attempt(attempt)
        },
        (ArpStage::Listen { attempt, since }, Event::Heard { frame, now }) => match heard_answer(
            frame,
            target,
        ) {
            Some(mac) => ArpStage::Done { mac: Some(mac) },
            None => if in_time(since, now, ARP_WAIT) {
                stage
            } else {
                ArpStage::Pause { attempt }
            },
        },
        (ArpStage::Pause { attempt }, Event::Rested) => after_attempt(attempt),
        _ => stage,
    }
}

fn next_attempt(attempt: u8) -> (r: ArpStage)
    ensures
        r == after_attempt(attempt),
{
    if attempt < ARP_ATTEMPTS {
        ArpStage::Ask { attempt: attempt + 1 }
    } else {
        ArpStage::Done { mac: None }
    }
}

/// Decides how asking for `target` goes on after `event`.
pub fn resolve_arp(stage: ArpStage, event: &Event, target: Ipv4Addr) -> (r: ArpStage)
    ensures
        r == arp_next(stage, *event, target),
{
    match (stage, event) {
        (ArpStage::Ask { attempt }, Event::Sent { ok, now }) => {
            if *ok {
                ArpStage::Listen { attempt, since: *now }
            } else {
                next_attempt(attempt)
            }
        },
        (ArpStage::Listen { attempt, since }, Event::Heard { frame, now }) => {
            let answer = match frame {
                Some(bytes) => parse_arp_reply(bytes.as_slice(), target),
                None => None,
            };
            match answer {
                Some(mac) => ArpStage::Done { mac: Some(mac) },
                None => {
                    if still_in_time(since, *now, ARP_WAIT) {
                        stage
                    } else {
                        ArpStage::Pause { attempt }
                    }
                },
            }
        },
        (ArpStage::Pause { attempt }, Event::Rested) => next_attempt(attempt),
        _ => stage,
    }
}

/// What is to be done in a stage.
pub open spec fn arp_wants(
    stage: ArpStage,
    src_mac: MacAddr,
    src_ip: Ipv4Addr,
    target: Ipv4Addr,
) -> ActionView {
    match stage {
        ArpStage::Ask { .. } => ActionView::Send { frame: arp_request(src_mac, src_ip, target) },
        ArpStage::Listen { .. } => ActionView::ReceiveFrame { timeout_ms: ARP_POLL_MS },
        ArpStage::Pause { .. } => ActionView::Rest { millis: ARP_PAUSE_MS },
        ArpStage::Done { .. } => ActionView::Finish,
    }
}

/// What is to be done in a stage of asking for `target`.
pub fn arp_action(
    stage: ArpStage,
    src_mac: MacAddr,
    src_ip: Ipv4Addr,
    target: Ipv4Addr,
) -> (r: Action)
    ensures
        r@ == arp_wants(stage, src_mac, src_ip, target),
{
    match stage {
        ArpStage::Ask { .. } => Action::Send { frame: build_arp_request(src_mac, src_ip, target) },
        ArpStage::Listen { .. } => Action::ReceiveFrame { timeout_ms: ARP_POLL_MS },
        ArpStage::Pause { .. } => Action::Rest { millis: ARP_PAUSE_MS },
        ArpStage::Done { .. } => Action::Finish,
    }
}

// ---------------------------------------------------------------------------
// Laws

/// The stage that a sequence of events leads to.
pub open spec fn arp_run(events: Seq<Event>, target: Ipv4Addr) -> ArpStage
    decreases events.len(),
{
    if events.len() == 0 {
        arp_start()
    } else {
        arp_next(arp_run(events.drop_last(), target), events.last(), target)
    }
}

/// How many attempts to send the question the events hold.
pub open spec fn questions(events: Seq<Event>, target: Ipv4Addr) -> nat
    decreases events.len(),
{
    if events.len() == 0 {
        0
    } else {
        questions(events.drop_last(), target) + if arp_run(events.drop_last(), target) is Ask
            && events.last() is Sent {
            1nat
        } else {
            0nat
        }
    }
}

/// No station is asked more than three times, and none is given up before it.
pub proof fn asked_at_most_three_times(events: Seq<Event>, target: Ipv4Addr)
    ensures
        questions(events, target) <= ARP_ATTEMPTS,
        arp_run(events, target) == (ArpStage::Done { mac: None }) ==> questions(events, target)
            == ARP_ATTEMPTS,
{
    questions_follow_attempts(events, target);
}

proof fn questions_follow_attempts(events: Seq<Event>, target: Ipv4Addr)
    ensures
        match arp_run(events, target) {
            ArpStage::Ask { attempt } => 1 <= attempt <= ARP_ATTEMPTS && questions(events, target)
                == attempt - 1,
            ArpStage::Listen { attempt, .. } => 1 <= attempt <= ARP_ATTEMPTS && questions(
                events,
                target,
            ) == attempt,
            ArpStage::Pause { attempt } => 1 <= attempt <= ARP_ATTEMPTS && questions(
                events,
                target,
            ) == attempt,
            ArpStage::Done { mac } => questions(events, target) <= ARP_ATTEMPTS && (mac is None
                ==> questions(events, target) == ARP_ATTEMPTS),
        },
    decreases events.len(),
{
    if events.len() > 0 {
        questions_follow_attempts(events.drop_last(), target);
    }
}

/// An address that was learnt was stated in a reply that was heard, and the
/// first such reply settles the matter for good.
pub proof fn learnt_address_was_heard(events: Seq<Event>, target: Ipv4Addr, later: Event)
    requires
        arp_run(events, target) matches ArpStage::Done { mac } && mac is Some,
    ensures
        exists|i: int|
            0 <= i < events.len() && (#[trigger] events[i] matches Event::Heard { frame, .. }
                && ArpStage::Done { mac: heard_answer(frame, target) } == arp_run(events, target)),
        arp_run(events.push(later), target) == arp_run(events, target),
    decreases events.len(),
{
    assert(events.push(later).drop_last() =~= events);
    let before = events.drop_last();
    if arp_run(before, target) == arp_run(events, target) {
        learnt_address_was_heard(before, target, later);
        let i = choose|i: int|
            0 <= i < before.len() && (#[trigger] before[i] matches Event::Heard { frame, .. }
                && ArpStage::Done { mac: heard_answer(frame, target) } == arp_run(before, target));
        assert(events[i] == before[i]);
    } else {
        assert(events[events.len() - 1] == events.last());
    }
}

/// Whether an event is that an ARP reply of the station at `target` was heard.
pub open spec fn is_reply_heard(event: Event, target: Ipv4Addr) -> bool {
    event matches Event::Heard { frame: Some(bytes), .. } && is_reply_of(bytes@, target)
}

/// When an event came, if it tells.
pub open spec fn came_at(event: Event) -> Option<u64> {
    match event {
        Event::Sent { now, .. } => Some(now),
        Event::Datagram { now, .. } => Some(now),
        Event::Quiet { now } => Some(now),
        Event::Heard { now, .. } => Some(now),
        Event::Rested => None,
    }
}

/// A question is followed by two seconds of listening, counted from when it was
/// sent: a reply of the target is learnt whenever it comes, and without one the
/// attempt is given up only when the time is over.
pub proof fn attempt_listens_for_two_seconds(
    attempt: u8,
    since: u64,
    event: Event,
    target: Ipv4Addr,
)
    ensures
        ({
            let stage = ArpStage::Listen { attempt, since };
            let next = arp_next(stage, event, target);
            &&& is_reply_heard(event, target) ==> {
                let bytes = event->Heard_frame->0@;
                next == (ArpStage::Done {
                    mac: Some(
                        MacAddr(bytes[22], bytes[23], bytes[24], bytes[25], bytes[26], bytes[27]),
                    ),
                })
            }
            &&& !is_reply_heard(event, target) && (came_at(event) matches Some(now) ==> now < since
                + 2_000_000_000) ==> next == stage
            &&& !is_reply_heard(event, target) && (event matches Event::Heard { now, .. } && now
                >= since + 2_000_000_000) ==> next == (ArpStage::Pause { attempt })
            &&& !(event is Heard) ==> next == stage
        }),
{
    match event {
        Event::Heard { frame: Some(bytes), .. } => replies_are_read(bytes@, target),
        _ => {},
    }
}

/// A question that was sent is listened for from then on; one that was not sent,
/// and one that was not answered, is followed by the next attempt, up to the third.
pub proof fn attempts_follow_each_other(attempt: u8, event: Event, target: Ipv4Addr)
    requires
        1 <= attempt <= 3,
    ensures
        ({
            let ask = ArpStage::Ask { attempt };
            let pause = ArpStage::Pause { attempt };
            let after = if attempt < 3 {
                ArpStage::Ask { attempt: (attempt + 1) as u8 }
            } else {
                ArpStage::Done { mac: None }
            };
            &&& event matches Event::Sent { ok, now } ==> arp_next(ask, event, target) == if ok {
                ArpStage::Listen { attempt, since: now }
            } else {
                after
            }
            &&& event !is Sent ==> arp_next(ask, event, target) == ask
            &&& event is Rested ==> arp_next(pause, event, target) == after
            &&& event !is Rested ==> arp_next(pause, event, target) == pause
        }),
{
}

/// Where a sequence of events leads from a stage.
pub open spec fn arp_run_from(stage: ArpStage, events: Seq<Event>, target: Ipv4Addr) -> ArpStage
    decreases events.len(),
{
    if events.len() == 0 {
        stage
    } else {
        arp_next(arp_run_from(stage, events.drop_last(), target), events.last(), target)
    }
}

/// A reply of the target that is heard within two seconds after a question was
/// sent is always learnt, whatever else comes in between.
pub proof fn reply_in_time_is_learnt(
    attempt: u8,
    sent: u64,
    between: Seq<Event>,
    reply: Event,
    target: Ipv4Addr,
)
    requires
        forall|i: int|
            0 <= i < between.len() ==> !is_reply_heard(#[trigger] between[i], target) && (came_at(
                between[i],
            ) matches Some(now) ==> now < sent + 2_000_000_000),
        is_reply_heard(reply, target),
    ensures
        ({
            let ask = ArpStage::Ask { attempt };
            let events = seq![Event::Sent { ok: true, now: sent }] + between;
            let bytes = reply->Heard_frame->0@;
            &&& arp_run_from(ask, events, target) == (ArpStage::Listen { attempt, since: sent })
            &&& arp_run_from(ask, events.push(reply), target) == (ArpStage::Done {
                mac: Some(
                    MacAddr(bytes[22], bytes[23], bytes[24], bytes[25], bytes[26], bytes[27]),
                ),
            })
        }),
{
    let ask = ArpStage::Ask { attempt };
    let events = seq![Event::Sent { ok: true, now: sent }] + between;
    still_listening(attempt, sent, between, target);
    attempt_listens_for_two_seconds(attempt, sent, reply, target);
    assert(events.push(reply).drop_last() =~= events);
}

proof fn still_listening(attempt: u8, sent: u64, between: Seq<Event>, target: Ipv4Addr)
    requires
        forall|i: int|
            0 <= i < between.len() ==> !is_reply_heard(#[trigger] between[i], target) && (came_at(
                between[i],
            ) matches Some(now) ==> now < sent + 2_000_000_000),
    ensures
        arp_run_from(
            ArpStage::Ask { attempt },
            seq![Event::Sent { ok: true, now: sent }] + between,
            target,
        ) == (ArpStage::Listen { attempt, since: sent }),
    decreases between.len(),
{
    let ask = ArpStage::Ask { attempt };
    let first = seq![Event::Sent { ok: true, now: sent }];
    let events = first + between;
    if between.len() == 0 {
        assert(events =~= first);
        assert(events.drop_last() =~= Seq::<Event>::empty());
        assert(events.last() == (Event::Sent { ok: true, now: sent }));
        reveal_with_fuel(arp_run_from, 2);
    } else {
        let front = between.drop_last();
        assert forall|i: int| 0 <= i < front.len() implies !is_reply_heard(
            #[trigger] front[i],
            target,
        ) && (came_at(front[i]) matches Some(now) ==> now < sent + 2_000_000_000) by {
            assert(front[i] == between[i]);
        }
        still_listening(attempt, sent, front, target);
        assert(events.drop_last() =~= first + front);
        assert(events.last() == between.last());
        attempt_listens_for_two_seconds(attempt, sent, between.last(), target);
    }
}

/// What is done to ask a station: the question is sent, the link is read for 30 ms
/// at a time, and a rest takes 300 ms.
pub proof fn asking_is_done_by_stages(
    stage: ArpStage,
    src_mac: MacAddr,
    src_ip: Ipv4Addr,
    target: Ipv4Addr,
)
    ensures
        stage is Ask ==> arp_wants(stage, src_mac, src_ip, target) == (ActionView::Send {
            frame: arp_request(src_mac, src_ip, target),
        }),
        stage is Listen ==> arp_wants(stage, src_mac, src_ip, target)
            == (ActionView::ReceiveFrame { timeout_ms: 30 }),
        stage is Pause ==> arp_wants(stage, src_mac, src_ip, target) == (ActionView::Rest {
            millis: 300,
        }),
        stage is Done ==> arp_wants(stage, src_mac, src_ip, target) == ActionView::Finish,
{
}

} // verus!
