//! What happens to a running diagnosis and what it asks for: the steps between
//! its decisions.

use crate::addr::IpAddr;
use crate::dhcp::{dhcp_fields, mended, offer_of, parse_dhcp_offer, DhcpOfferInfo};
use vstd::prelude::*;

verus! {

/// What has just happened. `now` is a reading of a clock that never runs
/// backwards, in nanoseconds.
#[derive(Debug)]
pub enum Event {
    /// The frame was handed to the link; `ok` if the link took it.
    Sent { ok: bool, now: u64 },
    /// A datagram came; `offer` is the offer in it, if it holds one.
    Datagram { offer: Option<DhcpOfferInfo>, source: IpAddr, now: u64 },
    /// No datagram came in time.
    Quiet { now: u64 },
    /// The wait for a captured frame is over, with a frame or without.
    Heard { frame: Option<Vec<u8>>, now: u64 },
    /// The rest is over.
    Rested,
}

/// What is to be done next.
#[derive(Debug)]
pub enum Action {
    Send { frame: Vec<u8> },
    ReceiveDatagram { timeout_ms: u64 },
    ReceiveFrame { timeout_ms: u64 },
    Rest { millis: u64 },
    Finish,
}

/// An action, its frame by content.
pub enum ActionView {
    Send { frame: Seq<u8> },
    ReceiveDatagram { timeout_ms: u64 },
    ReceiveFrame { timeout_ms: u64 },
    Rest { millis: u64 },
    Finish,
}

impl View for Action {
    type V = ActionView;

    open spec fn view(&self) -> ActionView {
        match self {
            Action::Send { frame } => ActionView::Send { frame: frame@ },
            Action::ReceiveDatagram { timeout_ms } => ActionView::ReceiveDatagram {
                timeout_ms: *timeout_ms,
            },
            Action::ReceiveFrame { timeout_ms } => ActionView::ReceiveFrame {
                timeout_ms: *timeout_ms,
            },
            Action::Rest { millis } => ActionView::Rest { millis: *millis },
            Action::Finish => ActionView::Finish,
        }
    }
}

/// The event that a datagram is.
pub fn datagram_event(data: &[u8], source: IpAddr, now: u64) -> (r: Event)
    ensures
        r == (Event::Datagram { offer: offer_of(dhcp_fields(mended(data@))), source, now }),
{
    Event::Datagram { offer: parse_dhcp_offer(data), source, now }
}

/// Whether `limit` nanoseconds have not yet passed since `since`.
pub open spec fn in_time(since: u64, now: u64, limit: u64) -> bool {
    now < since + limit
}

/// Whether `limit` nanoseconds have not yet passed since `since`.
pub fn still_in_time(since: u64, now: u64, limit: u64) -> (r: bool)
    ensures
        r == in_time(since, now, limit),
{
    now < since || now - since < limit
}

} // verus!
