//! Waiting for packets: the queue of captured frames and the waits on a socket.

use std::sync::atomic::AtomicBool;
use std::sync::mpsc::Receiver;
use std::sync::Arc;
use std::time::Duration;
use vstd::prelude::*;

verus! {

/// The receiving end of a channel of the standard library.
#[verifier::external_type_specification]
#[verifier::external_body]
#[verifier::reject_recursive_types(T)]
pub struct ExReceiver<T>(std::sync::mpsc::Receiver<T>);

/// What came of waiting on a channel.
#[derive(Debug)]
pub enum Received {
    Frame(Vec<u8>),
    Timeout,
    Disconnected,
}

/// Calls `Receiver::recv_timeout` of the standard library and tells its three
/// outcomes apart. What comes is up to the sending side and to the clock, so
/// nothing is claimed of it.
#[verifier::external_body]
fn receive(rx: &Receiver<Vec<u8>>, timeout: Duration) -> Received {
    match rx.recv_timeout(timeout) {
        Ok(frame) => Received::Frame(frame),
        Err(std::sync::mpsc::RecvTimeoutError::Timeout) => Received::Timeout,
        Err(std::sync::mpsc::RecvTimeoutError::Disconnected) => Received::Disconnected,
    }
}

/// The frame that was received, if one was: running out of time and having lost
/// the sender are both no frame.
pub open spec fn frame_of(received: Received) -> Option<Vec<u8>> {
    match received {
        Received::Frame(frame) => Some(frame),
        Received::Timeout => None,
        Received::Disconnected => None,
    }
}

/// The frame that was received, if one was.
pub fn received_frame(received: Received) -> (r: Option<Vec<u8>>)
    ensures
        r == frame_of(received),
{
    match received {
        Received::Frame(frame) => Some(frame),
        Received::Timeout | Received::Disconnected => None,
    }
}

/// Calls `AtomicBool::store` of the standard library, which never panics, to set
/// the flag. Who else reads or writes the flag is not modelled.
#[verifier::external_body]
fn store_flag(flag: &Arc<AtomicBool>, value: bool)
    opens_invariants none
    no_unwind
{
    flag.store(value, std::sync::atomic::Ordering::Relaxed);
}

/// A queue of frames that a capturing thread fills, and the flag that tells the
/// thread to stop.
pub struct PacketReceiver {
    rx: Receiver<Vec<u8>>,
    stop_signal: Arc<AtomicBool>,
}

impl PacketReceiver {
    /// The queue of captured frames.
    pub closed spec fn queue(self) -> Receiver<Vec<u8>> {
        self.rx
    }

    /// The flag that tells the capturing thread to stop.
    pub closed spec fn stop_flag(self) -> Arc<AtomicBool> {
        self.stop_signal
    }

    /// Whether `value` was stored in the flag that tells the capturing thread to
    /// stop.
    pub closed spec fn flag_stored(self, value: bool) -> bool {
        call_ensures(store_flag, (&self.stop_signal, value), ())
    }

    /// Whether `received` is what a wait of at most `timeout` on this queue may come
    /// to.
    pub closed spec fn may_receive(self, timeout: Duration, received: Received) -> bool {
        call_ensures(receive, (&self.rx, timeout), received)
    }

    /// The receiver of the frames that come through `rx`. Its capturing thread
    /// stops on `stop_signal`.
    pub fn new(rx: Receiver<Vec<u8>>, stop_signal: Arc<AtomicBool>) -> (r: PacketReceiver)
        ensures
            r.queue() == rx,
            r.stop_flag() == stop_signal,
    {
        PacketReceiver { rx, stop_signal }
    }

    /// The next captured frame, or `None` if none comes within `timeout` or the
    /// capturing thread has ended. What comes of the wait on the queue depends on
    /// that thread and on the clock.
    pub fn recv_with_timeout(&self, timeout: Duration) -> (r: Option<Vec<u8>>)
        ensures
            exists|received: Received| #[trigger]
                self.may_receive(timeout, received) && r == frame_of(received),
    {
        let received = receive(&self.rx, timeout);
        assert(self.may_receive(timeout, received));
        received_frame(received)
    }
}

impl Drop for PacketReceiver {
    /// Tells the capturing thread to stop.
    fn drop(&mut self)
        ensures
            old(self).flag_stored(true),
        opens_invariants none
        no_unwind
    {
        store_flag(&self.stop_signal, true);
    }
}

// ---------------------------------------------------------------------------
// The capturing thread

/// How long to rest, in milliseconds, after a read that brought nothing.
pub const IDLE_PAUSE_MS: u64 = 5;

/// What the capturing thread has just seen.
#[derive(Clone, Copy, PartialEq, Eq, Structural, Debug)]
pub enum CaptureEvent {
    /// The stop flag was read.
    FlagRead { stop: bool },
    /// A frame was captured.
    Captured,
    /// The read failed or timed out.
    ReadFailed,
    /// The frame was handed to the queue; `delivered` if its receiver still exists.
    Forwarded { delivered: bool },
    /// The pause is over.
    Rested,
}

/// What the capturing thread does next.
#[derive(Clone, Copy, PartialEq, Eq, Structural, Debug)]
pub enum CaptureAction {
    ReadFlag,
    ReadFrame,
    Forward,
    Rest { millis: u64 },
    End,
}

/// The capturing thread reads frames and forwards them until the stop flag is
/// set or nobody receives them any more; it rests after a failed read.
pub open spec fn capture_next(event: CaptureEvent) -> CaptureAction {
    match event {
        CaptureEvent::FlagRead { stop } => if stop {
            CaptureAction::End
        } else {
            CaptureAction::ReadFrame
        },
        CaptureEvent::Captured => CaptureAction::Forward,
        CaptureEvent::ReadFailed => CaptureAction::Rest { millis: IDLE_PAUSE_MS },
        CaptureEvent::Forwarded { delivered } => if delivered {
            CaptureAction::ReadFlag
        } else {
            CaptureAction::End
        },
        CaptureEvent::Rested => CaptureAction::ReadFlag,
    }
}

/// Decides what the capturing thread does after `event`.
pub fn capture_step(event: CaptureEvent) -> (r: CaptureAction)
    ensures
        r == capture_next(event),
{
    match event {
        CaptureEvent::FlagRead { stop } => {
            if stop {
                CaptureAction::End
            } else {
                CaptureAction::ReadFrame
            }
        },
        CaptureEvent::Captured => CaptureAction::Forward,
        CaptureEvent::ReadFailed => CaptureAction::Rest { millis: IDLE_PAUSE_MS },
        CaptureEvent::Forwarded { delivered } => {
            if delivered {
                CaptureAction::ReadFlag
            } else {
                CaptureAction::End
            }
        },
        CaptureEvent::Rested => CaptureAction::ReadFlag,
    }
}

/// The capturing thread ends on a set flag and on a lost receiver, and on
/// nothing else.
pub proof fn capture_ends_only_when_told(event: CaptureEvent)
    ensures
        capture_next(event) == CaptureAction::End <==> (event == (CaptureEvent::FlagRead {
            stop: true,
        }) || event == (CaptureEvent::Forwarded { delivered: false })),
{
}

// ---------------------------------------------------------------------------
// Waiting for a datagram

/// What a wait on a socket that does not block has just seen.
#[derive(Clone, Copy, PartialEq, Eq, Structural, Debug)]
pub enum WaitEvent {
    /// The wait has lasted for so many nanoseconds.
    Clock { elapsed: u64 },
    /// A datagram was read.
    Datagram,
    /// The read would block or failed.
    NothingRead,
    /// The pause is over.
    Rested,
}

/// What a wait on a socket does next.
#[derive(Clone, Copy, PartialEq, Eq, Structural, Debug)]
pub enum WaitAction {
    ReadClock,
    ReadSocket,
    /// The wait ends with the datagram.
    Deliver,
    Rest { millis: u64 },
    /// The wait ends with nothing.
    GiveUp,
}

/// A wait reads the socket again and again, with a rest after each read that
/// brought nothing, and starts no read once `timeout` nanoseconds have passed.
pub open spec fn wait_next(event: WaitEvent, timeout: u64) -> WaitAction {
    match event {
        WaitEvent::Clock { elapsed } => if elapsed < timeout {
            WaitAction::ReadSocket
        } else {
            WaitAction::GiveUp
        },
        WaitEvent::Datagram => WaitAction::Deliver,
        WaitEvent::NothingRead => WaitAction::Rest { millis: IDLE_PAUSE_MS },
        WaitEvent::Rested => WaitAction::ReadClock,
    }
}

/// Decides what a wait of at most `timeout` nanoseconds does after `event`.
pub fn wait_step(event: WaitEvent, timeout: u64) -> (r: WaitAction)
    ensures
        r == wait_next(event, timeout),
{
    match event {
        WaitEvent::Clock { elapsed } => {
            if elapsed < timeout {
                WaitAction::ReadSocket
            } else {
                WaitAction::GiveUp
            }
        },
        WaitEvent::Datagram => WaitAction::Deliver,
        WaitEvent::NothingRead => WaitAction::Rest { millis: IDLE_PAUSE_MS },
        WaitEvent::Rested => WaitAction::ReadClock,
    }
}

/// No read is started once the time is over, and none before the clock was read.
pub proof fn reads_only_in_time(event: WaitEvent, timeout: u64)
    ensures
        wait_next(event, timeout) == WaitAction::ReadSocket <==> (event matches WaitEvent::Clock {
            elapsed,
        } && elapsed < timeout),
{
}

/// A wait delivers every datagram that was read, goes on after a read that brought
/// nothing, and gives up only when its time is over.
pub proof fn waits_for_the_whole_time(event: WaitEvent, timeout: u64)
    ensures
        wait_next(event, timeout) == WaitAction::Deliver <==> event == WaitEvent::Datagram,
        wait_next(event, timeout) == WaitAction::GiveUp <==> (event matches WaitEvent::Clock {
            elapsed,
        } && elapsed >= timeout),
        wait_next(event, timeout) == WaitAction::ReadClock <==> event == WaitEvent::Rested,
        event == WaitEvent::NothingRead ==> wait_next(event, timeout) == (WaitAction::Rest {
            millis: 5,
        }),
{
}

/// Every captured frame is forwarded, and the flag is read again before the next
/// read.
pub proof fn every_frame_is_forwarded(event: CaptureEvent)
    ensures
        capture_next(event) == CaptureAction::Forward <==> event == CaptureEvent::Captured,
        capture_next(event) == CaptureAction::ReadFrame <==> event == (CaptureEvent::FlagRead {
            stop: false,
        }),
        capture_next(event) == CaptureAction::ReadFlag <==> event == CaptureEvent::Rested || event
            == (CaptureEvent::Forwarded { delivered: true }),
        event == CaptureEvent::ReadFailed ==> capture_next(event) == (CaptureAction::Rest {
            millis: 5,
        }),
{
}

/// A frame that came is handed on, whatever is in it; else there is none.
pub proof fn received_frame_is_handed_on(received: Received)
    ensures
        received matches Received::Frame(frame) ==> frame_of(received) == Some(frame),
        received !is Frame ==> frame_of(received) is None,
{
}

} // verus!
