use sonar::receiver::{
    capture_step, received_frame, wait_step, CaptureAction, CaptureEvent, PacketReceiver, Received,
    WaitAction, WaitEvent,
};
use std::sync::atomic::AtomicBool;
use std::sync::mpsc::channel;
use std::sync::Arc;
use std::time::Duration;

#[test]
fn frames_come_in_order() {
    let (tx, rx) = channel::<Vec<u8>>();
    let receiver = PacketReceiver::new(rx, Arc::new(AtomicBool::new(false)));
    tx.send(vec![1, 2, 3]).unwrap();
    tx.send(vec![4]).unwrap();
    assert_eq!(receiver.recv_with_timeout(Duration::from_millis(30)), Some(vec![1, 2, 3]));
    assert_eq!(receiver.recv_with_timeout(Duration::from_millis(30)), Some(vec![4]));
    assert_eq!(receiver.recv_with_timeout(Duration::from_millis(1)), None);
}

#[test]
fn lost_sender_is_no_frame() {
    let (tx, rx) = channel::<Vec<u8>>();
    let receiver = PacketReceiver::new(rx, Arc::new(AtomicBool::new(false)));
    tx.send(vec![7]).unwrap();
    drop(tx);
    assert_eq!(receiver.recv_with_timeout(Duration::from_secs(5)), Some(vec![7]));
    assert_eq!(receiver.recv_with_timeout(Duration::from_secs(5)), None);
}

#[test]
fn dropping_the_receiver_sets_the_flag() {
    let (_tx, rx) = channel::<Vec<u8>>();
    let stop = Arc::new(AtomicBool::new(false));
    let receiver = PacketReceiver::new(rx, stop.clone());
    assert!(!stop.load(std::sync::atomic::Ordering::Relaxed));
    drop(receiver);
    assert!(stop.load(std::sync::atomic::Ordering::Relaxed));
}

#[test]
fn outcomes_of_waiting() {
    assert_eq!(received_frame(Received::Frame(vec![9])), Some(vec![9]));
    assert_eq!(received_frame(Received::Timeout), None);
    assert_eq!(received_frame(Received::Disconnected), None);
}

#[test]
fn capturing_goes_on_until_told() {
    assert_eq!(capture_step(CaptureEvent::FlagRead { stop: false }), CaptureAction::ReadFrame);
    assert_eq!(capture_step(CaptureEvent::FlagRead { stop: true }), CaptureAction::End);
    assert_eq!(capture_step(CaptureEvent::Captured), CaptureAction::Forward);
    assert_eq!(capture_step(CaptureEvent::ReadFailed), CaptureAction::Rest { millis: 5 });
    assert_eq!(capture_step(CaptureEvent::Rested), CaptureAction::ReadFlag);
    assert_eq!(
        capture_step(CaptureEvent::Forwarded { delivered: true }),
        CaptureAction::ReadFlag
    );
    assert_eq!(capture_step(CaptureEvent::Forwarded { delivered: false }), CaptureAction::End);
}

#[test]
fn waiting_ends_with_time_or_datagram() {
    assert_eq!(wait_step(WaitEvent::Clock { elapsed: 49 }, 50), WaitAction::ReadSocket);
    assert_eq!(wait_step(WaitEvent::Clock { elapsed: 50 }, 50), WaitAction::GiveUp);
    assert_eq!(wait_step(WaitEvent::Datagram, 50), WaitAction::Deliver);
    assert_eq!(wait_step(WaitEvent::NothingRead, 50), WaitAction::Rest { millis: 5 });
    assert_eq!(wait_step(WaitEvent::Rested, 50), WaitAction::ReadClock);
}
