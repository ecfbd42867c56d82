use mrpcs::server::{PeerAddr, RecvHandle, RecvMess, SendError, Status};
use mrpcs::tracker::PeerTimeoutTracker;
use mrpcs::udpserver::{PollOutcome, UdpServInstance};

fn peer(ip: u32, port: u16) -> PeerAddr {
    PeerAddr::V4 { ip, port }
}

#[test]
fn instance_accessors() {
    let mut u = UdpServInstance::new(4242, 2000, true, 1024);
    assert_eq!(u.get_status(), Status::Starting);
    assert!(!u.is_running());
    assert_eq!(u.get_timeout(), 2000);
    u.set_timeout(350);
    assert_eq!(u.get_timeout(), 350);
    u.begin_run();
    assert_eq!(u.get_status(), Status::Running);
    assert!(u.is_running());
    u.stop();
    assert_eq!(u.get_status(), Status::Stopping);
    assert!(!u.is_running());
    u.finish_run();
    assert_eq!(u.get_status(), Status::Stopped);
    // a late stop request does not move the status backwards
    u.stop();
    assert_eq!(u.get_status(), Status::Stopped);
}

#[test]
fn recv_mess_getters() {
    let who = peer(2130706433, 4321);
    let m = RecvMess::new(4242, who, 77, vec![4u8, 5, 6]);
    assert_eq!(*m.get_port(), 4242);
    assert_eq!(*m.get_addr(), who);
    assert_eq!(*m.get_time(), 77);
    assert_eq!(*m.get_data(), vec![4u8, 5, 6]);
}

#[test]
fn timeout_round_trip() {
    // a successful send arms the tracker; with no reply, the sweep at or
    // past the timeout reports the peer exactly once and forgets it
    let mut u = UdpServInstance::new(4242, 200, true, 1024);
    u.begin_run();
    let who = peer(2130706433, 9999);
    u.record_send(who, 0);

    // before the timeout nothing is reported
    let events = u.sweep(100);
    assert_eq!(events.len(), 0);

    // at 250 ms the peer is 250 ms silent: one timeout event
    let events = u.sweep(250);
    assert_eq!(events.len(), 1);
    match &events[0] {
        RecvHandle::Timeout(a) => assert_eq!(*a, who),
        RecvHandle::Mess(_) => panic!("expected a timeout event"),
    }

    // and only one: later sweeps stay silent
    let events = u.sweep(300);
    assert_eq!(events.len(), 0);
}

#[test]
fn sweep_boundary_is_inclusive() {
    // a peer whose age equals the timeout is already expired
    let mut u = UdpServInstance::new(4242, 200, true, 1024);
    let who = peer(167772161, 1);
    u.record_send(who, 100);
    assert_eq!(u.sweep(299).len(), 0);
    assert_eq!(u.sweep(300).len(), 1);
}

#[test]
fn resend_refreshes_the_deadline() {
    let mut u = UdpServInstance::new(4242, 200, true, 1024);
    let who = peer(167772161, 2);
    u.record_send(who, 0);
    // a second send at 150 ms re-arms the peer
    u.record_send(who, 150);
    assert_eq!(u.sweep(200).len(), 0);
    assert_eq!(u.sweep(350).len(), 1);
}

#[test]
fn run_step_message_then_sweep() {
    let mut u = UdpServInstance::new(4242, 200, true, 1024);
    u.begin_run();
    let near = peer(1, 10);
    let far = peer(2, 20);
    u.record_send(near, 0);
    u.record_send(far, 0);

    // at 250 ms a datagram from `near` arrives; `far` stays silent: the
    // message event comes first, then exactly one timeout for `far`
    let events = u.run_step(
        PollOutcome::Datagram { addr: near, time: 250, data: vec![9u8] },
        250,
    );
    assert_eq!(events.len(), 2);
    match &events[0] {
        RecvHandle::Mess(m) => {
            assert_eq!(*m.get_addr(), near);
            assert_eq!(*m.get_data(), vec![9u8]);
        }
        RecvHandle::Timeout(_) => panic!("expected the message event first"),
    }
    match &events[1] {
        RecvHandle::Timeout(a) => assert_eq!(*a, far),
        RecvHandle::Mess(_) => panic!("expected a timeout event"),
    }

    // nothing is pending afterwards
    assert_eq!(u.run_step(PollOutcome::Idle, 1000).len(), 0);
}

#[test]
fn run_step_fatal_goes_to_stopping() {
    let mut u = UdpServInstance::new(4242, 200, true, 1024);
    u.begin_run();
    let events = u.run_step(PollOutcome::Fatal, 5);
    assert_eq!(events.len(), 0);
    assert_eq!(u.get_status(), Status::Stopping);
    u.finish_run();
    assert_eq!(u.get_status(), Status::Stopped);
}

#[test]
fn payload_too_large_is_rejected() {
    let u = UdpServInstance::new(4242, 200, true, 4);
    assert_eq!(u.prepare_frame(&vec![1u8; 5]), Err(SendError::PayloadTooLarge));
    assert_eq!(u.prepare_frame(&vec![1u8; 4]), Ok(vec![1u8; 4]));
    assert_eq!(u.prepare_frame(&vec![]), Ok(vec![]));
}

#[test]
fn tracker_touch_clear_contains() {
    let mut t = PeerTimeoutTracker::new();
    let a = peer(1, 1);
    let b = peer(1, 2);
    assert!(!t.contains(a));
    t.touch(a, 10);
    t.touch(b, 20);
    assert!(t.contains(a));
    assert!(t.contains(b));
    t.clear(a);
    assert!(!t.contains(a));
    assert!(t.contains(b));
    // clearing an absent peer is a no-op
    t.clear(a);
    assert!(t.contains(b));
}

#[test]
fn tracker_sweep_partitions() {
    let mut t = PeerTimeoutTracker::new();
    let young = peer(1, 1);
    let old_one = peer(1, 2);
    let older = peer(1, 3);
    t.touch(old_one, 0);
    t.touch(older, 10);
    t.touch(young, 400);
    let evicted = t.sweep(200, 500);
    assert_eq!(evicted.len(), 2);
    assert!(evicted.contains(&old_one));
    assert!(evicted.contains(&older));
    assert!(!t.contains(old_one));
    assert!(!t.contains(older));
    assert!(t.contains(young));
}

#[test]
fn v6_peers_are_distinct() {
    let mut t = PeerTimeoutTracker::new();
    let a4 = PeerAddr::V4 { ip: 1, port: 1 };
    let a6 = PeerAddr::V6 { ip: 1, port: 1 };
    t.touch(a4, 0);
    assert!(t.contains(a4));
    assert!(!t.contains(a6));
}
