use mrpcs::server::{PeerAddr, RecvHandle, SendError, Status};
use mrpcs::srvp::ServerPool;
use mrpcs::udpserver::PollOutcome;

#[test]
fn it_works() {
}

fn peer(ip: u32, port: u16) -> PeerAddr {
    PeerAddr::V4 { ip, port }
}

#[test]
fn pool_exclusivity() {
    let mut pool = ServerPool::new();
    assert!(pool.start_udp(4242, 2000, true, 1024));
    // a second start on the same port is refused and changes nothing
    assert!(!pool.start_udp(4242, 500, false, 64));
    assert!(pool.is_used(4242));
    assert_eq!(pool.ports().len(), 1);
    // the registered instance is the first one
    assert_eq!(pool.status_of(4242), Some(Status::Starting));
    // a different port is independent
    assert!(pool.start_udp(4243, 2000, false, 1024));
    assert_eq!(pool.ports().len(), 2);
}

#[test]
fn status_lifecycle() {
    let mut pool = ServerPool::new();
    assert!(pool.start_udp(5000, 200, true, 1024));
    assert_eq!(pool.status_of(5000), Some(Status::Starting));
    assert!(pool.begin_running(5000));
    assert_eq!(pool.status_of(5000), Some(Status::Running));
    // entering the running state twice is refused
    assert!(!pool.begin_running(5000));
    assert!(pool.request_stop(5000));
    assert_eq!(pool.status_of(5000), Some(Status::Stopping));
    assert!(pool.mark_stopped(5000));
    assert_eq!(pool.status_of(5000), Some(Status::Stopped));
    assert!(pool.remove_stopped(5000));
    assert_eq!(pool.status_of(5000), None);
}

#[test]
fn stop_before_running_keeps_order() {
    // a stop request can overtake the run loop: the instance then goes
    // Starting -> Stopping and the loop never moves it back to Running
    let mut pool = ServerPool::new();
    assert!(pool.start_udp(5001, 200, true, 1024));
    assert!(pool.request_stop(5001));
    assert_eq!(pool.status_of(5001), Some(Status::Stopping));
    assert!(!pool.begin_running(5001));
    assert_eq!(pool.status_of(5001), Some(Status::Stopping));
}

#[test]
fn double_stop_is_safe() {
    let mut pool = ServerPool::new();
    assert!(pool.start_udp(5002, 200, true, 1024));
    assert!(pool.request_stop(5002));
    // a second request finds the status already past Running and keeps it
    assert!(pool.request_stop(5002));
    assert_eq!(pool.status_of(5002), Some(Status::Stopping));
    // stopping an unknown port is a no-op
    assert!(!pool.request_stop(9999));
    assert!(!pool.remove_stopped(9999));
}

#[test]
fn shutdown_convergence() {
    let mut pool = ServerPool::new();
    assert!(pool.start_udp(6000, 200, true, 1024));
    assert!(pool.begin_running(6000));
    assert!(pool.request_stop(6000));
    // the entry is removable only once the instance reached Stopped
    assert!(!pool.remove_stopped(6000));
    assert!(pool.mark_stopped(6000));
    assert!(pool.remove_stopped(6000));
    assert_eq!(pool.status_of(6000), None);
    assert!(!pool.is_used(6000));
    // a new start on the same port succeeds
    assert!(pool.start_udp(6000, 200, true, 1024));
    assert_eq!(pool.status_of(6000), Some(Status::Starting));
}

#[test]
fn send_payload_bound() {
    let mut pool = ServerPool::new();
    assert!(pool.start_udp(7000, 200, true, 1024));
    let too_big = vec![7u8; 1025];
    assert_eq!(pool.prepare_send(7000, &too_big), Err(SendError::PayloadTooLarge));
    let just_fits = vec![7u8; 1024];
    let frame = pool.prepare_send(7000, &just_fits).unwrap();
    assert_eq!(frame, just_fits);
}

#[test]
fn send_not_found() {
    let pool = ServerPool::new();
    let data = vec![1u8, 2, 3];
    assert_eq!(pool.prepare_send(4242, &data), Err(SendError::NotFound));
}

#[test]
fn send_frame_is_payload() {
    let mut pool = ServerPool::new();
    assert!(pool.start_udp(7001, 200, true, 8));
    let data = vec![1u8, 2, 3];
    let frame = pool.prepare_send(7001, &data).unwrap();
    assert_eq!(frame, vec![1u8, 2, 3]);
}

#[test]
fn is_udp_query() {
    let mut pool = ServerPool::new();
    assert!(!pool.is_udp(4242));
    assert!(pool.start_udp(4242, 200, true, 1024));
    assert!(pool.is_udp(4242));
    assert!(pool.is_used(4242));
}

#[test]
fn fatal_error_still_converges() {
    // a fatal socket error routes the instance through Stopping to Stopped,
    // so a pool-level stop never hangs
    let mut pool = ServerPool::new();
    assert!(pool.start_udp(8000, 200, true, 1024));
    assert!(pool.begin_running(8000));
    let events = pool.poll_step(8000, PollOutcome::Fatal, 10).unwrap();
    assert_eq!(events.len(), 0);
    assert_eq!(pool.status_of(8000), Some(Status::Stopping));
    // the loop exits and settles the status
    assert!(pool.poll_step(8000, PollOutcome::Idle, 20).is_none());
    assert!(pool.mark_stopped(8000));
    assert_eq!(pool.status_of(8000), Some(Status::Stopped));
}

#[test]
fn scenario_ping_then_timeout() {
    // one instance with timeout 200 ms and buffer capacity 1024 sends
    // b"ping" to itself: the run loop picks the datagram up before the
    // sender's registration of the peer lands, so a message event with the
    // payload arrives first, and the pending expectation then expires into
    // exactly one timeout event for that peer
    let mut pool = ServerPool::new();
    assert!(pool.start_udp(9000, 200, true, 1024));
    assert!(pool.begin_running(9000));
    let me = peer(2130706433, 9000);

    let payload = vec![b'p', b'i', b'n', b'g'];
    let frame = pool.prepare_send(9000, &payload).unwrap();
    assert_eq!(frame, payload);

    // the datagram comes back through the socket at t = 10 ms
    let events = pool
        .poll_step(9000, PollOutcome::Datagram { addr: me, time: 10, data: frame }, 10)
        .unwrap();
    assert_eq!(events.len(), 1);
    match &events[0] {
        RecvHandle::Mess(m) => {
            assert_eq!(*m.get_port(), 9000);
            assert_eq!(*m.get_addr(), me);
            assert_eq!(*m.get_time(), 10);
            assert_eq!(*m.get_data(), payload);
        }
        RecvHandle::Timeout(_) => panic!("expected a message event"),
    }

    // the send completes its registration of the peer at t = 10 ms
    assert!(pool.record_send(9000, me, 10));

    // no further traffic: at t = 260 ms the peer has been silent past the
    // timeout, and exactly one timeout event is produced
    let events = pool.poll_step(9000, PollOutcome::Idle, 260).unwrap();
    assert_eq!(events.len(), 1);
    match &events[0] {
        RecvHandle::Timeout(a) => assert_eq!(*a, me),
        RecvHandle::Mess(_) => panic!("expected a timeout event"),
    }

    // and never a second one
    let events = pool.poll_step(9000, PollOutcome::Idle, 400).unwrap();
    assert_eq!(events.len(), 0);
}

#[test]
fn message_clears_pending_timeout() {
    // send registers the peer; its datagram arrives before the timeout, so
    // no timeout event is ever produced for that send
    let mut pool = ServerPool::new();
    assert!(pool.start_udp(9100, 200, true, 1024));
    assert!(pool.begin_running(9100));
    let who = peer(167772161, 5353);

    assert!(pool.record_send(9100, who, 0));
    let events = pool
        .poll_step(9100, PollOutcome::Datagram { addr: who, time: 50, data: vec![1u8] }, 50)
        .unwrap();
    assert_eq!(events.len(), 1);
    assert!(matches!(&events[0], RecvHandle::Mess(_)));

    // long past the timeout, nothing is pending for the peer
    let events = pool.poll_step(9100, PollOutcome::Idle, 1000).unwrap();
    assert_eq!(events.len(), 0);
}
