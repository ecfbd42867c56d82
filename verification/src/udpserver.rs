//! One datagram listener: its lifecycle status, its configuration and the
//! peers it awaits.  The bound socket and the thread that polls it live
//! outside the verified core; each loop iteration reports its poll outcome to
//! `run_step`, which decides the events to dispatch and the next state.

use vstd::prelude::*;

use crate::server::{status_rank, status_step, PeerAddr, RecvHandle, RecvMess, SendError, Status};
use crate::tracker::{survivors, timed_out, PeerTimeoutTracker};

verus! {

/// What one poll of the listener's socket produced.
pub enum PollOutcome {
    /// A datagram arrived: its sender, its arrival time (milliseconds of the
    /// caller's clock, captured at receipt) and its payload, truncated to the
    /// read length.
    Datagram { addr: PeerAddr, time: u64, data: Vec<u8> },
    /// The read timed out or failed transiently: no data this cycle.
    Idle,
    /// The socket failed fatally: the instance must shut down.
    Fatal,
}

/// The peers still awaited once a poll outcome has been applied: an arriving
/// datagram clears its sender from the tracked map.
pub open spec fn after_arrival(poll: PollOutcome, m: Map<PeerAddr, u64>) -> Map<PeerAddr, u64> {
    match poll {
        PollOutcome::Datagram { addr, .. } => m.remove(addr),
        _ => m,
    }
}

/// The events from index `start` on are the timeout reports of the sweep of
/// `m`: every expired peer is reported exactly once, and nothing else is.
pub open spec fn timeout_section(
    events: Seq<RecvHandle>,
    start: int,
    m: Map<PeerAddr, u64>,
    timeout: u64,
    now: u64,
) -> bool {
    &&& forall|i: int|
        start <= i < events.len() ==> ((#[trigger] events[i]) matches RecvHandle::Timeout(_))
    &&& forall|a: PeerAddr|
        #[trigger] timed_out(m, timeout, now).contains(a) <==> exists|i: int|
            start <= i < events.len() && events[i] == RecvHandle::Timeout(a)
    &&& forall|i: int, j: int| start <= i < j < events.len() ==> events[i] != events[j]
}

/// The full effect of one run-loop iteration, from the instance state `u0`
/// before the step to `u1` after it: the status only advances (to `Stopping`
/// on a fatal poll), an arriving datagram heads the events and clears its
/// sender, and the expired peers among those awaited afterwards are evicted
/// and reported exactly once each.
pub open spec fn run_step_post(
    u0: UdpServInstance,
    u1: UdpServInstance,
    poll: PollOutcome,
    now: u64,
    events: Seq<RecvHandle>,
) -> bool {
    &&& u1.wf()
    &&& u1.same_config(&u0)
    &&& u1.status == (if poll is Fatal {
        Status::Stopping
    } else {
        Status::Running
    })
    &&& status_step(u0.status, u1.status)
    &&& (poll is Fatal ==> u1.tracker@ == u0.tracker@ && events.len() == 0)
    &&& (!(poll is Fatal) ==> u1.tracker@ == survivors(
        after_arrival(poll, u0.tracker@),
        u0.timeout,
        now,
    ))
    &&& (poll matches PollOutcome::Datagram { addr, time, data } ==> events.len() >= 1
        && events[0] == (RecvHandle::Mess(RecvMess { port: u0.port, addr, time, data }))
        && timeout_section(events, 1, u0.tracker@.remove(addr), u0.timeout, now))
    &&& (poll is Idle ==> timeout_section(events, 0, u0.tracker@, u0.timeout, now))
}

/// Instance of a UDP server: everything about the listener except the socket
/// itself.
pub struct UdpServInstance {
    /// Port used by the instance.
    pub port: u16,
    /// Instance status.
    pub status: Status,
    /// Whether the instance listens on the IPv4 wildcard address (IPv6
    /// otherwise).
    pub v4: bool,
    /// Socket and peer-eviction timeout, in milliseconds.
    pub timeout: u64,
    /// Receive buffer capacity: the maximum size of one datagram, in bytes.
    pub buff_len: usize,
    /// Peers the instance awaits a reply from.
    pub tracker: PeerTimeoutTracker,
}

impl UdpServInstance {
    /// The instance's internal shape is sound.
    pub open spec fn wf(&self) -> bool {
        self.tracker.wf()
    }

    /// The configuration fields two instance values share when only status or
    /// tracked peers changed.
    pub open spec fn same_config(&self, other: &UdpServInstance) -> bool {
        &&& self.port == other.port
        &&& self.v4 == other.v4
        &&& self.timeout == other.timeout
        &&& self.buff_len == other.buff_len
    }

    /// Create a new instance in the `Starting` state, awaiting no peer.  The
    /// caller binds the matching socket.
    pub fn new(port: u16, timeout: u64, v4: bool, blen: usize) -> (r: UdpServInstance)
        ensures
            r.wf(),
            r.port == port,
            r.timeout == timeout,
            r.v4 == v4,
            r.buff_len == blen,
            r.status == Status::Starting,
            r.tracker@ == Map::<PeerAddr, u64>::empty(),
    {
        UdpServInstance {
            port,
            status: Status::Starting,
            v4,
            timeout,
            buff_len: blen,
            tracker: PeerTimeoutTracker::new(),
        }
    }

    /// Test if the instance's status is `Status::Running`.
    pub fn is_running(&self) -> (r: bool)
        ensures
            r == (self.status == Status::Running),
    {
        match self.status {
            Status::Running => true,
            _ => false,
        }
    }

    /// The current status.
    pub fn get_status(&self) -> (r: Status)
        ensures
            r == self.status,
    {
        self.status
    }

    /// Set the timeout, in milliseconds.  The caller mirrors it onto the
    /// socket's read and write timeouts.
    pub fn set_timeout(&mut self, d: u64)
        ensures
            final(self).timeout == d,
            final(self).port == old(self).port,
            final(self).v4 == old(self).v4,
            final(self).buff_len == old(self).buff_len,
            final(self).status == old(self).status,
            final(self).tracker == old(self).tracker,
    {
        self.timeout = d;
    }

    /// The configured timeout, in milliseconds.
    pub fn get_timeout(&self) -> (r: u64)
        ensures
            r == self.timeout,
    {
        self.timeout
    }

    /// Enter the running state.  The run loop performs this once, at its top.
    pub fn begin_run(&mut self)
        requires
            old(self).status == Status::Starting,
        ensures
            final(self).status == Status::Running,
            status_step(old(self).status, final(self).status),
            final(self).same_config(old(self)),
            final(self).tracker == old(self).tracker,
    {
        self.status = Status::Running;
    }

    /// Request the instance to stop: advance a live status to `Stopping`.
    /// The run loop observes the change and exits; a status already at or
    /// past `Stopping` is left as it is, so observed statuses never move
    /// backwards.
    pub fn stop(&mut self)
        ensures
            final(self).status == (if status_rank(old(self).status) < status_rank(
                Status::Stopping,
            ) {
                Status::Stopping
            } else {
                old(self).status
            }),
            status_step(old(self).status, final(self).status),
            final(self).same_config(old(self)),
            final(self).tracker == old(self).tracker,
    {
        match self.status {
            Status::Starting => self.status = Status::Stopping,
            Status::Running => self.status = Status::Stopping,
            _ => (),
        }
    }

    /// Leave the run loop: the instance has observed the stop request (or hit
    /// a fatal error, which also routes through `Stopping`) and settles at
    /// `Stopped`.
    pub fn finish_run(&mut self)
        requires
            old(self).status == Status::Stopping,
        ensures
            final(self).status == Status::Stopped,
            status_step(old(self).status, final(self).status),
            final(self).same_config(old(self)),
            final(self).tracker == old(self).tracker,
    {
        self.status = Status::Stopped;
    }

    /// One iteration of the run loop, given what the socket poll produced at
    /// time `now`: an arriving datagram becomes a message event and clears
    /// its sender from the awaited peers; then the expired peers are evicted,
    /// a timeout event each; a fatal socket error instead routes the instance
    /// to `Stopping` so the loop exits and the status still converges.
    #[verifier::loop_isolation(false)]
    pub fn run_step(&mut self, poll: PollOutcome, now: u64) -> (events: Vec<RecvHandle>)
        requires
            old(self).wf(),
            old(self).status == Status::Running,
        ensures
            run_step_post(*old(self), *final(self), poll, now, events@),
    {
        let mut events: Vec<RecvHandle> = Vec::new();
        let ghost p0 = poll;
        match poll {
            PollOutcome::Datagram { addr, time, data } => {
                let ghost d = data;
                let ev = RecvHandle::Mess(RecvMess::new(self.port, addr, time, data));
                proof {
                    assert(p0 =~= PollOutcome::Datagram { addr, time, data: d });
                    assert(ev =~= RecvHandle::Mess(
                        RecvMess { port: self.port, addr, time, data: d },
                    ));
                }
                self.tracker.clear(addr);
                events.push(ev);
            },
            PollOutcome::Idle => {},
            PollOutcome::Fatal => {
                self.status = Status::Stopping;
                return events;
            },
        }
        let ghost mid = self.tracker@;
        let t = self.timeout;
        let evicted = self.tracker.sweep(t, now);
        let ghost start = events@.len();
        let ghost base = events@;
        let mut i: usize = 0;
        while i < evicted.len()
            invariant
                i <= evicted@.len(),
                start == base.len(),
                events@.len() == start + i,
                forall|j: int| 0 <= j < start ==> events@[j] == base[j],
                forall|j: int|
                    0 <= j < i ==> events@[start + j] == RecvHandle::Timeout(evicted@[j]),
            decreases evicted@.len() - i,
        {
            events.push(RecvHandle::Timeout(evicted[i]));
            i = i + 1;
        }
        proof {
            // the message event pushed before the sweep stays at the head
            if p0 is Datagram {
                assert(start == 1);
                assert(events@[0] == base[0]);
            }
            assert forall|a: PeerAddr| #[trigger]
                timed_out(mid, t, now).contains(a) implies exists|idx: int|
                start <= idx < events@.len() && events@[idx] == RecvHandle::Timeout(a) by {
                assert(evicted@.contains(a));
                let j = choose|j: int| 0 <= j < evicted@.len() && evicted@[j] == a;
                assert(events@[start + j] == RecvHandle::Timeout(a));
            }
            assert forall|a: PeerAddr|
                (exists|idx: int|
                    start <= idx < events@.len() && events@[idx] == RecvHandle::Timeout(
                        a,
                    )) implies #[trigger] timed_out(mid, t, now).contains(a) by {
                let idx = choose|idx: int|
                    start <= idx < events@.len() && events@[idx] == RecvHandle::Timeout(a);
                assert(events@[idx] == RecvHandle::Timeout(evicted@[idx - start]));
                assert(evicted@.contains(evicted@[idx - start]));
            }
            assert forall|p: int, q: int|
                start <= p < q < events@.len() implies events@[p] != events@[q] by {
                assert(events@[p] == RecvHandle::Timeout(evicted@[p - start]));
                assert(events@[q] == RecvHandle::Timeout(evicted@[q - start]));
            }
            assert forall|idx: int|
                start <= idx < events@.len() implies ((#[trigger] events@[idx]) matches RecvHandle::Timeout(_)) by {
                assert(events@[idx] == RecvHandle::Timeout(evicted@[idx - start]));
            }
            assert(timeout_section(events@, start as int, mid, t, now));
        }
        events
    }

    /// Evict every peer silent past the timeout at time `now`, returning one
    /// timeout event per evicted peer.
    pub fn sweep(&mut self, now: u64) -> (events: Vec<RecvHandle>)
        requires
            old(self).wf(),
        ensures
            final(self).wf(),
            final(self).same_config(old(self)),
            final(self).status == old(self).status,
            final(self).tracker@ == survivors(old(self).tracker@, old(self).timeout, now),
            timeout_section(events@, 0, old(self).tracker@, old(self).timeout, now),
    {
        let ghost m = self.tracker@;
        let t = self.timeout;
        let evicted = self.tracker.sweep(t, now);
        let mut events: Vec<RecvHandle> = Vec::new();
        let mut i: usize = 0;
        while i < evicted.len()
            invariant
                i <= evicted@.len(),
                events@.len() == i,
                forall|j: int| 0 <= j < i ==> events@[j] == RecvHandle::Timeout(evicted@[j]),
            decreases evicted@.len() - i,
        {
            events.push(RecvHandle::Timeout(evicted[i]));
            i = i + 1;
        }
        proof {
            assert forall|a: PeerAddr| #[trigger]
                timed_out(m, t, now).contains(a) implies exists|idx: int|
                0 <= idx < events@.len() && events@[idx] == RecvHandle::Timeout(a) by {
                assert(evicted@.contains(a));
                let j = choose|j: int| 0 <= j < evicted@.len() && evicted@[j] == a;
                assert(events@[j] == RecvHandle::Timeout(a));
            }
            assert forall|a: PeerAddr|
                (exists|idx: int|
                    0 <= idx < events@.len() && events@[idx] == RecvHandle::Timeout(
                        a,
                    )) implies #[trigger] timed_out(m, t, now).contains(a) by {
                let idx = choose|idx: int|
                    0 <= idx < events@.len() && events@[idx] == RecvHandle::Timeout(a);
                assert(events@[idx] == RecvHandle::Timeout(evicted@[idx]));
                assert(evicted@.contains(evicted@[idx]));
            }
            assert forall|p: int, q: int|
                0 <= p < q < events@.len() implies events@[p] != events@[q] by {
                assert(events@[p] == RecvHandle::Timeout(evicted@[p]));
                assert(events@[q] == RecvHandle::Timeout(evicted@[q]));
            }
            assert forall|idx: int|
                0 <= idx < events@.len() implies ((#[trigger] events@[idx]) matches RecvHandle::Timeout(_)) by {
                assert(events@[idx] == RecvHandle::Timeout(evicted@[idx]));
            }
            assert(timeout_section(events@, 0, m, t, now));
        }
        events
    }

    /// Validate and copy the payload of one datagram send.  A payload longer
    /// than the buffer capacity is rejected with `PayloadTooLarge` and
    /// nothing is written: one datagram carries one message, so an oversized
    /// payload is never fragmented.
    pub fn prepare_frame(&self, data: &Vec<u8>) -> (r: Result<Vec<u8>, SendError>)
        ensures
            match r {
                Ok(frame) => data@.len() <= self.buff_len && frame@ == data@,
                Err(e) => e == SendError::PayloadTooLarge && data@.len() > self.buff_len,
            },
    {
        if data.len() > self.buff_len {
            return Err(SendError::PayloadTooLarge);
        }
        let mut frame: Vec<u8> = Vec::new();
        let mut i: usize = 0;
        while i < data.len()
            invariant
                i <= data@.len(),
                frame@.len() == i,
                forall|j: int| 0 <= j < i ==> frame@[j] == data@[j],
            decreases data@.len() - i,
        {
            frame.push(data[i]);
            i = i + 1;
        }
        proof {
            assert(frame@ =~= data@);
        }
        Ok(frame)
    }

    /// Record that a frame was written to `addr` at time `now`: the instance
    /// now expects to hear from that peer before the timeout elapses.
    pub fn record_send(&mut self, addr: PeerAddr, now: u64)
        requires
            old(self).wf(),
        ensures
            final(self).wf(),
            final(self).same_config(old(self)),
            final(self).status == old(self).status,
            final(self).tracker@ == old(self).tracker@.insert(addr, now),
    {
        self.tracker.touch(addr, now);
    }
}

} // verus!
