//! A pool of servers: the registry from port number to listener instance.
//! At most one instance is registered per port, an entry's instance carries
//! the entry's port, and an entry leaves the registry only once its instance
//! has stopped.  The pool makes every registry decision; the caller spawns
//! the run-loop threads and blocks on readiness around these functions.

use vstd::prelude::*;

use crate::assoc::{
    assoc_map, lemma_assoc_dom, lemma_assoc_index, lemma_assoc_push, lemma_assoc_remove,
    unique_keys,
};
use crate::server::{status_rank, status_step, PeerAddr, RecvHandle, SendError, Status};
use crate::udpserver::{run_step_post, PollOutcome, UdpServInstance};

verus! {

/// The transport mode of a registered instance.  UDP is the one complete
/// transport; a further transport becomes a further variant with the same
/// lifecycle contract.
pub enum ServMode {
    /// A datagram listener.
    Udp(UdpServInstance),
}

impl ServMode {
    /// The listener instance behind the mode tag.
    pub open spec fn inst(self) -> UdpServInstance {
        match self {
            ServMode::Udp(u) => u,
        }
    }

    /// The instance's internal shape is sound.
    pub open spec fn wf(self) -> bool {
        self.inst().wf()
    }
}

/// A freshly created datagram listener entry, as `start_udp` registers it.
pub open spec fn is_fresh_udp(m: ServMode, port: u16, timeout: u64, v4: bool, blen: usize) -> bool {
    &&& m matches ServMode::Udp(u)
    &&& m.inst().port == port
    &&& m.inst().timeout == timeout
    &&& m.inst().v4 == v4
    &&& m.inst().buff_len == blen
    &&& m.inst().status == Status::Starting
    &&& m.inst().tracker@ == Map::<PeerAddr, u64>::empty()
}

/// A pool of servers, keyed by port.
pub struct ServerPool {
    insts: Vec<(u16, ServMode)>,
}

impl View for ServerPool {
    type V = Map<u16, ServMode>;

    closed spec fn view(&self) -> Map<u16, ServMode> {
        assoc_map(self.insts@)
    }
}

impl ServerPool {
    /// Registry invariant: one entry per port, each instance sound and
    /// carrying the port it is registered under.
    pub closed spec fn wf(&self) -> bool {
        &&& unique_keys(self.insts@)
        &&& forall|i: int| 0 <= i < self.insts@.len() ==> (#[trigger] self.insts@[i]).1.wf()
        &&& forall|i: int|
            0 <= i < self.insts@.len() ==> (#[trigger] self.insts@[i]).1.inst().port
                == self.insts@[i].0
    }

    /// Every registered entry is sound and carries its own port.
    pub proof fn lemma_wf_entry(&self, port: u16)
        requires
            self.wf(),
            self@.dom().contains(port),
        ensures
            self@[port].wf(),
            self@[port].inst().port == port,
    {
        lemma_assoc_dom(self.insts@);
        let i = choose|i: int| 0 <= i < self.insts@.len() && #[trigger] self.insts@[i].0 == port;
        lemma_assoc_index(self.insts@, i);
    }

    /// Create a new, empty server pool.
    pub fn new() -> (r: ServerPool)
        ensures
            r.wf(),
            r@ == Map::<u16, ServMode>::empty(),
    {
        ServerPool { insts: Vec::new() }
    }

    /// Index of the entry for `port`, if one exists.
    fn find(&self, port: u16) -> (r: Option<usize>)
        ensures
            match r {
                Some(i) => i < self.insts@.len() && self.insts@[i as int].0 == port,
                None => forall|j: int|
                    0 <= j < self.insts@.len() ==> (#[trigger] self.insts@[j]).0 != port,
            },
    {
        let mut i: usize = 0;
        while i < self.insts.len()
            invariant
                i <= self.insts@.len(),
                forall|j: int| 0 <= j < i ==> (#[trigger] self.insts@[j]).0 != port,
            decreases self.insts@.len() - i,
        {
            if self.insts[i].0 == port {
                return Some(i);
            }
            i = i + 1;
        }
        None
    }

    /// Remove and return the entry for `port`, if one exists.
    fn take_entry(&mut self, port: u16) -> (r: Option<ServMode>)
        requires
            old(self).wf(),
        ensures
            final(self).wf(),
            match r {
                Some(m) => old(self)@.dom().contains(port) && m == old(self)@[port]
                    && final(self)@ == old(self)@.remove(port) && m.wf() && m.inst().port == port,
                None => !old(self)@.dom().contains(port) && final(self)@ == old(self)@,
            },
    {
        let ghost s = self.insts@;
        proof {
            lemma_assoc_dom(s);
        }
        match self.find(port) {
            Some(i) => {
                proof {
                    lemma_assoc_index(s, i as int);
                    lemma_assoc_remove(s, i as int);
                }
                let (_, m) = self.insts.remove(i);
                proof {
                    assert forall|p: int, q: int|
                        0 <= p < q < self.insts@.len() implies (#[trigger] self.insts@[p]).0
                        != (#[trigger] self.insts@[q]).0 by {
                        let pp = if p < i { p } else { p + 1 };
                        let qq = if q < i { q } else { q + 1 };
                        assert(self.insts@[p] == s[pp]);
                        assert(self.insts@[q] == s[qq]);
                    }
                    assert forall|j: int|
                        0 <= j < self.insts@.len() implies (#[trigger] self.insts@[j]).1.wf() && (
                        #[trigger] self.insts@[j]).1.inst().port == self.insts@[j].0 by {
                        let jj = if j < i { j } else { j + 1 };
                        assert(self.insts@[j] == s[jj]);
                    }
                }
                Some(m)
            },
            None => {
                None
            },
        }
    }

    /// Register `mode` under `port`, which must be free.
    fn put_entry(&mut self, port: u16, mode: ServMode)
        requires
            old(self).wf(),
            !old(self)@.dom().contains(port),
            mode.wf(),
            mode.inst().port == port,
        ensures
            final(self).wf(),
            final(self)@ == old(self)@.insert(port, mode),
    {
        let ghost s = self.insts@;
        let ghost gm = mode;
        proof {
            lemma_assoc_dom(s);
            lemma_assoc_push(s, port, gm);
        }
        self.insts.push((port, mode));
        proof {
            assert forall|p: int, q: int|
                0 <= p < q < self.insts@.len() implies (#[trigger] self.insts@[p]).0
                != (#[trigger] self.insts@[q]).0 by {
                assert(self.insts@[p] == s[p]);
                if q < self.insts@.len() - 1 {
                    assert(self.insts@[q] == s[q]);
                } else {
                    assert(self.insts@[q] == (port, gm));
                    assert(s[p].0 != port);
                }
            }
            assert forall|j: int|
                0 <= j < self.insts@.len() implies (#[trigger] self.insts@[j]).1.wf() && (
            #[trigger] self.insts@[j]).1.inst().port == self.insts@[j].0 by {
                if j < self.insts@.len() - 1 {
                    assert(self.insts@[j] == s[j]);
                } else {
                    assert(self.insts@[j] == (port, gm));
                }
            }
        }
    }

    /// Start a datagram listener on `port`: refused without side effects if
    /// the port is already registered, otherwise a new instance is registered
    /// in the `Starting` state and the caller spawns its run loop and blocks
    /// until the instance reports `Running`.  Starting twice on one port
    /// without an intervening stop leaves exactly the first registration.
    pub fn start_udp(&mut self, port: u16, timeout: u64, v4: bool, blen: usize) -> (r: bool)
        requires
            old(self).wf(),
        ensures
            final(self).wf(),
            r == !old(self)@.dom().contains(port),
            !r ==> final(self)@ == old(self)@,
            r ==> final(self)@ == old(self)@.insert(port, final(self)@[port]),
            r ==> is_fresh_udp(final(self)@[port], port, timeout, v4, blen),
    {
        if self.is_used(port) {
            false
        } else {
            let u = UdpServInstance::new(port, timeout, v4, blen);
            self.put_entry(port, ServMode::Udp(u));
            true
        }
    }

    /// Ask the listener on `port` to stop: its status advances to `Stopping`
    /// if it is still live.  Returns whether the port was registered.  The
    /// caller then blocks until the instance reports `Stopped` and removes
    /// the entry with `remove_stopped`.
    pub fn request_stop(&mut self, port: u16) -> (found: bool)
        requires
            old(self).wf(),
        ensures
            final(self).wf(),
            found == old(self)@.dom().contains(port),
            !found ==> final(self)@ == old(self)@,
            found ==> {
                let u0 = old(self)@[port].inst();
                let u1 = final(self)@[port].inst();
                &&& final(self)@ == old(self)@.insert(port, final(self)@[port])
                &&& u1.same_config(&u0)
                &&& u1.tracker == u0.tracker
                &&& u1.status == (if status_rank(u0.status) < status_rank(Status::Stopping) {
                    Status::Stopping
                } else {
                    u0.status
                })
                &&& status_step(u0.status, u1.status)
            },
    {
        match self.take_entry(port) {
            Some(m) => {
                match m {
                    ServMode::Udp(mut u) => {
                        u.stop();
                        self.put_entry(port, ServMode::Udp(u));
                        true
                    },
                }
            },
            None => false,
        }
    }

    /// Enter the running state of the listener on `port`, performed once by
    /// its run-loop thread at its top.  Refused when the port is unknown or
    /// the instance has already left `Starting` (a stop request can overtake
    /// the loop): the observed statuses never move backwards.
    pub fn begin_running(&mut self, port: u16) -> (r: bool)
        requires
            old(self).wf(),
        ensures
            final(self).wf(),
            r == (old(self)@.dom().contains(port) && old(self)@[port].inst().status
                == Status::Starting),
            !r ==> final(self)@ == old(self)@,
            r ==> {
                let u0 = old(self)@[port].inst();
                let u1 = final(self)@[port].inst();
                &&& final(self)@ == old(self)@.insert(port, final(self)@[port])
                &&& u1.same_config(&u0)
                &&& u1.tracker == u0.tracker
                &&& u1.status == Status::Running
                &&& status_step(u0.status, u1.status)
            },
    {
        let ghost m0 = self@;
        match self.take_entry(port) {
            Some(m) => {
                match m {
                    ServMode::Udp(mut u) => {
                        let starting = match u.get_status() {
                            Status::Starting => true,
                            _ => false,
                        };
                        if starting {
                            u.begin_run();
                        }
                        self.put_entry(port, ServMode::Udp(u));
                        proof {
                            if !starting {
                                assert(self@ =~= m0);
                            }
                        }
                        starting
                    },
                }
            },
            None => false,
        }
    }

    /// One run-loop iteration for the listener on `port`: applied only while
    /// the instance is running, it turns the poll outcome into the events to
    /// dispatch.  `None` when the port is unknown or the instance is no
    /// longer running — the loop then winds down instead.
    pub fn poll_step(&mut self, port: u16, poll: PollOutcome, now: u64) -> (r: Option<
        Vec<RecvHandle>,
    >)
        requires
            old(self).wf(),
        ensures
            final(self).wf(),
            (r is Some) == (old(self)@.dom().contains(port) && old(self)@[port].inst().status
                == Status::Running),
            r is None ==> final(self)@ == old(self)@,
            r matches Some(events) ==> {
                let u0 = old(self)@[port].inst();
                &&& final(self)@ == old(self)@.insert(port, final(self)@[port])
                &&& final(self)@[port] matches ServMode::Udp(u1)
                &&& run_step_post(u0, final(self)@[port].inst(), poll, now, events@)
            },
    {
        let ghost m0 = self@;
        match self.take_entry(port) {
            Some(m) => {
                match m {
                    ServMode::Udp(mut u) => {
                        if u.is_running() {
                            let events = u.run_step(poll, now);
                            self.put_entry(port, ServMode::Udp(u));
                            Some(events)
                        } else {
                            self.put_entry(port, ServMode::Udp(u));
                            proof {
                                assert(self@ =~= m0);
                            }
                            None
                        }
                    },
                }
            },
            None => None,
        }
    }

    /// Settle the listener on `port` at `Stopped`: performed by its run-loop
    /// thread when the loop exits, that is once the status reads `Stopping`.
    pub fn mark_stopped(&mut self, port: u16) -> (r: bool)
        requires
            old(self).wf(),
        ensures
            final(self).wf(),
            r == (old(self)@.dom().contains(port) && old(self)@[port].inst().status
                == Status::Stopping),
            !r ==> final(self)@ == old(self)@,
            r ==> {
                let u0 = old(self)@[port].inst();
                let u1 = final(self)@[port].inst();
                &&& final(self)@ == old(self)@.insert(port, final(self)@[port])
                &&& u1.same_config(&u0)
                &&& u1.tracker == u0.tracker
                &&& u1.status == Status::Stopped
                &&& status_step(u0.status, u1.status)
            },
    {
        let ghost m0 = self@;
        match self.take_entry(port) {
            Some(m) => {
                match m {
                    ServMode::Udp(mut u) => {
                        let stopping = match u.get_status() {
                            Status::Stopping => true,
                            _ => false,
                        };
                        if stopping {
                            u.finish_run();
                        }
                        self.put_entry(port, ServMode::Udp(u));
                        proof {
                            if !stopping {
                                assert(self@ =~= m0);
                            }
                        }
                        stopping
                    },
                }
            },
            None => false,
        }
    }

    /// Drop the entry for `port` once its instance has fully stopped: an
    /// entry is removable only at `Stopped`.  Afterwards the port reads as
    /// unused and a new start on it is accepted.
    pub fn remove_stopped(&mut self, port: u16) -> (r: bool)
        requires
            old(self).wf(),
        ensures
            final(self).wf(),
            r == (old(self)@.dom().contains(port) && old(self)@[port].inst().status
                == Status::Stopped),
            r ==> final(self)@ == old(self)@.remove(port),
            !r ==> final(self)@ == old(self)@,
    {
        let ghost m0 = self@;
        match self.take_entry(port) {
            Some(m) => {
                match m {
                    ServMode::Udp(u) => {
                        let stopped = match u.get_status() {
                            Status::Stopped => true,
                            _ => false,
                        };
                        if stopped {
                            true
                        } else {
                            self.put_entry(port, ServMode::Udp(u));
                            proof {
                                assert(self@ =~= m0);
                            }
                            false
                        }
                    },
                }
            },
            None => false,
        }
    }

    /// Build the frame a send of `data` through the listener on `port` would
    /// write: `NotFound` if the port is unregistered, `PayloadTooLarge` if
    /// the payload does not fit the instance's buffer — then nothing is
    /// written.  The caller writes the frame to the socket and, on success,
    /// records the peer with `record_send`.
    pub fn prepare_send(&self, port: u16, data: &Vec<u8>) -> (r: Result<Vec<u8>, SendError>)
        requires
            self.wf(),
        ensures
            match r {
                Ok(frame) => {
                    &&& self@.dom().contains(port)
                    &&& data@.len() <= self@[port].inst().buff_len
                    &&& frame@ == data@
                },
                Err(e) => {
                    ||| (e == SendError::NotFound && !self@.dom().contains(port))
                    ||| (e == SendError::PayloadTooLarge && self@.dom().contains(port) && data@.len()
                        > self@[port].inst().buff_len)
                },
            },
    {
        match self.find(port) {
            Some(i) => {
                proof {
                    lemma_assoc_dom(self.insts@);
                    lemma_assoc_index(self.insts@, i as int);
                }
                match &self.insts[i].1 {
                    ServMode::Udp(u) => u.prepare_frame(data),
                }
            },
            None => {
                proof {
                    lemma_assoc_dom(self.insts@);
                }
                Err(SendError::NotFound)
            },
        }
    }

    /// Record that a frame was successfully written to `addr` through the
    /// listener on `port` at time `now`: the instance then awaits a reply
    /// from that peer within the timeout.
    pub fn record_send(&mut self, port: u16, addr: PeerAddr, now: u64) -> (found: bool)
        requires
            old(self).wf(),
        ensures
            final(self).wf(),
            found == old(self)@.dom().contains(port),
            !found ==> final(self)@ == old(self)@,
            found ==> {
                let u0 = old(self)@[port].inst();
                let u1 = final(self)@[port].inst();
                &&& final(self)@ == old(self)@.insert(port, final(self)@[port])
                &&& u1.same_config(&u0)
                &&& u1.status == u0.status
                &&& u1.tracker@ == u0.tracker@.insert(addr, now)
            },
    {
        match self.take_entry(port) {
            Some(m) => {
                match m {
                    ServMode::Udp(mut u) => {
                        u.record_send(addr, now);
                        self.put_entry(port, ServMode::Udp(u));
                        true
                    },
                }
            },
            None => false,
        }
    }

    /// Test if the port is used by this pool.
    pub fn is_used(&self, port: u16) -> (r: bool)
        ensures
            r == self@.dom().contains(port),
    {
        proof {
            lemma_assoc_dom(self.insts@);
        }
        self.find(port).is_some()
    }

    /// Test if the port is used by a datagram listener.
    pub fn is_udp(&self, port: u16) -> (r: bool)
        requires
            self.wf(),
        ensures
            r == (self@.dom().contains(port) && (self@[port] matches ServMode::Udp(_))),
    {
        proof {
            lemma_assoc_dom(self.insts@);
        }
        match self.find(port) {
            Some(i) => {
                proof {
                    lemma_assoc_index(self.insts@, i as int);
                }
                match &self.insts[i].1 {
                    ServMode::Udp(_) => true,
                }
            },
            None => false,
        }
    }

    /// The status of the listener on `port`: `None` if the port is unused.
    pub fn status_of(&self, port: u16) -> (r: Option<Status>)
        requires
            self.wf(),
        ensures
            match r {
                Some(st) => self@.dom().contains(port) && st == self@[port].inst().status,
                None => !self@.dom().contains(port),
            },
    {
        proof {
            lemma_assoc_dom(self.insts@);
        }
        match self.find(port) {
            Some(i) => {
                proof {
                    lemma_assoc_index(self.insts@, i as int);
                }
                match &self.insts[i].1 {
                    ServMode::Udp(u) => Some(u.get_status()),
                }
            },
            None => None,
        }
    }

    /// A snapshot of the registered ports, each exactly once; `stop_all`
    /// stops each of them in turn.
    pub fn ports(&self) -> (r: Vec<u16>)
        requires
            self.wf(),
        ensures
            forall|p: u16| #[trigger] r@.contains(p) <==> self@.dom().contains(p),
            forall|i: int, j: int| 0 <= i < j < r@.len() ==> r@[i] != r@[j],
    {
        let mut r: Vec<u16> = Vec::new();
        let mut i: usize = 0;
        while i < self.insts.len()
            invariant
                i <= self.insts@.len(),
                r@.len() == i,
                forall|j: int| 0 <= j < i ==> r@[j] == (#[trigger] self.insts@[j]).0,
                unique_keys(self.insts@),
            decreases self.insts@.len() - i,
        {
            r.push(self.insts[i].0);
            i = i + 1;
        }
        proof {
            lemma_assoc_dom(self.insts@);
            assert forall|p: u16| #[trigger] r@.contains(p) implies self@.dom().contains(p) by {
                let j = choose|j: int| 0 <= j < r@.len() && r@[j] == p;
                assert(self.insts@[j].0 == p);
            }
            assert forall|p: u16| self@.dom().contains(p) implies #[trigger] r@.contains(p) by {
                let j = choose|j: int| 0 <= j < self.insts@.len() && #[trigger] self.insts@[j].0
                    == p;
                assert(r@[j] == p);
            }
            assert forall|i2: int, j2: int| 0 <= i2 < j2 < r@.len() implies r@[i2] != r@[j2] by {
                assert(r@[i2] == self.insts@[i2].0);
                assert(r@[j2] == self.insts@[j2].0);
            }
        }
        r
    }
}

/// Shutdown convergence: once the entry of a stopped listener is removed,
/// its port is absent from the registry — `status_of` reads `None` — and a
/// new `start_udp` on that port is accepted.
pub proof fn lemma_shutdown_convergence(m: Map<u16, ServMode>, port: u16)
    ensures
        !m.remove(port).dom().contains(port),
{
}

} // verus!
