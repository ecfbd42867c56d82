//! Shared vocabulary of the pool: listener status, peer addresses, receive
//! events and the send error taxonomy.

use vstd::prelude::*;

verus! {

/// Lifecycle state of one listener instance.
///
/// The states form a linear, one-directional chain: an instance begins in
/// `Starting`, its run loop advances it to `Running`, a stop request moves it
/// to `Stopping`, and the run loop leaves it at `Stopped` when it exits.
#[derive(Clone, Copy, Debug, PartialEq, Eq, Structural)]
pub enum Status {
    /// The server is starting but not yet running.
    Starting,
    /// The server is running.
    Running,
    /// The server is stopping but not yet stopped.
    Stopping,
    /// The server is stopped.
    Stopped,
}

/// Position of a status in the linear lifecycle chain.
pub open spec fn status_rank(s: Status) -> int {
    match s {
        Status::Starting => 0,
        Status::Running => 1,
        Status::Stopping => 2,
        Status::Stopped => 3,
    }
}

/// The transitions a single observation step may take: stay in place, enter
/// the running state from `Starting`, move to `Stopping` from any live state,
/// or settle at `Stopped` once `Stopping` has been observed.
pub open spec fn status_step(pre: Status, post: Status) -> bool {
    ||| pre == post
    ||| (pre == Status::Starting && post == Status::Running)
    ||| (pre == Status::Starting && post == Status::Stopping)
    ||| (pre == Status::Running && post == Status::Stopping)
    ||| (pre == Status::Stopping && post == Status::Stopped)
}

/// Every allowed step moves forward (or stays) in the lifecycle chain.
pub proof fn lemma_step_monotone(pre: Status, post: Status)
    requires
        status_step(pre, post),
    ensures
        status_rank(pre) <= status_rank(post),
{
}

proof fn lemma_rank_chain(obs: Seq<Status>, i: int, j: int)
    requires
        forall|k: int| 0 <= k < obs.len() - 1 ==> #[trigger] status_step(obs[k], obs[k + 1]),
        0 <= i <= j < obs.len(),
    ensures
        status_rank(obs[i]) <= status_rank(obs[j]),
    decreases j - i,
{
    if i < j {
        lemma_rank_chain(obs, i, j - 1);
        let k = j - 1;
        assert(status_step(obs[k], obs[k + 1]));
    }
}

/// Status monotonicity: along any run whose adjacent observations are allowed
/// steps, the observed statuses are a subsequence of the chain
/// `Starting, Running, Stopping, Stopped` — the rank never decreases, and a
/// state is never seen again once it has been left.
pub proof fn lemma_status_monotone(obs: Seq<Status>)
    requires
        forall|k: int| 0 <= k < obs.len() - 1 ==> #[trigger] status_step(obs[k], obs[k + 1]),
    ensures
        forall|i: int, j: int|
            0 <= i <= j < obs.len() ==> status_rank(obs[i]) <= status_rank(obs[j]),
        forall|i: int, j: int, k: int|
            0 <= i <= j <= k < obs.len() && obs[i] == obs[k] ==> obs[j] == obs[i],
{
    assert forall|i: int, j: int|
        0 <= i <= j < obs.len() implies status_rank(obs[i]) <= status_rank(obs[j]) by {
        lemma_rank_chain(obs, i, j);
    }
    assert forall|i: int, j: int, k: int|
        0 <= i <= j <= k < obs.len() && obs[i] == obs[k] implies obs[j] == obs[i] by {
        lemma_rank_chain(obs, i, j);
        lemma_rank_chain(obs, j, k);
    }
}

/// A peer's transport address, as the pool reasons about it: the address
/// family, the numeric address bits and the remote port.
#[derive(Clone, Copy, Debug, PartialEq, Eq, Structural)]
#[allow(inconsistent_fields)]
pub enum PeerAddr {
    /// An IPv4 remote endpoint.
    V4 { ip: u32, port: u16 },
    /// An IPv6 remote endpoint.
    V6 { ip: u128, port: u16 },
}

/// Errors surfaced by a send through the pool.
#[derive(Clone, Copy, Debug, PartialEq, Eq, Structural)]
pub enum SendError {
    /// The pool has no listener registered on the requested port.
    NotFound,
    /// The payload does not fit in the instance's datagram buffer.
    PayloadTooLarge,
    /// The transport reported a write failure.
    Io,
}

/// Data delivered when a message is received.
pub struct RecvMess {
    /// Port of the listener that received the message.
    pub port: u16,
    /// Address of the sending peer.
    pub addr: PeerAddr,
    /// Arrival time, in milliseconds of the caller's clock, captured at
    /// receipt.
    pub time: u64,
    /// The received payload.
    pub data: Vec<u8>,
}

impl RecvMess {
    /// Create a new receive record.
    pub fn new(port: u16, addr: PeerAddr, time: u64, data: Vec<u8>) -> (r: RecvMess)
        ensures
            r.port == port,
            r.addr == addr,
            r.time == time,
            r.data == data,
    {
        RecvMess { port, addr, time, data }
    }

    /// Port of the listener the message came through.
    pub fn get_port(&self) -> (r: &u16)
        ensures
            *r == self.port,
    {
        &self.port
    }

    /// The peer's address.
    pub fn get_addr(&self) -> (r: &PeerAddr)
        ensures
            *r == self.addr,
    {
        &self.addr
    }

    /// The message's arrival time.
    pub fn get_time(&self) -> (r: &u64)
        ensures
            *r == self.time,
    {
        &self.time
    }

    /// The received payload.
    pub fn get_data(&self) -> (r: &Vec<u8>)
        ensures
            *r == self.data,
    {
        &self.data
    }
}

/// An event produced by a listener's run loop.
pub enum RecvHandle {
    /// The listener received a message.
    Mess(RecvMess),
    /// A peer the listener was waiting on has gone silent past the timeout.
    Timeout(PeerAddr),
}

} // verus!
