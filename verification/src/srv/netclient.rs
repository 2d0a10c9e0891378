//! One client connected to the server.
use vstd::prelude::*;
use crate::packets::{ClientId, Packet, PacketWrite, ReadOutcome};

verus! {

/// A connected client: its identifier and the connection to it.
pub struct NetClient<R> {
    id: ClientId,
    remote: R,
}

/// What the receiving loop of a client does after one read: the packet it
/// hands on, if any, and whether it goes on reading.
#[derive(Debug)]
pub struct ReceiveStep {
    pub forward: Option<Packet>,
    pub keep_running: bool,
}

/// The step of the receiving loop of a client after a read. A packet is
/// handed on; a closed connection is handed on as a `Disconnect` packet and
/// ends the loop; a failed read is skipped.
pub fn receive_step(outcome: ReadOutcome) -> (s: ReceiveStep)
    ensures
        match outcome {
            ReadOutcome::Received(p) => s.forward == Some(p) && s.keep_running,
            ReadOutcome::Closed => s.forward == Some(Packet::Disconnect) && !s.keep_running,
            _ => s.forward is None && s.keep_running,
        },
{
    match outcome {
        ReadOutcome::Received(p) => ReceiveStep { forward: Some(p), keep_running: true },
        ReadOutcome::Closed => ReceiveStep { forward: Some(Packet::Disconnect), keep_running: false },
        _ => ReceiveStep { forward: None, keep_running: true },
    }
}

impl<R> NetClient<R> {
    pub closed spec fn spec_id(&self) -> ClientId {
        self.id
    }

    pub closed spec fn spec_remote(&self) -> R {
        self.remote
    }

    /// Create a new client.
    pub fn new(id: ClientId, remote: R) -> (c: NetClient<R>)
        ensures
            c.spec_id() == id,
            c.spec_remote() == remote,
    {
        NetClient { id: id, remote: remote }
    }

    pub fn id(&self) -> (id: ClientId)
        ensures
            id == self.spec_id(),
    {
        self.id
    }

    /// The connection to the client.
    pub fn remote(&self) -> (r: &R)
        ensures
            *r == self.spec_remote(),
    {
        &self.remote
    }
}

impl<R: PacketWrite> NetClient<R> {
    /// Sends a packet to the client over its connection; `true` when it was
    /// written. Whether it is depends on the connection: the result is one
    /// that a write of `p` on the client's connection can give.
    pub fn send(&self, p: &Packet) -> (r: bool)
        ensures
            call_ensures(R::write_packet, (&self.spec_remote(), p), r),
    {
        self.remote.write_packet(p)
    }
}

} // verus!
