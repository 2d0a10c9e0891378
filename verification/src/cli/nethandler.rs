//! The client's connection to the server.
use vstd::prelude::*;
use crate::packethandler::PacketHandler;
use crate::packets::{ClientId, Packet, PacketWrite, ReadOutcome};

verus! {

/// The connection of a client to the server, and whether the client still
/// takes packets from it.
pub struct NetHandler<R> {
    remote: R,
    running: bool,
}

/// The packet that the receiving loop of the client hands on after a read:
/// the packet read, or `Disconnect` when the server closed the connection;
/// nothing after a timeout or a failed read.
pub fn packet_from_read(outcome: ReadOutcome) -> (r: Option<Packet>)
    ensures
        match outcome {
            ReadOutcome::Received(p) => r == Some(p),
            ReadOutcome::Closed => r == Some(Packet::Disconnect),
            _ => r is None,
        },
{
    match outcome {
        ReadOutcome::Received(p) => Some(p),
        ReadOutcome::Closed => Some(Packet::Disconnect),
        _ => None,
    }
}

/// The packets as the server's: each with the client identifier 0.
pub fn from_server(packets: Vec<Packet>) -> (r: Vec<(ClientId, Packet)>)
    ensures
        r@.len() == packets@.len(),
        forall|i: int| 0 <= i < r@.len() ==> #[trigger] r@[i] == (0u32, packets@[i]),
{
    let mut r: Vec<(ClientId, Packet)> = Vec::new();
    let mut packets = packets;
    let ghost all = packets@;
    while packets.len() > 0
        invariant
            packets@.len() + r@.len() == all.len(),
            packets@ == all.subrange(r@.len() as int, all.len() as int),
            forall|i: int| 0 <= i < r@.len() ==> #[trigger] r@[i] == (0u32, all[i]),
        decreases packets@.len(),
    {
        let p = packets.remove(0);
        r.push((0, p));
    }
    r
}

impl<R> NetHandler<R> {
    pub closed spec fn spec_running(&self) -> bool {
        self.running
    }

    pub closed spec fn spec_remote(&self) -> R {
        self.remote
    }

    /// A handler for the connection `remote`, taking packets.
    pub fn new(remote: R) -> (h: NetHandler<R>)
        ensures
            h.spec_remote() == remote,
            h.spec_running(),
    {
        NetHandler { remote: remote, running: true }
    }

    /// Hands the packets that arrived from the server to `handler`, each with
    /// the client identifier 0.
    pub fn handle_packets<H: PacketHandler>(&self, handler: &mut H, packets: Vec<Packet>)
        ensures
            *final(handler) == old(handler).spec_after(
                Seq::new(packets@.len(), |i: int| (0u32, packets@[i])),
            ),
    {
        // Collect all packets into a Vec and send that to the PacketHandler.
        let ghost arrived = packets@;
        let packets = from_server(packets);
        assert(packets@ =~= Seq::new(arrived.len(), |i: int| (0u32, arrived[i])));
        handler.handle(&packets);
    }

    /// Whether the client still takes packets from the server.
    pub fn connected(&self) -> (r: bool)
        ensures
            r == self.spec_running(),
    {
        self.running
    }

    /// Stops taking packets from the server.
    pub fn disconnect(&mut self)
        ensures
            !final(self).spec_running(),
            final(self).spec_remote() == old(self).spec_remote(),
    {
        self.running = false;
    }
}

impl<R: PacketWrite> NetHandler<R> {
    /// Sends a packet to the server; `true` when it was written. The result
    /// is one that a write of `p` on the connection can give.
    pub fn send(&self, p: &Packet) -> (r: bool)
        ensures
            call_ensures(R::write_packet, (&self.spec_remote(), p), r),
    {
        self.remote.write_packet(p)
    }
}

} // verus!
