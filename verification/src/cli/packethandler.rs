//! What the client does with the packets of the server.
use vstd::prelude::*;
use crate::packethandler::{
    lemma_extended_lines, lemma_same_lines_same_log, report_packet, PacketHandler as PH, ReportLog,
};
use crate::packets::{ClientId, Packet};

verus! {

pub struct PacketHandler {
    /// What it has reported.
    log: ReportLog,
}

impl PacketHandler {
    /// The packets it has reported on standard output, in order, each with
    /// its client.
    pub closed spec fn spec_reported(&self) -> Seq<(ClientId, Packet)> {
        self.log.spec_lines()
    }

    /// A handler that has reported nothing yet.
    pub fn new() -> (h: PacketHandler)
        ensures
            h.spec_reported() == Seq::<(ClientId, Packet)>::empty(),
    {
        PacketHandler { log: ReportLog::new() }
    }
}

impl PH for PacketHandler {
    /// Handling packets reports each of them, in order.
    closed spec fn spec_after(&self, packets: Seq<(ClientId, Packet)>) -> Self {
        PacketHandler { log: self.log.extended(packets) }
    }

    /// Reports each packet on standard output.
    fn handle(&mut self, packets: &Vec<(ClientId, Packet)>) {
        let ghost before = *self;
        let mut n: usize = 0;
        while n < packets.len()
            invariant
                n <= packets@.len(),
                self.log.spec_lines() == before.log.spec_lines() + packets@.take(n as int),
            decreases packets@.len() - n,
        {
            report_packet(&mut self.log, "Packet received", packets[n].0, &packets[n].1);
            assert(packets@.take(n + 1) =~= packets@.take(n as int).push(packets@[n as int]));
            n = n + 1;
        }
        proof {
            assert(packets@.take(packets@.len() as int) =~= packets@);
            lemma_extended_lines(before.log, packets@);
            lemma_same_lines_same_log(self.log, before.log.extended(packets@));
        }
    }
}

/// Handling a batch reports every packet of it, each with its client, in
/// the order of the batch, after what was reported before.
pub proof fn lemma_client_handler_reports_every_packet(h: PacketHandler, packets: Seq<(ClientId, Packet)>)
    ensures
        h.spec_after(packets).spec_reported() == h.spec_reported() + packets,
{
    lemma_extended_lines(h.log, packets);
}

} // verus!
