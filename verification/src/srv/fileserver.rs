//! The file server of a machine.
use vstd::prelude::*;
use crate::machine::Machine;
use crate::packethandler::{
    lemma_extended_lines, lemma_same_lines_same_log, report_packet, PacketHandler as PH, ReportLog,
};
use crate::packets::{ClientId, Packet};

verus! {

pub struct FileServer {
    /// The machine this fileserver is running on.
    machine: Machine,
    /// What it has reported.
    log: ReportLog,
}

impl FileServer {
    pub closed spec fn spec_machine(&self) -> Machine {
        self.machine
    }

    /// The packets it has reported on standard output, in order, each with
    /// its client.
    pub closed spec fn spec_reported(&self) -> Seq<(ClientId, Packet)> {
        self.log.spec_lines()
    }

    pub fn new(machine: Machine) -> (h: FileServer)
        ensures
            h.spec_machine() == machine,
            h.spec_reported() == Seq::<(ClientId, Packet)>::empty(),
    {
        FileServer { machine: machine, log: ReportLog::new() }
    }
}

impl PH for FileServer {
    /// Handling packets reports each of them, in order, and changes nothing else.
    closed spec fn spec_after(&self, packets: Seq<(ClientId, Packet)>) -> Self {
        FileServer { machine: self.machine, log: self.log.extended(packets) }
    }

    /// Reports each packet on standard output.
    fn handle(&mut self, packets: &Vec<(ClientId, Packet)>) {
        let ghost before = *self;
        let mut n: usize = 0;
        while n < packets.len()
            invariant
                n <= packets@.len(),
                self.log.spec_lines() == before.log.spec_lines() + packets@.take(n as int),
                self.machine == before.machine,
            decreases packets@.len() - n,
        {
            report_packet(&mut self.log, "Received packet", packets[n].0, &packets[n].1);
            assert(packets@.take(n + 1) =~= packets@.take(n as int).push(packets@[n as int]));
            n = n + 1;
        }
        proof {
            assert(packets@.take(packets@.len() as int) =~= packets@);
            lemma_extended_lines(before.log, packets@);
            lemma_same_lines_same_log(self.log, before.log.extended(packets@));
        }
    }
}

/// Handling a batch reports every packet of it, each with its client, in
/// the order of the batch, after what was reported before, and keeps its machine.
pub proof fn lemma_file_server_reports_every_packet(h: FileServer, packets: Seq<(ClientId, Packet)>)
    ensures
        h.spec_after(packets).spec_reported() == h.spec_reported() + packets,
        h.spec_after(packets).spec_machine() == h.spec_machine(),
{
    lemma_extended_lines(h.log, packets);
}

} // verus!
