//! What a program does with the packets that reach it.
use vstd::prelude::*;
use std::io::Write;
use crate::packets::{ClientId, Packet};

verus! {

/// Receives the packets that arrived, each with the client it came from.
pub trait PacketHandler: Sized {
    /// The handler after it has handled `packets`.
    spec fn spec_after(&self, packets: Seq<(ClientId, Packet)>) -> Self;

    fn handle(&mut self, packets: &Vec<(ClientId, Packet)>)
        ensures
            *final(self) == old(self).spec_after(packets@),
    ;
}

/// The record of what a handler has reported on standard output: each
/// report names a client and a packet, in the order they were made.
pub struct ReportLog {
    lines: Ghost<Seq<(ClientId, Packet)>>,
}

impl ReportLog {
    pub closed spec fn spec_lines(&self) -> Seq<(ClientId, Packet)> {
        self.lines@
    }

    /// The record after `more` were reported too.
    pub closed spec fn extended(&self, more: Seq<(ClientId, Packet)>) -> ReportLog {
        ReportLog { lines: Ghost(self.lines@ + more) }
    }

    /// A record of no reports.
    pub fn new() -> (log: ReportLog)
        ensures
            log.spec_lines() == Seq::<(ClientId, Packet)>::empty(),
    {
        ReportLog { lines: Ghost(Seq::empty()) }
    }
}

/// A record extended by some reports holds the reports before, then those.
pub proof fn lemma_extended_lines(log: ReportLog, more: Seq<(ClientId, Packet)>)
    ensures
        log.extended(more).spec_lines() == log.spec_lines() + more,
{
}

/// Two records of the same reports are the same record.
pub proof fn lemma_same_lines_same_log(a: ReportLog, b: ReportLog)
    requires
        a.spec_lines() == b.spec_lines(),
    ensures
        a == b,
{
    assert(a.lines@ == b.lines@);
    assert(a.lines == b.lines);
}

/// Writes one line to standard output (`std::io::stdout`): the heading, then
/// the client and the packet as `Debug` shows them. The contract records
/// that this report was made, in `log`; whether the write reached the
/// terminal is not stated (a failed write is ignored).
#[verifier::external_body]
pub(crate) fn report_packet(log: &mut ReportLog, heading: &str, client: ClientId, packet: &Packet)
    ensures
        final(log).spec_lines() == old(log).spec_lines().push((client, *packet)),
{
    let _ = writeln!(std::io::stdout(), "{}: {:?}", heading, (client, packet));
}

} // verus!
