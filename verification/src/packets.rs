//! The packets that machines exchange, and how a connection hands them over.
use vstd::prelude::*;
use crate::machine::Machine;

verus! {

/// Identifier the server gives to each connected client.
pub type ClientId = u32;

/// The largest client identifier; the server never hands it out.
#[allow(non_upper_case_globals)]
pub const ClientIdMAX: ClientId = 4294967295u32;

/// The largest number of bytes that one packet takes on the wire.
pub const MAX_PACKET_SIZE: u64 = 512;

/// A message between a client and the file server. A path is given by the
/// bytes of the path.
#[derive(Clone, Debug, PartialEq)]
pub enum Packet {
    /// Request the current system time of the target machine.
    ReqTime,
    /// Make a pull-request to the file server. The server will then in turn
    /// request files that are newer on the machine that made the request.
    ReqPull(Machine),
    /// Request a file to be sent.
    ReqFile(Vec<u8>),
    /// Indicates that a file is about to be sent. Sends basic information
    /// about the file that might be useful.
    /// The files path, the files size (in bytes)
    FileStart(Vec<u8>, u64),
    /// Send parts of a file. It is important that these are used in the
    /// strict order they are sent in.
    FileChunk(Vec<u8>),
    /// Marks the end of a file transmission.
    FileEnd,
    /// An internal Packet to show that the connection has been closed by the client.
    Disconnect,
}

/// A connection that packets can be written to. Whether a write succeeds
/// depends on the connection, so the method promises nothing.
pub trait PacketWrite {
    /// Writes one packet; `true` when it was written whole.
    fn write_packet(&self, p: &Packet) -> bool;
}

/// What one attempt to read a packet from a connection gave.
#[derive(Debug)]
pub enum ReadOutcome {
    /// A whole packet was read.
    Received(Packet),
    /// The peer closed the connection.
    Closed,
    /// Nothing arrived before the read timeout.
    TimedOut,
    /// The read failed, or its bytes were not a packet.
    Failed,
}

/// The bytes to decode a packet from after a read of `len` bytes into
/// `buffer`: the whole buffer, or `None` when nothing was read, which means
/// that the peer closed the connection.
pub fn received_frame(buffer: Vec<u8>, len: usize) -> (r: Option<Vec<u8>>)
    ensures
        r is None <==> len == 0,
        r matches Some(bytes) ==> bytes@ == buffer@,
{
    if len == 0 {
        None
    } else {
        Some(buffer)
    }
}

} // verus!
