//! What the client does with each packet that the server sends it.
use vstd::prelude::*;
use crate::packets::Packet;

verus! {

/// What the client does in answer to a packet of the server.
#[derive(Debug, PartialEq)]
pub enum ClientAction {
    /// Push the file at this path to the server.
    Push(Vec<u8>),
    /// Report the file at this path as one the push would replace.
    ShowCandidate(Vec<u8>),
    /// The server ended the session, or it is done: disconnect.
    Finish,
    /// A packet the client should not have received.
    Unexpected(Packet),
}

/// The client's answer to a packet: a requested file is pushed, or, in a
/// dry run, reported; a `Disconnect` ends the session; any other packet is
/// unexpected.
pub fn client_action(p: Packet, do_push: bool) -> (a: ClientAction)
    ensures
        match p {
            Packet::ReqFile(path) => if do_push {
                a == ClientAction::Push(path)
            } else {
                a == ClientAction::ShowCandidate(path)
            },
            Packet::Disconnect => a == ClientAction::Finish,
            _ => a == ClientAction::Unexpected(p),
        },
{
    match p {
        Packet::ReqFile(path) => if do_push {
            ClientAction::Push(path)
        } else {
            ClientAction::ShowCandidate(path)
        },
        Packet::Disconnect => ClientAction::Finish,
        p => ClientAction::Unexpected(p),
    }
}

} // verus!
