//! The client: its connection to the server and what it does with the server's packets.
pub mod nethandler;
pub mod packethandler;
pub mod session;
