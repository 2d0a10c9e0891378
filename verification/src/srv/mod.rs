//! The file server: its connections to clients and what it does with their packets.
pub mod fileserver;
pub mod netclient;
pub mod nethandler;
pub mod packethandler;
