//! Synchronisation of the files of a directory between machines.
pub mod cli;
pub mod fileorder;
pub mod machine;
pub mod packethandler;
pub mod packets;
pub mod paths;
pub mod srv;
