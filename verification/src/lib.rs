//! A chat protocol: its messages, how they are written as bytes, and servers
//! that speak it.
pub mod endian;
pub mod messages;
pub mod netproto;
pub mod solutions;
pub mod walk;
