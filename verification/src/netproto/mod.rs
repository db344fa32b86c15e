//! The wire format: how each message is written as bytes, and read back.
pub mod decode;
pub mod encode;
pub mod front;
pub mod layout;
pub mod meaning;
pub mod parse;
pub mod roundtrip;
pub mod wire;
