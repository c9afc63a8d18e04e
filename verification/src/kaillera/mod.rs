//! The Kaillera wire protocol.

pub mod message_types;
pub mod protocol;
