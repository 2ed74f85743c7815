//! Encoder for the compact legacy message representation (clmr) of a feed
//! message: a flags byte followed by the message's fields, each in its own
//! self-delimiting binary form.

pub mod endian;
pub mod layout;
pub mod message;
pub mod ser;
pub mod sink;
pub mod varu;

pub use crate::message::{Content, ContentError, Message};
pub use crate::ser::{to_clmr, to_clmr_string, to_clmr_vec, EncodeClmrError};
pub use crate::sink::{BoundedBuf, Sink, SinkError};
