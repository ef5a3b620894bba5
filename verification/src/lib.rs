//! Client-side core of a small tag-length-value (TLV) protocol spoken by a
//! network-attached point-of-sale display.
//!
//! The crate covers the record codec ([`tlv`]), the wire framing ([`frame`]),
//! the connection-lifecycle state machine ([`link`]) and the named device
//! operations ([`client`]).  All I/O stays with the caller: the library
//! builds the exact bytes to send and interprets the bytes received.

pub mod client;
pub mod codec;
pub mod error;
pub mod frame;
pub mod link;
pub mod tlv;
