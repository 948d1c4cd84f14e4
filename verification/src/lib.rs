//! A length-prefixed, type-tagged binary envelope around a
//! protobuf-encoded request record.
//!
//! The library builds the exact byte sequence that goes on the wire:
//! the record's fields are encoded as protobuf scalar fields, and the
//! resulting message bytes are framed by a fixed little-endian header.
pub mod message;
pub mod wire;
pub mod codec;
pub mod envelope;
