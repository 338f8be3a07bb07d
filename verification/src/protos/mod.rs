//! Protobuf message types of the protocol, their wire encoding, and the
//! error reported when a protocol value and its message do not correspond.

pub mod events;
pub mod sizes;
pub mod transaction_receipt;
pub mod wire;

use vstd::prelude::*;

verus! {

/// Why a protocol value could not be converted to or from its protobuf
/// message or bytes.
#[derive(Debug)]
pub enum ProtoConversionError {
    /// Bytes could not be produced from a message, or a message could not be
    /// read from bytes.
    SerializationError(String),
    /// A message could not be deserialized.
    DeserializationError(String),
    /// A message holds a value of a type the protocol value cannot take.
    InvalidTypeError(String),
}

} // verus!
