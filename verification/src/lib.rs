//! Receipts that record what processing a transaction did: the changes it
//! made to state, the events it fired and the data it returned, together with
//! their protobuf wire representation.

pub mod protocol;
pub mod protos;
pub mod state;
