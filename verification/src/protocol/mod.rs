//! Protocol-level data types.

pub mod receipt;
