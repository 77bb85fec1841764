//! Canonical wire format for Transparent Zcash Extensions (TZE).
//!
//! The `serialization` module holds the variable-length integer codec and the
//! little-endian primitives; `amount` the non-negative amount type; `tze` the
//! entity types (`Data`, `OutPoint`, `TzeIn`, `TzeOut`, `Bundle`) with their
//! byte-exact encoders and bounded decoders; `stwo` the pure decision logic of
//! the STWO extension verifier.

pub mod amount;
pub mod serialization;
pub mod stwo;
pub mod tze;
