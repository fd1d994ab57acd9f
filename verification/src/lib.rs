//! Planner for taproot inscription commit/reveal transaction graphs.
//!
//! The crate builds, sizes and funds the unsigned transactions that commit to
//! and reveal an inscription, and the spends that transfer or cancel one.
//! Transactions are modelled as plain values; the bitcoin crate is called only
//! for cryptography and consensus serialization, behind contracts.

pub mod burt;
pub mod bytes;
pub mod cancel;
pub mod crypto;
pub mod fees;
pub mod mint;
pub mod mints;
pub mod revealtx;
pub mod script;
pub mod select;
pub mod ser;
pub mod transfer;
pub mod types;
