//! A verified model of a small on-chain counter program.
//!
//! One record type (a counter owned by an authority) and four operations:
//! initialize, increment, transfer of authority, and a signature-free read.
//! The host substrate's account checks (signer present, record exists,
//! stored authority matches, supplied address matches the deterministic
//! derivation) are explicit guard checks here, each with its own error.

pub mod codec;
pub mod counter;
pub mod errors;
pub mod identity;
pub mod laws;
pub mod ops;
pub mod pda;
pub mod store;
