//! The error taxonomy: one variant per way a request is refused. Every
//! refusal aborts the whole operation; no partial mutation is observable.

use vstd::prelude::*;

verus! {

/// Why a request was refused.
#[derive(Clone, Copy, Debug, PartialEq, Eq, Structural)]
pub enum ErrorCode {
    /// The count is already at the unsigned 64-bit maximum.
    Overflow,
    /// No signature, or the signer is not the record's stored authority.
    Unauthorized,
    /// Initialize found a record already stored at the derived address.
    AlreadyExists,
    /// No record is stored at the supplied address.
    NotFound,
    /// The supplied address is not the derivation for the authority in question.
    AddressMismatch,
}

} // verus!
