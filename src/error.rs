//! The error taxonomy surfaced to callers of the commitments API.
use vstd::prelude::*;

verus! {

/// What is wrong with a call's parameters.
#[derive(Clone, Copy, Debug, PartialEq, Eq, Structural)]
pub enum ParamError {
    /// The call carries no request parameter.
    MissingParam,
    /// The call carries no authentication header.
    MissingAuthHeader,
    /// The authentication header is not `0x<address>:0x<signature>`.
    MalformedAuthHeader,
    /// The request lists no transactions.
    NoTransactions,
}

/// Errors of the commitments API, request validation and aggregation.
#[derive(Clone, Debug)]
pub enum CommitmentError {
    InvalidParams(ParamError),
    /// The request body failed to decode; carries the decoder's message.
    InvalidJson(String),
    /// The signature is malformed, or its signer is not the claimed one.
    InvalidSignature,
    UnknownMethod,
    /// The slot is in the past or too far in the future.
    SlotOutOfRange,
    /// The transaction at this position does not decode.
    InvalidTransaction(usize),
    ResourceLimitExceeded,
    /// The slot's constraints are already sealed (or retired).
    SlotSealed,
}

} // verus!
