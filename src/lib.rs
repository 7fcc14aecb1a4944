//! Preconfirmation commitments: request digests and signer recovery, request
//! validation, per-slot constraint aggregation, Merkle inclusion proofs and
//! builder-side enforcement of the committed transactions.
pub mod error;
pub mod hashing;
pub mod signing;
pub mod request;
pub mod merkle;
pub mod aggregator;
pub mod validator;
pub mod enforcement;
pub mod auth;
pub mod gateway;
pub mod contracts;
