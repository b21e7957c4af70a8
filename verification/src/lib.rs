//! Beacon-block container types with a verified dual-format codec.
//!
//! The crate models Ethereum consensus-layer block shapes (full block, blinded
//! block, block contents with blob sidecars, and their signed variants) under
//! three protocol configurations (mainnet, minimal, Gnosis). Each shape has a
//! binary codec and an enveloped text codec with proved round-trip laws, a
//! canonical root identity, and a signing composition that attaches a
//! hex-encoded signature to an unsigned message.

use vstd::prelude::*;

pub mod container;
pub mod hexstr;
pub mod identity;
pub mod json;
pub mod laws;
pub mod preset;
pub mod ssz;

verus! {

/// The error taxonomy. Every failure is local to one call and carries a
/// descriptive message; no operation is retried internally.
#[derive(Clone, Debug, PartialEq, Eq)]
pub enum Error {
    /// Binary input whose byte layout does not match the shape's field
    /// structure or capacities under the bound preset.
    MalformedBinaryEncoding(String),
    /// Text input that is not the expected envelope, or whose fields are
    /// absent, mistyped or over capacity.
    MalformedTextEncoding(String),
    /// A signature string whose hex text does not decode.
    InvalidSignatureEncoding(String),
    /// A signature string whose decoded byte count is not the signature size.
    InvalidSignatureLength(String),
}

/// Number of bytes of a root digest.
pub const ROOT_BYTES: usize = 32;

/// Number of bytes of a signature.
pub const SIGNATURE_BYTES: usize = 96;

/// Number of bytes of a KZG proof.
pub const KZG_PROOF_BYTES: usize = 48;

} // verus!
