//! Error taxonomy of the oracle protocol and of the verification driver.

use crate::primitives::B256;
use vstd::prelude::*;

verus! {

/// Why a hint string could not be parsed.
#[derive(Clone, Copy, Debug, PartialEq, Eq, Structural)]
pub enum HintParsingError {
    /// The string is not exactly a type tag, one space and a payload.
    InvalidFormat,
    /// The type tag names no known hint type.
    UnknownHintType,
    /// The payload is not valid hexadecimal.
    InvalidHex,
}

/// A failure of the preimage-oracle protocol.
#[derive(Clone, Debug, PartialEq, Eq)]
pub enum PreimageOracleError {
    /// A routed hint string was malformed.
    HintParseFailed(HintParsingError),
    /// A collaborator failed; the text says how.
    Other(String),
    /// The wait for a preimage outlasted its deadline.
    Timeout,
    /// A wait ended with the key still absent.
    KeyNotFound,
    /// A preimage does not have the requested length: requested, then found.
    BufferLengthMismatch(usize, usize),
}

/// A failure while reading chain data through the oracle.
#[derive(Clone, Debug, PartialEq, Eq)]
pub enum OracleProviderError {
    /// The oracle channel failed.
    Preimage(PreimageOracleError),
    /// A preimage was too short for the value read from it.
    SliceConversion,
}

/// Why the fault-proof program did not succeed.
#[derive(Clone, Debug, PartialEq, Eq)]
pub enum FaultProofProgramError {
    /// The claim is wrong: the expected output root, then the claimed one.
    InvalidClaim(B256, B256),
    /// Chain data could not be read through the oracle.
    OracleProviderError(OracleProviderError),
    /// The derivation pipeline failed; the text says how.
    PipelineError(String),
    /// Derivation or execution failed while advancing; the text says how.
    Driver(String),
}

} // verus!
