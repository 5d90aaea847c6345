//! The decision core of an optimistic-rollup fault-proof program.
//!
//! Given a disputed claim about an L2 chain's output root at a block number,
//! the program re-derives and re-executes the chain from trusted L1 inputs
//! and decides whether the claim holds. All data reaches the program
//! through a preimage oracle: a hint announces what is needed, an exact
//! read brings it.
//!
//! The crate holds both sides of that protocol and the driver on top:
//!
//! - [`hint`], [`hex`], [`key`]: the wire formats of hints and keys;
//! - [`kv`], [`host`]: the host's store, hint routing and preimage fetching;
//! - [`lru`], [`oracle`], [`boot`]: the client's cache, its oracle channel
//!   and the loading of the dispute parameters;
//! - [`single`]: the verification driver as a state machine;
//! - [`executor`]: the adapter around the stateless block builder;
//! - [`inspector`], [`text`]: what a tracing inspector records and reports.
//!
//! Nothing here waits, locks, logs or reads a clock. Where the protocol
//! calls for that, a function returns what is to be done and takes the
//! outcome as an argument.
//!
//! # What is trusted
//!
//! Everything is verified but two calls into other crates, each behind a
//! private function whose contract is believed: the decimal notation of the
//! 256-bit integers of `alloy_primitives` and the opcode table of `revm`
//! (both in [`inspector`]). The channel to the oracle and the block builder
//! are traits for the user to implement; nothing is assumed of them.

pub mod boot;
pub mod errors;
pub mod executor;
pub mod hex;
pub mod hint;
pub mod host;
pub mod inspector;
pub mod key;
pub mod kv;
pub mod lru;
pub mod oracle;
pub mod primitives;
pub mod single;
pub mod text;
