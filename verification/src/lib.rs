//! Wire protocol for a remote proving service.
//!
//! The crate models the contract between a prover client and a proving
//! service: the circuit-type codec, the proof artifact model with its
//! JSON/base64 wire codec, the task lifecycle schema, and the request-building
//! half of the HTTP client. Transport itself (HTTP, async plumbing) is left to
//! the surrounding application; everything here is plain data and verified
//! logic.
use vstd::prelude::*;

pub mod artifacts;
pub mod b64;
pub mod circuit;
pub mod client;
pub mod codec;
pub mod schema;
pub mod status;
pub mod text;

pub use circuit::CircuitType;
pub use schema::CIRCUIT_VERSION_0_13;
pub use schema::GetVkRequest;
pub use schema::GetVkResponse;
pub use schema::ProveRequest;
pub use schema::ProveResponse;
pub use schema::QueryTaskRequest;
pub use schema::QueryTaskResponse;
pub use status::TaskStatus;

verus! {

/// A wire value could not be decoded: it is not the canonical serialized form
/// of any value of the expected type.
#[derive(Clone, Copy, Debug, PartialEq, Eq, Structural)]
pub struct DecodeError;

} // verus!
