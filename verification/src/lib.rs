//! Client side of a chain-extension bridge: a sandboxed contract module asks a
//! host runtime (a staking ledger and an NFT registry) to perform privileged
//! operations and receives typed results back.
//!
//! Each host operation has a stable numeric identity. A call is made in three
//! steps: a request builder encodes the typed arguments into a byte buffer
//! (SCALE wire format), the embedding environment crosses the trust boundary
//! with `(function id, input bytes)` and comes back with
//! `(status code, output bytes)`, and a response handler maps the status code
//! and decodes the output into a typed result. The boundary crossing itself is
//! owned by the embedding environment; everything on this side of it is
//! verified.

use vstd::prelude::*;

pub mod codec;
pub mod rmrk;
pub mod staking;

verus! {

/// A broken protocol invariant between client and host: the two sides are out
/// of sync (version skew). This is never surfaced as an ordinary error kind;
/// the embedding environment is expected to treat it as fatal and abort the
/// current operation.
#[derive(Clone, Copy, Debug, PartialEq, Eq, Structural)]
pub enum ProtocolViolation {
    /// The host returned a status code outside the closed set known for the
    /// call family.
    UnknownStatus,
    /// The host returned an output buffer that is not a well-formed encoding
    /// of the call's result type.
    MalformedOutput,
}

/// A request ready to cross the trust boundary: the stable numeric identity of
/// one host operation, and its SCALE-encoded arguments.
pub struct Request {
    /// Stable numeric identity of the host operation.
    pub func_id: u32,
    /// SCALE-encoded call arguments, consumed by the host.
    pub input: Vec<u8>,
}

} // verus!
