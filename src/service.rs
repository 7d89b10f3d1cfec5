//! The two operations of the service on plain request and response values:
//! hashing a plaintext under an algorithm identifier, and matching a
//! plaintext against an artifact. Transport and encoding stay outside.

use vstd::prelude::*;
use crate::artifact::{MIN_COST, MAX_COST};
use crate::cost::{DEFAULT_COST, hash_cost, resolve_cost_spec};
use crate::engine::{HashError, compute, verify, hashed_from, verify_spec};

verus! {

/// A hash job: the plaintext and the identifier that names the cost.
#[derive(Debug, Clone)]
pub struct HashRequest {
    pub hashing_algorithm: String,
    pub plain_text: String,
}

/// The artifact computed for a hash job.
#[derive(Debug, Clone)]
pub struct HashResponse {
    pub hash: String,
}

/// A verify job: the plaintext and the artifact to match it against.
#[derive(Debug, Clone)]
pub struct MatchHashRequest {
    pub plain_text: String,
    pub hash: String,
}

/// Whether the plaintext of a verify job matched.
#[derive(Debug, Clone, Copy)]
pub struct MatchHashResponse {
    pub matches: bool,
}

/// Hashes the request's plaintext at the cost its identifier resolves to.
pub fn hash_str(req: &HashRequest) -> (r: Result<HashResponse, HashError>)
    ensures
        ({
            let c = resolve_cost_spec(req.hashing_algorithm@, DEFAULT_COST);
            &&& !(MIN_COST <= c <= MAX_COST) <==> r == Err::<HashResponse, HashError>(
                HashError::CostOutOfRange,
            )
            &&& r is Ok ==> hashed_from(req.plain_text@, c, r->Ok_0.hash@)
            &&& MIN_COST <= c <= MAX_COST && r is Err ==> r->Err_0 == HashError::Computation
        }),
{
    let cost = hash_cost(&req.hashing_algorithm);
    match compute(req.plain_text.as_str(), cost) {
        Ok(hash) => Ok(HashResponse { hash }),
        Err(e) => Err(e),
    }
}

/// Matches the request's plaintext against its artifact.
pub fn verify_str(req: &MatchHashRequest) -> (r: Result<MatchHashResponse, HashError>)
    ensures
        match verify_spec(req.plain_text@, req.hash@) {
            Ok(b) => r is Ok && r->Ok_0.matches == b,
            Err(e) => r == Err::<MatchHashResponse, HashError>(e),
        },
{
    match verify(req.plain_text.as_str(), req.hash.as_str()) {
        Ok(matches) => Ok(MatchHashResponse { matches }),
        Err(e) => Err(e),
    }
}

} // verus!
