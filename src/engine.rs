//! Hash engine: computes salted bcrypt artifacts and verifies plaintexts
//! against them, with the primitive itself supplied by the `bcrypt` crate.

use vstd::prelude::*;
use bcrypt::BcryptError;
use crate::artifact::{
    MIN_COST, MAX_COST, ARTIFACT_LEN, is_bcrypt_base64, well_formed_artifact, artifact_cost,
    is_well_formed_artifact,
};
use crate::cost::{is_digit, digit_value};

verus! {

#[verifier::external_type_specification]
#[verifier::external_body]
pub struct ExBcryptError(BcryptError);

/// Failures of the engine. None of them says which part of an input was at
/// fault beyond its kind.
#[derive(Debug, Clone, Copy, PartialEq, Eq, Structural)]
pub enum HashError {
    /// The cost lies outside `MIN_COST..=MAX_COST`; caught before any hashing.
    CostOutOfRange,
    /// The primitive failed to produce an artifact.
    Computation,
    /// The artifact is not a well-formed bcrypt artifact.
    ArtifactMalformed,
}

/// What `bcrypt::verify` reports for a plaintext and an artifact: whether the
/// plaintext matches, or `None` when the artifact is refused.
pub uninterp spec fn bcrypt_verdict(plain: Seq<char>, artifact: Seq<char>) -> Option<bool>;

/// The layout of what `bcrypt::hash` writes for `cost`: `$2b$`, the cost in
/// two digits, `$`, then 53 characters of bcrypt's base64 alphabet.
pub open spec fn bcrypt_layout(a: Seq<char>, cost: u32) -> bool {
    &&& a.len() == ARTIFACT_LEN
    &&& a[0] == '$'
    &&& a[1] == '2'
    &&& a[2] == 'b'
    &&& a[3] == '$'
    &&& is_digit(a[4])
    &&& is_digit(a[5])
    &&& digit_value(a[4]) * 10 + digit_value(a[5]) == cost
    &&& a[6] == '$'
    &&& forall|i: int| 7 <= i < ARTIFACT_LEN ==> is_bcrypt_base64(#[trigger] a[i])
}

/// `a` is an artifact computed from `plain` at `cost`: it carries that cost,
/// has bcrypt's layout, and bcrypt accepts `plain` against it.
pub open spec fn hashed_from(plain: Seq<char>, cost: u32, a: Seq<char>) -> bool {
    &&& MIN_COST <= cost <= MAX_COST
    &&& bcrypt_layout(a, cost)
    &&& bcrypt_verdict(plain, a) == Some(true)
}

/// The outcome of verifying `plain` against `a`.
pub open spec fn verify_spec(plain: Seq<char>, a: Seq<char>) -> Result<bool, HashError> {
    if !well_formed_artifact(a) {
        Err(HashError::ArtifactMalformed)
    } else {
        match bcrypt_verdict(plain, a) {
            Some(b) => Ok(b),
            None => Err(HashError::ArtifactMalformed),
        }
    }
}

/// Relies on `bcrypt::hash`: it returns `Ok` only for a cost in 4..=31, and
/// then the string that `HashParts::format` writes (version `2b`, the cost as
/// `{:02}`, salt and digest in bcrypt's base64 alphabet without padding),
/// which `bcrypt::verify` accepts for the same password, as it re-derives
/// the digest from the embedded cost and salt.
#[verifier::external_body]
fn bcrypt_hash(plain: &str, cost: u32) -> (r: Result<String, BcryptError>)
    ensures
        r is Ok ==> hashed_from(plain@, cost, r->Ok_0@),
{
    bcrypt::hash(plain, cost)
}

/// Relies on `bcrypt::verify`: its outcome depends on the password and the
/// artifact alone.
#[verifier::external_body]
fn bcrypt_check(plain: &str, artifact: &str) -> (r: Result<bool, BcryptError>)
    ensures
        match r {
            Ok(b) => bcrypt_verdict(plain@, artifact@) == Some(b),
            Err(_) => bcrypt_verdict(plain@, artifact@) is None,
        },
{
    bcrypt::verify(plain, artifact)
}

/// Maps what the primitive returned on the hash path to the engine's result.
pub fn hash_outcome(outcome: Result<String, BcryptError>) -> (r: Result<String, HashError>)
    ensures
        outcome is Ok <==> r is Ok,
        outcome is Ok ==> r->Ok_0 == outcome->Ok_0,
        outcome is Err ==> r == Err::<String, HashError>(HashError::Computation),
{
    match outcome {
        Ok(h) => Ok(h),
        Err(_) => Err(HashError::Computation),
    }
}

/// Maps what the primitive returned on the verify path to the engine's result.
pub fn match_outcome(outcome: Result<bool, BcryptError>) -> (r: Result<bool, HashError>)
    ensures
        outcome is Ok ==> r == Ok::<bool, HashError>(outcome->Ok_0),
        outcome is Err ==> r == Err::<bool, HashError>(HashError::ArtifactMalformed),
{
    match outcome {
        Ok(b) => Ok(b),
        Err(_) => Err(HashError::ArtifactMalformed),
    }
}

/// Computes a freshly salted artifact for `plain` at `cost`. A cost out of
/// range fails before any hashing; otherwise only the primitive can fail
/// (for want of randomness), and any artifact returned carries `cost`.
pub fn compute(plain: &str, cost: u32) -> (r: Result<String, HashError>)
    ensures
        !(MIN_COST <= cost <= MAX_COST) <==> r == Err::<String, HashError>(HashError::CostOutOfRange),
        r is Ok ==> hashed_from(plain@, cost, r->Ok_0@),
        MIN_COST <= cost <= MAX_COST && r is Err ==> r->Err_0 == HashError::Computation,
{
    if cost < MIN_COST || cost > MAX_COST {
        return Err(HashError::CostOutOfRange);
    }
    hash_outcome(bcrypt_hash(plain, cost))
}

/// Verifies `plain` against `artifact`. A structurally malformed artifact is
/// refused before any hashing; it never yields `Ok(false)`.
pub fn verify(plain: &str, artifact: &str) -> (r: Result<bool, HashError>)
    ensures
        r == verify_spec(plain@, artifact@),
        !well_formed_artifact(artifact@) ==> r == Err::<bool, HashError>(HashError::ArtifactMalformed),
{
    if !is_well_formed_artifact(artifact) {
        return Err(HashError::ArtifactMalformed);
    }
    match_outcome(bcrypt_check(plain, artifact))
}

/// Every artifact computed from a plaintext verifies against it.
pub proof fn lemma_computed_artifact_verifies(plain: Seq<char>, cost: u32, a: Seq<char>)
    requires
        hashed_from(plain, cost, a),
    ensures
        well_formed_artifact(a),
        artifact_cost(a) == cost,
        verify_spec(plain, a) == Ok::<bool, HashError>(true),
{
}

/// Two artifacts computed from one plaintext at one cost both verify against
/// it, whatever salts they were given.
pub proof fn lemma_recomputed_artifacts_verify(plain: Seq<char>, cost: u32, a1: Seq<char>, a2: Seq<char>)
    requires
        hashed_from(plain, cost, a1),
        hashed_from(plain, cost, a2),
    ensures
        verify_spec(plain, a1) == Ok::<bool, HashError>(true),
        verify_spec(plain, a2) == Ok::<bool, HashError>(true),
{
    lemma_computed_artifact_verifies(plain, cost, a1);
    lemma_computed_artifact_verifies(plain, cost, a2);
}

} // verus!
