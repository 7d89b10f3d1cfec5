use bcrypt::BcryptError;
use hash_service::artifact::is_well_formed_artifact;
use hash_service::engine::{compute, hash_outcome, match_outcome, verify, HashError};

const KNOWN: &str = "$2b$04$Lk1f9qGCdObNRJXASf2SnO//2jv3e6mf9E8/3IPtW1YtpZ6ffdMgm";

#[test]
fn known_artifact_is_well_formed() {
    assert!(is_well_formed_artifact(KNOWN));
}

#[test]
fn malformed_artifacts_are_recognised() {
    assert!(!is_well_formed_artifact(""));
    assert!(!is_well_formed_artifact(&KNOWN[..59]));
    assert!(!is_well_formed_artifact(&format!("{}x", KNOWN)));
    assert!(!is_well_formed_artifact(&KNOWN.replacen("$2b$", "$3b$", 1)));
    assert!(!is_well_formed_artifact(&KNOWN.replacen("$2b$", "$2c$", 1)));
    assert!(!is_well_formed_artifact(&KNOWN.replacen("$04$", "$03$", 1)));
    assert!(!is_well_formed_artifact(&KNOWN.replacen("$04$", "$32$", 1)));
    assert!(!is_well_formed_artifact(&KNOWN.replacen("$04$", "$+4$", 1)));
    assert!(!is_well_formed_artifact(&KNOWN.replacen("Lk1f", "Lk-f", 1)));
    assert!(!is_well_formed_artifact(&KNOWN.replacen("Lk1f", "Lké", 1)));
    assert!(is_well_formed_artifact(&KNOWN.replacen("$2b$", "$2y$", 1)));
    assert!(is_well_formed_artifact(&KNOWN.replacen("$04$", "$31$", 1)));
}

#[test]
fn compute_then_verify_accepts() {
    let a = compute("abcd", 4).unwrap();
    assert_eq!(a.len(), 60);
    assert!(a.starts_with("$2b$04$"));
    assert!(is_well_formed_artifact(&a));
    assert_eq!(verify("abcd", &a), Ok(true));
}

#[test]
fn compute_writes_the_cost() {
    let a = compute("secret", 5).unwrap();
    assert!(a.starts_with("$2b$05$"));
    assert_eq!(verify("secret", &a), Ok(true));
}

#[test]
fn compute_of_empty_plaintext_verifies() {
    let a = compute("", 4).unwrap();
    assert_eq!(verify("", &a), Ok(true));
    assert_eq!(verify("x", &a), Ok(false));
}

#[test]
fn other_plaintext_is_rejected() {
    let a = compute("first", 4).unwrap();
    assert_eq!(verify("second", &a), Ok(false));
}

#[test]
fn repeated_compute_differs_and_both_verify() {
    let a1 = compute("same", 4).unwrap();
    let a2 = compute("same", 4).unwrap();
    assert_ne!(a1, a2);
    assert_eq!(verify("same", &a1), Ok(true));
    assert_eq!(verify("same", &a2), Ok(true));
}

#[test]
fn cost_out_of_range_fails_fast() {
    assert_eq!(compute("abcd", 3), Err(HashError::CostOutOfRange));
    assert_eq!(compute("abcd", 0), Err(HashError::CostOutOfRange));
    assert_eq!(compute("abcd", 32), Err(HashError::CostOutOfRange));
    assert_eq!(compute("abcd", u32::MAX), Err(HashError::CostOutOfRange));
}

#[test]
fn known_artifact_matches() {
    assert_eq!(verify("abba", KNOWN), Ok(true));
    assert_eq!(verify("different", KNOWN), Ok(false));
}

#[test]
fn truncated_artifact_is_an_error() {
    assert_eq!(verify("abba", &KNOWN[..40]), Err(HashError::ArtifactMalformed));
    assert_eq!(verify("abba", ""), Err(HashError::ArtifactMalformed));
    assert_eq!(verify("abba", "$2b$04$"), Err(HashError::ArtifactMalformed));
    assert_eq!(verify("abba", "not a hash"), Err(HashError::ArtifactMalformed));
}

#[test]
fn refused_by_primitive_is_an_error() {
    // The salt's last character carries bits that 16 bytes cannot hold.
    let bad = KNOWN.replacen("SnO", "SnP", 1);
    assert!(is_well_formed_artifact(&bad));
    assert_eq!(verify("abba", &bad), Err(HashError::ArtifactMalformed));
}

#[test]
fn hash_outcome_maps_errors() {
    assert_eq!(hash_outcome(Ok("h".to_string())), Ok("h".to_string()));
    assert_eq!(hash_outcome(Err(BcryptError::CostNotAllowed(2))), Err(HashError::Computation));
    assert_eq!(hash_outcome(Err(BcryptError::Truncation(80))), Err(HashError::Computation));
}

#[test]
fn match_outcome_maps_errors() {
    assert_eq!(match_outcome(Ok(true)), Ok(true));
    assert_eq!(match_outcome(Ok(false)), Ok(false));
    assert_eq!(
        match_outcome(Err(BcryptError::InvalidHash("bad"))),
        Err(HashError::ArtifactMalformed)
    );
}
