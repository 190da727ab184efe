//! Candidates that come one after the other.
use oxidesfu_media::trickle::is_final_trickle_candidate;

#[test]
fn an_empty_candidate_is_the_last() {
    assert!(is_final_trickle_candidate(""));
    assert!(!is_final_trickle_candidate("{}"));
}
