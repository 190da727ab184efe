//! Candidates that come one after the other.
use vstd::prelude::*;

verus! {

/// An empty candidate says that no more come.
pub fn is_final_trickle_candidate(candidate_init: &str) -> (is_final: bool)
    ensures
        is_final == (candidate_init@.len() == 0),
{
    crate::text::chars_of(candidate_init).len() == 0
}

} // verus!
