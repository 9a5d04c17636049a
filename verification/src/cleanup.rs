//! The deletion executor's accounting.
//!
//! The recursive removals themselves happen outside the library; each one
//! reports back an outcome. This module decides which outcomes count as
//! success — a path that no longer exists is success, not failure — and
//! tallies the batch.

use vstd::prelude::*;

verus! {

/// What one attempted removal reported.
#[derive(Clone, Copy, Debug, PartialEq, Eq, Structural)]
pub enum RemovalOutcome {
    /// The subtree was removed.
    Removed,
    /// The path was already gone.
    Missing,
    /// The removal failed for any other reason.
    Failed,
}

/// A removal counts as success when the subtree is gone afterwards: either it
/// was removed, or it was not there to begin with.
pub open spec fn outcome_is_success(o: RemovalOutcome) -> bool {
    o == RemovalOutcome::Removed || o == RemovalOutcome::Missing
}

/// Number of successful outcomes in a batch.
pub open spec fn success_count_spec(s: Seq<RemovalOutcome>) -> int
    decreases s.len(),
{
    if s.len() == 0 {
        0
    } else {
        success_count_spec(s.drop_last()) + if outcome_is_success(s.last()) {
            1int
        } else {
            0
        }
    }
}

/// Number of failed outcomes in a batch.
pub open spec fn error_count_spec(s: Seq<RemovalOutcome>) -> int
    decreases s.len(),
{
    if s.len() == 0 {
        0
    } else {
        error_count_spec(s.drop_last()) + if outcome_is_success(s.last()) {
            0int
        } else {
            1
        }
    }
}

/// Whether one removal outcome counts as success.
pub fn removal_is_success(o: &RemovalOutcome) -> (r: bool)
    ensures
        r == outcome_is_success(*o),
{
    match o {
        RemovalOutcome::Removed => true,
        RemovalOutcome::Missing => true,
        RemovalOutcome::Failed => false,
    }
}

/// Tally a batch of removal outcomes into `(success_count, error_count)`.
/// Execution never aborts on a failure: every outcome is counted.
pub fn tally_outcomes(outcomes: &Vec<RemovalOutcome>) -> (r: (usize, usize))
    ensures
        r.0 == success_count_spec(outcomes@),
        r.1 == error_count_spec(outcomes@),
        r.0 + r.1 == outcomes@.len(),
{
    let mut success: usize = 0;
    let mut errors: usize = 0;
    let mut i: usize = 0;
    while i < outcomes.len()
        invariant
            i <= outcomes.len(),
            success == success_count_spec(outcomes@.take(i as int)),
            errors == error_count_spec(outcomes@.take(i as int)),
            success + errors == i,
        decreases outcomes.len() - i,
    {
        proof {
            assert(outcomes@.take(i + 1).drop_last() =~= outcomes@.take(i as int));
        }
        if removal_is_success(&outcomes[i]) {
            success += 1;
        } else {
            errors += 1;
        }
        i += 1;
    }
    proof {
        assert(outcomes@.take(outcomes@.len() as int) =~= outcomes@);
    }
    (success, errors)
}

/// Deleting a path that no longer exists counts as success, not failure:
/// an already-clean state is the goal state.
pub proof fn lemma_missing_is_success()
    ensures
        outcome_is_success(RemovalOutcome::Missing),
{
}

} // verus!
