//! Connection establishment policy: the dial is retried at a fixed one
//! second cadence until the peer listens or the retry budget is exhausted.
//!
//! Opening the transport endpoint is an external concern; this module fixes
//! the decisions: how many attempts are made, and which attempt's outcome
//! the caller sees.
use crate::agent::AgentError;
use vstd::prelude::*;

verus! {

/// Index of the last dial attempt: the first attempt and ten retries.
pub const LAST_DIAL_ATTEMPT: usize = 10;

/// Whether a failed dial attempt with this index is followed by another.
pub fn retry_allowed(attempt: usize) -> (r: bool)
    ensures
        r == (attempt < LAST_DIAL_ATTEMPT),
{
    attempt < LAST_DIAL_ATTEMPT
}

/// The dial outcome over a given sequence of per-attempt results, starting
/// at this attempt index.
pub open spec fn spec_dial(outcomes: Seq<bool>, i: int) -> Result<int, AgentError>
    decreases LAST_DIAL_ATTEMPT - i,
{
    if 0 <= i < outcomes.len() && i <= LAST_DIAL_ATTEMPT {
        if outcomes[i] {
            Ok(i)
        } else if i < LAST_DIAL_ATTEMPT {
            spec_dial(outcomes, i + 1)
        } else {
            Err(AgentError::ConnectTimeout)
        }
    } else {
        Err(AgentError::ConnectTimeout)
    }
}

/// Which dial attempt connects, given each attempt's outcome: the first
/// successful attempt within the budget of eleven, or a timeout when the
/// first eleven attempts all fail.
pub fn dial_outcome(outcomes: &Vec<bool>) -> (r: Result<usize, AgentError>)
    requires
        outcomes@.len() > LAST_DIAL_ATTEMPT,
    ensures
        r == (match spec_dial(outcomes@, 0) {
            Ok(i) => Ok::<usize, AgentError>(i as usize),
            Err(e) => Err::<usize, AgentError>(e),
        }),
        r is Ok ==> {
            &&& r->Ok_0 <= LAST_DIAL_ATTEMPT
            &&& outcomes@[r->Ok_0 as int]
            &&& forall|j: int| 0 <= j < r->Ok_0 ==> !outcomes@[j]
        },
        r is Err ==> (r->Err_0 == AgentError::ConnectTimeout && forall|j: int|
            0 <= j <= LAST_DIAL_ATTEMPT ==> !outcomes@[j]),
{
    let mut i: usize = 0;
    loop
        invariant
            outcomes@.len() > LAST_DIAL_ATTEMPT,
            i <= LAST_DIAL_ATTEMPT,
            spec_dial(outcomes@, 0) == spec_dial(outcomes@, i as int),
            forall|j: int| 0 <= j < i ==> !outcomes@[j],
        decreases LAST_DIAL_ATTEMPT - i,
    {
        if outcomes[i] {
            return Ok(i);
        }
        if i == LAST_DIAL_ATTEMPT {
            return Err(AgentError::ConnectTimeout);
        }
        i = i + 1;
    }
}

} // verus!
