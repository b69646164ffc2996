use flatkvm_qemu::agent::AgentError;
use flatkvm_qemu::connect::{dial_outcome, retry_allowed, LAST_DIAL_ATTEMPT};

#[test]
fn tenth_attempt_succeeds_within_budget() {
    // Nine failures, then a success on the tenth attempt (index 9).
    let mut outcomes = vec![false; 9];
    outcomes.push(true);
    outcomes.push(false);
    assert_eq!(dial_outcome(&outcomes), Ok(9));
}

#[test]
fn eleventh_consecutive_failure_times_out() {
    let outcomes = vec![false; 11];
    assert_eq!(dial_outcome(&outcomes), Err(AgentError::ConnectTimeout));
}

#[test]
fn first_attempt_can_succeed() {
    let outcomes = vec![true; 11];
    assert_eq!(dial_outcome(&outcomes), Ok(0));
}

#[test]
fn last_attempt_in_budget_succeeds() {
    let mut outcomes = vec![false; 10];
    outcomes.push(true);
    assert_eq!(dial_outcome(&outcomes), Ok(10));
}

#[test]
fn retry_budget_bounds() {
    assert_eq!(LAST_DIAL_ATTEMPT, 10);
    for attempt in 0..10 {
        assert!(retry_allowed(attempt));
    }
    assert!(!retry_allowed(10));
    assert!(!retry_allowed(11));
}
