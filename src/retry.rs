//! The decisions of the write-serialization controller: after each attempt of
//! a write transaction, whether to finish with its result, retry it afresh, or
//! give up with a write conflict.
use vstd::prelude::*;

verus! {

/// Errors of the storage layer.
#[derive(Clone, Copy, Debug, PartialEq, Eq, Structural)]
pub enum DatabaseError {
    /// The row looked up does not exist.
    NotFound,
    /// No identifier is left for a new row.
    IdOverflow,
    /// The retry budget ran out while transactions kept conflicting.
    WriteConflict,
    /// Any other storage fault (connectivity, schema).
    Storage,
}

/// How one attempt of a write transaction ended.
pub enum TxOutcome<T> {
    /// It committed with this result.
    Committed(T),
    /// The store reported a serialization conflict; the attempt was rolled back.
    Conflict,
    /// It failed otherwise; the attempt was rolled back.
    Failed(DatabaseError),
}

/// What the controller does next.
pub enum RetryStep<T> {
    /// Hand this result to the caller.
    Finish(Result<T, DatabaseError>),
    /// Run the whole transaction again, in a fresh transaction.
    Retry,
}

/// Decides what follows an attempt, `attempts` being the number made so far
/// (this one included) out of at most `max_attempts`: a commit finishes with
/// its value, a failure other than a conflict is passed on unchanged, and a
/// conflict is retried while the budget lasts and becomes `WriteConflict` after.
pub fn after_attempt<T>(attempts: u32, max_attempts: u32, outcome: TxOutcome<T>) -> (r: RetryStep<T>)
    ensures
        outcome matches TxOutcome::Committed(v) ==> r == RetryStep::Finish(Ok::<T, DatabaseError>(v)),
        outcome matches TxOutcome::Failed(e) ==> r == RetryStep::<T>::Finish(Err(e)),
        outcome matches TxOutcome::Conflict ==> (attempts < max_attempts <==> r matches RetryStep::Retry),
        outcome matches TxOutcome::Conflict && attempts >= max_attempts ==> r
            == RetryStep::<T>::Finish(Err(DatabaseError::WriteConflict)),
{
    match outcome {
        TxOutcome::Committed(v) => RetryStep::Finish(Ok(v)),
        TxOutcome::Failed(e) => RetryStep::Finish(Err(e)),
        TxOutcome::Conflict => {
            if attempts < max_attempts {
                RetryStep::Retry
            } else {
                RetryStep::Finish(Err(DatabaseError::WriteConflict))
            }
        },
    }
}

} // verus!
