//! The scoreboard service: the request/response mapping around the store.
//!
//! Submitting persists the payload and echoes it back with a created status.
//! Listing returns the ranked entries of one scoreboard. A persistence
//! failure from either operation becomes a structured error response, never
//! an abort, and never an empty list that would mask the failure.

use vstd::prelude::*;
use crate::entry::{PersistenceError, ScoreEntry, ScorePostPayload, ServiceError};
use crate::rank::{ranked, sorted_desc};
use crate::store::{entry_for, ScoreStore};

verus! {

/// A successful submission: a created (201) status and the submitted payload
/// echoed back unchanged — not the store-assigned timestamp.
#[derive(Debug, PartialEq, Eq, Clone)]
pub struct SubmitResponse {
    pub status: u16,
    pub payload: ScorePostPayload,
}

/// Persists one submission and echoes it back. Exactly one row is appended:
/// the payload's fields with the store-assigned timestamp.
pub fn submit_score(store: &mut ScoreStore, payload: &ScorePostPayload, timestamp: String) -> (r: SubmitResponse)
    requires
        old(store).wf(),
        timestamp@.len() > 0,
    ensures
        final(store)@ == old(store)@.push(entry_for(*payload, timestamp)),
        final(store).wf(),
        r.status == 201,
        r.payload == *payload,
{
    store.insert(payload, timestamp);
    SubmitResponse { status: 201, payload: payload.duplicate() }
}

/// Lists one scoreboard: the entries submitted to it, ordered by points
/// descending. An empty result is a valid outcome, not an error.
pub fn list_scores(store: &ScoreStore, scoreboard_id: u32) -> (r: Vec<ScoreEntry>)
    ensures
        r@ == ranked(store@, scoreboard_id),
        sorted_desc(r@),
{
    store.list_by_scoreboard(scoreboard_id)
}

/// Maps the store's submit outcome to a response: success becomes the 201
/// echo, a persistence failure becomes a structured error — never an abort.
pub fn submit_outcome(payload: ScorePostPayload, store_result: Result<(), PersistenceError>) -> (r: Result<
    SubmitResponse,
    ServiceError,
>)
    ensures
        (match store_result {
            Ok(_) => r == Ok::<SubmitResponse, ServiceError>((SubmitResponse { status: 201, payload })),
            Err(e) => r == Err::<SubmitResponse, ServiceError>(ServiceError::Persistence(e)),
        }),
{
    match store_result {
        Ok(_) => Ok(SubmitResponse { status: 201, payload }),
        Err(e) => Err(ServiceError::Persistence(e)),
    }
}

/// Maps the store's list outcome to a response: the rows pass through
/// unchanged, and a persistence failure is reported as an error — it is
/// never turned into an empty list, so a failure and a scoreboard with zero
/// entries stay distinguishable.
pub fn list_outcome(store_result: Result<Vec<ScoreEntry>, PersistenceError>) -> (r: Result<
    Vec<ScoreEntry>,
    ServiceError,
>)
    ensures
        (match store_result {
            Ok(entries) => r == Ok::<Vec<ScoreEntry>, ServiceError>(entries),
            Err(e) => r == Err::<Vec<ScoreEntry>, ServiceError>(ServiceError::Persistence(e)),
        }),
{
    match store_result {
        Ok(entries) => Ok(entries),
        Err(e) => Err(ServiceError::Persistence(e)),
    }
}

} // verus!
