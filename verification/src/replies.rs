//! What the store's replies mean for existence checks and deletions.

use vstd::prelude::*;
use crate::errors::ArtifactError;
use crate::keys::{ArtifactType, gcs_key, get_gcs_key_from_id};

verus! {

/// The reply to a request for an object's metadata.
pub enum ObjectLookup {
    /// The metadata was returned.
    Found,
    /// The service answered with an HTTP error status.
    ErrorStatus { code: u16, text: String },
    /// The request failed without an answer from the service.
    Failed { text: String },
}

/// The HTTP status of a missing object.
pub const NOT_FOUND: u16 = 404;

/// Whether an artifact exists, from the reply to a metadata request: it does
/// when its metadata comes back, it does not when the service answers "not
/// found", and any other failure is an error.
pub fn exists_from_lookup(lookup: ObjectLookup) -> (res: Result<bool, ArtifactError>)
    ensures
        match lookup {
            ObjectLookup::Found => res == Ok::<bool, ArtifactError>(true),
            ObjectLookup::ErrorStatus { code, text } => if code == NOT_FOUND {
                res == Ok::<bool, ArtifactError>(false)
            } else {
                res == Err::<bool, ArtifactError>(ArtifactError::ExistsCheck(text))
            },
            ObjectLookup::Failed { text } => res == Err::<bool, ArtifactError>(
                ArtifactError::ExistsCheck(text),
            ),
        },
{
    match lookup {
        ObjectLookup::Found => Ok(true),
        ObjectLookup::ErrorStatus { code, text } => {
            if code == NOT_FOUND {
                Ok(false)
            } else {
                Err(ArtifactError::ExistsCheck(text))
            }
        },
        ObjectLookup::Failed { text } => Err(ArtifactError::ExistsCheck(text)),
    }
}

/// How one deletion ended.
pub enum DeleteOutcome {
    /// The object was deleted.
    Deleted,
    /// The store refused or the request failed.
    Failed { text: String },
    /// The task making the request did not run to completion.
    TaskPanicked { text: String },
}

/// The result of one deletion: success, or the error that ends the operation.
pub fn deletion_result(outcome: DeleteOutcome) -> (res: Result<(), ArtifactError>)
    ensures
        match outcome {
            DeleteOutcome::Deleted => res is Ok,
            DeleteOutcome::Failed { text } => res == Err::<(), ArtifactError>(
                ArtifactError::Delete(text),
            ),
            DeleteOutcome::TaskPanicked { text } => res == Err::<(), ArtifactError>(
                ArtifactError::DeleteTaskPanicked(text),
            ),
        },
{
    match outcome {
        DeleteOutcome::Deleted => Ok(()),
        DeleteOutcome::Failed { text } => Err(ArtifactError::Delete(text)),
        DeleteOutcome::TaskPanicked { text } => Err(ArtifactError::DeleteTaskPanicked(text)),
    }
}

/// The keys of a batch of artifacts of one type, in the batch's order.
pub fn delete_batch_keys(artifact_type: ArtifactType, ids: &[&str]) -> (keys: Vec<String>)
    ensures
        keys@.len() == ids@.len(),
        forall|i: int| 0 <= i < ids@.len() ==> #[trigger] keys@[i]@ == gcs_key(artifact_type, ids@[i]@),
{
    let mut keys: Vec<String> = Vec::new();
    let mut i: usize = 0;
    while i < ids.len()
        invariant
            i <= ids@.len(),
            keys@.len() == i,
            forall|j: int| 0 <= j < i ==> #[trigger] keys@[j]@ == gcs_key(artifact_type, ids@[j]@),
        decreases ids@.len() - i,
    {
        keys.push(get_gcs_key_from_id(artifact_type, ids[i]));
        i = i + 1;
    }
    keys
}

} // verus!
