//! The failures the artifact store reports, each with the text of its cause.

use vstd::prelude::*;

verus! {

/// Why an artifact operation failed. The text is the description of the
/// underlying cause as the failing component gave it.
#[derive(Debug)]
pub enum ArtifactError {
    /// Decompressing a downloaded artifact failed.
    Decompress(String),
    /// Asking the store whether an artifact exists failed.
    ExistsCheck(String),
    /// Deleting an artifact failed.
    Delete(String),
    /// A task deleting an artifact of a batch did not run to completion.
    DeleteTaskPanicked(String),
}

} // verus!
