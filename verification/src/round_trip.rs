//! The end-to-end promise of the store: what is uploaded is what a later
//! download returns.

use vstd::prelude::*;
use crate::assembly::{assemble, lemma_reassembly_rebuilds_object, zeros};
use crate::chunks::num_chunks;
use crate::compression::zstd_decoded;

verus! {

/// An uploaded artifact comes back unchanged: the stored body is a zstd frame
/// of the uploaded bytes (as `compress_artifact` guarantees), and rebuilding
/// that body from its chunks, arriving in any order with every chunk
/// present, then decompressing it, gives back the uploaded bytes.
pub proof fn lemma_upload_then_download_returns_data(
    data: Seq<u8>,
    stored: Seq<u8>,
    arrivals: Seq<int>,
)
    requires
        zstd_decoded(stored) == Some(data),
        forall|k: int|
            0 <= k < arrivals.len() ==> 0 <= #[trigger] arrivals[k] < num_chunks(
                stored.len() as int,
            ),
        forall|i: int| 0 <= i < num_chunks(stored.len() as int) ==> arrivals.contains(i),
    ensures
        zstd_decoded(assemble(zeros(stored.len()), stored, arrivals)) == Some(data),
{
    lemma_reassembly_rebuilds_object(stored, arrivals);
}

} // verus!
