//! Artifact bodies are stored as zstd frames: compressed before upload and
//! decompressed after download.

use vstd::prelude::*;
use crate::errors::ArtifactError;

verus! {

/// The zstd compression level of stored artifacts, balancing ratio and speed.
pub const ZSTD_LEVEL: i32 = 3;

/// The zstd frame that `zstd::encode_all` makes of `data` at `level`.
pub uninterp spec fn zstd_frame(data: Seq<u8>, level: i32) -> Seq<u8>;

/// What `zstd::decode_all` makes of `frame`: the decompressed bytes, or
/// `None` where `frame` is not valid zstd data.
pub uninterp spec fn zstd_decoded(frame: Seq<u8>) -> Option<Seq<u8>>;

/// Calls `zstd::encode_all` on `data`. Trusted: on in-memory input the call
/// succeeds (the level is clamped to zstd's range, reading a slice and
/// writing a `Vec` cannot fail), its result is the frame named
/// `zstd_frame(data, level)`, and decompressing that frame gives back `data`.
#[verifier::external_body]
fn zstd_encode_all(data: &[u8], level: i32) -> (res: Result<Vec<u8>, String>)
    ensures
        res is Ok,
        res matches Ok(frame) ==> frame@ == zstd_frame(data@, level) && zstd_decoded(frame@) == Some(
            data@,
        ),
{
    match zstd::encode_all(data, level) {
        Ok(frame) => Ok(frame),
        Err(e) => Err(e.to_string()),
    }
}

/// Calls `zstd::decode_all` on `frame`. Trusted: it succeeds exactly on valid
/// zstd data, named by `zstd_decoded`, and then returns the decompressed
/// bytes; a failure is reported by the text of the I/O error.
#[verifier::external_body]
fn zstd_decode_all(frame: &[u8]) -> (res: Result<Vec<u8>, String>)
    ensures
        res is Ok <==> zstd_decoded(frame@) is Some,
        res matches Ok(data) ==> zstd_decoded(frame@) == Some(data@),
{
    match zstd::decode_all(frame) {
        Ok(data) => Ok(data),
        Err(e) => Err(e.to_string()),
    }
}

/// Compresses an artifact body for upload, at level `ZSTD_LEVEL`; this
/// always succeeds, and the frame decompresses back to `data`.
pub fn compress_artifact(data: &[u8]) -> (frame: Vec<u8>)
    ensures
        frame@ == zstd_frame(data@, ZSTD_LEVEL),
        zstd_decoded(frame@) == Some(data@),
{
    zstd_encode_all(data, ZSTD_LEVEL).unwrap()
}

/// Decompresses a downloaded artifact body. It fails, with `Decompress`,
/// exactly when the body is not valid zstd data.
pub fn decompress_artifact(frame: &[u8]) -> (res: Result<Vec<u8>, ArtifactError>)
    ensures
        res is Ok <==> zstd_decoded(frame@) is Some,
        res matches Ok(data) ==> zstd_decoded(frame@) == Some(data@),
        res matches Err(e) ==> e is Decompress,
{
    match zstd_decode_all(frame) {
        Ok(data) => Ok(data),
        Err(text) => Err(ArtifactError::Decompress(text)),
    }
}

} // verus!
