//! Verified core of a Google Cloud Storage artifact store: object key layout,
//! zstd framing of artifact bodies, chunked download planning and reassembly,
//! upload media selection, and the classification of storage replies.
//!
//! The network side (authentication, requests under the backoff policy, worker
//! tasks) lives in `app/` and hands plain values to the functions of this
//! crate. Every request failure is reported as permanent, so each request is
//! tried once.

pub mod assembly;
pub mod chunks;
pub mod compression;
pub mod errors;
pub mod keys;
pub mod replies;
pub mod retry;
pub mod round_trip;
pub mod upload;
