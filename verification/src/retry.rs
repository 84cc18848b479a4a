//! The backoff policy wrapped around storage requests: exponential backoff
//! starting at `RETRY_INITIAL_INTERVAL_MS` milliseconds and giving up after
//! `RETRY_MAX_ELAPSED_SECS` seconds. The client reports every request failure
//! as permanent, so in practice each request is tried once and its failure
//! is returned at once; the policy bounds retries only of failures that are
//! not marked permanent.

use vstd::prelude::*;

verus! {

/// The first wait before retrying a failed request, in milliseconds.
pub const RETRY_INITIAL_INTERVAL_MS: u64 = 100;

/// How long a request is retried before its failure is reported, in seconds.
pub const RETRY_MAX_ELAPSED_SECS: u64 = 120;

} // verus!
