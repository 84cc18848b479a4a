//! Upload requests: every artifact body goes up in one simple upload, with its
//! length announced when it is larger than one chunk.

use vstd::prelude::*;
use crate::chunks::CHUNK_SIZE;

verus! {

/// The media description of a simple upload.
pub struct UploadMedia {
    /// The object key the body is stored under.
    pub name: String,
    /// The content type of the body.
    pub content_type: String,
    /// The body's length, announced in advance for bodies larger than one
    /// chunk.
    pub content_length: Option<u64>,
}

/// Describes the upload of a body of `data_len` bytes under `key`: binary
/// content, with the length announced only when the body is larger than
/// `CHUNK_SIZE` bytes.
pub fn upload_media(key: String, data_len: usize) -> (media: UploadMedia)
    ensures
        media.name@ == key@,
        media.content_type@ == "application/octet-stream"@,
        media.content_length == if data_len <= CHUNK_SIZE {
            None
        } else {
            Some(data_len as u64)
        },
{
    let content_length: Option<u64> = if data_len <= CHUNK_SIZE {
        None
    } else {
        Some(data_len as u64)
    };
    UploadMedia {
        name: key,
        content_type: String::from_str("application/octet-stream"),
        content_length,
    }
}

} // verus!
