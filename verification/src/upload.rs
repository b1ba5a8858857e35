//! The upload pipeline's compute step: hash the received bytes, consult the
//! index atomically, and assemble everything the caller must do — reuse the
//! existing name, or store the bytes and persist the new record.

use vstd::prelude::*;
use crate::hash_storage::{HashStorage, InsertOutcome, spec_insert_map};
use crate::hashing::{ContentHash, digest_of};
use crate::log_format::{encode_entry, spec_encode_entry};
use crate::response::UploadResponse;

verus! {

/// What one upload requires of its caller after the dedup decision.
pub enum UploadOutcome {
    /// Another upload of identical content already exists, possibly from a
    /// previous run or from a request that raced ahead: no bytes are
    /// written, the response carries the existing name.
    Reuse(UploadResponse),
    /// This request owns the new mapping: the caller must write the
    /// received bytes to a file under the response's name, and append the
    /// accompanying record to the durable log.
    Store(UploadResponse, Vec<u8>),
}

/// One upload against the index, once the body's bytes are fully received
/// and a candidate name free on disk has been generated. The caller must
/// hold the index exclusively from its directory freshness check through
/// this call.
pub fn process_upload(
    storage: &mut HashStorage,
    host: &str,
    data: &Vec<u8>,
    candidate: String,
) -> (r: UploadOutcome)
    requires
        old(storage).inv(),
    ensures
        final(storage).inv(),
        final(storage).entries() == spec_insert_map(
            old(storage).entries(),
            digest_of(data@),
            candidate@,
        ),
        (match r {
            UploadOutcome::Reuse(resp) => {
                &&& old(storage).entries().contains_key(digest_of(data@))
                &&& resp.file_name@ == old(storage).entries()[digest_of(data@)]
                &&& resp.full_url@ == host@ + seq!['/'] + resp.file_name@
            },
            UploadOutcome::Store(resp, record) => {
                &&& !old(storage).entries().contains_key(digest_of(data@))
                &&& resp.file_name@ == candidate@
                &&& resp.full_url@ == host@ + seq!['/'] + candidate@
                &&& record@ == spec_encode_entry(digest_of(data@), candidate@)
            },
        }),
{
    let hash = ContentHash::of_bytes(data);
    match storage.insert_if_absent(&hash, candidate) {
        InsertOutcome::AlreadyExists(existing) => {
            UploadOutcome::Reuse(UploadResponse::new(host, existing))
        },
        InsertOutcome::Inserted(name) => {
            let record = encode_entry(&hash, &name);
            UploadOutcome::Store(UploadResponse::new(host, name), record)
        },
    }
}

} // verus!
