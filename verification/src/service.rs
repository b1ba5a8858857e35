//! A specification-level model of the running service: the dedup index and
//! the storage directory as mathematical maps, the upload and retrieval
//! transitions over them, and the invariant that ties index entries to
//! stored files.

use vstd::prelude::*;
use crate::hashing::digest_of;
use crate::hash_storage::{spec_insert_map, spec_chosen_name};

verus! {

/// The service's abstract state.
pub struct ServiceModel {
    /// Content hash to assigned name — what the in-memory index holds.
    pub index: Map<Seq<u8>, Seq<char>>,
    /// Assigned name to stored bytes — what the storage directory holds.
    pub files: Map<Seq<char>, Seq<u8>>,
}

impl ServiceModel {
    /// A candidate name is usable only while no file is stored under it;
    /// the generator retries until the directory check passes.
    pub open spec fn fresh(self, candidate: Seq<char>) -> bool {
        !self.files.contains_key(candidate)
    }

    /// The service's invariant: every indexed name has a stored file, and
    /// that file's bytes hash to the index key.
    pub open spec fn wf(self) -> bool {
        forall|h: Seq<u8>| #[trigger]
            self.index.contains_key(h) ==> self.files.contains_key(self.index[h]) && digest_of(
                self.files[self.index[h]],
            ) == h
    }

    /// One upload: hash the bytes and consult the index; reuse the existing
    /// name writing nothing, or store the bytes under the candidate and
    /// record the mapping.
    pub open spec fn upload(self, data: Seq<u8>, candidate: Seq<char>) -> ServiceModel {
        if self.index.contains_key(digest_of(data)) {
            self
        } else {
            ServiceModel {
                index: self.index.insert(digest_of(data), candidate),
                files: self.files.insert(candidate, data),
            }
        }
    }

    /// The name an upload answers with: the recorded one on reuse, the
    /// candidate on a fresh store.
    pub open spec fn upload_name(self, data: Seq<u8>, candidate: Seq<char>) -> Seq<char> {
        spec_chosen_name(self.index, digest_of(data), candidate)
    }

    /// Retrieval: the stored bytes under a name, or nothing.
    pub open spec fn retrieve(self, name: Seq<char>) -> Option<Seq<u8>> {
        if self.files.contains_key(name) {
            Some(self.files[name])
        } else {
            None
        }
    }
}

/// An upload moves the index exactly as the in-memory index's
/// insert-if-absent contract describes, and it preserves the service
/// invariant whenever the candidate passed the directory freshness check.
pub proof fn lemma_upload_preserves_wf(s: ServiceModel, data: Seq<u8>, candidate: Seq<char>)
    requires
        s.wf(),
        s.fresh(candidate),
    ensures
        s.upload(data, candidate).wf(),
        s.upload(data, candidate).index == spec_insert_map(s.index, digest_of(data), candidate),
{
    let next = s.upload(data, candidate);
    if !s.index.contains_key(digest_of(data)) {
        assert forall|h: Seq<u8>| #[trigger] next.index.contains_key(h) implies next.files.contains_key(
            next.index[h],
        ) && digest_of(next.files[next.index[h]]) == h by {
            if h != digest_of(data) {
                assert(s.index.contains_key(h));
                assert(s.files.contains_key(s.index[h]));
                assert(s.index[h] != candidate);
            }
        }
    }
}

/// Round trip on the store path: content whose hash is new is stored under
/// the candidate, and retrieving the answered name returns exactly the
/// uploaded bytes.
pub proof fn lemma_round_trip_stored(s: ServiceModel, data: Seq<u8>, candidate: Seq<char>)
    requires
        s.wf(),
        s.fresh(candidate),
        !s.index.contains_key(digest_of(data)),
    ensures
        s.upload(data, candidate).retrieve(s.upload_name(data, candidate)) == Some(data),
{
}

/// Round trip on the reuse path: content whose hash is already indexed is
/// answered the recorded name, neither map changes — nothing is written —
/// and retrieving that name returns the bytes first stored for that hash,
/// whose digest is the upload's own.
pub proof fn lemma_round_trip_reused(s: ServiceModel, data: Seq<u8>, candidate: Seq<char>)
    requires
        s.wf(),
        s.index.contains_key(digest_of(data)),
    ensures
        s.upload(data, candidate) == s,
        s.upload(data, candidate).retrieve(s.upload_name(data, candidate)) matches Some(b)
            && digest_of(b) == digest_of(data),
{
}

/// Unknown retrieval: a name no upload ever stored a file under is answered
/// nothing.
pub proof fn lemma_unknown_retrieval(s: ServiceModel, name: Seq<char>)
    requires
        !s.files.contains_key(name),
    ensures
        s.retrieve(name) is None,
{
}

} // verus!
