//! Content hashes: the 256-bit digests that key the deduplication index.

use vstd::prelude::*;
use crate::hex::{hex_of, is_hex_encoding, hex_value_of, lemma_hex_of_len};

verus! {

/// The number of bytes in a content hash digest.
pub const HASH_LEN: usize = 32;

/// The digest that the hash function assigns to a byte string. Two equal
/// byte strings always carry the same digest.
pub uninterp spec fn digest_of(data: Seq<u8>) -> Seq<u8>;

/// Relies on blake3::hash: the digest is 32 bytes long and depends on the
/// input bytes alone.
#[verifier::external_body]
fn blake3_digest(data: &[u8]) -> (r: Vec<u8>)
    ensures
        r@ == digest_of(data@),
        r@.len() == HASH_LEN,
{
    blake3::hash(data).as_bytes().to_vec()
}

/// A fixed-length cryptographic digest of a file's bytes, used as the
/// deduplication key.
#[derive(Debug, Clone, PartialEq, Eq, Hash)]
pub struct ContentHash {
    bytes: Vec<u8>,
}

impl View for ContentHash {
    type V = Seq<u8>;

    closed spec fn view(&self) -> Seq<u8> {
        self.bytes@
    }
}

impl ContentHash {
    /// A well-formed hash holds exactly one digest's worth of bytes.
    pub open spec fn wf(&self) -> bool {
        self@.len() == HASH_LEN
    }

    /// Hash a byte string, producing the key under which its content is
    /// deduplicated.
    pub fn of_bytes(data: &Vec<u8>) -> (r: ContentHash)
        ensures
            r@ == digest_of(data@),
            r.wf(),
    {
        ContentHash { bytes: blake3_digest(data.as_slice()) }
    }

    /// Rebuild a hash from raw digest bytes, as read back from the durable
    /// log; rejects any byte string of the wrong length.
    pub fn from_bytes(bytes: Vec<u8>) -> (r: Option<ContentHash>)
        ensures
            bytes@.len() == HASH_LEN ==> (r matches Some(h) && h@ == bytes@ && h.wf()),
            bytes@.len() != HASH_LEN ==> r is None,
    {
        if bytes.len() == HASH_LEN {
            Some(ContentHash { bytes })
        } else {
            None
        }
    }

    /// The raw digest bytes.
    pub fn as_bytes(&self) -> (r: &Vec<u8>)
        ensures
            r@ == self@,
    {
        &self.bytes
    }

    /// The lowercase hex spelling of the digest, as it appears in a durable
    /// log record.
    pub fn to_hex(&self) -> (r: Vec<u8>)
        ensures
            r@ == hex_of(self@),
            self.wf() ==> r@.len() == 2 * HASH_LEN,
    {
        proof {
            lemma_hex_of_len(self@);
        }
        crate::hex::hex_encode(&self.bytes)
    }

    /// Decode the hex spelling of a digest; rejects any byte string that is
    /// not exactly 64 hex digits.
    pub fn from_hex(hex: &Vec<u8>) -> (r: Option<ContentHash>)
        ensures
            (hex@.len() == 2 * HASH_LEN && is_hex_encoding(hex@)) ==> (r matches Some(h)
                && h@ == hex_value_of(hex@) && h.wf()),
            !(hex@.len() == 2 * HASH_LEN && is_hex_encoding(hex@)) ==> r is None,
    {
        if hex.len() != 2 * HASH_LEN {
            return None;
        }
        match crate::hex::hex_decode(hex) {
            Some(bytes) => {
                proof {
                    crate::hex::lemma_hex_value_of_len(hex@);
                }
                Some(ContentHash { bytes })
            },
            None => None,
        }
    }
}

} // verus!
