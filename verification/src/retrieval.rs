//! Retrieval: mapping a requested name back to stored bytes. The name is
//! served by base name only — any extension the client appended is ignored
//! — and the content type is sniffed from the leading bytes.

use vstd::prelude::*;
use crate::error::Error;
use crate::log_format::{spec_find, lemma_spec_find_unique, lemma_spec_find_absent};
use crate::text::copy_range;

verus! {

/// The byte that begins an extension.
pub const DOT: u8 = 0x2e;

/// The base name a request is served by: everything before the first dot,
/// or the whole name when there is none.
pub open spec fn spec_base_name(s: Seq<u8>) -> Seq<u8> {
    s.take(spec_find(s, DOT))
}

/// Strip the extension from a requested name: the part before the first
/// dot, or the whole name when there is none.
pub fn strip_extension(name: &Vec<u8>) -> (r: Vec<u8>)
    ensures
        r@ == spec_base_name(name@),
{
    let mut i: usize = 0;
    while i < name.len() && name[i] != DOT
        invariant
            i <= name@.len(),
            forall|k: int| 0 <= k < i ==> name@[k] != DOT,
        decreases name@.len() - i,
    {
        i += 1;
    }
    proof {
        if i < name@.len() {
            lemma_spec_find_unique(name@, DOT, i as int);
        } else {
            lemma_spec_find_absent(name@, DOT);
        }
    }
    copy_range(name, 0, i)
}

/// The content type the sniffer assigns to a byte string, if it recognises
/// one. The sniff depends on the bytes alone.
pub uninterp spec fn sniffed_mime(data: Seq<u8>) -> Option<Seq<char>>;

/// Relies on infer::get: matches the leading bytes against its signature
/// table; the result depends on the bytes alone.
#[verifier::external_body]
fn infer_mime(data: &[u8]) -> (r: Option<String>)
    ensures
        (match r {
            Some(m) => sniffed_mime(data@) matches Some(s) && s == m@,
            None => sniffed_mime(data@) is None,
        }),
{
    infer::get(data).map(|kind| kind.mime_type().to_owned())
}

/// Best-effort content type for stored bytes: the sniffed type, or nothing
/// when the content is unrecognisable.
pub fn sniff_content_type(data: &Vec<u8>) -> (r: Option<String>)
    ensures
        (match r {
            Some(m) => sniffed_mime(data@) matches Some(s) && s == m@,
            None => sniffed_mime(data@) is None,
        }),
{
    infer_mime(data.as_slice())
}

/// The compute half of retrieval, fed the file's bytes if the name is
/// stored: an absent name is answered `FileNotFound` — no bytes are read or
/// returned for it — and present bytes are answered whole, with their
/// sniffed content type.
pub fn view_content(file: Option<Vec<u8>>) -> (r: Result<(Option<String>, Vec<u8>), Error>)
    ensures
        (match file {
            None => r matches Err(e) && e == Error::FileNotFound,
            Some(data) => r matches Ok(p) && p.1@ == data@ && (match p.0 {
                Some(m) => sniffed_mime(data@) matches Some(s) && s == m@,
                None => sniffed_mime(data@) is None,
            }),
        }),
{
    match file {
        None => Err(Error::FileNotFound),
        Some(data) => {
            let mime = sniff_content_type(&data);
            Ok((mime, data))
        },
    }
}

} // verus!
