//! The successful upload response: the assigned name and the public URL
//! composed from the request's host.

use vstd::prelude::*;
use vstd::string::StringExecFns;

verus! {

/// What a successful upload answers: the publicly reachable URL and the
/// bare assigned name.
pub struct UploadResponse {
    pub full_url: String,
    pub file_name: String,
}

impl UploadResponse {
    /// Compose the response for a chosen name: the URL is the host, one
    /// slash, the name.
    pub fn new(host: &str, file_name: String) -> (r: UploadResponse)
        ensures
            r.full_url@ == host@ + seq!['/'] + file_name@,
            r.file_name@ == file_name@,
    {
        proof {
            reveal_strlit("/");
            assert("/"@ =~= seq!['/']);
        }
        let mut url = host.to_owned();
        url.append("/");
        url.append(file_name.as_str());
        UploadResponse { full_url: url, file_name }
    }
}

} // verus!
