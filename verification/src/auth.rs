//! The auth gate guarding the upload endpoint: a basic-auth credential
//! check, specified as a pass/reject decision over the request's
//! `Authorization` header bytes.

use vstd::prelude::*;
use crate::config::AuthConfig;
use crate::log_format::{spec_find, lemma_spec_find_unique, lemma_spec_find_absent};
use crate::text::{bytes_eq, copy_range};
use vstd::utf8::encode_utf8;

verus! {

/// Why the credential check rejected a request.
#[derive(Debug, Clone, PartialEq, Eq, Structural)]
pub enum AuthError {
    /// No `Authorization` header, or not a basic-auth one.
    MissingCredentials,
    /// The credential payload is not decodable.
    MalformedCredentials,
    /// The payload decodes but does not match the configured pair.
    InvalidCredentials,
}

impl AuthError {
    /// Every rejection is answered 401.
    pub fn status_code(&self) -> (r: u16)
        ensures
            r == 401u16,
    {
        401
    }
}

/// The challenge value a rejection must carry in its `WWW-Authenticate`
/// header.
pub fn challenge_value() -> (r: &'static str)
    ensures
        r@ == "Basic"@,
{
    "Basic"
}

/// What the base64 decoder makes of a payload, if anything; the result
/// depends on the input bytes alone.
pub uninterp spec fn base64_decoded(s: Seq<u8>) -> Option<Seq<u8>>;

/// Relies on base64::decode with the standard alphabet: decodes or rejects
/// on the input bytes alone.
#[verifier::external_body]
fn base64_decode(input: &[u8]) -> (r: Option<Vec<u8>>)
    ensures
        (match r {
            Some(v) => base64_decoded(input@) matches Some(d) && d == v@,
            None => base64_decoded(input@) is None,
        }),
{
    base64::decode(input).ok()
}

/// The scheme prefix of a basic-auth header: the bytes of `"Basic "`.
pub open spec fn basic_prefix() -> Seq<u8> {
    seq![0x42u8, 0x61u8, 0x73u8, 0x69u8, 0x63u8, 0x20u8]
}

/// ASCII whitespace, as trimmed from each credential half.
pub open spec fn is_ws(b: u8) -> bool {
    b == 0x20 || (0x09 <= b <= 0x0d)
}

/// How many leading whitespace bytes a byte string carries.
pub open spec fn spec_skip_ws(s: Seq<u8>) -> int
    decreases s.len(),
{
    if s.len() == 0 {
        0
    } else if !is_ws(s[0]) {
        0
    } else {
        1 + spec_skip_ws(s.skip(1))
    }
}

/// Where the trailing whitespace of a byte string begins.
pub open spec fn spec_trim_end(s: Seq<u8>) -> int
    decreases s.len(),
{
    if s.len() == 0 {
        0
    } else if !is_ws(s.last()) {
        s.len() as int
    } else {
        spec_trim_end(s.drop_last())
    }
}

/// A byte string with its leading and trailing whitespace removed.
pub open spec fn spec_trim(s: Seq<u8>) -> Seq<u8> {
    if spec_skip_ws(s) < spec_trim_end(s) {
        s.subrange(spec_skip_ws(s), spec_trim_end(s))
    } else {
        Seq::empty()
    }
}

proof fn lemma_skip_ws(s: Seq<u8>)
    ensures
        0 <= spec_skip_ws(s) <= s.len(),
        spec_skip_ws(s) < s.len() ==> !is_ws(s[spec_skip_ws(s)]),
        forall|k: int| 0 <= k < spec_skip_ws(s) ==> is_ws(s[k]),
    decreases s.len(),
{
    if s.len() > 0 && is_ws(s[0]) {
        lemma_skip_ws(s.skip(1));
        assert forall|k: int| 0 <= k < spec_skip_ws(s) implies is_ws(s[k]) by {
            if k > 0 {
                assert(is_ws(s.skip(1)[k - 1]));
            }
        }
    }
}

proof fn lemma_skip_ws_unique(s: Seq<u8>, i: int)
    requires
        0 <= i <= s.len(),
        i < s.len() ==> !is_ws(s[i]),
        forall|k: int| 0 <= k < i ==> is_ws(s[k]),
    ensures
        spec_skip_ws(s) == i,
{
    lemma_skip_ws(s);
    if spec_skip_ws(s) < i {
        assert(!is_ws(s[spec_skip_ws(s)]));
    }
}

proof fn lemma_trim_end(s: Seq<u8>)
    ensures
        0 <= spec_trim_end(s) <= s.len(),
        spec_trim_end(s) > 0 ==> !is_ws(s[spec_trim_end(s) - 1]),
        forall|k: int| spec_trim_end(s) <= k < s.len() ==> is_ws(s[k]),
    decreases s.len(),
{
    if s.len() > 0 && is_ws(s.last()) {
        lemma_trim_end(s.drop_last());
        assert forall|k: int| spec_trim_end(s) <= k < s.len() implies is_ws(s[k]) by {
            if k < s.len() - 1 {
                assert(is_ws(s.drop_last()[k]));
            }
        }
    }
}

proof fn lemma_trim_end_unique(s: Seq<u8>, e: int)
    requires
        0 <= e <= s.len(),
        e > 0 ==> !is_ws(s[e - 1]),
        forall|k: int| e <= k < s.len() ==> is_ws(s[k]),
    ensures
        spec_trim_end(s) == e,
{
    lemma_trim_end(s);
    if spec_trim_end(s) < e {
        assert(is_ws(s[e - 1]));
    }
    if spec_trim_end(s) > e {
        assert(is_ws(s[spec_trim_end(s) - 1]));
    }
}

/// Exec whitespace test.
fn is_ws_byte(b: u8) -> (r: bool)
    ensures
        r == is_ws(b),
{
    b == 0x20 || (0x09 <= b && b <= 0x0d)
}

/// Trim ASCII whitespace from both ends.
fn trimmed(v: &Vec<u8>) -> (r: Vec<u8>)
    ensures
        r@ == spec_trim(v@),
{
    let mut lo: usize = 0;
    while lo < v.len() && is_ws_byte(v[lo])
        invariant
            lo <= v@.len(),
            forall|k: int| 0 <= k < lo ==> is_ws(v@[k]),
        decreases v@.len() - lo,
    {
        lo += 1;
    }
    proof {
        lemma_skip_ws_unique(v@, lo as int);
    }
    if lo == v.len() {
        proof {
            lemma_trim_end(v@);
        }
        return Vec::new();
    }
    let mut hi: usize = v.len();
    while hi > lo && is_ws_byte(v[hi - 1])
        invariant
            lo <= hi <= v@.len(),
            forall|k: int| hi <= k < v@.len() ==> is_ws(v@[k]),
        decreases hi,
    {
        hi -= 1;
    }
    proof {
        assert(!is_ws(v@[lo as int]));
        if hi == lo {
            assert(is_ws(v@[lo as int]));
        }
        lemma_trim_end_unique(v@, hi as int);
    }
    copy_range(v, lo, hi)
}

/// The whole credential decision, over the header bytes and the configuration:
/// with auth disabled every request passes; with it enabled, the header
/// must exist and carry the basic scheme, its payload must decode, and the
/// decoded `user:pass` pair — each half trimmed of surrounding whitespace —
/// must match the configured pair.
pub open spec fn spec_authorize(header: Option<Seq<u8>>, username: Seq<u8>, password: Seq<u8>) -> Result<(), AuthError> {
    match header {
        None => Err(AuthError::MissingCredentials),
        Some(h) => {
            if !(h.len() >= 6 && h.take(6) == basic_prefix()) {
                Err(AuthError::MissingCredentials)
            } else {
                match base64_decoded(h.skip(6)) {
                    None => Err(AuthError::MalformedCredentials),
                    Some(d) => {
                        let j = spec_find(d, 0x3a);
                        if j >= d.len() {
                            Err(AuthError::InvalidCredentials)
                        } else if spec_trim(d.take(j)) == username && spec_trim(
                            d.skip(j + 1),
                        ) == password {
                            Ok(())
                        } else {
                            Err(AuthError::InvalidCredentials)
                        }
                    },
                }
            }
        },
    }
}

/// The header's view, for stating the decision's contract.
pub open spec fn header_view(header: Option<&Vec<u8>>) -> Option<Seq<u8>> {
    match header {
        Some(h) => Some(h@),
        None => None,
    }
}

/// Decide whether a request may reach the upload pipeline. Passes every
/// request when auth is disabled; otherwise checks the `Authorization`
/// header bytes against the configured credential pair and rejects with the
/// reason the decision spec assigns.
pub fn authorize(header: Option<&Vec<u8>>, config: &AuthConfig) -> (r: Result<(), AuthError>)
    ensures
        (match config {
            AuthConfig::Disabled => r is Ok,
            AuthConfig::Enabled { username, password } => r == spec_authorize(
                header_view(header),
                encode_utf8(username@),
                encode_utf8(password@),
            ),
        }),
{
    let (username, password) = match config {
        AuthConfig::Disabled => {
            return Ok(());
        },
        AuthConfig::Enabled { username, password } => (username, password),
    };
    let h = match header {
        None => {
            return Err(AuthError::MissingCredentials);
        },
        Some(h) => h,
    };
    if !(h.len() >= 6 && h[0] == 0x42 && h[1] == 0x61 && h[2] == 0x73 && h[3] == 0x69 && h[4]
        == 0x63 && h[5] == 0x20) {
        proof {
            if h@.len() >= 6 && h@.take(6) == basic_prefix() {
                assert(h@.take(6)[0] == 0x42 && h@.take(6)[1] == 0x61 && h@.take(6)[2] == 0x73
                    && h@.take(6)[3] == 0x69 && h@.take(6)[4] == 0x63 && h@.take(6)[5] == 0x20);
            }
        }
        return Err(AuthError::MissingCredentials);
    }
    proof {
        assert(h@.take(6) =~= basic_prefix());
    }
    let payload = copy_range(h, 6, h.len());
    proof {
        assert(payload@ =~= h@.skip(6));
    }
    let decoded = match base64_decode(payload.as_slice()) {
        None => {
            return Err(AuthError::MalformedCredentials);
        },
        Some(d) => d,
    };
    // Split at the first separating colon.
    let mut j: usize = 0;
    while j < decoded.len() && decoded[j] != 0x3a
        invariant
            j <= decoded@.len(),
            forall|k: int| 0 <= k < j ==> decoded@[k] != 0x3a,
        decreases decoded@.len() - j,
    {
        j += 1;
    }
    if j == decoded.len() {
        proof {
            lemma_spec_find_absent(decoded@, 0x3a);
        }
        return Err(AuthError::InvalidCredentials);
    }
    proof {
        lemma_spec_find_unique(decoded@, 0x3a, j as int);
    }
    let user_half = copy_range(&decoded, 0, j);
    let pass_half = copy_range(&decoded, j + 1, decoded.len());
    proof {
        assert(user_half@ =~= decoded@.take(j as int));
        assert(pass_half@ =~= decoded@.skip(j + 1));
    }
    let user = trimmed(&user_half);
    let pass = trimmed(&pass_half);
    let expected_user = utf8_bytes(username);
    let expected_pass = utf8_bytes(password);
    if bytes_eq(user.as_slice(), expected_user.as_slice()) && bytes_eq(
        pass.as_slice(),
        expected_pass.as_slice(),
    ) {
        Ok(())
    } else {
        Err(AuthError::InvalidCredentials)
    }
}

/// A configured credential's bytes, as they must appear in the decoded
/// payload for the pair to match.
fn utf8_bytes(s: &String) -> (r: Vec<u8>)
    ensures
        r@ == encode_utf8(s@),
{
    s.as_str().as_bytes_vec()
}

} // verus!
