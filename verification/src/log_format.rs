//! The durable log's record format: one `hex-hash:filename\n` record per
//! index insert, replayed in order at startup. A record that fails to parse
//! is fatal — the service must not run with a partially loaded index.

use vstd::prelude::*;
use vstd::utf8::{decode_utf8, encode_utf8, valid_utf8};
use crate::error::Error;
use crate::hashing::{ContentHash, HASH_LEN};
use crate::hex::{hex_of, hex_value_of, is_hex_digit, is_hex_encoding};
use crate::text::{copy_range, string_from_utf8};

verus! {

/// The byte that separates a record's hash from its filename.
pub const SEPARATOR: u8 = 0x3a;

/// The byte that ends a record.
pub const TERMINATOR: u8 = 0x0a;

/// One replayed record: a content hash and the filename assigned to it.
pub struct LogEntry {
    pub hash: ContentHash,
    pub name: String,
}

/// The encoding of one record: the hash in lowercase hex, a separator, the
/// filename's bytes, a terminator.
pub open spec fn spec_encode_entry(hash: Seq<u8>, name: Seq<char>) -> Seq<u8> {
    hex_of(hash) + seq![SEPARATOR] + encode_utf8(name) + seq![TERMINATOR]
}

/// Index of the first occurrence of `b` in `s`, or `s.len()` if there is
/// none.
pub open spec fn spec_find(s: Seq<u8>, b: u8) -> int
    decreases s.len(),
{
    if s.len() == 0 {
        0
    } else if s[0] == b {
        0
    } else {
        1 + spec_find(s.skip(1), b)
    }
}

pub proof fn lemma_spec_find(s: Seq<u8>, b: u8)
    ensures
        0 <= spec_find(s, b) <= s.len(),
        spec_find(s, b) < s.len() ==> s[spec_find(s, b)] == b,
        forall|k: int| 0 <= k < spec_find(s, b) ==> s[k] != b,
    decreases s.len(),
{
    if s.len() > 0 && s[0] != b {
        lemma_spec_find(s.skip(1), b);
        assert forall|k: int| 0 <= k < spec_find(s, b) implies s[k] != b by {
            if k > 0 {
                assert(s.skip(1)[k - 1] != b);
            }
        }
    }
}

/// The first occurrence is pinned down by being an occurrence with none
/// before it.
pub proof fn lemma_spec_find_unique(s: Seq<u8>, b: u8, i: int)
    requires
        0 <= i < s.len(),
        s[i] == b,
        forall|k: int| 0 <= k < i ==> s[k] != b,
    ensures
        spec_find(s, b) == i,
{
    lemma_spec_find(s, b);
    if spec_find(s, b) < i {
        assert(s[spec_find(s, b)] != b);
    }
}

/// If `b` occurs nowhere, the search runs off the end.
pub proof fn lemma_spec_find_absent(s: Seq<u8>, b: u8)
    requires
        forall|k: int| 0 <= k < s.len() ==> s[k] != b,
    ensures
        spec_find(s, b) == s.len(),
{
    lemma_spec_find(s, b);
}

/// Parse a whole log into its records, hash bytes and raw name bytes, or
/// nothing if any record is malformed: a hash that is not 64 hex digits, a
/// missing separator, or a record without a terminator.
pub open spec fn spec_parse_log(s: Seq<u8>) -> Option<Seq<(Seq<u8>, Seq<u8>)>>
    decreases s.len(),
{
    if s.len() == 0 {
        Some(Seq::empty())
    } else if s.len() >= 65 && is_hex_encoding(s.take(64)) && s[64] == SEPARATOR {
        let j = spec_find(s.skip(65), TERMINATOR);
        if 0 <= j < s.len() - 65 {
            let hash = hex_value_of(s.take(64));
            let name = s.subrange(65, 65 + j);
            match spec_parse_log(s.skip(66 + j)) {
                Some(rest) => Some(seq![(hash, name)] + rest),
                None => None,
            }
        } else {
            None
        }
    } else {
        None
    }
}

/// Whether a log replays cleanly: every record parses and every filename is
/// valid UTF-8.
pub open spec fn spec_parse_ok(s: Seq<u8>) -> bool {
    match spec_parse_log(s) {
        Some(es) => forall|i: int| 0 <= i < es.len() ==> valid_utf8((#[trigger] es[i]).1),
        None => false,
    }
}

/// How one parsed raw record corresponds to a replayed `LogEntry`.
pub open spec fn entry_matches(e: LogEntry, raw: (Seq<u8>, Seq<u8>)) -> bool {
    &&& e.hash@ == raw.0
    &&& e.hash.wf()
    &&& valid_utf8(raw.1)
    &&& e.name@ == decode_utf8(raw.1)
}

/// A log that ends mid-record — too short even for an empty filename —
/// does not parse.
proof fn lemma_short_suffix_malformed(s: Seq<u8>)
    requires
        1 <= s.len() <= 65,
    ensures
        spec_parse_log(s) is None,
{
    if s.len() == 65 {
        lemma_spec_find(s.skip(65), TERMINATOR);
    }
}

/// Unfolding of the parse at a well-formed head record.
proof fn lemma_parse_step(s: Seq<u8>, j: int)
    requires
        s.len() >= 66,
        is_hex_encoding(s.take(64)),
        s[64] == SEPARATOR,
        j == spec_find(s.skip(65), TERMINATOR),
        0 <= j < s.len() - 65,
    ensures
        spec_parse_log(s) == match spec_parse_log(s.skip(66 + j)) {
            Some(rest) => Some(seq![(hex_value_of(s.take(64)), s.subrange(65, 65 + j))] + rest),
            None => None::<Seq<(Seq<u8>, Seq<u8>)>>,
        },
{
}

/// Encode one record for appending to the durable log.
pub fn encode_entry(hash: &ContentHash, name: &String) -> (r: Vec<u8>)
    ensures
        r@ == spec_encode_entry(hash@, name@),
{
    let mut out = hash.to_hex();
    out.push(SEPARATOR);
    let name_bytes = name.as_str().as_bytes_vec();
    crate::text::append_bytes(&mut out, name_bytes.as_slice());
    out.push(TERMINATOR);
    proof {
        assert(out@ =~= spec_encode_entry(hash@, name@));
    }
    out
}

/// Parse the whole durable log, as read from disk, into its records. Fails
/// with `IndexCorruption` — and the service must then refuse to start — if
/// any record is malformed or any recorded filename is not valid UTF-8.
#[verifier::loop_isolation(false)]
#[verifier::rlimit(60)]
pub fn parse_log(bytes: &Vec<u8>) -> (r: Result<Vec<LogEntry>, Error>)
    ensures
        match r {
            Ok(entries) => {
                &&& spec_parse_log(bytes@) matches Some(es)
                &&& entries@.len() == es.len()
                &&& forall|i: int|
                    0 <= i < es.len() ==> entry_matches(#[trigger] entries@[i], es[i])
                &&& spec_parse_ok(bytes@)
            },
            Err(e) => e == Error::IndexCorruption && !spec_parse_ok(bytes@),
        },
{
    let n = bytes.len();
    let mut entries: Vec<LogEntry> = Vec::new();
    let ghost mut acc: Seq<(Seq<u8>, Seq<u8>)> = Seq::empty();
    let mut pos: usize = 0;
    proof {
        assert(bytes@.skip(0) =~= bytes@);
    }
    while pos < n
        invariant
            n == bytes@.len(),
            pos <= bytes@.len(),
            entries@.len() == acc.len(),
            forall|i: int| 0 <= i < acc.len() ==> entry_matches(#[trigger] entries@[i], acc[i]),
            spec_parse_log(bytes@) == match spec_parse_log(bytes@.skip(pos as int)) {
                Some(rest) => Some(acc + rest),
                None => None::<Seq<(Seq<u8>, Seq<u8>)>>,
            },
        decreases bytes@.len() - pos,
    {
        let ghost suffix = bytes@.skip(pos as int);
        // A record needs at least 64 hex digits, the separator and the
        // terminator.
        if n - pos < 66 {
            proof {
                lemma_short_suffix_malformed(suffix);
                assert(!spec_parse_ok(bytes@));
            }
            return Err(Error::IndexCorruption);
        }
        // The 64 hex digits of the hash.
        let mut k: usize = 0;
        while k < 64
            invariant
                k <= 64,
                n == bytes@.len(),
                pos + 66 <= n,
                suffix == bytes@.skip(pos as int),
                forall|j: int| 0 <= j < k ==> is_hex_digit(#[trigger] bytes@[pos + j]),
            decreases 64 - k,
        {
            let b = bytes[pos + k];
            if !((0x30 <= b && b <= 0x39) || (0x61 <= b && b <= 0x66) || (0x41 <= b && b <= 0x46)) {
                proof {
                    assert(suffix.take(64)[k as int] == bytes@[pos + k]);
                    assert(!is_hex_encoding(suffix.take(64)));
                    assert(spec_parse_log(suffix) is None);
                    assert(!spec_parse_ok(bytes@));
                }
                return Err(Error::IndexCorruption);
            }
            k += 1;
        }
        proof {
            assert forall|j: int| 0 <= j < 64 implies is_hex_digit(#[trigger] suffix.take(64)[j]) by {
                assert(suffix.take(64)[j] == bytes@[pos + j]);
            }
            assert(is_hex_encoding(suffix.take(64)));
        }
        // The separator.
        if bytes[pos + 64] != SEPARATOR {
            proof {
                assert(suffix[64] == bytes@[pos + 64]);
                assert(spec_parse_log(suffix) is None);
                assert(!spec_parse_ok(bytes@));
            }
            return Err(Error::IndexCorruption);
        }
        // The terminator, scanned for from the start of the filename.
        let mut nl: usize = pos + 65;
        while nl < n && bytes[nl] != TERMINATOR
            invariant
                n == bytes@.len(),
                pos + 65 <= nl <= bytes@.len(),
                forall|j: int| pos + 65 <= j < nl ==> bytes@[j] != TERMINATOR,
            decreases bytes@.len() - nl,
        {
            nl += 1;
        }
        proof {
            assert(suffix[64] == bytes@[pos + 64]);
            assert forall|j: int| 0 <= j < nl - pos - 65 implies suffix.skip(65)[j] != TERMINATOR by {
                assert(suffix.skip(65)[j] == bytes@[pos + 65 + j]);
            }
        }
        if nl == n {
            // No terminator: the final record is cut short.
            proof {
                lemma_spec_find_absent(suffix.skip(65), TERMINATOR);
                assert(spec_parse_log(suffix) is None);
                assert(!spec_parse_ok(bytes@));
            }
            return Err(Error::IndexCorruption);
        }
        let ghost j = nl - pos - 65;
        proof {
            assert(suffix.skip(65)[j] == bytes@[nl as int]);
            lemma_spec_find_unique(suffix.skip(65), TERMINATOR, j);
        }
        let hash_hex = copy_range(bytes, pos, pos + 64);
        proof {
            assert(hash_hex@ =~= suffix.take(64));
        }
        let hash = match ContentHash::from_hex(&hash_hex) {
            Some(h) => h,
            None => {
                proof {
                    assert(false);
                }
                return Err(Error::IndexCorruption);
            },
        };
        let name_bytes = copy_range(bytes, pos + 65, nl);
        let ghost raw_name = name_bytes@;
        proof {
            assert(raw_name =~= suffix.subrange(65, 65 + j));
        }
        let ghost head = (hex_value_of(suffix.take(64)), raw_name);
        let name = match string_from_utf8(name_bytes) {
            Some(n) => n,
            None => {
                // The recorded filename is not text: replay cannot
                // reconstruct the name, so the record counts as corrupt.
                proof {
                    lemma_parse_step(suffix, j);
                    if spec_parse_log(bytes@) is Some {
                        let es = spec_parse_log(bytes@)->Some_0;
                        let rest = spec_parse_log(suffix.skip(66 + j))->Some_0;
                        assert(es == acc + (seq![head] + rest));
                        assert(es[acc.len() as int] == head);
                        assert(!valid_utf8(es[acc.len() as int].1));
                        assert(!spec_parse_ok(bytes@));
                    } else {
                        assert(!spec_parse_ok(bytes@));
                    }
                }
                return Err(Error::IndexCorruption);
            },
        };
        proof {
            lemma_parse_step(suffix, j);
            assert(suffix.skip(66 + j) =~= bytes@.skip(nl + 1));
        }
        entries.push(LogEntry { hash, name });
        proof {
            acc = acc.push(head);
            match spec_parse_log(bytes@.skip(nl + 1)) {
                Some(rest) => {
                    assert(acc.drop_last() + (seq![head] + rest) =~= acc + rest);
                },
                None => {},
            }
        }
        pos = nl + 1;
    }
    proof {
        assert(bytes@.skip(bytes@.len() as int) =~= Seq::<u8>::empty());
        assert(spec_parse_log(Seq::<u8>::empty()) == Some(Seq::<(Seq<u8>, Seq<u8>)>::empty()));
        assert(acc + Seq::<(Seq<u8>, Seq<u8>)>::empty() =~= acc);
        assert(spec_parse_log(bytes@) == Some(acc));
        assert forall|i: int| 0 <= i < acc.len() implies valid_utf8((#[trigger] acc[i]).1) by {
            assert(entry_matches(entries@[i], acc[i]));
        }
    }
    Ok(entries)
}

/// A whole log encoded from entries, one record after another.
pub open spec fn spec_encode_log(es: Seq<(Seq<u8>, Seq<char>)>) -> Seq<u8>
    decreases es.len(),
{
    if es.len() == 0 {
        Seq::empty()
    } else {
        spec_encode_entry(es[0].0, es[0].1) + spec_encode_log(es.skip(1))
    }
}

/// A filename whose encoding never contains the record terminator; every
/// generated name is one.
pub open spec fn name_encodable(name: Seq<char>) -> bool {
    forall|k: int| 0 <= k < encode_utf8(name).len() ==> encode_utf8(name)[k] != TERMINATOR
}

/// Names of ASCII letters and digits — every name the generator produces —
/// are encodable.
pub proof fn lemma_assigned_name_encodable(name: Seq<char>)
    requires
        forall|i: int|
            0 <= i < name.len() ==> crate::naming::is_alphanumeric_char(#[trigger] name[i]),
    ensures
        name_encodable(name),
        encode_utf8(name).len() == name.len(),
{
    assert(vstd::utf8::is_ascii_chars(name));
    vstd::utf8::is_ascii_chars_encode_utf8(name);
    assert forall|k: int| 0 <= k < encode_utf8(name).len() implies encode_utf8(name)[k]
        != TERMINATOR by {
        assert(name[k] as u8 == encode_utf8(name)[k]);
    }
}

/// Log replay round trip: a log encoded from entries with full-length
/// hashes and encodable names parses back to exactly those records, none
/// dropped, reordered or altered.
pub proof fn lemma_log_round_trip(es: Seq<(Seq<u8>, Seq<char>)>)
    requires
        forall|i: int| 0 <= i < es.len() ==> (#[trigger] es[i]).0.len() == HASH_LEN,
        forall|i: int| 0 <= i < es.len() ==> name_encodable((#[trigger] es[i]).1),
    ensures
        spec_parse_log(spec_encode_log(es)) matches Some(ps) && ps.len() == es.len() && forall|
            i: int,
        |
            0 <= i < es.len() ==> (#[trigger] ps[i]).0 == es[i].0 && ps[i].1 == encode_utf8(
                es[i].1,
            ),
    decreases es.len(),
{
    let s = spec_encode_log(es);
    if es.len() == 0 {
        assert(spec_parse_log(s) == Some(Seq::<(Seq<u8>, Seq<u8>)>::empty()));
    } else {
        let h = es[0].0;
        let nb = encode_utf8(es[0].1);
        let head = spec_encode_entry(h, es[0].1);
        let rest = spec_encode_log(es.skip(1));
        assert(s == head + rest);
        crate::hex::lemma_hex_of_len(h);
        crate::hex::lemma_hex_round_trip(h);
        assert(head.len() == 66 + nb.len());
        assert(s.len() == 66 + nb.len() + rest.len());
        assert(s.take(64) =~= hex_of(h));
        assert(s[64] == SEPARATOR);
        let tail = s.skip(65);
        assert(tail =~= nb + seq![TERMINATOR] + rest);
        assert forall|k: int| 0 <= k < nb.len() implies tail[k] != TERMINATOR by {
            assert(tail[k] == nb[k]);
            assert(nb[k] != TERMINATOR);
        }
        assert(tail[nb.len() as int] == TERMINATOR);
        lemma_spec_find_unique(tail, TERMINATOR, nb.len() as int);
        let j = nb.len() as int;
        assert(s.subrange(65, 65 + j) =~= nb);
        assert(s.skip(66 + j) =~= rest);
        assert forall|i: int| 0 <= i < es.skip(1).len() implies (#[trigger] es.skip(1)[i]).0.len()
            == HASH_LEN && name_encodable(es.skip(1)[i].1) by {
            assert(es.skip(1)[i] == es[i + 1]);
        }
        lemma_log_round_trip(es.skip(1));
        let ps_rest = spec_parse_log(rest)->Some_0;
        assert(is_hex_encoding(s.take(64)));
        assert(hex_value_of(s.take(64)) == h);
        assert(spec_parse_log(s) == Some(seq![(h, nb)] + ps_rest));
        let ps = spec_parse_log(s)->Some_0;
        assert forall|i: int| 0 <= i < es.len() implies (#[trigger] ps[i]).0 == es[i].0 && ps[i].1
            == encode_utf8(es[i].1) by {
            if i == 0 {
                assert(ps[0] == (h, nb));
            } else {
                assert(ps[i] == ps_rest[i - 1]);
                assert(es.skip(1)[i - 1] == es[i]);
            }
        }
    }
}

} // verus!
