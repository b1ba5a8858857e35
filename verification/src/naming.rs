//! The filename generator: short random alphanumeric identifiers under which
//! uploaded bytes are stored and publicly addressed.

use vstd::prelude::*;
use vstd::utf8::{decode_first_codepoint, decode_first_scalar, decode_utf8, is_leading_byte_width_1,
    length_of_first_scalar, pop_first_scalar, valid_first_scalar, valid_utf8};

verus! {

/// The fixed length of an assigned name.
pub const FILENAME_LENGTH: usize = 6;

/// Whether a byte is an ASCII letter or digit.
pub open spec fn is_alphanumeric_byte(b: u8) -> bool {
    (0x30 <= b <= 0x39) || (0x41 <= b <= 0x5a) || (0x61 <= b <= 0x7a)
}

/// Whether a character is an ASCII letter or digit.
pub open spec fn is_alphanumeric_char(c: char) -> bool {
    ('0' <= c <= '9') || ('A' <= c <= 'Z') || ('a' <= c <= 'z')
}

/// Whether a character sequence is a well-formed assigned name: exactly
/// `FILENAME_LENGTH` ASCII letters and digits.
pub open spec fn is_assigned_name(s: Seq<char>) -> bool {
    s.len() == FILENAME_LENGTH && forall|i: int|
        0 <= i < s.len() ==> is_alphanumeric_char(#[trigger] s[i])
}

/// Relies on rand's `Alphanumeric` distribution sampled from `thread_rng`:
/// every draw is one of the 62 ASCII letters and digits. Nothing else is
/// assumed of the draw; two calls may differ.
#[verifier::external_body]
fn random_alphanumeric_byte() -> (r: u8)
    ensures
        is_alphanumeric_byte(r),
{
    rand::Rng::sample(&mut rand::thread_rng(), rand::distributions::Alphanumeric)
}

/// Produce a fresh candidate name: `FILENAME_LENGTH` characters drawn
/// uniformly from the alphanumeric alphabet. The caller is responsible for
/// collision checks; nothing here guarantees uniqueness.
pub fn generate_filename() -> (r: String)
    ensures
        is_assigned_name(r@),
{
    let mut bytes: Vec<u8> = Vec::new();
    let mut i: usize = 0;
    while i < FILENAME_LENGTH
        invariant
            i <= FILENAME_LENGTH,
            bytes@.len() == i,
            forall|j: int| 0 <= j < i ==> is_alphanumeric_byte(#[trigger] bytes@[j]),
        decreases FILENAME_LENGTH - i,
    {
        bytes.push(random_alphanumeric_byte());
        i += 1;
    }
    let ghost drawn = bytes@;
    proof {
        lemma_ascii_bytes_decode(drawn);
    }
    match crate::text::string_from_utf8(bytes) {
        Some(name) => name,
        None => {
            // Unreachable: ASCII bytes are always valid UTF-8.
            proof {
                assert(false);
            }
            String::new()
        },
    }
}

/// ASCII letter-and-digit bytes are valid UTF-8 and decode one byte per
/// character, each character alphanumeric.
pub proof fn lemma_ascii_bytes_decode(bytes: Seq<u8>)
    requires
        forall|j: int| 0 <= j < bytes.len() ==> is_alphanumeric_byte(#[trigger] bytes[j]),
    ensures
        valid_utf8(bytes),
        decode_utf8(bytes).len() == bytes.len(),
        forall|j: int|
            0 <= j < bytes.len() ==> is_alphanumeric_char(
                #[trigger] decode_utf8(bytes)[j],
            ),
    decreases bytes.len(),
{
    if bytes.len() == 0 {
    } else {
        let b = bytes[0];
        assert(is_alphanumeric_byte(b));
        assert(is_leading_byte_width_1(b));
        assert(b & 0x7f == b) by (bit_vector)
            requires
                b <= 0x7f,
        ;
        assert(decode_first_codepoint(bytes) == b as u32);
        assert(valid_first_scalar(bytes));
        assert(length_of_first_scalar(bytes) == 1);
        assert(pop_first_scalar(bytes) =~= bytes.skip(1));
        assert forall|j: int| 0 <= j < bytes.skip(1).len() implies is_alphanumeric_byte(
            #[trigger] bytes.skip(1)[j],
        ) by {
            assert(bytes.skip(1)[j] == bytes[j + 1]);
        }
        lemma_ascii_bytes_decode(bytes.skip(1));
        assert(valid_utf8(bytes));
        let c = decode_first_scalar(bytes) as char;
        assert(c == b as char);
        assert(is_alphanumeric_char(c));
        assert(decode_utf8(bytes) =~= seq![c] + decode_utf8(bytes.skip(1)));
        assert forall|j: int| 0 <= j < bytes.len() implies is_alphanumeric_char(
            #[trigger] decode_utf8(bytes)[j],
        ) by {
            if j > 0 {
                assert(decode_utf8(bytes)[j] == decode_utf8(bytes.skip(1))[j - 1]);
            }
        }
    }
}

} // verus!
