//! Lowercase hexadecimal encoding and decoding of byte strings, used for the
//! hash field of the durable log's records.

use vstd::prelude::*;

verus! {

/// Whether a byte is an ASCII hex digit (either case).
pub open spec fn is_hex_digit(b: u8) -> bool {
    (0x30 <= b <= 0x39) || (0x61 <= b <= 0x66) || (0x41 <= b <= 0x46)
}

/// Numeric value of an ASCII hex digit.
pub open spec fn hex_digit_value(b: u8) -> u8 {
    if 0x30 <= b <= 0x39 {
        (b - 0x30) as u8
    } else if 0x61 <= b <= 0x66 {
        (b - 0x61 + 10) as u8
    } else {
        (b - 0x41 + 10) as u8
    }
}

/// Lowercase hex digit for a value below 16.
pub open spec fn hex_digit_of(v: u8) -> u8 {
    if v < 10 {
        (0x30 + v) as u8
    } else {
        (0x61 + (v - 10)) as u8
    }
}

/// The two lowercase hex digits of one byte, high nibble first.
pub open spec fn hex_pair_of(b: u8) -> Seq<u8> {
    seq![hex_digit_of(b / 16), hex_digit_of(b % 16)]
}

/// Lowercase hex encoding of a byte string: two digits per byte, in order.
pub open spec fn hex_of(s: Seq<u8>) -> Seq<u8>
    decreases s.len(),
{
    if s.len() == 0 {
        Seq::empty()
    } else {
        hex_pair_of(s[0]) + hex_of(s.skip(1))
    }
}

/// Whether a byte string is a well-formed hex encoding: even length, hex
/// digits throughout.
pub open spec fn is_hex_encoding(s: Seq<u8>) -> bool {
    s.len() % 2 == 0 && forall|i: int| 0 <= i < s.len() ==> is_hex_digit(#[trigger] s[i])
}

/// The bytes a well-formed hex encoding stands for.
pub open spec fn hex_value_of(s: Seq<u8>) -> Seq<u8>
    decreases s.len(),
{
    if s.len() < 2 {
        Seq::empty()
    } else {
        seq![(hex_digit_value(s[0]) * 16 + hex_digit_value(s[1])) as u8] + hex_value_of(s.skip(2))
    }
}

pub proof fn lemma_hex_of_len(s: Seq<u8>)
    ensures
        hex_of(s).len() == 2 * s.len(),
    decreases s.len(),
{
    if s.len() > 0 {
        lemma_hex_of_len(s.skip(1));
    }
}

pub proof fn lemma_hex_value_of_len(s: Seq<u8>)
    ensures
        s.len() % 2 == 0 ==> hex_value_of(s).len() == s.len() / 2,
    decreases s.len(),
{
    if s.len() >= 2 {
        lemma_hex_value_of_len(s.skip(2));
    }
}

/// Appending one byte to the input appends its digit pair to the encoding.
proof fn lemma_hex_of_push(s: Seq<u8>, b: u8)
    ensures
        hex_of(s.push(b)) == hex_of(s) + hex_pair_of(b),
    decreases s.len(),
{
    if s.len() == 0 {
        assert(s.push(b).skip(1) =~= Seq::<u8>::empty());
        assert(s.push(b)[0] == b);
        assert(hex_of(Seq::<u8>::empty()) =~= Seq::<u8>::empty());
        assert(hex_of(s) =~= Seq::<u8>::empty());
        assert(hex_of(s.push(b)) =~= hex_of(s) + hex_pair_of(b));
    } else {
        assert(s.push(b).skip(1) =~= s.skip(1).push(b));
        lemma_hex_of_push(s.skip(1), b);
        assert(hex_of(s.push(b)) =~= hex_of(s) + hex_pair_of(b));
    }
}

/// Decoding distributes over splitting the digits at an even position.
proof fn lemma_hex_value_of_append(a: Seq<u8>, b: Seq<u8>)
    requires
        a.len() % 2 == 0,
    ensures
        hex_value_of(a + b) == hex_value_of(a) + hex_value_of(b),
    decreases a.len(),
{
    if a.len() == 0 {
        assert(a + b =~= b);
        assert(hex_value_of(a) + hex_value_of(b) =~= hex_value_of(b));
    } else {
        assert((a + b).skip(2) =~= a.skip(2) + b);
        lemma_hex_value_of_append(a.skip(2), b);
        assert(hex_value_of(a + b) =~= hex_value_of(a) + hex_value_of(b));
    }
}

/// A digit pair decodes back to the byte it was made from.
proof fn lemma_hex_pair_round_trip(b: u8)
    ensures
        is_hex_digit(hex_pair_of(b)[0]),
        is_hex_digit(hex_pair_of(b)[1]),
        hex_value_of(hex_pair_of(b)) == seq![b],
{
    assert(b / 16 < 16 && b % 16 < 16) by (nonlinear_arith);
    assert(hex_digit_value(hex_digit_of(b / 16)) == b / 16);
    assert(hex_digit_value(hex_digit_of(b % 16)) == b % 16);
    assert((b / 16) * 16 + b % 16 == b) by (nonlinear_arith);
    assert(hex_pair_of(b).skip(2) =~= Seq::<u8>::empty());
    assert(hex_value_of(Seq::<u8>::empty()) =~= Seq::<u8>::empty());
    assert(hex_pair_of(b)[0] == hex_digit_of(b / 16));
    assert(hex_pair_of(b)[1] == hex_digit_of(b % 16));
    assert(hex_value_of(hex_pair_of(b)) =~= seq![b]);
}

/// Encoding then decoding gives back the input bytes.
pub proof fn lemma_hex_round_trip(s: Seq<u8>)
    ensures
        is_hex_encoding(hex_of(s)),
        hex_value_of(hex_of(s)) == s,
    decreases s.len(),
{
    lemma_hex_of_len(s);
    if s.len() == 0 {
    } else {
        lemma_hex_round_trip(s.skip(1));
        lemma_hex_pair_round_trip(s[0]);
        lemma_hex_of_len(s.skip(1));
        lemma_hex_value_of_append(hex_pair_of(s[0]), hex_of(s.skip(1)));
        assert(hex_value_of(hex_of(s)) =~= s);
        assert forall|i: int| 0 <= i < hex_of(s).len() implies is_hex_digit(#[trigger] hex_of(s)[i]) by {
            if i >= 2 {
                assert(hex_of(s)[i] == hex_of(s.skip(1))[i - 2]);
            }
        }
    }
}

/// Exec computation of the lowercase digit for a value below 16.
fn hex_digit(v: u8) -> (r: u8)
    requires
        v < 16,
    ensures
        r == hex_digit_of(v),
{
    if v < 10 {
        0x30 + v
    } else {
        0x61 + (v - 10)
    }
}

/// Encode a byte string as lowercase hex, two digits per byte.
pub fn hex_encode(v: &Vec<u8>) -> (r: Vec<u8>)
    ensures
        r@ == hex_of(v@),
{
    let mut out: Vec<u8> = Vec::new();
    let mut i: usize = 0;
    while i < v.len()
        invariant
            i <= v.len(),
            out@ == hex_of(v@.take(i as int)),
        decreases v.len() - i,
    {
        let b = v[i];
        proof {
            assert(b / 16 < 16 && b % 16 < 16) by (nonlinear_arith);
            lemma_hex_of_push(v@.take(i as int), b);
            assert(v@.take(i as int).push(b) =~= v@.take(i + 1));
        }
        out.push(hex_digit(b / 16));
        out.push(hex_digit(b % 16));
        i += 1;
    }
    proof {
        assert(v@.take(v@.len() as int) =~= v@);
    }
    out
}

/// Exec test for a hex digit.
fn is_hex_digit_byte(b: u8) -> (r: bool)
    ensures
        r == is_hex_digit(b),
{
    (0x30 <= b && b <= 0x39) || (0x61 <= b && b <= 0x66) || (0x41 <= b && b <= 0x46)
}

/// Decode a hex encoding back to bytes; rejects a byte string of odd length
/// or with a non-digit anywhere.
pub fn hex_decode(v: &Vec<u8>) -> (r: Option<Vec<u8>>)
    ensures
        is_hex_encoding(v@) ==> (r matches Some(b) && b@ == hex_value_of(v@)),
        !is_hex_encoding(v@) ==> r is None,
{
    if v.len() % 2 != 0 {
        return None;
    }
    let mut out: Vec<u8> = Vec::new();
    let mut i: usize = 0;
    while i < v.len()
        invariant
            i <= v.len(),
            i % 2 == 0,
            v.len() % 2 == 0,
            forall|j: int| 0 <= j < i ==> is_hex_digit(#[trigger] v@[j]),
            out@ == hex_value_of(v@.take(i as int)),
        decreases v.len() - i,
    {
        let hi = v[i];
        let lo = v[i + 1];
        if !is_hex_digit_byte(hi) || !is_hex_digit_byte(lo) {
            return None;
        }
        let byte = hex_digit_value_exec(hi) * 16 + hex_digit_value_exec(lo);
        proof {
            let pair = seq![hi, lo];
            assert(v@.take(i + 2) =~= v@.take(i as int) + pair);
            lemma_hex_value_of_append(v@.take(i as int), pair);
            assert(pair.skip(2) =~= Seq::<u8>::empty());
            assert(hex_value_of(Seq::<u8>::empty()) =~= Seq::<u8>::empty());
            assert(pair[0] == hi && pair[1] == lo);
            assert(hex_value_of(pair) =~= seq![(hex_digit_value(hi) * 16 + hex_digit_value(lo)) as u8]);
            assert(out@.push(byte) =~= hex_value_of(v@.take(i + 2)));
        }
        out.push(byte);
        i += 2;
    }
    proof {
        assert(v@.take(v@.len() as int) =~= v@);
    }
    Some(out)
}

/// Exec computation of a hex digit's value.
fn hex_digit_value_exec(b: u8) -> (r: u8)
    requires
        is_hex_digit(b),
    ensures
        r == hex_digit_value(b),
        r < 16,
{
    if 0x30 <= b && b <= 0x39 {
        b - 0x30
    } else if 0x61 <= b && b <= 0x66 {
        b - 0x61 + 10
    } else {
        b - 0x41 + 10
    }
}

} // verus!
