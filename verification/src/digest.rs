//! SHA-1 digests of canonical encodings, and their hexadecimal rendering.

use vstd::prelude::*;
use crypto::digest::Digest;

verus! {

/// The 20-byte SHA-1 digest of a byte sequence. SHA-1 is a pure function of
/// its input, so the digest is named rather than spelled out; what the crate
/// knows of it is stated by [`hash_data`].
pub uninterp spec fn sha1_of(data: Seq<u8>) -> Seq<u8>;

/// Relies on `crypto::sha1::Sha1` (`input`, then `result` into a 20-byte
/// buffer): the returned digest is the SHA-1 of the input, a function of the
/// input bytes alone, and is always exactly 20 bytes long.
#[verifier::external_body]
pub fn hash_data(data: &[u8]) -> (r: Vec<u8>)
    ensures
        r@ == sha1_of(data@),
        r@.len() == 20,
{
    let mut out: [u8; 20] = [0; 20];
    let mut hasher = crypto::sha1::Sha1::new();
    hasher.input(data);
    hasher.result(&mut out);
    out.to_vec()
}

/// The lowercase hexadecimal character for a value below 16.
pub open spec fn hex_char_of(v: u8) -> char {
    if v < 10 {
        ((48 + v) as u8) as char
    } else {
        ((87 + v) as u8) as char
    }
}

/// The value of a lowercase hexadecimal character.
pub open spec fn hex_val(c: char) -> u8 {
    if (c as u32) < 97 {
        ((c as u32) - 48) as u8
    } else {
        ((c as u32) - 87) as u8
    }
}

/// Lowercase hexadecimal rendering of a byte sequence: two characters per
/// byte, high nibble first.
pub open spec fn hex_of(bytes: Seq<u8>) -> Seq<char>
    decreases bytes.len(),
{
    if bytes.len() == 0 {
        Seq::empty()
    } else {
        seq![hex_char_of(bytes[0] / 16), hex_char_of(bytes[0] % 16)]
            + hex_of(bytes.subrange(1, bytes.len() as int))
    }
}

/// The bytes read back from a hexadecimal rendering, two characters per byte.
pub open spec fn bytes_of_hex(s: Seq<char>) -> Seq<u8>
    decreases s.len(),
{
    if s.len() < 2 {
        Seq::empty()
    } else {
        seq![(16 * hex_val(s[0]) + hex_val(s[1])) as u8] + bytes_of_hex(s.subrange(2, s.len() as int))
    }
}

/// Relies on `hex::encode`: for each input byte, in order, the lowercase
/// hexadecimal digit of its high nibble and then of its low nibble.
#[verifier::external_body]
pub(crate) fn hex_encode(data: &[u8]) -> (r: String)
    ensures
        r@ == hex_of(data@),
{
    hex::encode(data)
}

/// A hexadecimal rendering has two characters per byte.
pub proof fn lemma_hex_of_len(bytes: Seq<u8>)
    ensures
        hex_of(bytes).len() == 2 * bytes.len(),
    decreases bytes.len(),
{
    if bytes.len() > 0 {
        lemma_hex_of_len(bytes.subrange(1, bytes.len() as int));
    }
}

/// Hexadecimal rendering distributes over concatenation.
pub proof fn lemma_hex_of_concat(a: Seq<u8>, b: Seq<u8>)
    ensures
        hex_of(a + b) == hex_of(a) + hex_of(b),
    decreases a.len(),
{
    if a.len() == 0 {
        assert(a + b =~= b);
        assert(hex_of(a) + hex_of(b) =~= hex_of(b));
    } else {
        lemma_hex_of_concat(a.subrange(1, a.len() as int), b);
        assert((a + b).subrange(1, (a + b).len() as int) =~= a.subrange(1, a.len() as int) + b);
        assert(hex_of(a + b) =~= hex_of(a) + hex_of(b));
    }
}

/// Reading a rendering back gives the original bytes: the two characters of
/// each byte carry its high and low nibble.
pub proof fn lemma_hex_round_trip(bytes: Seq<u8>)
    ensures
        bytes_of_hex(hex_of(bytes)) == bytes,
    decreases bytes.len(),
{
    if bytes.len() == 0 {
        assert(bytes_of_hex(hex_of(bytes)) =~= bytes);
    } else {
        let rest = bytes.subrange(1, bytes.len() as int);
        lemma_hex_round_trip(rest);
        lemma_hex_of_len(rest);
        let h = hex_of(bytes);
        assert(h.subrange(2, h.len() as int) =~= hex_of(rest));
        assert(16 * (bytes[0] / 16) + bytes[0] % 16 == bytes[0]) by (nonlinear_arith);
        assert(bytes_of_hex(hex_of(bytes)) =~= bytes);
    }
}

/// Distinct byte sequences have distinct hexadecimal renderings.
pub proof fn lemma_hex_of_injective(a: Seq<u8>, b: Seq<u8>)
    requires
        hex_of(a) == hex_of(b),
    ensures
        a == b,
{
    lemma_hex_round_trip(a);
    lemma_hex_round_trip(b);
}

} // verus!
