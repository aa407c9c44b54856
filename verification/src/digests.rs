//! Content addressing: SHA-1 and SHA-256 digests, lowercase hex, and
//! standard base64.
//!
//! The digest and base64 computations are done by outside crates behind
//! trusted items; their results are named by uninterpreted spec functions,
//! since no short formula states them. Hex encoding is defined and verified
//! here.
use vstd::prelude::*;

use crate::text::DIGIT_0;
use sha1::Digest;

verus! {

/// The SHA-1 digest (20 bytes) of a byte string.
pub uninterp spec fn sha1_of(data: Seq<u8>) -> Seq<u8>;

/// The SHA-256 digest (32 bytes) of a byte string.
pub uninterp spec fn sha256_of(data: Seq<u8>) -> Seq<u8>;

/// The standard base64 encoding (with padding) of a byte string.
pub uninterp spec fn b64_of(data: Seq<u8>) -> Seq<u8>;

/// Relies on sha1::Sha1 (the Digest interface): the digest is a function of
/// the input bytes alone and is always 20 bytes long.
#[verifier::external_body]
pub fn sha1_bytes(data: &[u8]) -> (r: Vec<u8>)
    ensures
        r@ == sha1_of(data@),
        r@.len() == 20,
{
    sha1::Sha1::digest(data).to_vec()
}

/// Relies on sha2::Sha256 (the Digest interface): the digest is a function of
/// the input bytes alone and is always 32 bytes long.
#[verifier::external_body]
pub fn sha256_bytes(data: &[u8]) -> (r: Vec<u8>)
    ensures
        r@ == sha256_of(data@),
        r@.len() == 32,
{
    sha2::Sha256::digest(data).to_vec()
}

/// Relies on base64's general_purpose::STANDARD engine: encoding is a
/// function of the input bytes alone; an empty input encodes to nothing.
#[verifier::external_body]
pub fn b64_encode(data: &[u8]) -> (r: Vec<u8>)
    ensures
        r@ == b64_of(data@),
        data@.len() == 0 ==> r@.len() == 0,
{
    base64::Engine::encode(&base64::engine::general_purpose::STANDARD, data).into_bytes()
}

/// Relies on base64's general_purpose::STANDARD engine: decoding inverts
/// encoding, so an input that is the encoding of some byte string decodes
/// successfully to exactly that byte string.
#[verifier::external_body]
pub fn b64_decode(data: &[u8]) -> (r: Result<Vec<u8>, ()>)
    ensures
        forall|orig: Seq<u8>| data@ == #[trigger] b64_of(orig) ==> r is Ok && r->Ok_0@ == orig,
{
    match base64::Engine::decode(&base64::engine::general_purpose::STANDARD, data) {
        Ok(v) => Ok(v),
        Err(_) => Err(()),
    }
}

/// The lowercase hex digit for a value below sixteen.
pub open spec fn spec_hex_digit(v: u8) -> u8 {
    if v < 10 {
        (DIGIT_0 + v) as u8
    } else {
        (87 + v) as u8  // 'a' is 97
    }
}

/// Lowercase hex of a byte string: two digits per byte, high nibble first.
pub open spec fn spec_hex(data: Seq<u8>) -> Seq<u8>
    decreases data.len(),
{
    if data.len() == 0 {
        Seq::empty()
    } else {
        spec_hex(data.take(data.len() - 1)) + seq![
            spec_hex_digit(data[data.len() - 1] / 16),
            spec_hex_digit(data[data.len() - 1] % 16),
        ]
    }
}

fn hex_digit(v: u8) -> (r: u8)
    requires
        v < 16,
    ensures
        r == spec_hex_digit(v),
{
    if v < 10 {
        DIGIT_0 + v
    } else {
        87 + v
    }
}

/// Encode bytes as lowercase hex.
pub fn to_hex(data: &[u8]) -> (r: Vec<u8>)
    ensures
        r@ == spec_hex(data@),
        r@.len() == 2 * data@.len(),
{
    proof {
        lemma_hex_len(data@);
    }
    let mut out: Vec<u8> = Vec::new();
    let mut i: usize = 0;
    while i < data.len()
        invariant
            i <= data@.len(),
            out@ == spec_hex(data@.take(i as int)),
            out@.len() == 2 * i,
        decreases data@.len() - i,
    {
        let b = data[i];
        out.push(hex_digit(b / 16));
        out.push(hex_digit(b % 16));
        proof {
            let t = data@.take(i + 1);
            assert(t.take(t.len() - 1) =~= data@.take(i as int));
            assert(t[t.len() - 1] == data@[i as int]);
            assert(out@ =~= spec_hex(t));
            lemma_hex_len(t);
        }
        i = i + 1;
    }
    proof {
        assert(data@.take(data@.len() as int) =~= data@);
    }
    out
}

proof fn lemma_hex_len(data: Seq<u8>)
    ensures
        spec_hex(data).len() == 2 * data.len(),
    decreases data.len(),
{
    if data.len() > 0 {
        lemma_hex_len(data.take(data.len() - 1));
    }
}

/// SHA-1 of the bytes, as lowercase hex.
pub fn sha1_hex(bytes: &[u8]) -> (r: Vec<u8>)
    ensures
        r@ == spec_hex(sha1_of(bytes@)),
        r@.len() == 40,
{
    let d = sha1_bytes(bytes);
    to_hex(d.as_slice())
}

/// SHA-256 of the bytes, as lowercase hex.
pub fn hex256(bytes: &[u8]) -> (r: Vec<u8>)
    ensures
        r@ == spec_hex(sha256_of(bytes@)),
        r@.len() == 64,
{
    let d = sha256_bytes(bytes);
    to_hex(d.as_slice())
}

} // verus!
