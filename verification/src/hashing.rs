//! The hashing scheme that names stored objects: a content digest, encoded
//! with the URL-safe base64 alphabet and truncated to a configured number of
//! characters.  Lengths up to 32 use the 256-bit digest, longer ones the
//! 512-bit digest; local and remote hashing must agree on this threshold or
//! verification fails spuriously.

use vstd::prelude::*;
use vstd::string::StrSliceExecFns;
use vstd::string::StringExecFns;
use sha2::Digest;
use crate::errors::StoreError;

verus! {

/// The 256-bit digest of a byte sequence, as the outside hasher computes it.
pub uninterp spec fn sha256_of(content: Seq<u8>) -> Seq<u8>;

/// The 512-bit digest of a byte sequence, as the outside hasher computes it.
pub uninterp spec fn sha512_of(content: Seq<u8>) -> Seq<u8>;

/// The URL-safe base64 encoding (with padding) of a byte sequence.
pub uninterp spec fn b64_urlsafe_of(bytes: Seq<u8>) -> Seq<char>;

/// Relies on sha2's Sha256: a digest of exactly 32 bytes that depends on
/// the input bytes alone.
#[verifier::external_body]
fn sha256_digest(content: &[u8]) -> (r: Vec<u8>)
    ensures
        r@ == sha256_of(content@),
        r@.len() == 32,
{
    sha2::Sha256::digest(content).to_vec()
}

/// Relies on sha2's Sha512: a digest of exactly 64 bytes that depends on
/// the input bytes alone.
#[verifier::external_body]
fn sha512_digest(content: &[u8]) -> (r: Vec<u8>)
    ensures
        r@ == sha512_of(content@),
        r@.len() == 64,
{
    sha2::Sha512::digest(content).to_vec()
}

/// Relies on base64's encode_config with the URL_SAFE alphabet: four output
/// characters for every three input bytes, padded.
#[verifier::external_body]
pub(crate) fn b64_urlsafe(bytes: &[u8]) -> (r: String)
    requires
        bytes@.len() < 1000000,
    ensures
        r@ == b64_urlsafe_of(bytes@),
        r@.len() == 4 * ((bytes@.len() + 2) / 3),
{
    base64::encode_config(bytes, base64::URL_SAFE)
}


/// Whether a character is a hexadecimal digit.
pub open spec fn is_hex_digit(c: char) -> bool {
    ('0' <= c && c <= '9') || ('a' <= c && c <= 'f') || ('A' <= c && c <= 'F')
}

/// The value of one hexadecimal digit.
pub open spec fn hex_val(c: char) -> int {
    if '0' <= c && c <= '9' {
        c as int - 48
    } else if 'a' <= c && c <= 'f' {
        c as int - 87
    } else {
        c as int - 55
    }
}

/// Whether a string is a well-formed hex encoding: an even number of hex
/// digits.
pub open spec fn hex_decodable(s: Seq<char>) -> bool {
    s.len() % 2 == 0 && forall|i: int| 0 <= i < s.len() ==> is_hex_digit(#[trigger] s[i])
}

/// The bytes a hex string encodes, two digits each.
pub open spec fn hex_bytes(s: Seq<char>) -> Seq<u8> {
    Seq::new((s.len() / 2) as nat, |i: int| (hex_val(s[2 * i]) * 16 + hex_val(s[2 * i + 1])) as u8)
}

/// Relies on hex's decode: succeeds exactly on an even number of hex
/// digits (either case), two digits to a byte.
#[verifier::external_body]
pub(crate) fn hex_decode(s: &str) -> (r: Option<Vec<u8>>)
    ensures
        r is Some <==> hex_decodable(s@),
        r is Some ==> r->0@ == hex_bytes(s@),
{
    hex::decode(s).ok()
}

/// Whether a requested truncation length is accepted: 1 to 64 characters.
pub open spec fn hash_len_valid(length: u8) -> bool {
    1 <= length <= 64
}

/// Whether a truncation length selects the 512-bit digest.
pub open spec fn uses_wide_digest(length: u8) -> bool {
    length > 32
}

/// The full encoded digest of a content, under the algorithm the requested
/// length selects.
pub open spec fn full_encoded_digest(content: Seq<u8>, length: u8) -> Seq<char> {
    if uses_wide_digest(length) {
        b64_urlsafe_of(sha512_of(content))
    } else {
        b64_urlsafe_of(sha256_of(content))
    }
}

/// The hash token that names a content at the requested length: the encoded
/// digest, truncated (not re-encoded) to `length` characters.
pub open spec fn hash_token_of(content: Seq<u8>, length: u8) -> Seq<char> {
    full_encoded_digest(content, length).take(length as int)
}

/// Hash a local content at the chosen truncation length.
///
/// Accepts exactly the lengths 1 to 64; zero and anything above 64 fail
/// with `InvalidHashLength`.  Lengths up to 32 hash with the 256-bit
/// algorithm, longer ones with the 512-bit algorithm.
pub fn get_hash(content: &Vec<u8>, length: u8) -> (r: Result<String, StoreError>)
    ensures
        r is Ok <==> hash_len_valid(length),
        r is Ok ==> r->Ok_0@ == hash_token_of(content@, length),
        r is Ok ==> r->Ok_0@.len() == length as int,
        r is Err ==> (r->Err_0 matches StoreError::InvalidHashLength { length: l } && l == length),
{
    if length == 0 || length > 64 {
        return Err(StoreError::InvalidHashLength { length });
    }
    let digest: Vec<u8> = if length <= 32 {
        sha256_digest(content.as_slice())
    } else {
        sha512_digest(content.as_slice())
    };
    let encoded = b64_urlsafe(digest.as_slice());
    let token = encoded.as_str().substring_char(0, length as usize);
    Ok(String::from_str(token))
}

/// The first `n` characters of a string, or all of it if it is shorter.
pub fn prefix_chars(s: &str, n: usize) -> (r: String)
    ensures
        r@ == s@.take(if n <= s@.len() {
            n as int
        } else {
            s@.len() as int
        }),
{
    let len = s.unicode_len();
    let stop = if n <= len {
        n
    } else {
        len
    };
    let piece = s.substring_char(0, stop);
    proof {
        assert(piece@ =~= s@.take(stop as int));
    }
    String::from_str(piece)
}

/// Hashing the same content at the same length always yields the same
/// token: the token is a function of content and length alone.
pub proof fn lemma_hash_deterministic(c1: Seq<u8>, c2: Seq<u8>, length: u8)
    requires
        c1 == c2,
    ensures
        hash_token_of(c1, length) == hash_token_of(c2, length),
{
}

/// Tokens of length 8 and of length 40 come from different digest
/// algorithms, yet each is a plain truncation of its own full encoded
/// digest.
pub proof fn lemma_threshold_selects_algorithm(content: Seq<u8>)
    ensures
        !uses_wide_digest(8),
        uses_wide_digest(40),
        hash_token_of(content, 8) == b64_urlsafe_of(sha256_of(content)).take(8),
        hash_token_of(content, 40) == b64_urlsafe_of(sha512_of(content)).take(40),
{
}

} // verus!
