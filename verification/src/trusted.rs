//! The library's trusted boundary: declarations of outside functions whose
//! contracts Verus believes without proof.  Each item names the outside
//! function it relies on and states no more than that function's source or
//! documentation shows.

use base64::Engine;
use sha2::Digest;
use vstd::prelude::*;

verus! {

/// What `str::to_lowercase` returns: a function of the characters alone.
pub uninterp spec fn lower_of(s: Seq<char>) -> Seq<char>;

/// Relies on `str::to_lowercase` from std: the result depends only on the
/// input characters, and an empty input yields an empty result.
#[verifier::external_body]
pub fn lowercase_str(s: &str) -> (r: String)
    ensures
        r@ == lower_of(s@),
        s@.len() == 0 ==> r@.len() == 0,
{
    s.to_lowercase()
}

/// What `str::to_uppercase` returns: a function of the characters alone.
pub uninterp spec fn upper_of(s: Seq<char>) -> Seq<char>;

/// Relies on `str::to_uppercase` from std: the result depends only on the
/// input characters, and an empty input yields an empty result.
#[verifier::external_body]
pub fn uppercase_str(s: &str) -> (r: String)
    ensures
        r@ == upper_of(s@),
        s@.len() == 0 ==> r@.len() == 0,
{
    s.to_uppercase()
}

/// What `urlencoding::encode` returns: a function of the characters alone.
pub uninterp spec fn urlenc_of(s: Seq<char>) -> Seq<char>;

/// Relies on `urlencoding::encode`: percent-encodes every byte except
/// ASCII alphanumerics and `-`, `_`, `.`, `~`; the result is a function of
/// the input alone, and an empty input yields an empty result.
#[verifier::external_body]
pub fn urlencode_str(s: &str) -> (r: String)
    ensures
        r@ == urlenc_of(s@),
        s@.len() == 0 ==> r@.len() == 0,
{
    urlencoding::encode(s).into_owned()
}

/// What the standard padded base64 alphabet encodes a byte string to.
pub uninterp spec fn b64_std_of(b: Seq<u8>) -> Seq<char>;

/// Relies on `base64::engine::general_purpose::STANDARD`'s `encode`: the
/// padded standard-alphabet encoding, four output characters for every
/// three input bytes, rounded up.
#[verifier::external_body]
pub fn b64_standard(b: &[u8]) -> (r: String)
    ensures
        r@ == b64_std_of(b@),
        r@.len() == 4 * ((b@.len() + 2) / 3),
{
    base64::engine::general_purpose::STANDARD.encode(b)
}

/// What the unpadded URL-safe base64 alphabet encodes a byte string to.
pub uninterp spec fn b64_url_of(b: Seq<u8>) -> Seq<char>;

/// Relies on `base64::engine::general_purpose::URL_SAFE_NO_PAD`'s `encode`:
/// the unpadded URL-safe encoding, whose length is the input length times
/// four thirds, rounded up.
#[verifier::external_body]
pub fn b64_url_nopad(b: &[u8]) -> (r: String)
    ensures
        r@ == b64_url_of(b@),
        r@.len() == (4 * b@.len() + 2) / 3,
{
    base64::engine::general_purpose::URL_SAFE_NO_PAD.encode(b)
}

/// What the SHA-256 digest of a byte string is.
pub uninterp spec fn sha256_of(b: Seq<u8>) -> Seq<u8>;

/// Relies on `sha2::Sha256` through the `Digest` trait: a 32-byte digest
/// that is a function of the input alone.
#[verifier::external_body]
pub fn sha256_digest(b: &[u8]) -> (r: Vec<u8>)
    ensures
        r@ == sha256_of(b@),
        r@.len() == 32,
{
    sha2::Sha256::digest(b).to_vec()
}

/// Relies on `rand::random`: a value drawn from the thread-local generator.
/// Nothing can be promised of the result.
pub assume_specification<T>[ rand::random::<T> ]() -> (r: T)
    where
        rand::distributions::Standard: rand::distributions::Distribution<T>,
;

/// Whether `serde_json` accepts a text as a JSON document: a function of
/// the text alone.
pub uninterp spec fn json_wf(s: Seq<char>) -> bool;

#[verifier::external_type_specification]
#[verifier::external_body]
pub struct ExValue(serde_json::Value);

/// Relies on `serde_json::from_str::<Value>`: parsing is deterministic, so
/// it succeeds exactly on the texts `serde_json` accepts.
#[verifier::external_body]
pub fn parse_json_value(s: &str) -> (r: Option<serde_json::Value>)
    ensures
        r is Some <==> json_wf(s@),
{
    serde_json::from_str::<serde_json::Value>(s).ok()
}

/// Relies on `serde_json::to_string_pretty`: pretty-prints a JSON value.
/// Nothing is stated of the text; callers treat it as opaque.
#[verifier::external_body]
pub fn pretty_print_json(v: &serde_json::Value) -> (r: Option<String>) {
    serde_json::to_string_pretty(v).ok()
}

/// What `url::Url::parse` normalizes a URL string to, when it accepts it:
/// a function of the input alone.
pub uninterp spec fn url_normalized(s: Seq<char>) -> Option<Seq<char>>;

/// Relies on `url::Url::parse` and `url::Url::as_str`: parsing is
/// deterministic, and a parsed URL serializes back to its normalized form.
#[verifier::external_body]
pub fn normalize_url(s: &str) -> (r: Option<String>)
    ensures
        r is Some <==> url_normalized(s@) is Some,
        r matches Some(u) ==> url_normalized(s@) == Some(u@),
{
    match url::Url::parse(s) {
        Ok(u) => Some(u.as_str().to_string()),
        Err(_) => None,
    }
}

} // verus!
