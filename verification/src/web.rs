//! Response-building helpers for the HTTP surface.
//!
//! The routes themselves are wiring around the store and cache; what they
//! compute is here: the content type artifacts are served with, and the
//! location hint that points a client at the immutable copy of the latest
//! artifact.

use vstd::prelude::*;
use vstd::string::*;

verus! {

/// The percent-encoding of a string, as produced by `urlencoding::encode`:
/// a function of the characters alone.
pub uninterp spec fn urlencode_of(s: Seq<char>) -> Seq<char>;

/// Relies on `urlencoding::encode`: percent-encodes every byte except
/// alphanumerics and `-`, `_`, `.`, `~`.
#[verifier::external_body]
fn url_encode(s: &str) -> (r: String)
    ensures
        r@ == urlencode_of(s@),
{
    urlencoding::encode(s).into_owned()
}

/// The location hint served with the latest artifact: `/` followed by the
/// percent-encoded content hash.
pub fn artifact_location(hash: &str) -> (r: String)
    ensures
        r@ == "/"@ + urlencode_of(hash@),
{
    let mut r = String::from_str("/");
    let encoded = url_encode(hash);
    r.append(encoded.as_str());
    r
}

/// The content type artifacts are served with.
pub fn artifact_content_type() -> (r: &'static str)
    ensures
        r@ == "text/javascript"@,
{
    "text/javascript"
}

} // verus!
