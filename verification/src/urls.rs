//! The trusted boundary to the two outside crates the core leans on: URL
//! validation (the `url` crate) and percent-decoding of cookie values (the
//! `urlencoding` crate). Only the calls themselves are trusted; everything
//! around them is verified against the names declared here.

use vstd::prelude::*;

verus! {

/// Whether `url::Url::parse` accepts `s`. The outcome depends on the
/// characters of `s` alone.
pub uninterp spec fn is_parseable_url(s: Seq<char>) -> bool;

/// Relies on `url::Url::parse`: it returns a `Result` for every input
/// without panicking, and whether it succeeds is a function of the input
/// characters alone.
#[verifier::external_body]
pub fn url_parse_ok(s: &str) -> (r: bool)
    ensures
        r == is_parseable_url(s@),
{
    url::Url::parse(s).is_ok()
}

/// The percent-decoding of `v`, or `None` where `v` or its decoding is not
/// valid UTF-8. The outcome depends on the bytes of `v` alone.
pub uninterp spec fn url_decoded(v: Seq<u8>) -> Option<Seq<u8>>;

/// Relies on `urlencoding::decode`: it percent-decodes its input, preserves
/// `+` literally, fails only when the decoded bytes are not valid UTF-8, and
/// its outcome is a function of the input bytes alone.
#[verifier::external_body]
pub fn url_decode(v: &Vec<u8>) -> (r: Option<Vec<u8>>)
    ensures
        r.deep_view() == url_decoded(v@),
{
    match core::str::from_utf8(v.as_slice()) {
        Ok(s) => match urlencoding::decode(s) {
            Ok(c) => Some(c.into_owned().into_bytes()),
            Err(_) => None,
        },
        Err(_) => None,
    }
}

} // verus!
