//! Validation and normalisation of service URLs.
//!
//! URLs are carried as plain strings; the one thing the library needs
//! from the URL parser is whether a string is a valid absolute URL and
//! what its normal form is, and both depend on the string alone.

use vstd::prelude::*;

verus! {

/// The normal form the URL parser gives a string, or nothing when the
/// string is not a valid absolute URL.
pub uninterp spec fn url_normalized(s: Seq<char>) -> Option<Seq<char>>;

/// Relies on `url::Url::parse` and `url::Url::as_str`: parsing either
/// fails or yields a normal form, and both depend on the input string
/// alone.
#[verifier::external_body]
pub(crate) fn normalize_url(s: &str) -> (r: Option<String>)
    ensures
        r.deep_view() == url_normalized(s@),
{
    match url::Url::parse(s) {
        Ok(u) => Some(String::from(u.as_str())),
        Err(_) => None,
    }
}

} // verus!
