//! URL normalization.
//!
//! The registry compares URLs the way parsed URLs compare: by their
//! serialization after parsing.  The parse itself is an outside
//! primitive; everything downstream works on the normalized text.

use vstd::prelude::*;

verus! {

/// The serialization of the parsed URL, or `None` when the text is
/// not a valid absolute URL.  A function of the text alone.
pub uninterp spec fn url_normal_of(s: Seq<char>) -> Option<Seq<char>>;

/// Relies on url::Url::parse and url::Url::as_str: parsing is a
/// function of the text alone, and equal URLs have equal
/// serializations.
#[verifier::external_body]
fn normalize_url_raw(s: &str) -> (r: Option<String>)
    ensures
        match r {
            Some(t) => url_normal_of(s@) == Some(t@),
            None => url_normal_of(s@) is None,
        },
{
    match url::Url::parse(s) {
        Ok(u) => Some(String::from(u.as_str())),
        Err(_) => None,
    }
}

/// Normalizes a URL to its parsed serialization; `None` when the text
/// does not parse as a URL.
pub fn normalize_url(s: &str) -> (r: Option<String>)
    ensures
        match r {
            Some(t) => url_normal_of(s@) == Some(t@),
            None => url_normal_of(s@) is None,
        },
{
    normalize_url_raw(s)
}

} // verus!
