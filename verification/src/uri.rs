//! URI values. Syntax checking and normalization are the business of the
//! `url` crate; this module holds the one trusted crossing point and the
//! [`Uri`] value built on it.

use vstd::prelude::*;

verus! {

/// Whether the `url` crate accepts the text as an absolute URL.
pub uninterp spec fn url_ok(s: Seq<char>) -> bool;

/// The normalized rendering the `url` crate gives back for an accepted text.
pub uninterp spec fn url_norm(s: Seq<char>) -> Seq<char>;

/// Relies on `url::Url::parse`, which accepts exactly the absolute URLs, and
/// on `url::Url::as_str`, which renders the accepted value in normalized
/// form; both depend on the text alone.
#[verifier::external_body]
fn parse_url(s: &str) -> (r: Option<String>)
    ensures
        r is Some <==> url_ok(s@),
        r matches Some(t) ==> t@ == url_norm(s@),
{
    match url::Url::parse(s) {
        Ok(u) => Some(u.as_str().to_owned()),
        Err(_) => None,
    }
}

/// A URI, held in the normalized rendering of the `url` crate.
pub struct Uri {
    text: String,
}

impl View for Uri {
    type V = Seq<char>;

    closed spec fn view(&self) -> Seq<char> {
        self.text@
    }
}

impl Uri {
    /// Reads an absolute URL; yields no value for any other text.
    pub fn parse(s: &str) -> (r: Option<Uri>)
        ensures
            r is Some <==> url_ok(s@),
            r matches Some(u) ==> u@ == url_norm(s@),
    {
        match parse_url(s) {
            Some(text) => Some(Uri { text }),
            None => None,
        }
    }

    /// The normalized rendering of the URI.
    pub fn to_string(&self) -> (r: String)
        ensures
            r@ == self@,
    {
        self.text.clone()
    }
}

} // verus!
