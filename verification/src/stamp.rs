//! Fully resolved, offset-aware timestamps. The RFC 3339 grammar and
//! calendar validation are the business of the `chrono` crate; this module
//! holds the one trusted crossing point and the [`Instant`] value built on
//! it.

use vstd::prelude::*;

verus! {

/// Whether `chrono` accepts the text as a complete RFC 3339 timestamp.
pub uninterp spec fn rfc3339_ok(s: Seq<char>) -> bool;

/// The RFC 3339 rendering that `chrono` gives back for an accepted text.
pub uninterp spec fn rfc3339_norm(s: Seq<char>) -> Seq<char>;

/// Relies on `chrono::DateTime::<FixedOffset>::parse_from_rfc3339`, which
/// accepts exactly the complete RFC 3339 timestamps, and on
/// `chrono::DateTime::to_rfc3339`, which renders the accepted value; both
/// depend on the text alone.
#[verifier::external_body]
pub(crate) fn parse_full_stamp(s: &str) -> (r: Option<String>)
    ensures
        r is Some <==> rfc3339_ok(s@),
        r matches Some(t) ==> t@ == rfc3339_norm(s@),
{
    match chrono::DateTime::parse_from_rfc3339(s) {
        Ok(dt) => Some(dt.to_rfc3339()),
        Err(_) => None,
    }
}

/// An offset-aware instant, held as its RFC 3339 rendering.
pub struct Instant {
    text: String,
}

impl View for Instant {
    type V = Seq<char>;

    closed spec fn view(&self) -> Seq<char> {
        self.text@
    }
}

impl Instant {
    /// Reads a complete RFC 3339 timestamp; yields no value for any other
    /// text.
    pub fn parse(s: &str) -> (r: Option<Instant>)
        ensures
            rfc3339_ok(s@) ==> (r matches Some(i) && i@ == rfc3339_norm(s@)),
            !rfc3339_ok(s@) ==> r is None,
    {
        match parse_full_stamp(s) {
            Some(text) => Some(Instant { text }),
            None => None,
        }
    }

    /// The RFC 3339 rendering of the instant.
    pub fn to_string(&self) -> (r: String)
        ensures
            r@ == self@,
    {
        self.text.clone()
    }
}

} // verus!
