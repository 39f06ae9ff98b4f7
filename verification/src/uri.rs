//! The one place the library leans on hyper: deciding whether an upstream
//! target text is a URI, and reading its scheme and authority out of it.

use vstd::prelude::*;

verus! {

/// Whether hyper's URI grammar accepts the text.
pub uninterp spec fn uri_accepts(s: Seq<char>) -> bool;

/// The scheme component hyper parses out of the text, if any.
pub uninterp spec fn uri_scheme_of(s: Seq<char>) -> Option<Seq<char>>;

/// The authority component hyper parses out of the text, if any.
pub uninterp spec fn uri_authority_of(s: Seq<char>) -> Option<Seq<char>>;

/// What hyper's URI parser hands back for one target text.
pub struct UriParts {
    pub scheme: Option<String>,
    pub authority: Option<String>,
}

/// Relies on `hyper::Uri::try_from(&str)` for the grammar check, and on
/// `Uri::scheme_str`, `Uri::authority` and `Authority::as_str` to read the
/// scheme and authority components back as text. The parse depends on the
/// text alone.
#[verifier::external_body]
pub(crate) fn parse_uri_parts(s: &str) -> (r: Option<UriParts>)
    ensures
        r is Some <==> uri_accepts(s@),
        r matches Some(p) ==> p.scheme.deep_view() == uri_scheme_of(s@) && p.authority.deep_view()
            == uri_authority_of(s@),
{
    match hyper::Uri::try_from(s) {
        Ok(u) => Some(UriParts {
            scheme: u.scheme_str().map(|x| x.to_string()),
            authority: u.authority().map(|a| a.as_str().to_string()),
        }),
        Err(_) => None,
    }
}

} // verus!
