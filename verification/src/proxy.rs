//! Forwarding a matched request to its upstream: the rewritten URI and
//! Host header, the status codes that per-request failures map to, and the
//! process-wide CORS decoration.

use vstd::prelude::*;
use vstd::string::*;

use crate::args::UpstreamUri;
use crate::text::is_prefix;
use crate::text::strip_leading_slashes;
use crate::text::strip_slashes;

verus! {

/// The request the proxy sends upstream: the URI to ask for, and the
/// authority the Host header is rewritten to.
pub struct ForwardPlan {
    pub uri: String,
    pub host: String,
}

/// The forwarded URI: the upstream text, joined to the request's
/// path-and-query with the matched mount prefix and any leading slashes
/// stripped off.
pub open spec fn forwarded_uri(target: Seq<char>, mount: Seq<char>, path_query: Seq<char>) -> Seq<
    char,
> {
    target + strip_slashes(path_query.subrange(mount.len() as int, path_query.len() as int))
}

impl ForwardPlan {
    /// Rewrites a request matched at `mount` for `target`: the suffix of
    /// the path-and-query after the mount, less its leading slashes, is
    /// joined to the upstream text, and the Host header is pointed at the
    /// upstream's authority.
    pub fn build(target: &UpstreamUri, mount: &str, path_query: &str) -> (r: ForwardPlan)
        requires
            is_prefix(mount@, path_query@),
        ensures
            r.uri@ == forwarded_uri(target.text@, mount@, path_query@),
            r.host@ == target.authority@,
    {
        let ml: usize = mount.unicode_len();
        let pl: usize = path_query.unicode_len();
        let suffix = path_query.substring_char(ml, pl);
        let rel = strip_leading_slashes(suffix);
        let uri = target.text.clone().concat(rel);
        ForwardPlan { uri, host: target.authority.clone() }
    }
}

/// A per-request failure and the response it is mapped to.
#[derive(Copy, Clone, Debug, PartialEq, Eq, Structural)]
pub enum RequestFailure {
    /// The directory target holds no file at the requested path.
    MissingFile,
    /// The forwarded URI could not be constructed.
    BadForwardUri,
    /// The upstream could not be reached or did not answer.
    Unreachable,
}

/// The status code each per-request failure is answered with.
pub open spec fn status_of(f: RequestFailure) -> u16 {
    match f {
        RequestFailure::MissingFile => 404u16,
        RequestFailure::BadForwardUri => 500u16,
        RequestFailure::Unreachable => 502u16,
    }
}

/// The response a failed request is answered with: its status code, and a
/// body that is always empty, so nothing upstream-specific leaks to the
/// caller.
pub fn failure_response(f: RequestFailure) -> (r: (u16, String))
    ensures
        r.0 == status_of(f),
        r.1@.len() == 0,
{
    let body = String::new();
    match f {
        RequestFailure::MissingFile => (404, body),
        RequestFailure::BadForwardUri => (500, body),
        RequestFailure::Unreachable => (502, body),
    }
}

/// The cross-origin headers every response gains exactly when the
/// process-wide CORS toggle is on: any origin, method and header allowed.
pub fn cors_headers(enabled: bool) -> (h: Vec<(String, String)>)
    ensures
        h@.len() > 0 <==> enabled,
        enabled ==> {
            &&& h@.len() == 3
            &&& h@[0].0@ == "access-control-allow-origin"@ && h@[0].1@ == "*"@
            &&& h@[1].0@ == "access-control-allow-methods"@ && h@[1].1@ == "*"@
            &&& h@[2].0@ == "access-control-allow-headers"@ && h@[2].1@ == "*"@
        },
{
    let mut h: Vec<(String, String)> = Vec::new();
    if enabled {
        h.push(
            (String::from_str("access-control-allow-origin"), String::from_str("*")),
        );
        h.push(
            (String::from_str("access-control-allow-methods"), String::from_str("*")),
        );
        h.push(
            (String::from_str("access-control-allow-headers"), String::from_str("*")),
        );
    }
    h
}

} // verus!
