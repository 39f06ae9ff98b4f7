//! Serve-point declarations: the `[port]:[path]:[@]target` grammar, the
//! configuration data types, and the errors a bad declaration raises.

use vstd::prelude::*;
use vstd::string::*;

use crate::text::all_digits;
use crate::text::dec_rep;
use crate::text::digits_val;
use crate::text::find_char;
use crate::text::first_index;
use crate::text::lemma_first_index;
use crate::text::parse_decimal_u16;
use crate::text::u16_to_string;
use crate::uri::UriParts;
use crate::uri::parse_uri_parts;
use crate::uri::uri_accepts;
use crate::uri::uri_authority_of;
use crate::uri::uri_scheme_of;

verus! {

/// How much the logging collaborator is told to say.
#[derive(Copy, Clone, Debug, PartialEq, Eq, Structural)]
pub enum Verbosity {
    Error,
    Warn,
    Info,
    Debug,
    Trace,
}

impl Default for Verbosity {
    /// The level used when the flag is omitted.
    fn default() -> (r: Verbosity)
        ensures
            r == Verbosity::Info,
    {
        Verbosity::Info
    }
}

/// An upstream URI, reduced to what the proxy reads of it: its full text,
/// its authority, and whether its scheme asks for TLS.
#[derive(Debug)]
pub struct UpstreamUri {
    pub text: String,
    pub authority: String,
    pub secure: bool,
}

impl Clone for UpstreamUri {
    fn clone(&self) -> (r: Self)
        ensures
            r == *self,
    {
        UpstreamUri {
            text: self.text.clone(),
            authority: self.authority.clone(),
            secure: self.secure,
        }
    }
}

impl UpstreamUri {
    /// The text is a URI whose scheme is `http` or `https`, and the other
    /// fields are read off it.
    pub open spec fn wf(self) -> bool {
        &&& uri_accepts(self.text@)
        &&& uri_authority_of(self.text@) == Some(self.authority@)
        &&& if self.secure {
            uri_scheme_of(self.text@) == Some("https"@)
        } else {
            uri_scheme_of(self.text@) == Some("http"@)
        }
    }
}

/// Where a serve point sends matched requests: a local directory, or a
/// remote upstream.
#[derive(Debug)]
pub enum Target {
    Dir(String),
    Net(UpstreamUri),
}

impl Clone for Target {
    fn clone(&self) -> (r: Self)
        ensures
            r == *self,
    {
        match self {
            Target::Dir(d) => Target::Dir(d.clone()),
            Target::Net(u) => Target::Net(u.clone()),
        }
    }
}

/// A path prefix and the target that serves everything under it.
#[derive(Debug)]
pub struct ServePoint {
    pub path: String,
    pub target: Target,
}

impl Clone for ServePoint {
    fn clone(&self) -> (r: Self)
        ensures
            r == *self,
    {
        ServePoint { path: self.path.clone(), target: self.target.clone() }
    }
}

/// A serve point together with the port it was declared for.
#[derive(Debug)]
pub struct RawServePoint {
    pub port: u16,
    pub path: String,
    pub target: Target,
}

impl Clone for RawServePoint {
    fn clone(&self) -> (r: Self)
        ensures
            r == *self,
    {
        RawServePoint { port: self.port, path: self.path.clone(), target: self.target.clone() }
    }
}

impl RawServePoint {
    pub fn decompose(self) -> (r: (u16, ServePoint))
        ensures
            r.0 == self.port,
            r.1.path == self.path,
            r.1.target == self.target,
    {
        (
            self.port,
            ServePoint { path: self.path, target: self.target },
        )
    }
}

/// Why a configuration was rejected at startup.
#[derive(Clone, Debug)]
pub enum ConfigError {
    /// The declaration does not hold the two separating colons.
    Malformed,
    /// The port text (carried here) is not a port number.
    BadPort(String),
    /// The upstream text (carried here) is not an absolute http(s) URI.
    BadUri(String),
    /// No directory sits at the target path (carried here).
    MissingDir(String),
    /// The path (carried here) was declared twice on the port.
    DuplicatePath(String, u16),
}

/// The human-readable message for each rejection.
pub open spec fn spec_message(e: ConfigError) -> Seq<char> {
    match e {
        ConfigError::Malformed => "Expected format [port]:[path]:[@]target"@,
        ConfigError::BadPort(p) => "Could not parse port number from `"@ + p@ + "`"@,
        ConfigError::BadUri(u) => "Could not parse target URI from `"@ + u@ + "`"@,
        ConfigError::MissingDir(d) => "Could not find directory at target `"@ + d@ + "`"@,
        ConfigError::DuplicatePath(p, port) => "Repeated serve point: "@ + p@ + " on port "@
            + dec_rep(port as nat),
    }
}

impl ConfigError {
    /// The message shown to the operator, as `spec_message` says.
    pub fn message(&self) -> (m: String)
        ensures
            m@ == spec_message(*self),
    {
        match self {
            ConfigError::Malformed => String::from_str("Expected format [port]:[path]:[@]target"),
            ConfigError::BadPort(p) => {
                let mut m = String::from_str("Could not parse port number from `");
                m.append(p.as_str());
                m.append("`");
                m
            },
            ConfigError::BadUri(u) => {
                let mut m = String::from_str("Could not parse target URI from `");
                m.append(u.as_str());
                m.append("`");
                m
            },
            ConfigError::MissingDir(d) => {
                let mut m = String::from_str("Could not find directory at target `");
                m.append(d.as_str());
                m.append("`");
                m
            },
            ConfigError::DuplicatePath(p, port) => {
                let mut m = String::from_str("Repeated serve point: ");
                m.append(p.as_str());
                m.append(" on port ");
                let digits = u16_to_string(*port);
                m.append(digits.as_str());
                m
            },
        }
    }
}

/// Relies on `std::path::Path::is_dir`: whether a directory sits at the
/// path right now. The answer depends on the file system, so nothing is
/// promised of it.
#[verifier::external_body]
pub(crate) fn dir_at(path: &str) -> bool {
    std::path::Path::new(path).is_dir()
}

/// The declaration holds its two separating colons.
pub open spec fn well_split(s: Seq<char>) -> bool {
    first_index(s, ':') < s.len() && first_index(
        s.subrange(first_index(s, ':') + 1, s.len() as int),
        ':',
    ) < s.len() - first_index(s, ':') - 1
}

/// The text before the first colon.
pub open spec fn part_port(s: Seq<char>) -> Seq<char> {
    s.subrange(0, first_index(s, ':'))
}

/// The text after the first colon.
pub open spec fn rest_after_port(s: Seq<char>) -> Seq<char> {
    s.subrange(first_index(s, ':') + 1, s.len() as int)
}

/// The text between the first and second colons.
pub open spec fn part_path(s: Seq<char>) -> Seq<char> {
    rest_after_port(s).subrange(0, first_index(rest_after_port(s), ':'))
}

/// The text after the second colon, colons and all.
pub open spec fn part_target(s: Seq<char>) -> Seq<char> {
    rest_after_port(s).subrange(
        first_index(rest_after_port(s), ':') + 1,
        rest_after_port(s).len() as int,
    )
}

/// The port a port text denotes: empty means the default 3030, otherwise
/// the text must be a decimal number no greater than 65535.
pub open spec fn port_of(s: Seq<char>) -> Option<u16> {
    if s.len() == 0 {
        Some(3030u16)
    } else if all_digits(s) && digits_val(s) <= u16::MAX {
        Some(digits_val(s) as u16)
    } else {
        None
    }
}

/// A path made absolute: empty becomes `/`, and a missing leading slash is
/// prepended.
pub open spec fn normalized(p: Seq<char>) -> Seq<char> {
    if p.len() == 0 {
        seq!['/']
    } else if p[0] == '/' {
        p
    } else {
        seq!['/'] + p
    }
}

/// An upstream text the configuration accepts: hyper parses it, its scheme
/// is `http` or `https`, and it has an authority.
pub open spec fn upstream_ok(u: Seq<char>) -> bool {
    &&& uri_accepts(u)
    &&& (uri_scheme_of(u) == Some("http"@) || uri_scheme_of(u) == Some("https"@))
    &&& uri_authority_of(u) is Some
}

/// The target text asks for an upstream rather than a directory.
pub open spec fn target_is_upstream(t: Seq<char>) -> bool {
    t.len() > 0 && t[0] == '@'
}

fn parse_port_text(s: &str) -> (r: Option<u16>)
    ensures
        r == port_of(s@),
{
    if s.unicode_len() == 0 {
        Some(3030)
    } else {
        parse_decimal_u16(s)
    }
}

fn normalize_path(p: &str) -> (r: String)
    ensures
        r@ == normalized(p@),
{
    proof {
        reveal_strlit("/");
    }
    if p.unicode_len() == 0 {
        let r = String::from_str("/");
        proof {
            assert(r@ =~= seq!['/']);
        }
        r
    } else if p.get_char(0) == '/' {
        String::from_str(p)
    } else {
        let r = String::from_str("/").concat(p);
        proof {
            assert(r@ =~= seq!['/'] + p@);
        }
        r
    }
}

fn parse_upstream(u: &str) -> (r: Result<UpstreamUri, ConfigError>)
    ensures
        match r {
            Ok(up) => {
                &&& upstream_ok(u@)
                &&& up.text@ == u@
                &&& up.wf()
            },
            Err(e) => {
                &&& !upstream_ok(u@)
                &&& e matches ConfigError::BadUri(b) && b@ == u@
            },
        },
{
    let text = String::from_str(u);
    match parse_uri_parts(u) {
        None => Err(ConfigError::BadUri(text)),
        Some(parts) => {
            let UriParts { scheme, authority } = parts;
            match (scheme, authority) {
                (Some(sch), Some(auth)) => {
                    if sch == String::from_str("http") {
                        Ok(UpstreamUri { text, authority: auth, secure: false })
                    } else if sch == String::from_str("https") {
                        Ok(UpstreamUri { text, authority: auth, secure: true })
                    } else {
                        Err(ConfigError::BadUri(text))
                    }
                },
                _ => Err(ConfigError::BadUri(text)),
            }
        },
    }
}

/// One declaration in the `[port]:[path]:[@]target` grammar, split on its
/// first two colons; an empty port means 3030, the path is made absolute,
/// a target flagged with `@` must be an absolute http(s) URI, and any other
/// target must name a directory that exists right now.
pub fn parse_serve_point(value: &str) -> (r: Result<RawServePoint, ConfigError>)
    ensures
        ({
            let s = value@;
            match r {
                Ok(sp) => {
                    &&& well_split(s)
                    &&& port_of(part_port(s)) == Some(sp.port)
                    &&& sp.path@ == normalized(part_path(s))
                    &&& match sp.target {
                        Target::Dir(d) => !target_is_upstream(part_target(s)) && d@ == part_target(
                            s,
                        ),
                        Target::Net(up) => {
                            &&& target_is_upstream(part_target(s))
                            &&& up.text@ == part_target(s).subrange(
                                1,
                                part_target(s).len() as int,
                            )
                            &&& up.wf()
                        },
                    }
                },
                Err(e) => match e {
                    ConfigError::Malformed => !well_split(s),
                    ConfigError::BadPort(p) => {
                        &&& well_split(s)
                        &&& p@ == part_port(s)
                        &&& port_of(part_port(s)) is None
                    },
                    ConfigError::BadUri(u) => {
                        &&& well_split(s)
                        &&& port_of(part_port(s)) is Some
                        &&& target_is_upstream(part_target(s))
                        &&& u@ == part_target(s).subrange(1, part_target(s).len() as int)
                        &&& !upstream_ok(u@)
                    },
                    ConfigError::MissingDir(d) => {
                        &&& well_split(s)
                        &&& port_of(part_port(s)) is Some
                        &&& !target_is_upstream(part_target(s))
                        &&& d@ == part_target(s)
                    },
                    ConfigError::DuplicatePath(_, _) => false,
                },
            }
        }),
{
    let n: usize = value.unicode_len();
    let i = find_char(value, ':');
    proof {
        lemma_first_index(value@, ':');
    }
    if i == n {
        return Err(ConfigError::Malformed);
    }
    let port_text = value.substring_char(0, i);
    let rest = value.substring_char(i + 1, n);
    assert(rest@ == rest_after_port(value@));
    let m: usize = rest.unicode_len();
    let j = find_char(rest, ':');
    proof {
        lemma_first_index(rest@, ':');
    }
    if j == m {
        return Err(ConfigError::Malformed);
    }
    let path_text = rest.substring_char(0, j);
    let target_text = rest.substring_char(j + 1, m);
    assert(port_text@ == part_port(value@));
    assert(path_text@ == part_path(value@));
    assert(target_text@ == part_target(value@));

    let port = match parse_port_text(port_text) {
        Some(port) => port,
        None => {
            return Err(ConfigError::BadPort(String::from_str(port_text)));
        },
    };

    let path = normalize_path(path_text);

    let tn: usize = target_text.unicode_len();
    if tn > 0 && target_text.get_char(0) == '@' {
        let upstream_text = target_text.substring_char(1, tn);
        match parse_upstream(upstream_text) {
            Ok(up) => Ok(RawServePoint { port, path, target: Target::Net(up) }),
            Err(e) => Err(e),
        }
    } else {
        if dir_at(target_text) {
            Ok(
                RawServePoint {
                    port,
                    path,
                    target: Target::Dir(String::from_str(target_text)),
                },
            )
        } else {
            Err(ConfigError::MissingDir(String::from_str(target_text)))
        }
    }
}

} // verus!
