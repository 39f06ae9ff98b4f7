//! A small multi-port HTTP front door: serve-point declarations are parsed
//! and validated into an immutable routing table, requests are dispatched
//! by longest matching path prefix, and matched requests are either handed
//! to a directory target or rewritten for a remote upstream.

use vstd::prelude::*;

mod args;
mod proxy;
mod routing;
mod text;
mod uri;

verus! {

pub use args::ConfigError;
pub use args::RawServePoint;
pub use args::ServePoint;
pub use args::Target;
pub use args::UpstreamUri;
pub use args::Verbosity;
pub use args::normalized;
pub use args::parse_serve_point;
pub use args::part_path;
pub use args::part_port;
pub use args::part_target;
pub use args::port_of;
pub use args::spec_message;
pub use args::upstream_ok;
pub use args::well_split;
pub use proxy::ForwardPlan;
pub use proxy::RequestFailure;
pub use proxy::cors_headers;
pub use proxy::failure_response;
pub use proxy::forwarded_uri;
pub use proxy::status_of;
pub use routing::Args;
pub use routing::PortTable;
pub use routing::RoutingTable;
pub use routing::build_table;
pub use routing::has_correspondence;
pub use routing::has_dup;
pub use routing::lemma_longest_match_unique;
pub use routing::spec_group;
pub use routing::specs_has;
pub use routing::tables_has;
pub use text::is_prefix;
pub use text::strip_slashes;
pub use uri::uri_accepts;
pub use uri::uri_authority_of;
pub use uri::uri_scheme_of;

} // verus!
