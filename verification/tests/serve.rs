use front_door::Args;
use front_door::ConfigError;
use front_door::ForwardPlan;
use front_door::RawServePoint;
use front_door::RequestFailure;
use front_door::Target;
use front_door::UpstreamUri;
use front_door::Verbosity;
use front_door::build_table;
use front_door::cors_headers;
use front_door::failure_response;
use front_door::parse_serve_point;

fn dir_point(port: u16, path: &str, dir: &str) -> RawServePoint {
    RawServePoint {
        port,
        path: String::from(path),
        target: Target::Dir(String::from(dir)),
    }
}

fn net_point(port: u16, path: &str, text: &str, authority: &str, secure: bool) -> RawServePoint {
    RawServePoint {
        port,
        path: String::from(path),
        target: Target::Net(UpstreamUri {
            text: String::from(text),
            authority: String::from(authority),
            secure,
        }),
    }
}

#[test]
fn parse_upstream_serve_point() {
    let sp = parse_serve_point("3000:/api:@http://localhost:8080").unwrap();
    assert_eq!(sp.port, 3000);
    assert_eq!(sp.path, "/api");
    match sp.target {
        Target::Net(up) => {
            assert_eq!(up.text, "http://localhost:8080");
            assert_eq!(up.authority, "localhost:8080");
            assert!(!up.secure);
        }
        Target::Dir(_) => panic!("expected an upstream target"),
    }
}

#[test]
fn parse_secure_upstream() {
    let sp = parse_serve_point("443:/:@https://example.com/base").unwrap();
    match sp.target {
        Target::Net(up) => {
            assert_eq!(up.text, "https://example.com/base");
            assert_eq!(up.authority, "example.com");
            assert!(up.secure);
        }
        Target::Dir(_) => panic!("expected an upstream target"),
    }
}

#[test]
fn parse_missing_dir() {
    let e = parse_serve_point(":/:./missing-dir").unwrap_err();
    match &e {
        ConfigError::MissingDir(d) => assert_eq!(d, "./missing-dir"),
        _ => panic!("expected a missing-directory error"),
    }
    let msg = e.message();
    assert_eq!(msg, "Could not find directory at target `./missing-dir`");
    assert!(msg.contains("./missing-dir"));
}

#[test]
fn parse_existing_dir_and_defaults() {
    let sp = parse_serve_point("::.").unwrap();
    assert_eq!(sp.port, 3030);
    assert_eq!(sp.path, "/");
    match sp.target {
        Target::Dir(d) => assert_eq!(d, "."),
        Target::Net(_) => panic!("expected a directory target"),
    }
}

#[test]
fn parse_path_gets_leading_slash() {
    let sp = parse_serve_point("80:x:.").unwrap();
    assert_eq!(sp.path, "/x");
    let kept = parse_serve_point("80:/kept:.").unwrap();
    assert_eq!(kept.path, "/kept");
}

#[test]
fn parse_bad_port() {
    let e = parse_serve_point("99999:/x:.").unwrap_err();
    match &e {
        ConfigError::BadPort(p) => assert_eq!(p, "99999"),
        _ => panic!("expected a bad-port error"),
    }
    assert_eq!(e.message(), "Could not parse port number from `99999`");
    let e2 = parse_serve_point("abc:/x:.").unwrap_err();
    assert!(matches!(e2, ConfigError::BadPort(_)));
}

#[test]
fn parse_bad_uri() {
    let e = parse_serve_point("80:/x:@://nope").unwrap_err();
    match &e {
        ConfigError::BadUri(u) => assert_eq!(u, "://nope"),
        _ => panic!("expected a bad-URI error"),
    }
    assert_eq!(e.message(), "Could not parse target URI from `://nope`");
}

#[test]
fn parse_rejects_non_http_scheme() {
    let e = parse_serve_point("80:/x:@ftp://host/file").unwrap_err();
    assert!(matches!(e, ConfigError::BadUri(_)));
}

#[test]
fn parse_rejects_relative_upstream() {
    let e = parse_serve_point("80:/x:@just-a-path").unwrap_err();
    assert!(matches!(e, ConfigError::BadUri(_)));
}

#[test]
fn parse_malformed() {
    let e = parse_serve_point("no-colons-here").unwrap_err();
    assert!(matches!(e, ConfigError::Malformed));
    assert_eq!(e.message(), "Expected format [port]:[path]:[@]target");
    let e2 = parse_serve_point("80:only-one-colon").unwrap_err();
    assert!(matches!(e2, ConfigError::Malformed));
}

#[test]
fn upstream_target_may_hold_colons() {
    let sp = parse_serve_point("80:/x:@http://h:9090/p").unwrap();
    match sp.target {
        Target::Net(up) => assert_eq!(up.text, "http://h:9090/p"),
        Target::Dir(_) => panic!("expected an upstream target"),
    }
}

#[test]
fn validator_rejects_duplicate_path_on_port() {
    let specs = vec![dir_point(80, "/x", "./a"), dir_point(80, "/x", "./b")];
    let e = build_table(&specs).unwrap_err();
    match &e {
        ConfigError::DuplicatePath(p, port) => {
            assert_eq!(p, "/x");
            assert_eq!(*port, 80);
        }
        _ => panic!("expected a duplicate-path error"),
    }
    assert_eq!(e.message(), "Repeated serve point: /x on port 80");
}

#[test]
fn validator_allows_same_path_on_different_ports() {
    let specs = vec![dir_point(80, "/x", "./a"), dir_point(81, "/x", "./b")];
    let t = build_table(&specs).unwrap();
    assert_eq!(t.ports.len(), 2);
    assert_eq!(t.ports[0].port, 80);
    assert_eq!(t.ports[1].port, 81);
    assert_eq!(t.ports[0].entries.len(), 1);
    assert_eq!(t.ports[1].entries.len(), 1);
}

#[test]
fn validator_groups_by_port_in_order() {
    let specs = vec![
        dir_point(80, "/a", "./a"),
        dir_point(81, "/b", "./b"),
        dir_point(80, "/c", "./c"),
    ];
    let t = build_table(&specs).unwrap();
    assert_eq!(t.ports.len(), 2);
    assert_eq!(t.ports[0].port, 80);
    assert_eq!(t.ports[0].entries.len(), 2);
    assert_eq!(t.ports[0].entries[0].path, "/a");
    assert_eq!(t.ports[0].entries[1].path, "/c");
    assert_eq!(t.ports[1].port, 81);
    assert_eq!(t.ports[1].entries[0].path, "/b");
}

#[test]
fn args_build_carries_toggles() {
    let specs = vec![dir_point(80, "/", ".")];
    let args = Args::build(specs, true, Verbosity::Debug).unwrap();
    assert!(args.cors);
    assert_eq!(args.verbosity, Verbosity::Debug);
    assert_eq!(args.serve_points.ports.len(), 1);
}

#[test]
fn default_verbosity_is_info() {
    assert_eq!(Verbosity::default(), Verbosity::Info);
}

#[test]
fn forward_plan_strips_prefix_and_keeps_query() {
    let up = UpstreamUri {
        text: String::from("http://upstream/"),
        authority: String::from("upstream"),
        secure: false,
    };
    let plan = ForwardPlan::build(&up, "/api", "/api/foo?x=1");
    assert_eq!(plan.uri, "http://upstream/foo?x=1");
    assert_eq!(plan.host, "upstream");
}

#[test]
fn forward_plan_at_root_mount() {
    let up = UpstreamUri {
        text: String::from("http://upstream/"),
        authority: String::from("upstream"),
        secure: false,
    };
    let plan = ForwardPlan::build(&up, "/", "/foo");
    assert_eq!(plan.uri, "http://upstream/foo");
}

#[test]
fn forward_plan_exact_mount_keeps_query() {
    let up = UpstreamUri {
        text: String::from("http://upstream/"),
        authority: String::from("upstream"),
        secure: false,
    };
    let plan = ForwardPlan::build(&up, "/api", "/api?x=1");
    assert_eq!(plan.uri, "http://upstream/?x=1");
}

#[test]
fn unreachable_upstream_maps_to_bad_gateway() {
    let (status, body) = failure_response(RequestFailure::Unreachable);
    assert_eq!(status, 502);
    assert!(body.is_empty());
}

#[test]
fn failure_statuses() {
    assert_eq!(failure_response(RequestFailure::MissingFile).0, 404);
    assert_eq!(failure_response(RequestFailure::BadForwardUri).0, 500);
}

#[test]
fn cors_headers_present_exactly_when_enabled() {
    let on = cors_headers(true);
    assert_eq!(on.len(), 3);
    assert_eq!(on[0].0, "access-control-allow-origin");
    assert_eq!(on[0].1, "*");
    assert_eq!(on[1].0, "access-control-allow-methods");
    assert_eq!(on[1].1, "*");
    assert_eq!(on[2].0, "access-control-allow-headers");
    assert_eq!(on[2].1, "*");
    let off = cors_headers(false);
    assert!(off.is_empty());
}

#[test]
fn longest_prefix_wins_over_root_mount() {
    let declared_root_first = vec![
        dir_point(3030, "/", "."),
        net_point(3030, "/api", "http://upstream/", "upstream", false),
    ];
    let declared_api_first = vec![
        net_point(3030, "/api", "http://upstream/", "upstream", false),
        dir_point(3030, "/", "."),
    ];
    for specs in [declared_root_first, declared_api_first] {
        let t = build_table(&specs).unwrap();
        let hit = t.dispatch(3030, "/api/x").unwrap();
        assert_eq!(hit.path, "/api");
        assert!(matches!(hit.target, Target::Net(_)));
        let root = t.dispatch(3030, "/other").unwrap();
        assert_eq!(root.path, "/");
        assert!(matches!(root.target, Target::Dir(_)));
    }
}

#[test]
fn dispatch_misses_without_prefix_or_port() {
    let specs = vec![dir_point(3030, "/api", ".")];
    let t = build_table(&specs).unwrap();
    assert!(t.dispatch(3030, "/zzz").is_none());
    assert!(t.dispatch(8080, "/api/x").is_none());
}

#[test]
fn parse_port_with_leading_zeros() {
    let sp = parse_serve_point("0080:/x:.").unwrap();
    assert_eq!(sp.port, 80);
}

#[test]
fn dispatch_prefers_deepest_of_three_mounts() {
    let specs = vec![
        dir_point(3030, "/", "."),
        dir_point(3030, "/api", "."),
        net_point(3030, "/api/v1", "http://upstream/", "upstream", false),
    ];
    let t = build_table(&specs).unwrap();
    assert_eq!(t.dispatch(3030, "/api/v1/x").unwrap().path, "/api/v1");
    assert_eq!(t.dispatch(3030, "/api/other").unwrap().path, "/api");
    assert_eq!(t.dispatch(3030, "/").unwrap().path, "/");
}

#[test]
fn decompose_splits_port_from_serve_point() {
    let raw = dir_point(9999, "/p", ".");
    let (port, sp) = raw.decompose();
    assert_eq!(port, 9999);
    assert_eq!(sp.path, "/p");
    assert!(matches!(sp.target, Target::Dir(_)));
}
