use rmw_zenoh_mcap_writer::config::{check_endpoints, multicast_scouting, Args, CfgEntry, ConnectPlan, SessionMode};

fn args() -> Args {
    Args {
        config: None,
        cfg: vec![],
        mode: None,
        listen: vec![],
        connect: vec![],
        connect_timeout: -1,
        no_multicast_scouting: false,
        rest_http_port: None,
        output_path: ".".to_string(),
    }
}

#[test]
fn default_plan() {
    let a = args();
    assert_eq!(a.output_path(), ".");
    let p = a.zenoh_config().unwrap();
    assert_eq!(p.config_file, None);
    assert_eq!(p.mode_json.as_deref(), Some("\"client\""));
    assert_eq!(p.rest_http_port_json, None);
    match p.connect {
        ConnectPlan::DefaultJson(j) => assert_eq!(j, "[\"tcp/localhost:7447\"]"),
        other => panic!("unexpected {other:?}"),
    }
    assert!(p.listen.is_empty());
    assert_eq!(p.connect_timeout_ms, -1);
    assert!(p.cfg.is_empty());
}

#[test]
fn plan_with_options() {
    let mut a = args();
    a.config = Some("zenoh.json5".to_string());
    a.mode = Some(SessionMode::Peer);
    a.rest_http_port = Some("8080".to_string());
    a.connect = vec!["tcp/10.0.0.1:7447".to_string()];
    a.listen = vec!["tcp/0.0.0.0:7448".to_string()];
    a.connect_timeout = 500;
    a.cfg = vec!["transport/unicast/max_links:2".to_string(), "broken".to_string(), "a:b:c".to_string()];
    let p = a.zenoh_config().unwrap();
    assert_eq!(p.config_file.as_deref(), Some("zenoh.json5"));
    assert_eq!(p.mode_json.as_deref(), Some("\"peer\""));
    assert_eq!(p.rest_http_port_json.as_deref(), Some("\"8080\""));
    match p.connect {
        ConnectPlan::Endpoints(e) => assert_eq!(e, vec!["tcp/10.0.0.1:7447".to_string()]),
        other => panic!("unexpected {other:?}"),
    }
    assert_eq!(p.listen, vec!["tcp/0.0.0.0:7448".to_string()]);
    assert_eq!(p.connect_timeout_ms, 500);
    match &p.cfg[..] {
        [CfgEntry::Pair(k1, v1), CfgEntry::Malformed(m), CfgEntry::Pair(k2, v2)] => {
            assert_eq!((k1.as_str(), v1.as_str()), ("transport/unicast/max_links", "2"));
            assert_eq!(m, "broken");
            assert_eq!((k2.as_str(), v2.as_str()), ("a", "b:c"));
        }
        other => panic!("unexpected {other:?}"),
    }
}

#[test]
fn config_file_keeps_its_mode() {
    let mut a = args();
    a.config = Some("z.json5".to_string());
    assert_eq!(a.zenoh_config().unwrap().mode_json, None);
}

#[test]
fn rest_port_none_in_any_case() {
    for none in ["none", "NONE", "NoNe"] {
        let mut a = args();
        a.rest_http_port = Some(none.to_string());
        assert_eq!(a.zenoh_config().unwrap().rest_http_port_json, None);
    }
    let mut a = args();
    a.rest_http_port = Some("nonee".to_string());
    assert_eq!(a.zenoh_config().unwrap().rest_http_port_json.as_deref(), Some("\"nonee\""));
}

#[test]
fn mode_names() {
    assert_eq!(SessionMode::Router.to_str(), "router");
    assert_eq!(SessionMode::Peer.to_str(), "peer");
    assert_eq!(SessionMode::Client.to_str(), "client");
}

#[test]
fn multicast_scouting_table() {
    // --no-multicast-scouting disables it whatever the configuration says.
    assert!(!multicast_scouting(None, true));
    assert!(!multicast_scouting(Some(true), true));
    assert!(!multicast_scouting(Some(false), true));
    // Otherwise the configuration decides, and it is on when unset.
    assert!(multicast_scouting(None, false));
    assert!(multicast_scouting(Some(true), false));
    assert!(!multicast_scouting(Some(false), false));
}

#[test]
fn endpoints_are_checked() {
    let ok = vec!["tcp/10.0.0.1:7447".to_string(), "udp/[::1]:7447".to_string()];
    assert!(check_endpoints(&ok, "connect").is_ok());
    let bad = vec!["tcp/10.0.0.1:7447".to_string(), "localhost".to_string(), "nope".to_string()];
    let e = check_endpoints(&bad, "connect").unwrap_err();
    assert_eq!(e.option, "connect");
    assert_eq!(e.value, "localhost");
    assert!(e.message().starts_with("couldn't parse option --listen=localhost into Locator: "));
}

#[test]
fn bad_endpoint_refuses_the_plan() {
    let mut a = args();
    a.connect = vec!["no-protocol".to_string()];
    a.listen = vec!["also-bad".to_string()];
    let e = a.zenoh_config().unwrap_err();
    assert_eq!((e.option.as_str(), e.value.as_str()), ("connect", "no-protocol"));
    let mut a = args();
    a.listen = vec!["tcp/0.0.0.0:7448".to_string(), "also-bad".to_string()];
    let e = a.zenoh_config().unwrap_err();
    assert_eq!((e.option.as_str(), e.value.as_str()), ("listen", "also-bad"));
}
