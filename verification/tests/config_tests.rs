use turbogate::config::Config;
use turbogate::options::Options;

const BASIC: &str = "\
global\n\
    maxconn 4096\n\
\n\
defaults\n\
    mode tcp\n\
    timeout connect 5s\n\
\n\
frontend fe\n\
    bind 127.0.0.1:7001\n\
    default_backend be\n\
\n\
backend be\n\
    balance roundrobin\n\
    server s1 127.0.0.1:9001 weight 1\n\
    server s2 127.0.0.1:9002 weight 1\n";

#[test]
fn basic_config_parses() {
    let c = Config::from_haproxy_config(BASIC).unwrap();
    assert_eq!(c.global.maxconn, Some(4096));
    assert_eq!(c.frontends.len(), 1);
    assert_eq!(c.frontends[0].name, "fe");
    assert_eq!(c.frontends[0].bind, vec!["127.0.0.1:7001".to_string()]);
    assert_eq!(c.frontends[0].default_backend.as_deref(), Some("be"));
    assert_eq!(c.backends.len(), 1);
    let be = &c.backends[0];
    assert_eq!(be.name, "be");
    assert_eq!(be.balance.as_deref(), Some("roundrobin"));
    assert_eq!(be.server.len(), 2);
    assert_eq!(be.server[0].name, "s1");
    assert_eq!(be.server[0].address, "127.0.0.1");
    assert_eq!(be.server[0].port, 9001);
    assert_eq!(be.server[0].weight, Some(1));
    assert_eq!(be.server[1].port, 9002);
    assert!(be.health_check.is_none());
    assert!(c.validate().is_ok());
}

#[test]
fn wildcard_bind_becomes_all_interfaces() {
    let text = "frontend fe\n    bind *:7001\n";
    let c = Config::from_haproxy_config(text).unwrap();
    assert_eq!(c.frontends[0].bind, vec!["0.0.0.0:7001".to_string()]);
}

#[test]
fn health_check_settings_come_from_first_checked_server() {
    let text = "backend be\n\
        server s1 127.0.0.1:9001 check inter 200ms rise 2 fall 2\n\
        server s2 127.0.0.1:9002 check\n";
    let c = Config::from_haproxy_config(text).unwrap();
    let hc = c.backends[0].health_check.as_ref().unwrap();
    assert_eq!(hc.interval, "200ms");
    assert_eq!(hc.timeout, "1s");
    assert_eq!(hc.rise, 2);
    assert_eq!(hc.fall, 2);
    assert_eq!(c.backends[0].server[0].check, Some(true));
}

#[test]
fn server_flags_parse() {
    let text = "backend be\n\
        server s1 10.0.0.1:8080 weight 7 maxconn 50 backup disabled\n";
    let c = Config::from_haproxy_config(text).unwrap();
    let s = &c.backends[0].server[0];
    assert_eq!(s.weight, Some(7));
    assert_eq!(s.maxconn, Some(50));
    assert_eq!(s.backup, Some(true));
    assert_eq!(s.disabled, Some(true));
    assert!(s.check.is_none());
}

#[test]
fn server_without_port_defaults_to_eighty() {
    let text = "backend be\n    server s1 upstream.internal\n";
    let c = Config::from_haproxy_config(text).unwrap();
    assert_eq!(c.backends[0].server[0].address, "upstream.internal");
    assert_eq!(c.backends[0].server[0].port, 80);
}

#[test]
fn stats_bind_points_metrics() {
    let text = "global\n    stats bind 0.0.0.0:9999\n";
    let c = Config::from_haproxy_config(text).unwrap();
    assert_eq!(c.metrics.bind.as_deref(), Some("0.0.0.0:9999"));
}

#[test]
fn rate_limit_needs_both_settings() {
    let text = "global\n    rate-limit requests-per-second 2\n    rate-limit burst-size 1\n";
    let c = Config::from_haproxy_config(text).unwrap();
    let rl = c.rate_limit.as_ref().unwrap();
    assert_eq!(rl.requests_per_second, 2);
    assert_eq!(rl.burst_size, 1);
    let partial = Config::from_haproxy_config("global\n    rate-limit requests-per-second 2\n")
        .unwrap();
    assert!(partial.rate_limit.is_none());
}

#[test]
fn ddos_settings_collect() {
    let text = "global\n\
        ddos-protection max-connections-per-ip 3\n\
        ddos-protection whitelist 192.0.2.1,192.0.2.2\n\
        ddos-protection blacklist 198.51.100.9\n\
        ddos-protection suspicious-pattern curl,bot\n";
    let c = Config::from_haproxy_config(text).unwrap();
    let d = c.ddos_protection.as_ref().unwrap();
    assert_eq!(d.max_connections_per_ip, Some(3));
    assert_eq!(d.reset_interval_seconds, 60);
    assert_eq!(d.whitelist, vec!["192.0.2.1".to_string(), "192.0.2.2".to_string()]);
    assert_eq!(d.blacklist, vec!["198.51.100.9".to_string()]);
    assert_eq!(d.suspicious_patterns, vec!["curl".to_string(), "bot".to_string()]);
}

#[test]
fn acl_and_use_backend_lines_parse() {
    let text = "frontend fe\n\
        acl bad src 10.0.0.0/8\n\
        use_backend be if !bad\n\
        \nbackend be\n    server s1 127.0.0.1:9001\n";
    let c = Config::from_haproxy_config(text).unwrap();
    let fe = &c.frontends[0];
    assert_eq!(fe.acl.len(), 1);
    assert_eq!(fe.acl[0].name, "bad");
    assert_eq!(fe.acl[0].criterion, "src 10.0.0.0/8");
    assert_eq!(fe.use_backend.len(), 1);
    assert_eq!(fe.use_backend[0].backend, "be");
    assert_eq!(fe.use_backend[0].condition.as_deref(), Some("if !bad"));
    assert!(c.validate().is_ok());
}

#[test]
fn comments_and_blank_lines_are_skipped() {
    let text = "# a comment\n\n   # indented comment\nglobal\n    maxconn 10\n";
    let c = Config::from_haproxy_config(text).unwrap();
    assert_eq!(c.global.maxconn, Some(10));
}

#[test]
fn bad_maxconn_is_an_error() {
    assert!(Config::from_haproxy_config("global\n    maxconn many\n").is_err());
}

#[test]
fn bad_daemon_flag_is_an_error() {
    assert!(Config::from_haproxy_config("global\n    daemon maybe\n").is_err());
    let on = Config::from_haproxy_config("global\n    daemon on\n").unwrap();
    assert_eq!(on.global.daemon, Some(true));
    let off = Config::from_haproxy_config("global\n    daemon no\n").unwrap();
    assert_eq!(off.global.daemon, Some(false));
}

#[test]
fn lone_directive_word_is_an_error() {
    assert!(Config::from_haproxy_config("global\n    maxconn\n").is_err());
}

#[test]
fn validate_rejects_unknown_backend() {
    let text = "frontend fe\n    default_backend ghost\n";
    let c = Config::from_haproxy_config(text).unwrap();
    assert!(c.validate().is_err());
}

#[test]
fn validate_rejects_empty_backend() {
    let text = "backend be\n    balance roundrobin\n";
    let c = Config::from_haproxy_config(text).unwrap();
    assert!(c.validate().is_err());
}

#[test]
fn defaults_keep_their_documented_values() {
    let c = Config::from_haproxy_config("").unwrap();
    assert_eq!(c.global.maxconn, Some(4096));
    assert_eq!(c.defaults.mode.as_deref(), Some("tcp"));
    assert_eq!(c.defaults.retries, Some(3));
    assert_eq!(c.metrics.bind.as_deref(), Some("0.0.0.0:9090"));
    assert_eq!(c.metrics.path.as_deref(), Some("/metrics"));
    assert!(c.ddos_protection.is_some());
    assert!(c.compression.is_none());
    assert!(c.hot_reload.is_none());
}

#[test]
fn balance_line_drops_trailing_comment() {
    let text = "backend be\n    balance roundrobin #smooth\n    server s1 127.0.0.1:9001\n";
    let c = Config::from_haproxy_config(text).unwrap();
    assert_eq!(c.backends[0].balance.as_deref(), Some("roundrobin"));
}

#[test]
fn timeouts_parse_with_suffixes() {
    assert_eq!(Options::parse_timeout("5s").unwrap(), 5000);
    assert_eq!(Options::parse_timeout("200ms").unwrap(), 200);
    assert_eq!(Options::parse_timeout("2m").unwrap(), 120000);
    assert!(Options::parse_timeout("soon").is_err());
}

#[test]
fn options_read_from_lines() {
    let lines = vec!["clitcpka".to_string(), "tcp-check connect".to_string()];
    let o = Options::from_strings(&lines, "tcp").unwrap();
    assert!(o.tcp_options.clitcpka);
    assert!(o.tcp_options.tcp_check);
    assert!(o.tcp_options.tcp_check_connect);
    assert_eq!(o.general_options.timeout_connect, Some(5000));
    assert_eq!(o.get_connect_timeout(), 5000);
    assert_eq!(o.get_client_timeout(), 50000);
    assert_eq!(o.get_server_timeout(), 50000);
    assert_eq!(o.get_queue_timeout(), 10000);
}

#[test]
fn httpchk_applies_only_in_http_mode() {
    let lines = vec!["httpchk GET /ping".to_string()];
    let tcp = Options::from_strings(&lines, "tcp").unwrap();
    assert!(tcp.http_options.httpchk.is_none());
    let http = Options::from_strings(&lines, "http").unwrap();
    let chk = http.http_options.httpchk.unwrap();
    assert_eq!(chk.method, "GET");
    assert_eq!(chk.path, "/ping");
}

#[test]
fn apply_timeout_sets_named_field() {
    let mut o = Options::default();
    o.apply_timeout("client", "7s").unwrap();
    assert_eq!(o.general_options.timeout_client, Some(7000));
    assert!(o.apply_timeout("client", "soon").is_err());
}

#[test]
fn parsed_config_drives_round_robin() {
    // the basic two-server text, read end to end and then balanced over
    let c = Config::from_haproxy_config(BASIC).unwrap();
    let be = &c.backends[0];
    let mut lb = turbogate::balancer::BackendLoadBalancer::new(
        be.server.clone(),
        be.balance.as_deref().unwrap_or("roundrobin"),
    )
    .unwrap();
    let picks: Vec<String> = (0..4)
        .map(|_| {
            let i = lb.select_server(0).unwrap();
            lb.get_server(i).config.name.clone()
        })
        .collect();
    assert_eq!(picks[0], picks[2]);
    assert_eq!(picks[1], picks[3]);
    assert_ne!(picks[0], picks[1]);
}

#[test]
fn config_text_must_be_ascii() {
    assert!(Config::from_haproxy_config("global\n    log caf\u{e9}\n").is_err());
}

#[test]
fn validate_rejects_duplicate_names() {
    let dup_backend = "backend be\n    server s1 127.0.0.1:9001\n\nbackend be\n    server s2 127.0.0.1:9002\n";
    let c = Config::from_haproxy_config(dup_backend).unwrap();
    assert!(c.validate().is_err());
    let dup_server = "backend be\n    server s1 127.0.0.1:9001\n    server s1 127.0.0.1:9002\n";
    let c = Config::from_haproxy_config(dup_server).unwrap();
    assert!(c.validate().is_err());
}
