use turbogate::proxy::{ConnectionGate, ByteRelay, select_backend, build_acls};
use turbogate::rate_limit::{RateLimiter, RateLimitConfig};
use turbogate::ddos_protection::{DdosProtection, DdosConfig, parse_ip_list};
use turbogate::acl::Acl;
use turbogate::config::{AclConfig, Config};
use turbogate::utils::{IpAddress, parse_ip_or_cidr, ip_in_network};

#[test]
fn global_cap_admits_exactly_two() {
    let mut gate = ConnectionGate::new(2);
    assert!(gate.try_accept("fe"));
    assert!(gate.try_accept("fe"));
    assert!(!gate.try_accept("fe"));
    assert_eq!(gate.total_active(), 2);
    gate.connection_closed("fe");
    assert!(gate.try_accept("fe"));
    assert!(!gate.try_accept("other"));
}

#[test]
fn rate_limit_burst_one_rate_two() {
    // ten back-to-back connections within 100 ms: exactly three pass
    let mut rl = RateLimiter::new(RateLimitConfig {
        requests_per_second: 2,
        burst_size: 1,
        window_size: 1000,
    });
    let ip = IpAddress::V4(0xC0000205).key();
    let mut passed = 0;
    for k in 0..10u64 {
        if rl.check_rate_limit(ip, k * 10) {
            passed += 1;
        }
    }
    assert_eq!(passed, 3);
}

#[test]
fn rate_limit_refills_after_a_quiet_second() {
    let mut rl = RateLimiter::new(RateLimitConfig {
        requests_per_second: 2,
        burst_size: 1,
        window_size: 1000,
    });
    let ip = IpAddress::V4(1).key();
    for k in 0..10u64 {
        rl.check_rate_limit(ip, k);
    }
    assert!(!rl.check_rate_limit(ip, 11));
    // refill stays withheld for a second after the last admission
    assert!(!rl.check_rate_limit(ip, 1400));
    // then tokens drip back at the configured rate
    assert!(rl.check_rate_limit(ip, 1502));
}

#[test]
fn separate_sources_have_separate_buckets() {
    let mut rl = RateLimiter::new(RateLimitConfig {
        requests_per_second: 1,
        burst_size: 1,
        window_size: 1000,
    });
    let a = IpAddress::V4(1).key();
    let b = IpAddress::V4(2).key();
    assert!(rl.check_rate_limit(a, 0));
    assert!(rl.check_rate_limit(a, 0));
    assert!(!rl.check_rate_limit(a, 0));
    assert!(rl.check_rate_limit(b, 0));
}

#[test]
fn acl_denies_source_block() {
    let acl = Acl::from_config(&AclConfig {
        name: "bad".to_string(),
        criterion: "src 10.0.0.0/8".to_string(),
    })
    .unwrap();
    assert!(acl.evaluate(IpAddress::V4(0x0A000005), 40000, 7001));
    assert!(!acl.evaluate(IpAddress::V4(0xC0000205), 40000, 7001));
}

#[test]
fn use_backend_with_negation_routes_and_refuses() {
    let text = "frontend fe\n\
        acl bad src 10.0.0.0/8\n\
        use_backend be if !bad\n\
        \nbackend be\n    server s1 127.0.0.1:9001\n";
    let c = Config::from_haproxy_config(text).unwrap();
    let fe = &c.frontends[0];
    let acls = build_acls(fe).unwrap();
    // 10.0.0.5 is in the denied block: no rule matches and there is no default
    assert_eq!(select_backend(fe, &acls, IpAddress::V4(0x0A000005), 5000, 7001), None);
    // 192.0.2.5 is outside it and reaches the backend
    let picked = select_backend(fe, &acls, IpAddress::V4(0xC0000205), 5000, 7001).unwrap();
    assert_eq!(picked, "be");
}

#[test]
fn default_backend_serves_unmatched_clients() {
    let text = "frontend fe\n\
        default_backend main\n\
        acl odd src_port 7\n\
        use_backend special if odd\n\
        \nbackend main\n    server s1 127.0.0.1:9001\n\
        \nbackend special\n    server s2 127.0.0.1:9002\n";
    let c = Config::from_haproxy_config(text).unwrap();
    let fe = &c.frontends[0];
    let acls = build_acls(fe).unwrap();
    assert_eq!(select_backend(fe, &acls, IpAddress::V4(1), 7, 7001).unwrap(), "special");
    assert_eq!(select_backend(fe, &acls, IpAddress::V4(1), 8, 7001).unwrap(), "main");
}

#[test]
fn connection_limit_counts_and_releases() {
    let mut cfg = DdosConfig::default();
    cfg.max_connections_per_ip = Some(2);
    let mut d = DdosProtection::new(cfg);
    let ip = IpAddress::V4(9);
    assert!(d.check_connection_limit(ip, 0));
    assert!(d.check_connection_limit(ip, 1));
    assert!(!d.check_connection_limit(ip, 2));
    d.connection_closed(ip);
    assert!(d.check_connection_limit(ip, 3));
}

#[test]
fn request_window_resets_after_a_minute() {
    let mut cfg = DdosConfig::default();
    cfg.max_requests_per_minute = Some(2);
    let mut d = DdosProtection::new(cfg);
    let ip = IpAddress::V4(9);
    assert!(d.check_rate_limit(ip, 0));
    assert!(d.check_rate_limit(ip, 1));
    assert!(!d.check_rate_limit(ip, 2));
    assert!(d.check_rate_limit(ip, 61000));
}

#[test]
fn deny_list_wins_and_allow_list_bypasses() {
    let mut cfg = DdosConfig::default();
    cfg.max_connections_per_ip = Some(0);
    cfg.whitelist = parse_ip_list(&vec!["192.0.2.1".to_string()]);
    cfg.blacklist = parse_ip_list(&vec!["198.51.100.9".to_string()]);
    let mut d = DdosProtection::new(cfg);
    assert!(d.check_connection_limit(IpAddress::V4(0xC0000201), 0));
    assert!(!d.check_connection_limit(IpAddress::V4(0xC6336409), 0));
    assert!(!d.check_connection_limit(IpAddress::V4(5), 0));
}

#[test]
fn reset_counters_clears_both_counts() {
    let mut cfg = DdosConfig::default();
    cfg.max_requests_per_minute = Some(1);
    let mut d = DdosProtection::new(cfg);
    let ip = IpAddress::V4(9);
    assert!(d.check_rate_limit(ip, 0));
    assert!(!d.check_rate_limit(ip, 1));
    d.reset_counters();
    assert!(d.check_rate_limit(ip, 2));
    assert_eq!(d.reset_interval_seconds(), 60);
}

#[test]
fn suspicious_patterns_match_case_insensitively() {
    let mut cfg = DdosConfig::default();
    cfg.suspicious_patterns = vec!["badbot".to_string()];
    let d = DdosProtection::new(cfg);
    assert!(!d.check_suspicious_pattern(Some("Mozilla BadBot/1.0")));
    assert!(d.check_suspicious_pattern(Some("Mozilla Firefox")));
    assert!(d.check_suspicious_pattern(None));
}

#[test]
fn cidr_membership_by_masking() {
    let net = parse_ip_or_cidr("10.0.0.0/8").unwrap();
    assert!(net.v4);
    assert_eq!(net.prefix, 8);
    assert!(ip_in_network(IpAddress::V4(0x0A123456), &net));
    assert!(!ip_in_network(IpAddress::V4(0x0B000001), &net));
    assert!(!ip_in_network(IpAddress::V6(1), &net));
    let host = parse_ip_or_cidr("192.0.2.5").unwrap();
    assert_eq!(host.prefix, 32);
    assert!(ip_in_network(IpAddress::V4(0xC0000205), &host));
    assert!(!ip_in_network(IpAddress::V4(0xC0000206), &host));
    let v6 = parse_ip_or_cidr("::1").unwrap();
    assert!(!v6.v4);
    assert_eq!(v6.prefix, 128);
    assert!(ip_in_network(IpAddress::V6(1), &v6));
    assert!(parse_ip_or_cidr("not-an-address").is_err());
}

#[test]
fn byte_relay_is_faithful() {
    let mut pump = ByteRelay::new();
    let chunk = vec![1u8, 2, 3, 4];
    let out = pump.relay_chunk(&chunk);
    assert_eq!(out, chunk);
    let out2 = pump.relay_chunk(&vec![9u8]);
    assert_eq!(out2, vec![9u8]);
    assert_eq!(pump.forwarded, 5);
}

#[test]
fn rate_window_bound_holds_from_first_sight() {
    // every one-second window, the first included, admits at most
    // burst + rate requests, whatever the spacing
    let mut rl = RateLimiter::new(RateLimitConfig {
        requests_per_second: 2,
        burst_size: 1,
        window_size: 1000,
    });
    let ip = IpAddress::V4(77).key();
    let mut passed = 0;
    for k in 0..4u64 {
        if rl.check_rate_limit(ip, k * 250) {
            passed += 1;
        }
    }
    assert_eq!(passed, 3);
    // a later window, probed densely, keeps the same bound; refill has
    // resumed a second after the last admission
    let mut later = 0;
    for k in 0..20u64 {
        if rl.check_rate_limit(ip, 1500 + k * 50) {
            later += 1;
        }
    }
    assert!(later <= 3);
    assert!(later >= 1);
}

#[test]
fn activity_is_observable() {
    let mut cfg = DdosConfig::default();
    cfg.max_connections_per_ip = Some(5);
    let mut d = DdosProtection::new(cfg);
    let ip = IpAddress::V4(42);
    assert_eq!(d.activity_for(ip).connection_count, 0);
    d.check_connection_limit(ip, 7);
    d.check_connection_limit(ip, 8);
    assert_eq!(d.activity_for(ip).connection_count, 2);
    d.connection_closed(ip);
    assert_eq!(d.activity_for(ip).connection_count, 1);
}

#[test]
fn bad_acl_criteria_are_errors() {
    let make = |crit: &str| AclConfig { name: "x".to_string(), criterion: crit.to_string() };
    assert!(Acl::from_config(&make("")).is_err());
    assert!(Acl::from_config(&make("src")).is_err());
    assert!(Acl::from_config(&make("src not-an-ip")).is_err());
    assert!(Acl::from_config(&make("src_port many")).is_err());
    // unknown criteria parse as an always-true condition
    let tautology = Acl::from_config(&make("method GET")).unwrap();
    assert!(tautology.evaluate(IpAddress::V4(1), 1, 80));
    // hostname, path and header conditions permit at this layer
    let host = Acl::from_config(&make("host example.test")).unwrap();
    assert!(host.evaluate(IpAddress::V4(1), 1, 80));
}

#[test]
fn destination_port_condition_is_decisive() {
    let acl = Acl::from_config(&AclConfig {
        name: "to80".to_string(),
        criterion: "dst_port 80".to_string(),
    })
    .unwrap();
    assert!(acl.evaluate(IpAddress::V4(1), 40000, 80));
    assert!(!acl.evaluate(IpAddress::V4(1), 40000, 7001));
    // and it steers use_backend rules by the accepting port
    let text = "frontend fe
        acl web dst_port 80
        use_backend webbe if web
        default_backend other
        
backend webbe
    server s1 127.0.0.1:9001
        
backend other
    server s2 127.0.0.1:9002
";
    let c = Config::from_haproxy_config(text).unwrap();
    let fe = &c.frontends[0];
    let acls = build_acls(fe).unwrap();
    assert_eq!(select_backend(fe, &acls, IpAddress::V4(1), 5000, 80).unwrap(), "webbe");
    assert_eq!(select_backend(fe, &acls, IpAddress::V4(1), 5000, 7001).unwrap(), "other");
}
