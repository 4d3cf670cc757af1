use turbogate::health::{HealthChecker, HealthState, ServerStatus, parse_duration};
use turbogate::config::{BackendConfig, HealthCheckConfig, ServerConfig};

fn checked_server(name: &str, port: u16) -> ServerConfig {
    ServerConfig {
        name: name.to_string(),
        address: "127.0.0.1".to_string(),
        port,
        weight: Some(1),
        maxconn: None,
        check: Some(true),
        inter: None,
        rise: None,
        fall: None,
        backup: None,
        disabled: None,
    }
}

fn backend_two_checked() -> BackendConfig {
    BackendConfig {
        name: "be".to_string(),
        mode: None,
        balance: None,
        server: vec![checked_server("s1", 9001), checked_server("s2", 9002)],
        option: Vec::new(),
        timeout: Vec::new(),
        health_check: Some(HealthCheckConfig {
            interval: "200ms".to_string(),
            timeout: "1s".to_string(),
            rise: 2,
            fall: 2,
        }),
        options: None,
        retries: None,
    }
}

#[test]
fn health_failover_cycle() {
    // both start Up; two failed probes take s1 Down; two successes bring it back
    let mut hc = HealthChecker::new(&backend_two_checked());
    assert_eq!(hc.servers_len(), 2);
    assert_eq!(hc.interval_ms(), 200);
    assert_eq!(hc.get_server_status("s1"), Some(ServerStatus::Up));
    assert!(!hc.record_probe_result(0, false, 100));
    assert!(hc.record_probe_result(0, false, 300));
    assert_eq!(hc.get_server_status("s1"), Some(ServerStatus::Down));
    assert_eq!(hc.get_server_status("s2"), Some(ServerStatus::Up));
    assert_eq!(hc.get_healthy_servers(), vec!["s2".to_string()]);
    assert!(!hc.record_probe_result(0, true, 500));
    assert!(hc.record_probe_result(0, true, 700));
    assert_eq!(hc.get_server_status("s1"), Some(ServerStatus::Up));
    assert_eq!(hc.get_healthy_servers(), vec!["s1".to_string(), "s2".to_string()]);
}

#[test]
fn one_failure_is_not_enough() {
    let mut hc = HealthChecker::new(&backend_two_checked());
    hc.record_probe_result(0, false, 100);
    assert_eq!(hc.get_server_status("s1"), Some(ServerStatus::Up));
}

#[test]
fn probe_counters_zero_the_opposite_side() {
    let mut st = HealthState::default();
    st.record_probe(false, 2, 3, 10);
    st.record_probe(false, 2, 3, 20);
    assert_eq!(st.consecutive_failures, 2);
    assert_eq!(st.consecutive_successes, 0);
    st.record_probe(true, 2, 3, 30);
    assert_eq!(st.consecutive_failures, 0);
    assert_eq!(st.consecutive_successes, 1);
    assert!(!(st.consecutive_successes > 0 && st.consecutive_failures > 0));
}

#[test]
fn maintenance_is_never_left_by_probes() {
    let mut hc = HealthChecker::new(&backend_two_checked());
    hc.set_server_maintenance("s1", true);
    assert_eq!(hc.get_server_status("s1"), Some(ServerStatus::Maintenance));
    for t in 0..5 {
        hc.record_probe_result(0, true, t * 100);
    }
    assert_eq!(hc.get_server_status("s1"), Some(ServerStatus::Maintenance));
    hc.set_server_maintenance("s1", false);
    assert_eq!(hc.get_server_status("s1"), Some(ServerStatus::Up));
}

#[test]
fn snapshot_lists_all_probed_servers() {
    let hc = HealthChecker::new(&backend_two_checked());
    let snap = hc.get_all_server_statuses();
    assert_eq!(snap.len(), 2);
    assert_eq!(snap[0].0, "s1");
    assert_eq!(snap[1].0, "s2");
    assert_eq!(hc.get_all_servers(), vec!["s1".to_string(), "s2".to_string()]);
    assert_eq!(hc.get_server_status("missing"), None);
}

#[test]
fn durations_parse_with_suffixes() {
    assert_eq!(parse_duration(b"200ms"), Some(200));
    assert_eq!(parse_duration(b"2s"), Some(2000));
    assert_eq!(parse_duration(b"1m"), Some(60000));
    assert_eq!(parse_duration(b"1h"), Some(3600000));
    assert_eq!(parse_duration(b"5"), Some(5000));
    assert_eq!(parse_duration(b"abc"), None);
    assert_eq!(parse_duration(b""), None);
}
