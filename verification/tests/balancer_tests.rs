use turbogate::balancer::{BackendLoadBalancer, ServerState, RoundRobinBalancer, fnv1a_hash};
use turbogate::config::ServerConfig;
use turbogate::health::ServerStatus;

fn server(name: &str, port: u16, weight: u32) -> ServerConfig {
    ServerConfig {
        name: name.to_string(),
        address: "127.0.0.1".to_string(),
        port,
        weight: Some(weight),
        maxconn: None,
        check: None,
        inter: None,
        rise: None,
        fall: None,
        backup: None,
        disabled: None,
    }
}

#[test]
fn round_robin_alternates() {
    let servers = vec![server("s1", 9001, 1), server("s2", 9002, 1)];
    let mut lb = BackendLoadBalancer::new(servers, "roundrobin").unwrap();
    let picks: Vec<usize> = (0..4).map(|_| lb.select_server(0).unwrap()).collect();
    // deterministic alternation between the two servers
    assert_eq!(picks[0], picks[2]);
    assert_eq!(picks[1], picks[3]);
    assert_ne!(picks[0], picks[1]);
    let names: Vec<String> = picks.iter().map(|&i| lb.get_server(i).config.name.clone()).collect();
    assert!(names.contains(&"s1".to_string()));
    assert!(names.contains(&"s2".to_string()));
}

#[test]
fn round_robin_empty_pool() {
    let mut lb = BackendLoadBalancer::new(Vec::new(), "roundrobin").unwrap();
    assert_eq!(lb.select_server(0), None);
}

#[test]
fn weighted_distribution() {
    let servers = vec![server("a", 1, 3), server("b", 2, 2), server("c", 3, 1)];
    let mut lb = BackendLoadBalancer::new(servers, "weighted_roundrobin").unwrap();
    let mut counts = [0usize; 3];
    for _ in 0..60 {
        let i = lb.select_server(0).unwrap();
        counts[i] += 1;
    }
    assert_eq!(counts, [30, 20, 10]);
}

#[test]
fn weighted_schedule_is_smooth_and_deterministic() {
    // weights 3/2/1 walk the levels 3,2,2,1,1,1: the heavy server is spread
    // out, and the whole schedule repeats
    let servers = vec![server("a", 1, 3), server("b", 2, 2), server("c", 3, 1)];
    let mut lb = BackendLoadBalancer::new(servers, "weighted_roundrobin").unwrap();
    let picks: Vec<usize> = (0..12).map(|_| lb.select_server(0).unwrap()).collect();
    assert_eq!(picks, vec![0, 1, 0, 1, 2, 0, 0, 1, 0, 1, 2, 0]);
}

#[test]
fn least_conn_prefers_idle() {
    let servers = vec![server("a", 1, 1), server("b", 2, 1)];
    let mut lb = BackendLoadBalancer::new(servers, "leastconn").unwrap();
    lb.inc_active(0);
    lb.inc_active(0);
    lb.inc_active(1);
    let pick = lb.select_server(0).unwrap();
    assert_eq!(pick, 1);
}

#[test]
fn random_picks_available() {
    let servers = vec![server("a", 1, 1), server("b", 2, 1)];
    let mut lb = BackendLoadBalancer::new(servers, "random").unwrap();
    for _ in 0..20 {
        let i = lb.select_server(0).unwrap();
        assert!(i < 2);
        assert!(lb.get_server(i).is_available());
    }
}

#[test]
fn source_hash_is_sticky() {
    let servers = vec![server("a", 1, 1), server("b", 2, 1), server("c", 3, 1)];
    let mut lb = BackendLoadBalancer::new(servers, "source_hash").unwrap();
    let h = fnv1a_hash("192.0.2.5".as_bytes());
    let first = lb.select_server(h).unwrap();
    for _ in 0..5 {
        assert_eq!(lb.select_server(h).unwrap(), first);
    }
}

#[test]
fn backups_serve_when_no_primary() {
    let mut primary = server("p", 1, 1);
    primary.disabled = Some(true);
    let mut backup = server("bk", 2, 1);
    backup.backup = Some(true);
    let mut lb = BackendLoadBalancer::new(vec![primary, backup], "roundrobin").unwrap();
    let pick = lb.select_server(0).unwrap();
    assert_eq!(lb.get_server(pick).config.name, "bk");
}

#[test]
fn down_servers_are_skipped() {
    let servers = vec![server("a", 1, 1), server("b", 2, 1)];
    let mut lb = BackendLoadBalancer::new(servers, "roundrobin").unwrap();
    lb.set_server_status(0, ServerStatus::Down);
    for _ in 0..4 {
        assert_eq!(lb.select_server(0).unwrap(), 1);
    }
}

#[test]
fn zero_weight_is_excluded() {
    let servers = vec![server("a", 1, 0), server("b", 2, 1)];
    let mut lb = BackendLoadBalancer::new(servers, "roundrobin").unwrap();
    for _ in 0..3 {
        assert_eq!(lb.select_server(0).unwrap(), 1);
    }
}

#[test]
fn server_state_defaults() {
    let s = ServerState::new(server("a", 1, 5));
    assert_eq!(s.weight, 5);
    assert_eq!(s.active_connections, 0);
    assert!(s.is_available());
    assert!(!s.is_backup());
    let mut unweighted = server("b", 2, 1);
    unweighted.weight = None;
    assert_eq!(ServerState::new(unweighted).weight, 1);
}

#[test]
fn unknown_algorithm_falls_back_to_round_robin() {
    let _rr = RoundRobinBalancer::new();
    let servers = vec![server("a", 1, 1), server("b", 2, 1)];
    let mut lb = BackendLoadBalancer::new(servers, "mystery").unwrap();
    let picks: Vec<usize> = (0..4).map(|_| lb.select_server(0).unwrap()).collect();
    assert_eq!(picks[0], picks[2]);
    assert_ne!(picks[0], picks[1]);
}

#[test]
fn fnv_hash_known_value() {
    assert_eq!(fnv1a_hash(b""), 2166136261);
    assert_eq!(fnv1a_hash(b"a"), 0xE40C292C);
}

#[test]
fn round_robin_window_is_fair() {
    // over any window of k whole circles each server is picked k times
    let servers = vec![server("a", 1, 1), server("b", 2, 1), server("c", 3, 1)];
    let mut lb = BackendLoadBalancer::new(servers, "roundrobin").unwrap();
    let mut counts = [0usize; 3];
    for _ in 0..15 {
        counts[lb.select_server(0).unwrap()] += 1;
    }
    assert_eq!(counts, [5, 5, 5]);
}

#[test]
fn active_counters_ledger() {
    // the pool's total active count follows the handlers' ins and outs
    let servers = vec![server("a", 1, 1), server("b", 2, 1)];
    let mut lb = BackendLoadBalancer::new(servers, "roundrobin").unwrap();
    lb.inc_active(0);
    lb.inc_active(1);
    lb.inc_active(1);
    let total = |lb: &BackendLoadBalancer| -> u32 {
        (0..lb.servers_len()).map(|i| lb.get_server(i).active_connections).sum()
    };
    assert_eq!(total(&lb), 3);
    lb.dec_active(1);
    assert_eq!(total(&lb), 2);
    lb.dec_active(0);
    lb.dec_active(0);
    assert_eq!(total(&lb), 1);
}
