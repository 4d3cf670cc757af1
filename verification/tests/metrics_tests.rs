use turbogate::metrics::{
    Metrics, connection_accepted, connection_closed, connection_error, request_started,
    request_completed, request_failed, backend_active_servers, backend_total_servers,
    server_status_changed, health_check, route_request,
};

#[test]
fn counters_accumulate_per_label_set() {
    let mut m = Metrics::new();
    connection_error(&mut m, "fe", "maxconn_limit");
    connection_error(&mut m, "fe", "maxconn_limit");
    connection_error(&mut m, "fe", "rate_limit_exceeded");
    let lab = vec![
        ("frontend".to_string(), "fe".to_string()),
        ("error_type".to_string(), "maxconn_limit".to_string()),
    ];
    assert_eq!(m.value_of("turbogate_connection_errors_total", &lab), 2);
    let other = vec![
        ("frontend".to_string(), "fe".to_string()),
        ("error_type".to_string(), "rate_limit_exceeded".to_string()),
    ];
    assert_eq!(m.value_of("turbogate_connection_errors_total", &other), 1);
}

#[test]
fn active_connections_gauge_moves_both_ways() {
    let mut m = Metrics::new();
    connection_accepted(&mut m, "fe");
    connection_accepted(&mut m, "fe");
    connection_closed(&mut m, "fe");
    let lab = vec![("frontend".to_string(), "fe".to_string())];
    assert_eq!(m.value_of("turbogate_active_connections", &lab), 1);
    assert_eq!(m.value_of("turbogate_connections_total", &lab), 2);
    // the gauge clamps at zero
    connection_closed(&mut m, "fe");
    connection_closed(&mut m, "fe");
    assert_eq!(m.value_of("turbogate_active_connections", &lab), 0);
}

#[test]
fn render_produces_exposition_lines() {
    let mut m = Metrics::new();
    request_started(&mut m, "be", "s1");
    request_started(&mut m, "be", "s1");
    let text = m.render();
    assert_eq!(text, "turbogate_requests_total{backend=\"be\",server=\"s1\"} 2\n");
}

#[test]
fn durations_land_in_sum_and_count() {
    let mut m = Metrics::new();
    request_completed(&mut m, "be", "s1", "success", 12);
    request_completed(&mut m, "be", "s1", "success", 30);
    let lab = vec![
        ("backend".to_string(), "be".to_string()),
        ("server".to_string(), "s1".to_string()),
    ];
    assert_eq!(m.value_of("turbogate_request_duration_ms_sum", &lab), 42);
    assert_eq!(m.value_of("turbogate_request_duration_ms_count", &lab), 2);
    let tagged = vec![
        ("backend".to_string(), "be".to_string()),
        ("server".to_string(), "s1".to_string()),
        ("status".to_string(), "success".to_string()),
    ];
    assert_eq!(m.value_of("turbogate_requests_total", &tagged), 2);
    // the histogram buckets are cumulative: 12 ms fits le=25 and up, 30 ms
    // only le=50 and up, and +Inf counts everything
    let bucket = |le: &str| {
        vec![
            ("backend".to_string(), "be".to_string()),
            ("server".to_string(), "s1".to_string()),
            ("le".to_string(), le.to_string()),
        ]
    };
    assert_eq!(m.value_of("turbogate_request_duration_ms_bucket", &bucket("10")), 0);
    assert_eq!(m.value_of("turbogate_request_duration_ms_bucket", &bucket("25")), 1);
    assert_eq!(m.value_of("turbogate_request_duration_ms_bucket", &bucket("50")), 2);
    assert_eq!(m.value_of("turbogate_request_duration_ms_bucket", &bucket("10000")), 2);
    assert_eq!(m.value_of("turbogate_request_duration_ms_bucket", &bucket("+Inf")), 2);
}

#[test]
fn failures_and_health_checks_are_tagged() {
    let mut m = Metrics::new();
    request_failed(&mut m, "be", "s1", "connection_failed");
    health_check(&mut m, "s1", false);
    health_check(&mut m, "s1", true);
    let f = vec![
        ("backend".to_string(), "be".to_string()),
        ("server".to_string(), "s1".to_string()),
        ("error_type".to_string(), "connection_failed".to_string()),
    ];
    assert_eq!(m.value_of("turbogate_request_errors_total", &f), 1);
    let ok = vec![
        ("server".to_string(), "s1".to_string()),
        ("success".to_string(), "true".to_string()),
    ];
    assert_eq!(m.value_of("turbogate_health_checks_total", &ok), 1);
}

#[test]
fn server_gauges_overwrite() {
    let mut m = Metrics::new();
    backend_active_servers(&mut m, "be", 2);
    backend_active_servers(&mut m, "be", 1);
    backend_total_servers(&mut m, "be", 2);
    server_status_changed(&mut m, "s1", true);
    server_status_changed(&mut m, "s1", false);
    let be = vec![("backend".to_string(), "be".to_string())];
    assert_eq!(m.value_of("turbogate_backend_active_servers", &be), 1);
    assert_eq!(m.value_of("turbogate_backend_total_servers", &be), 2);
    let s = vec![("server".to_string(), "s1".to_string())];
    assert_eq!(m.value_of("turbogate_server_status", &s), 0);
}

#[test]
fn metrics_path_routing() {
    assert!(route_request(b"GET /metrics HTTP/1.1\r\nHost: x\r\n\r\n", "/metrics"));
    assert!(!route_request(b"GET /other HTTP/1.1\r\n\r\n", "/metrics"));
    assert!(!route_request(b"POST /metrics HTTP/1.1\r\n\r\n", "/metrics"));
}
