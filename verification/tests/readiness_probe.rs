use agentsview_desktop::readiness::backend_endpoint_ready;
use agentsview_desktop::readiness::backend_url;
use agentsview_desktop::readiness::parse_listening_port;
use agentsview_desktop::readiness::probe_request;
use agentsview_desktop::readiness::version_response_looks_valid;
use agentsview_desktop::readiness::ReadinessClock;
use agentsview_desktop::readiness::READY_POLL_INTERVAL_MS;

#[test]
fn parse_listening_port_extracts_backend_port() {
    let line = "agentsview dev listening at http://127.0.0.1:18080 (started in 1.2s)";
    assert_eq!(parse_listening_port(line), Some(18080));
    assert_eq!(parse_listening_port("unrelated line"), None);
}

#[test]
fn parse_listening_port_ignores_non_listening_urls() {
    let line = "probe successful for http://127.0.0.1:19090/health";
    assert_eq!(parse_listening_port(line), None);
}

#[test]
fn parse_listening_port_rejects_missing_or_oversized_digits() {
    assert_eq!(parse_listening_port("listening at http://127.0.0.1:"), None);
    assert_eq!(
        parse_listening_port("listening at http://127.0.0.1:x80"),
        None
    );
    assert_eq!(
        parse_listening_port("listening at http://127.0.0.1:99999"),
        None
    );
    assert_eq!(
        parse_listening_port("listening at http://127.0.0.1:0 now"),
        Some(0)
    );
    assert_eq!(
        parse_listening_port("listening at http://127.0.0.1:65535"),
        Some(65535)
    );
}

#[test]
fn version_response_requires_identity_fields() {
    let valid = b"HTTP/1.1 200 OK\r\nContent-Type: application/json\r\n\r\n{\"version\":\"1.0.0\",\"commit\":\"abc\",\"build_date\":\"2026-01-01T00:00:00Z\"}";
    assert!(version_response_looks_valid(valid));

    let missing = b"HTTP/1.1 200 OK\r\n\r\n{\"version\":\"1.0.0\"}";
    assert!(!version_response_looks_valid(missing));

    let wrong_status = b"HTTP/1.1 404 Not Found\r\n\r\n{}";
    assert!(!version_response_looks_valid(wrong_status));
}

#[test]
fn version_response_accepts_either_header_terminator_and_protocol() {
    let lf_only = b"HTTP/1.0 200 OK\n\n{\"version\":\"1\",\"commit\":\"c\",\"build_date\":\"d\"}";
    assert!(version_response_looks_valid(lf_only));

    let no_terminator = b"HTTP/1.1 200 OK {\"version\":\"1\",\"commit\":\"c\",\"build_date\":\"d\"}";
    assert!(!version_response_looks_valid(no_terminator));

    let fields_in_headers_only =
        b"HTTP/1.1 200 OK\r\nX: \"version\" \"commit\" \"build_date\"\r\n\r\n{}";
    assert!(!version_response_looks_valid(fields_in_headers_only));
}

#[test]
fn backend_endpoint_ready_requires_a_validated_response() {
    assert!(!backend_endpoint_ready(&None));
    assert!(!backend_endpoint_ready(&Some(
        b"HTTP/1.1 200 OK\r\n\r\n{}".to_vec()
    )));
    assert!(backend_endpoint_ready(&Some(
        b"HTTP/1.1 200 OK\r\n\r\n{\"version\":\"1\",\"commit\":\"c\",\"build_date\":\"d\"}"
            .to_vec()
    )));
}

#[test]
fn probe_request_targets_version_endpoint_on_loopback() {
    assert_eq!(
        probe_request(18080),
        "GET /api/v1/version HTTP/1.1\r\nHost: 127.0.0.1:18080\r\nConnection: close\r\n\r\n"
            .to_string()
    );
}

#[test]
fn backend_url_names_loopback_and_port() {
    assert_eq!(backend_url(8080), "http://127.0.0.1:8080".to_string());
    assert_eq!(backend_url(0), "http://127.0.0.1:0".to_string());
}

#[test]
fn readiness_clock_counts_attempts_up_to_the_deadline() {
    let mut clock = ReadinessClock::new(300);
    let mut attempts: u64 = 0;
    while !clock.deadline_reached() {
        attempts += 1;
        clock.note_failed_attempt();
    }
    assert_eq!(attempts, 300 / READY_POLL_INTERVAL_MS + 1);
    assert!(clock.deadline_reached());
}
