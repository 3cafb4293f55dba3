use load_balancer::healthchecker::Healthchecker;
use load_balancer::http_request::Method;
use load_balancer::server::request_handler;
use load_balancer::healthchecks::HealthChecker;
use load_balancer::healthchecks::HealthTransition;
use load_balancer::healthchecks::ProbeOutcome;
use load_balancer::models::Address;
use load_balancer::models::Server;

fn server(healthy: bool) -> Server {
    Server {
        uri: Address { host: "127.0.0.1".to_string(), port: 8081 },
        healthy,
    }
}

#[test]
fn classify_accepts_only_success_status_codes() {
    assert!(!HealthChecker::classify(&ProbeOutcome::Status(199)));
    assert!(HealthChecker::classify(&ProbeOutcome::Status(200)));
    assert!(HealthChecker::classify(&ProbeOutcome::Status(204)));
    assert!(HealthChecker::classify(&ProbeOutcome::Status(299)));
    assert!(!HealthChecker::classify(&ProbeOutcome::Status(300)));
    assert!(!HealthChecker::classify(&ProbeOutcome::Status(404)));
    assert!(!HealthChecker::classify(&ProbeOutcome::Failed));
}

#[test]
fn first_failing_probe_marks_unhealthy_and_notices_once() {
    // after a run of successes the first failure flips the flag and is
    // the only probe that produces a down notice
    let mut s = server(false);

    assert_eq!(
        HealthChecker::observe(&mut s, &ProbeOutcome::Status(200)),
        Some(HealthTransition::BackUp)
    );
    assert!(s.healthy);
    assert_eq!(HealthChecker::observe(&mut s, &ProbeOutcome::Status(200)), None);
    assert_eq!(HealthChecker::observe(&mut s, &ProbeOutcome::Status(204)), None);

    assert_eq!(
        HealthChecker::observe(&mut s, &ProbeOutcome::Failed),
        Some(HealthTransition::WentDown)
    );
    assert!(!s.healthy);

    assert_eq!(HealthChecker::observe(&mut s, &ProbeOutcome::Failed), None);
    assert_eq!(HealthChecker::observe(&mut s, &ProbeOutcome::Status(500)), None);
    assert!(!s.healthy);
}

#[test]
fn record_probe_stores_every_classification() {
    let mut s = server(true);
    Healthchecker::record_probe(&mut s, &ProbeOutcome::Failed);
    assert!(!s.healthy);
    Healthchecker::record_probe(&mut s, &ProbeOutcome::Status(200));
    assert!(s.healthy);
    Healthchecker::record_probe(&mut s, &ProbeOutcome::Status(503));
    assert!(!s.healthy);
}

#[test]
fn backend_replies_with_greeting_status_and_not_found() {
    let (status, body) = request_handler(&Method::GET, "/", "R2D2");
    assert_eq!(status, 200);
    assert_eq!(body, "Hello from server R2D2\n");

    let (status, body) = request_handler(&Method::GET, "/private/status", "R2D2");
    assert_eq!(status, 200);
    assert_eq!(body, "OK\n");

    let (status, body) = request_handler(&Method::GET, "/missing", "R2D2");
    assert_eq!(status, 404);
    assert_eq!(body, "");

    let (status, _) = request_handler(&Method::POST, "/", "R2D2");
    assert_eq!(status, 404);
}

#[test]
fn status_line_reports_address_and_health() {
    let s = server(true);
    assert_eq!(
        Healthchecker::status_line(&s),
        "Server 127.0.0.1:8081 health is true"
    );
    let s = server(false);
    assert_eq!(
        Healthchecker::status_line(&s),
        "Server 127.0.0.1:8081 health is false"
    );
}
