use balancebeam::config::Config;
use balancebeam::config::ConfigError;
use balancebeam::failover::after_connect_failure;
use balancebeam::failover::select_upstream;
use balancebeam::failover::SelectError;
use balancebeam::handler::classify_read;
use balancebeam::handler::prepare_forward;
use balancebeam::handler::ReadAction;
use balancebeam::handler::RequestError;
use balancebeam::health::apply_probe;
use balancebeam::health::build_probe_request;
use balancebeam::health::ProbeOutcome;
use balancebeam::message::extend_header_value;
use balancebeam::message::make_http_error;
use balancebeam::message::HttpRequest;
use balancebeam::message::STATUS_BAD_GATEWAY;
use balancebeam::message::STATUS_BAD_REQUEST;
use balancebeam::message::STATUS_PAYLOAD_TOO_LARGE;
use balancebeam::message::STATUS_TOO_MANY_REQUESTS;
use balancebeam::rate_limit::rate_limit_step;
use balancebeam::rate_limit::RateDecision;
use balancebeam::rate_limit::RateLimitTable;
use balancebeam::registry::UpstreamRegistry;

fn addrs(list: &[&str]) -> Vec<String> {
    list.iter().map(|s| s.to_string()).collect()
}

fn request() -> HttpRequest {
    HttpRequest {
        method: "GET".to_string(),
        uri: "/".to_string(),
        headers: Vec::new(),
        body: Vec::new(),
    }
}

#[test]
fn test_failover_skips_failed_upstreams() {
    // Three upstreams; the first two fail to connect. Selection must then
    // yield the one that is left, and exactly the two failed ones are dead.
    let mut reg = UpstreamRegistry::new(addrs(&["a:1", "b:2", "c:3"]));
    let a = "a:1".to_string();
    let b = "b:2".to_string();
    assert!(!after_connect_failure(&mut reg, &a));
    assert!(!after_connect_failure(&mut reg, &b));
    assert_eq!(reg.snapshot_live(), vec!["c:3".to_string()]);
    assert_eq!(select_upstream(&reg), Ok("c:3".to_string()));
    assert!(!reg.all_dead());
}

#[test]
fn test_failover_all_dead() {
    let mut reg = UpstreamRegistry::new(addrs(&["a:1", "b:2"]));
    let a = "a:1".to_string();
    let b = "b:2".to_string();
    assert!(!after_connect_failure(&mut reg, &a));
    assert!(after_connect_failure(&mut reg, &b));
    assert_eq!(select_upstream(&reg), Err(SelectError::NoUpstreamAvailable));
}

#[test]
fn test_select_returns_a_live_upstream() {
    let reg = UpstreamRegistry::new(addrs(&["a:1", "b:2", "c:3"]));
    let picked = select_upstream(&reg).unwrap();
    assert!(["a:1", "b:2", "c:3"].contains(&picked.as_str()));
}

#[test]
fn test_duplicate_address_is_dead_by_value() {
    // An address configured twice is fully live or fully dead.
    let mut reg = UpstreamRegistry::new(addrs(&["a:1", "a:1"]));
    let a = "a:1".to_string();
    assert!(after_connect_failure(&mut reg, &a));
    assert_eq!(select_upstream(&reg), Err(SelectError::NoUpstreamAvailable));
}

#[test]
fn test_snapshot_keeps_order_and_duplicates() {
    let mut reg = UpstreamRegistry::new(addrs(&["a:1", "b:2", "a:1", "c:3"]));
    let b = "b:2".to_string();
    reg.mark_dead(&b);
    assert_eq!(reg.snapshot_live(), addrs(&["a:1", "a:1", "c:3"]));
}

#[test]
fn test_all_dead_edge_case_persists_until_probe() {
    // One upstream refusing connections: the first connection gets no
    // upstream, a second fresh connection still gets none (the dead set
    // persists), and a healthy probe brings it back.
    let mut reg = UpstreamRegistry::new(addrs(&["only:1"]));
    let only = "only:1".to_string();

    // first client connection: connect fails, registry is exhausted
    let picked = select_upstream(&reg).unwrap();
    assert_eq!(picked, "only:1");
    assert!(after_connect_failure(&mut reg, &picked));

    // the handler replies 502 in that case
    let gateway = make_http_error(STATUS_BAD_GATEWAY);
    assert_eq!(gateway.status, 502);
    assert_eq!(gateway.reason, "Bad Gateway");

    // second client connection: still nothing
    assert_eq!(select_upstream(&reg), Err(SelectError::NoUpstreamAvailable));

    // a healthy probe marks it live again
    apply_probe(&mut reg, &only, ProbeOutcome::Status(200));
    assert_eq!(select_upstream(&reg), Ok("only:1".to_string()));
}

#[test]
fn test_health_check_convergence() {
    // A bad probe puts the address in the dead set after one tick; a good
    // probe takes it out after the next; the latest probe always wins.
    let mut reg = UpstreamRegistry::new(addrs(&["a:1", "b:2"]));
    let a = "a:1".to_string();

    apply_probe(&mut reg, &a, ProbeOutcome::Status(500));
    assert_eq!(reg.snapshot_live(), vec!["b:2".to_string()]);

    apply_probe(&mut reg, &a, ProbeOutcome::Status(200));
    assert_eq!(reg.snapshot_live(), addrs(&["a:1", "b:2"]));

    apply_probe(&mut reg, &a, ProbeOutcome::Failed);
    assert_eq!(reg.snapshot_live(), vec!["b:2".to_string()]);

    apply_probe(&mut reg, &a, ProbeOutcome::Failed);
    apply_probe(&mut reg, &a, ProbeOutcome::Status(200));
    assert_eq!(reg.snapshot_live(), addrs(&["a:1", "b:2"]));
}

#[test]
fn test_probe_request_shape() {
    let req = build_probe_request(&"/health".to_string(), &"up:9000".to_string());
    assert_eq!(req.method, "GET");
    assert_eq!(req.uri, "/health");
    assert_eq!(req.headers, vec![("Host".to_string(), "up:9000".to_string())]);
    assert!(req.body.is_empty());
}

#[test]
fn test_rate_limit_third_request_rejected() {
    // limit 2, one client, three requests in one window: the third is
    // refused; after the window reset the client may send two again.
    let mut table = RateLimitTable::new();
    let ip = "10.0.0.1".to_string();
    assert_eq!(rate_limit_step(&mut table, &ip, 2), RateDecision::Allowed);
    assert_eq!(rate_limit_step(&mut table, &ip, 2), RateDecision::Allowed);
    assert_eq!(rate_limit_step(&mut table, &ip, 2), RateDecision::LimitExceeded);

    table.reset();
    assert_eq!(rate_limit_step(&mut table, &ip, 2), RateDecision::Allowed);
    assert_eq!(rate_limit_step(&mut table, &ip, 2), RateDecision::Allowed);

    // the refusal is what earns the client a 429
    let reply = make_http_error(STATUS_TOO_MANY_REQUESTS);
    assert_eq!(reply.status, 429);
    assert_eq!(reply.reason, "Too Many Requests");
}

#[test]
fn test_rate_limit_zero_disables() {
    let mut table = RateLimitTable::new();
    let ip = "10.0.0.2".to_string();
    for _ in 0..100 {
        assert_eq!(rate_limit_step(&mut table, &ip, 0), RateDecision::Allowed);
    }
}

#[test]
fn test_rate_limit_tracks_clients_separately() {
    let mut table = RateLimitTable::new();
    let one = "10.0.0.1".to_string();
    let two = "10.0.0.2".to_string();
    assert_eq!(rate_limit_step(&mut table, &one, 1), RateDecision::Allowed);
    assert_eq!(rate_limit_step(&mut table, &two, 1), RateDecision::Allowed);
    assert_eq!(rate_limit_step(&mut table, &one, 1), RateDecision::LimitExceeded);
}

#[test]
fn test_annotation_appends_and_keeps_chain() {
    // Forwarding through the proxy twice yields two forwarded-for entries,
    // order preserved, original entries retained.
    let mut req = request();
    req.headers.push(("x-forwarded-for".to_string(), "1.1.1.1".to_string()));
    extend_header_value(&mut req, "x-forwarded-for", "2.2.2.2");
    extend_header_value(&mut req, "x-forwarded-for", "3.3.3.3");
    let chain: Vec<&str> = req
        .headers
        .iter()
        .filter(|(name, _)| name == "x-forwarded-for")
        .map(|(_, value)| value.as_str())
        .collect();
    assert_eq!(chain, vec!["1.1.1.1", "2.2.2.2", "3.3.3.3"]);
}

#[test]
fn test_prepare_forward_annotates_when_allowed() {
    let mut req = request();
    let mut table = RateLimitTable::new();
    let ip = "9.9.9.9".to_string();
    let d = prepare_forward(&mut req, &mut table, &ip, 5);
    assert_eq!(d, RateDecision::Allowed);
    assert_eq!(req.headers, vec![("x-forwarded-for".to_string(), "9.9.9.9".to_string())]);
}

#[test]
fn test_prepare_forward_rejects_and_leaves_request() {
    let mut req = request();
    let mut table = RateLimitTable::new();
    let ip = "9.9.9.9".to_string();
    assert_eq!(prepare_forward(&mut req, &mut table, &ip, 1), RateDecision::Allowed);
    let before = req.headers.clone();
    assert_eq!(prepare_forward(&mut req, &mut table, &ip, 1), RateDecision::LimitExceeded);
    assert_eq!(req.headers, before);
}

#[test]
fn test_malformed_then_wellformed_on_one_connection() {
    // One connection sends a malformed request, then a well-formed one: the
    // first earns a 400 and the connection stays open; the second is handled.
    let first = classify_read(Err(RequestError::Malformed));
    match first {
        ReadAction::RespondAndContinue(status) => assert_eq!(status, STATUS_BAD_REQUEST),
        _ => panic!("a malformed request must earn a reply and keep the connection"),
    }
    let reply = make_http_error(STATUS_BAD_REQUEST);
    assert_eq!(reply.status, 400);
    assert_eq!(reply.reason, "Bad Request");

    let second = classify_read(Ok(request()));
    match second {
        ReadAction::Handle(req) => assert_eq!(req.method, "GET"),
        _ => panic!("a well-formed request must be handled"),
    }
}

#[test]
fn test_read_error_taxonomy() {
    assert!(matches!(classify_read(Err(RequestError::Incomplete(0))), ReadAction::CloseQuietly));
    assert!(matches!(classify_read(Err(RequestError::Connection)), ReadAction::CloseQuietly));
    assert!(matches!(
        classify_read(Err(RequestError::Incomplete(17))),
        ReadAction::RespondAndContinue(STATUS_BAD_REQUEST)
    ));
    assert!(matches!(
        classify_read(Err(RequestError::InvalidContentLength)),
        ReadAction::RespondAndContinue(STATUS_BAD_REQUEST)
    ));
    assert!(matches!(
        classify_read(Err(RequestError::ContentLengthMismatch)),
        ReadAction::RespondAndContinue(STATUS_BAD_REQUEST)
    ));
    assert!(matches!(
        classify_read(Err(RequestError::BodyTooLarge)),
        ReadAction::RespondAndContinue(STATUS_PAYLOAD_TOO_LARGE)
    ));
}

#[test]
fn test_error_replies() {
    let too_large = make_http_error(STATUS_PAYLOAD_TOO_LARGE);
    assert_eq!(too_large.status, 413);
    assert_eq!(too_large.reason, "Payload Too Large");

    let unavailable = make_http_error(503);
    assert_eq!(unavailable.status, 503);
    assert_eq!(unavailable.reason, "Service Unavailable");

    let odd = make_http_error(418);
    assert_eq!(odd.status, 418);
    assert_eq!(odd.reason, "Error");
    assert!(odd.headers.is_empty());
    assert!(odd.body.is_empty());
}

#[test]
fn test_config_requires_an_upstream() {
    let none = Config::new("0.0.0.0:1100".to_string(), Vec::new(), 10, "/".to_string(), 0);
    match none {
        Err(e) => assert_eq!(e, ConfigError::NoUpstreams),
        Ok(_) => panic!("an empty upstream list must be refused"),
    }

    let some = Config::new(
        "0.0.0.0:1100".to_string(),
        addrs(&["up:8080"]),
        10,
        "/".to_string(),
        0,
    )
    .unwrap();
    assert_eq!(some.bind, "0.0.0.0:1100");
    assert_eq!(some.upstreams, vec!["up:8080".to_string()]);
    assert_eq!(some.health_check_interval_secs, 10);
    assert_eq!(some.health_check_path, "/");
    assert_eq!(some.max_requests_per_minute, 0);
}

#[test]
fn test_mark_live_reports_change() {
    let mut reg = UpstreamRegistry::new(addrs(&["a:1"]));
    let a = "a:1".to_string();
    assert!(!reg.mark_live(&a));
    reg.mark_dead(&a);
    assert!(reg.mark_live(&a));
    assert!(!reg.mark_live(&a));
}
