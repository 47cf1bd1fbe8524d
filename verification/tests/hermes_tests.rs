use multi_contas::hermes::{
    authorized, batch_priority, batch_step, header_field_matches, open_refusal, queue_eta_ms, reason_name, route,
    token_from_file, BatchStep, Method, Route,
};
use multi_contas::orchestrator::ReasonCode;

fn headers(pairs: &[(&str, &str)]) -> Vec<(String, String)> {
    pairs.iter().map(|(a, b)| (a.to_string(), b.to_string())).collect()
}

#[test]
fn token_headers_are_checked() {
    let token = Some("secret".to_string());
    assert!(authorized(&token, &headers(&[("X-Control-Token", "secret")])));
    assert!(authorized(&token, &headers(&[("authorization", "Bearer secret")])));
    assert!(authorized(&token, &headers(&[("Host", "x"), ("AUTHORIZATION", "  Bearer  secret ")])));
    assert!(!authorized(&token, &headers(&[("X-Control-Token", "other")])));
    assert!(!authorized(&token, &headers(&[("Host", "secret")])));
    assert!(!authorized(&None, &headers(&[("X-Control-Token", "secret")])));
    assert!(header_field_matches("x-control-token", "X-Control-Token"));
    assert!(!header_field_matches("x-control", "X-Control-Token"));
    assert_eq!(token_from_file("  abc\n"), "abc");
}

#[test]
fn routes() {
    assert!(matches!(route(Method::Options, "/anything", false), Route::Preflight));
    assert!(matches!(route(Method::Get, "/api/v1/health", false), Route::Forbidden));
    assert!(matches!(route(Method::Get, "/api/v1/health", true), Route::Health));
    assert!(matches!(route(Method::Get, "/api/v1/orchestrator/status", true), Route::OrchestratorStatus));
    assert!(matches!(route(Method::Get, "/api/v1/profiles", true), Route::ListProfiles));
    assert!(matches!(route(Method::Post, "/api/v1/profiles/open-batch", true), Route::OpenBatch));
    assert!(matches!(route(Method::Post, "/api/v1/profiles/open-all", true), Route::OpenAll));
    assert!(matches!(route(Method::Post, "/api/v1/profiles/open-all-and-navigate", true), Route::OpenAllAndNavigate));
    match route(Method::Post, "/api/v1/profiles/abc/open", true) {
        Route::OpenProfile(id) => assert_eq!(id, "abc"),
        r => panic!("unexpected {:?}", r),
    }
    match route(Method::Post, "/api/v1/profiles/abc/close", true) {
        Route::CloseProfile(id) => assert_eq!(id, "abc"),
        r => panic!("unexpected {:?}", r),
    }
    match route(Method::Post, "/api/v1/profiles/x/navigate", true) {
        Route::NavigateProfile(id) => assert_eq!(id, "x"),
        r => panic!("unexpected {:?}", r),
    }
    match route(Method::Post, "/api/v1/profiles/x/comment", true) {
        Route::CommentProfile(id) => assert_eq!(id, "x"),
        r => panic!("unexpected {:?}", r),
    }
    assert!(matches!(route(Method::Get, "/api/v1/profiles/abc/open", true), Route::NotFound));
    assert!(matches!(route(Method::Get, "/nope", true), Route::NotFound));
}

#[test]
fn refusals_and_reasons() {
    let e = open_refusal(ReasonCode::LimitExceeded, "m", 3, vec!["a".to_string()]);
    assert_eq!((e.status, e.error.as_str(), e.reason), (429, "max_active_profiles_reached", Some(ReasonCode::LimitExceeded)));
    assert_eq!((e.limit, e.active.clone(), e.retry_after_ms), (Some(3), vec!["a".to_string()], Some(5000)));
    let e = open_refusal(ReasonCode::ResourceExhausted, "m", 3, vec![]);
    assert_eq!((e.status, e.error.as_str(), e.details.as_deref()), (503, "resource_exhausted", Some("m")));
    let e = open_refusal(ReasonCode::CircuitBreakerOpen, "m", 3, vec![]);
    assert_eq!((e.status, e.error.as_str()), (503, "profile_cooldown"));
    let e = open_refusal(ReasonCode::ProfileNotFound, "gone", 3, vec![]);
    assert_eq!((e.status, e.error.as_str(), e.reason), (500, "gone", None));
    assert_eq!(reason_name(ReasonCode::CircuitBreakerOpen), "circuit_breaker_open");
    assert_eq!(reason_name(ReasonCode::ProfileCooldown), "profile_cooldown");
}

#[test]
fn batch_decisions() {
    assert!(matches!(batch_step(Ok(())), BatchStep::Open));
    assert!(matches!(batch_step(Err((ReasonCode::LimitExceeded, "x".into()))), BatchStep::Queue));
    match batch_step(Err((ReasonCode::ResourceExhausted, "low ram".into()))) {
        BatchStep::Reject(r, m) => {
            assert_eq!(r, ReasonCode::ResourceExhausted);
            assert_eq!(m, "low ram");
        },
        _ => panic!("expected a rejection"),
    }
    assert_eq!(queue_eta_ms(3), 30_000);
    assert_eq!(batch_priority(None), 128);
    assert_eq!(batch_priority(Some(7)), 7);
    assert_eq!(batch_priority(Some(300)), 44);
}

#[test]
fn batch_tally_places_each_profile_once() {
    let mut t = multi_contas::hermes::BatchTally::new();
    t.record_open("a", Ok(9222));
    t.record_open("b", Err("Failed to launch Chrome".to_string()));
    t.record_queue("c", Some(2));
    t.record_queue("d", None);
    t.record_reject("e", ReasonCode::ResourceExhausted, "free_ram 1MB < threshold 512MB");
    assert_eq!(t.opened, vec![("a".to_string(), 9222)]);
    assert_eq!(t.queued, vec![("c".to_string(), 2)]);
    assert_eq!(
        t.rejected,
        vec![
            ("b".to_string(), "Failed to launch Chrome".to_string(), "open_failed".to_string()),
            ("d".to_string(), "queue_disabled".to_string(), "limit_exceeded".to_string()),
            ("e".to_string(), "free_ram 1MB < threshold 512MB".to_string(), "resource_exhausted".to_string()),
        ]
    );
}
