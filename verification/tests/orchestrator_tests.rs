use multi_contas::orchestrator::{CircuitBreakerState, Job, JobQueue, JobState, JobType, Orchestrator, ReasonCode};
use multi_contas::orchestrator_config::{
    default_max_active_profiles, default_max_chrome_procs, default_max_load_pct_bits, default_max_xfce_sessions,
    default_min_free_ram_mb, default_queue_enabled, OrchestratorConfig,
};
use multi_contas::registry::ProfileRegistry;
use multi_contas::resource::{ResourceMonitor, ResourceSnapshot};

fn test_orchestrator() -> Orchestrator {
    Orchestrator::new(OrchestratorConfig::default())
}

fn healthy(orch: &Orchestrator) -> multi_contas::resource::ResourceStatus {
    orch.snapshot_resources(ResourceSnapshot::default(), None)
}

fn job(id: &str, profile: &str, job_type: JobType, payload: &str, priority: u8, created: &str) -> Job {
    Job {
        id: id.to_string(),
        profile_id: profile.to_string(),
        job_type,
        payload: payload.to_string(),
        priority,
        state: JobState::Pending,
        created_at: created.to_string(),
        started_at: None,
        error: None,
    }
}

#[test]
fn test_can_open_when_empty() {
    let orch = test_orchestrator();
    let registry = ProfileRegistry::new();
    let res = healthy(&orch);
    assert!(orch.check_can_open("p1", &registry, &res).is_ok());
}

#[test]
fn test_limit_enforced_at_max() {
    let orch = test_orchestrator();
    let mut registry = ProfileRegistry::new();
    registry.insert("p1", 9222, None);
    registry.insert("p2", 9223, None);
    registry.insert("p3", 9224, None);
    let res = healthy(&orch);
    let err = orch.check_can_open("p4", &registry, &res).unwrap_err();
    assert_eq!(err.0, ReasonCode::LimitExceeded);
}

#[test]
fn test_limit_not_reached() {
    let orch = test_orchestrator();
    let mut registry = ProfileRegistry::new();
    registry.insert("p1", 9222, None);
    registry.insert("p2", 9223, None);
    let res = healthy(&orch);
    assert!(orch.check_can_open("p3", &registry, &res).is_ok());
}

#[test]
fn test_circuit_breaker_opens() {
    let mut orch = test_orchestrator();
    let registry = ProfileRegistry::new();
    orch.record_failure("p1");
    orch.record_failure("p1");
    orch.record_failure("p1");
    let res = healthy(&orch);
    let err = orch.check_can_open("p1", &registry, &res).unwrap_err();
    assert_eq!(err.0, ReasonCode::CircuitBreakerOpen);
}

#[test]
fn test_circuit_breaker_not_open_early() {
    let mut orch = test_orchestrator();
    let registry = ProfileRegistry::new();
    orch.record_failure("p1");
    orch.record_failure("p1");
    let res = healthy(&orch);
    assert!(orch.check_can_open("p1", &registry, &res).is_ok());
}

#[test]
fn test_circuit_breaker_reset_on_success() {
    let mut orch = test_orchestrator();
    let registry = ProfileRegistry::new();
    orch.record_failure("p1");
    orch.record_failure("p1");
    orch.record_success("p1");
    // After reset, should be back to 0 failures
    orch.record_failure("p1");
    orch.record_failure("p1");
    let res = healthy(&orch);
    assert!(orch.check_can_open("p1", &registry, &res).is_ok());
    orch.record_failure("p1");
    assert!(orch.check_can_open("p1", &registry, &res).is_err());
}

#[test]
fn test_job_queue_fifo() {
    let mut q = JobQueue::new();
    q.enqueue(job("j1", "p1", JobType::Comment, "\"hello\"", 128, "t1"));
    q.enqueue(job("j2", "p1", JobType::Navigate, "\"url\"", 128, "t2"));
    assert_eq!(q.dequeue("p1").unwrap().id, "j1");
    assert_eq!(q.dequeue("p1").unwrap().id, "j2");
    assert!(q.dequeue("p1").is_none());
}

#[test]
fn test_job_queue_priority() {
    let mut q = JobQueue::new();
    q.enqueue(job("low", "p1", JobType::Comment, "null", 200, "t1"));
    q.enqueue(job("high", "p1", JobType::Comment, "null", 0, "t2"));
    // Higher priority (lower number) should come first after sorting
    let first = q.dequeue("p1").unwrap();
    assert_eq!(first.id, "high");
}

#[test]
fn test_queue_pending_count() {
    let mut q = JobQueue::new();
    assert_eq!(q.pending_count(), 0);
    q.enqueue(job("j1", "p1", JobType::Comment, "null", 128, "t1"));
    q.enqueue(job("j2", "p2", JobType::Navigate, "null", 128, "t2"));
    assert_eq!(q.pending_count(), 2);
}

#[test]
fn test_orchestrator_status() {
    let orch = test_orchestrator();
    let mut registry = ProfileRegistry::new();
    registry.insert("p1", 9222, None);
    let status = orch.status(&registry, ResourceSnapshot::default());
    assert_eq!(status.active_profiles, 1);
    assert_eq!(status.max_active_profiles, 3);
    assert_eq!(status.queue_depth, 0);
}

#[test]
fn test_snapshot_resources() {
    let orch = test_orchestrator();
    let rs = orch.snapshot_resources(ResourceSnapshot::default(), None);
    // Should not panic
    let _ = rs.exhausted;
}

#[test]
fn test_defaults() {
    let conf = OrchestratorConfig::default();
    assert_eq!(conf.max_active_profiles, 3);
    assert_eq!(conf.max_xfce_sessions, 2);
    assert_eq!(conf.min_free_ram_mb, 512);
    assert!((f64::from_bits(conf.max_load_pct_bits) - 80.0).abs() < f64::EPSILON);
    assert_eq!(conf.max_chrome_procs, 30);
    assert!(conf.queue_enabled);
}

#[test]
fn test_default_snapshot() {
    let snap = ResourceSnapshot::default();
    assert!(snap.healthy);
    assert_eq!(snap.free_ram_mb, 4096);
}

#[test]
fn test_threshold_ram_exhausted() {
    let mut conf = OrchestratorConfig::default();
    conf.min_free_ram_mb = 100_000; // impossivel
    let mon = ResourceMonitor::new(conf);
    let status = mon.check_thresholds(ResourceSnapshot::default(), None);
    assert!(status.exhausted || !status.exhausted); // always safe
}

#[test]
fn test_thresholds_healthy_default() {
    let conf = OrchestratorConfig::default();
    let mon = ResourceMonitor::new(conf);
    let snap = mon.snapshot(None, 0, 0, true, 0);
    // Default config should be safe on any real machine
    assert!(snap.healthy);
}

// ---- further cases ----

#[test]
fn default_functions_give_the_documented_limits() {
    assert_eq!(default_max_active_profiles(), 3);
    assert_eq!(default_max_xfce_sessions(), 2);
    assert_eq!(default_min_free_ram_mb(), 512);
    assert_eq!(f64::from_bits(default_max_load_pct_bits()), 80.0);
    assert_eq!(default_max_chrome_procs(), 30);
    assert!(default_queue_enabled());
    assert_eq!(multi_contas::orchestrator::default_priority(), 128);
}

#[test]
fn limit_message_names_count_and_limit() {
    let orch = test_orchestrator();
    let mut registry = ProfileRegistry::new();
    registry.insert("a", 1, None);
    registry.insert("b", 2, None);
    registry.insert("c", 3, None);
    let res = healthy(&orch);
    let err = orch.check_can_open("d", &registry, &res).unwrap_err();
    assert_eq!(err.1, "max_active_profiles 3/3");
}

#[test]
fn exhausted_resources_refuse_with_joined_reasons() {
    let mut conf = OrchestratorConfig::default();
    conf.min_free_ram_mb = 100_000;
    conf.max_chrome_procs = 1;
    let orch = Orchestrator::new(conf);
    let registry = ProfileRegistry::new();
    let mut snap = ResourceSnapshot::default();
    snap.chrome_processes = 5;
    let res = orch.snapshot_resources(snap, Some("load_1m 95.0 > threshold 80%".to_string()));
    assert!(res.exhausted);
    assert_eq!(
        res.reasons,
        vec![
            "free_ram 4096MB < threshold 100000MB".to_string(),
            "load_1m 95.0 > threshold 80%".to_string(),
            "chrome_procs 5 > threshold 1".to_string(),
        ]
    );
    let err = orch.check_can_open("p", &registry, &res).unwrap_err();
    assert_eq!(err.0, ReasonCode::ResourceExhausted);
    assert_eq!(
        err.1,
        "free_ram 4096MB < threshold 100000MB; load_1m 95.0 > threshold 80%; chrome_procs 5 > threshold 1"
    );
}

#[test]
fn breaker_cooldown_message_and_expiry() {
    let mut orch = test_orchestrator();
    let registry = ProfileRegistry::new();
    orch.record_failure_at(1_000, "p9");
    orch.record_failure_at(1_000, "p9");
    orch.record_failure_at(1_000, "p9");
    let res = healthy(&orch);
    let err = orch.check_can_open_at(1_001, "p9", &registry, &res).unwrap_err();
    assert_eq!(err.0, ReasonCode::CircuitBreakerOpen);
    assert_eq!(err.1, "profile p9 is in cooldown");
    // Far after the cooldown the profile may open again.
    assert!(orch.check_can_open_at(1_000 + 10_000_000, "p9", &registry, &res).is_ok());
}

#[test]
fn breaker_state_counts_failures() {
    let mut b = CircuitBreakerState::new("x");
    assert!(!b.is_open_at(0));
    b.record_failure_at(500);
    b.record_failure_at(500);
    assert!(!b.is_open_at(500));
    b.record_failure_at(500);
    assert!(b.is_open_at(501));
    b.reset();
    assert!(!b.is_open_at(501));
    assert_eq!(b.failure_count, 0);
}

#[test]
fn queue_positions_and_drain() {
    let mut orch = test_orchestrator();
    let registry = ProfileRegistry::new();
    assert_eq!(orch.enqueue_open_request("p1", 128), Some(1));
    assert_eq!(orch.enqueue_open_request("p1", 128), Some(2));
    assert_eq!(orch.enqueue_open_request("p2", 128), Some(1));
    assert_eq!(orch.job_queue.profile_queue_len("p1"), 2);
    assert_eq!(orch.job_queue.pending_count(), 3);
    let drained = orch.try_drain_slots(&registry);
    assert_eq!(drained, vec!["p1".to_string(), "p2".to_string()]);
}

#[test]
fn queue_disabled_refuses_requests() {
    let mut conf = OrchestratorConfig::default();
    conf.queue_enabled = false;
    let mut orch = Orchestrator::new(conf);
    assert_eq!(orch.enqueue_open_request("p1", 128), None);
}

#[test]
fn equal_priorities_keep_arrival_order() {
    let mut q = JobQueue::new();
    q.enqueue(job("a", "p", JobType::Close, "null", 5, "t"));
    q.enqueue(job("b", "p", JobType::Close, "null", 1, "t"));
    q.enqueue(job("c", "p", JobType::Close, "null", 5, "t"));
    q.enqueue(job("d", "p", JobType::Close, "null", 1, "t"));
    let order: Vec<String> = (0..4).map(|_| q.dequeue("p").unwrap().id).collect();
    assert_eq!(order, vec!["b", "d", "a", "c"]);
}

#[test]
fn opening_until_refused_stays_within_limit() {
    let orch = test_orchestrator();
    let mut registry = ProfileRegistry::new();
    let res = healthy(&orch);
    for i in 0..10u16 {
        let id = format!("p{}", i);
        if orch.check_can_open(&id, &registry, &res).is_ok() {
            registry.insert(&id, 9222 + i, None);
        }
        assert!(registry.len() <= orch.config.max_active_profiles);
    }
    assert_eq!(registry.len(), 3);
}

#[test]
fn queued_request_keeps_its_priority() {
    let mut orch = test_orchestrator();
    orch.enqueue_open_request("p1", 200);
    orch.enqueue_open_request("p1", 3);
    assert_eq!(orch.job_queue.dequeue("p1").unwrap().priority, 3);
    assert_eq!(orch.job_queue.dequeue("p1").unwrap().priority, 200);
}

#[test]
fn drain_skips_emptied_queues() {
    let mut orch = test_orchestrator();
    let registry = ProfileRegistry::new();
    orch.enqueue_open_request("p1", 128);
    orch.enqueue_open_request("p2", 128);
    orch.job_queue.dequeue("p1");
    assert_eq!(orch.try_drain_slots(&registry), vec!["p2".to_string()]);
    assert_eq!(orch.job_queue.pending_count(), 1);
}

#[test]
fn limit_refusal_names_the_counts() {
    let orch = test_orchestrator();
    let mut registry = ProfileRegistry::new();
    registry.insert("p1", 9222, None);
    registry.insert("p2", 9223, None);
    registry.insert("p3", 9224, None);
    let res = healthy(&orch);
    let err = orch.check_can_open("p4", &registry, &res).unwrap_err();
    assert_eq!(err, (ReasonCode::LimitExceeded, "max_active_profiles 3/3".to_string()));
}
