//! Behavior of the pool: selection, failure tracking, operator overrides,
//! refresh coordination, and status snapshots.

use credpool::admin::AddCredentialRequest;
use credpool::pool::{CredentialPool, PoolError};
use credpool::record::{parse_auth_method, AuthMethod};
use credpool::refresh::{needs_refresh, RefreshCoordinator};
use credpool::tracker::{FailureKind, PoolConfig, ReportOutcome};

fn test_config() -> PoolConfig {
    PoolConfig { disable_threshold: 3, count_network_failures: false, refresh_margin_secs: 60 }
}

fn add(pool: &mut CredentialPool, token: &str, priority: u32) -> u64 {
    let req = AddCredentialRequest {
        refresh_token: token.to_string(),
        auth_method: "social".to_string(),
        client_id: None,
        client_secret: None,
        priority,
    };
    pool.add_credential(req).expect("valid request")
}

#[test]
fn acquire_picks_lowest_priority_then_lowest_id() {
    let mut pool = CredentialPool::new(test_config());
    let id_b = add(&mut pool, "tok-b", 2);
    let id_a = add(&mut pool, "tok-a", 1);
    let id_c = add(&mut pool, "tok-c", 1);
    // Priority 1 beats priority 2; among the two with priority 1 the lower
    // id (added earlier) wins.
    let h = pool.acquire().expect("pool has enabled records");
    assert_eq!(h.id, id_a);
    assert!(id_a < id_c);
    assert_ne!(h.id, id_b);
    assert_eq!(pool.current, Some(id_a));
    // Re-selection with nothing changed is a no-op: the same record stays
    // current.
    assert_eq!(pool.acquire().unwrap().id, id_a);
    assert_eq!(pool.current, Some(id_a));
}

#[test]
fn acquire_on_empty_pool_is_exhausted() {
    let mut pool = CredentialPool::new(test_config());
    assert_eq!(pool.acquire().unwrap_err(), PoolError::PoolExhausted);
}

#[test]
fn failover_scenario_three_auth_failures_disable_and_switch() {
    // A(priority=1, enabled), B(priority=2, enabled); acquire -> A; three
    // AuthRejected reports with threshold 3 disable A; acquire -> B.
    let mut pool = CredentialPool::new(test_config());
    let id_a = add(&mut pool, "tok-a", 1);
    let id_b = add(&mut pool, "tok-b", 2);
    assert_eq!(pool.acquire().unwrap().id, id_a);
    for _ in 0..3 {
        pool.report(id_a, ReportOutcome::Failure(FailureKind::AuthRejected));
    }
    // The third failure disabled the current record, so the pointer was
    // cleared for re-selection.
    assert_eq!(pool.current, None);
    let snap = pool.snapshot();
    let a_item = snap.credentials.iter().find(|it| it.id == id_a).unwrap();
    assert!(a_item.disabled);
    assert_eq!(a_item.failure_count, 3);
    assert_eq!(pool.acquire().unwrap().id, id_b);
}

#[test]
fn success_resets_failure_count() {
    let mut pool = CredentialPool::new(test_config());
    let id = add(&mut pool, "tok", 0);
    pool.report(id, ReportOutcome::Failure(FailureKind::AuthRejected));
    pool.report(id, ReportOutcome::Failure(FailureKind::AuthRejected));
    assert_eq!(pool.snapshot().credentials[0].failure_count, 2);
    pool.report(id, ReportOutcome::Success);
    let snap = pool.snapshot();
    assert_eq!(snap.credentials[0].failure_count, 0);
    assert!(!snap.credentials[0].disabled);
}

#[test]
fn disabled_exactly_at_threshold_and_never_below() {
    let mut pool = CredentialPool::new(test_config());
    let id = add(&mut pool, "tok", 0);
    pool.report(id, ReportOutcome::Failure(FailureKind::AuthRejected));
    pool.report(id, ReportOutcome::Failure(FailureKind::AuthRejected));
    assert!(!pool.snapshot().credentials[0].disabled);
    pool.report(id, ReportOutcome::Failure(FailureKind::AuthRejected));
    assert!(pool.snapshot().credentials[0].disabled);
}

#[test]
fn network_timeouts_do_not_count_when_configured_off() {
    let mut pool = CredentialPool::new(test_config());
    let id = add(&mut pool, "tok", 0);
    for _ in 0..5 {
        pool.report(id, ReportOutcome::Failure(FailureKind::NetworkTimeout));
    }
    let snap = pool.snapshot();
    assert_eq!(snap.credentials[0].failure_count, 0);
    assert!(!snap.credentials[0].disabled);
}

#[test]
fn network_timeouts_count_when_configured_on() {
    let cfg = PoolConfig {
        disable_threshold: 2,
        count_network_failures: true,
        refresh_margin_secs: 60,
    };
    let mut pool = CredentialPool::new(cfg);
    let id = add(&mut pool, "tok", 0);
    pool.report(id, ReportOutcome::Failure(FailureKind::NetworkTimeout));
    pool.report(id, ReportOutcome::Failure(FailureKind::NetworkTimeout));
    assert!(pool.snapshot().credentials[0].disabled);
}

#[test]
fn report_on_unknown_id_is_a_no_op() {
    let mut pool = CredentialPool::new(test_config());
    let id = add(&mut pool, "tok", 0);
    pool.report(id + 17, ReportOutcome::Failure(FailureKind::AuthRejected));
    let snap = pool.snapshot();
    assert_eq!(snap.total, 1);
    assert_eq!(snap.credentials[0].failure_count, 0);
}

#[test]
fn disabling_current_switches_or_exhausts() {
    let mut pool = CredentialPool::new(test_config());
    let id_a = add(&mut pool, "tok-a", 1);
    let id_b = add(&mut pool, "tok-b", 2);
    let first = pool.acquire().unwrap().id;
    assert_eq!(first, id_a);
    pool.set_disabled(id_a, true).unwrap();
    assert_eq!(pool.current, None);
    let second = pool.acquire().unwrap().id;
    assert_ne!(second, first);
    assert_eq!(second, id_b);
    pool.set_disabled(id_b, true).unwrap();
    assert_eq!(pool.acquire().unwrap_err(), PoolError::PoolExhausted);
}

#[test]
fn operator_overrides_fail_with_not_found() {
    let mut pool = CredentialPool::new(test_config());
    assert_eq!(pool.set_disabled(99, true).unwrap_err(), PoolError::NotFound);
    assert_eq!(pool.set_priority(99, 5).unwrap_err(), PoolError::NotFound);
    assert_eq!(
        pool.store_refreshed_token(99, "at".to_string(), 123).unwrap_err(),
        PoolError::NotFound
    );
}

#[test]
fn set_priority_changes_next_selection() {
    let mut pool = CredentialPool::new(test_config());
    let id_a = add(&mut pool, "tok-a", 1);
    let id_b = add(&mut pool, "tok-b", 2);
    assert_eq!(pool.acquire().unwrap().id, id_a);
    pool.set_priority(id_b, 0).unwrap();
    assert_eq!(pool.acquire().unwrap().id, id_b);
}

#[test]
fn add_credential_validation_errors() {
    let mut pool = CredentialPool::new(test_config());
    let empty_token = AddCredentialRequest {
        refresh_token: String::new(),
        auth_method: "social".to_string(),
        client_id: None,
        client_secret: None,
        priority: 0,
    };
    assert_eq!(pool.add_credential(empty_token).unwrap_err(), PoolError::InvalidRequest);
    let idc_without_secret = AddCredentialRequest {
        refresh_token: "tok".to_string(),
        auth_method: "IdC".to_string(),
        client_id: Some("cid".to_string()),
        client_secret: None,
        priority: 0,
    };
    assert_eq!(pool.add_credential(idc_without_secret).unwrap_err(), PoolError::InvalidRequest);
    let idc_full = AddCredentialRequest {
        refresh_token: "tok".to_string(),
        auth_method: "IdC".to_string(),
        client_id: Some("cid".to_string()),
        client_secret: Some("SECRET-REDACTED".to_string()),
        priority: 0,
    };
    let id = pool.add_credential(idc_full).unwrap();
    assert_eq!(pool.snapshot().credentials.len(), 1);
    assert_eq!(pool.snapshot().credentials[0].id, id);
    assert_eq!(pool.snapshot().credentials[0].auth_method.as_deref(), Some("idc"));
}

#[test]
fn parse_auth_method_accepts_idc_in_any_case() {
    assert_eq!(parse_auth_method("idc"), AuthMethod::IdC);
    assert_eq!(parse_auth_method("IdC"), AuthMethod::IdC);
    assert_eq!(parse_auth_method("IDC"), AuthMethod::IdC);
    assert_eq!(parse_auth_method("social"), AuthMethod::Social);
    assert_eq!(parse_auth_method(""), AuthMethod::Social);
    assert_eq!(parse_auth_method("idcx"), AuthMethod::Social);
}

#[test]
fn snapshot_reports_counts_current_and_expiry() {
    let mut pool = CredentialPool::new(test_config());
    let id_a = add(&mut pool, "tok-a", 1);
    let id_b = add(&mut pool, "tok-b", 2);
    pool.store_refreshed_token(id_b, "access".to_string(), 1700000000).unwrap();
    pool.set_disabled(id_b, true).unwrap();
    let h = pool.acquire().unwrap();
    assert_eq!(h.id, id_a);
    let snap = pool.snapshot();
    assert_eq!(snap.total, 2);
    assert_eq!(snap.available, 1);
    assert_eq!(snap.current_id, id_a);
    let a_item = snap.credentials.iter().find(|it| it.id == id_a).unwrap();
    let b_item = snap.credentials.iter().find(|it| it.id == id_b).unwrap();
    assert!(a_item.is_current);
    assert!(!b_item.is_current);
    assert_eq!(a_item.expires_at, None);
    assert_eq!(b_item.expires_at.as_deref(), Some("1700000000"));
    assert_eq!(a_item.auth_method.as_deref(), Some("social"));
}

#[test]
fn refresh_write_back_keeps_health_state() {
    let mut pool = CredentialPool::new(test_config());
    let id = add(&mut pool, "tok", 0);
    pool.report(id, ReportOutcome::Failure(FailureKind::AuthRejected));
    pool.store_refreshed_token(id, "fresh-access".to_string(), 42).unwrap();
    let snap = pool.snapshot();
    // Refresh success is not a usage success: the failure count stays.
    assert_eq!(snap.credentials[0].failure_count, 1);
    assert_eq!(snap.credentials[0].expires_at.as_deref(), Some("42"));
    let h = pool.acquire().unwrap();
    assert_eq!(h.access_token.as_deref(), Some("fresh-access"));
    assert_eq!(h.expires_at, Some(42));
}

#[test]
fn needs_refresh_on_absent_past_and_margin() {
    let cfg = test_config();
    let mut p = CredentialPool::new(cfg);
    let i = add(&mut p, "t", 0);
    // Absent expiry: refresh must be attempted.
    assert!(needs_refresh(p.records[0].expires_at, 1000, cfg));
    p.store_refreshed_token(i, "a".to_string(), 900).unwrap();
    assert!(needs_refresh(p.records[0].expires_at, 1000, cfg)); // already past
    p.store_refreshed_token(i, "a".to_string(), 1059).unwrap();
    assert!(needs_refresh(p.records[0].expires_at, 1000, cfg)); // within the 60 s margin
    p.store_refreshed_token(i, "a".to_string(), 1061).unwrap();
    assert!(!needs_refresh(p.records[0].expires_at, 1000, cfg)); // comfortably fresh
}

#[test]
fn refresh_slot_is_exclusive_per_id() {
    let mut coord = RefreshCoordinator::new();
    assert!(coord.begin_refresh(7));
    // A concurrent caller for the same id must not start a second call.
    assert!(!coord.begin_refresh(7));
    // An unrelated id is not blocked.
    assert!(coord.begin_refresh(8));
    coord.end_refresh(7);
    assert!(coord.begin_refresh(7));
    coord.end_refresh(7);
    coord.end_refresh(8);
}
