//! Batch import reconciliation, decimal rendering, and the admin
//! response envelopes.

use credpool::admin::{default_auth_method, AdminErrorResponse, SuccessResponse};
use credpool::decimal::u64_to_dec;
use credpool::pool::CredentialPool;
use credpool::reconciler::{import_batch, ImportAccount, ImportCredentials};
use credpool::tracker::PoolConfig;

fn test_config() -> PoolConfig {
    PoolConfig { disable_threshold: 3, count_network_failures: false, refresh_margin_secs: 60 }
}

fn creds(token: Option<&str>) -> ImportCredentials {
    ImportCredentials {
        access_token: None,
        csrf_token: None,
        refresh_token: token.map(|t| t.to_string()),
        client_id: None,
        client_secret: None,
        region: Some("us-east-1".to_string()),
        expires_at: Some(1700000000),
        auth_method: Some("social".to_string()),
        provider: Some("Google".to_string()),
    }
}

fn account(email: Option<&str>, nickname: Option<&str>, token: Option<&str>) -> ImportAccount {
    ImportAccount {
        email: email.map(|e| e.to_string()),
        user_id: None,
        nickname: nickname.map(|n| n.to_string()),
        idp: Some("Google".to_string()),
        credentials: creds(token),
        subscription: None,
        usage: None,
        tags: vec!["imported".to_string()],
        status: Some("active".to_string()),
    }
}

#[test]
fn import_creates_updates_and_fails_independently() {
    let mut pool = CredentialPool::new(test_config());
    let batch = vec![
        account(Some("a@example.com"), None, Some("tok-a")),
        account(None, Some("nick-b"), Some("tok-b")),
        account(None, None, None), // missing refresh token: fails alone
    ];
    let r = import_batch(&mut pool, batch);
    assert_eq!(r.imported_count, 2);
    assert_eq!(r.skipped_count, 0);
    assert_eq!(r.failed_count, 1);
    assert!(!r.success);
    assert_eq!(r.results.len(), 3);
    assert_eq!(r.results[0].identifier, "a@example.com");
    assert!(r.results[0].success);
    assert!(r.results[0].credential_id.is_some());
    assert_eq!(r.results[1].identifier, "nick-b");
    assert_eq!(r.results[2].identifier, "entry-2");
    assert!(!r.results[2].success);
    assert_eq!(r.results[2].credential_id, None);
    assert_eq!(pool.snapshot().total, 2);
}

#[test]
fn import_is_idempotent_on_identical_input() {
    let mut pool = CredentialPool::new(test_config());
    let batch = || vec![
        account(Some("a@example.com"), None, Some("tok-a")),
        account(Some("b@example.com"), None, Some("tok-b")),
    ];
    let first = import_batch(&mut pool, batch());
    assert_eq!(first.imported_count, 2);
    let id_a = first.results[0].credential_id.unwrap();
    // Operator tuning between the runs must survive the second import.
    pool.set_priority(id_a, 9).unwrap();
    pool.set_disabled(id_a, true).unwrap();
    let second = import_batch(&mut pool, batch());
    assert_eq!(second.imported_count, 0);
    assert_eq!(second.skipped_count, 2);
    assert_eq!(second.failed_count, 0);
    assert!(second.success);
    let snap = pool.snapshot();
    assert_eq!(snap.total, 2);
    let a_item = snap.credentials.iter().find(|it| it.id == id_a).unwrap();
    assert_eq!(a_item.priority, 9);
    assert!(a_item.disabled);
    assert_eq!(a_item.failure_count, 0);
}

#[test]
fn duplicate_tokens_in_one_batch_create_one_record() {
    // Two entries share a refresh token but differ in nickname: one record
    // is created, the second entry is counted as skipped, never duplicated.
    let mut pool = CredentialPool::new(test_config());
    let batch = vec![
        account(None, Some("first-nick"), Some("tok-shared")),
        account(None, Some("second-nick"), Some("tok-shared")),
    ];
    let r = import_batch(&mut pool, batch);
    assert_eq!(r.imported_count, 1);
    assert_eq!(r.skipped_count, 1);
    assert_eq!(r.failed_count, 0);
    assert_eq!(pool.snapshot().total, 1);
    // The later entry's metadata won the merge; health fields are pristine.
    assert_eq!(pool.records[0].nickname.as_deref(), Some("second-nick"));
    assert_eq!(pool.records[0].failure_count, 0);
    assert!(!pool.records[0].disabled);
}

#[test]
fn import_validates_idc_client_credentials_per_entry() {
    let mut pool = CredentialPool::new(test_config());
    let mut idc_missing = account(Some("x@example.com"), None, Some("tok-x"));
    idc_missing.credentials.auth_method = Some("IdC".to_string());
    let mut idc_full = account(Some("y@example.com"), None, Some("tok-y"));
    idc_full.credentials.auth_method = Some("idc".to_string());
    idc_full.credentials.client_id = Some("cid".to_string());
    idc_full.credentials.client_secret = Some("SECRET-REDACTED".to_string());
    let r = import_batch(&mut pool, vec![idc_missing, idc_full]);
    assert_eq!(r.failed_count, 1);
    assert_eq!(r.imported_count, 1);
    assert!(!r.results[0].success);
    assert!(r.results[1].success);
}

#[test]
fn import_preserves_health_of_existing_records_it_updates() {
    let mut pool = CredentialPool::new(test_config());
    let first = import_batch(&mut pool, vec![account(Some("a@x.com"), None, Some("tok-a"))]);
    let id = first.results[0].credential_id.unwrap();
    pool.set_priority(id, 4).unwrap();
    // Re-import with changed metadata: nickname updates, health does not.
    let r = import_batch(
        &mut pool,
        vec![account(Some("a@x.com"), Some("renamed"), Some("tok-a"))],
    );
    assert_eq!(r.skipped_count, 1);
    assert_eq!(pool.records[0].nickname.as_deref(), Some("renamed"));
    assert_eq!(pool.records[0].priority, 4);
    assert_eq!(pool.records[0].id, id);
}

#[test]
fn decimal_rendering_exact_values() {
    assert_eq!(u64_to_dec(0), "0");
    assert_eq!(u64_to_dec(7), "7");
    assert_eq!(u64_to_dec(10), "10");
    assert_eq!(u64_to_dec(1234567890), "1234567890");
    assert_eq!(u64_to_dec(u64::MAX), "18446744073709551615");
}

#[test]
fn admin_envelopes_carry_type_tags_and_messages() {
    let ok = SuccessResponse::new("done".to_string());
    assert!(ok.success);
    assert_eq!(ok.message, "done");
    let e = AdminErrorResponse::new("custom_type".to_string(), "boom".to_string());
    assert_eq!(e.error.error_type, "custom_type");
    assert_eq!(e.error.message, "boom");
    assert_eq!(
        AdminErrorResponse::invalid_request("bad".to_string()).error.error_type,
        "invalid_request"
    );
    let auth = AdminErrorResponse::authentication_error();
    assert_eq!(auth.error.error_type, "authentication_error");
    assert_eq!(auth.error.message, "Invalid or missing admin API key");
    assert_eq!(
        AdminErrorResponse::not_found("no such id".to_string()).error.error_type,
        "not_found"
    );
    assert_eq!(
        AdminErrorResponse::api_error("upstream".to_string()).error.error_type,
        "api_error"
    );
    assert_eq!(
        AdminErrorResponse::internal_error("oops".to_string()).error.error_type,
        "internal_error"
    );
    assert_eq!(default_auth_method(), "social");
}
