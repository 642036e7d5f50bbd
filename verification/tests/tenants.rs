use dsh_mobile_gateway::auth::LoginRateLimiter;
use dsh_mobile_gateway::config::Config;
use dsh_mobile_gateway::db::TokenDb;
use dsh_mobile_gateway::error::AppError;
use dsh_mobile_gateway::http::Headers;
use dsh_mobile_gateway::presence::WsPresence;
use dsh_mobile_gateway::tenant::{
    constant_time_eq, create_host, create_tenant, generate_tenant_key, host_create_handler,
    host_list_handler, host_remove_handler, key_hash, tenant_auth_middleware, tenant_create_handler,
    tenant_list_handler, tenant_of_request, tenant_revoke_handler, HostCreateRequest,
    HostRemoveRequest, TenantCreateRequest, TenantRevokeRequest,
};
use dsh_mobile_gateway::AppState;

const T: i64 = 1_700_000_000;

fn state() -> AppState {
    AppState {
        config: Config::from_env(&vec![(
            "DSH_GATEWAY_JWT_SECRET".to_string(),
            "s".to_string(),
        )])
        .unwrap(),
        db: TokenDb::open_in_memory(),
        login_limiter: LoginRateLimiter::new(),
        pair_limiter: LoginRateLimiter::new_pairing(),
        admin_limiter: LoginRateLimiter::new_limits(3, 300),
        ws_sessions: WsPresence::new(),
    }
}

fn bearer(key: &str) -> Headers {
    let mut h = Headers::new();
    h.append("authorization", format!("Bearer {key}").into_bytes());
    h
}

fn host(tenant_id: &str, port: u16) -> HostCreateRequest {
    HostCreateRequest { tenant_id: tenant_id.into(), label: "l".repeat(70), port }
}

#[test]
fn keys_are_random_and_kept_as_digests() {
    let a = generate_tenant_key();
    assert_eq!(a.len(), 64);
    assert!(a.chars().all(|c| c.is_ascii_digit() || ('a'..='f').contains(&c)));
    assert_ne!(a, generate_tenant_key());
    assert_eq!(
        key_hash("abc"),
        "ba7816bf8f01cfea414140de5dae2223b00361a396177a9cb410ff61f20015ad"
    );
}

#[test]
fn bytes_are_compared_in_full() {
    assert!(constant_time_eq(b"", b""));
    assert!(constant_time_eq(b"abc", b"abc"));
    assert!(!constant_time_eq(b"abc", b"abd"));
    assert!(!constant_time_eq(b"abc", b"ab"));
    assert!(!constant_time_eq(b"ab", b"abc"));
    assert!(!constant_time_eq(b"ab", b"ab\0"));
}

#[test]
fn tenant_is_known_by_its_key() {
    let mut db = TokenDb::open_in_memory();
    assert_eq!(tenant_of_request(&db, &bearer("k")).unwrap_err().status, 401);
    let req = TenantCreateRequest { name: "n".repeat(70) };
    let made = create_tenant(&mut db, &req, "t-1", "k", T).unwrap();
    assert_eq!((made.id.as_str(), made.name, made.admin_key.as_str()), ("t-1", "n".repeat(70), "k"));
    assert_eq!(db.tenant_by_id("t-1").unwrap().name, "n".repeat(64));
    let ctx = tenant_of_request(&db, &bearer("k")).unwrap();
    assert_eq!((ctx.id.as_str(), ctx.operator), ("t-1", false));
    let refusal = tenant_of_request(&db, &bearer("K")).unwrap_err();
    assert_eq!((refusal.status, refusal.message.as_str()), (401, "tenant key required"));
    match create_tenant(&mut db, &req, "t-1", "k2", T) {
        Err(AppError::Internal(m)) => {
            assert_eq!(m, "tenant insert: UNIQUE constraint failed: tenants.id")
        }
        other => panic!("{other:?}"),
    }
}

#[test]
fn tenant_requests_are_limited() {
    let mut s = state();
    for _ in 0..3 {
        assert_eq!(tenant_auth_middleware(&mut s, &bearer("x")).unwrap_err().status, 401);
    }
    let refusal = tenant_auth_middleware(&mut s, &bearer("x")).unwrap_err();
    assert_eq!(
        (refusal.status, refusal.message.as_str()),
        (429, "too many admin requests, retry later")
    );
}

#[test]
fn tenants_are_created_listed_and_revoked() {
    let mut s = state();
    let made = tenant_create_handler(&mut s, &TenantCreateRequest { name: "a".into() }).unwrap();
    assert!(made.id.starts_with("t-"));
    assert_eq!(made.id.len(), 10);
    assert_eq!(made.admin_key.len(), 64);
    let rows = tenant_list_handler(&s);
    assert_eq!((rows.len(), rows[0].name.as_str(), rows[0].revoked), (1, "a", false));
    let unknown = TenantRevokeRequest { id: "t-none".into() };
    assert!(!tenant_revoke_handler(&mut s, &unknown).unwrap().revoked);
    let own = TenantRevokeRequest { id: "default".into() };
    match tenant_revoke_handler(&mut s, &own) {
        Err(AppError::BadRequest(m)) => {
            assert_eq!(m, "cannot revoke the implicit operator tenant")
        }
        other => panic!("{other:?}"),
    }
    let it = TenantRevokeRequest { id: made.id };
    assert!(tenant_revoke_handler(&mut s, &it).unwrap().revoked);
    assert!(tenant_list_handler(&s)[0].revoked);
}

#[test]
fn hosts_are_created_listed_and_removed() {
    let mut s = state();
    match host_create_handler(&mut s, &host("t-none", 13100)) {
        Err(AppError::BadRequest(m)) => assert_eq!(m, "unknown tenant"),
        other => panic!("{other:?}"),
    }
    match host_create_handler(&mut s, &host("default", 80)) {
        Err(AppError::BadRequest(m)) => assert_eq!(m, "tunnel port must be 13100-13199"),
        other => panic!("{other:?}"),
    }
    let made = host_create_handler(&mut s, &host("default", 13199)).unwrap();
    assert!(made.id.starts_with("h-"));
    assert_eq!((made.port, made.tenant_id.as_str()), (13199, "default"));
    let rows = host_list_handler(&s);
    assert_eq!((rows.len(), rows[0].label.len(), rows[0].enabled), (1, 64, true));
    match create_host(&mut s.db, &s.config, &host("default", 13150), &made.id, T) {
        Err(AppError::Internal(m)) => {
            assert_eq!(m, "host insert: UNIQUE constraint failed: hosts.id")
        }
        other => panic!("{other:?}"),
    }
    match host_create_handler(&mut s, &host("default", 13199)) {
        Err(AppError::Internal(m)) => {
            assert_eq!(m, "host insert: UNIQUE constraint failed: hosts.port")
        }
        other => panic!("{other:?}"),
    }
    assert!(host_remove_handler(&mut s, &HostRemoveRequest { id: made.id.clone() }).removed);
    assert!(!host_remove_handler(&mut s, &HostRemoveRequest { id: made.id }).removed);
    assert!(host_list_handler(&s).is_empty());
}
