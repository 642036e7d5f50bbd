use dsh_mobile_gateway::admin::{
    admin_revoke_token_handler, admin_tokens_handler, AdminRevokeRequest,
};
use dsh_mobile_gateway::auth::{
    auth_middleware, devices_handler, revoke_handler, AuthedDevice, LoginRateLimiter, RevokeRequest,
};
use dsh_mobile_gateway::config::Config;
use dsh_mobile_gateway::db::TokenDb;
use dsh_mobile_gateway::error::AppError;
use dsh_mobile_gateway::http::Headers;
use dsh_mobile_gateway::pair::{
    admin_claim_handler, confirm_handler, poll_handler, start_handler, AdminClaimRequest,
    AdminClaimResponse, PairConfirmRequest, PairConfirmResponse, PairPollRequest, PairPollResponse,
    PairStartRequest, PairStartResponse,
};
use dsh_mobile_gateway::presence::WsPresence;
use dsh_mobile_gateway::tenant::{
    host_create_handler, tenant_auth_middleware, tenant_create_handler, tenant_revoke_handler,
    HostCreateRequest, TenantCreateRequest, TenantCtx, TenantRevokeRequest,
};
use dsh_mobile_gateway::AppState;

const UPSTREAM_HOST: &str = "127.0.0.1:3080";
const PORTS: [u16; 2] = [41001, 41002];

fn config(password_hash: &str) -> Config {
    Config {
        bind: "127.0.0.1".into(),
        port: 0,
        admin_port: 0,
        upstream_addr: "127.0.0.1:41001".into(),
        upstream_host: UPSTREAM_HOST.into(),
        jwt_secret: "mt-test-secret".into(),
        password_hash: password_hash.into(),
        admin_token: String::new(),
        tunnel_sock_dir: None,
        token_ttl_days: 30,
        database_path: String::new(),
        tunnel_port_min: 1024,
        tunnel_port_max: 65535,
        web_hostname: "".into(),
        web_bind: "127.0.0.1".into(),
        web_port: 0,
        web_password_hash: "".into(),
        web_upstream_port: None,
    }
}

fn state_of(config: Config) -> AppState {
    AppState {
        config,
        db: TokenDb::open_in_memory(),
        login_limiter: LoginRateLimiter::new(),
        pair_limiter: LoginRateLimiter::new_pairing(),
        admin_limiter: LoginRateLimiter::new_limits(300, 300),
        ws_sessions: WsPresence::new(),
    }
}

fn headers(fields: &[(&str, &str)]) -> Headers {
    let mut out = Headers::new();
    for (name, value) in fields {
        out.append(name, value.as_bytes().to_vec());
    }
    out
}

/// The code and the secret that a phone makes.
fn phone_materials(seed: u32) -> (String, String) {
    const CHARS: &[u8] = b"ABCDEFGHJKMNPQRSTUVWXYZ23456789";
    let mut x = seed.wrapping_mul(2654435761) | 1;
    let mut code = String::new();
    for _ in 0..10 {
        code.push(CHARS[(x as usize) % CHARS.len()] as char);
        x = x.rotate_left(3).wrapping_add(0x9E3779B9);
    }
    let secret = format!("s{:06x}abcdefghijklmnopqrstuvwxyz0123456789", seed);
    (code, secret)
}

fn operator() -> TenantCtx {
    TenantCtx { id: "default".into(), operator: true }
}

fn start(
    state: &mut AppState,
    code: &str,
    secret: &str,
    device: &str,
    tenant: &str,
) -> Result<PairStartResponse, AppError> {
    let req = PairStartRequest {
        code: code.into(),
        secret: secret.into(),
        device: device.into(),
        tenant: tenant.into(),
    };
    start_handler(state, &headers(&[]), &req)
}

fn claim(
    state: &mut AppState,
    ctx: &TenantCtx,
    code: &str,
    host_code: &str,
    label: &str,
    port: u16,
) -> Result<AdminClaimResponse, AppError> {
    let req = AdminClaimRequest {
        code: code.into(),
        host_code: host_code.into(),
        host_label: label.into(),
        port: Some(port),
    };
    admin_claim_handler(state, ctx, &req)
}

fn poll(state: &mut AppState, id: &str, secret: &str) -> Result<PairPollResponse, AppError> {
    poll_handler(state, &PairPollRequest { pairing_id: id.into(), secret: secret.into() })
}

fn confirm(
    state: &mut AppState,
    id: &str,
    secret: &str,
    claim_id: &str,
    host_code: &str,
) -> Result<PairConfirmResponse, AppError> {
    let req = PairConfirmRequest {
        pairing_id: id.into(),
        secret: secret.into(),
        claim_id: claim_id.into(),
        host_code: host_code.into(),
    };
    confirm_handler(state, &headers(&[]), &req)
}

fn spawn_env() -> AppState {
    state_of(config(""))
}

fn bearer(token: &str) -> Headers {
    headers(&[("authorization", &format!("Bearer {token}"))])
}

fn create_tenant(state: &mut AppState, name: &str) -> (String, String) {
    let made = tenant_create_handler(state, &TenantCreateRequest { name: name.into() }).unwrap();
    assert_eq!(made.name, name);
    (made.id, made.admin_key)
}

fn register_host(state: &mut AppState, tenant_id: &str, port: u16) -> Result<(), u16> {
    let req = HostCreateRequest { tenant_id: tenant_id.into(), label: "host".into(), port };
    host_create_handler(state, &req).map(|_| ()).map_err(|e| e.status())
}

fn device(state: &mut AppState, token: &str) -> AuthedDevice {
    auth_middleware(state, &bearer(token)).unwrap()
}

/// A claim on the public listener with a tenant key; the status of the answer.
fn tenant_claim(
    state: &mut AppState,
    key: &str,
    code: &str,
    host_code: &str,
    label: &str,
    port: u16,
) -> u16 {
    let ctx = match tenant_auth_middleware(state, &bearer(key)) {
        Ok(ctx) => ctx,
        Err(refusal) => return refusal.status,
    };
    match claim(state, &ctx, code, host_code, label, port) {
        Ok(_) => 200,
        Err(e) => e.status(),
    }
}

#[test]
fn tenant_lifecycle_port_ownership_and_scoped_devices() {
    let mut state = spawn_env();
    let (tenant_a, key_a) = create_tenant(&mut state, "alpha");
    let (tenant_b, key_b) = create_tenant(&mut state, "beta");
    assert_eq!(register_host(&mut state, &tenant_a, PORTS[0]), Ok(()));
    assert_eq!(register_host(&mut state, &tenant_b, PORTS[1]), Ok(()));
    assert_eq!(register_host(&mut state, &tenant_b, PORTS[0]), Err(500));

    assert_eq!(tenant_auth_middleware(&mut state, &headers(&[])).unwrap_err().status, 401);
    assert_eq!(tenant_claim(&mut state, "bogus-key", "AAAAAAAAAA", "", "", 0), 401);

    let (code, secret) = phone_materials(7);
    let id = start(&mut state, &code, &secret, "phone-a", &tenant_a).unwrap().pairing_id;
    assert_eq!(tenant_claim(&mut state, &key_b, &code, "AB3456", "mac-b", PORTS[1]), 404);
    assert_eq!(tenant_claim(&mut state, &key_a, &code, "AB3456", "mac-a", PORTS[1]), 403);
    assert_eq!(tenant_claim(&mut state, &key_a, &code, "AB3456", "mac-a", PORTS[0]), 200);

    let seen = poll(&mut state, &id, &secret).unwrap();
    assert_eq!(seen.status, "offers");
    assert_eq!(seen.offers.len(), 1);
    let offer = &seen.offers[0];
    let token_a = confirm(&mut state, &id, &secret, &offer.claim_id, &offer.host_code).unwrap();
    assert_eq!(token_a.host_ref, PORTS[0].to_string());
    let jwt_a = token_a.token;

    let (code_b, secret_b) = phone_materials(8);
    let id_b = start(&mut state, &code_b, &secret_b, "phone-b", "").unwrap().pairing_id;
    assert_eq!(tenant_claim(&mut state, &key_b, &code_b, "XYZ789", "mac-b", PORTS[1]), 200);
    let offer_b = &poll(&mut state, &id_b, &secret_b).unwrap().offers[0];
    let token_b =
        confirm(&mut state, &id_b, &secret_b, &offer_b.claim_id, &offer_b.host_code).unwrap();
    let jwt_b = token_b.token;

    let a = device(&mut state, &jwt_a);
    let rows_a = devices_handler(&state, &a);
    assert_eq!(rows_a.len(), 1);
    assert_eq!(rows_a[0].tenant_id, tenant_a);

    let jti_b = device(&mut state, &jwt_b).jti;
    let cross = revoke_handler(&mut state, &a, &RevokeRequest { jti: jti_b.clone() });
    assert!(!cross.revoked);
    assert!(auth_middleware(&mut state, &bearer(&jwt_b)).is_ok());

    let ctx_a = tenant_auth_middleware(&mut state, &bearer(&key_a)).unwrap();
    assert_eq!(admin_tokens_handler(&state, &ctx_a).len(), 1);
    let jti_a = a.jti.clone();
    let own = admin_revoke_token_handler(&mut state, &ctx_a, &AdminRevokeRequest { jti: jti_a });
    assert!(own.revoked);
    let op = admin_revoke_token_handler(
        &mut state,
        &operator(),
        &AdminRevokeRequest { jti: jti_b },
    );
    assert!(op.revoked);

    let gone = tenant_revoke_handler(&mut state, &TenantRevokeRequest { id: tenant_b }).unwrap();
    assert!(gone.revoked);
    assert_eq!(tenant_auth_middleware(&mut state, &bearer(&key_b)).unwrap_err().status, 401);
}

#[test]
fn operator_legacy_and_tenant_requires_registered_host() {
    let mut state = spawn_env();
    let (tenant_a, key_a) = create_tenant(&mut state, "alpha");
    let (code, secret) = phone_materials(11);
    assert!(!start(&mut state, &code, &secret, "p", "").unwrap().pairing_id.is_empty());
    assert!(claim(&mut state, &operator(), &code, "AB3456", "op-mac", PORTS[0]).is_ok());

    let (code2, secret2) = phone_materials(12);
    start(&mut state, &code2, &secret2, "p2", "").unwrap();
    assert_eq!(tenant_claim(&mut state, &key_a, &code2, "ABC234", "a-mac", PORTS[1]), 403);
    assert_eq!(register_host(&mut state, &tenant_a, PORTS[1]), Ok(()));
    assert_eq!(tenant_claim(&mut state, &key_a, &code2, "ABC234", "a-mac", PORTS[1]), 200);

    let (code3, secret3) = phone_materials(13);
    start(&mut state, &code3, &secret3, "p3", "").unwrap();
    let refused = claim(&mut state, &operator(), &code3, "ABC345", "op-mac", PORTS[1]);
    assert_eq!(refused.unwrap_err().status(), 403);
}

#[test]
fn anchored_pairing_hides_foreign_offers_and_rejects_direct_confirm() {
    let mut state = spawn_env();
    let (tenant_a, key_a) = create_tenant(&mut state, "alpha");
    let (tenant_b, key_b) = create_tenant(&mut state, "beta");
    register_host(&mut state, &tenant_a, PORTS[0]).unwrap();
    register_host(&mut state, &tenant_b, PORTS[1]).unwrap();

    let (code, secret) = phone_materials(21);
    let id = start(&mut state, &code, &secret, "p", "").unwrap().pairing_id;
    for (key, port, hc) in [(&key_a, PORTS[0], "AAA333"), (&key_b, PORTS[1], "BBB222")] {
        assert_eq!(tenant_claim(&mut state, key, &code, hc, "m", port), 200);
    }
    assert_eq!(poll(&mut state, &id, &secret).unwrap().offers.len(), 2);

    let (code2, secret2) = phone_materials(22);
    let id2 = start(&mut state, &code2, &secret2, "p2", &tenant_a).unwrap().pairing_id;
    assert_eq!(tenant_claim(&mut state, &key_b, &code2, "CCC333", "b-mac", PORTS[1]), 404);
    assert_eq!(tenant_claim(&mut state, &key_a, &code2, "AAA222", "a-mac", PORTS[0]), 200);
    let seen = poll(&mut state, &id2, &secret2).unwrap();
    assert_eq!(seen.offers.len(), 1);
    assert_eq!(seen.offers[0].host_label, "a-mac");
    let wrong = confirm(&mut state, &id2, &secret2, &seen.offers[0].claim_id, "WRONG99");
    assert_eq!(wrong.unwrap_err().status(), 400);
}
