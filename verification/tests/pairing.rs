use dsh_mobile_gateway::admin::admin_status_handler;
use dsh_mobile_gateway::auth::{auth_middleware, login_handler, LoginRateLimiter, LoginRequest};
use dsh_mobile_gateway::config::Config;
use dsh_mobile_gateway::db::TokenDb;
use dsh_mobile_gateway::error::AppError;
use dsh_mobile_gateway::http::Headers;
use dsh_mobile_gateway::pair::{
    admin_claim_handler, confirm_handler, poll_handler, start_handler, AdminClaimRequest,
    AdminClaimResponse, PairConfirmRequest, PairConfirmResponse, PairPollRequest, PairPollResponse,
    PairStartRequest, PairStartResponse,
};
use dsh_mobile_gateway::presence::WsPresence;
use dsh_mobile_gateway::relay::{
    relay_handler, resolve_upstream, tunnel_sock, RelayPlan, UpstreamTarget,
};
use dsh_mobile_gateway::tenant::TenantCtx;
use dsh_mobile_gateway::AppState;

const UPSTREAM_HOST: &str = "127.0.0.1:3080";
const PORTS: [u16; 2] = [41001, 41002];

fn config(password_hash: &str) -> Config {
    Config {
        bind: "127.0.0.1".into(),
        port: 0,
        admin_port: 0,
        upstream_addr: "127.0.0.1:41001".into(),
        upstream_host: UPSTREAM_HOST.into(),
        jwt_secret: "pair-test-secret".into(),
        password_hash: password_hash.into(),
        admin_token: String::new(),
        tunnel_sock_dir: None,
        token_ttl_days: 30,
        database_path: String::new(),
        tunnel_port_min: 1024,
        tunnel_port_max: 65535,
        web_hostname: "".into(),
        web_bind: "127.0.0.1".into(),
        web_port: 0,
        web_password_hash: "".into(),
        web_upstream_port: None,
    }
}

fn state_of(config: Config) -> AppState {
    AppState {
        config,
        db: TokenDb::open_in_memory(),
        login_limiter: LoginRateLimiter::new(),
        pair_limiter: LoginRateLimiter::new_pairing(),
        admin_limiter: LoginRateLimiter::new_limits(300, 300),
        ws_sessions: WsPresence::new(),
    }
}

fn headers(fields: &[(&str, &str)]) -> Headers {
    let mut out = Headers::new();
    for (name, value) in fields {
        out.append(name, value.as_bytes().to_vec());
    }
    out
}

/// The code and the secret that a phone makes.
fn phone_materials(seed: u32) -> (String, String) {
    const CHARS: &[u8] = b"ABCDEFGHJKMNPQRSTUVWXYZ23456789";
    let mut x = seed.wrapping_mul(2654435761) | 1;
    let mut code = String::new();
    for _ in 0..10 {
        code.push(CHARS[(x as usize) % CHARS.len()] as char);
        x = x.rotate_left(3).wrapping_add(0x9E3779B9);
    }
    let secret = format!("s{:06x}abcdefghijklmnopqrstuvwxyz0123456789", seed);
    (code, secret)
}

fn operator() -> TenantCtx {
    TenantCtx { id: "default".into(), operator: true }
}

fn start(
    state: &mut AppState,
    code: &str,
    secret: &str,
    device: &str,
    tenant: &str,
) -> Result<PairStartResponse, AppError> {
    let req = PairStartRequest {
        code: code.into(),
        secret: secret.into(),
        device: device.into(),
        tenant: tenant.into(),
    };
    start_handler(state, &headers(&[]), &req)
}

fn claim(
    state: &mut AppState,
    ctx: &TenantCtx,
    code: &str,
    host_code: &str,
    label: &str,
    port: u16,
) -> Result<AdminClaimResponse, AppError> {
    let req = AdminClaimRequest {
        code: code.into(),
        host_code: host_code.into(),
        host_label: label.into(),
        port: Some(port),
    };
    admin_claim_handler(state, ctx, &req)
}

fn poll(state: &mut AppState, id: &str, secret: &str) -> Result<PairPollResponse, AppError> {
    poll_handler(state, &PairPollRequest { pairing_id: id.into(), secret: secret.into() })
}

fn confirm(
    state: &mut AppState,
    id: &str,
    secret: &str,
    claim_id: &str,
    host_code: &str,
) -> Result<PairConfirmResponse, AppError> {
    let req = PairConfirmRequest {
        pairing_id: id.into(),
        secret: secret.into(),
        claim_id: claim_id.into(),
        host_code: host_code.into(),
    };
    confirm_handler(state, &headers(&[]), &req)
}

fn spawn_env() -> AppState {
    state_of(config(""))
}

#[test]
fn pair_full_flow_binds_token_to_claimed_tunnel_port() {
    let mut state = spawn_env();
    let (code, secret) = phone_materials(1);
    let id = start(&mut state, &code, &secret, "Pixel-9", "").unwrap().pairing_id;
    let first = poll(&mut state, &id, &secret).unwrap();
    assert_eq!(first.status, "waiting");
    assert!(first.offers.is_empty());

    claim(&mut state, &operator(), &code, "ABC234", "mac-mini", PORTS[0]).unwrap();
    claim(&mut state, &operator(), &code, "XYZ789", "mbp", PORTS[1]).unwrap();
    let seen = poll(&mut state, &id, &secret).unwrap();
    assert_eq!(seen.status, "offers");
    assert_eq!(seen.offers.len(), 2);

    let mbp = seen.offers.iter().find(|o| o.host_label == "mbp").unwrap();
    let done = confirm(&mut state, &id, &secret, &mbp.claim_id, &mbp.host_code).unwrap();
    assert_eq!(done.host_label, "mbp");
    assert_eq!(done.host_ref, PORTS[1].to_string());

    let request = headers(&[("authorization", &format!("Bearer {}", done.token))]);
    let device = auth_middleware(&mut state, &request).unwrap();
    assert_eq!(device.upstream_port, Some(PORTS[1]), "token must route to the claimed Mac's tunnel");
    match resolve_upstream(&state.config, device.upstream_port, false) {
        UpstreamTarget::Tcp(addr) => assert_eq!(addr, format!("127.0.0.1:{}", PORTS[1])),
        other => panic!("{other:?}"),
    }
    match relay_handler(&state.config, "POST", Some("/api/echo"), &request) {
        RelayPlan::Http { headers, .. } => assert_eq!(headers.text("host").unwrap(), UPSTREAM_HOST),
        other => panic!("{other:?}"),
    }
    assert_eq!(poll(&mut state, &id, &secret).unwrap().status, "confirmed");
}

#[test]
fn duplicate_live_code_rejected_409() {
    let mut state = spawn_env();
    let (code, s1) = phone_materials(2);
    let s2 = phone_materials(3).1;
    assert!(start(&mut state, &code, &s1, "phone-a", "").is_ok());
    assert_eq!(start(&mut state, &code, &s2, "attacker", "").unwrap_err().status(), 409);
}

#[test]
fn confirm_with_wrong_host_code_rejected() {
    let mut state = spawn_env();
    let (code, secret) = phone_materials(4);
    let id = start(&mut state, &code, &secret, "Pixel", "").unwrap().pairing_id;
    claim(&mut state, &operator(), &code, "ABC234", "mac", PORTS[0]).unwrap();
    let claim_id = poll(&mut state, &id, &secret).unwrap().offers[0].claim_id.clone();
    assert_eq!(confirm(&mut state, &id, &secret, &claim_id, "ZZZ999").unwrap_err().status(), 400);
    assert!(!confirm(&mut state, &id, &secret, &claim_id, "ABC-234").unwrap().token.is_empty());
}

#[test]
fn claim_single_use_and_secret_required() {
    let mut state = spawn_env();
    let (code, secret) = phone_materials(5);
    let id = start(&mut state, &code, &secret, "Pixel", "").unwrap().pairing_id;
    claim(&mut state, &operator(), &code, "ABC234", "mac", PORTS[0]).unwrap();
    let claim_id = poll(&mut state, &id, &secret).unwrap().offers[0].claim_id.clone();
    assert!(!confirm(&mut state, &id, &secret, &claim_id, "ABC234").unwrap().token.is_empty());
    assert_eq!(confirm(&mut state, &id, &secret, &claim_id, "ABC234").unwrap_err().status(), 400);
    assert_eq!(poll(&mut state, &id, "wrong-secret").unwrap_err().status(), 401);
}

#[test]
fn admin_claim_requires_live_pairing_and_port_range() {
    let mut state = spawn_env();
    let r = claim(&mut state, &operator(), "AAAAAAAAAA", "ABC234", "mac", 13100);
    assert_eq!(r.unwrap_err().status(), 404);
    let (code, secret) = phone_materials(6);
    start(&mut state, &code, &secret, "Pixel", "").unwrap();
    let r = claim(&mut state, &operator(), &code, "ABC234", "mac", 80);
    assert_eq!(r.unwrap_err().status(), 400);
    let r = claim(&mut state, &operator(), &code, "ABC234", "mac", 13105).unwrap();
    assert_eq!(r.device, "Pixel");
}

#[test]
fn password_login_disabled_when_hash_absent() {
    let mut state = spawn_env();
    let req = LoginRequest { password: "anything".into(), device: String::new() };
    assert_eq!(login_handler(&mut state, &headers(&[]), &req).unwrap_err().status(), 403);
}

#[test]
fn admin_status_reports_confirmation() {
    let mut state = spawn_env();
    let (code, secret) = phone_materials(7);
    let id = start(&mut state, &code, &secret, "Pixel-9", "").unwrap().pairing_id;
    claim(&mut state, &operator(), &code, "ABC234", "mac-mini", PORTS[0]).unwrap();
    let status = admin_status_handler(&state, &operator(), &Some(code.clone())).unwrap();
    assert_eq!(status.status, "pending");
    assert_eq!(status.device, "Pixel-9");
    assert!(!status.confirmed);
    assert!(status.token.is_none());

    let offer = &poll(&mut state, &id, &secret).unwrap().offers[0];
    confirm(&mut state, &id, &secret, &offer.claim_id, &offer.host_code).unwrap();
    let status = admin_status_handler(&state, &operator(), &Some(code)).unwrap();
    assert!(status.confirmed);
    let token = status.token.unwrap();
    assert_eq!(token.row.device, "Pixel-9");
    assert_eq!(token.row.host_label, "mac-mini");
    assert_eq!(token.host_ref.unwrap(), PORTS[0].to_string());
}

#[test]
fn relay_prefers_unix_socket_when_present() {
    const TUNNEL_PORT: u16 = 13100;
    let mut config = config("");
    config.upstream_addr = "127.0.0.1:1".into();
    config.jwt_secret = "uds-test-secret".into();
    config.tunnel_sock_dir = Some("/tmp/dshgw-uds".into());
    let mut state = state_of(config);
    let (code, secret) = phone_materials(42);
    let id = start(&mut state, &code, &secret, "Pixel-9", "").unwrap().pairing_id;
    claim(&mut state, &operator(), &code, "ABC234", "mac-mini", TUNNEL_PORT).unwrap();
    let offer = &poll(&mut state, &id, &secret).unwrap().offers[0];
    let done = confirm(&mut state, &id, &secret, &offer.claim_id, &offer.host_code).unwrap();

    let request = headers(&[("authorization", &format!("Bearer {}", done.token))]);
    let device = auth_middleware(&mut state, &request).unwrap();
    let sock = tunnel_sock(&state.config, device.upstream_port).unwrap();
    assert_eq!(sock, "/tmp/dshgw-uds/tunnel-13100.sock");
    match resolve_upstream(&state.config, device.upstream_port, true) {
        UpstreamTarget::Unix(path) => assert_eq!(path, sock),
        other => panic!("{other:?}"),
    }
    match relay_handler(&state.config, "POST", Some("/api/echo"), &request) {
        RelayPlan::Http { headers, .. } => assert_eq!(headers.text("host").unwrap(), UPSTREAM_HOST),
        other => panic!("{other:?}"),
    }
    match resolve_upstream(&state.config, device.upstream_port, false) {
        UpstreamTarget::Tcp(addr) => assert_eq!(addr, "127.0.0.1:13100"),
        other => panic!("{other:?}"),
    }
}
