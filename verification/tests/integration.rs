use dsh_mobile_gateway::admin::admin_tokens_handler;
use dsh_mobile_gateway::auth::{
    auth_middleware, devices_handler, login_handler, revoke_handler, AuthedDevice, LoginRateLimiter,
    LoginRequest, RevokeRequest,
};
use dsh_mobile_gateway::config::Config;
use dsh_mobile_gateway::crypto::hash_password;
use dsh_mobile_gateway::db::TokenDb;
use dsh_mobile_gateway::http::Headers;
use dsh_mobile_gateway::presence::WsPresence;
use dsh_mobile_gateway::relay::{
    default_upstream_target, healthz, relay_handler, HandshakeReader, HandshakeStep, RelayPlan,
    UpgradeReply, UpstreamTarget,
};
use dsh_mobile_gateway::tenant::{admin_auth_middleware, TenantCtx};
use dsh_mobile_gateway::AppState;

const PASSWORD: &str = "test-password-123";
const UPSTREAM_HOST: &str = "127.0.0.1:3080";

fn config(password_hash: &str) -> Config {
    Config {
        bind: "127.0.0.1".into(),
        port: 0,
        admin_port: 0,
        upstream_addr: "127.0.0.1:13100".into(),
        upstream_host: UPSTREAM_HOST.into(),
        jwt_secret: "test-secret".into(),
        password_hash: password_hash.into(),
        admin_token: String::new(),
        tunnel_sock_dir: None,
        token_ttl_days: 30,
        database_path: String::new(),
        tunnel_port_min: 1024,
        tunnel_port_max: 65535,
        web_hostname: "".into(),
        web_bind: "127.0.0.1".into(),
        web_port: 0,
        web_password_hash: "".into(),
        web_upstream_port: None,
    }
}

fn state_of(config: Config) -> AppState {
    AppState {
        config,
        db: TokenDb::open_in_memory(),
        login_limiter: LoginRateLimiter::new(),
        pair_limiter: LoginRateLimiter::new_pairing(),
        admin_limiter: LoginRateLimiter::new_limits(300, 300),
        ws_sessions: WsPresence::new(),
    }
}

fn headers(fields: &[(&str, &str)]) -> Headers {
    let mut out = Headers::new();
    for (name, value) in fields {
        out.append(name, value.as_bytes().to_vec());
    }
    out
}

fn spawn_all() -> AppState {
    state_of(config(&hash_password(PASSWORD).unwrap()))
}

fn login(state: &mut AppState, password: &str) -> Result<String, u16> {
    let req = LoginRequest { password: password.into(), device: "pytest".into() };
    login_handler(state, &headers(&[]), &req).map(|r| r.token).map_err(|e| e.status())
}

fn bearer(token: &str) -> Headers {
    headers(&[("authorization", &format!("Bearer {token}"))])
}

fn device(state: &mut AppState, token: &str) -> AuthedDevice {
    auth_middleware(state, &bearer(token)).unwrap()
}

fn operator() -> TenantCtx {
    TenantCtx { id: "default".into(), operator: true }
}

#[test]
fn login_rejects_wrong_password() {
    let mut state = spawn_all();
    assert_eq!(login(&mut state, "wrong").unwrap_err(), 401);
}

#[test]
fn relay_requires_bearer_and_rewrites_host() {
    let mut state = spawn_all();
    let plain = headers(&[("content-type", "application/json")]);
    assert_eq!(auth_middleware(&mut state, &plain).unwrap_err().status(), 401);

    let token = login(&mut state, PASSWORD).unwrap();
    let request = headers(&[
        ("host", "gateway.example"),
        ("authorization", &format!("Bearer {token}")),
        ("content-type", "application/json"),
        ("connection", "keep-alive"),
    ]);
    let authed = auth_middleware(&mut state, &request).unwrap();
    assert_eq!(authed.device, "pytest");
    assert_eq!(authed.upstream_port, None);
    match relay_handler(&state.config, "POST", Some("/api/echo"), &request) {
        RelayPlan::Http { path, headers } => {
            assert_eq!(path, "/api/echo");
            assert_eq!(headers.text("host").unwrap(), UPSTREAM_HOST);
            assert!(headers.text("authorization").is_none());
            assert_eq!(headers.text("content-type").unwrap(), "application/json");
            assert_eq!(headers.fields.len(), 2);
        }
        other => panic!("{other:?}"),
    }
}

#[test]
fn revoked_token_is_rejected() {
    let mut state = spawn_all();
    let token = login(&mut state, PASSWORD).unwrap();
    let me = device(&mut state, &token);
    let devices = devices_handler(&state, &me);
    assert_eq!(devices.len(), 1);
    let jti = devices[0].jti.clone();
    assert_eq!(jti, me.jti);

    assert!(revoke_handler(&mut state, &me, &RevokeRequest { jti: jti.clone() }).revoked);
    assert_eq!(auth_middleware(&mut state, &bearer(&token)).unwrap_err().status(), 401);
    assert!(!revoke_handler(&mut state, &me, &RevokeRequest { jti }).revoked);
}

#[test]
fn websocket_end_to_end_echo() {
    let mut state = spawn_all();
    let token = login(&mut state, PASSWORD).unwrap();
    let request = headers(&[
        ("host", "gateway.example"),
        ("authorization", &format!("Bearer {token}")),
        ("connection", "Upgrade"),
        ("upgrade", "websocket"),
        ("sec-websocket-version", "13"),
        ("sec-websocket-key", "dGhlIHNhbXBsZSBub25jZQ=="),
    ]);
    assert!(auth_middleware(&mut state, &request).is_ok());
    let plan = relay_handler(&state.config, "GET", Some("/api/events.mux"), &request);
    match plan {
        RelayPlan::WebSocket { request } => assert_eq!(
            request,
            format!(
                "GET /api/events.mux HTTP/1.1\r\nHost: {UPSTREAM_HOST}\r\nUpgrade: websocket\r\n\
                 Connection: Upgrade\r\nsec-websocket-version: 13\r\n\
                 sec-websocket-key: dGhlIHNhbXBsZSBub25jZQ==\r\n\r\n"
            )
        ),
        other => panic!("{other:?}"),
    }

    let mut reader = HandshakeReader::new();
    assert!(matches!(reader.feed(b"HTTP/1.1 101 Switching Protocols\r\nServer: x\r\n"), HandshakeStep::More));
    let step = reader.feed(
        b"Upgrade: websocket\r\nSec-WebSocket-Accept: s3pPLMBiTxaQ9kYGzzhZRbK+xOo=\r\n\r\nping-through-gateway",
    );
    match step {
        HandshakeStep::Done(UpgradeReply::Switch { headers, leftover }) => {
            assert_eq!(
                headers,
                vec![(
                    "sec-websocket-accept".to_string(),
                    "s3pPLMBiTxaQ9kYGzzhZRbK+xOo=".to_string()
                )]
            );
            assert_eq!(leftover, b"ping-through-gateway".to_vec());
        }
        other => panic!("{other:?}"),
    }
}

#[test]
fn healthz_reports_upstream() {
    let body = healthz(true);
    assert!(body.ok);
    assert!(body.upstream);
    let mut dead = config("");
    dead.upstream_addr = "127.0.0.1:1".into();
    match default_upstream_target(&dead, false) {
        UpstreamTarget::Tcp(addr) => assert_eq!(addr, "127.0.0.1:1"),
        other => panic!("{other:?}"),
    }
    let body = healthz(false);
    assert!(body.ok);
    assert!(!body.upstream);
}

#[test]
fn login_rate_limited_after_burst() {
    let mut state = spawn_all();
    for _ in 0..8 {
        let _ = login(&mut state, "wrong");
    }
    assert_eq!(login(&mut state, PASSWORD).unwrap_err(), 409);
}

#[test]
fn ws_presence_marks_token_connected() {
    let mut state = spawn_all();
    let token = login(&mut state, PASSWORD).unwrap();
    let jti = device(&mut state, &token).jti;
    let connected = |state: &AppState| {
        admin_tokens_handler(state, &operator()).iter().any(|t| t.row.jti == jti && t.connected)
    };
    assert!(!connected(&state));
    state.ws_sessions.enter(&jti);
    assert!(connected(&state));
    state.ws_sessions.enter(&jti);
    state.ws_sessions.leave(&jti);
    assert!(connected(&state));
    assert_eq!(state.ws_online(), vec![jti.clone()]);
    state.ws_sessions.leave(&jti);
    assert!(!connected(&state));
    assert!(state.ws_online().is_empty());
}

#[test]
fn admin_routes_require_bearer_token_when_configured() {
    let mut config = config("");
    config.admin_token = "sekrit-admin-token".into();
    let refused = admin_auth_middleware(&config, &headers(&[])).unwrap_err();
    assert_eq!((refused.status, refused.message.as_str()), (401, "admin token required"));
    let refused = admin_auth_middleware(&config, &bearer("wrong")).unwrap_err();
    assert_eq!((refused.status, refused.message.as_str()), (401, "admin token required"));
    let ctx = admin_auth_middleware(&config, &bearer("sekrit-admin-token")).unwrap();
    assert!(ctx.operator);
    assert_eq!(ctx.id, "default");
    config.admin_token = String::new();
    assert!(admin_auth_middleware(&config, &headers(&[])).unwrap().operator);
}
