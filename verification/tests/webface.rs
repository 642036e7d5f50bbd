use dsh_mobile_gateway::auth::{
    auth_middleware, login_handler, LoginRateLimiter, LoginRequest,
};
use dsh_mobile_gateway::config::Config;
use dsh_mobile_gateway::crypto::hash_password;
use dsh_mobile_gateway::db::TokenDb;
use dsh_mobile_gateway::http::Headers;
use dsh_mobile_gateway::presence::WsPresence;
use dsh_mobile_gateway::relay::{relay_handler, RelayPlan};
use dsh_mobile_gateway::web::{
    admin_web_password_get, admin_web_password_post, login_page, login_submit, logout, web_relay,
    LoginForm, WebBody, WebDecision, WebPasswordRequest, WebReply,
};
use dsh_mobile_gateway::AppState;

const WEB_HOST: &str = "web.example.test";
const PASSWORD: &str = "web-password-123";
const UPSTREAM_HOST: &str = "127.0.0.1:3080";

fn config(password_hash: &str) -> Config {
    Config {
        bind: "127.0.0.1".into(),
        port: 0,
        admin_port: 0,
        upstream_addr: "127.0.0.1:13100".into(),
        upstream_host: UPSTREAM_HOST.into(),
        jwt_secret: "web-test-secret".into(),
        password_hash: password_hash.into(),
        admin_token: String::new(),
        tunnel_sock_dir: None,
        token_ttl_days: 30,
        database_path: String::new(),
        tunnel_port_min: 1024,
        tunnel_port_max: 65535,
        web_hostname: WEB_HOST.into(),
        web_bind: "127.0.0.1".into(),
        web_port: 0,
        web_password_hash: password_hash.into(),
        web_upstream_port: None,
    }
}

fn state_of(config: Config) -> AppState {
    AppState {
        config,
        db: TokenDb::open_in_memory(),
        login_limiter: LoginRateLimiter::new(),
        pair_limiter: LoginRateLimiter::new_pairing(),
        admin_limiter: LoginRateLimiter::new_limits(300, 300),
        ws_sessions: WsPresence::new(),
    }
}

fn headers(fields: &[(&str, &str)]) -> Headers {
    let mut out = Headers::new();
    for (name, value) in fields {
        out.append(name, value.as_bytes().to_vec());
    }
    out
}

fn spawn_env(password_hash: &str) -> AppState {
    state_of(config(password_hash))
}

fn argon_hash(password: &str) -> String {
    hash_password(password).unwrap()
}

fn submit(state: &mut AppState, headers: &Headers, password: &str) -> WebReply {
    login_submit(state, headers, &LoginForm { password: password.into(), next: "/".into() })
}

/// Logs in as a browser does; the value of `Set-Cookie`.
fn login(state: &mut AppState, password: &str) -> Result<Option<String>, u16> {
    let origin = format!("https://{WEB_HOST}");
    let reply = submit(state, &headers(&[("origin", &origin)]), password);
    if reply.status != 303 {
        return Err(reply.status);
    }
    Ok(reply.set_cookie)
}

fn cookie_only(set_cookie: &str) -> String {
    set_cookie.split(';').next().unwrap_or("").to_string()
}

fn request(state: &AppState, method: &str, path: &str, fields: &[(&str, &str)]) -> WebDecision {
    web_relay(state, method, path, Some(path), &headers(fields))
}

fn status(decision: WebDecision) -> u16 {
    match decision {
        WebDecision::Reply(r) => r.status,
        WebDecision::Relay { .. } => 200,
    }
}

#[test]
fn host_not_matching_goes_to_app_api() {
    let mut state = spawn_env(&argon_hash(PASSWORD));
    assert_eq!(auth_middleware(&mut state, &headers(&[])).unwrap_err().status(), 401);
}

#[test]
fn disabled_when_no_password() {
    let state = spawn_env("");
    assert_eq!(login_page(&state, &headers(&[])).status, 404);
    assert_eq!(status(request(&state, "GET", "/", &[("accept", "text/html")])), 404);
}

#[test]
fn login_flow_and_relay() {
    let mut state = spawn_env(&argon_hash(PASSWORD));
    match request(&state, "GET", "/", &[("accept", "text/html")]) {
        WebDecision::Reply(r) => {
            assert_eq!(r.status, 303);
            assert_eq!(r.location.unwrap(), "/_gateway/login?next=/");
        }
        other => panic!("{other:?}"),
    }
    match request(&state, "GET", "/api/echo", &[]) {
        WebDecision::Reply(r) => {
            assert_eq!(r.status, 401);
            assert!(matches!(r.body, WebBody::Error(m) if m == "web session required"));
        }
        other => panic!("{other:?}"),
    }
    let page = login_page(&state, &headers(&[]));
    assert_eq!(page.status, 200);
    assert!(matches!(page.body, WebBody::Html(html) if html.contains("DSH")));

    assert_eq!(login(&mut state, "wrong").unwrap_err(), 401);
    let cookie = login(&mut state, PASSWORD).unwrap().expect("set-cookie missing");
    assert!(cookie.contains("HttpOnly"));
    assert!(cookie.contains("SameSite=Strict"));
    assert!(cookie.contains("Max-Age=43200"));

    let sent = cookie_only(&cookie);
    let origin = format!("https://{WEB_HOST}");
    let fields = [
        ("cookie", sent.as_str()),
        ("origin", origin.as_str()),
        ("sec-fetch-site", "same-origin"),
        ("authorization", "Bearer x"),
        ("content-type", "text/plain"),
    ];
    match request(&state, "POST", "/api/echo", &fields) {
        WebDecision::Relay { device, headers, session_end } => {
            assert!(device.jti.starts_with("web:"));
            assert!(session_end.is_some());
            match relay_handler(&state.config, "POST", Some("/api/echo"), &headers) {
                RelayPlan::Http { headers, .. } => {
                    assert_eq!(headers.text("host").unwrap(), UPSTREAM_HOST);
                    assert!(headers.text("authorization").is_none());
                    assert!(headers.text("cookie").is_none());
                    assert!(headers.text("origin").is_none());
                    assert_eq!(headers.text("content-type").unwrap(), "text/plain");
                }
                other => panic!("{other:?}"),
            }
        }
        other => panic!("{other:?}"),
    }
    assert_eq!(status(request(&state, "GET", "/static/logo.png", &[("cookie", &sent)])), 200);
    let back = login_page(&state, &headers(&[("cookie", &sent)]));
    assert_eq!((back.status, back.location.as_deref()), (303, Some("/")));

    let out = logout(&state);
    assert_eq!(out.status, 303);
    assert!(out.set_cookie.unwrap().contains("Max-Age=0"));
}

#[test]
fn csrf_gate_rejects_cross_site() {
    let mut state = spawn_env(&argon_hash(PASSWORD));
    let cross = headers(&[("sec-fetch-site", "cross-site")]);
    assert_eq!(submit(&mut state, &cross, "x").status, 403);
    let cookie = cookie_only(&login(&mut state, PASSWORD).unwrap().unwrap());
    let fields = [("cookie", cookie.as_str()), ("origin", "https://evil.example")];
    assert_eq!(status(request(&state, "POST", "/api/echo", &fields)), 403);
    assert_eq!(status(request(&state, "GET", "/api/echo", &fields)), 200);
}

#[test]
fn admin_rotation_invalidates_sessions() {
    let mut state = spawn_env(&argon_hash(PASSWORD));
    let cookie = cookie_only(&login(&mut state, PASSWORD).unwrap().unwrap());
    assert_eq!(status(request(&state, "POST", "/api/echo", &[("cookie", &cookie)])), 200);

    let rotate = WebPasswordRequest {
        password: "new-password-456".into(),
        hash: String::new(),
        clear: false,
    };
    let set = admin_web_password_post(&mut state, &rotate).unwrap();
    assert!(set.enabled);
    assert_eq!(set.version, Some(1));

    assert_eq!(status(request(&state, "POST", "/api/echo", &[("cookie", &cookie)])), 401);
    assert!(login(&mut state, "new-password-456").is_ok());
    let now = admin_web_password_get(&state);
    assert!(now.enabled);
    assert_eq!(now.source.as_deref(), Some("db"));

    let clear = WebPasswordRequest { password: String::new(), hash: String::new(), clear: true };
    let set = admin_web_password_post(&mut state, &clear).unwrap();
    assert!(!set.enabled);
    let now = admin_web_password_get(&state);
    assert!(now.enabled);
    assert_eq!(now.source.as_deref(), Some("env"));
}

#[test]
fn websocket_with_cookie() {
    let mut state = spawn_env(&argon_hash(PASSWORD));
    let cookie = cookie_only(&login(&mut state, PASSWORD).unwrap().unwrap());
    let fields = [
        ("cookie", cookie.as_str()),
        ("connection", "Upgrade"),
        ("upgrade", "websocket"),
        ("sec-websocket-key", "dGhlIHNhbXBsZSBub25jZQ=="),
    ];
    match request(&state, "GET", "/api/events.mux", &fields) {
        WebDecision::Relay { headers, .. } => {
            match relay_handler(&state.config, "GET", Some("/api/events.mux"), &headers) {
                RelayPlan::WebSocket { request } => {
                    assert!(request.contains("sec-websocket-key: dGhlIHNhbXBsZSBub25jZQ=="));
                    assert!(!request.contains("dshweb"));
                }
                other => panic!("{other:?}"),
            }
        }
        other => panic!("{other:?}"),
    }
}

#[test]
fn app_api_unaffected_by_web_face() {
    let mut state = spawn_env(&argon_hash(PASSWORD));
    let req = LoginRequest { password: PASSWORD.into(), device: "t".into() };
    assert!(!login_handler(&mut state, &headers(&[]), &req).unwrap().token.is_empty());
}

#[test]
fn management_plane_blocked() {
    let state = spawn_env(&argon_hash(PASSWORD));
    for (method, path) in [
        ("GET", "/pair/api/tokens"),
        ("POST", "/pair/api/web-password"),
        ("GET", "/pair/api/label"),
        ("POST", "/pair/api/revoke"),
        ("GET", "/pair"),
    ] {
        let fields = [("cookie", "dshweb=whatever")];
        assert_eq!(status(request(&state, method, path, &fields)), 403, "{method} {path}");
    }
    assert_eq!(status(request(&state, "GET", "/pairs", &[])), 401);
}

#[test]
fn manifest_fetched_without_cookie() {
    let state = spawn_env(&argon_hash(PASSWORD));
    match request(&state, "GET", "/manifest.webmanifest", &[]) {
        WebDecision::Relay { device, session_end, .. } => {
            assert_eq!(device.jti, "web-anon");
            assert_eq!(session_end, None);
        }
        other => panic!("{other:?}"),
    }
    assert_eq!(status(request(&state, "GET", "/static/logo.png", &[])), 401);
    assert_eq!(status(request(&state, "POST", "/manifest.webmanifest", &[])), 401);
}
