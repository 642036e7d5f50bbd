use dsh_mobile_gateway::auth::{
    authenticate, client_ip, issue_token, login_at, login_handler, GatewayClaims, LoginRateLimiter,
    LoginRequest,
};
use dsh_mobile_gateway::config::Config;
use dsh_mobile_gateway::crypto::{hash_lanes_fit, hash_password};
use dsh_mobile_gateway::db::TokenDb;
use dsh_mobile_gateway::error::AppError;
use dsh_mobile_gateway::http::Headers;
use dsh_mobile_gateway::jwt::{
    decode_jwt, encode_jwt, extract_bearer_token, get_number, get_text, JwtValue,
};
use dsh_mobile_gateway::presence::WsPresence;
use dsh_mobile_gateway::AppState;

const NOW: i64 = 1_700_000_000;

fn config(password_hash: &str) -> Config {
    let mut c =
        Config::from_env(&vec![("DSH_GATEWAY_JWT_SECRET".to_string(), "secret".to_string())])
            .unwrap();
    c.password_hash = password_hash.into();
    c
}

fn headers(fields: &[(&str, &str)]) -> Headers {
    let mut out = Headers::new();
    for (name, value) in fields {
        out.append(name, value.as_bytes().to_vec());
    }
    out
}

fn bearer(token: &str) -> Headers {
    headers(&[("authorization", &format!("Bearer {token}"))])
}

#[test]
fn signed_claims_come_back() {
    let claims = vec![
        ("sub".to_string(), JwtValue::Text("a\"b\\é".into())),
        ("exp".to_string(), JwtValue::Number(NOW)),
        ("n".to_string(), JwtValue::Number(-5)),
    ];
    let token = encode_jwt(&claims, "k").unwrap();
    assert_eq!(token.split('.').count(), 3);
    assert!(token.chars().all(|c| c.is_ascii_alphanumeric() || "-_.".contains(c)));
    let back = decode_jwt(&token, "k", NOW).unwrap();
    assert_eq!(back.len(), 3);
    assert_eq!(get_text(&back, "sub").unwrap(), "a\"b\\é");
    assert_eq!(get_number(&back, "n"), Some(-5));
    assert_eq!(get_number(&back, "sub"), None);
    assert_eq!(get_text(&back, "missing"), None);
    assert!(decode_jwt(&token, "other", NOW).is_none());
    assert!(decode_jwt("no token", "k", NOW).is_none());
    let mut forged = token.clone();
    forged.push('x');
    assert!(decode_jwt(&forged, "k", NOW).is_none());
}

#[test]
fn tokens_expire_after_a_minute_of_grace() {
    let token = issue_token("j", "d", NOW - 10, NOW, "k");
    assert!(decode_jwt(&token, "k", NOW + 60).is_some());
    assert!(decode_jwt(&token, "k", NOW + 61).is_none());
    let no_exp = encode_jwt(&vec![("sub".to_string(), JwtValue::Text("x".into()))], "k").unwrap();
    assert!(decode_jwt(&no_exp, "k", 0).is_none());
}

#[test]
fn device_claims_must_be_complete() {
    let token = issue_token("j", "phone", NOW, NOW + 5, "k");
    let fields = decode_jwt(&token, "k", NOW).unwrap();
    let claims = GatewayClaims::from_fields(&fields).unwrap();
    assert_eq!(
        (claims.sub.as_str(), claims.jti.as_str(), claims.device.as_str(), claims.iat, claims.exp),
        ("dsh-client", "j", "phone", NOW, NOW + 5)
    );
    assert!(GatewayClaims::from_fields(&vec![("exp".to_string(), JwtValue::Number(1))]).is_none());
}

#[test]
fn bearer_token_of_a_request() {
    assert_eq!(extract_bearer_token(&bearer("t")).unwrap(), "t");
    assert_eq!(extract_bearer_token(&headers(&[])).unwrap_err(), 401);
    assert_eq!(extract_bearer_token(&headers(&[("authorization", "Basic t")])).unwrap_err(), 401);
    let mut raw = Headers::new();
    raw.append("authorization", b"Bearer \xff".to_vec());
    assert_eq!(extract_bearer_token(&raw).unwrap_err(), 401);
}

#[test]
fn address_of_a_request() {
    let both = headers(&[("x-forwarded-for", " 9.9.9.9 , 8.8.8.8"), ("x-real-ip", "1.2.3.4")]);
    assert_eq!(client_ip(&both), "1.2.3.4");
    assert_eq!(client_ip(&headers(&[("x-forwarded-for", " 9.9.9.9 , 8.8.8.8")])), "9.9.9.9");
    assert_eq!(client_ip(&headers(&[("x-forwarded-for", " , 8.8.8.8")])), "unknown");
    let mut direct = headers(&[]);
    assert_eq!(client_ip(&direct), "unknown");
    direct.peer = Some("10.0.0.7".into());
    assert_eq!(client_ip(&direct), "10.0.0.7");
}

#[test]
fn login_writes_the_token_down() {
    let config = config(&hash_password("pw").unwrap());
    let mut store = TokenDb::open_in_memory();
    let req = LoginRequest { password: "pw".into(), device: "x".repeat(70) };
    let out = login_at(&mut store, &config, &req, "jti-1", NOW).unwrap();
    assert_eq!(out.expires_at, NOW + 30 * 86_400);
    let rows = store.list();
    assert_eq!(rows.len(), 1);
    assert_eq!(rows[0].device, "x".repeat(64));
    assert_eq!(rows[0].tenant_id, "default");
    assert_eq!(rows[0].upstream_port, None);
    assert_eq!(rows[0].created_at, NOW);

    let device = authenticate(&mut store, "secret", &bearer(&out.token), NOW + 5).unwrap();
    assert_eq!((device.jti.as_str(), device.tenant_id.as_str()), ("jti-1", "default"));
    assert_eq!(store.list()[0].last_used_at, Some(NOW + 5));
    let late = out.expires_at + 61;
    assert!(matches!(
        authenticate(&mut store, "secret", &bearer(&out.token), late),
        Err(AppError::Unauthorized)
    ));
    assert!(authenticate(&mut store, "other", &bearer(&out.token), NOW).is_err());

    match login_at(&mut store, &config, &req, "jti-1", NOW) {
        Err(AppError::Internal(m)) => {
            assert_eq!(m, "db insert: UNIQUE constraint failed: tokens.jti")
        }
        other => panic!("{other:?}"),
    }
}

#[test]
fn unknown_token_is_refused() {
    let mut store = TokenDb::open_in_memory();
    let token = issue_token("nobody", "d", NOW, NOW + 100, "secret");
    assert!(matches!(
        authenticate(&mut store, "secret", &bearer(&token), NOW),
        Err(AppError::Unauthorized)
    ));
    assert!(store.take_changes().is_empty());
}

#[test]
fn login_fails_on_bad_settings() {
    let make = |c: Config| AppState {
        config: c,
        db: TokenDb::open_in_memory(),
        login_limiter: LoginRateLimiter::new(),
        pair_limiter: LoginRateLimiter::new_pairing(),
        admin_limiter: LoginRateLimiter::new_limits(300, 300),
        ws_sessions: WsPresence::new(),
    };
    let req = LoginRequest { password: "pw".into(), device: String::new() };
    let mut state = make(config("not a hash"));
    match login_handler(&mut state, &headers(&[]), &req) {
        Err(AppError::Internal(m)) => {
            assert_eq!(m, "password hash malformed: password hash string missing field")
        }
        other => panic!("{other:?}"),
    }
    let mut endless = config(&hash_password("pw").unwrap());
    endless.token_ttl_days = i64::MAX;
    let mut state = make(endless);
    let wrong = LoginRequest { password: "no".into(), device: String::new() };
    assert!(matches!(
        login_handler(&mut state, &headers(&[]), &wrong),
        Err(AppError::Unauthorized)
    ));
    match login_handler(&mut state, &headers(&[]), &req) {
        Err(AppError::Internal(m)) => assert_eq!(m, "token lifetime out of range"),
        other => panic!("{other:?}"),
    }
    let mut state = make(config(""));
    match login_handler(&mut state, &headers(&[]), &req) {
        Err(AppError::Forbidden(m)) => assert_eq!(m, "password login disabled; use pairing"),
        other => panic!("{other:?}"),
    }
}

#[test]
fn lanes_of_a_hash_are_bounded() {
    let hash = hash_password("pw").unwrap();
    assert!(hash.contains(",p=1$"));
    assert!(hash_lanes_fit(&hash));
    for (lanes, fits) in [
        ("p=99999999", true),
        ("p=100000000", false),
        ("p=536870912", false),
        ("p=4294967295", false),
        ("p=1,p=536870912", false),
        ("p=536870912,p=1", true),
        ("p=12345678x", true),
        ("p=", true),
        ("x=1", true),
    ] {
        assert_eq!(hash_lanes_fit(&hash.replace("p=1", lanes)), fits, "{lanes}");
    }
    assert!(hash_lanes_fit(""));
    assert!(hash_lanes_fit("p"));
    assert!(!hash_lanes_fit("p=123456789"));
}

#[test]
fn hash_with_too_many_lanes_accepts_no_password() {
    let hash = hash_password("pw").unwrap();
    let req = LoginRequest { password: "pw".into(), device: String::new() };
    let mut store = TokenDb::open_in_memory();
    for lanes in ["p=536870912", "p=4294967295", "p=16777216", "p=1,p=536870912"] {
        let c = config(&hash.replace("p=1", lanes));
        assert!(
            matches!(login_at(&mut store, &c, &req, "j", NOW), Err(AppError::Unauthorized)),
            "{lanes}"
        );
    }
    assert!(store.take_changes().is_empty());
    let c = config(&hash.replace("p=1", "p=536870912,p=1"));
    assert!(login_at(&mut store, &c, &req, "j", NOW).is_ok());
}

#[test]
fn hashed_password_is_argon2() {
    let a = hash_password("same").unwrap();
    let b = hash_password("same").unwrap();
    assert!(a.starts_with("$argon2"));
    assert_ne!(a, b);
}
