use dsh_mobile_gateway::auth::{authenticate, LoginRateLimiter};
use dsh_mobile_gateway::config::Config;
use dsh_mobile_gateway::crypto::hash_password;
use dsh_mobile_gateway::db::TokenDb;
use dsh_mobile_gateway::error::AppError;
use dsh_mobile_gateway::http::Headers;
use dsh_mobile_gateway::presence::WsPresence;
use dsh_mobile_gateway::qr::draw;
use dsh_mobile_gateway::session::{
    cookie_header, issue_session, verify_session, web_creds, web_secret,
};
use dsh_mobile_gateway::web::{
    admin_web_password_get, admin_web_password_post, auth_challenge, is_cross_origin,
    login_page_at, login_submit, login_submit_at, logout, renewal, renewal_at, safe_next,
    set_web_password_at, urlencode, web_relay_at, LoginForm, WebBody, WebDecision,
    WebPasswordRequest,
};
use dsh_mobile_gateway::AppState;

const T: i64 = 1_700_000_000;

fn config(hash: &str) -> Config {
    let mut c =
        Config::from_env(&vec![("DSH_GATEWAY_JWT_SECRET".to_string(), "s3cret".to_string())])
            .unwrap();
    c.web_hostname = "web.example".into();
    c.web_password_hash = hash.into();
    c
}

fn headers(fields: &[(&str, &str)]) -> Headers {
    let mut out = Headers::new();
    for (name, value) in fields {
        out.append(name, value.as_bytes().to_vec());
    }
    out
}

fn form(password: &str, next: &str) -> LoginForm {
    LoginForm { password: password.into(), next: next.into() }
}

/// A hash that can be read; nobody knows its password.
const HASH: &str = "$argon2id$v=19$m=16,t=2,p=1$c29tZXNhbHQ$aGFzaGhhc2hoYXNoaGFzaGhhc2hoYXNo";

#[test]
fn session_key_depends_on_the_version() {
    assert_eq!(
        web_secret("s3cret", 1),
        "f01363254e3856a7f4a859449165895b16e1560065785c39bdae33c3c78d39bf"
    );
    assert_eq!(
        web_secret("s3cret", 0),
        "1f5a90a08ff05336de385ff347198c3b74e359263500d417cba1a9f2ded327d4"
    );
}

#[test]
fn register_comes_before_configuration() {
    let mut db = TokenDb::open_in_memory();
    assert_eq!(web_creds(&config(""), &db), None);
    assert_eq!(web_creds(&config("env"), &db), Some(("env".to_string(), 0)));
    db.set_web_password("db", T);
    assert_eq!(web_creds(&config("env"), &db), Some(("db".to_string(), 1)));
}

#[test]
fn sessions_last_twelve_hours() {
    let c = config(HASH);
    let db = TokenDb::open_in_memory();
    let (token, end) = issue_session(&c, 0, &vec![1, 2, 3, 4, 5, 6, 7, 0xff], T);
    assert_eq!(end, T + 43_200);
    let cookie = format!("other=1; dshweb={token}; x=y");
    let h = headers(&[("cookie", &cookie)]);
    let expected = Some(("web:01020304050607ff".to_string(), end));
    assert_eq!(verify_session(&c, &db, &h, T), expected);
    assert_eq!(verify_session(&c, &db, &h, end - 1), expected);
    assert_eq!(verify_session(&c, &db, &h, end), None);
    assert_eq!(verify_session(&c, &db, &headers(&[]), T), None);
    assert_eq!(verify_session(&c, &db, &headers(&[("cookie", "dshweb=x")]), T), None);
    assert_eq!(verify_session(&config(""), &db, &h, T), None);
    assert_eq!(verify_session(&config("broken hash"), &db, &h, T), None);
    let (rotated, _) = issue_session(&c, 1, &vec![0; 8], T);
    let old = headers(&[("cookie", &format!("dshweb={rotated}"))]);
    assert_eq!(verify_session(&c, &db, &old, T), None);
}

#[test]
fn device_token_is_no_session() {
    let c = config(HASH);
    let db = TokenDb::open_in_memory();
    let token = dsh_mobile_gateway::auth::issue_token(
        "j", "d", T, T + 100, &web_secret("s3cret", 0),
    );
    let h = headers(&[("cookie", &format!("dshweb={token}"))]);
    assert_eq!(verify_session(&c, &db, &h, T), None);
}

#[test]
fn cookie_is_locked_down() {
    assert_eq!(
        cookie_header("t", 43_200),
        "dshweb=t; Path=/; Max-Age=43200; HttpOnly; Secure; SameSite=Strict"
    );
}

#[test]
fn cross_origin_requests_are_told_apart() {
    let c = config("");
    for (fields, cross) in [
        (vec![], false),
        (vec![("sec-fetch-site", "same-origin")], false),
        (vec![("sec-fetch-site", "none")], false),
        (vec![("sec-fetch-site", "same-site")], true),
        (vec![("sec-fetch-site", "cross-site")], true),
        (vec![("sec-fetch-site", "same-origin"), ("origin", "https://evil")], false),
        (vec![("origin", "https://WEB.example")], false),
        (vec![("origin", "https://web.example:8443")], false),
        (vec![("origin", "https://evil.example")], true),
        (vec![("origin", "null")], true),
        (vec![("origin", "not a uri")], true),
        (vec![("origin", "/path")], true),
    ] {
        assert_eq!(is_cross_origin(&c, &headers(&fields)), cross, "{fields:?}");
    }
}

#[test]
fn next_stays_on_this_site() {
    assert_eq!(safe_next("/a/b?c"), "/a/b?c");
    assert_eq!(safe_next("//evil"), "/");
    assert_eq!(safe_next("https://evil"), "/");
    assert_eq!(safe_next(""), "/");
}

#[test]
fn queries_are_encoded() {
    assert_eq!(urlencode("/a b?c=é&~_.-"), "/a%20b%3Fc%3D%C3%A9%26~_.-");
}

#[test]
fn challenge_depends_on_who_asks() {
    let nav = auth_challenge(&headers(&[("accept", "text/html,*/*")]), Some("/a?b=1"));
    assert_eq!(nav.status, 303);
    assert_eq!(nav.location.unwrap(), "/_gateway/login?next=/a%3Fb%3D1");
    let none = auth_challenge(&headers(&[("accept", "text/html")]), None);
    assert_eq!(none.location.unwrap(), "/_gateway/login?next=/");
    assert_eq!(auth_challenge(&headers(&[]), Some("/")).status, 401);
}

#[test]
fn submitted_password_is_checked() {
    let hash = hash_password("pw").unwrap();
    let c = config(&hash);
    let db = TokenDb::open_in_memory();
    let rnd = vec![9; 8];
    assert_eq!(login_submit_at(&config(""), &db, &form("pw", "/"), &rnd, T).status, 404);
    let broken = login_submit_at(&config("broken"), &db, &form("pw", "/"), &rnd, T);
    assert_eq!(broken.status, 401);
    assert!(matches!(broken.body, WebBody::Html(h) if h.contains("服务端密码配置异常")));
    let wrong = login_submit_at(&c, &db, &form("no", "/"), &rnd, T);
    assert_eq!(wrong.status, 401);
    assert!(matches!(wrong.body, WebBody::Html(h) if h.contains("密码错误")));
    let ok = login_submit_at(&c, &db, &form("pw", "/next"), &rnd, T);
    assert_eq!((ok.status, ok.location.as_deref()), (303, Some("/next")));
    let set = ok.set_cookie.unwrap();
    let pair = set.split(';').next().unwrap();
    let h = headers(&[("cookie", pair)]);
    assert!(verify_session(&c, &db, &h, T).is_some());
    let page = login_page_at(&c, &db, &h, T);
    assert_eq!((page.status, page.location.as_deref()), (303, Some("/")));
    let odd = login_submit_at(&c, &db, &form("pw", "/a\nb"), &rnd, T);
    assert_eq!((odd.status, odd.location), (303, None));
    assert!(matches!(odd.body, WebBody::Text(t) if t == "failed to parse header value"));
    assert!(odd.set_cookie.is_some());
}

fn state(c: Config) -> AppState {
    AppState {
        config: c,
        db: TokenDb::open_in_memory(),
        login_limiter: LoginRateLimiter::new_limits(1, 300),
        pair_limiter: LoginRateLimiter::new_pairing(),
        admin_limiter: LoginRateLimiter::new_limits(300, 300),
        ws_sessions: WsPresence::new(),
    }
}

#[test]
fn web_logins_are_limited() {
    let mut s = state(config("broken"));
    let cross = headers(&[("sec-fetch-site", "cross-site")]);
    for _ in 0..3 {
        assert_eq!(login_submit(&mut s, &cross, &form("x", "/")).status, 403);
    }
    assert_eq!(login_submit(&mut s, &headers(&[]), &form("x", "/")).status, 401);
    let limited = login_submit(&mut s, &headers(&[]), &form("x", "/"));
    assert_eq!(limited.status, 429);
    assert!(matches!(limited.body, WebBody::Html(h) if h.contains("尝试过于频繁,稍后再试")));
    assert!(s.login_limiter.allow("unknown"));
    let mut closed = state(config(""));
    assert_eq!(logout(&closed).status, 404);
    assert_eq!(login_submit(&mut closed, &headers(&[]), &form("x", "/")).status, 404);
}

#[test]
fn sessions_are_renewed_in_their_second_half() {
    let c = config(HASH);
    let db = TokenDb::open_in_memory();
    let rnd = vec![0; 8];
    assert!(renewal_at(&c, &db, T + 21_600, 200, &rnd, T).is_none());
    assert!(renewal_at(&c, &db, T + 21_599, 200, &rnd, T).unwrap().starts_with("dshweb="));
    assert!(renewal_at(&c, &db, T + 21_599, 101, &rnd, T).is_none());
    assert!(renewal_at(&c, &db, T, 200, &rnd, T).is_none());
    assert!(renewal_at(&config(""), &db, T + 1, 200, &rnd, T).is_none());
    assert!(renewal(&state(config(HASH)), 0, 200).is_none());
}

#[test]
fn renewed_session_is_recognised() {
    let c = config(HASH);
    let db = TokenDb::open_in_memory();
    let cookie = renewal_at(&c, &db, T + 1, 200, &vec![9; 8], T).unwrap();
    let pair = cookie.split(';').next().unwrap();
    let expected = Some(("web:0909090909090909".to_string(), T + 43_200));
    assert_eq!(verify_session(&c, &db, &headers(&[("cookie", pair)]), T + 43_199), expected);
    assert_eq!(verify_session(&c, &db, &headers(&[("cookie", pair)]), T + 43_200), None);
}

#[test]
fn session_is_no_device_token() {
    let c = config(HASH);
    let mut db = TokenDb::open_in_memory();
    let rnd = vec![1; 8];
    let (token, _) = issue_session(&c, 0, &rnd, T);
    db.insert("web:0101010101010101", "web", None, "", "default", T).unwrap();
    let h = headers(&[("authorization", &format!("Bearer {token}"))]);
    for secret in ["s3cret".to_string(), web_secret("s3cret", 0)] {
        assert!(matches!(
            authenticate(&mut db, &secret, &h, T),
            Err(AppError::Unauthorized)
        ));
    }
}

#[test]
fn web_password_with_too_many_lanes_is_never_right() {
    let hash = hash_password("pw").unwrap();
    let db = TokenDb::open_in_memory();
    let rnd = vec![0; 8];
    for lanes in ["p=536870912", "p=1,p=4294967295"] {
        let c = config(&hash.replace("p=1", lanes));
        let out = login_submit_at(&c, &db, &form("pw", "/"), &rnd, T);
        assert_eq!((out.status, out.set_cookie), (401, None));
        match out.body {
            WebBody::Html(page) => assert!(page.contains("密码错误")),
            other => panic!("{other:?}"),
        }
    }
    assert_eq!(login_submit_at(&config(&hash), &db, &form("pw", "/"), &rnd, T).status, 303);
}

#[test]
fn web_password_that_was_set_logs_in() {
    let mut s = state(config(""));
    let req = WebPasswordRequest { password: "hunter2".into(), hash: String::new(), clear: false };
    assert_eq!(admin_web_password_post(&mut s, &req).unwrap().version, Some(1));
    assert_eq!(admin_web_password_post(&mut s, &req).unwrap().version, Some(2));
    let out = login_submit(&mut s, &headers(&[]), &form("hunter2", "/"));
    assert_eq!(out.status, 303);
    assert!(out.set_cookie.unwrap().starts_with("dshweb="));
    let wrong = login_submit_at(&s.config, &s.db, &form("hunter3", "/"), &vec![0; 8], T);
    assert_eq!(wrong.status, 401);
}

#[test]
fn open_files_lose_their_credentials() {
    let c = config(HASH);
    let db = TokenDb::open_in_memory();
    let h = headers(&[("cookie", "a"), ("authorization", "b"), ("origin", "c"), ("accept", "d")]);
    match web_relay_at(&c, &db, "GET", "/favicon.ico", Some("/favicon.ico"), &h, T) {
        WebDecision::Relay { device, headers, session_end } => {
            assert_eq!((device.jti.as_str(), device.device.as_str()), ("web-anon", "web"));
            assert_eq!(headers.fields.len(), 2);
            assert!(headers.text("origin").is_some());
            assert_eq!(session_end, None);
        }
        other => panic!("{other:?}"),
    }
}

#[test]
fn web_password_is_set_by_hash_or_password() {
    let mut db = TokenDb::open_in_memory();
    let req = |password: &str, hash: &str, clear: bool| WebPasswordRequest {
        password: password.into(),
        hash: hash.into(),
        clear,
    };
    match set_web_password_at(&mut db, &req(&"x".repeat(257), "", false), "f", T) {
        Err(AppError::BadRequest(m)) => assert_eq!(m, "password too long"),
        other => panic!("{other:?}"),
    }
    for bad in ["", "plain", &format!("$argon2{}", "x".repeat(506))] {
        match set_web_password_at(&mut db, &req("", bad, false), "f", T) {
            Err(AppError::BadRequest(m)) => assert_eq!(
                m,
                "provide `password` or a valid argon2 `hash`, or `clear: true`"
            ),
            other => panic!("{other:?}"),
        }
    }
    assert!(db.take_changes().is_empty());
    let set = set_web_password_at(&mut db, &req("", HASH, false), "f", T).unwrap();
    assert_eq!((set.ok, set.enabled, set.version), (true, true, Some(1)));
    assert_eq!(db.web_password(), Some((HASH.to_string(), 1)));
    let set = set_web_password_at(&mut db, &req("pw", HASH, false), "fresh", T).unwrap();
    assert_eq!(set.version, Some(2));
    assert_eq!(db.web_password(), Some(("fresh".to_string(), 2)));
    let set = set_web_password_at(&mut db, &req("pw", HASH, true), "fresh", T).unwrap();
    assert_eq!((set.enabled, set.version), (false, None));
    assert_eq!(db.web_password(), None);
    db.apply(dsh_mobile_gateway::change::Change::SetWebPassword {
        hash: "h".into(),
        version: i64::MAX,
        at: T,
    });
    match set_web_password_at(&mut db, &req("pw", "", false), "f", T) {
        Err(AppError::Internal(m)) => assert_eq!(m, "db set: version out of range"),
        other => panic!("{other:?}"),
    }
}

#[test]
fn web_password_status() {
    let mut s = state(config(""));
    let off = admin_web_password_get(&s);
    assert_eq!((off.ok, off.enabled, off.source, off.version), (true, false, None, None));
    s.config.web_password_hash = "x".into();
    let env = admin_web_password_get(&s);
    assert_eq!((env.enabled, env.source.as_deref(), env.version), (true, Some("env"), Some(0)));
    let req = WebPasswordRequest { password: "pw".into(), hash: String::new(), clear: false };
    admin_web_password_post(&mut s, &req).unwrap();
    assert!(s.db.web_password().unwrap().0.starts_with("$argon2"));
    let db = admin_web_password_get(&s);
    assert_eq!((db.enabled, db.source.as_deref(), db.version), (true, Some("db"), Some(1)));
}

#[test]
fn modules_are_drawn_as_half_blocks() {
    let out = draw(2, &vec![true, false, true, true]);
    assert_eq!(out, "\u{1b}[30;47m      \n  █▄  \n      \u{1b}[0m");
    let out = draw(1, &vec![true]);
    assert_eq!(out, "\u{1b}[30;47m     \n  ▀  \n     \u{1b}[0m");
}
