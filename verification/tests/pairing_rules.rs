use dsh_mobile_gateway::admin::admin_status_handler;
use dsh_mobile_gateway::auth::LoginRateLimiter;
use dsh_mobile_gateway::config::Config;
use dsh_mobile_gateway::db::TokenDb;
use dsh_mobile_gateway::error::AppError;
use dsh_mobile_gateway::http::Headers;
use dsh_mobile_gateway::pair::{
    claim_at, confirm_at, poll_at, start_at, start_handler, valid_code_d, valid_host_code,
    valid_secret, AdminClaimRequest, PairConfirmRequest, PairPollRequest, PairStartRequest,
};
use dsh_mobile_gateway::presence::WsPresence;
use dsh_mobile_gateway::tenant::TenantCtx;
use dsh_mobile_gateway::AppState;

const T: i64 = 1_700_000_000;
const SECRET: &str = "0123456789abcdefghijABCDEFGHIJ0123";
const CODE: &str = "ABCDEFGHJK";

fn config() -> Config {
    Config::from_env(&vec![("DSH_GATEWAY_JWT_SECRET".to_string(), "s".to_string())]).unwrap()
}

fn operator() -> TenantCtx {
    TenantCtx { id: "default".into(), operator: true }
}

fn tenant(id: &str) -> TenantCtx {
    TenantCtx { id: id.into(), operator: false }
}

fn started(code: &str, tenant: &str) -> PairStartRequest {
    PairStartRequest {
        code: code.into(),
        secret: SECRET.into(),
        device: "phone".into(),
        tenant: tenant.into(),
    }
}

fn asked(id: &str) -> PairPollRequest {
    PairPollRequest { pairing_id: id.into(), secret: SECRET.into() }
}

fn claimed(code: &str, host_code: &str, port: Option<u16>) -> AdminClaimRequest {
    AdminClaimRequest {
        code: code.into(),
        host_code: host_code.into(),
        host_label: String::new(),
        port,
    }
}

fn confirmed(id: &str, claim_id: &str, host_code: &str) -> PairConfirmRequest {
    PairConfirmRequest {
        pairing_id: id.into(),
        secret: SECRET.into(),
        claim_id: claim_id.into(),
        host_code: host_code.into(),
    }
}

fn bad_request(e: AppError) -> String {
    match e {
        AppError::BadRequest(m) => m,
        other => panic!("{other:?}"),
    }
}

fn forbidden(e: AppError) -> String {
    match e {
        AppError::Forbidden(m) => m,
        other => panic!("{other:?}"),
    }
}

#[test]
fn codes_and_secrets_have_a_form() {
    assert!(valid_code_d(CODE));
    assert!(valid_code_d("23456789ZY"));
    for bad in ["ABCDEFGHJ", "ABCDEFGHJKM", "ABCDEFGHJI", "ABCDEFGHJL", "ABCDEFGHJO", "ABCDEFGHJ0",
        "ABCDEFGHJ1", "abcdefghjk", "ABCDEFGHé"] {
        assert!(!valid_code_d(bad), "{bad}");
    }
    assert!(valid_host_code("ABC234"));
    assert!(valid_host_code("ABC2345"));
    assert!(valid_host_code("-ABC234"));
    assert!(!valid_host_code("ABC23"));
    assert!(!valid_host_code("ABC23456"));
    assert!(valid_secret(&"a".repeat(32)));
    assert!(valid_secret(&"Z9".repeat(64)));
    assert!(!valid_secret(&"a".repeat(31)));
    assert!(!valid_secret(&"a".repeat(129)));
    assert!(!valid_secret(&"é".repeat(40)));
}

#[test]
fn start_refuses_what_is_malformed() {
    let mut db = TokenDb::open_in_memory();
    let e = start_at(&mut db, &started("short", ""), "p", T).unwrap_err();
    assert_eq!(bad_request(e), "code must be 10 chars (A-Z minus I,L,O + 2-9)");
    let mut req = started(CODE, "");
    req.secret = "short".into();
    assert_eq!(
        bad_request(start_at(&mut db, &req, "p", T).unwrap_err()),
        "secret must be 32-128 alphanumerics"
    );
    for bad in ["default", "abc", "T_1234", &"a".repeat(33)] {
        let e = start_at(&mut db, &started(CODE, bad), "p", T).unwrap_err();
        assert_eq!(bad_request(e), "invalid tenant", "{bad}");
    }
    let e = start_at(&mut db, &started(CODE, "t-12345678"), "p", T).unwrap_err();
    assert_eq!(bad_request(e), "unknown tenant");
    assert!(db.take_changes().is_empty());
    db.tenant_insert("t-12345678", "n", "h", T).unwrap();
    db.tenant_set_revoked("t-12345678", true);
    let e = start_at(&mut db, &started(CODE, "t-12345678"), "p", T).unwrap_err();
    assert_eq!(bad_request(e), "unknown tenant");
    db.tenant_set_revoked("t-12345678", false);
    let ok = start_at(&mut db, &started(" abcde-fghjk ", " T-12345678 "), "p", T).unwrap();
    assert_eq!((ok.pairing_id.as_str(), ok.expires_at), ("p", T + 600));
    let row = db.pairing_get("p").unwrap();
    assert_eq!((row.code_d.as_str(), row.tenant_id.as_str()), (CODE, "t-12345678"));
}

#[test]
fn code_is_not_reused_for_thirty_minutes() {
    let mut db = TokenDb::open_in_memory();
    start_at(&mut db, &started(CODE, ""), "p1", T).unwrap();
    for later in [T, T + 600, T + 601, T + 1799] {
        let e = start_at(&mut db, &started(CODE, ""), "p2", later).unwrap_err();
        match e {
            AppError::Conflict(m) => assert_eq!(m, "code already in use; generate a new one"),
            other => panic!("{other:?}"),
        }
    }
    assert!(start_at(&mut db, &started(CODE, ""), "p2", T + 1800).is_ok());
}

#[test]
fn starts_are_limited_per_address() {
    let mut state = AppState {
        config: config(),
        db: TokenDb::open_in_memory(),
        login_limiter: LoginRateLimiter::new(),
        pair_limiter: LoginRateLimiter::new_pairing(),
        admin_limiter: LoginRateLimiter::new_limits(300, 300),
        ws_sessions: WsPresence::new(),
    };
    let mut from_a = Headers::new();
    from_a.append("x-real-ip", b"1.1.1.1".to_vec());
    for _ in 0..20 {
        let e = start_handler(&mut state, &from_a, &started("x", "")).unwrap_err();
        assert_eq!(e.status(), 400);
    }
    match start_handler(&mut state, &from_a, &started(CODE, "")) {
        Err(AppError::Conflict(m)) => assert_eq!(m, "too many pairing attempts, retry later"),
        other => panic!("{other:?}"),
    }
    let mut from_b = Headers::new();
    from_b.append("x-real-ip", b"2.2.2.2".to_vec());
    assert!(start_handler(&mut state, &from_b, &started(CODE, "")).is_ok());
}

#[test]
fn poll_tells_how_a_pairing_stands() {
    let mut db = TokenDb::open_in_memory();
    assert_eq!(poll_at(&mut db, &asked("p"), T).unwrap_err().status(), 404);
    start_at(&mut db, &started(CODE, ""), "p", T).unwrap();
    let mut wrong = asked("p");
    wrong.secret = "x".into();
    assert!(matches!(poll_at(&mut db, &wrong, T), Err(AppError::Unauthorized)));
    assert_eq!(poll_at(&mut db, &asked("p"), T + 600).unwrap().status, "waiting");
    claim_at(&mut db, &config(), &operator(), &claimed(CODE, "ABC234", None), "c", T).unwrap();
    let seen = poll_at(&mut db, &asked("p"), T + 300).unwrap();
    assert_eq!(seen.status, "offers");
    assert_eq!(seen.offers[0].claim_id, "c");
    assert_eq!(seen.offers[0].host_label, "mac");
    assert_eq!(seen.offers[0].upstream_port, 13100);
    assert_eq!(seen.offers[0].expires_at, T + 300);
    assert_eq!(poll_at(&mut db, &asked("p"), T + 301).unwrap().status, "waiting");
    let over = poll_at(&mut db, &asked("p"), T + 601).unwrap();
    assert_eq!((over.status.as_str(), over.offers.len()), ("expired", 0));
}

#[test]
fn anchored_phone_sees_its_tenant_only() {
    let mut db = TokenDb::open_in_memory();
    db.tenant_insert("t-aaaa", "a", "h", T).unwrap();
    start_at(&mut db, &started(CODE, "t-aaaa"), "p", T).unwrap();
    db.claim_insert("own", CODE, "ABC234", "a", 1, 300, "t-aaaa", T).unwrap();
    db.claim_insert("other", CODE, "ABC234", "b", 2, 300, "t-bbbb", T).unwrap();
    let seen = poll_at(&mut db, &asked("p"), T).unwrap();
    assert_eq!(seen.offers.len(), 1);
    assert_eq!(seen.offers[0].claim_id, "own");
    let e = confirm_at(&mut db, &config(), &confirmed("p", "other", "ABC234"), "j", T).unwrap_err();
    assert_eq!(bad_request(e), "claim not applicable");
    assert!(confirm_at(&mut db, &config(), &confirmed("p", "own", "ABC234"), "j", T).is_ok());
}

#[test]
fn confirm_refuses_what_does_not_fit() {
    let mut db = TokenDb::open_in_memory();
    let c = config();
    let e = confirm_at(&mut db, &c, &confirmed("p", "c", "ABC234"), "j", T).unwrap_err();
    assert!(matches!(e, AppError::NotFound(m) if m == "unknown pairing"));
    start_at(&mut db, &started(CODE, ""), "p", T).unwrap();
    let mut wrong = confirmed("p", "c", "ABC234");
    wrong.secret = "x".into();
    assert!(matches!(confirm_at(&mut db, &c, &wrong, "j", T), Err(AppError::Unauthorized)));
    let e = confirm_at(&mut db, &c, &confirmed("p", "c", "ABC234"), "j", T + 601).unwrap_err();
    assert_eq!(bad_request(e), "pairing no longer active");
    let e = confirm_at(&mut db, &c, &confirmed("p", "c", "ABC234"), "j", T).unwrap_err();
    assert!(matches!(e, AppError::NotFound(m) if m == "unknown claim"));
    db.claim_insert("x", "OTHERCODE2", "ABC234", "l", 1, 300, "default", T).unwrap();
    let e = confirm_at(&mut db, &c, &confirmed("p", "x", "ABC234"), "j", T).unwrap_err();
    assert_eq!(bad_request(e), "claim not applicable");
    claim_at(&mut db, &c, &operator(), &claimed(CODE, "ABC234", None), "c", T).unwrap();
    let e = confirm_at(&mut db, &c, &confirmed("p", "c", "ABC234"), "j", T + 301).unwrap_err();
    assert_eq!(bad_request(e), "claim expired");
    let e = confirm_at(&mut db, &c, &confirmed("p", "c", "ABC235"), "j", T).unwrap_err();
    assert_eq!(bad_request(e), "host code mismatch");
    db.insert("taken", "d", None, "", "default", T).unwrap();
    db.take_changes();
    let ok = confirm_at(&mut db, &c, &confirmed("p", "c", " abc:234 "), "j", T + 300).unwrap();
    assert_eq!(ok.expires_at, T + 300 + 30 * 86_400);
    assert_eq!((ok.host_label.as_str(), ok.host_ref.as_str()), ("mac", "13100"));
    assert_eq!(db.take_changes().len(), 4);
    assert_eq!(db.route_for("j"), Some((Some(13100), "default".to_string())));
    let e = confirm_at(&mut db, &c, &confirmed("p", "c", "ABC234"), "j2", T + 300).unwrap_err();
    assert_eq!(bad_request(e), "pairing no longer active");
    start_at(&mut db, &started("ABCDEFGHJM", ""), "q", T).unwrap();
    claim_at(&mut db, &c, &operator(), &claimed("ABCDEFGHJM", "ABC234", None), "d", T).unwrap();
    match confirm_at(&mut db, &c, &confirmed("q", "d", "ABC234"), "taken", T) {
        Err(AppError::Internal(m)) => {
            assert_eq!(m, "db insert: UNIQUE constraint failed: tokens.jti")
        }
        other => panic!("{other:?}"),
    }
}

#[test]
fn lifetime_is_looked_at_last() {
    let mut db = TokenDb::open_in_memory();
    let mut c = config();
    c.token_ttl_days = i64::MAX;
    let e = confirm_at(&mut db, &c, &confirmed("p", "c", "ABC234"), "j", T).unwrap_err();
    assert_eq!(e.status(), 404);
    start_at(&mut db, &started(CODE, ""), "p", T).unwrap();
    claim_at(&mut db, &c, &operator(), &claimed(CODE, "ABC234", None), "c", T).unwrap();
    let e = confirm_at(&mut db, &c, &confirmed("p", "c", "ABC235"), "j", T).unwrap_err();
    assert_eq!(bad_request(e), "host code mismatch");
    db.take_changes();
    match confirm_at(&mut db, &c, &confirmed("p", "c", "ABC234"), "j", T) {
        Err(AppError::Internal(m)) => assert_eq!(m, "token lifetime out of range"),
        other => panic!("{other:?}"),
    }
    assert!(db.take_changes().is_empty());
    assert!(confirm_at(&mut db, &config(), &confirmed("p", "c", "ABC234"), "j", T).is_ok());
}

#[test]
fn nobody_waits_once_the_time_is_over() {
    let mut db = TokenDb::open_in_memory();
    let c = config();
    start_at(&mut db, &started(CODE, ""), "p", T).unwrap();
    let claim = claimed(CODE, "ABC234", None);
    assert!(claim_at(&mut db, &c, &operator(), &claim, "c1", T + 600).is_ok());
    db.take_changes();
    let e = claim_at(&mut db, &c, &operator(), &claim, "c2", T + 601).unwrap_err();
    assert!(matches!(e, AppError::NotFound(m) if m == "no phone waiting with this code"));
    assert!(db.take_changes().is_empty());
    assert_eq!(db.pairing_get("p").unwrap().status, "pending");
}

#[test]
fn one_of_many_confirmations_succeeds() {
    let mut db = TokenDb::open_in_memory();
    let c = config();
    start_at(&mut db, &started(CODE, ""), "p", T).unwrap();
    claim_at(&mut db, &c, &operator(), &claimed(CODE, "ABC234", None), "c", T).unwrap();
    let mut taken = 0;
    for jti in ["j1", "j2", "j3"] {
        match confirm_at(&mut db, &c, &confirmed("p", "c", "ABC234"), jti, T) {
            Ok(_) => taken += 1,
            Err(e) => assert_eq!(bad_request(e), "pairing no longer active"),
        }
    }
    assert_eq!((taken, db.list().len()), (1, 1));
}

#[test]
fn claim_refuses_what_does_not_fit() {
    let mut db = TokenDb::open_in_memory();
    let c = config();
    let e = claim_at(&mut db, &c, &operator(), &claimed("x", "ABC234", None), "c", T).unwrap_err();
    assert_eq!(bad_request(e), "code must be 10 chars");
    let e = claim_at(&mut db, &c, &operator(), &claimed(CODE, "ABC", None), "c", T).unwrap_err();
    assert_eq!(bad_request(e), "host_code must be 6-7 chars");
    let req = claimed(CODE, "ABC234", Some(13105));
    let e = claim_at(&mut db, &c, &operator(), &req, "c", T).unwrap_err();
    assert!(matches!(e, AppError::NotFound(m) if m == "no phone waiting with this code"));
    start_at(&mut db, &started(CODE, ""), "p", T).unwrap();
    let e = claim_at(&mut db, &c, &tenant("t-a"), &req, "c", T).unwrap_err();
    assert_eq!(
        forbidden(e),
        "no host registered for this port; ask the operator to register it"
    );
    let far = claimed(CODE, "ABC234", Some(13200));
    let e = claim_at(&mut db, &c, &operator(), &far, "c", T).unwrap_err();
    assert_eq!(bad_request(e), "tunnel port must be 13100-13199");
    db.host_insert("h", "t-b", "l", 13105, T).unwrap();
    let e = claim_at(&mut db, &c, &tenant("t-a"), &req, "c", T).unwrap_err();
    assert_eq!(forbidden(e), "tunnel port owned by another host");
    let e = claim_at(&mut db, &c, &operator(), &req, "c", T).unwrap_err();
    assert_eq!(forbidden(e), "tunnel port owned by another host");
    let ok = claim_at(&mut db, &c, &tenant("t-b"), &req, "c", T).unwrap();
    assert_eq!((ok.port, ok.expires_at, ok.device.as_str()), (13105, T + 300, "phone"));
    assert_eq!(db.claim_get("c").unwrap().tenant_id, "t-b");
    match claim_at(&mut db, &c, &tenant("t-b"), &req, "c", T) {
        Err(AppError::Internal(m)) => {
            assert_eq!(m, "claim insert: UNIQUE constraint failed: claims.id")
        }
        other => panic!("{other:?}"),
    }
}

#[test]
fn disabled_host_cannot_be_claimed() {
    let mut db = TokenDb::open_in_memory();
    start_at(&mut db, &started(CODE, ""), "p", T).unwrap();
    db.apply(dsh_mobile_gateway::change::Change::InsertHost(
        dsh_mobile_gateway::rows::HostRow {
            id: "h".into(),
            tenant_id: "default".into(),
            label: String::new(),
            port: 13105,
            created_at: T,
            enabled: false,
        },
    ));
    let req = claimed(CODE, "ABC234", Some(13105));
    let e = claim_at(&mut db, &config(), &operator(), &req, "c", T).unwrap_err();
    assert_eq!(forbidden(e), "host disabled");
}

#[test]
fn operator_claims_for_the_anchor() {
    let mut db = TokenDb::open_in_memory();
    db.tenant_insert("t-aaaa", "a", "h", T).unwrap();
    start_at(&mut db, &started(CODE, "t-aaaa"), "p", T).unwrap();
    let mut req = claimed(CODE, "ABC234", None);
    req.host_label = "y".repeat(40);
    claim_at(&mut db, &config(), &operator(), &req, "c", T).unwrap();
    let row = db.claim_get("c").unwrap();
    assert_eq!((row.tenant_id.as_str(), row.host_label), ("t-aaaa", "y".repeat(32)));
}

#[test]
fn status_is_fenced() {
    let mut state = AppState {
        config: config(),
        db: TokenDb::open_in_memory(),
        login_limiter: LoginRateLimiter::new(),
        pair_limiter: LoginRateLimiter::new_pairing(),
        admin_limiter: LoginRateLimiter::new_limits(300, 300),
        ws_sessions: WsPresence::new(),
    };
    let e = admin_status_handler(&state, &operator(), &None).unwrap_err();
    assert_eq!(bad_request(e), "code required");
    let code = Some("abcde-fghjk".to_string());
    assert_eq!(admin_status_handler(&state, &operator(), &code).unwrap_err().status(), 404);
    state.db.tenant_insert("t-aaaa", "a", "h", T).unwrap();
    start_at(&mut state.db, &started(CODE, "t-aaaa"), "p", T).unwrap();
    assert!(admin_status_handler(&state, &tenant("t-aaaa"), &code).is_ok());
    assert_eq!(admin_status_handler(&state, &tenant("t-bbbb"), &code).unwrap_err().status(), 404);
    state.db.insert("j", "phone", Some(5), "mac", "t-aaaa", T).unwrap();
    state.db.pairing_set_token("p", "j");
    let own = admin_status_handler(&state, &tenant("t-aaaa"), &code).unwrap();
    assert_eq!(own.token.unwrap().host_ref.as_deref(), Some("5"));
    let open = started("ABCDEFGHJM", "");
    start_at(&mut state.db, &open, "q", T).unwrap();
    state.db.pairing_set_token("q", "j");
    let foreign =
        admin_status_handler(&state, &tenant("t-bbbb"), &Some("ABCDEFGHJM".into())).unwrap();
    assert!(foreign.token.is_none());
}
