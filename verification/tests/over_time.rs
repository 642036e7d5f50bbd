use dsh_mobile_gateway::auth::{authenticate, issue_token};
use dsh_mobile_gateway::config::Config;
use dsh_mobile_gateway::db::TokenDb;
use dsh_mobile_gateway::error::AppError;
use dsh_mobile_gateway::http::Headers;
use dsh_mobile_gateway::pair::{
    claim_at, poll_at, start_at, AdminClaimRequest, PairPollRequest, PairStartRequest,
};
use dsh_mobile_gateway::relay::{resolve_upstream, UpstreamTarget};
use dsh_mobile_gateway::session::{issue_session, verify_session};
use dsh_mobile_gateway::tenant::{create_host, HostCreateRequest, TenantCtx};

const T: i64 = 1_700_000_000;
const SECRET: &str = "0123456789abcdefghijABCDEFGHIJ0123";

fn config() -> Config {
    Config::from_env(&vec![("DSH_GATEWAY_JWT_SECRET".to_string(), "s".to_string())]).unwrap()
}

fn with_field(name: &str, value: &str) -> Headers {
    let mut h = Headers::new();
    h.append(name, value.as_bytes().to_vec());
    h
}

fn bearer(token: &str) -> Headers {
    with_field("authorization", &format!("Bearer {token}"))
}

#[test]
fn revoked_token_never_comes_back() {
    let mut db = TokenDb::open_in_memory();
    db.insert("j", "phone", Some(13105), "mac", "t-a", T).unwrap();
    let h = bearer(&issue_token("j", "phone", T, T + 1000, "s"));
    assert!(authenticate(&mut db, "s", &h, T).is_ok());
    assert!(db.revoke("j"));
    db.touch("j", T + 1);
    assert!(db.insert("j", "phone", None, "", "default", T + 2).is_err());
    db.insert("other", "phone", None, "", "default", T + 2).unwrap();
    assert!(matches!(authenticate(&mut db, "s", &h, T + 3), Err(AppError::Unauthorized)));
}

#[test]
fn device_keeps_its_route() {
    let mut db = TokenDb::open_in_memory();
    db.insert("j", "phone", Some(13105), "mac", "t-a", T).unwrap();
    let h = bearer(&issue_token("j", "phone", T, T + 1000, "s"));
    assert!(!db.revoke_in_tenant("j", "t-b"));
    assert!(!db.revoke("k"));
    db.tenant_insert("t-a", "a", "h", T).unwrap();
    db.tenant_set_revoked("t-a", true);
    let device = authenticate(&mut db, "s", &h, T + 1060).unwrap();
    assert_eq!((device.upstream_port, device.tenant_id.as_str()), (Some(13105), "t-a"));
    assert!(authenticate(&mut db, "s", &h, T + 1061).is_err());
}

#[test]
fn bound_tokens_have_upstreams_of_their_own() {
    let mut c = config();
    c.tunnel_sock_dir = Some("/run".into());
    let mut seen: Vec<String> = Vec::new();
    for port in [1, 11, 111] {
        for exists in [false, true] {
            let target = match resolve_upstream(&c, Some(port), exists) {
                UpstreamTarget::Tcp(a) => format!("tcp {a}"),
                UpstreamTarget::Unix(p) => format!("unix {p}"),
            };
            assert!(!seen.contains(&target));
            seen.push(target);
        }
    }
    assert_eq!(seen[0], "tcp 127.0.0.1:1");
    assert_eq!(seen[1], "unix /run/tunnel-1.sock");
}

#[test]
fn started_pairing_waits_whatever_else_happens() {
    let mut db = TokenDb::open_in_memory();
    let start = |code: &str| PairStartRequest {
        code: code.into(),
        secret: SECRET.into(),
        device: "phone".into(),
        tenant: String::new(),
    };
    start_at(&mut db, &start("ABCDEFGHJK"), "p", T).unwrap();
    start_at(&mut db, &start("ABCDEFGHJM"), "q", T + 600).unwrap();
    db.pairing_set_status("q", "confirmed");
    db.pairing_sweep(T + 600);
    let poll = PairPollRequest { pairing_id: "p".into(), secret: SECRET.into() };
    assert_eq!(poll_at(&mut db, &poll, T + 600).unwrap().status, "waiting");
}

#[test]
fn removed_registration_frees_its_port() {
    let mut db = TokenDb::open_in_memory();
    let c = config();
    db.tenant_insert("t-a", "a", "h", T).unwrap();
    let host = HostCreateRequest { tenant_id: "t-a".into(), label: String::new(), port: 13150 };
    create_host(&mut db, &c, &host, "h-1", T).unwrap();
    start_at(
        &mut db,
        &PairStartRequest {
            code: "ABCDEFGHJK".into(),
            secret: SECRET.into(),
            device: "phone".into(),
            tenant: String::new(),
        },
        "p",
        T,
    )
    .unwrap();
    let claim = AdminClaimRequest {
        code: "ABCDEFGHJK".into(),
        host_code: "ABC234".into(),
        host_label: String::new(),
        port: Some(13150),
    };
    let tenant = TenantCtx { id: "t-a".into(), operator: false };
    let other = TenantCtx { id: "t-b".into(), operator: false };
    assert!(claim_at(&mut db, &c, &tenant, &claim, "c1", T).is_ok());
    assert_eq!(claim_at(&mut db, &c, &other, &claim, "c2", T).unwrap_err().status(), 403);
    assert!(db.host_remove("h-1"));
    assert_eq!(claim_at(&mut db, &c, &tenant, &claim, "c3", T).unwrap_err().status(), 403);
    assert!(create_host(&mut db, &c, &host, "h-2", T).is_ok());
}

#[test]
fn sessions_end_with_their_password() {
    let c = config();
    let mut db = TokenDb::open_in_memory();
    let hash = "$argon2id$v=19$m=16,t=2,p=1$c29tZXNhbHQ$aGFzaGhhc2hoYXNoaGFzaGhhc2hoYXNo";
    let version = db.set_web_password(hash, T);
    let (token, _) = issue_session(&c, version, &vec![0; 8], T);
    let h = with_field("cookie", &format!("a=dshweb=1;dshweb2=3; dshweb={token};dshweb=x"));
    assert!(verify_session(&c, &db, &h, T).is_some());
    db.set_web_password(hash, T);
    assert!(verify_session(&c, &db, &h, T).is_none());
}

#[test]
fn removed_password_leaves_its_version_used() {
    let c = config();
    let mut db = TokenDb::open_in_memory();
    let hash = "$argon2id$v=19$m=16,t=2,p=1$c29tZXNhbHQ$aGFzaGhhc2hoYXNoaGFzaGhhc2hoYXNo";
    let first = db.set_web_password(hash, T);
    let (token, _) = issue_session(&c, first, &vec![0; 8], T);
    let h = with_field("cookie", &format!("dshweb={token}"));
    db.clear_web_password();
    assert!(verify_session(&c, &db, &h, T).is_none());
    let second = db.set_web_password(hash, T);
    assert!(second > first);
    assert_eq!(db.web_password(), Some((hash.to_string(), second)));
    assert!(verify_session(&c, &db, &h, T).is_none());
}
