use dsh_mobile_gateway::change::Change;
use dsh_mobile_gateway::db::TokenDb;

const T: i64 = 1_000_000;

#[test]
fn token_rows() {
    let mut db = TokenDb::open_in_memory();
    db.insert("a", "phone", None, "", "default", T).unwrap();
    db.insert("b", "pad", Some(13101), "mac", "t-1", T + 5).unwrap();
    db.insert("c", "tv", Some(13102), "mbp", "t-1", T + 5).unwrap();
    let e = db.insert("a", "x", None, "", "default", T).unwrap_err();
    assert_eq!(e.message, "UNIQUE constraint failed: tokens.jti");
    let order: Vec<String> = db.list().into_iter().map(|t| t.jti).collect();
    assert_eq!(order, vec!["b", "c", "a"]);
    let of: Vec<String> = db.list_for_tenant("t-1").into_iter().map(|t| t.jti).collect();
    assert_eq!(of, vec!["b", "c"]);
    assert_eq!(db.route_for("b"), Some((Some(13101), "t-1".to_string())));
    assert_eq!(db.host_label_for("b").as_deref(), Some("mac"));
    assert_eq!(db.host_label_for("z"), None);
    assert!(!db.revoke_in_tenant("b", "default"));
    assert!(db.is_valid("b"));
    assert!(db.revoke_in_tenant("b", "t-1"));
    assert!(!db.is_valid("b"));
    assert_eq!(db.route_for("b"), None);
    assert!(!db.revoke("b"));
    assert!(db.revoke("a"));
    assert!(!db.revoke("unknown"));
    assert!(!db.is_valid("unknown"));
    db.touch("c", T + 9);
    assert_eq!(db.list().iter().find(|t| t.jti == "c").unwrap().last_used_at, Some(T + 9));
}

#[test]
fn pairing_rows() {
    let mut db = TokenDb::open_in_memory();
    db.pairing_insert("p1", "CODE", "s", "phone", 600, "", T).unwrap();
    let e = db.pairing_insert("p2", "CODE", "s", "phone", 600, "", T + 1).unwrap_err();
    assert_eq!(e.message, "live pairing with this code exists");
    let e = db.pairing_insert("p1", "OTHER", "s", "phone", 600, "", T + 1).unwrap_err();
    assert_eq!(e.message, "UNIQUE constraint failed: pairings.id");
    assert_eq!(db.pairing_by_code("CODE", T).unwrap().id, "p1");
    assert_eq!(db.pairing_get("p1").unwrap().expires_at, T + 600);
    db.pairing_sweep(T + 600);
    assert_eq!(db.pairing_get("p1").unwrap().status, "pending");
    db.pairing_sweep(T + 601);
    assert_eq!(db.pairing_get("p1").unwrap().status, "expired");
    assert!(db.pairing_by_code("CODE", T).is_none());
    assert!(db.pairing_insert("p3", "CODE", "s", "phone", 600, "", T + 1799).is_err());
    db.pairing_insert("p4", "CODE", "s", "pad", 600, "t-1", T + 1800).unwrap();
    let (p, token) = db.pairing_status_with_token("CODE").unwrap();
    assert_eq!((p.id.as_str(), p.tenant_id.as_str()), ("p4", "t-1"));
    assert!(token.is_none());
    db.insert("j", "pad", Some(1), "mac", "t-1", T + 1801).unwrap();
    db.pairing_set_status("p4", "confirmed");
    db.pairing_set_token("p4", "j");
    let (p, token) = db.pairing_status_with_token("CODE").unwrap();
    assert_eq!(p.status, "confirmed");
    assert_eq!(token.unwrap().jti, "j");
    assert!(db.pairing_status_with_token("NONE").is_none());
    assert!(db.pairing_get("none").is_none());
}

#[test]
fn claim_rows() {
    let mut db = TokenDb::open_in_memory();
    db.claim_insert("c2", "CODE", "H2", "two", 2, 300, "default", T + 1).unwrap();
    db.claim_insert("c1", "CODE", "H1", "one", 1, 300, "t-1", T).unwrap();
    db.claim_insert("cx", "OTHER", "HX", "x", 3, 300, "t-1", T).unwrap();
    let e = db.claim_insert("c1", "CODE", "H", "l", 1, 300, "t-1", T).unwrap_err();
    assert_eq!(e.message, "UNIQUE constraint failed: claims.id");
    let ids = |v: Vec<dsh_mobile_gateway::rows::ClaimRow>| -> Vec<String> {
        v.into_iter().map(|c| c.id).collect()
    };
    assert_eq!(ids(db.claims_for("CODE", T + 300)), vec!["c1", "c2"]);
    assert_eq!(ids(db.claims_for("CODE", T + 301)), vec!["c2"]);
    assert_eq!(db.claim_get("c1").unwrap().status, "expired");
    assert!(!db.claim_consume("c1"));
    assert!(db.claim_consume("c2"));
    assert!(!db.claim_consume("c2"));
    assert_eq!(db.claim_get("c2").unwrap().status, "consumed");
    assert!(db.claim_get("zz").is_none());
    assert!(db.claims_for("CODE", T).is_empty());
}

#[test]
fn tenant_and_host_rows() {
    let mut db = TokenDb::open_in_memory();
    db.tenant_insert("t-2", "two", "hash2", T + 1).unwrap();
    db.tenant_insert("t-1", "one", "hash1", T).unwrap();
    let e = db.tenant_insert("t-1", "x", "h", T).unwrap_err();
    assert_eq!(e.message, "UNIQUE constraint failed: tenants.id");
    let ids: Vec<String> = db.tenants_list().into_iter().map(|t| t.id).collect();
    assert_eq!(ids, vec!["t-1", "t-2"]);
    assert_eq!(db.tenant_by_key("hash2").unwrap().id, "t-2");
    assert!(db.tenant_by_key("nope").is_none());
    assert!(db.tenant_set_revoked("t-2", true));
    assert!(db.tenant_by_key("hash2").is_none());
    assert!(db.tenant_by_id("t-2").unwrap().revoked);
    assert!(db.tenant_set_revoked("t-2", false));
    assert!(db.tenant_by_key("hash2").is_some());
    assert!(!db.tenant_set_revoked("t-9", true));

    db.host_insert("h-2", "t-1", "b", 13102, T).unwrap();
    db.host_insert("h-1", "t-1", "a", 13101, T).unwrap();
    let e = db.host_insert("h-1", "t-1", "a", 13109, T).unwrap_err();
    assert_eq!(e.message, "UNIQUE constraint failed: hosts.id");
    let e = db.host_insert("h-3", "t-2", "a", 13101, T).unwrap_err();
    assert_eq!(e.message, "UNIQUE constraint failed: hosts.port");
    let ports: Vec<u16> = db.hosts_list().into_iter().map(|h| h.port).collect();
    assert_eq!(ports, vec![13101, 13102]);
    assert!(db.host_by_port(13101).unwrap().enabled);
    assert!(db.host_remove("h-1"));
    assert!(!db.host_remove("h-1"));
    assert!(db.host_by_port(13101).is_none());
    db.host_insert("h-3", "t-2", "a", 13101, T).unwrap();
}

#[test]
fn web_password_row() {
    let mut db = TokenDb::open_in_memory();
    assert_eq!(db.web_password(), None);
    assert_eq!(db.set_web_password("h1", T), 1);
    assert_eq!(db.set_web_password("h2", T), 2);
    assert_eq!(db.web_password(), Some(("h2".to_string(), 2)));
    db.clear_web_password();
    assert_eq!(db.web_password(), None);
    assert_eq!(db.web_version(), 2);
    assert_eq!(db.set_web_password("h3", T), 3);
}

#[test]
fn journal_rebuilds_the_register() {
    let mut db = TokenDb::open_in_memory();
    db.insert("a", "phone", None, "", "default", T).unwrap();
    db.pairing_insert("p", "CODE", "s", "phone", 600, "", T).unwrap();
    db.claim_insert("c", "CODE", "H", "mac", 1, 300, "default", T).unwrap();
    db.claim_consume("c");
    db.pairing_set_status("p", "confirmed");
    db.pairing_set_token("p", "a");
    db.revoke("a");
    db.touch("a", T + 1);
    db.tenant_insert("t-1", "one", "hash", T).unwrap();
    db.tenant_set_revoked("t-1", true);
    db.host_insert("h", "t-1", "l", 13100, T).unwrap();
    db.host_insert("g", "t-1", "l", 13101, T).unwrap();
    db.host_remove("h");
    db.set_web_password("w", T);

    let mut copy = TokenDb::open_in_memory();
    let journal = db.take_changes();
    assert!(db.take_changes().is_empty());
    assert!(matches!(journal[1], Change::Sweep { now: T }));
    for change in journal {
        copy.apply(change);
    }
    assert!(copy.list()[0].revoked);
    assert_eq!(copy.list()[0].last_used_at, Some(T + 1));
    assert_eq!(copy.claim_get("c").unwrap().status, "consumed");
    let (p, token) = copy.pairing_status_with_token("CODE").unwrap();
    assert_eq!((p.status.as_str(), token.unwrap().jti.as_str()), ("confirmed", "a"));
    assert!(copy.tenant_by_id("t-1").unwrap().revoked);
    assert_eq!(copy.hosts_list().len(), 1);
    assert_eq!(copy.web_password(), Some(("w".to_string(), 1)));
}
