use dsh_mobile_gateway::config::{
    env_or, env_parse, env_parse_i64, env_required, Config, PUBLIC_BODY_LIMIT, RELAY_BODY_LIMIT,
};

fn vars(pairs: &[(&str, &str)]) -> Vec<(String, String)> {
    pairs.iter().map(|(k, v)| (k.to_string(), v.to_string())).collect()
}

#[test]
fn config_has_defaults_but_for_the_secret() {
    assert!(Config::from_env(&vars(&[])).is_none());
    let c = Config::from_env(&vars(&[("DSH_GATEWAY_JWT_SECRET", "s")])).unwrap();
    assert_eq!(c.jwt_secret, "s");
    assert_eq!(c.bind, "127.0.0.1");
    assert_eq!((c.port, c.admin_port, c.web_port), (8102, 8103, 8104));
    assert_eq!(c.upstream_addr, "127.0.0.1:13100");
    assert_eq!(c.upstream_host, "127.0.0.1:3080");
    assert_eq!(c.password_hash, "");
    assert_eq!(c.admin_token, "");
    assert_eq!(c.tunnel_sock_dir, None);
    assert_eq!(c.token_ttl_days, 30);
    assert_eq!(c.database_path, "dsh-gateway.db");
    assert_eq!((c.tunnel_port_min, c.tunnel_port_max), (13100, 13199));
    assert_eq!(c.web_hostname, "");
    assert_eq!(c.web_bind, "127.0.0.1");
    assert_eq!(c.web_password_hash, "");
    assert_eq!(c.web_upstream_port, None);
}

#[test]
fn config_takes_what_is_set() {
    let c = Config::from_env(&vars(&[
        ("DSH_GATEWAY_JWT_SECRET", "s"),
        ("DSH_GATEWAY_BIND", "0.0.0.0"),
        ("DSH_GATEWAY_PORT", "9000"),
        ("DSH_GATEWAY_ADMIN_PORT", "no number"),
        ("DSH_GATEWAY_TOKEN_TTL_DAYS", "-3"),
        ("DSH_GATEWAY_TUNNEL_SOCK_DIR", "/run/t"),
        ("DSH_GATEWAY_WEB_UPSTREAM_PORT", "13105"),
    ]))
    .unwrap();
    assert_eq!(c.bind, "0.0.0.0");
    assert_eq!((c.port, c.admin_port), (9000, 8103));
    assert_eq!(c.token_ttl_days, -3);
    assert_eq!(c.tunnel_sock_dir.as_deref(), Some("/run/t"));
    assert_eq!(c.web_upstream_port, Some(13105));
    let blank = vars(&[("DSH_GATEWAY_JWT_SECRET", "s"), ("DSH_GATEWAY_TUNNEL_SOCK_DIR", "")]);
    assert_eq!(Config::from_env(&blank).unwrap().tunnel_sock_dir, None);
}

#[test]
fn variables_fall_back() {
    let v = vars(&[("A", "1"), ("B", "x"), ("A", "2")]);
    assert_eq!(env_or(&v, "A", "d"), "1");
    assert_eq!(env_or(&v, "C", "d"), "d");
    assert_eq!(env_required(&v, "C"), None);
    assert_eq!(env_parse(&v, "A", 7), 1);
    assert_eq!(env_parse(&v, "B", 7), 7);
    assert_eq!(env_parse_i64(&v, "A", 7), 1);
    assert_eq!(env_parse_i64(&v, "B", -7), -7);
}

#[test]
fn default_tunnel_port_is_that_of_the_upstream() {
    let mut c = Config::from_env(&vars(&[("DSH_GATEWAY_JWT_SECRET", "s")])).unwrap();
    assert_eq!(c.default_tunnel_port(), 13100);
    c.upstream_addr = "[::1]:4000".into();
    assert_eq!(c.default_tunnel_port(), 4000);
    c.upstream_addr = "localhost".into();
    c.tunnel_port_min = 13150;
    assert_eq!(c.default_tunnel_port(), 13150);
    c.upstream_addr = "localhost:70000".into();
    assert_eq!(c.default_tunnel_port(), 13150);
}

#[test]
fn body_limits() {
    assert_eq!(PUBLIC_BODY_LIMIT, 64 * 1024);
    assert_eq!(RELAY_BODY_LIMIT, 160 * 1024 * 1024);
}
