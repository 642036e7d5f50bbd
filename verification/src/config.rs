//! Configuration, read from environment variables with the prefix
//! `DSH_GATEWAY_`. The signing secret must be given; without a password hash
//! there is no password login.
use vstd::prelude::*;

use crate::text;

verus! {

/// The tunnel ports that a claim may bind by default, one per Mac.
pub const TUNNEL_PORT_MIN: u16 = 13100;

pub const TUNNEL_PORT_MAX: u16 = 13199;

/// The largest body that a route without a device token takes, in bytes.
pub const PUBLIC_BODY_LIMIT: usize = 65536;

/// The largest body that is relayed, in bytes.
pub const RELAY_BODY_LIMIT: usize = 167772160;

#[derive(Debug)]
pub struct Config {
    /// The address of the public listener. By default only the same machine
    /// reaches it, where the reverse proxy runs.
    pub bind: String,
    pub port: u16,
    /// The port of the admin listener, which is bound to 127.0.0.1.
    pub admin_port: u16,
    /// The default upstream. Tokens of a password login are relayed to it.
    pub upstream_addr: String,
    /// The `Host` that relayed requests carry.
    pub upstream_host: String,
    pub jwt_secret: String,
    /// The hash of the login password; empty where password login is off.
    pub password_hash: String,
    /// The bearer token of the admin listener; empty where it asks for none.
    pub admin_token: String,
    /// Where the Unix sockets of the tunnels are.
    pub tunnel_sock_dir: Option<String>,
    pub token_ttl_days: i64,
    pub database_path: String,
    pub tunnel_port_min: u16,
    pub tunnel_port_max: u16,
    /// The public host name of the web face. The host of an `Origin` is compared
    /// with it in lower case.
    pub web_hostname: String,
    pub web_bind: String,
    pub web_port: u16,
    /// The hash of the web password where the register holds none.
    pub web_password_hash: String,
    /// The tunnel port of the web face; the default upstream without one.
    pub web_upstream_port: Option<u16>,
}

/// Environment variables: names and values.
pub open spec fn var_views(vars: Seq<(String, String)>) -> Seq<(Seq<char>, Seq<char>)> {
    vars.map_values(|v: (String, String)| (v.0@, v.1@))
}

/// The value of a variable.
pub open spec fn var(vars: Seq<(Seq<char>, Seq<char>)>, key: Seq<char>) -> Option<Seq<char>>
    decreases vars.len(),
{
    if vars.len() == 0 {
        None
    } else if vars[0].0 == key {
        Some(vars[0].1)
    } else {
        var(vars.drop_first(), key)
    }
}

/// The value of a variable; `None` where it is not set.
pub fn env_var(vars: &Vec<(String, String)>, key: &str) -> (out: Option<String>)
    ensures
        text::opt(out) == var(var_views(vars@), key@),
{
    let ghost vs = var_views(vars@);
    assert(vs.skip(0) == vs);
    for i in 0..vars.len()
        invariant
            vs == var_views(vars@),
            var(vs, key@) == var(vs.skip(i as int), key@),
    {
        assert(vs.skip(i as int)[0] == (vars@[i as int].0@, vars@[i as int].1@));
        assert(vs.skip(i as int).drop_first() == vs.skip(i + 1));
        if text::same(vars[i].0.as_str(), key) {
            return Some(vars[i].1.clone());
        }
    }
    assert(vs.skip(vars.len() as int) == Seq::<(Seq<char>, Seq<char>)>::empty());
    None
}

pub open spec fn or_else(value: Option<Seq<char>>, default: Seq<char>) -> Seq<char> {
    match value {
        Some(v) => v,
        None => default,
    }
}

/// The value of a variable, or a default where it is not set.
pub fn env_or(vars: &Vec<(String, String)>, key: &str, default: &str) -> (out: String)
    ensures
        out@ == or_else(var(var_views(vars@), key@), default@),
{
    match env_var(vars, key) {
        Some(v) => v,
        None => default.to_owned(),
    }
}

/// The value of a variable that must be set.
pub fn env_required(vars: &Vec<(String, String)>, key: &str) -> (out: Option<String>)
    ensures
        text::opt(out) == var(var_views(vars@), key@),
{
    env_var(vars, key)
}

/// A value that is not empty.
pub open spec fn filled(value: Option<Seq<char>>) -> Option<Seq<char>> {
    match value {
        Some(v) if v.len() > 0 => Some(v),
        _ => None,
    }
}

/// The value of a variable; `None` where it is not set or empty.
pub fn env_filled(vars: &Vec<(String, String)>, key: &str) -> (out: Option<String>)
    ensures
        text::opt(out) == filled(var(var_views(vars@), key@)),
{
    match env_var(vars, key) {
        Some(v) => if v.as_str().is_empty() {
            None
        } else {
            Some(v)
        },
        None => None,
    }
}

/// The port number that a variable holds, if it holds one.
pub open spec fn port_var(vars: Seq<(Seq<char>, Seq<char>)>, key: Seq<char>) -> Option<u16> {
    match var(vars, key) {
        Some(v) => text::parsed_u16(v),
        None => None,
    }
}

pub open spec fn port_or(
    vars: Seq<(Seq<char>, Seq<char>)>,
    key: Seq<char>,
    default: u16,
) -> u16 {
    match port_var(vars, key) {
        Some(p) => p,
        None => default,
    }
}

pub open spec fn number_or(
    vars: Seq<(Seq<char>, Seq<char>)>,
    key: Seq<char>,
    default: i64,
) -> i64 {
    match var(vars, key) {
        Some(v) => match text::parsed_i64(v) {
            Some(n) => n,
            None => default,
        },
        None => default,
    }
}

/// The port number that a variable holds; `None` where it holds none.
pub fn env_port(vars: &Vec<(String, String)>, key: &str) -> (out: Option<u16>)
    ensures
        out == port_var(var_views(vars@), key@),
{
    match env_var(vars, key) {
        Some(v) => text::parse_u16(v.as_str()),
        None => None,
    }
}

/// The port number that a variable holds, or a default.
pub fn env_parse(vars: &Vec<(String, String)>, key: &str, default: u16) -> (out: u16)
    ensures
        out == port_or(var_views(vars@), key@, default),
{
    match env_port(vars, key) {
        Some(p) => p,
        None => default,
    }
}

/// The integer that a variable holds, or a default.
pub fn env_parse_i64(vars: &Vec<(String, String)>, key: &str, default: i64) -> (out: i64)
    ensures
        out == number_or(var_views(vars@), key@, default),
{
    match env_var(vars, key) {
        Some(v) => match text::parse_i64(v.as_str()) {
            Some(n) => n,
            None => default,
        },
        None => default,
    }
}

/// The port at the end of an address, behind its last colon.
pub open spec fn port_of(addr: Seq<char>) -> Option<u16> {
    text::parsed_u16(text::after_last(addr, ':'))
}

/// The configuration is the one that the environment describes.
pub open spec fn described(c: Config, v: Seq<(Seq<char>, Seq<char>)>) -> bool {
    &&& var(v, "DSH_GATEWAY_JWT_SECRET"@) == Some(c.jwt_secret@)
    &&& c.bind@ == or_else(var(v, "DSH_GATEWAY_BIND"@), "127.0.0.1"@)
    &&& c.upstream_addr@ == or_else(var(v, "DSH_GATEWAY_UPSTREAM"@), "127.0.0.1:13100"@)
    &&& c.upstream_host@ == or_else(var(v, "DSH_GATEWAY_UPSTREAM_HOST"@), "127.0.0.1:3080"@)
    &&& c.password_hash@ == or_else(var(v, "DSH_GATEWAY_PASSWORD_HASH"@), ""@)
    &&& c.admin_token@ == or_else(var(v, "DSH_GATEWAY_ADMIN_TOKEN"@), ""@)
    &&& c.database_path@ == or_else(var(v, "DSH_GATEWAY_DATABASE"@), "dsh-gateway.db"@)
    &&& c.web_hostname@ == or_else(var(v, "DSH_GATEWAY_WEB_HOSTNAME"@), ""@)
    &&& c.web_bind@ == or_else(var(v, "DSH_GATEWAY_WEB_BIND"@), "127.0.0.1"@)
    &&& c.web_password_hash@ == or_else(var(v, "DSH_GATEWAY_WEB_PASSWORD_HASH"@), ""@)
    &&& c.port == port_or(v, "DSH_GATEWAY_PORT"@, 8102)
    &&& c.admin_port == port_or(v, "DSH_GATEWAY_ADMIN_PORT"@, 8103)
    &&& c.tunnel_port_min == port_or(v, "DSH_GATEWAY_TUNNEL_PORT_MIN"@, 13100)
    &&& c.tunnel_port_max == port_or(v, "DSH_GATEWAY_TUNNEL_PORT_MAX"@, 13199)
    &&& c.web_port == port_or(v, "DSH_GATEWAY_WEB_PORT"@, 8104)
    &&& text::opt(c.tunnel_sock_dir) == filled(var(v, "DSH_GATEWAY_TUNNEL_SOCK_DIR"@))
    &&& c.token_ttl_days == number_or(v, "DSH_GATEWAY_TOKEN_TTL_DAYS"@, 30)
    &&& c.web_upstream_port == port_var(v, "DSH_GATEWAY_WEB_UPSTREAM_PORT"@)
}

impl Config {
    /// The configuration that the environment describes; `None` where the
    /// signing secret is missing.
    pub fn from_env(vars: &Vec<(String, String)>) -> (out: Option<Config>)
        ensures
            ({
                let v = var_views(vars@);
                match out {
                    Some(c) => {
                        &&& var(v, "DSH_GATEWAY_JWT_SECRET"@) == Some(c.jwt_secret@)
                        &&& c.bind@ == or_else(var(v, "DSH_GATEWAY_BIND"@), "127.0.0.1"@)
                        &&& c.port == port_or(v, "DSH_GATEWAY_PORT"@, 8102)
                        &&& c.admin_port == port_or(v, "DSH_GATEWAY_ADMIN_PORT"@, 8103)
                        &&& c.upstream_addr@ == or_else(
                            var(v, "DSH_GATEWAY_UPSTREAM"@),
                            "127.0.0.1:13100"@,
                        )
                        &&& c.upstream_host@ == or_else(
                            var(v, "DSH_GATEWAY_UPSTREAM_HOST"@),
                            "127.0.0.1:3080"@,
                        )
                        &&& c.password_hash@ == or_else(var(v, "DSH_GATEWAY_PASSWORD_HASH"@), ""@)
                        &&& c.admin_token@ == or_else(var(v, "DSH_GATEWAY_ADMIN_TOKEN"@), ""@)
                        &&& text::opt(c.tunnel_sock_dir) == filled(
                            var(v, "DSH_GATEWAY_TUNNEL_SOCK_DIR"@),
                        )
                        &&& c.token_ttl_days == number_or(v, "DSH_GATEWAY_TOKEN_TTL_DAYS"@, 30)
                        &&& c.database_path@ == or_else(
                            var(v, "DSH_GATEWAY_DATABASE"@),
                            "dsh-gateway.db"@,
                        )
                        &&& c.tunnel_port_min == port_or(
                            v,
                            "DSH_GATEWAY_TUNNEL_PORT_MIN"@,
                            TUNNEL_PORT_MIN,
                        )
                        &&& c.tunnel_port_max == port_or(
                            v,
                            "DSH_GATEWAY_TUNNEL_PORT_MAX"@,
                            TUNNEL_PORT_MAX,
                        )
                        &&& c.web_hostname@ == or_else(var(v, "DSH_GATEWAY_WEB_HOSTNAME"@), ""@)
                        &&& c.web_bind@ == or_else(var(v, "DSH_GATEWAY_WEB_BIND"@), "127.0.0.1"@)
                        &&& c.web_port == port_or(v, "DSH_GATEWAY_WEB_PORT"@, 8104)
                        &&& c.web_password_hash@ == or_else(
                            var(v, "DSH_GATEWAY_WEB_PASSWORD_HASH"@),
                            ""@,
                        )
                        &&& c.web_upstream_port == port_var(v, "DSH_GATEWAY_WEB_UPSTREAM_PORT"@)
                    },
                    None => var(v, "DSH_GATEWAY_JWT_SECRET"@) is None,
                }
            }),
            out is Some ==> described(out->0, var_views(vars@)),
    {
        let jwt_secret = match env_required(vars, "DSH_GATEWAY_JWT_SECRET") {
            Some(s) => s,
            None => {
                return None;
            },
        };
        Some(
            Config {
                bind: env_or(vars, "DSH_GATEWAY_BIND", "127.0.0.1"),
                port: env_parse(vars, "DSH_GATEWAY_PORT", 8102),
                admin_port: env_parse(vars, "DSH_GATEWAY_ADMIN_PORT", 8103),
                upstream_addr: env_or(vars, "DSH_GATEWAY_UPSTREAM", "127.0.0.1:13100"),
                upstream_host: env_or(vars, "DSH_GATEWAY_UPSTREAM_HOST", "127.0.0.1:3080"),
                jwt_secret,
                password_hash: env_or(vars, "DSH_GATEWAY_PASSWORD_HASH", ""),
                admin_token: env_or(vars, "DSH_GATEWAY_ADMIN_TOKEN", ""),
                tunnel_sock_dir: env_filled(vars, "DSH_GATEWAY_TUNNEL_SOCK_DIR"),
                token_ttl_days: env_parse_i64(vars, "DSH_GATEWAY_TOKEN_TTL_DAYS", 30),
                database_path: env_or(vars, "DSH_GATEWAY_DATABASE", "dsh-gateway.db"),
                tunnel_port_min: env_parse(vars, "DSH_GATEWAY_TUNNEL_PORT_MIN", TUNNEL_PORT_MIN),
                tunnel_port_max: env_parse(vars, "DSH_GATEWAY_TUNNEL_PORT_MAX", TUNNEL_PORT_MAX),
                web_hostname: env_or(vars, "DSH_GATEWAY_WEB_HOSTNAME", ""),
                web_bind: env_or(vars, "DSH_GATEWAY_WEB_BIND", "127.0.0.1"),
                web_port: env_parse(vars, "DSH_GATEWAY_WEB_PORT", 8104),
                web_password_hash: env_or(vars, "DSH_GATEWAY_WEB_PASSWORD_HASH", ""),
                web_upstream_port: env_port(vars, "DSH_GATEWAY_WEB_UPSTREAM_PORT"),
            },
        )
    }

    /// The tunnel port of the default upstream; the lowest allowed port where
    /// its address ends in none.
    pub fn default_tunnel_port(&self) -> (port: u16)
        ensures
            port == (match port_of(self.upstream_addr@) {
                Some(p) => p,
                None => self.tunnel_port_min,
            }),
    {
        match text::parse_u16(text::tail_after(self.upstream_addr.as_str(), ':').as_str()) {
            Some(p) => p,
            None => self.tunnel_port_min,
        }
    }
}

/// A variable has the value that it was set to first.
pub proof fn law_first_setting_counts(
    before: Seq<(Seq<char>, Seq<char>)>,
    key: Seq<char>,
    value: Seq<char>,
    behind: Seq<(Seq<char>, Seq<char>)>,
)
    requires
        forall|i: int| 0 <= i < before.len() ==> (#[trigger] before[i]).0 != key,
    ensures
        var(before, key) is None,
        var(before.push((key, value)) + behind, key) == Some(value),
    decreases before.len(),
{
    let all = before.push((key, value)) + behind;
    if before.len() > 0 {
        let rest = before.drop_first();
        assert(before[0].0 != key);
        assert forall|i: int| 0 <= i < rest.len() implies (#[trigger] rest[i]).0 != key by {
            assert(rest[i] == before[i + 1]);
        }
        law_first_setting_counts(rest, key, value, behind);
        assert(all[0] == before[0]);
        assert(all.drop_first() =~= rest.push((key, value)) + behind);
    } else {
        assert(all[0] == (key, value));
    }
}

/// A variable that is not set, or that holds no number where one is asked for, has
/// its default.
pub proof fn law_defaults(
    vars: Seq<(Seq<char>, Seq<char>)>,
    key: Seq<char>,
    default: Seq<char>,
    port: u16,
    number: i64,
)
    ensures
        match var(vars, key) {
            Some(v) => {
                &&& or_else(var(vars, key), default) == v
                &&& filled(var(vars, key)) == (if v.len() == 0 {
                    None
                } else {
                    Some(v)
                })
                &&& port_var(vars, key) == text::parsed_u16(v)
                &&& text::parsed_u16(v) is Some ==> port_or(vars, key, port) == text::parsed_u16(
                    v,
                )->0
                &&& text::parsed_u16(v) is None ==> port_or(vars, key, port) == port
                &&& text::parsed_i64(v) is Some ==> number_or(vars, key, number)
                    == text::parsed_i64(v)->0
                &&& text::parsed_i64(v) is None ==> number_or(vars, key, number) == number
            },
            None => {
                &&& or_else(var(vars, key), default) == default
                &&& filled(var(vars, key)) is None
                &&& port_var(vars, key) is None
                &&& port_or(vars, key, port) == port
                &&& number_or(vars, key, number) == number
            },
        },
{
}

/// The port of an address stands behind its last colon.
pub proof fn law_port_of_an_address(host: Seq<char>, port: u16, tail: Seq<char>)
    requires
        forall|i: int| 0 <= i < tail.len() ==> tail[i] != ':',
    ensures
        port_of(host + seq![':'] + text::decimal(port as nat)) == Some(port),
        port_of(host + seq![':'] + tail) == text::parsed_u16(tail),
        port_of(tail) == text::parsed_u16(tail),
{
    let digits = text::decimal(port as nat);
    text::lemma_decimal_reads_back(port as nat);
    assert forall|i: int| 0 <= i < digits.len() implies digits[i] != ':' by {
        assert(text::is_digit(digits[i]));
    }
    text::law_tail_follows_the_last(host, digits, ':');
    text::law_tail_follows_the_last(host, tail, ':');
    text::law_port_text_reads_back(port);
}

/// Every setting is taken from the variable that is named after it: a text as it
/// is, a number where it can be read.
pub proof fn law_settings_are_taken(
    c: Config,
    v: Seq<(Seq<char>, Seq<char>)>,
    t: Seq<char>,
    p: u16,
    n: i64,
)
    requires
        described(c, v),
    ensures
        var(v, "DSH_GATEWAY_JWT_SECRET"@) == Some(t) ==> c.jwt_secret@ == t,
        var(v, "DSH_GATEWAY_BIND"@) == Some(t) ==> c.bind@ == t,
        var(v, "DSH_GATEWAY_UPSTREAM"@) == Some(t) ==> c.upstream_addr@ == t,
        var(v, "DSH_GATEWAY_UPSTREAM_HOST"@) == Some(t) ==> c.upstream_host@ == t,
        var(v, "DSH_GATEWAY_PASSWORD_HASH"@) == Some(t) ==> c.password_hash@ == t,
        var(v, "DSH_GATEWAY_ADMIN_TOKEN"@) == Some(t) ==> c.admin_token@ == t,
        var(v, "DSH_GATEWAY_DATABASE"@) == Some(t) ==> c.database_path@ == t,
        var(v, "DSH_GATEWAY_WEB_HOSTNAME"@) == Some(t) ==> c.web_hostname@ == t,
        var(v, "DSH_GATEWAY_WEB_BIND"@) == Some(t) ==> c.web_bind@ == t,
        var(v, "DSH_GATEWAY_WEB_PASSWORD_HASH"@) == Some(t) ==> c.web_password_hash@ == t,
        var(v, "DSH_GATEWAY_PORT"@) == Some(t) && text::parsed_u16(t) == Some(p) ==> c.port == p,
        var(v, "DSH_GATEWAY_ADMIN_PORT"@) == Some(t) && text::parsed_u16(t) == Some(p) ==> c.admin_port == p,
        var(v, "DSH_GATEWAY_TUNNEL_PORT_MIN"@) == Some(t) && text::parsed_u16(t) == Some(p) ==> c.tunnel_port_min == p,
        var(v, "DSH_GATEWAY_TUNNEL_PORT_MAX"@) == Some(t) && text::parsed_u16(t) == Some(p) ==> c.tunnel_port_max == p,
        var(v, "DSH_GATEWAY_WEB_PORT"@) == Some(t) && text::parsed_u16(t) == Some(p) ==> c.web_port == p,
        var(v, "DSH_GATEWAY_WEB_UPSTREAM_PORT"@) == Some(t) && text::parsed_u16(t) == Some(p)
            ==> c.web_upstream_port == Some(p),
        var(v, "DSH_GATEWAY_TOKEN_TTL_DAYS"@) == Some(t) && text::parsed_i64(t) == Some(n)
            ==> c.token_ttl_days == n,
        var(v, "DSH_GATEWAY_TUNNEL_SOCK_DIR"@) == Some(t) && t.len() > 0 ==> text::opt(
            c.tunnel_sock_dir,
        ) == Some(t),
{
}

/// What is not set has its default.
pub proof fn law_settings_have_defaults(c: Config, v: Seq<(Seq<char>, Seq<char>)>)
    requires
        described(c, v),
    ensures
        var(v, "DSH_GATEWAY_BIND"@) is None ==> c.bind@ == "127.0.0.1"@,
        var(v, "DSH_GATEWAY_UPSTREAM"@) is None ==> c.upstream_addr@ == "127.0.0.1:13100"@,
        var(v, "DSH_GATEWAY_UPSTREAM_HOST"@) is None ==> c.upstream_host@ == "127.0.0.1:3080"@,
        var(v, "DSH_GATEWAY_PASSWORD_HASH"@) is None ==> c.password_hash@ == ""@,
        var(v, "DSH_GATEWAY_ADMIN_TOKEN"@) is None ==> c.admin_token@ == ""@,
        var(v, "DSH_GATEWAY_DATABASE"@) is None ==> c.database_path@ == "dsh-gateway.db"@,
        var(v, "DSH_GATEWAY_WEB_HOSTNAME"@) is None ==> c.web_hostname@ == ""@,
        var(v, "DSH_GATEWAY_WEB_BIND"@) is None ==> c.web_bind@ == "127.0.0.1"@,
        var(v, "DSH_GATEWAY_WEB_PASSWORD_HASH"@) is None ==> c.web_password_hash@ == ""@,
        var(v, "DSH_GATEWAY_PORT"@) is None ==> c.port == 8102,
        var(v, "DSH_GATEWAY_ADMIN_PORT"@) is None ==> c.admin_port == 8103,
        var(v, "DSH_GATEWAY_TUNNEL_PORT_MIN"@) is None ==> c.tunnel_port_min == 13100,
        var(v, "DSH_GATEWAY_TUNNEL_PORT_MAX"@) is None ==> c.tunnel_port_max == 13199,
        var(v, "DSH_GATEWAY_WEB_PORT"@) is None ==> c.web_port == 8104,
        var(v, "DSH_GATEWAY_WEB_UPSTREAM_PORT"@) is None ==> c.web_upstream_port is None,
        var(v, "DSH_GATEWAY_TOKEN_TTL_DAYS"@) is None ==> c.token_ttl_days == 30,
        var(v, "DSH_GATEWAY_TUNNEL_SOCK_DIR"@) is None ==> c.tunnel_sock_dir is None,
{
}

} // verus!
