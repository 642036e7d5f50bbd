//! Sessions of the web face: a signed cookie. The signing key is derived from
//! the secret of the gateway and the version of the web password, so a new
//! password ends every session.
use vstd::prelude::*;
use vstd::utf8::encode_utf8;

use crate::auth;
use crate::auth::DeviceView;
use crate::change::{ChangeView, DbView};
use crate::clock;
use crate::config::Config;
use crate::crypto;
use crate::db::TokenDb;
use crate::error::ErrorView;
use crate::http;
use crate::http::{FieldView, Headers};
use crate::jwt;
use crate::jwt::{JwtValue, JwtView};
use crate::split;
use crate::text;

verus! {

/// How long a session lasts, in seconds.
pub const SESSION_TTL: i64 = 43200;

/// A session with less time left than this is renewed, in seconds.
pub const SESSION_REFRESH: i64 = 21600;

// ---- the key --------------------------------------------------------------

/// What the signing key is derived from.
pub open spec fn key_material(jwt_secret: Seq<char>, version: int) -> Seq<u8> {
    encode_utf8("dsh-web-session-v1\0"@) + encode_utf8(jwt_secret) + seq![0u8] + encode_utf8(
        text::signed_decimal(version),
    )
}

/// The key that sessions are signed with.
pub open spec fn session_key(jwt_secret: Seq<char>, version: int) -> Seq<char> {
    text::hex_text(crypto::sha256_of(key_material(jwt_secret, version)))
}

fn extend(out: &mut Vec<u8>, bytes: &[u8])
    ensures
        final(out)@ == old(out)@ + bytes@,
{
    let ghost before = out@;
    for i in 0..bytes.len()
        invariant
            out@ == before + bytes@.take(i as int),
    {
        out.push(bytes[i]);
        assert((before + bytes@.take(i as int)).push(bytes@[i as int]) =~= before + bytes@.take(
            i + 1,
        ));
    }
    assert(bytes@.take(bytes@.len() as int) =~= bytes@);
}

/// The key that sessions are signed with while the web password has a version.
pub fn web_secret(jwt_secret: &str, version: i64) -> (out: String)
    ensures
        out@ == session_key(jwt_secret@, version as int),
{
    let mut data: Vec<u8> = Vec::new();
    extend(&mut data, "dsh-web-session-v1\0".as_bytes());
    extend(&mut data, jwt_secret.as_bytes());
    data.push(0);
    let digits = text::signed_decimal_of(version);
    extend(&mut data, digits.as_str().as_bytes());
    assert(data@ =~= key_material(jwt_secret@, version as int));
    let digest = crypto::sha256(data.as_slice());
    text::hex(digest.as_slice())
}

/// Two versions of the web password never share what the key is derived from.
pub proof fn law_each_version_has_its_own_key_material(
    jwt_secret: Seq<char>,
    a: int,
    b: int,
)
    requires
        a != b,
    ensures
        key_material(jwt_secret, a) != key_material(jwt_secret, b),
{
    let front = encode_utf8("dsh-web-session-v1\0"@) + encode_utf8(jwt_secret) + seq![0u8];
    let x = encode_utf8(text::signed_decimal(a));
    let y = encode_utf8(text::signed_decimal(b));
    if key_material(jwt_secret, a) == key_material(jwt_secret, b) {
        assert((front + x).skip(front.len() as int) =~= x);
        assert((front + y).skip(front.len() as int) =~= y);
        vstd::utf8::encode_utf8_decode_utf8(text::signed_decimal(a));
        vstd::utf8::encode_utf8_decode_utf8(text::signed_decimal(b));
        text::law_signed_decimal_is_injective(a, b);
    }
}

// ---- the password that counts ---------------------------------------------

/// The hash of the web password and its version: that of the register, else
/// that of the configuration, whose version is 0. Without either the web face
/// is closed.
pub open spec fn creds(config: Config, db: DbView) -> Option<(Seq<char>, i64)> {
    match db.web_password {
        Some(w) => Some(w),
        None => if config.web_password_hash@.len() > 0 {
            Some((config.web_password_hash@, 0))
        } else {
            None
        },
    }
}

/// The version of the web password that counts.
pub open spec fn version(config: Config, db: DbView) -> i64 {
    match creds(config, db) {
        Some(c) => c.1,
        None => 0,
    }
}

/// The hash of the web password; `None` where the web face is closed.
pub open spec fn hash(config: Config, db: DbView) -> Option<Seq<char>> {
    match creds(config, db) {
        Some(c) => Some(c.0),
        None => None,
    }
}

/// The hash of the web password and its version; `None` where the web face is
/// closed.
pub fn web_creds(config: &Config, store: &TokenDb) -> (out: Option<(String, i64)>)
    ensures
        match out {
            Some(c) => creds(*config, store@) == Some((c.0@, c.1)),
            None => creds(*config, store@) is None,
        },
{
    match store.web_password() {
        Some(w) => Some(w),
        None => if config.web_password_hash.as_str().is_empty() {
            None
        } else {
            Some((config.web_password_hash.clone(), 0))
        },
    }
}

// ---- claims ---------------------------------------------------------------

pub struct WebClaimsView {
    pub sub: Seq<char>,
    pub jti: Seq<char>,
    pub iat: i64,
    pub exp: i64,
}

/// The claims of a session as they are signed.
pub open spec fn signed_claims(c: WebClaimsView) -> Seq<(Seq<char>, JwtView)> {
    seq![
        ("sub"@, JwtView::Text(c.sub)),
        ("jti"@, JwtView::Text(c.jti)),
        ("iat"@, JwtView::Number(c.iat)),
        ("exp"@, JwtView::Number(c.exp)),
    ]
}

/// The session claims among signed ones; all of them must be there.
pub open spec fn read_claims(claims: Seq<(Seq<char>, JwtView)>) -> Option<WebClaimsView> {
    match (
        jwt::text_claim(claims, "sub"@),
        jwt::text_claim(claims, "jti"@),
        jwt::number_claim(claims, "iat"@),
        jwt::number_claim(claims, "exp"@),
    ) {
        (Some(sub), Some(jti), Some(iat), Some(exp)) => Some(WebClaimsView { sub, jti, iat, exp }),
        _ => None,
    }
}

/// Session claims can be signed and read back.
pub proof fn law_signed_claims_read_back(c: WebClaimsView)
    ensures
        read_claims(signed_claims(c)) == Some(c),
        c.exp >= 0 ==> jwt::reads_back(signed_claims(c)),
        forall|now: i64|
            #[trigger] jwt::is_live(signed_claims(c), now) == (c.exp >= now - jwt::LEEWAY_SECS),
{
    auth::lemma_claim_names();
    let s = signed_claims(c);
    reveal_with_fuel(jwt::claim, 5);
    let s1 = s.drop_first();
    let s2 = s1.drop_first();
    let s3 = s2.drop_first();
    assert(s1[0] == s[1] && s2[0] == s[2] && s3[0] == s[3]);
    if c.exp >= 0 {
        assert(s[3].0 == "exp"@ && s[3].1 is Number);
    }
}

/// The claims of a new session.
pub open spec fn session_claims(rnd: Seq<u8>, now: i64) -> WebClaimsView {
    WebClaimsView {
        sub: "dsh-web"@,
        jti: "web:"@ + text::hex_text(rnd),
        iat: now,
        exp: (now + SESSION_TTL) as i64,
    }
}

/// The cookie value of a new session.
pub open spec fn session_token(
    jwt_secret: Seq<char>,
    version: i64,
    rnd: Seq<u8>,
    now: i64,
) -> Seq<char> {
    jwt::jwt_token(
        signed_claims(session_claims(rnd, now)),
        session_key(jwt_secret, version as int),
    )
}

/// The session was signed: its cookie value can be sent, and the key vouches for
/// its claims.
pub open spec fn issued(jwt_secret: Seq<char>, version: i64, rnd: Seq<u8>, now: i64) -> bool {
    let token = session_token(jwt_secret, version, rnd, now);
    &&& jwt::is_compact(token)
    &&& jwt::jwt_claims(token, session_key(jwt_secret, version as int)) == Some(
        signed_claims(session_claims(rnd, now)),
    )
}

/// Makes a session with given random bytes, at a given time: the cookie value
/// and when it ends.
pub fn issue_session(config: &Config, version: i64, rnd: &Vec<u8>, now: i64) -> (out: (
    String,
    i64,
))
    requires
        clock::is_unix_time(now),
    ensures
        out.0@ == session_token(config.jwt_secret@, version, rnd@, now),
        out.1 == now + SESSION_TTL,
        issued(config.jwt_secret@, version, rnd@, now),
{
    let exp: i64 = now + SESSION_TTL;
    let mut jti = "web:".to_owned();
    jti.push_str(text::hex(rnd.as_slice()).as_str());
    let secret = web_secret(config.jwt_secret.as_str(), version);
    let mut claims: Vec<(String, JwtValue)> = Vec::new();
    claims.push(("sub".to_owned(), JwtValue::Text("dsh-web".to_owned())));
    claims.push(("jti".to_owned(), JwtValue::Text(jti)));
    claims.push(("iat".to_owned(), JwtValue::Number(now)));
    claims.push(("exp".to_owned(), JwtValue::Number(exp)));
    proof {
        assert(jwt::fields(claims@) =~= signed_claims(session_claims(rnd@, now)));
        law_signed_claims_read_back(session_claims(rnd@, now));
    }
    match jwt::encode_jwt(&claims, secret.as_str()) {
        Some(t) => (t, exp),
        None => (String::new(), exp),
    }
}

// ---- the cookie -----------------------------------------------------------

/// The value of the session cookie among the parts of a `Cookie` field.
pub open spec fn cookie_among(parts: Seq<Seq<char>>) -> Option<Seq<char>>
    decreases parts.len(),
{
    if parts.len() == 0 {
        None
    } else {
        match text::stripped(text::trimmed(parts[0]), "dshweb="@) {
            Some(v) => Some(v),
            None => cookie_among(parts.drop_first()),
        }
    }
}

/// The value of the session cookie that a request carries.
pub open spec fn cookie_of(fields: Seq<FieldView>) -> Option<Seq<char>> {
    match http::field_text(fields, "cookie"@) {
        Some(v) => cookie_among(split::parts(v, ';')),
        None => None,
    }
}

fn request_cookie(headers: &Headers) -> (out: Option<String>)
    ensures
        text::opt(out) == cookie_of(headers@),
{
    let v = match headers.text("cookie") {
        Some(v) => v,
        None => {
            return None;
        },
    };
    let parts = split::split(v.as_str(), ';');
    let ghost ps = split::parts(v@, ';');
    assert(ps.skip(0) =~= ps);
    for i in 0..parts.len()
        invariant
            ps == split::views(parts@),
            cookie_of(headers@) == cookie_among(ps),
            cookie_among(ps) == cookie_among(ps.skip(i as int)),
    {
        assert(ps.skip(i as int)[0] == parts@[i as int]@);
        assert(ps.skip(i as int).drop_first() =~= ps.skip(i + 1));
        if let Some(c) = text::strip_prefix(text::trim(parts[i].as_str()).as_str(), "dshweb=") {
            return Some(c);
        }
    }
    assert(ps.skip(parts.len() as int) =~= Seq::<Seq<char>>::empty());
    None
}

/// The session of a request: its id and when it ends. There is none without a
/// cookie that the current key has signed, after its end, or where the web face
/// is closed.
pub open spec fn session_of(
    config: Config,
    db: DbView,
    fields: Seq<FieldView>,
    now: i64,
) -> Option<(Seq<char>, i64)> {
    match (creds(config, db), cookie_of(fields)) {
        (Some(c), Some(raw)) => match jwt::live_claims(
            raw,
            session_key(config.jwt_secret@, c.1 as int),
            now,
        ) {
            Some(claims) => match read_claims(claims) {
                Some(w) if w.sub == "dsh-web"@ && w.exp > now && crypto::phc_well_formed(
                    c.0,
                ) => Some((w.jti, w.exp)),
                _ => None,
            },
            None => None,
        },
        _ => None,
    }
}

/// The session of a request at a given time: its id and when it ends.
pub fn verify_session(config: &Config, store: &TokenDb, headers: &Headers, now: i64) -> (out:
    Option<(String, i64)>)
    ensures
        match out {
            Some(s) => session_of(*config, store@, headers@, now) == Some((s.0@, s.1)),
            None => session_of(*config, store@, headers@, now) is None,
        },
{
    let (hash, version) = match web_creds(config, store) {
        Some(c) => c,
        None => {
            return None;
        },
    };
    let raw = match request_cookie(headers) {
        Some(c) => c,
        None => {
            return None;
        },
    };
    let secret = web_secret(config.jwt_secret.as_str(), version);
    let claims = match jwt::decode_jwt(raw.as_str(), secret.as_str(), now) {
        Some(c) => c,
        None => {
            return None;
        },
    };
    match (
        jwt::get_text(&claims, "sub"),
        jwt::get_text(&claims, "jti"),
        jwt::get_number(&claims, "iat"),
        jwt::get_number(&claims, "exp"),
    ) {
        (Some(sub), Some(jti), Some(_), Some(exp)) => {
            if text::same(sub.as_str(), "dsh-web") && exp > now && crypto::hash_is_well_formed(
                hash.as_str(),
            ) {
                Some((jti, exp))
            } else {
                None
            }
        },
        _ => None,
    }
}

/// The `Set-Cookie` value for a session.
pub open spec fn cookie_text(token: Seq<char>, max_age: int) -> Seq<char> {
    "dshweb="@ + token + "; Path=/; Max-Age="@ + text::signed_decimal(max_age)
        + "; HttpOnly; Secure; SameSite=Strict"@
}

pub fn cookie_header(token: &str, max_age: i64) -> (out: String)
    ensures
        out@ == cookie_text(token@, max_age as int),
{
    let mut out = "dshweb=".to_owned();
    out.push_str(token);
    out.push_str("; Path=/; Max-Age=");
    out.push_str(text::signed_decimal_of(max_age).as_str());
    out.push_str("; HttpOnly; Secure; SameSite=Strict");
    out
}

/// The session cookie is found among others: it is the first part of the
/// `Cookie` field that bears its name.
pub proof fn law_cookie_is_found_among_others(
    fields: Seq<FieldView>,
    value: Seq<char>,
    k: int,
    token: Seq<char>,
)
    requires
        http::field_text(fields, "cookie"@) == Some(value),
        0 <= k < split::parts(value, ';').len(),
        text::stripped(text::trimmed(split::parts(value, ';')[k]), "dshweb="@) == Some(token),
        forall|j: int|
            0 <= j < k ==> text::stripped(
                text::trimmed(#[trigger] split::parts(value, ';')[j]),
                "dshweb="@,
            ) is None,
    ensures
        cookie_of(fields) == Some(token),
{
    lemma_cookie_at(split::parts(value, ';'), k);
}

proof fn lemma_cookie_at(parts: Seq<Seq<char>>, k: int)
    requires
        0 <= k < parts.len(),
        text::stripped(text::trimmed(parts[k]), "dshweb="@) is Some,
        forall|j: int|
            0 <= j < k ==> text::stripped(text::trimmed(#[trigger] parts[j]), "dshweb="@) is None,
    ensures
        cookie_among(parts) == text::stripped(text::trimmed(parts[k]), "dshweb="@),
    decreases k,
{
    if k > 0 {
        let rest = parts.drop_first();
        assert forall|j: int| 0 <= j < k - 1 implies text::stripped(
            text::trimmed(#[trigger] rest[j]),
            "dshweb="@,
        ) is None by {
            assert(rest[j] == parts[j + 1]);
        }
        lemma_cookie_at(rest, k - 1);
    }
}

/// A cookie value that can be sent is what a request gives back that carries the
/// cookie alone.
pub proof fn law_cookie_comes_back(token: Seq<char>, fields: Seq<FieldView>)
    requires
        jwt::is_compact(token),
        http::field_text(fields, "cookie"@) == Some("dshweb="@ + token),
    ensures
        cookie_of(fields) == Some(token),
{
    reveal_strlit("dshweb=");
    let v = "dshweb="@ + token;
    assert forall|i: int| 0 <= i < v.len() implies v[i] != ';' && !text::is_space(
        #[trigger] v[i],
    ) by {
        if i >= 7 {
            assert(v[i] == token[i - 7]);
        }
    }
    text::lemma_run_until(v, ';', v.len());
    assert(split::parts(v, ';') == seq![v]);
    assert(text::trim_start(v) == v);
    assert(text::trim_end(v) == v);
    assert(text::trimmed(v) == v);
    assert("dshweb="@ =~= v.subrange(0, 7));
    assert(v.skip(7) =~= token);
}

/// A session that was issued is recognised until it ends and no longer, in every
/// request whose session cookie it is, as long as the web password is not changed
/// and its hash can be read.
pub proof fn law_session_lasts(
    config: Config,
    db: DbView,
    rnd: Seq<u8>,
    now: i64,
    fields: Seq<FieldView>,
    later: i64,
)
    requires
        clock::is_unix_time(now),
        hash(config, db) is Some,
        crypto::phc_well_formed(hash(config, db)->0),
        issued(config.jwt_secret@, version(config, db), rnd, now),
        cookie_of(fields) == Some(
            session_token(config.jwt_secret@, version(config, db), rnd, now),
        ),
    ensures
        session_of(config, db, fields, later) == (if later < now + SESSION_TTL {
            Some(("web:"@ + text::hex_text(rnd), (now + SESSION_TTL) as i64))
        } else {
            None
        }),
{
    law_signed_claims_read_back(session_claims(rnd, now));
    assert(later < now + SESSION_TTL ==> jwt::is_live(
        signed_claims(session_claims(rnd, now)),
        later,
    ));
}

/// The cookie of a session that was issued can be sent.
pub proof fn law_session_cookie_can_be_sent(token: Seq<char>)
    requires
        jwt::is_compact(token),
    ensures
        http::is_value(cookie_text(token, SESSION_TTL as int)),
{
    reveal_strlit("dshweb=");
    reveal_strlit("; Path=/; Max-Age=");
    reveal_strlit("; HttpOnly; Secure; SameSite=Strict");
    let a = "dshweb="@;
    let b = "; Path=/; Max-Age="@;
    let n = text::signed_decimal(SESSION_TTL as int);
    let d = "; HttpOnly; Secure; SameSite=Strict"@;
    text::lemma_decimal_reads_back(SESSION_TTL as nat);
    let v = cookie_text(token, SESSION_TTL as int);
    assert(v =~= a + token + b + n + d);
    assert forall|i: int| 0 <= i < v.len() implies http::is_value_char(#[trigger] v[i]) by {
        let (p, q, r) = (a.len() as int, a.len() + token.len(), a.len() + token.len() + b.len());
        let t = r + n.len();
        if i < p {
            assert(v[i] == a[i]);
        } else if i < q {
            assert(v[i] == token[i - p]);
        } else if i < r {
            assert(v[i] == b[i - q]);
        } else if i < t {
            assert(v[i] == n[i - r]);
            assert(text::is_digit(n[i - r]));
        } else {
            assert(v[i] == d[i - t]);
        }
    }
}

/// A session ends when the web password changes: it is not recognised where the
/// key of the version that counts now does not vouch for it.
pub proof fn law_sessions_end_with_their_password(
    config: Config,
    db: DbView,
    fields: Seq<FieldView>,
    token: Seq<char>,
    now: i64,
)
    requires
        cookie_of(fields) == Some(token),
        jwt::jwt_claims(token, session_key(config.jwt_secret@, version(config, db) as int)) is None,
    ensures
        session_of(config, db, fields, now) is None,
{
}

/// A device token is no session, whichever key vouches for it.
pub proof fn law_device_token_is_no_session(
    config: Config,
    db: DbView,
    fields: Seq<FieldView>,
    token: Seq<char>,
    jti: Seq<char>,
    device: Seq<char>,
    issued_at: i64,
    exp: int,
    now: i64,
)
    requires
        cookie_of(fields) == Some(token),
        jwt::jwt_claims(token, session_key(config.jwt_secret@, version(config, db) as int)) is None
            || jwt::jwt_claims(
            token,
            session_key(config.jwt_secret@, version(config, db) as int),
        ) == Some(auth::signed_claims(auth::device_claims(jti, device, issued_at, exp))),
    ensures
        session_of(config, db, fields, now) is None,
{
    let claims = auth::signed_claims(auth::device_claims(jti, device, issued_at, exp));
    auth::lemma_claim_names();
    reveal_strlit("dsh-client");
    reveal_strlit("dsh-web");
    assert(claims[0].0 == "sub"@);
    assert(jwt::text_claim(claims, "sub"@) == Some("dsh-client"@));
    assert("dsh-client"@.len() != "dsh-web"@.len());
}

/// A session carries no device claims, so a request that carries one in place of a
/// device token is refused, whichever key vouches for it.
pub proof fn law_session_is_no_device_token(
    db: DbView,
    secret: Seq<char>,
    fields: Seq<FieldView>,
    token: Seq<char>,
    c: WebClaimsView,
    now: i64,
)
    requires
        jwt::bearer(fields) == Some(token),
        jwt::jwt_claims(token, secret) is None || jwt::jwt_claims(token, secret) == Some(
            signed_claims(c),
        ),
    ensures
        auth::read_claims(signed_claims(c)) is None,
        auth::auth_outcome(db, secret, fields, now) == (
            Seq::<ChangeView>::empty(),
            Err::<DeviceView, ErrorView>(ErrorView::Unauthorized),
        ),
{
    auth::lemma_claim_names();
    let s = signed_claims(c);
    reveal_with_fuel(jwt::claim, 5);
    let s1 = s.drop_first();
    let s2 = s1.drop_first();
    let s3 = s2.drop_first();
    assert(s1[0] == s[1] && s2[0] == s[2] && s3[0] == s[3]);
    assert(s3.drop_first().len() == 0);
    assert(jwt::text_claim(s, "device"@) is None);
}

/// No session outlives its time, and none is recognised where the web face is
/// closed.
pub proof fn law_sessions_end(config: Config, db: DbView, fields: Seq<FieldView>, now: i64)
    ensures
        match session_of(config, db, fields, now) {
            Some(s) => s.1 > now,
            None => true,
        },
        creds(config, db) is None ==> session_of(config, db, fields, now) is None,
{
}

/// The key that sessions are signed with: the digest, in hexadecimal, of a fixed
/// word, the secret of the gateway and the version of the password, with a zero
/// byte between each two.
pub proof fn law_session_key(jwt_secret: Seq<char>, version: int)
    ensures
        session_key(jwt_secret, version) == text::hex_text(
            crypto::sha256_of(
                encode_utf8("dsh-web-session-v1"@) + seq![0u8] + encode_utf8(jwt_secret) + seq![0u8]
                    + encode_utf8(text::signed_decimal(version)),
            ),
        ),
{
    reveal_strlit("dsh-web-session-v1");
    reveal_strlit("dsh-web-session-v1\0");
    let (a, b) = ("dsh-web-session-v1"@, "dsh-web-session-v1\0"@);
    assert(vstd::utf8::is_ascii_chars(a));
    assert(vstd::utf8::is_ascii_chars(b));
    vstd::utf8::is_ascii_chars_encode_utf8(a);
    vstd::utf8::is_ascii_chars_encode_utf8(b);
    assert(encode_utf8(b) =~= encode_utf8(a) + seq![0u8]) by {
        assert forall|i: int| 0 <= i < a.len() implies encode_utf8(b)[i] == encode_utf8(a)[i] by {
            assert(b[i] == a[i]);
        }
        assert(b[a.len() as int] == '\0');
    }
}

/// What a session says: that it is one, its id made of its random bytes, when it
/// was started and that it ends twelve hours later. It is signed with the key of
/// the version.
pub proof fn law_session_says(jwt_secret: Seq<char>, version: i64, rnd: Seq<u8>, now: i64)
    requires
        clock::is_unix_time(now),
    ensures
        ({
            let said = seq![
                ("sub"@, JwtView::Text("dsh-web"@)),
                ("jti"@, JwtView::Text("web:"@ + text::hex_text(rnd))),
                ("iat"@, JwtView::Number(now)),
                ("exp"@, JwtView::Number((now + 43200) as i64)),
            ];
            let key = session_key(jwt_secret, version as int);
            &&& session_token(jwt_secret, version, rnd, now) == jwt::jwt_token(said, key)
            &&& issued(jwt_secret, version, rnd, now) ==> jwt::jwt_claims(
                jwt::jwt_token(said, key),
                key,
            ) == Some(said) && jwt::is_compact(jwt::jwt_token(said, key))
        }),
{
}

/// The password that counts is that of the register, and that of the configuration,
/// with version 0, only where the register holds none.
pub proof fn law_password_that_counts(config: Config, db: DbView)
    ensures
        match db.web_password {
            Some(w) => creds(config, db) == Some(w) && version(config, db) == w.1 && hash(config, db)
                == Some(w.0),
            None => version(config, db) == 0 && if config.web_password_hash@.len() > 0 {
                creds(config, db) == Some((config.web_password_hash@, 0i64)) && hash(config, db)
                    == Some(config.web_password_hash@)
            } else {
                creds(config, db) is None && hash(config, db) is None
            },
        },
{
}

/// A request has a session exactly where it carries a cookie that the key of the
/// current version has signed as a session, whose end lies ahead; then the session
/// is the one that the cookie names.
pub proof fn law_sessions_are_read_off_the_cookie(
    config: Config,
    db: DbView,
    fields: Seq<FieldView>,
    now: i64,
    password_hash: Seq<char>,
    password_version: i64,
)
    requires
        creds(config, db) == Some((password_hash, password_version)),
        crypto::phc_well_formed(password_hash),
    ensures
        ({
            let key = session_key(config.jwt_secret@, password_version as int);
            match session_of(config, db, fields, now) {
                Some((jti, end)) => cookie_of(fields) is Some && now < end && match jwt::jwt_claims(
                    cookie_of(fields)->0,
                    key,
                ) {
                    Some(c) => jwt::text_claim(c, "sub"@) == Some("dsh-web"@) && jwt::text_claim(
                        c,
                        "jti"@,
                    ) == Some(jti) && jwt::number_claim(c, "exp"@) == Some(end)
                        && jwt::number_claim(c, "iat"@) is Some,
                    None => false,
                },
                None => cookie_of(fields) is None || match jwt::jwt_claims(
                    cookie_of(fields)->0,
                    key,
                ) {
                    Some(c) => jwt::text_claim(c, "sub"@) != Some("dsh-web"@) || jwt::text_claim(
                        c,
                        "jti"@,
                    ) is None || jwt::number_claim(c, "iat"@) is None || match jwt::number_claim(
                        c,
                        "exp"@,
                    ) {
                        Some(end) => end <= now,
                        None => true,
                    },
                    None => true,
                },
            }
        }),
{
}

/// The cookie that a browser is sent: for the whole site, for as long as it is
/// told, out of reach of scripts, over encrypted connections and from this site
/// only.
pub proof fn law_cookie_is_locked_down(token: Seq<char>, max_age: int)
    ensures
        cookie_text(token, max_age) == "dshweb="@ + token + "; Path=/"@ + "; Max-Age="@
            + text::signed_decimal(max_age) + "; HttpOnly"@ + "; Secure"@ + "; SameSite=Strict"@,
{
    reveal_strlit("; Path=/; Max-Age=");
    reveal_strlit("; Path=/");
    reveal_strlit("; Max-Age=");
    reveal_strlit("; HttpOnly; Secure; SameSite=Strict");
    reveal_strlit("; HttpOnly");
    reveal_strlit("; Secure");
    reveal_strlit("; SameSite=Strict");
    assert("; Path=/; Max-Age="@ =~= "; Path=/"@ + "; Max-Age="@);
    assert("; HttpOnly; Secure; SameSite=Strict"@ =~= "; HttpOnly"@ + "; Secure"@
        + "; SameSite=Strict"@);
    assert(cookie_text(token, max_age) =~= "dshweb="@ + token + "; Path=/"@ + "; Max-Age="@
        + text::signed_decimal(max_age) + "; HttpOnly"@ + "; Secure"@ + "; SameSite=Strict"@);
}

/// A request carries no session where no part of its `Cookie` field bears the name
/// of the session cookie, and where it has no such field.
pub proof fn law_other_cookies_are_no_session(fields: Seq<FieldView>)
    requires
        match http::field_text(fields, "cookie"@) {
            Some(v) => forall|j: int|
                0 <= j < split::parts(v, ';').len() ==> text::stripped(
                    text::trimmed(#[trigger] split::parts(v, ';')[j]),
                    "dshweb="@,
                ) is None,
            None => true,
        },
    ensures
        cookie_of(fields) is None,
{
    if let Some(v) = http::field_text(fields, "cookie"@) {
        lemma_no_cookie(split::parts(v, ';'));
    }
}

proof fn lemma_no_cookie(parts: Seq<Seq<char>>)
    requires
        forall|j: int|
            0 <= j < parts.len() ==> text::stripped(
                text::trimmed(#[trigger] parts[j]),
                "dshweb="@,
            ) is None,
    ensures
        cookie_among(parts) is None,
    decreases parts.len(),
{
    if parts.len() > 0 {
        let rest = parts.drop_first();
        assert(text::stripped(text::trimmed(parts[0]), "dshweb="@) is None);
        assert forall|j: int| 0 <= j < rest.len() implies text::stripped(
            text::trimmed(#[trigger] rest[j]),
            "dshweb="@,
        ) is None by {
            assert(rest[j] == parts[j + 1]);
        }
        lemma_no_cookie(rest);
    }
}

} // verus!
