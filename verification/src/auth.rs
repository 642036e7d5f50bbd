//! Device tokens: logging in with the password, checking the token of a
//! request, and the devices of a tenant.
use vstd::prelude::*;
use vstd::utf8::encode_utf8;

use crate::change;
use crate::change::{ChangeView, DbView};
use crate::clock;
use crate::config::Config;
use crate::crypto;
use crate::db;
use crate::db::TokenDb;
use crate::error;
use crate::error::{AppError, AppResult, ErrorView};
use crate::http;
use crate::http::{FieldView, Headers};
use crate::jwt;
use crate::jwt::{JwtValue, JwtView};
use crate::rows;
use crate::rows::TokenRow;
use crate::split;
use crate::state;
use crate::state::AppState;
use crate::table;
use crate::tenant;
use crate::tenant::DEFAULT_TENANT;
use crate::text;

pub use crate::limiter::LoginRateLimiter;

verus! {

// ---- claims ---------------------------------------------------------------

/// The claims of a device token. A token that is revoked is refused before it
/// expires: what counts is its row in the register.
#[derive(Debug)]
pub struct GatewayClaims {
    pub sub: String,
    pub jti: String,
    pub device: String,
    pub iat: i64,
    pub exp: i64,
}

pub struct ClaimsView {
    pub sub: Seq<char>,
    pub jti: Seq<char>,
    pub device: Seq<char>,
    pub iat: i64,
    pub exp: i64,
}

impl View for GatewayClaims {
    type V = ClaimsView;

    open spec fn view(&self) -> ClaimsView {
        ClaimsView {
            sub: self.sub@,
            jti: self.jti@,
            device: self.device@,
            iat: self.iat,
            exp: self.exp,
        }
    }
}

/// The claims as they are signed.
pub open spec fn signed_claims(c: ClaimsView) -> Seq<(Seq<char>, JwtView)> {
    seq![
        ("sub"@, JwtView::Text(c.sub)),
        ("jti"@, JwtView::Text(c.jti)),
        ("device"@, JwtView::Text(c.device)),
        ("iat"@, JwtView::Number(c.iat)),
        ("exp"@, JwtView::Number(c.exp)),
    ]
}

/// The device claims among signed ones; all of them must be there.
pub open spec fn read_claims(claims: Seq<(Seq<char>, JwtView)>) -> Option<ClaimsView> {
    match (
        jwt::text_claim(claims, "sub"@),
        jwt::text_claim(claims, "jti"@),
        jwt::text_claim(claims, "device"@),
        jwt::number_claim(claims, "iat"@),
        jwt::number_claim(claims, "exp"@),
    ) {
        (Some(sub), Some(jti), Some(device), Some(iat), Some(exp)) => Some(
            ClaimsView { sub, jti, device, iat, exp },
        ),
        _ => None,
    }
}

/// The names of the claims are different, and none is `aud`.
pub proof fn lemma_claim_names()
    ensures
        "sub"@ != "jti"@,
        "sub"@ != "device"@,
        "sub"@ != "iat"@,
        "sub"@ != "exp"@,
        "sub"@ != "aud"@,
        "jti"@ != "device"@,
        "jti"@ != "iat"@,
        "jti"@ != "exp"@,
        "jti"@ != "aud"@,
        "device"@ != "iat"@,
        "device"@ != "exp"@,
        "device"@ != "aud"@,
        "iat"@ != "exp"@,
        "iat"@ != "aud"@,
        "exp"@ != "aud"@,
{
    reveal_strlit("sub");
    reveal_strlit("jti");
    reveal_strlit("device");
    reveal_strlit("iat");
    reveal_strlit("exp");
    reveal_strlit("aud");
    assert("sub"@[0] == 's' && "jti"@[0] == 'j' && "device"@[0] == 'd' && "iat"@[0] == 'i'
        && "exp"@[0] == 'e' && "aud"@[0] == 'a');
}

/// Device claims can be signed and read back.
pub proof fn law_signed_claims_read_back(c: ClaimsView)
    ensures
        read_claims(signed_claims(c)) == Some(c),
        c.exp >= 0 ==> jwt::reads_back(signed_claims(c)),
        forall|now: i64|
            #[trigger] jwt::is_live(signed_claims(c), now) == (c.exp >= now - jwt::LEEWAY_SECS),
{
    lemma_claim_names();
    let s = signed_claims(c);
    reveal_with_fuel(jwt::claim, 6);
    let s1 = s.drop_first();
    let s2 = s1.drop_first();
    let s3 = s2.drop_first();
    let s4 = s3.drop_first();
    assert(s1[0] == s[1] && s2[0] == s[2] && s3[0] == s[3] && s4[0] == s[4]);
    if c.exp >= 0 {
        assert(s[4].0 == "exp"@ && s[4].1 is Number);
    }
}

impl GatewayClaims {
    /// The claims as they are signed.
    pub fn fields(&self) -> (out: Vec<(String, JwtValue)>)
        ensures
            jwt::fields(out@) == signed_claims(self@),
    {
        let mut out: Vec<(String, JwtValue)> = Vec::new();
        out.push(("sub".to_owned(), JwtValue::Text(self.sub.clone())));
        out.push(("jti".to_owned(), JwtValue::Text(self.jti.clone())));
        out.push(("device".to_owned(), JwtValue::Text(self.device.clone())));
        out.push(("iat".to_owned(), JwtValue::Number(self.iat)));
        out.push(("exp".to_owned(), JwtValue::Number(self.exp)));
        assert(jwt::fields(out@) =~= signed_claims(self@));
        out
    }

    /// The device claims among signed ones.
    pub fn from_fields(claims: &Vec<(String, JwtValue)>) -> (out: Option<GatewayClaims>)
        ensures
            match out {
                Some(c) => read_claims(jwt::fields(claims@)) == Some(c@),
                None => read_claims(jwt::fields(claims@)) is None,
            },
    {
        match (
            jwt::get_text(claims, "sub"),
            jwt::get_text(claims, "jti"),
            jwt::get_text(claims, "device"),
            jwt::get_number(claims, "iat"),
            jwt::get_number(claims, "exp"),
        ) {
            (Some(sub), Some(jti), Some(device), Some(iat), Some(exp)) => Some(
                GatewayClaims { sub, jti, device, iat, exp },
            ),
            _ => None,
        }
    }
}

/// The claims of a new device token.
pub open spec fn device_claims(
    jti: Seq<char>,
    device: Seq<char>,
    now: i64,
    exp: int,
) -> ClaimsView {
    ClaimsView { sub: "dsh-client"@, jti, device, iat: now, exp: exp as i64 }
}

/// The token for a device.
pub open spec fn device_token(
    jti: Seq<char>,
    device: Seq<char>,
    now: i64,
    exp: int,
    secret: Seq<char>,
) -> Seq<char> {
    jwt::jwt_token(signed_claims(device_claims(jti, device, now, exp)), secret)
}

/// The secret vouches for a token with these claims.
pub open spec fn vouched(token: Seq<char>, secret: Seq<char>, c: ClaimsView) -> bool {
    jwt::jwt_claims(token, secret) == Some(signed_claims(c))
}

/// Signs the token for a device.
pub fn issue_token(jti: &str, device: &str, now: i64, exp: i64, secret: &str) -> (token: String)
    ensures
        token@ == device_token(jti@, device@, now, exp as int, secret@),
        exp >= 0 ==> vouched(token@, secret@, device_claims(jti@, device@, now, exp as int)),
{
    let claims = GatewayClaims {
        sub: "dsh-client".to_owned(),
        jti: jti.to_owned(),
        device: device.to_owned(),
        iat: now,
        exp,
    };
    proof {
        law_signed_claims_read_back(claims@);
    }
    match jwt::encode_jwt(&claims.fields(), secret) {
        Some(t) => t,
        None => String::new(),
    }
}

// ---- where a request comes from -------------------------------------------

/// The address that a request comes from: `X-Real-IP`, as the reverse proxy sets
/// it, else the first address of `X-Forwarded-For`, else the other end of the
/// connection.
pub open spec fn source_ip(headers: Headers) -> Seq<char> {
    match http::field_text(headers@, "x-real-ip"@) {
        Some(v) => v,
        None => match http::field_text(headers@, "x-forwarded-for"@) {
            Some(v) if text::trimmed(split::parts(v, ',')[0]).len() > 0 => text::trimmed(
                split::parts(v, ',')[0],
            ),
            _ => match headers.peer {
                Some(p) => p@,
                None => "unknown"@,
            },
        },
    }
}

/// The address that a request comes from; `unknown` where nothing tells it.
pub fn client_ip(headers: &Headers) -> (out: String)
    ensures
        out@ == source_ip(*headers),
{
    if let Some(v) = headers.text("x-real-ip") {
        return v;
    }
    if let Some(v) = headers.text("x-forwarded-for") {
        let parts = split::split(v.as_str(), ',');
        proof {
            split::lemma_parts_some(v@, ',');
            assert(split::views(parts@)[0] == parts@[0]@);
        }
        let first = text::trim(parts[0].as_str());
        if !first.as_str().is_empty() {
            return first;
        }
    }
    match &headers.peer {
        Some(p) => p.clone(),
        None => "unknown".to_owned(),
    }
}

// ---- logging in with the password -----------------------------------------

pub struct LoginRequest {
    pub password: String,
    pub device: String,
}

/// A token and when it expires, in seconds since 1970.
#[derive(Debug)]
pub struct LoginResponse {
    pub token: String,
    pub expires_at: i64,
}

impl View for LoginResponse {
    type V = (Seq<char>, i64);

    open spec fn view(&self) -> (Seq<char>, i64) {
        (self.token@, self.expires_at)
    }
}

/// What a login leads to, once it may be tried: what is written down and what
/// is answered.
pub open spec fn login_outcome(
    config: Config,
    db: DbView,
    req: LoginRequest,
    jti: Seq<char>,
    now: i64,
) -> (Seq<ChangeView>, Result<(Seq<char>, i64), ErrorView>) {
    let none = Seq::<ChangeView>::empty();
    let exp = clock::days_later(now, config.token_ttl_days);
    let device = text::head(req.device@, 64);
    if let Some(reason) = crypto::phc_refusal(config.password_hash@) {
        (none, Err(ErrorView::Internal("password hash malformed: "@ + reason)))
    } else if !crypto::accepted(encode_utf8(req.password@), config.password_hash@) {
        (none, Err(ErrorView::Unauthorized))
    } else if !clock::in_calendar(exp) {
        (none, Err(ErrorView::Internal("token lifetime out of range"@)))
    } else if table::first(db.tokens, db::has_jti(jti)) is Some {
        (
            none,
            Err(ErrorView::Internal("db insert: "@ + "UNIQUE constraint failed: tokens.jti"@)),
        )
    } else {
        (
            seq![
                ChangeView::InsertToken(
                    db::new_token(jti, device, None, ""@, DEFAULT_TENANT@, now),
                ),
            ],
            Ok((device_token(jti, device, now, exp, config.jwt_secret@), exp as i64)),
        )
    }
}

/// Logs a device in with the password, at a given time and with a given token
/// id. The token belongs to the operator's tenant and is bound to no tunnel. One
/// whose lifetime goes beyond the calendar is not issued.
pub fn login_at(
    store: &mut TokenDb,
    config: &Config,
    req: &LoginRequest,
    jti: &str,
    now: i64,
) -> (res: AppResult<LoginResponse>)
    ensures
        ({
            let out = login_outcome(*config, old(store)@, *req, jti@, now);
            &&& old(store).advanced(final(store), out.0)
            &&& error::viewed(res) == out.1
            &&& res is Ok && res->Ok_0.expires_at >= 0 ==> vouched(
                res->Ok_0.token@,
                config.jwt_secret@,
                device_claims(
                    jti@,
                    text::head(req.device@, 64),
                    now,
                    res->Ok_0.expires_at as int,
                ),
            )
        }),
{
    proof {
        store.lemma_advanced_none();
        reveal_strlit("");
    }
    if let Some(reason) = crypto::hash_refusal(config.password_hash.as_str()) {
        return Err(error::internal("password hash malformed: ", reason.as_str()));
    }
    if !crypto::accepts(req.password.as_str().as_bytes(), config.password_hash.as_str()) {
        return Err(AppError::Unauthorized);
    }
    let exp: i64 = match clock::add_days(now, config.token_ttl_days) {
        Some(t) => t,
        None => {
            return Err(AppError::Internal("token lifetime out of range".to_owned()));
        },
    };
    let device = text::take_chars(req.device.as_str(), 64);
    let token = issue_token(jti, device.as_str(), now, exp, config.jwt_secret.as_str());
    match store.insert(jti, device.as_str(), None, "", DEFAULT_TENANT, now) {
        Ok(_) => Ok(LoginResponse { token, expires_at: exp }),
        Err(e) => Err(error::internal("db insert: ", e.message.as_str())),
    }
}

/// A login was handled: counted at `tick`, at the time `now`, with the token id
/// `jti`.
pub open spec fn login_handled(
    pre: AppState,
    post: AppState,
    headers: Headers,
    req: LoginRequest,
    res: AppResult<LoginResponse>,
    tick: u128,
    jti: Seq<char>,
    now: i64,
) -> bool {
    let ip = source_ip(headers);
    let out = login_outcome(pre.config, pre.db@, req, jti, now);
    &&& crypto::is_uuid(jti)
    &&& clock::is_unix_time(now)
    &&& state::kept_but_db_and_login(pre, post)
    &&& pre.login_limiter.counted(&post.login_limiter, ip, tick)
    &&& if !pre.login_limiter.admits(ip, tick) {
        &&& post.db == pre.db
        &&& error::viewed(res) == Err::<(Seq<char>, i64), _>(
            ErrorView::Conflict("too many attempts, retry later"@),
        )
    } else {
        &&& pre.db.advanced(&post.db, out.0)
        &&& error::viewed(res) == out.1
        &&& res is Ok && res->Ok_0.expires_at >= 0 ==> vouched(
            res->Ok_0.token@,
            pre.config.jwt_secret@,
            device_claims(jti, text::head(req.device@, 64), now, res->Ok_0.expires_at as int),
        )
    }
}

/// Logs a device in with the password. Without a password hash in the
/// configuration there is no such login, and attempts are limited per address.
pub fn login_handler(state: &mut AppState, headers: &Headers, req: &LoginRequest) -> (res:
    AppResult<LoginResponse>)
    ensures
        old(state).config.password_hash@.len() == 0 ==> *final(state) == *old(state)
            && error::viewed(res) == Err::<(Seq<char>, i64), _>(
            ErrorView::Forbidden("password login disabled; use pairing"@),
        ),
        old(state).config.password_hash@.len() > 0 ==> exists|tick: u128, jti: Seq<char>, now: i64|
            #[trigger] login_handled(
                *old(state),
                *final(state),
                *headers,
                *req,
                res,
                tick,
                jti,
                now,
            ),
{
    if state.config.password_hash.as_str().is_empty() {
        return Err(AppError::Forbidden("password login disabled; use pairing".to_owned()));
    }
    let ghost pre = *state;
    let ip = client_ip(headers);
    let jti = crypto::new_uuid();
    let now = clock::utc_now();
    let allowed = state.login_limiter.allow(ip.as_str());
    let ghost tick = choose|tick: u128|
        allowed == pre.login_limiter.admits(ip@, tick) && #[trigger] pre.login_limiter.counted(
            &state.login_limiter,
            ip@,
            tick,
        );
    let res = if !allowed {
        Err(AppError::Conflict("too many attempts, retry later".to_owned()))
    } else {
        login_at(&mut state.db, &state.config, req, jti.as_str(), now)
    };
    assert(login_handled(pre, *state, *headers, *req, res, tick, jti@, now));
    res
}

// ---- checking the token of a request --------------------------------------

/// The device that a request comes from, and where its requests go.
#[derive(Debug)]
pub struct AuthedDevice {
    pub jti: String,
    pub device: String,
    /// The tunnel port that the token is bound to; `None` for the default
    /// upstream.
    pub upstream_port: Option<u16>,
    pub tenant_id: String,
}

pub struct DeviceView {
    pub jti: Seq<char>,
    pub device: Seq<char>,
    pub upstream_port: Option<u16>,
    pub tenant_id: Seq<char>,
}

impl View for AuthedDevice {
    type V = DeviceView;

    open spec fn view(&self) -> DeviceView {
        DeviceView {
            jti: self.jti@,
            device: self.device@,
            upstream_port: self.upstream_port,
            tenant_id: self.tenant_id@,
        }
    }
}

/// The claims of the token that a request carries, where the secret vouches for
/// it and it has not expired.
pub open spec fn request_claims(fields: Seq<FieldView>, secret: Seq<char>, now: i64) -> Option<
    ClaimsView,
> {
    match jwt::bearer(fields) {
        Some(token) => match jwt::live_claims(token, secret, now) {
            Some(c) => read_claims(c),
            None => None,
        },
        None => None,
    }
}

/// What the check of a request leads to: what is written down, and the device
/// or the refusal.
pub open spec fn auth_outcome(
    db: DbView,
    secret: Seq<char>,
    fields: Seq<FieldView>,
    now: i64,
) -> (Seq<ChangeView>, Result<DeviceView, ErrorView>) {
    match request_claims(fields, secret, now) {
        Some(c) if db::token_valid(db, c.jti) => {
            let route = db::route(db, c.jti)->0;
            (
                seq![ChangeView::TouchToken { jti: c.jti, at: now }],
                Ok(
                    DeviceView {
                        jti: c.jti,
                        device: c.device,
                        upstream_port: route.0,
                        tenant_id: route.1,
                    },
                ),
            )
        },
        _ => (Seq::empty(), Err(ErrorView::Unauthorized)),
    }
}

/// Checks the token of a request at a given time: the secret must vouch for it,
/// it must not have expired and its row must not be revoked.
pub fn authenticate(store: &mut TokenDb, secret: &str, headers: &Headers, now: i64) -> (res:
    AppResult<AuthedDevice>)
    ensures
        ({
            let out = auth_outcome(old(store)@, secret@, headers@, now);
            &&& old(store).advanced(final(store), out.0)
            &&& error::viewed(res) == out.1
        }),
{
    proof {
        store.lemma_advanced_none();
    }
    let token = match jwt::extract_bearer_token(headers) {
        Ok(t) => t,
        Err(_) => {
            return Err(AppError::Unauthorized);
        },
    };
    let fields = match jwt::decode_jwt(token.as_str(), secret, now) {
        Some(c) => c,
        None => {
            return Err(AppError::Unauthorized);
        },
    };
    let claims = match GatewayClaims::from_fields(&fields) {
        Some(c) => c,
        None => {
            return Err(AppError::Unauthorized);
        },
    };
    if !store.is_valid(claims.jti.as_str()) {
        return Err(AppError::Unauthorized);
    }
    proof {
        db::lemma_valid_has_route(store@, claims.jti@);
    }
    match store.route_for(claims.jti.as_str()) {
        Some(route) => {
            store.touch(claims.jti.as_str(), now);
            Ok(
                AuthedDevice {
                    jti: claims.jti,
                    device: claims.device,
                    upstream_port: route.0,
                    tenant_id: route.1,
                },
            )
        },
        None => Err(AppError::Unauthorized),
    }
}

/// A request was checked at the time `now`.
pub open spec fn auth_handled(
    pre: AppState,
    post: AppState,
    fields: Seq<FieldView>,
    res: AppResult<AuthedDevice>,
    now: i64,
) -> bool {
    let out = auth_outcome(pre.db@, pre.config.jwt_secret@, fields, now);
    &&& clock::is_unix_time(now)
    &&& state::kept_but_db(pre, post)
    &&& pre.db.advanced(&post.db, out.0)
    &&& error::viewed(res) == out.1
}

/// Checks the token of a request. Every relayed request and the device routes
/// go through this.
pub fn auth_middleware(state: &mut AppState, headers: &Headers) -> (res: AppResult<AuthedDevice>)
    ensures
        exists|now: i64|
            #[trigger] auth_handled(*old(state), *final(state), headers@, res, now),
{
    let now = clock::utc_now();
    let res = authenticate(&mut state.db, state.config.jwt_secret.as_str(), headers, now);
    assert(auth_handled(*old(state), *state, headers@, res, now));
    res
}

// ---- the devices of a tenant ----------------------------------------------

/// The tokens of the tenant that a device belongs to, newest first.
pub fn devices_handler(state: &AppState, device: &AuthedDevice) -> (out: Vec<TokenRow>)
    ensures
        rows::token_views(out@) == db::tokens_of_tenant(state.db@, device.tenant_id@),
{
    state.db.list_for_tenant(device.tenant_id.as_str())
}

pub struct RevokeRequest {
    pub jti: String,
}

/// Whether a token was revoked.
#[derive(Debug)]
pub struct RevokeResponse {
    pub revoked: bool,
}

/// Revokes a token of the tenant that a device belongs to. The token of another
/// tenant and an unknown one are answered alike.
pub fn revoke_handler(state: &mut AppState, device: &AuthedDevice, req: &RevokeRequest) -> (out:
    RevokeResponse)
    ensures
        out.revoked == (table::first(
            old(state).db@.tokens,
            db::has_live_jti_of(req.jti@, device.tenant_id@),
        ) is Some),
        old(state).db.advanced(
            &final(state).db,
            seq![
                ChangeView::RevokeTokenInTenant { jti: req.jti@, tenant_id: device.tenant_id@ },
            ],
        ),
        state::kept_but_db(*old(state), *final(state)),
{
    let revoked = state.db.revoke_in_tenant(req.jti.as_str(), device.tenant_id.as_str());
    RevokeResponse { revoked }
}

// ---- what holds of tokens -------------------------------------------------

/// A token that a login has issued passes the check until it expires, and its
/// requests go to the default upstream.
pub proof fn law_login_token_passes(
    config: Config,
    db: DbView,
    req: LoginRequest,
    jti: Seq<char>,
    now: i64,
    token: Seq<char>,
    fields: Seq<FieldView>,
    later: i64,
)
    requires
        login_outcome(config, db, req, jti, now).1 is Ok,
        0 <= clock::days_later(now, config.token_ttl_days),
        vouched(
            token,
            config.jwt_secret@,
            device_claims(
                jti,
                text::head(req.device@, 64),
                now,
                clock::days_later(now, config.token_ttl_days),
            ),
        ),
        jwt::bearer(fields) == Some(token),
        later <= clock::days_later(now, config.token_ttl_days),
    ensures
        auth_outcome(
            change::replay(db, login_outcome(config, db, req, jti, now).0),
            config.jwt_secret@,
            fields,
            later,
        ).1 == Ok::<DeviceView, ErrorView>(
            DeviceView {
                jti,
                device: text::head(req.device@, 64),
                upstream_port: None,
                tenant_id: DEFAULT_TENANT@,
            },
        ),
{
    let exp = clock::days_later(now, config.token_ttl_days);
    let device = text::head(req.device@, 64);
    let c = device_claims(jti, device, now, exp);
    law_signed_claims_read_back(c);
    assert(jwt::is_live(signed_claims(c), later));
    let row = db::new_token(jti, device, None, ""@, DEFAULT_TENANT@, now);
    change::lemma_replay_one(db, ChangeView::InsertToken(row));
    let after = change::apply(db, ChangeView::InsertToken(row));
    table::lemma_first_push(db.tokens, row, db::has_jti(jti));
    db::lemma_valid_has_route(after, jti);
}

/// A request with a revoked token is refused, and so is one with a token that
/// the register does not know.
pub proof fn law_revoked_token_is_refused(
    db: DbView,
    jti: Seq<char>,
    secret: Seq<char>,
    fields: Seq<FieldView>,
    now: i64,
)
    requires
        request_claims(fields, secret, now) is Some ==> request_claims(fields, secret, now)->0.jti
            == jti,
    ensures
        auth_outcome(
            change::apply(db, ChangeView::RevokeToken { jti }),
            secret,
            fields,
            now,
        ) == (Seq::<ChangeView>::empty(), Err::<DeviceView, ErrorView>(ErrorView::Unauthorized)),
        table::first(db.tokens, db::has_jti(jti)) is None ==> auth_outcome(
            db,
            secret,
            fields,
            now,
        ) == (Seq::<ChangeView>::empty(), Err::<DeviceView, ErrorView>(ErrorView::Unauthorized)),
{
    let f = |t: rows::TokenView| change::token_revoked(t, jti);
    table::lemma_first_map(db.tokens, db::has_jti(jti), f);
    table::lemma_first_holds(db.tokens, db::has_jti(jti));
    assert(change::apply(db, ChangeView::RevokeToken { jti }).tokens =~= db.tokens.map_values(f));
}

/// A tenant that revokes a token of its own ends it; a tenant that names the
/// token of another changes nothing for it.
pub proof fn law_tenants_revoke_their_own(db: DbView, jti: Seq<char>, tenant: Seq<char>)
    requires
        table::first(db.tokens, db::has_jti(jti)) is Some,
    ensures
        ({
            let after = change::apply(
                db,
                ChangeView::RevokeTokenInTenant { jti, tenant_id: tenant },
            );
            let owner = table::first(db.tokens, db::has_jti(jti))->0.tenant_id;
            &&& owner == tenant ==> !db::token_valid(after, jti)
            &&& owner != tenant ==> db::token_valid(after, jti) == db::token_valid(db, jti)
        }),
{
    let f = |t: rows::TokenView| change::token_revoked_in(t, jti, tenant);
    table::lemma_first_map(db.tokens, db::has_jti(jti), f);
    table::lemma_first_holds(db.tokens, db::has_jti(jti));
    assert(change::apply(
        db,
        ChangeView::RevokeTokenInTenant { jti, tenant_id: tenant },
    ).tokens =~= db.tokens.map_values(f));
}

/// Every token that a tenant is shown is its own, and it is shown all of them.
pub proof fn law_tenants_see_their_own(db: DbView, tenant: Seq<char>)
    ensures
        forall|i: int|
            0 <= i < db::tokens_of_tenant(db, tenant).len() ==> (
            #[trigger] db::tokens_of_tenant(db, tenant)[i]).tenant_id == tenant,
        forall|i: int|
            0 <= i < db.tokens.len() && (#[trigger] db.tokens[i]).tenant_id == tenant
                ==> db::tokens_of_tenant(db, tenant).contains(db.tokens[i]),
{
    broadcast use vstd::seq_lib::group_filter_ensures;

    let shown = db::tokens_of_tenant(db, tenant);
    assert forall|i: int| 0 <= i < shown.len() implies (#[trigger] shown[i]).tenant_id
        == tenant by {
        assert(db::of_tenant(tenant)(shown[i]));
    }
    assert forall|i: int|
        0 <= i < db.tokens.len() && (#[trigger] db.tokens[i]).tenant_id
            == tenant implies shown.contains(db.tokens[i]) by {
        table::lemma_ranked_has_all(db.tokens, db::newest(), i);
        assert(db::of_tenant(tenant)(db.tokens[i]));
    }
}

/// Where a request comes from: the reverse proxy says so, else the first address of
/// those that the request has passed, else the connection.
pub proof fn law_source_of_a_request(headers: Headers, first: Seq<char>, rest: Seq<char>)
    requires
        forall|i: int| 0 <= i < first.len() ==> first[i] != ',',
    ensures
        http::field_text(headers@, "x-real-ip"@) is Some ==> source_ip(headers)
            == http::field_text(headers@, "x-real-ip"@)->0,
        http::field_text(headers@, "x-real-ip"@) is None && (http::field_text(
            headers@,
            "x-forwarded-for"@,
        ) == Some(first) || http::field_text(headers@, "x-forwarded-for"@) == Some(
            first + seq![','] + rest,
        )) && text::trimmed(first).len() > 0 ==> source_ip(headers) == text::trimmed(first),
        http::field_text(headers@, "x-real-ip"@) is None && (http::field_text(
            headers@,
            "x-forwarded-for"@,
        ) is None || ((http::field_text(headers@, "x-forwarded-for"@) == Some(first)
            || http::field_text(headers@, "x-forwarded-for"@) == Some(first + seq![','] + rest))
            && text::trimmed(first).len() == 0)) ==> source_ip(headers) == (match headers.peer {
            Some(p) => p@,
            None => "unknown"@,
        }),
{
    split::law_parts_are_between(first, ',', rest);
}

/// The claims of a device token, one by one; a text among them is no number and a
/// number no text.
pub proof fn law_device_claims_are_read_by_name(claims: Seq<(Seq<char>, JwtView)>)
    ensures
        match read_claims(claims) {
            Some(c) => {
                &&& jwt::claim(claims, "sub"@) == Some(JwtView::Text(c.sub))
                &&& jwt::claim(claims, "jti"@) == Some(JwtView::Text(c.jti))
                &&& jwt::claim(claims, "device"@) == Some(JwtView::Text(c.device))
                &&& jwt::claim(claims, "iat"@) == Some(JwtView::Number(c.iat))
                &&& jwt::claim(claims, "exp"@) == Some(JwtView::Number(c.exp))
            },
            None => !(jwt::claim(claims, "sub"@) is Some && jwt::claim(claims, "sub"@)->0 is Text)
                || !(jwt::claim(claims, "jti"@) is Some && jwt::claim(claims, "jti"@)->0 is Text)
                || !(jwt::claim(claims, "device"@) is Some && jwt::claim(claims, "device"@)->0
                is Text) || !(jwt::claim(claims, "iat"@) is Some && jwt::claim(claims, "iat"@)->0
                is Number) || !(jwt::claim(claims, "exp"@) is Some && jwt::claim(
                claims,
                "exp"@,
            )->0 is Number),
        },
{
}

/// What a device token says: who it is for, its id, its device, when it was issued
/// and when it expires.
pub proof fn law_device_token_says(
    jti: Seq<char>,
    device: Seq<char>,
    now: i64,
    exp: i64,
    secret: Seq<char>,
    token: Seq<char>,
)
    ensures
        ({
            let said = seq![
                ("sub"@, JwtView::Text("dsh-client"@)),
                ("jti"@, JwtView::Text(jti)),
                ("device"@, JwtView::Text(device)),
                ("iat"@, JwtView::Number(now)),
                ("exp"@, JwtView::Number(exp)),
            ];
            &&& device_token(jti, device, now, exp as int, secret) == jwt::jwt_token(said, secret)
            &&& vouched(token, secret, device_claims(jti, device, now, exp as int)) <==> (
            jwt::jwt_claims(token, secret) == Some(said))
        }),
{
}

} // verus!
