//! Tenants and their hosts.
//!
//! The operator reaches the admin listener and acts across tenants. A tenant is
//! registered with the digest of an admin key, which is shown once, and acts on
//! the public listener within its own bounds. Without a registered tenant every
//! tenant request is refused.
use vstd::prelude::*;
use vstd::utf8::encode_utf8;

use crate::auth;
use crate::change;
use crate::change::{ChangeView, DbView};
use crate::clock;
use crate::config::Config;
use crate::crypto;
use crate::db;
use crate::db::TokenDb;
use crate::error;
use crate::error::{AppError, AppResult, ErrorView, Refusal};
use crate::http::{FieldView, Headers};
use crate::jwt;
use crate::rows;
use crate::rows::{HostRow, TenantRow};
use crate::state;
use crate::state::AppState;
use crate::table;
use crate::text;

verus! {

/// The tenant of the operator. It is not registered.
pub const DEFAULT_TENANT: &'static str = "default";

/// On whose behalf an admin request acts. The operator's is `default`.
#[derive(Debug)]
pub struct TenantCtx {
    pub id: String,
    pub operator: bool,
}

impl View for TenantCtx {
    type V = (Seq<char>, bool);

    open spec fn view(&self) -> (Seq<char>, bool) {
        (self.id@, self.operator)
    }
}

impl Clone for TenantCtx {
    fn clone(&self) -> (out: Self)
        ensures
            out@ == self@,
    {
        TenantCtx { id: self.id.clone(), operator: self.operator }
    }
}

// ---- keys -----------------------------------------------------------------

/// An admin key: 32 random bytes, in hexadecimal.
pub fn generate_tenant_key() -> (key: String)
    ensures
        exists|bytes: Seq<u8>| bytes.len() == 32 && key@ == #[trigger] text::hex_text(bytes),
        key@.len() == 64,
{
    let bytes = crypto::random_bytes(32);
    proof {
        text::lemma_hex_text_len(bytes@);
    }
    text::hex(bytes.as_slice())
}

/// The digest of an admin key.
pub open spec fn key_digest(key: Seq<char>) -> Seq<char> {
    text::hex_text(crypto::sha256_of(encode_utf8(key)))
}

/// The digest of an admin key, under which it is registered.
pub fn key_hash(key: &str) -> (out: String)
    ensures
        out@ == key_digest(key@),
        out@.len() == 64,
{
    let digest = crypto::sha256(key.as_bytes());
    proof {
        text::lemma_hex_text_len(digest@);
    }
    text::hex(digest.as_slice())
}

// ---- whose request --------------------------------------------------------

/// The tenant that a request on the public listener acts for. A request without
/// a key, with an unknown one, or with that of a revoked tenant is answered
/// alike.
pub open spec fn tenant_outcome(db: DbView, fields: Seq<FieldView>) -> Result<
    (Seq<char>, bool),
    (u16, Seq<char>),
> {
    match jwt::bearer(fields) {
        Some(key) => match db::tenant_with_key(db, key_digest(key)) {
            Some(t) => Ok((t.id, false)),
            None => Err((401u16, "tenant key required"@)),
        },
        None => Err((401u16, "tenant key required"@)),
    }
}

pub open spec fn ctx_viewed(res: Result<TenantCtx, Refusal>) -> Result<
    (Seq<char>, bool),
    (u16, Seq<char>),
> {
    match res {
        Ok(c) => Ok(c@),
        Err(r) => Err(r@),
    }
}

/// The tenant that a request acts for, by the key that it carries.
pub fn tenant_of_request(store: &TokenDb, headers: &Headers) -> (res: Result<TenantCtx, Refusal>)
    ensures
        ctx_viewed(res) == tenant_outcome(store@, headers@),
{
    if let Ok(key) = jwt::extract_bearer_token(headers) {
        if let Some(t) = store.tenant_by_key(key_hash(key.as_str()).as_str()) {
            return Ok(TenantCtx { id: t.id, operator: false });
        }
    }
    Err(Refusal { status: 401, message: "tenant key required".to_owned() })
}

/// A tenant request was checked, counted at `tick`.
pub open spec fn tenant_handled(
    pre: AppState,
    post: AppState,
    headers: Headers,
    res: Result<TenantCtx, Refusal>,
    tick: u128,
) -> bool {
    let ip = auth::source_ip(headers);
    &&& state::kept_but_admin(pre, post)
    &&& pre.admin_limiter.counted(&post.admin_limiter, ip, tick)
    &&& ctx_viewed(res) == (if pre.admin_limiter.admits(ip, tick) {
        tenant_outcome(pre.db@, headers@)
    } else {
        Err((429u16, "too many admin requests, retry later"@))
    })
}

/// Checks a tenant request: attempts are limited per address, and the key must
/// be that of a tenant that is not revoked.
pub fn tenant_auth_middleware(state: &mut AppState, headers: &Headers) -> (res: Result<
    TenantCtx,
    Refusal,
>)
    ensures
        exists|tick: u128|
            #[trigger] tenant_handled(*old(state), *final(state), *headers, res, tick),
{
    let ghost pre = *state;
    let ip = auth::client_ip(headers);
    let allowed = state.admin_limiter.allow(ip.as_str());
    let ghost tick = choose|tick: u128|
        allowed == pre.admin_limiter.admits(ip@, tick) && #[trigger] pre.admin_limiter.counted(
            &state.admin_limiter,
            ip@,
            tick,
        );
    let res = if allowed {
        tenant_of_request(&state.db, headers)
    } else {
        Err(
            Refusal { status: 429, message: "too many admin requests, retry later".to_owned() },
        )
    };
    assert(tenant_handled(pre, *state, *headers, res, tick));
    res
}

/// Whether two rows of bytes are equal. All bytes are looked at, wherever the
/// first difference is, and also where the lengths differ.
pub fn constant_time_eq(a: &[u8], b: &[u8]) -> (r: bool)
    ensures
        r == (a@ == b@),
{
    let longer: usize = if a.len() < b.len() {
        b.len()
    } else {
        a.len()
    };
    let mut diff: u8 = if a.len() == b.len() {
        0
    } else {
        1
    };
    for i in 0..longer
        invariant
            diff == 0 <==> a@.len() == b@.len() && forall|j: int|
                0 <= j < i && j < a@.len() && j < b@.len() ==> a@[j] == b@[j],
    {
        let x: u8 = if i < a.len() {
            a[i]
        } else {
            0
        };
        let y: u8 = if i < b.len() {
            b[i]
        } else {
            0
        };
        let d: u8 = diff;
        assert((d | (x ^ y)) == 0 <==> d == 0 && x == y) by (bit_vector);
        diff = d | (x ^ y);
    }
    assert(diff == 0 ==> a@ =~= b@);
    diff == 0
}

/// The operator, on the admin listener.
pub open spec fn admin_outcome(config: Config, fields: Seq<FieldView>) -> Result<
    (Seq<char>, bool),
    (u16, Seq<char>),
> {
    if config.admin_token@.len() == 0 || jwt::bearer(fields) == Some(config.admin_token@) {
        Ok((DEFAULT_TENANT@, true))
    } else {
        Err((401u16, "admin token required"@))
    }
}

/// Checks a request on the admin listener. Where an admin token is configured a
/// request without it and one with another are answered alike.
pub fn admin_auth_middleware(config: &Config, headers: &Headers) -> (res: Result<
    TenantCtx,
    Refusal,
>)
    ensures
        ctx_viewed(res) == admin_outcome(*config, headers@),
{
    let ok = if config.admin_token.as_str().is_empty() {
        true
    } else {
        match jwt::extract_bearer_token(headers) {
            Ok(got) => {
                proof {
                    vstd::utf8::encode_utf8_decode_utf8(got@);
                    vstd::utf8::encode_utf8_decode_utf8(config.admin_token@);
                }
                constant_time_eq(got.as_str().as_bytes(), config.admin_token.as_str().as_bytes())
            },
            Err(_) => false,
        }
    };
    if ok {
        Ok(TenantCtx { id: DEFAULT_TENANT.to_owned(), operator: true })
    } else {
        Err(Refusal { status: 401, message: "admin token required".to_owned() })
    }
}

// ---- registering tenants --------------------------------------------------

/// The short id that is made of a random one.
pub open spec fn short_id(prefix: Seq<char>, uuid: Seq<char>) -> Seq<char> {
    prefix + text::head(uuid, 8)
}

fn make_id(prefix: &str, uuid: &str) -> (id: String)
    ensures
        id@ == short_id(prefix@, uuid@),
{
    let mut id = prefix.to_owned();
    id.push_str(text::take_chars(uuid, 8).as_str());
    id
}

pub struct TenantCreateRequest {
    pub name: String,
}

/// A new tenant with its admin key, which is shown nowhere else.
#[derive(Debug)]
pub struct TenantCreated {
    pub id: String,
    pub name: String,
    pub admin_key: String,
}

impl View for TenantCreated {
    type V = (Seq<char>, Seq<char>, Seq<char>);

    open spec fn view(&self) -> (Seq<char>, Seq<char>, Seq<char>) {
        (self.id@, self.name@, self.admin_key@)
    }
}

pub open spec fn create_tenant_outcome(
    db: DbView,
    name: Seq<char>,
    id: Seq<char>,
    key: Seq<char>,
    now: i64,
) -> (Seq<ChangeView>, Result<(Seq<char>, Seq<char>, Seq<char>), ErrorView>) {
    if db::tenant_with_id(db, id) is Some {
        (
            Seq::empty(),
            Err(ErrorView::Internal("tenant insert: "@ + "UNIQUE constraint failed: tenants.id"@)),
        )
    } else {
        (
            seq![
                ChangeView::InsertTenant {
                    row: db::new_tenant(id, text::head(name, 64), now),
                    admin_key_hash: key_digest(key),
                },
            ],
            Ok((id, name, key)),
        )
    }
}

/// Registers a tenant with a given id and admin key, at a given time.
pub fn create_tenant(
    store: &mut TokenDb,
    req: &TenantCreateRequest,
    id: &str,
    key: &str,
    now: i64,
) -> (res: AppResult<TenantCreated>)
    ensures
        ({
            let out = create_tenant_outcome(old(store)@, req.name@, id@, key@, now);
            &&& old(store).advanced(final(store), out.0)
            &&& error::viewed(res) == out.1
        }),
{
    proof {
        store.lemma_advanced_none();
    }
    let name = text::take_chars(req.name.as_str(), 64);
    match store.tenant_insert(id, name.as_str(), key_hash(key).as_str(), now) {
        Ok(_) => Ok(
            TenantCreated {
                id: id.to_owned(),
                name: req.name.clone(),
                admin_key: key.to_owned(),
            },
        ),
        Err(e) => Err(error::internal("tenant insert: ", e.message.as_str())),
    }
}

/// A tenant was registered with an id made of `uuid`, the key that stands for
/// `bytes`, at the time `now`.
pub open spec fn tenant_created(
    pre: AppState,
    post: AppState,
    req: TenantCreateRequest,
    res: AppResult<TenantCreated>,
    uuid: Seq<char>,
    bytes: Seq<u8>,
    now: i64,
) -> bool {
    let out = create_tenant_outcome(
        pre.db@,
        req.name@,
        short_id("t-"@, uuid),
        text::hex_text(bytes),
        now,
    );
    &&& crypto::is_uuid(uuid)
    &&& bytes.len() == 32
    &&& clock::is_unix_time(now)
    &&& state::kept_but_db(pre, post)
    &&& pre.db.advanced(&post.db, out.0)
    &&& error::viewed(res) == out.1
}

/// Registers a tenant. The admin key is made here and shown in this answer
/// only.
pub fn tenant_create_handler(state: &mut AppState, req: &TenantCreateRequest) -> (res: AppResult<
    TenantCreated,
>)
    ensures
        exists|uuid: Seq<char>, bytes: Seq<u8>, now: i64|
            #[trigger] tenant_created(*old(state), *final(state), *req, res, uuid, bytes, now),
{
    let ghost pre = *state;
    let uuid = crypto::new_uuid();
    let id = make_id("t-", uuid.as_str());
    let key = generate_tenant_key();
    let ghost bytes = choose|bytes: Seq<u8>|
        bytes.len() == 32 && key@ == #[trigger] text::hex_text(bytes);
    let now = clock::utc_now();
    let res = create_tenant(&mut state.db, req, id.as_str(), key.as_str(), now);
    assert(tenant_created(pre, *state, *req, res, uuid@, bytes, now));
    res
}

/// All tenants, oldest first.
pub fn tenant_list_handler(state: &AppState) -> (out: Vec<TenantRow>)
    ensures
        rows::tenant_views(out@) == db::tenants_listed(state.db@),
{
    state.db.tenants_list()
}

pub struct TenantRevokeRequest {
    pub id: String,
}

/// Whether a tenant was revoked.
#[derive(Debug)]
pub struct TenantRevoked {
    pub revoked: bool,
}

impl View for TenantRevoked {
    type V = bool;

    open spec fn view(&self) -> bool {
        self.revoked
    }
}

pub open spec fn revoke_tenant_outcome(db: DbView, id: Seq<char>) -> (
    Seq<ChangeView>,
    Result<bool, ErrorView>,
) {
    if id == DEFAULT_TENANT@ {
        (
            Seq::empty(),
            Err(ErrorView::BadRequest("cannot revoke the implicit operator tenant"@)),
        )
    } else {
        (
            seq![ChangeView::SetTenantRevoked { id, revoked: true }],
            Ok(db::tenant_with_id(db, id) is Some),
        )
    }
}

/// Revokes a tenant, whose key stops working at once. The tokens that were
/// issued for it stay until they are revoked themselves.
pub fn tenant_revoke_handler(state: &mut AppState, req: &TenantRevokeRequest) -> (res: AppResult<
    TenantRevoked,
>)
    ensures
        ({
            let out = revoke_tenant_outcome(old(state).db@, req.id@);
            &&& old(state).db.advanced(&final(state).db, out.0)
            &&& error::viewed(res) == out.1
            &&& state::kept_but_db(*old(state), *final(state))
        }),
{
    proof {
        state.db.lemma_advanced_none();
    }
    if text::same(req.id.as_str(), DEFAULT_TENANT) {
        return Err(
            AppError::BadRequest("cannot revoke the implicit operator tenant".to_owned()),
        );
    }
    let revoked = state.db.tenant_set_revoked(req.id.as_str(), true);
    Ok(TenantRevoked { revoked })
}

// ---- registering hosts ----------------------------------------------------

pub struct HostCreateRequest {
    pub tenant_id: String,
    pub label: String,
    pub port: u16,
}

#[derive(Debug)]
pub struct HostCreated {
    pub id: String,
    pub port: u16,
    pub tenant_id: String,
}

impl View for HostCreated {
    type V = (Seq<char>, u16, Seq<char>);

    open spec fn view(&self) -> (Seq<char>, u16, Seq<char>) {
        (self.id@, self.port, self.tenant_id@)
    }
}

/// A tunnel port that the configuration allows.
pub open spec fn port_allowed(config: Config, port: u16) -> bool {
    config.tunnel_port_min <= port <= config.tunnel_port_max
}

/// What is said of a port that is not allowed.
pub open spec fn port_range_text(config: Config) -> Seq<char> {
    "tunnel port must be "@ + text::decimal(config.tunnel_port_min as nat) + "-"@ + text::decimal(
        config.tunnel_port_max as nat,
    )
}

/// What is said of a port that is not allowed.
pub fn port_range_message(config: &Config) -> (out: String)
    ensures
        out@ == port_range_text(*config),
{
    let mut out = "tunnel port must be ".to_owned();
    out.push_str(text::decimal_of(config.tunnel_port_min as u64).as_str());
    out.push_str("-");
    out.push_str(text::decimal_of(config.tunnel_port_max as u64).as_str());
    out
}

pub open spec fn create_host_outcome(
    config: Config,
    db: DbView,
    req: HostCreateRequest,
    id: Seq<char>,
    now: i64,
) -> (Seq<ChangeView>, Result<(Seq<char>, u16, Seq<char>), ErrorView>) {
    let none = Seq::<ChangeView>::empty();
    if req.tenant_id@ != DEFAULT_TENANT@ && db::tenant_with_id(db, req.tenant_id@) is None {
        (none, Err(ErrorView::BadRequest("unknown tenant"@)))
    } else if !port_allowed(config, req.port) {
        (none, Err(ErrorView::BadRequest(port_range_text(config))))
    } else if table::first(db.hosts, db::has_host_id(id)) is Some {
        (
            none,
            Err(ErrorView::Internal("host insert: "@ + "UNIQUE constraint failed: hosts.id"@)),
        )
    } else if table::first(db.hosts, db::has_port(req.port)) is Some {
        (
            none,
            Err(ErrorView::Internal("host insert: "@ + "UNIQUE constraint failed: hosts.port"@)),
        )
    } else {
        (
            seq![
                ChangeView::InsertHost(
                    db::new_host(id, req.tenant_id@, text::head(req.label@, 64), req.port, now),
                ),
            ],
            Ok((id, req.port, req.tenant_id@)),
        )
    }
}

/// Registers a tunnel port to a tenant under a given id, at a given time.
pub fn create_host(
    store: &mut TokenDb,
    config: &Config,
    req: &HostCreateRequest,
    id: &str,
    now: i64,
) -> (res: AppResult<HostCreated>)
    ensures
        ({
            let out = create_host_outcome(*config, old(store)@, *req, id@, now);
            &&& old(store).advanced(final(store), out.0)
            &&& error::viewed(res) == out.1
        }),
{
    proof {
        store.lemma_advanced_none();
    }
    if !text::same(req.tenant_id.as_str(), DEFAULT_TENANT) {
        if store.tenant_by_id(req.tenant_id.as_str()).is_none() {
            return Err(AppError::BadRequest("unknown tenant".to_owned()));
        }
    }
    if !(config.tunnel_port_min <= req.port && req.port <= config.tunnel_port_max) {
        return Err(AppError::BadRequest(port_range_message(config)));
    }
    let label = text::take_chars(req.label.as_str(), 64);
    match store.host_insert(id, req.tenant_id.as_str(), label.as_str(), req.port, now) {
        Ok(_) => Ok(
            HostCreated {
                id: id.to_owned(),
                port: req.port,
                tenant_id: req.tenant_id.clone(),
            },
        ),
        Err(e) => Err(error::internal("host insert: ", e.message.as_str())),
    }
}

/// A host was registered with an id made of `uuid`, at the time `now`.
pub open spec fn host_created(
    pre: AppState,
    post: AppState,
    req: HostCreateRequest,
    res: AppResult<HostCreated>,
    uuid: Seq<char>,
    now: i64,
) -> bool {
    let out = create_host_outcome(pre.config, pre.db@, req, short_id("h-"@, uuid), now);
    &&& crypto::is_uuid(uuid)
    &&& clock::is_unix_time(now)
    &&& state::kept_but_db(pre, post)
    &&& pre.db.advanced(&post.db, out.0)
    &&& error::viewed(res) == out.1
}

/// Registers a tunnel port to a tenant. A port belongs to one host, since two
/// Macs on one port would get each other's traffic.
pub fn host_create_handler(state: &mut AppState, req: &HostCreateRequest) -> (res: AppResult<
    HostCreated,
>)
    ensures
        exists|uuid: Seq<char>, now: i64|
            #[trigger] host_created(*old(state), *final(state), *req, res, uuid, now),
{
    let ghost pre = *state;
    let uuid = crypto::new_uuid();
    let id = make_id("h-", uuid.as_str());
    let now = clock::utc_now();
    let res = create_host(&mut state.db, &state.config, req, id.as_str(), now);
    assert(host_created(pre, *state, *req, res, uuid@, now));
    res
}

/// All registered hosts, by port.
pub fn host_list_handler(state: &AppState) -> (out: Vec<HostRow>)
    ensures
        rows::host_views(out@) == db::hosts_listed(state.db@),
{
    state.db.hosts_list()
}

pub struct HostRemoveRequest {
    pub id: String,
}

/// Whether a registration was removed.
#[derive(Debug)]
pub struct HostRemoved {
    pub removed: bool,
}

/// Removes the registration of a host. Its port is free again; tokens that are
/// bound to it stay.
pub fn host_remove_handler(state: &mut AppState, req: &HostRemoveRequest) -> (out: HostRemoved)
    ensures
        out.removed == (table::first(old(state).db@.hosts, db::has_host_id(req.id@)) is Some),
        old(state).db.advanced(&final(state).db, seq![ChangeView::RemoveHost { id: req.id@ }]),
        state::kept_but_db(*old(state), *final(state)),
{
    let removed = state.db.host_remove(req.id.as_str());
    HostRemoved { removed }
}

// ---- what holds of tenants ------------------------------------------------

/// Without a registered tenant every tenant request is refused.
pub proof fn law_no_tenants_no_access(db: DbView, fields: Seq<FieldView>)
    requires
        db.tenants.len() == 0,
    ensures
        tenant_outcome(db, fields) == Err::<(Seq<char>, bool), (u16, Seq<char>)>(
            (401u16, "tenant key required"@),
        ),
{
}

/// A tenant request never acts for the operator or for a revoked tenant.
pub proof fn law_tenant_requests_are_fenced(db: DbView, fields: Seq<FieldView>)
    ensures
        match tenant_outcome(db, fields) {
            Ok(ctx) => !ctx.1 && exists|i: int|
                0 <= i < db.tenants.len() && (#[trigger] db.tenants[i]).0.id == ctx.0
                    && !db.tenants[i].0.revoked,
            Err(r) => r == (401u16, "tenant key required"@),
        },
{
    if let Some(key) = jwt::bearer(fields) {
        table::lemma_first_holds(db.tenants, db::has_live_key(key_digest(key)));
        if let Some(t) = table::first(db.tenants, db::has_live_key(key_digest(key))) {
            let i = choose|i: int| 0 <= i < db.tenants.len() && db.tenants[i] == t;
            assert(db.tenants[i].0.id == t.0.id);
        }
    }
}

/// The key that a tenant is created with opens the way for that tenant, as long
/// as no earlier tenant has a key with the same digest.
pub proof fn law_new_key_works(
    db: DbView,
    name: Seq<char>,
    id: Seq<char>,
    key: Seq<char>,
    now: i64,
    fields: Seq<FieldView>,
)
    requires
        create_tenant_outcome(db, name, id, key, now).1 is Ok,
        db::tenant_with_key(db, key_digest(key)) is None,
        jwt::bearer(fields) == Some(key),
    ensures
        tenant_outcome(
            change::replay(db, create_tenant_outcome(db, name, id, key, now).0),
            fields,
        ) == Ok::<(Seq<char>, bool), (u16, Seq<char>)>((id, false)),
{
    let row = db::new_tenant(id, text::head(name, 64), now);
    let c = ChangeView::InsertTenant { row, admin_key_hash: key_digest(key) };
    change::lemma_replay_one(db, c);
    table::lemma_first_push(db.tenants, (row, key_digest(key)), db::has_live_key(key_digest(key)));
}

/// From the moment a tenant is revoked no request acts for it.
pub proof fn law_revoked_tenant_is_shut_out(db: DbView, id: Seq<char>, fields: Seq<FieldView>)
    requires
        id != DEFAULT_TENANT@,
    ensures
        ({
            let after = change::replay(db, revoke_tenant_outcome(db, id).0);
            match tenant_outcome(after, fields) {
                Ok(ctx) => ctx.0 != id,
                Err(_) => true,
            }
        }),
{
    change::lemma_replay_one(db, ChangeView::SetTenantRevoked { id, revoked: true });
    let after = change::apply(db, ChangeView::SetTenantRevoked { id, revoked: true });
    law_tenant_requests_are_fenced(after, fields);
    if let Ok(ctx) = tenant_outcome(after, fields) {
        let i = choose|i: int|
            0 <= i < after.tenants.len() && (#[trigger] after.tenants[i]).0.id == ctx.0
                && !after.tenants[i].0.revoked;
        assert(after.tenants[i] == change::tenant_marked(db.tenants[i], id, true));
    }
}

} // verus!
