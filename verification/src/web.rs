//! The web face: a browser logs in with the web password and gets a cookie,
//! with which its requests are relayed. It has nothing to do with device tokens.
//!
//! Requests that change something must come from the same site. The routes of
//! the host that manage pairing are never reachable through it.
use vstd::prelude::*;
use vstd::utf8::encode_utf8;

use crate::auth;
use crate::auth::{AuthedDevice, DeviceView};
use crate::change;
use crate::change::{ChangeView, DbView};
use crate::clock;
use crate::config::Config;
use crate::consistency;
use crate::crypto;
use crate::db;
use crate::db::TokenDb;
use crate::error;
use crate::error::{AppError, AppResult, ErrorView};
use crate::http;
use crate::http::{FieldView, Headers};
use crate::pages;
use crate::relay;
use crate::session;
use crate::session::{SESSION_REFRESH, SESSION_TTL};
use crate::state;
use crate::state::AppState;
use crate::tenant::DEFAULT_TENANT;
use crate::text;

verus! {

// ---- replies --------------------------------------------------------------

#[derive(Debug)]
pub enum WebBody {
    Empty,
    Text(String),
    Html(String),
    /// A JSON object with the message under `error`.
    Error(String),
}

pub enum BodyView {
    Empty,
    Text(Seq<char>),
    Html(Seq<char>),
    Error(Seq<char>),
}

impl View for WebBody {
    type V = BodyView;

    open spec fn view(&self) -> BodyView {
        match self {
            WebBody::Empty => BodyView::Empty,
            WebBody::Text(s) => BodyView::Text(s@),
            WebBody::Html(s) => BodyView::Html(s@),
            WebBody::Error(s) => BodyView::Error(s@),
        }
    }
}

#[derive(Debug)]
pub struct WebReply {
    pub status: u16,
    pub body: WebBody,
    pub location: Option<String>,
    pub set_cookie: Option<String>,
}

pub struct ReplyView {
    pub status: u16,
    pub body: BodyView,
    pub location: Option<Seq<char>>,
    pub set_cookie: Option<Seq<char>>,
}

impl View for WebReply {
    type V = ReplyView;

    open spec fn view(&self) -> ReplyView {
        ReplyView {
            status: self.status,
            body: self.body@,
            location: text::opt(self.location),
            set_cookie: text::opt(self.set_cookie),
        }
    }
}

pub open spec fn plain(status: u16, body: BodyView) -> ReplyView {
    ReplyView { status, body, location: None, set_cookie: None }
}

fn reply(status: u16, body: WebBody) -> (out: WebReply)
    ensures
        out@ == plain(status, body@),
{
    WebReply { status, body, location: None, set_cookie: None }
}

/// The reply where the web face is closed.
pub open spec fn not_enabled_reply() -> ReplyView {
    plain(404, BodyView::Text("not found"@))
}

fn not_enabled() -> (out: WebReply)
    ensures
        out@ == not_enabled_reply(),
{
    reply(404, WebBody::Text("not found".to_owned()))
}

pub open spec fn cross_origin_reply() -> ReplyView {
    plain(403, BodyView::Text("cross-origin request rejected"@))
}

fn cross_origin_rejected() -> (out: WebReply)
    ensures
        out@ == cross_origin_reply(),
{
    reply(403, WebBody::Text("cross-origin request rejected".to_owned()))
}

/// A reply that sends the browser elsewhere. A place that cannot stand in a
/// field is not named.
pub open spec fn redirect_to(location: Seq<char>) -> ReplyView {
    if http::is_value(location) {
        ReplyView {
            status: 303,
            body: BodyView::Empty,
            location: Some(location),
            set_cookie: None,
        }
    } else {
        plain(500, BodyView::Text("failed to parse header value"@))
    }
}

fn redirect(location: String) -> (out: WebReply)
    ensures
        out@ == redirect_to(location@),
{
    if http::value_is_valid(location.as_str()) {
        WebReply {
            status: 303,
            body: WebBody::Empty,
            location: Some(location),
            set_cookie: None,
        }
    } else {
        reply(500, WebBody::Text("failed to parse header value".to_owned()))
    }
}

/// A cookie that can stand in a field.
pub open spec fn sendable(cookie: Seq<char>) -> Option<Seq<char>> {
    if http::is_value(cookie) {
        Some(cookie)
    } else {
        None
    }
}

fn send_cookie(cookie: String) -> (out: Option<String>)
    ensures
        text::opt(out) == sendable(cookie@),
{
    if http::value_is_valid(cookie.as_str()) {
        Some(cookie)
    } else {
        None
    }
}

/// The login page with what went wrong.
pub open spec fn failed_reply(status: u16, message: Seq<char>) -> ReplyView {
    plain(status, BodyView::Html(pages::login_page_text(Some(message))))
}

fn failed(status: u16, message: &str) -> (out: WebReply)
    ensures
        out@ == failed_reply(status, message@),
{
    reply(status, WebBody::Html(pages::login_html(Some(message))))
}

// ---- where a request comes from -------------------------------------------

/// A request comes from another site. `Sec-Fetch-Site` decides where a browser
/// sends it, else the host of `Origin`; a request with neither is none of a
/// browser.
pub open spec fn cross_origin(config: Config, fields: Seq<FieldView>) -> bool {
    match http::field_text(fields, "sec-fetch-site"@) {
        Some(v) => v != "same-origin"@ && v != "none"@,
        None => match http::field_text(fields, "origin"@) {
            Some(o) => match http::uri_host(o) {
                Some(h) => text::ascii_lower(h) != config.web_hostname@,
                None => true,
            },
            None => false,
        },
    }
}

pub fn is_cross_origin(config: &Config, headers: &Headers) -> (r: bool)
    ensures
        r == cross_origin(*config, headers@),
{
    if let Some(v) = headers.text("sec-fetch-site") {
        return !(text::same(v.as_str(), "same-origin") || text::same(v.as_str(), "none"));
    }
    if let Some(o) = headers.text("origin") {
        return match http::host_of_uri(o.as_str()) {
            Some(h) => !text::same(
                text::to_lower(h.as_str()).as_str(),
                config.web_hostname.as_str(),
            ),
            None => true,
        };
    }
    false
}

// ---- logging in and out ---------------------------------------------------

/// A place on this site: a path, and not one that names another host.
pub open spec fn safe_target(next: Seq<char>) -> Seq<char> {
    if "/"@.is_prefix_of(next) && !"//"@.is_prefix_of(next) {
        next
    } else {
        "/"@
    }
}

pub fn safe_next(next: &str) -> (out: String)
    ensures
        out@ == safe_target(next@),
{
    if text::starts_with(next, "/") && !text::starts_with(next, "//") {
        next.to_owned()
    } else {
        "/".to_owned()
    }
}

/// The browser is sent to a path of this site: there is one slash in front, and
/// no second one behind it, which would name another host.
pub proof fn law_login_stays_on_this_site(next: Seq<char>)
    ensures
        safe_target(next).len() > 0,
        safe_target(next)[0] == '/',
        safe_target(next).len() > 1 ==> safe_target(next)[1] != '/',
        safe_target(safe_target(next)) == safe_target(next),
{
    reveal_strlit("/");
    reveal_strlit("//");
    let t = safe_target(next);
    if "/"@.is_prefix_of(next) && !"//"@.is_prefix_of(next) {
        assert(next[0] == "/"@[0]) by {
            assert("/"@ == next.subrange(0, 1));
        }
        if next.len() > 1 && next[1] == '/' {
            assert("//"@ =~= next.subrange(0, 2));
        }
    } else {
        assert("/"@ =~= "/"@.subrange(0, 1));
    }
}

/// What a visit of the login page leads to.
pub open spec fn login_page_outcome(
    config: Config,
    db: DbView,
    fields: Seq<FieldView>,
    now: i64,
) -> ReplyView {
    if session::creds(config, db) is None {
        not_enabled_reply()
    } else if session::session_of(config, db, fields, now) is Some {
        redirect_to("/"@)
    } else {
        plain(200, BodyView::Html(pages::login_page_text(None)))
    }
}

/// The login page at a given time; who is logged in is sent on.
pub fn login_page_at(config: &Config, store: &TokenDb, headers: &Headers, now: i64) -> (out:
    WebReply)
    ensures
        out@ == login_page_outcome(*config, store@, headers@, now),
{
    if session::web_creds(config, store).is_none() {
        return not_enabled();
    }
    if session::verify_session(config, store, headers, now).is_some() {
        return redirect("/".to_owned());
    }
    reply(200, WebBody::Html(pages::login_html(None)))
}

/// The login page.
pub fn login_page(state: &AppState, headers: &Headers) -> (out: WebReply)
    ensures
        exists|now: i64|
            clock::is_unix_time(now) && out@ == #[trigger] login_page_outcome(
                state.config,
                state.db@,
                headers@,
                now,
            ),
{
    let now = clock::utc_now();
    login_page_at(&state.config, &state.db, headers, now)
}

pub struct LoginForm {
    pub password: String,
    /// Where to go after the login.
    pub next: String,
}

/// The submitted password is the web password.
pub open spec fn accepts_password(config: Config, db: DbView, form: LoginForm) -> bool {
    match session::creds(config, db) {
        Some(c) => crypto::phc_well_formed(c.0) && crypto::accepted(
            encode_utf8(form.password@),
            c.0,
        ),
        None => false,
    }
}

/// What a submitted password leads to, once it may be tried.
pub open spec fn submit_outcome(
    config: Config,
    db: DbView,
    form: LoginForm,
    rnd: Seq<u8>,
    now: i64,
) -> ReplyView {
    match session::creds(config, db) {
        None => not_enabled_reply(),
        Some(c) => if !crypto::phc_well_formed(c.0) {
            failed_reply(401, "服务端密码配置异常"@)
        } else if !crypto::accepted(encode_utf8(form.password@), c.0) {
            failed_reply(401, "密码错误"@)
        } else {
            ReplyView {
                status: 303,
                set_cookie: sendable(
                    session::cookie_text(
                        session::session_token(config.jwt_secret@, c.1, rnd, now),
                        SESSION_TTL as int,
                    ),
                ),
                ..redirect_to(safe_target(form.next@))
            }
        },
    }
}

/// Checks a submitted password and starts a session with given random bytes, at
/// a given time.
pub fn login_submit_at(
    config: &Config,
    store: &TokenDb,
    form: &LoginForm,
    rnd: &Vec<u8>,
    now: i64,
) -> (out: WebReply)
    requires
        clock::is_unix_time(now),
    ensures
        out@ == submit_outcome(*config, store@, *form, rnd@, now),
        accepts_password(*config, store@, *form) ==> session::issued(
            config.jwt_secret@,
            session::version(*config, store@),
            rnd@,
            now,
        ) && out.set_cookie is Some,
{
    let (hash, version) = match session::web_creds(config, store) {
        Some(c) => c,
        None => {
            return not_enabled();
        },
    };
    if !crypto::hash_is_well_formed(hash.as_str()) {
        return failed(401, "服务端密码配置异常");
    }
    if !crypto::accepts(form.password.as_str().as_bytes(), hash.as_str()) {
        return failed(401, "密码错误");
    }
    let (token, _) = session::issue_session(config, version, rnd, now);
    proof {
        session::law_session_cookie_can_be_sent(token@);
    }
    let mut out = redirect(safe_next(form.next.as_str()));
    out.status = 303;
    out.set_cookie = send_cookie(session::cookie_header(token.as_str(), SESSION_TTL));
    out
}

/// The key under which web logins from an address are counted.
pub open spec fn web_key(headers: Headers) -> Seq<char> {
    "web:"@ + auth::source_ip(headers)
}

/// A submitted password was handled: counted at `tick`, with the random bytes
/// `rnd`, at the time `now`.
pub open spec fn submit_handled(
    pre: AppState,
    post: AppState,
    headers: Headers,
    form: LoginForm,
    out: WebReply,
    tick: u128,
    rnd: Seq<u8>,
    now: i64,
) -> bool {
    &&& rnd.len() == 8
    &&& clock::is_unix_time(now)
    &&& state::kept_but_db_and_login(pre, post)
    &&& post.db == pre.db
    &&& pre.login_limiter.counted(&post.login_limiter, web_key(headers), tick)
    &&& out@ == (if pre.login_limiter.admits(web_key(headers), tick) {
        submit_outcome(pre.config, pre.db@, form, rnd, now)
    } else {
        failed_reply(429, "尝试过于频繁,稍后再试"@)
    })
    &&& pre.login_limiter.admits(web_key(headers), tick) && accepts_password(
        pre.config,
        pre.db@,
        form,
    ) ==> session::issued(
        pre.config.jwt_secret@,
        session::version(pre.config, pre.db@),
        rnd,
        now,
    ) && out.set_cookie is Some
}

/// Checks a submitted password: the web face must be open, the request must come
/// from this site, and attempts are limited per address.
pub fn login_submit(state: &mut AppState, headers: &Headers, form: &LoginForm) -> (out: WebReply)
    ensures
        session::creds(old(state).config, old(state).db@) is None ==> *final(state) == *old(state)
            && out@ == not_enabled_reply(),
        session::creds(old(state).config, old(state).db@) is Some && cross_origin(
            old(state).config,
            headers@,
        ) ==> *final(state) == *old(state) && out@ == cross_origin_reply(),
        session::creds(old(state).config, old(state).db@) is Some && !cross_origin(
            old(state).config,
            headers@,
        ) ==> exists|tick: u128, rnd: Seq<u8>, now: i64|
            #[trigger] submit_handled(
                *old(state),
                *final(state),
                *headers,
                *form,
                out,
                tick,
                rnd,
                now,
            ),
{
    if session::web_creds(&state.config, &state.db).is_none() {
        return not_enabled();
    }
    if is_cross_origin(&state.config, headers) {
        return cross_origin_rejected();
    }
    let ghost pre = *state;
    let mut key = "web:".to_owned();
    key.push_str(auth::client_ip(headers).as_str());
    let rnd = crypto::random_bytes(8);
    let now = clock::utc_now();
    let allowed = state.login_limiter.allow(key.as_str());
    let ghost tick = choose|tick: u128|
        allowed == pre.login_limiter.admits(key@, tick) && #[trigger] pre.login_limiter.counted(
            &state.login_limiter,
            key@,
            tick,
        );
    let out = if allowed {
        login_submit_at(&state.config, &state.db, form, &rnd, now)
    } else {
        failed(429, "尝试过于频繁,稍后再试")
    };
    assert(submit_handled(pre, *state, *headers, *form, out, tick, rnd@, now));
    out
}

/// What a logout leads to: the cookie is taken back.
pub open spec fn logout_outcome(config: Config, db: DbView) -> ReplyView {
    if session::creds(config, db) is None {
        not_enabled_reply()
    } else {
        ReplyView {
            status: 303,
            body: BodyView::Empty,
            location: Some("/_gateway/login"@),
            set_cookie: Some("dshweb=; Path=/; Max-Age=0; HttpOnly; Secure; SameSite=Strict"@),
        }
    }
}

/// Ends the session of a browser, whether it has one or not.
pub fn logout(state: &AppState) -> (out: WebReply)
    ensures
        out@ == logout_outcome(state.config, state.db@),
{
    if session::web_creds(&state.config, &state.db).is_none() {
        return not_enabled();
    }
    WebReply {
        status: 303,
        body: WebBody::Empty,
        location: Some("/_gateway/login".to_owned()),
        set_cookie: Some(
            "dshweb=; Path=/; Max-Age=0; HttpOnly; Secure; SameSite=Strict".to_owned(),
        ),
    }
}

// ---- requests that are not logged in --------------------------------------

/// A byte that stands for itself in a query.
pub open spec fn is_unreserved(b: u8) -> bool {
    (65 <= b <= 90) || (97 <= b <= 122) || (48 <= b <= 57) || b == 45 || b == 95 || b == 46 || b
        == 126 || b == 47
}

/// The upper-case hexadecimal digit for `n`.
pub open spec fn upper_hex(n: nat) -> char {
    if n < 10 {
        (n + 48) as char
    } else {
        (n + 55) as char
    }
}

pub open spec fn encoded_byte(b: u8) -> Seq<char> {
    if is_unreserved(b) {
        seq![b as char]
    } else {
        seq!['%', upper_hex(b as nat / 16), upper_hex(b as nat % 16)]
    }
}

/// Bytes as they stand in a query.
pub open spec fn url_encoded(bytes: Seq<u8>) -> Seq<char>
    decreases bytes.len(),
{
    if bytes.len() == 0 {
        Seq::empty()
    } else {
        url_encoded(bytes.drop_last()) + encoded_byte(bytes.last())
    }
}

fn upper_hex_char(n: u8) -> (c: char)
    requires
        n < 16,
    ensures
        c == upper_hex(n as nat),
{
    if n < 10 {
        (n + 48) as char
    } else {
        (n + 55) as char
    }
}

/// A text as it stands in a query.
pub fn urlencode(s: &str) -> (out: String)
    ensures
        out@ == url_encoded(encode_utf8(s@)),
{
    let bytes = s.as_bytes();
    let mut out = String::new();
    for i in 0..bytes.len()
        invariant
            bytes@ == encode_utf8(s@),
            out@ == url_encoded(bytes@.take(i as int)),
    {
        let ghost before = out@;
        assert(bytes@.take(i + 1).drop_last() =~= bytes@.take(i as int));
        let b: u8 = bytes[i];
        if (65 <= b && b <= 90) || (97 <= b && b <= 122) || (48 <= b && b <= 57) || b == 45 || b
            == 95 || b == 46 || b == 126 || b == 47 {
            out.push(b as char);
        } else {
            out.push('%');
            out.push(upper_hex_char(b / 16));
            out.push(upper_hex_char(b % 16));
        }
        assert(out@ =~= before + encoded_byte(b));
    }
    assert(bytes@.take(bytes@.len() as int) =~= bytes@);
    out
}

/// What stands in a query can stand in a field: it is printable ASCII.
pub proof fn law_encoded_text_is_printable(bytes: Seq<u8>)
    ensures
        forall|i: int|
            0 <= i < url_encoded(bytes).len() ==> '!' <= (#[trigger] url_encoded(bytes)[i]) <= '~',
    decreases bytes.len(),
{
    if bytes.len() > 0 {
        law_encoded_text_is_printable(bytes.drop_last());
        let a = url_encoded(bytes.drop_last());
        let b = encoded_byte(bytes.last());
        assert forall|i: int| 0 <= i < url_encoded(bytes).len() implies '!' <= (
        #[trigger] url_encoded(bytes)[i]) <= '~' by {
            if i < a.len() {
                assert(url_encoded(bytes)[i] == a[i]);
            } else {
                assert(url_encoded(bytes)[i] == b[i - a.len()]);
            }
        }
    }
}

/// The reply to a request that is not logged in: a browser that navigates is
/// sent to the login page, anything else gets a 401.
pub open spec fn challenge(fields: Seq<FieldView>, path_and_query: Option<Seq<char>>) -> ReplyView {
    match http::field_text(fields, "accept"@) {
        Some(a) if text::has_text(a, "text/html"@) => redirect_to(
            "/_gateway/login?next="@ + url_encoded(
                encode_utf8(relay::target_path(path_and_query)),
            ),
        ),
        _ => plain(401, BodyView::Error("web session required"@)),
    }
}

pub fn auth_challenge(headers: &Headers, path_and_query: Option<&str>) -> (out: WebReply)
    ensures
        out@ == challenge(headers@, relay::opt_str(path_and_query)),
{
    let navigates = match headers.text("accept") {
        Some(a) => text::contains(a.as_str(), "text/html"),
        None => false,
    };
    if navigates {
        let target = match path_and_query {
            Some(p) => p.to_owned(),
            None => "/".to_owned(),
        };
        let mut location = "/_gateway/login?next=".to_owned();
        location.push_str(urlencode(target.as_str()).as_str());
        redirect(location)
    } else {
        reply(401, WebBody::Error("web session required".to_owned()))
    }
}

// ---- relaying -------------------------------------------------------------

/// A path of the host that manages pairing.
pub open spec fn is_blocked(path: Seq<char>) -> bool {
    path == "/pair"@ || "/pair/"@.is_prefix_of(path)
}

/// A file that browsers fetch without the cookie, and that tells nothing.
pub open spec fn is_open_file(method: Seq<char>, path: Seq<char>) -> bool {
    method == "GET"@ && (path == "/manifest.webmanifest"@ || path == "/favicon.ico"@)
}

/// A method that changes nothing.
pub open spec fn is_safe_method(method: Seq<char>) -> bool {
    method == "GET"@ || method == "HEAD"@ || method == "OPTIONS"@ || method == "TRACE"@
}

/// The device that web requests are relayed for.
pub open spec fn web_device(config: Config, jti: Seq<char>) -> DeviceView {
    DeviceView {
        jti,
        device: "web"@,
        upstream_port: config.web_upstream_port,
        tenant_id: DEFAULT_TENANT@,
    }
}

/// The fields of a request without what logs it in.
pub open spec fn without_credentials(fields: Seq<FieldView>) -> Seq<FieldView> {
    http::without(http::without(fields, "cookie"@), "authorization"@)
}

/// The fields of a request without what logs it in and without what tells where
/// the browser sent it from, which says nothing of the gateway.
pub open spec fn without_origin(fields: Seq<FieldView>) -> Seq<FieldView> {
    http::without(http::without(without_credentials(fields), "origin"@), "sec-fetch-site"@)
}

/// What becomes of a request on the web face.
#[derive(Debug)]
pub enum WebDecision {
    Reply(WebReply),
    /// Relay it with these fields; `session_end` tells when its session ends,
    /// where it has one.
    Relay { device: AuthedDevice, headers: Headers, session_end: Option<i64> },
}

pub enum DecisionView {
    Reply(ReplyView),
    Relay { device: DeviceView, headers: Seq<FieldView>, session_end: Option<i64> },
}

impl View for WebDecision {
    type V = DecisionView;

    open spec fn view(&self) -> DecisionView {
        match self {
            WebDecision::Reply(r) => DecisionView::Reply(r@),
            WebDecision::Relay { device, headers, session_end } => DecisionView::Relay {
                device: device@,
                headers: headers@,
                session_end: *session_end,
            },
        }
    }
}

pub open spec fn blocked_reply() -> ReplyView {
    plain(
        403,
        BodyView::Text("host management plane is not reachable through the web face"@),
    )
}

/// What becomes of a request on the web face at a given time.
pub open spec fn web_outcome(
    config: Config,
    db: DbView,
    method: Seq<char>,
    path: Seq<char>,
    path_and_query: Option<Seq<char>>,
    fields: Seq<FieldView>,
    now: i64,
) -> DecisionView {
    if is_blocked(path) {
        DecisionView::Reply(blocked_reply())
    } else if session::creds(config, db) is None {
        DecisionView::Reply(not_enabled_reply())
    } else if is_open_file(method, path) {
        DecisionView::Relay {
            device: web_device(config, "web-anon"@),
            headers: without_credentials(fields),
            session_end: None,
        }
    } else {
        match session::session_of(config, db, fields, now) {
            None => DecisionView::Reply(challenge(fields, path_and_query)),
            Some(s) => if !is_safe_method(method) && cross_origin(config, fields) {
                DecisionView::Reply(cross_origin_reply())
            } else {
                DecisionView::Relay {
                    device: web_device(config, s.0),
                    headers: without_origin(fields),
                    session_end: Some(s.1),
                }
            },
        }
    }
}

fn make_device(config: &Config, jti: String) -> (out: AuthedDevice)
    ensures
        out@ == web_device(*config, jti@),
{
    AuthedDevice {
        jti,
        device: "web".to_owned(),
        upstream_port: config.web_upstream_port,
        tenant_id: DEFAULT_TENANT.to_owned(),
    }
}

/// Decides on a request on the web face at a given time.
pub fn web_relay_at(
    config: &Config,
    store: &TokenDb,
    method: &str,
    path: &str,
    path_and_query: Option<&str>,
    headers: &Headers,
    now: i64,
) -> (out: WebDecision)
    ensures
        out@ == web_outcome(
            *config,
            store@,
            method@,
            path@,
            relay::opt_str(path_and_query),
            headers@,
            now,
        ),
        match out {
            WebDecision::Relay { device, .. } => device.upstream_port == config.web_upstream_port
                && device.tenant_id@ == "default"@ && device.device@ == "web"@,
            WebDecision::Reply(_) => true,
        },
{
    if text::same(path, "/pair") || text::starts_with(path, "/pair/") {
        return WebDecision::Reply(
            reply(
                403,
                WebBody::Text(
                    "host management plane is not reachable through the web face".to_owned(),
                ),
            ),
        );
    }
    if session::web_creds(config, store).is_none() {
        return WebDecision::Reply(not_enabled());
    }
    if text::same(method, "GET") && (text::same(path, "/manifest.webmanifest") || text::same(
        path,
        "/favicon.ico",
    )) {
        let kept = headers.remove("cookie").remove("authorization");
        return WebDecision::Relay {
            device: make_device(config, "web-anon".to_owned()),
            headers: kept,
            session_end: None,
        };
    }
    let (jti, end) = match session::verify_session(config, store, headers, now) {
        Some(s) => s,
        None => {
            return WebDecision::Reply(auth_challenge(headers, path_and_query));
        },
    };
    let safe = text::same(method, "GET") || text::same(method, "HEAD") || text::same(
        method,
        "OPTIONS",
    ) || text::same(method, "TRACE");
    if !safe && is_cross_origin(config, headers) {
        return WebDecision::Reply(cross_origin_rejected());
    }
    let kept = headers.remove("cookie").remove("authorization").remove("origin").remove(
        "sec-fetch-site",
    );
    WebDecision::Relay { device: make_device(config, jti), headers: kept, session_end: Some(end) }
}

/// Decides on a request on the web face.
pub fn web_relay(
    state: &AppState,
    method: &str,
    path: &str,
    path_and_query: Option<&str>,
    headers: &Headers,
) -> (out: WebDecision)
    ensures
        exists|now: i64|
            clock::is_unix_time(now) && out@ == #[trigger] web_outcome(
                state.config,
                state.db@,
                method@,
                path@,
                relay::opt_str(path_and_query),
                headers@,
                now,
            ),
{
    let now = clock::utc_now();
    web_relay_at(&state.config, &state.db, method, path, path_and_query, headers, now)
}

/// A session is renewed: it ends soon but has not ended, the reply does not switch
/// protocols, and the web face is open.
pub open spec fn is_renewed(
    config: Config,
    db: DbView,
    session_end: i64,
    status: u16,
    now: i64,
) -> bool {
    &&& session::creds(config, db) is Some
    &&& 0 < session_end - now < SESSION_REFRESH
    &&& status != 101
}

/// The cookie with which a session is renewed, where it is.
pub open spec fn renewal_outcome(
    config: Config,
    db: DbView,
    session_end: i64,
    status: u16,
    rnd: Seq<u8>,
    now: i64,
) -> Option<Seq<char>> {
    if is_renewed(config, db, session_end, status, now) {
        sendable(
            session::cookie_text(
                session::session_token(
                    config.jwt_secret@,
                    session::version(config, db),
                    rnd,
                    now,
                ),
                SESSION_TTL as int,
            ),
        )
    } else {
        None
    }
}

/// The cookie with which a session is renewed, with given random bytes, at a
/// given time.
pub fn renewal_at(
    config: &Config,
    store: &TokenDb,
    session_end: i64,
    status: u16,
    rnd: &Vec<u8>,
    now: i64,
) -> (out: Option<String>)
    requires
        clock::is_unix_time(now),
    ensures
        text::opt(out) == renewal_outcome(*config, store@, session_end, status, rnd@, now),
        is_renewed(*config, store@, session_end, status, now) ==> out is Some && session::issued(
            config.jwt_secret@,
            session::version(*config, store@),
            rnd@,
            now,
        ),
{
    let remaining: i128 = session_end as i128 - now as i128;
    if !(0 < remaining && remaining < SESSION_REFRESH as i128) || status == 101 {
        return None;
    }
    match session::web_creds(config, store) {
        Some((_, version)) => {
            let (token, _) = session::issue_session(config, version, rnd, now);
            proof {
                session::law_session_cookie_can_be_sent(token@);
            }
            send_cookie(session::cookie_header(token.as_str(), SESSION_TTL))
        },
        None => None,
    }
}

/// A renewal was decided on with the random bytes `rnd`, at the time `now`; the
/// session that the cookie carries was signed.
pub open spec fn renewal_handled(
    state: AppState,
    session_end: i64,
    status: u16,
    out: Option<String>,
    rnd: Seq<u8>,
    now: i64,
) -> bool {
    &&& rnd.len() == 8
    &&& clock::is_unix_time(now)
    &&& text::opt(out) == renewal_outcome(state.config, state.db@, session_end, status, rnd, now)
    &&& is_renewed(state.config, state.db@, session_end, status, now) ==> out is Some
        && session::issued(
        state.config.jwt_secret@,
        session::version(state.config, state.db@),
        rnd,
        now,
    )
}

/// The cookie with which the session of a relayed request is renewed, where it
/// is.
pub fn renewal(state: &AppState, session_end: i64, status: u16) -> (out: Option<String>)
    ensures
        exists|rnd: Seq<u8>, now: i64|
            #[trigger] renewal_handled(*state, session_end, status, out, rnd, now),
{
    let rnd = crypto::random_bytes(8);
    let now = clock::utc_now();
    let out = renewal_at(&state.config, &state.db, session_end, status, &rnd, now);
    assert(renewal_handled(*state, session_end, status, out, rnd@, now));
    out
}

// ---- the web password -----------------------------------------------------

pub struct WebPasswordRequest {
    /// A password, which is hashed here.
    pub password: String,
    /// A hash that was made elsewhere.
    pub hash: String,
    /// Remove the password.
    pub clear: bool,
}

#[derive(Debug)]
pub struct WebPasswordStatus {
    pub ok: bool,
    pub enabled: bool,
    /// `db` or `env`; nothing where the web face is closed.
    pub source: Option<String>,
    pub version: Option<i64>,
}

pub struct PasswordStatusView {
    pub ok: bool,
    pub enabled: bool,
    pub source: Option<Seq<char>>,
    pub version: Option<i64>,
}

impl View for WebPasswordStatus {
    type V = PasswordStatusView;

    open spec fn view(&self) -> PasswordStatusView {
        PasswordStatusView {
            ok: self.ok,
            enabled: self.enabled,
            source: text::opt(self.source),
            version: self.version,
        }
    }
}

/// Where the web password comes from, and the version that sessions are signed
/// with.
pub open spec fn password_status(config: Config, db: DbView) -> PasswordStatusView {
    match db.web_password {
        Some(w) => PasswordStatusView {
            ok: true,
            enabled: true,
            source: Some("db"@),
            version: Some(w.1),
        },
        None => if config.web_password_hash@.len() > 0 {
            PasswordStatusView {
                ok: true,
                enabled: true,
                source: Some("env"@),
                version: Some(session::version(config, db)),
            }
        } else {
            PasswordStatusView { ok: true, enabled: false, source: None, version: None }
        },
    }
}

/// Tells whether there is a web password, and where it comes from.
pub fn admin_web_password_get(state: &AppState) -> (out: WebPasswordStatus)
    ensures
        out@ == password_status(state.config, state.db@),
{
    match state.db.web_password() {
        Some(w) => WebPasswordStatus {
            ok: true,
            enabled: true,
            source: Some("db".to_owned()),
            version: Some(w.1),
        },
        None => if state.config.web_password_hash.as_str().is_empty() {
            WebPasswordStatus { ok: true, enabled: false, source: None, version: None }
        } else {
            WebPasswordStatus {
                ok: true,
                enabled: true,
                source: Some("env".to_owned()),
                version: Some(0),
            }
        },
    }
}

/// Whether the web password was set, and its version.
#[derive(Debug)]
pub struct WebPasswordSet {
    pub ok: bool,
    pub enabled: bool,
    pub version: Option<i64>,
}

impl View for WebPasswordSet {
    type V = (bool, bool, Option<i64>);

    open spec fn view(&self) -> (bool, bool, Option<i64>) {
        (self.ok, self.enabled, self.version)
    }
}

/// A request asks for its password to be hashed.
pub open spec fn asks_to_hash(req: WebPasswordRequest) -> bool {
    !req.clear && 0 < req.password@.len() && encode_utf8(req.password@).len() <= 256
}

/// What a request to change the web password leads to; `fresh` is the hash of
/// its password.
pub open spec fn password_outcome(
    db: DbView,
    req: WebPasswordRequest,
    fresh: Seq<char>,
    now: i64,
) -> (Seq<ChangeView>, Result<(bool, bool, Option<i64>), ErrorView>) {
    let none = Seq::<ChangeView>::empty();
    let given = "$argon2"@.is_prefix_of(req.hash@) && encode_utf8(req.hash@).len() <= 512;
    if req.clear {
        (seq![ChangeView::ClearWebPassword], Ok((true, false, None)))
    } else if req.password@.len() > 0 && !asks_to_hash(req) {
        (none, Err(ErrorView::BadRequest("password too long"@)))
    } else if req.password@.len() == 0 && !given {
        (
            none,
            Err(
                ErrorView::BadRequest(
                    "provide `password` or a valid argon2 `hash`, or `clear: true`"@,
                ),
            ),
        )
    } else if db::next_version(db) > i64::MAX {
        (none, Err(ErrorView::Internal("db set: version out of range"@)))
    } else {
        let hash = if req.password@.len() > 0 {
            fresh
        } else {
            req.hash@
        };
        let version = db::next_version(db) as i64;
        (
            seq![ChangeView::SetWebPassword { hash, version, at: now }],
            Ok((true, true, Some(version))),
        )
    }
}

/// Changes the web password at a given time; `fresh` is the hash of the
/// requested one.
pub fn set_web_password_at(
    store: &mut TokenDb,
    req: &WebPasswordRequest,
    fresh: &str,
    now: i64,
) -> (res: AppResult<WebPasswordSet>)
    ensures
        ({
            let out = password_outcome(old(store)@, *req, fresh@, now);
            &&& old(store).advanced(final(store), out.0)
            &&& error::viewed(res) == out.1
        }),
{
    proof {
        store.lemma_advanced_none();
    }
    if req.clear {
        store.clear_web_password();
        return Ok(WebPasswordSet { ok: true, enabled: false, version: None });
    }
    let has_password = !req.password.as_str().is_empty();
    if has_password {
        if text::byte_len(req.password.as_str()) > 256 {
            return Err(AppError::BadRequest("password too long".to_owned()));
        }
    } else if !(text::starts_with(req.hash.as_str(), "$argon2") && text::byte_len(
        req.hash.as_str(),
    ) <= 512) {
        return Err(
            AppError::BadRequest(
                "provide `password` or a valid argon2 `hash`, or `clear: true`".to_owned(),
            ),
        );
    }
    if store.web_version() == i64::MAX {
        return Err(AppError::Internal("db set: version out of range".to_owned()));
    }
    let version = if has_password {
        store.set_web_password(fresh, now)
    } else {
        store.set_web_password(req.hash.as_str(), now)
    };
    Ok(WebPasswordSet { ok: true, enabled: true, version: Some(version) })
}

/// A request to change the web password was handled with the hash `fresh`, at
/// the time `now`.
pub open spec fn password_handled(
    pre: AppState,
    post: AppState,
    req: WebPasswordRequest,
    res: AppResult<WebPasswordSet>,
    fresh: Seq<char>,
    now: i64,
) -> bool {
    let out = password_outcome(pre.db@, req, fresh, now);
    &&& asks_to_hash(req) ==> "$argon2"@.is_prefix_of(fresh) && crypto::phc_well_formed(fresh)
        && crypto::accepted(encode_utf8(req.password@), fresh)
    &&& clock::is_unix_time(now)
    &&& state::kept_but_db(pre, post)
    &&& pre.db.advanced(&post.db, out.0)
    &&& error::viewed(res) == out.1
}

/// Sets the web password, from a password or from a hash, or removes it. Each
/// new password has a new version.
pub fn admin_web_password_post(state: &mut AppState, req: &WebPasswordRequest) -> (res: AppResult<
    WebPasswordSet,
>)
    ensures
        exists|fresh: Seq<char>, now: i64|
            #[trigger] password_handled(*old(state), *final(state), *req, res, fresh, now),
{
    let ghost pre = *state;
    let now = clock::utc_now();
    let fresh = if !req.clear && !req.password.as_str().is_empty() && text::byte_len(
        req.password.as_str(),
    ) <= 256 {
        match crypto::hash_password(req.password.as_str()) {
            Some(h) => h,
            None => String::new(),
        }
    } else {
        String::new()
    };
    let res = set_web_password_at(&mut state.db, req, fresh.as_str(), now);
    assert(password_handled(pre, *state, *req, res, fresh@, now));
    res
}

// ---- what holds of the web face -------------------------------------------

/// Without a web password nothing is served: every route is answered 404, but
/// for the management routes, which are answered 403 in any case.
pub proof fn law_closed_without_password(
    config: Config,
    db: DbView,
    method: Seq<char>,
    path: Seq<char>,
    path_and_query: Option<Seq<char>>,
    fields: Seq<FieldView>,
    form: LoginForm,
    rnd: Seq<u8>,
    now: i64,
)
    requires
        session::creds(config, db) is None,
    ensures
        login_page_outcome(config, db, fields, now) == not_enabled_reply(),
        submit_outcome(config, db, form, rnd, now) == not_enabled_reply(),
        logout_outcome(config, db) == not_enabled_reply(),
        web_outcome(config, db, method, path, path_and_query, fields, now) == DecisionView::Reply(
            if is_blocked(path) {
                blocked_reply()
            } else {
                not_enabled_reply()
            },
        ),
{
}

/// What is relayed is one of the open files or has a session; a request with a
/// session that changes something comes from this site; the management routes
/// are never relayed.
pub proof fn law_relayed_requests_are_entitled(
    config: Config,
    db: DbView,
    method: Seq<char>,
    path: Seq<char>,
    path_and_query: Option<Seq<char>>,
    fields: Seq<FieldView>,
    now: i64,
)
    requires
        web_outcome(config, db, method, path, path_and_query, fields, now) is Relay,
    ensures
        !is_blocked(path),
        session::creds(config, db) is Some,
        is_open_file(method, path) || (session::session_of(config, db, fields, now) is Some && (
        is_safe_method(method) || !cross_origin(config, fields))),
{
}

/// The upstream sees neither the cookie nor a token of a web request, and where
/// it has a session not where the browser sent it from either.
pub proof fn law_web_credentials_end_here(
    config: Config,
    db: DbView,
    method: Seq<char>,
    path: Seq<char>,
    path_and_query: Option<Seq<char>>,
    fields: Seq<FieldView>,
    now: i64,
)
    requires
        web_outcome(config, db, method, path, path_and_query, fields, now) is Relay,
    ensures
        ({
            let out = web_outcome(config, db, method, path, path_and_query, fields, now);
            forall|i: int|
                0 <= i < out->headers.len() ==> {
                    let name = (#[trigger] out->headers[i]).0;
                    &&& name != "cookie"@
                    &&& name != "authorization"@
                    &&& out->session_end is Some ==> name != "origin"@ && name != "sec-fetch-site"@
                }
        }),
{
    let a = http::without(fields, "cookie"@);
    let b = http::without(a, "authorization"@);
    let c = http::without(b, "origin"@);
    let d = http::without(c, "sec-fetch-site"@);
    http::law_removed_field_is_gone(fields, "cookie"@);
    http::law_removed_field_is_gone(a, "authorization"@);
    http::law_removed_field_is_gone(b, "origin"@);
    http::law_removed_field_is_gone(c, "sec-fetch-site"@);
    assert forall|i: int| 0 <= i < b.len() implies (#[trigger] b[i]).0 != "cookie"@ && b[i].0
        != "authorization"@ by {
        assert(a.contains(b[i]));
        let j = a.index_of(b[i]);
        assert(a[j].0 != "cookie"@);
    }
    assert forall|i: int| 0 <= i < c.len() implies (#[trigger] c[i]).0 != "cookie"@ && c[i].0
        != "authorization"@ && c[i].0 != "origin"@ by {
        assert(b.contains(c[i]));
        let j = b.index_of(c[i]);
        assert(b[j].0 != "cookie"@);
    }
    assert forall|i: int| 0 <= i < d.len() implies (#[trigger] d[i]).0 != "cookie"@ && d[i].0
        != "authorization"@ && d[i].0 != "origin"@ && d[i].0 != "sec-fetch-site"@ by {
        assert(c.contains(d[i]));
        let j = c.index_of(d[i]);
        assert(c[j].0 != "cookie"@);
    }
}

/// Whatever happens, the highest version of the web password only grows.
pub proof fn law_versions_only_grow(db: DbView, changes: Seq<ChangeView>)
    ensures
        change::replay(db, changes).web_version >= db.web_version,
    decreases changes.len(),
{
    if changes.len() > 0 {
        law_versions_only_grow(db, changes.drop_last());
    }
}

/// A new web password has a version that no password before it had, whether that
/// was in the register or in the configuration, and whatever happened in
/// between: also where the password was removed. One that takes the place of
/// another in the register has the next version. So sessions are signed with a key
/// of their own from then on.
pub proof fn law_new_password_has_new_version(
    config: Config,
    db: DbView,
    between: Seq<ChangeView>,
    req: WebPasswordRequest,
    fresh: Seq<char>,
    now: i64,
)
    requires
        consistency::consistent(db),
        !req.clear,
        password_outcome(change::replay(db, between), req, fresh, now).1 is Ok,
    ensures
        ({
            let mid = change::replay(db, between);
            let after = change::replay(mid, password_outcome(mid, req, fresh, now).0);
            let (before, then) = (session::version(config, db), session::version(config, after));
            &&& session::creds(config, after) is Some
            &&& then == mid.web_version + 1
            &&& between.len() == 0 && db.web_password is Some ==> then == before + 1
            &&& then > before
            &&& session::key_material(config.jwt_secret@, then as int) != session::key_material(
                config.jwt_secret@,
                before as int,
            )
        }),
{
    let mid = change::replay(db, between);
    let out = password_outcome(mid, req, fresh, now);
    change::lemma_replay_one(mid, out.0[0]);
    assert(out.0 =~= seq![out.0[0]]);
    law_versions_only_grow(db, between);
    session::law_each_version_has_its_own_key_material(
        config.jwt_secret@,
        db::next_version(mid),
        session::version(config, db) as int,
    );
}

/// A web password that was set logs in, as long as it is not changed.
pub proof fn law_new_password_logs_in(
    config: Config,
    db: DbView,
    req: WebPasswordRequest,
    fresh: Seq<char>,
    now: i64,
    form: LoginForm,
)
    requires
        asks_to_hash(req),
        password_outcome(db, req, fresh, now).1 is Ok,
        crypto::phc_well_formed(fresh),
        crypto::accepted(encode_utf8(req.password@), fresh),
        form.password@ == req.password@,
    ensures
        accepts_password(
            config,
            change::replay(db, password_outcome(db, req, fresh, now).0),
            form,
        ),
{
    let out = password_outcome(db, req, fresh, now);
    change::lemma_replay_one(db, out.0[0]);
    assert(out.0 =~= seq![out.0[0]]);
}

/// What is relayed on the web face goes to the tunnel that the web face is pinned
/// to, and to the default upstream only where it is pinned to none. It is relayed
/// for the operator's tenant, under the id of its session.
pub proof fn law_web_requests_go_to_the_pinned_tunnel(
    config: Config,
    db: DbView,
    method: Seq<char>,
    path: Seq<char>,
    path_and_query: Option<Seq<char>>,
    fields: Seq<FieldView>,
    now: i64,
)
    requires
        web_outcome(config, db, method, path, path_and_query, fields, now) is Relay,
    ensures
        ({
            let out = web_outcome(config, db, method, path, path_and_query, fields, now);
            let open_file = method == "GET"@ && (path == "/manifest.webmanifest"@ || path
                == "/favicon.ico"@);
            &&& out->device.upstream_port == config.web_upstream_port
            &&& out->device.device == "web"@
            &&& out->device.tenant_id == "default"@
            &&& match config.web_upstream_port {
                Some(p) => relay::upstream(config, out->device.upstream_port, false)
                    == relay::TargetView::Tcp("127.0.0.1:"@ + text::decimal(p as nat)),
                None => relay::upstream(config, out->device.upstream_port, false)
                    == relay::TargetView::Tcp(config.upstream_addr@),
            }
            &&& open_file ==> out->device.jti == "web-anon"@ && out->session_end is None
            &&& !open_file ==> session::session_of(config, db, fields, now) == Some(
                (out->device.jti, out->session_end->0),
            ) && out->session_end is Some
        }),
{
}

/// Which fields of a relayed web request reach the relay: all but the cookie and
/// the token, in their order, and for one with a session all but these and
/// `origin` and `sec-fetch-site`.
pub proof fn law_web_fields_are_kept(
    config: Config,
    db: DbView,
    method: Seq<char>,
    path: Seq<char>,
    path_and_query: Option<Seq<char>>,
    fields: Seq<FieldView>,
    now: i64,
    f: FieldView,
)
    requires
        web_outcome(config, db, method, path, path_and_query, fields, now) is Relay,
        fields.contains(f),
        f.0 != "cookie"@,
        f.0 != "authorization"@,
        f.0 != "origin"@,
        f.0 != "sec-fetch-site"@,
    ensures
        web_outcome(config, db, method, path, path_and_query, fields, now)->headers.contains(f),
{
    let a = http::without(fields, "cookie"@);
    let b = http::without(a, "authorization"@);
    let c = http::without(b, "origin"@);
    http::law_removed_field_is_gone(fields, "cookie"@);
    http::law_removed_field_is_gone(a, "authorization"@);
    http::law_removed_field_is_gone(b, "origin"@);
    http::law_removed_field_is_gone(c, "sec-fetch-site"@);
}

/// What becomes of a request on the web face. The routes that manage pairing are
/// answered 403, everything is answered 404 where there is no web password, the
/// two open files need no session, and everything else does; what changes something
/// must besides come from this site.
pub proof fn law_web_requests_are_sorted(
    config: Config,
    db: DbView,
    method: Seq<char>,
    path: Seq<char>,
    path_and_query: Option<Seq<char>>,
    fields: Seq<FieldView>,
    now: i64,
)
    ensures
        ({
            let out = web_outcome(config, db, method, path, path_and_query, fields, now);
            let closed = db.web_password is None && config.web_password_hash@.len() == 0;
            let open_file = method == "GET"@ && (path == "/manifest.webmanifest"@ || path
                == "/favicon.ico"@);
            let blocked = path == "/pair"@ || (path.len() >= 6 && path.take(6) == "/pair/"@);
            let safe = method == "GET"@ || method == "HEAD"@ || method == "OPTIONS"@ || method
                == "TRACE"@;
            &&& blocked ==> out is Reply && out->Reply_0 == (ReplyView {
                status: 403,
                body: BodyView::Text(
                    "host management plane is not reachable through the web face"@,
                ),
                location: None,
                set_cookie: None,
            })
            &&& !blocked && closed ==> out is Reply && out->Reply_0 == (ReplyView {
                status: 404,
                body: BodyView::Text("not found"@),
                location: None,
                set_cookie: None,
            })
            &&& !blocked && !closed && open_file ==> out is Relay
            &&& !blocked && !closed && !open_file ==> match session::session_of(
                config,
                db,
                fields,
                now,
            ) {
                None => out == DecisionView::Reply(challenge(fields, path_and_query)),
                Some(_) => if !safe && cross_origin(config, fields) {
                    out is Reply && out->Reply_0 == (ReplyView {
                        status: 403,
                        body: BodyView::Text("cross-origin request rejected"@),
                        location: None,
                        set_cookie: None,
                    })
                } else {
                    out is Relay
                },
            }
        }),
{
    reveal_strlit("/pair/");
    if path.len() >= 6 {
        assert(path.take(6) =~= path.subrange(0, 6));
    }
}

/// A request comes from another site exactly where its `Sec-Fetch-Site` says so,
/// or, without one, where the host of its `Origin` is not the configured one.
pub proof fn law_other_sites(config: Config, fields: Seq<FieldView>)
    ensures
        match http::field_text(fields, "sec-fetch-site"@) {
            Some(v) => cross_origin(config, fields) == !(v == "same-origin"@ || v == "none"@),
            None => match http::field_text(fields, "origin"@) {
                None => !cross_origin(config, fields),
                Some(o) => match http::uri_host(o) {
                    None => cross_origin(config, fields),
                    Some(h) => cross_origin(config, fields) == (text::ascii_lower(h)
                        != config.web_hostname@),
                },
            },
        },
{
}

/// A browser that navigates is sent to the login page, which sends it back to the
/// path and query that it asked for; anything else is answered 401.
pub proof fn law_challenge_leads_back(fields: Seq<FieldView>, path_and_query: Option<Seq<char>>)
    ensures
        ({
            let out = challenge(fields, path_and_query);
            let asked = match path_and_query {
                Some(p) => p,
                None => "/"@,
            };
            let navigates = http::field_text(fields, "accept"@) is Some && text::has_text(
                http::field_text(fields, "accept"@)->0,
                "text/html"@,
            );
            &&& out.set_cookie is None
            &&& navigates ==> out.status == 303 && out.body is Empty && out.location == Some(
                "/_gateway/login?next="@ + url_encoded(encode_utf8(asked)),
            )
            &&& !navigates ==> out.status == 401 && out.location is None && out.body
                == BodyView::Error("web session required"@)
        }),
{
    let asked = match path_and_query {
        Some(p) => p,
        None => "/"@,
    };
    reveal_strlit("/_gateway/login?next=");
    let e = url_encoded(encode_utf8(asked));
    law_encoded_text_is_printable(encode_utf8(asked));
    let l = "/_gateway/login?next="@ + e;
    assert(http::is_value(l)) by {
        assert forall|i: int| 0 <= i < l.len() implies http::is_value_char(#[trigger] l[i]) by {
            if i >= 21 {
                assert(l[i] == e[i - 21]);
            }
        }
    }
}

/// Letters, digits, `-`, `_`, `.`, `~` and `/` stand for themselves in a query;
/// every other byte is written as a percent sign and two upper-case digits.
pub proof fn law_query_encoding(bytes: Seq<u8>, b: u8)
    ensures
        url_encoded(Seq::<u8>::empty()) == Seq::<char>::empty(),
        url_encoded(bytes.push(b)) == url_encoded(bytes) + (if 65 <= b <= 90 || 97 <= b <= 122
            || 48 <= b <= 57 || b == '-' as u8 || b == '_' as u8 || b == '.' as u8 || b == '~' as u8
            || b == '/' as u8 {
            seq![b as char]
        } else {
            seq!['%', "0123456789ABCDEF"@[b as int / 16], "0123456789ABCDEF"@[b as int % 16]]
        }),
{
    reveal_strlit("0123456789ABCDEF");
    assert(bytes.push(b).drop_last() =~= bytes);
    assert(0 <= b as int / 16 < 16 && 0 <= b as int % 16 < 16);
    assert(encoded_byte(b) =~= (if 65 <= b <= 90 || 97 <= b <= 122 || 48 <= b <= 57 || b
        == '-' as u8 || b == '_' as u8 || b == '.' as u8 || b == '~' as u8 || b == '/' as u8 {
        seq![b as char]
    } else {
        seq!['%', "0123456789ABCDEF"@[b as int / 16], "0123456789ABCDEF"@[b as int % 16]]
    }));
}

/// What a submitted password leads to. The right one starts a session with the
/// version of the password that counts and sends the browser to the place that it
/// names on this site; any other leaves it at the login page, without a cookie.
pub proof fn law_login_form(
    config: Config,
    db: DbView,
    form: LoginForm,
    rnd: Seq<u8>,
    now: i64,
)
    ensures
        ({
            let out = submit_outcome(config, db, form, rnd, now);
            let (hash, version) = match db.web_password {
                Some(w) => w,
                None => (config.web_password_hash@, 0i64),
            };
            let closed = db.web_password is None && config.web_password_hash@.len() == 0;
            let right = crypto::phc_well_formed(hash) && crypto::accepted(
                encode_utf8(form.password@),
                hash,
            );
            &&& closed ==> out.status == 404 && out.set_cookie is None && out.body
                == BodyView::Text("not found"@)
            &&& !closed && !right ==> out.status == 401 && out.set_cookie is None && out.location
                is None && out.body == BodyView::Html(
                pages::login_page_text(
                    Some(
                        if crypto::phc_well_formed(hash) {
                            "密码错误"@
                        } else {
                            "服务端密码配置异常"@
                        },
                    ),
                ),
            )
            &&& !closed && right ==> {
                let cookie = session::cookie_text(
                    session::session_token(config.jwt_secret@, version, rnd, now),
                    43200,
                );
                let target = if form.next@.len() > 0 && form.next@[0] == '/' && !(form.next@.len()
                    > 1 && form.next@[1] == '/') {
                    form.next@
                } else {
                    "/"@
                };
                &&& out.status == 303
                &&& http::is_value(cookie) ==> out.set_cookie == Some(cookie)
                &&& http::is_value(target) ==> out.location == Some(target)
                &&& !http::is_value(target) ==> out.location is None
            }
        }),
{
    reveal_strlit("/");
    reveal_strlit("//");
    let next = form.next@;
    if next.len() > 0 && next[0] == '/' {
        assert("/"@ =~= next.subrange(0, 1));
    }
    if "/"@.is_prefix_of(next) {
        assert(next.subrange(0, 1)[0] == next[0]);
    }
    if next.len() > 1 && next[0] == '/' && next[1] == '/' {
        assert("//"@ =~= next.subrange(0, 2));
    }
    if "//"@.is_prefix_of(next) {
        assert(next.subrange(0, 2)[1] == next[1]);
        assert(next.subrange(0, 2)[0] == next[0]);
    }
}

/// The login page is shown to who is not logged in; who is, is sent to `/`.
pub proof fn law_login_page(config: Config, db: DbView, fields: Seq<FieldView>, now: i64)
    requires
        db.web_password is Some || config.web_password_hash@.len() > 0,
    ensures
        ({
            let out = login_page_outcome(config, db, fields, now);
            &&& out.set_cookie is None
            &&& session::session_of(config, db, fields, now) is None ==> out.status == 200
                && out.body == BodyView::Html(pages::login_page_text(None)) && out.location is None
            &&& session::session_of(config, db, fields, now) is Some ==> out.status == 303
                && out.location == Some("/"@)
        }),
{
    reveal_strlit("/");
}

/// Logging out takes the cookie back and leads to the login page.
pub proof fn law_logout(config: Config, db: DbView)
    requires
        db.web_password is Some || config.web_password_hash@.len() > 0,
    ensures
        logout_outcome(config, db).status == 303,
        logout_outcome(config, db).location == Some("/_gateway/login"@),
        logout_outcome(config, db).set_cookie == Some(session::cookie_text(Seq::empty(), 0)),
{
    let a = "dshweb=; Path=/; Max-Age=0; HttpOnly; Secure; SameSite=Strict"@;
    reveal_strlit("dshweb=; Path=/; Max-Age=0; HttpOnly; Secure; SameSite=Strict");
    reveal_strlit("dshweb=");
    reveal_strlit("; Path=/; Max-Age=");
    reveal_strlit("; HttpOnly; Secure; SameSite=Strict");
    assert(text::signed_decimal(0) =~= seq!['0']);
    assert(a =~= session::cookie_text(Seq::empty(), 0));
}

/// A session is renewed in the last six hours of its twelve, with a session of
/// the version that counts, unless protocols were switched.
pub proof fn law_renewal(
    config: Config,
    db: DbView,
    session_end: i64,
    status: u16,
    rnd: Seq<u8>,
    now: i64,
)
    ensures
        ({
            let out = renewal_outcome(config, db, session_end, status, rnd, now);
            let closed = db.web_password is None && config.web_password_hash@.len() == 0;
            let version = match db.web_password {
                Some(w) => w.1,
                None => 0i64,
            };
            let cookie = session::cookie_text(
                session::session_token(config.jwt_secret@, version, rnd, now),
                43200,
            );
            if !closed && now < session_end < now + 21600 && status != 101 && http::is_value(
                cookie,
            ) {
                out == Some(cookie)
            } else {
                out is None
            }
        }),
{
}

/// What a request to change the web password leads to: removing it, taking the
/// hash of the password that it carries, or else the hash that it carries. A
/// password has 1 to 256 bytes, a hash starts with `$argon2` and has 512 at most.
pub proof fn law_web_password_changes(
    db: DbView,
    req: WebPasswordRequest,
    fresh: Seq<char>,
    now: i64,
)
    requires
        db.web_version < i64::MAX,
    ensures
        ({
            let out = password_outcome(db, req, fresh, now);
            let set = |hash: Seq<char>|
                out == (
                    seq![
                        ChangeView::SetWebPassword {
                            hash,
                            version: (db.web_version + 1) as i64,
                            at: now,
                        },
                    ],
                    Ok::<(bool, bool, Option<i64>), ErrorView>(
                        (true, true, Some((db.web_version + 1) as i64)),
                    ),
                );
            let refused = out.0.len() == 0 && out.1 is Err && out.1->Err_0 is BadRequest;
            if req.clear {
                out.0 == seq![ChangeView::ClearWebPassword] && out.1 == Ok::<
                    (bool, bool, Option<i64>),
                    ErrorView,
                >((true, false, None))
            } else if req.password@.len() > 0 {
                if encode_utf8(req.password@).len() <= 256 {
                    set(fresh)
                } else {
                    refused
                }
            } else if req.hash@.len() >= 7 && req.hash@.take(7) == "$argon2"@ && encode_utf8(
                req.hash@,
            ).len() <= 512 {
                set(req.hash@)
            } else {
                refused
            }
        }),
{
    reveal_strlit("$argon2");
    if req.hash@.len() >= 7 {
        assert(req.hash@.take(7) =~= req.hash@.subrange(0, 7));
    }
}

/// What is said of the web password: where it comes from and its version.
pub proof fn law_web_password_status(config: Config, db: DbView)
    ensures
        ({
            let s = password_status(config, db);
            &&& s.ok
            &&& s.enabled == (db.web_password is Some || config.web_password_hash@.len() > 0)
            &&& match db.web_password {
                Some(w) => s.source == Some("db"@) && s.version == Some(w.1),
                None => if config.web_password_hash@.len() > 0 {
                    s.source == Some("env"@) && s.version == Some(0i64)
                } else {
                    s.source is None && s.version is None
                },
            }
        }),
{
}

/// Web logins are counted per address, apart from other logins: one that comes too
/// often is answered 429 and its password is not looked at.
pub proof fn law_web_logins_are_limited(
    pre: AppState,
    post: AppState,
    headers: Headers,
    form: LoginForm,
    out: WebReply,
    tick: u128,
    rnd: Seq<u8>,
    now: i64,
)
    requires
        submit_handled(pre, post, headers, form, out, tick, rnd, now),
    ensures
        ({
            let key = "web:"@ + auth::source_ip(headers);
            let l = pre.login_limiter;
            let passes = crate::limiter::recent(l.attempts(key), tick, l.window()).len() < l.max();
            &&& post.db == pre.db && post.config == pre.config && post.pair_limiter
                == pre.pair_limiter
            &&& passes ==> out@ == submit_outcome(pre.config, pre.db@, form, rnd, now)
            &&& !passes ==> out@.status == 429 && out@.set_cookie is None && out@.body
                == BodyView::Html(pages::login_page_text(Some("尝试过于频繁,稍后再试"@)))
            &&& passes ==> post.login_limiter.attempts(key).len() > 0
                && post.login_limiter.attempts(key).last() == tick
            &&& forall|other: Seq<char>|
                other != key ==> #[trigger] post.login_limiter.attempts(other) == l.attempts(other)
            &&& rnd.len() == 8
        }),
{
}

/// A web password that is set from a password is hashed as that password, and
/// nothing but the register changes.
pub proof fn law_web_password_is_hashed(
    pre: AppState,
    post: AppState,
    req: WebPasswordRequest,
    res: AppResult<WebPasswordSet>,
    fresh: Seq<char>,
    now: i64,
)
    requires
        password_handled(pre, post, req, res, fresh, now),
        pre.db@.web_version < i64::MAX,
        !req.clear,
        0 < req.password@.len(),
        encode_utf8(req.password@).len() <= 256,
    ensures
        post.db@.web_password == Some((fresh, (pre.db@.web_version + 1) as i64)),
        crypto::phc_well_formed(fresh),
        crypto::argon2_accepts(encode_utf8(req.password@), fresh),
        res is Ok && res->Ok_0.enabled && res->Ok_0.version == Some(
            (pre.db@.web_version + 1) as i64,
        ),
        post.config == pre.config,
        post.login_limiter == pre.login_limiter,
{
    let out = password_outcome(pre.db@, req, fresh, now);
    change::lemma_replay_one(pre.db@, out.0[0]);
    assert(out.0 =~= seq![out.0[0]]);
}

} // verus!
