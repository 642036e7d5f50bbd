//! Pairing: a phone shows a code, a Mac answers it with a host code of its own,
//! the person at the phone compares host codes and picks the Mac, and the phone
//! gets a token that is bound to the tunnel of that Mac.
//!
//! A code that waits is unique, so one who copies it gets nothing; an answer
//! does not complete the pairing by itself; and it can be taken once, for a
//! short time.
use vstd::prelude::*;

use crate::auth;
use crate::change;
use crate::change::{ChangeView, DbView};
use crate::clock;
use crate::config;
use crate::config::Config;
use crate::crypto;
use crate::db;
use crate::db::TokenDb;
use crate::error;
use crate::error::{AppError, AppResult, ErrorView};
use crate::http::Headers;
use crate::rows::{ClaimRow, ClaimView, PairingView};
use crate::split;
use crate::state;
use crate::state::AppState;
use crate::table;
use crate::tenant;
use crate::tenant::{TenantCtx, DEFAULT_TENANT};
use crate::text;

pub use crate::admin::{
    admin_revoke_token_handler, admin_status_handler, admin_tokens_handler, AdminRevokeRequest,
};
pub use crate::pages::pair_page_handler;
pub use crate::qr::{admin_qr_handler, AdminQrRequest};

verus! {

/// How long a code waits, in seconds.
pub const PAIRING_TTL_SECS: i64 = 600;

/// How long an offer stands, in seconds.
pub const CLAIM_TTL_SECS: i64 = 300;

/// A code waits for ten minutes, an offer stands for five.
pub proof fn law_times()
    ensures
        PAIRING_TTL_SECS == 600,
        CLAIM_TTL_SECS == 300,
{
}

// ---- what is valid --------------------------------------------------------

/// The characters of codes: capital letters and digits without those that are
/// mistaken for one another.
pub open spec fn is_code_symbol(c: char) -> bool {
    (text::is_upper(c) && c != 'I' && c != 'L' && c != 'O') || '2' <= c <= '9'
}

pub open spec fn all_code_symbols(s: Seq<char>) -> bool {
    forall|i: int| 0 <= i < s.len() ==> is_code_symbol(#[trigger] s[i])
}

/// A pairing code: ten symbols.
pub open spec fn is_pairing_code(s: Seq<char>) -> bool {
    s.len() == 10 && all_code_symbols(s)
}

/// A host code: six or seven symbols, behind a hyphen or not.
pub open spec fn is_host_code(s: Seq<char>) -> bool {
    let c = match text::stripped(s, "-"@) {
        Some(rest) => rest,
        None => s,
    };
    (c.len() == 6 || c.len() == 7) && all_code_symbols(c)
}

pub open spec fn is_alphanumeric(c: char) -> bool {
    text::is_digit(c) || text::is_lower(c) || text::is_upper(c)
}

/// The secret of a pairing: 32 to 128 letters and digits.
pub open spec fn is_secret(s: Seq<char>) -> bool {
    32 <= s.len() <= 128 && forall|i: int| 0 <= i < s.len() ==> is_alphanumeric(#[trigger] s[i])
}

pub open spec fn is_tenant_char(c: char) -> bool {
    text::is_lower(c) || text::is_digit(c) || c == '-'
}

/// A text that can be the id of a registered tenant: 4 to 32 lower-case letters,
/// digits and hyphens.
pub open spec fn is_tenant_id(s: Seq<char>) -> bool {
    &&& s != DEFAULT_TENANT@
    &&& 4 <= s.len() <= 32
    &&& forall|i: int| 0 <= i < s.len() ==> is_tenant_char(#[trigger] s[i])
}

/// The symbols of codes, one by one: no I, L, O, 0 or 1.
pub proof fn law_code_symbols(c: char)
    ensures
        is_code_symbol(c) <==> "ABCDEFGHJKMNPQRSTUVWXYZ23456789"@.contains(c),
{
    reveal_strlit("ABCDEFGHJKMNPQRSTUVWXYZ23456789");
    let all = "ABCDEFGHJKMNPQRSTUVWXYZ23456789"@;
    if is_code_symbol(c) {
        let n = c as int;
        let i: int = if n < 'I' as int && n >= 'A' as int {
            n - 'A' as int
        } else if n >= 'A' as int && n < 'L' as int {
            n - 'A' as int - 1
        } else if n >= 'A' as int && n < 'O' as int {
            n - 'A' as int - 2
        } else if n >= 'A' as int {
            n - 'A' as int - 3
        } else {
            n - '2' as int + 23
        };
        assert(0 <= i < 31);
        assert(all[i] == c);
    }
}

/// The form of codes, secrets and tenant ids.
pub proof fn law_forms(s: Seq<char>)
    ensures
        is_pairing_code(s) <==> s.len() == 10 && forall|i: int|
            0 <= i < 10 ==> "ABCDEFGHJKMNPQRSTUVWXYZ23456789"@.contains(#[trigger] s[i]),
        is_secret(s) <==> 32 <= s.len() <= 128 && forall|i: int|
            0 <= i < s.len() ==> {
                let c = #[trigger] s[i];
                '0' <= c <= '9' || 'A' <= c <= 'Z' || 'a' <= c <= 'z'
            },
        is_tenant_id(s) <==> s != "default"@ && 4 <= s.len() <= 32 && forall|i: int|
            0 <= i < s.len() ==> {
                let c = #[trigger] s[i];
                '0' <= c <= '9' || 'a' <= c <= 'z' || c == '-'
            },
{
    assert forall|i: int| 0 <= i < s.len() implies is_code_symbol(#[trigger] s[i])
        == "ABCDEFGHJKMNPQRSTUVWXYZ23456789"@.contains(s[i]) by {
        law_code_symbols(s[i]);
    }
    if is_pairing_code(s) {
        assert forall|i: int| 0 <= i < 10 implies "ABCDEFGHJKMNPQRSTUVWXYZ23456789"@.contains(
            #[trigger] s[i],
        ) by {
            assert(is_code_symbol(s[i]));
        }
    }
    assert forall|i: int| 0 <= i < s.len() implies is_alphanumeric(#[trigger] s[i]) == ('0' <= s[i]
        <= '9' || 'A' <= s[i] <= 'Z' || 'a' <= s[i] <= 'z') by {}
    assert forall|i: int| 0 <= i < s.len() implies is_tenant_char(#[trigger] s[i]) == ('0' <= s[i]
        <= '9' || 'a' <= s[i] <= 'z' || s[i] == '-') by {}
}

/// A host code has six or seven symbols; a hyphen before them does not count.
pub proof fn law_host_code_form(s: Seq<char>)
    ensures
        all_code_symbols(s) && (s.len() == 6 || s.len() == 7) ==> is_host_code(s) && is_host_code(
            seq!['-'] + s,
        ),
        all_code_symbols(s) && s.len() != 6 && s.len() != 7 ==> !is_host_code(s) && !is_host_code(
            seq!['-'] + s,
        ),
        is_host_code(s) ==> {
            let c = if s[0] == '-' {
                s.skip(1)
            } else {
                s
            };
            6 <= c.len() <= 7 && forall|i: int|
                0 <= i < c.len() ==> "ABCDEFGHJKMNPQRSTUVWXYZ23456789"@.contains(#[trigger] c[i])
        },
{
    reveal_strlit("-");
    let t = seq!['-'] + s;
    assert("-"@ =~= seq!['-']);
    assert("-"@ =~= t.subrange(0, 1));
    assert(t.skip(1) =~= s);
    if all_code_symbols(s) && s.len() > 0 {
        assert(is_code_symbol(s[0]));
        if "-"@.is_prefix_of(s) {
            assert(s.subrange(0, 1)[0] == s[0]);
        }
    }
    if s.len() > 0 && s[0] == '-' {
        assert("-"@ =~= s.subrange(0, 1));
    }
    if is_host_code(s) {
        if "-"@.is_prefix_of(s) {
            assert(s.subrange(0, 1)[0] == s[0]);
        }
        let c = if s[0] == '-' {
            s.skip(1)
        } else {
            s
        };
        assert forall|i: int| 0 <= i < c.len() implies "ABCDEFGHJKMNPQRSTUVWXYZ23456789"@.contains(
            #[trigger] c[i],
        ) by {
            law_code_symbols(c[i]);
            assert(is_code_symbol(c[i]));
        }
    }
}

fn symbols_only(chars: &Vec<char>) -> (r: bool)
    ensures
        r == all_code_symbols(chars@),
{
    for i in 0..chars.len()
        invariant
            forall|j: int| 0 <= j < i ==> is_code_symbol(#[trigger] chars@[j]),
    {
        let c = chars[i];
        if !(('A' <= c && c <= 'Z' && c != 'I' && c != 'L' && c != 'O') || ('2' <= c && c
            <= '9')) {
            assert(!is_code_symbol(chars@[i as int]));
            return false;
        }
    }
    true
}

pub fn valid_code_d(code: &str) -> (r: bool)
    ensures
        r == is_pairing_code(code@),
{
    let chars = text::to_chars(code);
    chars.len() == 10 && symbols_only(&chars)
}

pub fn valid_host_code(code: &str) -> (r: bool)
    ensures
        r == is_host_code(code@),
{
    let chars = match text::strip_prefix(code, "-") {
        Some(rest) => text::to_chars(rest.as_str()),
        None => text::to_chars(code),
    };
    (chars.len() == 6 || chars.len() == 7) && symbols_only(&chars)
}

pub fn valid_secret(s: &str) -> (r: bool)
    ensures
        r == is_secret(s@),
{
    let chars = text::to_chars(s);
    if chars.len() < 32 || chars.len() > 128 {
        return false;
    }
    for i in 0..chars.len()
        invariant
            chars@ == s@,
            forall|j: int| 0 <= j < i ==> is_alphanumeric(#[trigger] s@[j]),
    {
        let c = chars[i];
        if !(('0' <= c && c <= '9') || ('a' <= c && c <= 'z') || ('A' <= c && c <= 'Z')) {
            assert(!is_alphanumeric(s@[i as int]));
            return false;
        }
    }
    true
}

fn valid_tenant(s: &str) -> (r: bool)
    ensures
        r == is_tenant_id(s@),
{
    if text::same(s, DEFAULT_TENANT) {
        return false;
    }
    let chars = text::to_chars(s);
    if chars.len() < 4 || chars.len() > 32 {
        return false;
    }
    for i in 0..chars.len()
        invariant
            chars@ == s@,
            forall|j: int| 0 <= j < i ==> is_tenant_char(#[trigger] s@[j]),
    {
        let c = chars[i];
        if !(('a' <= c && c <= 'z') || ('0' <= c && c <= '9') || c == '-') {
            assert(!is_tenant_char(s@[i as int]));
            return false;
        }
    }
    true
}

// ---- a phone starts -------------------------------------------------------

pub struct PairStartRequest {
    /// The code that the phone has made and shows.
    pub code: String,
    /// A secret that the phone keeps; what it asks later must carry it.
    pub secret: String,
    pub device: String,
    /// The tenant that may answer; empty where any may.
    pub tenant: String,
}

#[derive(Debug)]
pub struct PairStartResponse {
    pub pairing_id: String,
    pub expires_at: i64,
}

impl View for PairStartResponse {
    type V = (Seq<char>, i64);

    open spec fn view(&self) -> (Seq<char>, i64) {
        (self.pairing_id@, self.expires_at)
    }
}

/// The tenant that a request to start anchors the pairing to.
pub open spec fn anchor(req: PairStartRequest) -> Seq<char> {
    text::ascii_lower(text::trimmed(req.tenant@))
}

/// A registered tenant that is not revoked.
pub open spec fn tenant_active(db: DbView, id: Seq<char>) -> bool {
    match db::tenant_with_id(db, id) {
        Some(t) => !t.revoked,
        None => false,
    }
}

/// What a start leads to, once it may be tried.
pub open spec fn start_outcome(
    db: DbView,
    req: PairStartRequest,
    id: Seq<char>,
    now: i64,
) -> (Seq<ChangeView>, Result<(Seq<char>, i64), ErrorView>) {
    let none = Seq::<ChangeView>::empty();
    let code = split::plain_code(req.code@);
    let tenant = anchor(req);
    if !is_pairing_code(code) {
        (none, Err(ErrorView::BadRequest("code must be 10 chars (A-Z minus I,L,O + 2-9)"@)))
    } else if !is_secret(req.secret@) {
        (none, Err(ErrorView::BadRequest("secret must be 32-128 alphanumerics"@)))
    } else if tenant.len() > 0 && !is_tenant_id(tenant) {
        (none, Err(ErrorView::BadRequest("invalid tenant"@)))
    } else if tenant.len() > 0 && !tenant_active(db, tenant) {
        (none, Err(ErrorView::BadRequest("unknown tenant"@)))
    } else if db::pairing_refused(db, id, code, now) {
        (
            seq![ChangeView::Sweep { now }],
            Err(ErrorView::Conflict("code already in use; generate a new one"@)),
        )
    } else {
        (
            seq![
                ChangeView::Sweep { now },
                ChangeView::InsertPairing(
                    db::new_pairing(
                        id,
                        code,
                        req.secret@,
                        req.device@,
                        PAIRING_TTL_SECS,
                        tenant,
                        now,
                    ),
                ),
            ],
            Ok((id, (now + PAIRING_TTL_SECS) as i64)),
        )
    }
}

/// Starts a pairing with a given id, at a given time.
pub fn start_at(store: &mut TokenDb, req: &PairStartRequest, id: &str, now: i64) -> (res:
    AppResult<PairStartResponse>)
    requires
        clock::is_unix_time(now),
    ensures
        ({
            let out = start_outcome(old(store)@, *req, id@, now);
            &&& old(store).advanced(final(store), out.0)
            &&& error::viewed(res) == out.1
        }),
{
    proof {
        store.lemma_advanced_none();
    }
    let code = split::plain_code_of(req.code.as_str());
    if !valid_code_d(code.as_str()) {
        return Err(
            AppError::BadRequest("code must be 10 chars (A-Z minus I,L,O + 2-9)".to_owned()),
        );
    }
    if !valid_secret(req.secret.as_str()) {
        return Err(AppError::BadRequest("secret must be 32-128 alphanumerics".to_owned()));
    }
    let tenant = text::to_lower(text::trim(req.tenant.as_str()).as_str());
    if !tenant.as_str().is_empty() {
        if !valid_tenant(tenant.as_str()) {
            return Err(AppError::BadRequest("invalid tenant".to_owned()));
        }
        let active = match store.tenant_by_id(tenant.as_str()) {
            Some(t) => !t.revoked,
            None => false,
        };
        if !active {
            return Err(AppError::BadRequest("unknown tenant".to_owned()));
        }
    }
    match store.pairing_insert(
        id,
        code.as_str(),
        req.secret.as_str(),
        req.device.as_str(),
        PAIRING_TTL_SECS,
        tenant.as_str(),
        now,
    ) {
        Ok(_) => Ok(
            PairStartResponse { pairing_id: id.to_owned(), expires_at: now + PAIRING_TTL_SECS },
        ),
        Err(_) => Err(AppError::Conflict("code already in use; generate a new one".to_owned())),
    }
}

/// A start was handled: counted at `tick`, with the id `id`, at the time `now`.
pub open spec fn start_handled(
    pre: AppState,
    post: AppState,
    headers: Headers,
    req: PairStartRequest,
    res: AppResult<PairStartResponse>,
    tick: u128,
    id: Seq<char>,
    now: i64,
) -> bool {
    let ip = auth::source_ip(headers);
    let out = start_outcome(pre.db@, req, id, now);
    &&& crypto::is_uuid(id)
    &&& clock::is_unix_time(now)
    &&& state::kept_but_db_and_pair(pre, post)
    &&& pre.pair_limiter.counted(&post.pair_limiter, ip, tick)
    &&& if !pre.pair_limiter.admits(ip, tick) {
        &&& post.db == pre.db
        &&& error::viewed(res) == Err::<(Seq<char>, i64), _>(
            ErrorView::Conflict("too many pairing attempts, retry later"@),
        )
    } else {
        &&& pre.db.advanced(&post.db, out.0)
        &&& error::viewed(res) == out.1
    }
}

/// Starts a pairing. Attempts are limited per address.
pub fn start_handler(state: &mut AppState, headers: &Headers, req: &PairStartRequest) -> (res:
    AppResult<PairStartResponse>)
    ensures
        exists|tick: u128, id: Seq<char>, now: i64|
            #[trigger] start_handled(
                *old(state),
                *final(state),
                *headers,
                *req,
                res,
                tick,
                id,
                now,
            ),
{
    let ghost pre = *state;
    let ip = auth::client_ip(headers);
    let id = crypto::new_uuid();
    let now = clock::utc_now();
    let allowed = state.pair_limiter.allow(ip.as_str());
    let ghost tick = choose|tick: u128|
        allowed == pre.pair_limiter.admits(ip@, tick) && #[trigger] pre.pair_limiter.counted(
            &state.pair_limiter,
            ip@,
            tick,
        );
    let res = if !allowed {
        Err(AppError::Conflict("too many pairing attempts, retry later".to_owned()))
    } else {
        start_at(&mut state.db, req, id.as_str(), now)
    };
    assert(start_handled(pre, *state, *headers, *req, res, tick, id@, now));
    res
}

// ---- a phone asks ---------------------------------------------------------

pub struct PairPollRequest {
    pub pairing_id: String,
    pub secret: String,
}

/// What a Mac offers, as the phone shows it.
#[derive(Debug)]
pub struct PairOffer {
    pub claim_id: String,
    /// The code on the screen of the Mac, to be compared by the person.
    pub host_code: String,
    pub host_label: String,
    pub upstream_port: u16,
    pub expires_at: i64,
}

pub struct OfferView {
    pub claim_id: Seq<char>,
    pub host_code: Seq<char>,
    pub host_label: Seq<char>,
    pub upstream_port: u16,
    pub expires_at: i64,
}

impl View for PairOffer {
    type V = OfferView;

    open spec fn view(&self) -> OfferView {
        OfferView {
            claim_id: self.claim_id@,
            host_code: self.host_code@,
            host_label: self.host_label@,
            upstream_port: self.upstream_port,
            expires_at: self.expires_at,
        }
    }
}

pub open spec fn offer_views(offers: Seq<PairOffer>) -> Seq<OfferView> {
    offers.map_values(|o: PairOffer| o@)
}

#[derive(Debug)]
pub struct PairPollResponse {
    /// `waiting`, `offers`, `confirmed` or `expired`.
    pub status: String,
    pub offers: Vec<PairOffer>,
}

impl View for PairPollResponse {
    type V = (Seq<char>, Seq<OfferView>);

    open spec fn view(&self) -> (Seq<char>, Seq<OfferView>) {
        (self.status@, offer_views(self.offers@))
    }
}

/// The claims that a pairing with this anchor may see: those of its tenant, or
/// all of them where it is open.
pub open spec fn visible_to(tenant: Seq<char>) -> spec_fn(ClaimView) -> bool {
    |c: ClaimView| tenant.len() == 0 || c.tenant_id == tenant
}

pub open spec fn offer_of() -> spec_fn(ClaimView) -> OfferView {
    |c: ClaimView|
        OfferView {
            claim_id: c.id,
            host_code: c.host_code,
            host_label: c.host_label,
            upstream_port: c.upstream_port,
            expires_at: c.expires_at,
        }
}

/// The offers that a pairing is shown.
pub open spec fn offers_shown(db: DbView, p: PairingView) -> Seq<OfferView> {
    db::offers_for(db, p.code_d).filter(visible_to(p.tenant_id)).map_values(offer_of())
}

/// What a question of the phone leads to.
pub open spec fn poll_outcome(db: DbView, req: PairPollRequest, now: i64) -> (
    Seq<ChangeView>,
    Result<(Seq<char>, Seq<OfferView>), ErrorView>,
) {
    let none = Seq::<ChangeView>::empty();
    match table::first(db.pairings, db::has_pairing_id(req.pairing_id@)) {
        None => (none, Err(ErrorView::NotFound("unknown pairing"@))),
        Some(p) => if p.secret != req.secret@ {
            (none, Err(ErrorView::Unauthorized))
        } else if p.status == "expired"@ || p.expires_at < now {
            (none, Ok(("expired"@, Seq::empty())))
        } else if p.status == "confirmed"@ {
            (none, Ok(("confirmed"@, Seq::empty())))
        } else {
            let offers = offers_shown(change::apply(db, ChangeView::Sweep { now }), p);
            (
                seq![ChangeView::Sweep { now }],
                Ok(
                    (
                        if offers.len() == 0 {
                            "waiting"@
                        } else {
                            "offers"@
                        },
                        offers,
                    ),
                ),
            )
        },
    }
}

fn show_offers(claims: &Vec<ClaimRow>, tenant: &str) -> (out: Vec<PairOffer>)
    ensures
        offer_views(out@) == crate::rows::claim_views(claims@).filter(
            visible_to(tenant@),
        ).map_values(offer_of()),
{
    let ghost all = crate::rows::claim_views(claims@);
    let ghost p = visible_to(tenant@);
    let mut out: Vec<PairOffer> = Vec::new();
    assert(offer_views(out@) =~= all.take(0).filter(p).map_values(offer_of())) by {
        reveal(Seq::filter);
    }
    for i in 0..claims.len()
        invariant
            all == crate::rows::claim_views(claims@),
            p == visible_to(tenant@),
            offer_views(out@) == all.take(i as int).filter(p).map_values(offer_of()),
    {
        let ghost before = offer_views(out@);
        let ghost kept = all.take(i as int).filter(p);
        proof {
            reveal(Seq::filter);
            assert(all.take(i + 1).drop_last() == all.take(i as int));
            assert(all.take(i + 1).last() == claims@[i as int]@);
        }
        let c = &claims[i];
        if tenant.is_empty() || text::same(c.tenant_id.as_str(), tenant) {
            let offer = PairOffer {
                claim_id: c.id.clone(),
                host_code: c.host_code.clone(),
                host_label: c.host_label.clone(),
                upstream_port: c.upstream_port,
                expires_at: c.expires_at,
            };
            assert(offer@ == offer_of()(c@));
            out.push(offer);
            assert(offer_views(out@) =~= before.push(offer@));
            assert(kept.push(c@).map_values(offer_of()) =~= kept.map_values(offer_of()).push(
                offer_of()(c@),
            ));
        }
    }
    assert(all.take(claims.len() as int) == all);
    out
}

/// Tells the phone how its pairing stands, at a given time.
pub fn poll_at(store: &mut TokenDb, req: &PairPollRequest, now: i64) -> (res: AppResult<
    PairPollResponse,
>)
    ensures
        ({
            let out = poll_outcome(old(store)@, *req, now);
            &&& old(store).advanced(final(store), out.0)
            &&& error::viewed(res) == out.1
        }),
{
    proof {
        store.lemma_advanced_none();
    }
    let p = match store.pairing_get(req.pairing_id.as_str()) {
        Some(p) => p,
        None => {
            return Err(AppError::NotFound("unknown pairing".to_owned()));
        },
    };
    if !text::same(p.secret.as_str(), req.secret.as_str()) {
        return Err(AppError::Unauthorized);
    }
    if text::same(p.status.as_str(), "expired") || p.expires_at < now {
        let none: Vec<PairOffer> = Vec::new();
        assert(offer_views(none@) =~= Seq::<OfferView>::empty());
        return Ok(PairPollResponse { status: "expired".to_owned(), offers: none });
    }
    if text::same(p.status.as_str(), "confirmed") {
        let none: Vec<PairOffer> = Vec::new();
        assert(offer_views(none@) =~= Seq::<OfferView>::empty());
        return Ok(PairPollResponse { status: "confirmed".to_owned(), offers: none });
    }
    let claims = store.claims_for(p.code_d.as_str(), now);
    let offers = show_offers(&claims, p.tenant_id.as_str());
    if offers.len() == 0 {
        assert(offer_views(offers@) =~= Seq::<OfferView>::empty());
        Ok(PairPollResponse { status: "waiting".to_owned(), offers })
    } else {
        assert(offer_views(offers@).len() > 0);
        Ok(PairPollResponse { status: "offers".to_owned(), offers })
    }
}

/// A question was handled at the time `now`.
pub open spec fn poll_handled(
    pre: AppState,
    post: AppState,
    req: PairPollRequest,
    res: AppResult<PairPollResponse>,
    now: i64,
) -> bool {
    let out = poll_outcome(pre.db@, req, now);
    &&& clock::is_unix_time(now)
    &&& state::kept_but_db(pre, post)
    &&& pre.db.advanced(&post.db, out.0)
    &&& error::viewed(res) == out.1
}

/// Tells the phone how its pairing stands.
pub fn poll_handler(state: &mut AppState, req: &PairPollRequest) -> (res: AppResult<
    PairPollResponse,
>)
    ensures
        exists|now: i64| #[trigger] poll_handled(*old(state), *final(state), *req, res, now),
{
    let now = clock::utc_now();
    let res = poll_at(&mut state.db, req, now);
    assert(poll_handled(*old(state), *state, *req, res, now));
    res
}

// ---- a phone confirms -----------------------------------------------------

pub struct PairConfirmRequest {
    pub pairing_id: String,
    pub secret: String,
    pub claim_id: String,
    /// The host code that the person has compared; it must be that of the offer.
    pub host_code: String,
}

#[derive(Debug)]
pub struct PairConfirmResponse {
    pub token: String,
    pub expires_at: i64,
    /// The machine that the token is bound to.
    pub host_label: String,
    /// The tunnel port of the machine, in decimal, by which the app tells the
    /// hosts of one gateway apart.
    pub host_ref: String,
}

pub struct ConfirmView {
    pub token: Seq<char>,
    pub expires_at: i64,
    pub host_label: Seq<char>,
    pub host_ref: Seq<char>,
}

impl View for PairConfirmResponse {
    type V = ConfirmView;

    open spec fn view(&self) -> ConfirmView {
        ConfirmView {
            token: self.token@,
            expires_at: self.expires_at,
            host_label: self.host_label@,
            host_ref: self.host_ref@,
        }
    }
}

/// Why a claim cannot be taken for a pairing.
pub open spec fn claim_refusal(
    p: PairingView,
    c: ClaimView,
    req: PairConfirmRequest,
    now: i64,
) -> Option<ErrorView> {
    if c.pairing_code != p.code_d || c.status != "offered"@ || (p.tenant_id.len() > 0
        && c.tenant_id != p.tenant_id) {
        Some(ErrorView::BadRequest("claim not applicable"@))
    } else if c.expires_at < now {
        Some(ErrorView::BadRequest("claim expired"@))
    } else if split::plain_code(req.host_code@) != c.host_code {
        Some(ErrorView::BadRequest("host code mismatch"@))
    } else {
        None
    }
}

/// Why a confirmation is refused.
pub open spec fn confirm_refusal(db: DbView, req: PairConfirmRequest, now: i64) -> Option<
    ErrorView,
> {
    match table::first(db.pairings, db::has_pairing_id(req.pairing_id@)) {
        None => Some(ErrorView::NotFound("unknown pairing"@)),
        Some(p) => if p.secret != req.secret@ {
            Some(ErrorView::Unauthorized)
        } else if p.status != "pending"@ || p.expires_at < now {
            Some(ErrorView::BadRequest("pairing no longer active"@))
        } else {
            match table::first(db.claims, db::has_claim_id(req.claim_id@)) {
                None => Some(ErrorView::NotFound("unknown claim"@)),
                Some(c) => claim_refusal(p, c, req, now),
            }
        },
    }
}

/// What is written down when a claim is taken for a pairing, before the token.
pub open spec fn taken(req: PairConfirmRequest, jti: Seq<char>) -> Seq<ChangeView> {
    seq![
        ChangeView::ConsumeClaim { id: req.claim_id@ },
        ChangeView::SetPairingStatus { id: req.pairing_id@, status: "confirmed"@ },
        ChangeView::SetPairingToken { id: req.pairing_id@, jti },
    ]
}

/// What a confirmation leads to, once it may be tried.
pub open spec fn confirm_outcome(
    config: Config,
    db: DbView,
    req: PairConfirmRequest,
    jti: Seq<char>,
    now: i64,
) -> (Seq<ChangeView>, Result<ConfirmView, ErrorView>) {
    let p = table::first(db.pairings, db::has_pairing_id(req.pairing_id@))->0;
    let c = table::first(db.claims, db::has_claim_id(req.claim_id@))->0;
    let exp = clock::days_later(now, config.token_ttl_days);
    match confirm_refusal(db, req, now) {
        Some(e) => (Seq::empty(), Err(e)),
        None => if !clock::in_calendar(exp) {
            (Seq::empty(), Err(ErrorView::Internal("token lifetime out of range"@)))
        } else if table::first(db.tokens, db::has_jti(jti)) is Some {
            (
                taken(req, jti),
                Err(ErrorView::Internal("db insert: "@ + "UNIQUE constraint failed: tokens.jti"@)),
            )
        } else {
            (
                taken(req, jti).push(
                    ChangeView::InsertToken(
                        db::new_token(
                            jti,
                            p.device,
                            Some(c.upstream_port),
                            c.host_label,
                            c.tenant_id,
                            now,
                        ),
                    ),
                ),
                Ok(
                    ConfirmView {
                        token: auth::device_token(jti, p.device, now, exp, config.jwt_secret@),
                        expires_at: exp as i64,
                        host_label: c.host_label,
                        host_ref: text::decimal(c.upstream_port as nat),
                    },
                ),
            )
        },
    }
}

proof fn lemma_offered_found(claims: Seq<ClaimView>, id: Seq<char>)
    requires
        table::first(claims, db::has_claim_id(id)) is Some,
        table::first(claims, db::has_claim_id(id))->0.status == "offered"@,
    ensures
        table::first(claims, db::is_offered_id(id)) == table::first(claims, db::has_claim_id(id)),
    decreases claims.len(),
{
    if !db::has_claim_id(id)(claims[0]) {
        lemma_offered_found(claims.drop_first(), id);
    }
}

/// Takes the claim that the person at the phone has picked, at a given time,
/// and issues a token with a given id that is bound to its tunnel and belongs to
/// its tenant. Where the lifetime of the token goes beyond the calendar, the
/// claim is not taken.
pub fn confirm_at(
    store: &mut TokenDb,
    config: &Config,
    req: &PairConfirmRequest,
    jti: &str,
    now: i64,
) -> (res: AppResult<PairConfirmResponse>)
    ensures
        ({
            let out = confirm_outcome(*config, old(store)@, *req, jti@, now);
            let p = table::first(old(store)@.pairings, db::has_pairing_id(req.pairing_id@))->0;
            &&& old(store).advanced(final(store), out.0)
            &&& error::viewed(res) == out.1
            &&& res is Ok && res->Ok_0.expires_at >= 0 ==> auth::vouched(
                res->Ok_0.token@,
                config.jwt_secret@,
                auth::device_claims(jti@, p.device, now, res->Ok_0.expires_at as int),
            )
        }),
{
    let ghost pre = *store;
    proof {
        store.lemma_advanced_none();
    }
    let p = match store.pairing_get(req.pairing_id.as_str()) {
        Some(p) => p,
        None => {
            return Err(AppError::NotFound("unknown pairing".to_owned()));
        },
    };
    if !text::same(p.secret.as_str(), req.secret.as_str()) {
        return Err(AppError::Unauthorized);
    }
    if !text::same(p.status.as_str(), "pending") || p.expires_at < now {
        return Err(AppError::BadRequest("pairing no longer active".to_owned()));
    }
    let claim = match store.claim_get(req.claim_id.as_str()) {
        Some(c) => c,
        None => {
            return Err(AppError::NotFound("unknown claim".to_owned()));
        },
    };
    if !text::same(claim.pairing_code.as_str(), p.code_d.as_str()) || !text::same(
        claim.status.as_str(),
        "offered",
    ) {
        return Err(AppError::BadRequest("claim not applicable".to_owned()));
    }
    if !p.tenant_id.as_str().is_empty() && !text::same(
        claim.tenant_id.as_str(),
        p.tenant_id.as_str(),
    ) {
        return Err(AppError::BadRequest("claim not applicable".to_owned()));
    }
    if claim.expires_at < now {
        return Err(AppError::BadRequest("claim expired".to_owned()));
    }
    let echo = split::plain_code_of(req.host_code.as_str());
    if !text::same(echo.as_str(), claim.host_code.as_str()) {
        return Err(AppError::BadRequest("host code mismatch".to_owned()));
    }
    let exp: i64 = match clock::add_days(now, config.token_ttl_days) {
        Some(t) => t,
        None => {
            return Err(AppError::Internal("token lifetime out of range".to_owned()));
        },
    };
    proof {
        lemma_offered_found(store@.claims, req.claim_id@);
    }
    if !store.claim_consume(req.claim_id.as_str()) {
        return Err(AppError::Conflict("claim already consumed".to_owned()));
    }
    let ghost s1 = *store;
    store.pairing_set_status(req.pairing_id.as_str(), "confirmed");
    let ghost s2 = *store;
    store.pairing_set_token(req.pairing_id.as_str(), jti);
    let ghost s3 = *store;
    proof {
        let a = seq![ChangeView::ConsumeClaim { id: req.claim_id@ }];
        let b = seq![
            ChangeView::SetPairingStatus { id: req.pairing_id@, status: "confirmed"@ },
        ];
        let c = seq![ChangeView::SetPairingToken { id: req.pairing_id@, jti: jti@ }];
        pre.lemma_advanced_joins(&s1, &s2, a, b);
        pre.lemma_advanced_joins(&s2, &s3, a + b, c);
        assert(a + b + c =~= taken(*req, jti@));
        lemma_taken_keeps_tokens(pre@, *req, jti@);
    }
    let token = auth::issue_token(jti, p.device.as_str(), now, exp, config.jwt_secret.as_str());
    match store.insert(
        jti,
        p.device.as_str(),
        Some(claim.upstream_port),
        claim.host_label.as_str(),
        claim.tenant_id.as_str(),
        now,
    ) {
        Ok(_) => {
            proof {
                let d = ChangeView::InsertToken(
                    db::new_token(
                        jti@,
                        p.device@,
                        Some(claim.upstream_port),
                        claim.host_label@,
                        claim.tenant_id@,
                        now,
                    ),
                );
                pre.lemma_advanced_joins(&s3, store, taken(*req, jti@), seq![d]);
                assert(taken(*req, jti@) + seq![d] =~= taken(*req, jti@).push(d));
            }
            Ok(
                PairConfirmResponse {
                    token,
                    expires_at: exp,
                    host_label: claim.host_label,
                    host_ref: text::decimal_of(claim.upstream_port as u64),
                },
            )
        },
        Err(e) => Err(error::internal("db insert: ", e.message.as_str())),
    }
}

/// Taking a claim touches no token.
pub proof fn lemma_taken_keeps_tokens(db: DbView, req: PairConfirmRequest, jti: Seq<char>)
    ensures
        change::replay(db, taken(req, jti)).tokens == db.tokens,
{
    reveal_with_fuel(change::replay, 4);
    let t = taken(req, jti);
    assert(t.drop_last().drop_last().drop_last() =~= Seq::<ChangeView>::empty());
}

/// A confirmation was handled: counted at `tick`, with the token id `jti`, at
/// the time `now`.
pub open spec fn confirm_handled(
    pre: AppState,
    post: AppState,
    headers: Headers,
    req: PairConfirmRequest,
    res: AppResult<PairConfirmResponse>,
    tick: u128,
    jti: Seq<char>,
    now: i64,
) -> bool {
    let ip = auth::source_ip(headers);
    let out = confirm_outcome(pre.config, pre.db@, req, jti, now);
    let p = table::first(pre.db@.pairings, db::has_pairing_id(req.pairing_id@))->0;
    &&& crypto::is_uuid(jti)
    &&& clock::is_unix_time(now)
    &&& state::kept_but_db_and_pair(pre, post)
    &&& pre.pair_limiter.counted(&post.pair_limiter, ip, tick)
    &&& if !pre.pair_limiter.admits(ip, tick) {
        &&& post.db == pre.db
        &&& error::viewed(res) == Err::<ConfirmView, _>(
            ErrorView::Conflict("too many attempts, retry later"@),
        )
    } else {
        &&& pre.db.advanced(&post.db, out.0)
        &&& error::viewed(res) == out.1
        &&& res is Ok && res->Ok_0.expires_at >= 0 ==> auth::vouched(
            res->Ok_0.token@,
            pre.config.jwt_secret@,
            auth::device_claims(jti, p.device, now, res->Ok_0.expires_at as int),
        )
    }
}

/// Takes the claim that the person at the phone has picked. Attempts are limited
/// per address.
pub fn confirm_handler(state: &mut AppState, headers: &Headers, req: &PairConfirmRequest) -> (res:
    AppResult<PairConfirmResponse>)
    ensures
        exists|tick: u128, jti: Seq<char>, now: i64|
            #[trigger] confirm_handled(
                *old(state),
                *final(state),
                *headers,
                *req,
                res,
                tick,
                jti,
                now,
            ),
{
    let ghost pre = *state;
    let ip = auth::client_ip(headers);
    let jti = crypto::new_uuid();
    let now = clock::utc_now();
    let allowed = state.pair_limiter.allow(ip.as_str());
    let ghost tick = choose|tick: u128|
        allowed == pre.pair_limiter.admits(ip@, tick) && #[trigger] pre.pair_limiter.counted(
            &state.pair_limiter,
            ip@,
            tick,
        );
    let res = if !allowed {
        Err(AppError::Conflict("too many attempts, retry later".to_owned()))
    } else {
        confirm_at(&mut state.db, &state.config, req, jti.as_str(), now)
    };
    assert(confirm_handled(pre, *state, *headers, *req, res, tick, jti@, now));
    res
}

// ---- a Mac answers --------------------------------------------------------

pub struct AdminClaimRequest {
    /// The code on the screen of the phone.
    pub code: String,
    /// The code that the Mac has made and shows.
    pub host_code: String,
    pub host_label: String,
    /// The tunnel port of the Mac; the default one where it names none.
    pub port: Option<u16>,
}

#[derive(Debug)]
pub struct AdminClaimResponse {
    pub claim_id: String,
    pub device: String,
    pub host_code: String,
    pub port: u16,
    pub expires_at: i64,
}

pub struct ClaimReplyView {
    pub claim_id: Seq<char>,
    pub device: Seq<char>,
    pub host_code: Seq<char>,
    pub port: u16,
    pub expires_at: i64,
}

impl View for AdminClaimResponse {
    type V = ClaimReplyView;

    open spec fn view(&self) -> ClaimReplyView {
        ClaimReplyView {
            claim_id: self.claim_id@,
            device: self.device@,
            host_code: self.host_code@,
            port: self.port,
            expires_at: self.expires_at,
        }
    }
}

/// A pairing that is anchored to another tenant does not exist for a tenant.
pub open spec fn hidden_from(ctx: (Seq<char>, bool), anchor: Seq<char>) -> bool {
    !ctx.1 && anchor.len() > 0 && anchor != ctx.0
}

/// The tenant that a claim is made for: a tenant claims for itself, the operator
/// for the tenant that the pairing is anchored to.
pub open spec fn claimant(ctx: (Seq<char>, bool), anchor: Seq<char>) -> Seq<char> {
    if ctx.1 {
        if anchor.len() == 0 {
            DEFAULT_TENANT@
        } else {
            anchor
        }
    } else {
        ctx.0
    }
}

/// Why a tunnel port cannot be claimed. A registered port is its tenant's alone;
/// one that is not registered is for the operator, within the allowed range.
pub open spec fn port_refusal(
    config: Config,
    db: DbView,
    ctx: (Seq<char>, bool),
    tenant: Seq<char>,
    port: u16,
) -> Option<ErrorView> {
    match table::first(db.hosts, db::has_port(port)) {
        Some(h) => if !h.enabled {
            Some(ErrorView::Forbidden("host disabled"@))
        } else if h.tenant_id != tenant {
            Some(ErrorView::Forbidden("tunnel port owned by another host"@))
        } else {
            None
        },
        None => if !ctx.1 && tenant != DEFAULT_TENANT@ {
            Some(
                ErrorView::Forbidden(
                    "no host registered for this port; ask the operator to register it"@,
                ),
            )
        } else if !tenant::port_allowed(config, port) {
            Some(ErrorView::BadRequest(tenant::port_range_text(config)))
        } else {
            None
        },
    }
}

/// The port that a claim is about.
pub open spec fn claimed_port(config: Config, req: AdminClaimRequest) -> u16 {
    match req.port {
        Some(p) => p,
        None => match config::port_of(config.upstream_addr@) {
            Some(p) => p,
            None => config.tunnel_port_min,
        },
    }
}

/// The name that a Mac is shown under.
pub open spec fn claimed_label(req: AdminClaimRequest) -> Seq<char> {
    if req.host_label@.len() == 0 {
        "mac"@
    } else {
        text::head(req.host_label@, 32)
    }
}

/// What a claim leads to.
pub open spec fn claim_outcome(
    config: Config,
    db: DbView,
    ctx: (Seq<char>, bool),
    req: AdminClaimRequest,
    id: Seq<char>,
    now: i64,
) -> (Seq<ChangeView>, Result<ClaimReplyView, ErrorView>) {
    let none = Seq::<ChangeView>::empty();
    let code = split::plain_code(req.code@);
    let host_code = split::plain_code(req.host_code@);
    let port = claimed_port(config, req);
    if !is_pairing_code(code) {
        (none, Err(ErrorView::BadRequest("code must be 10 chars"@)))
    } else if !is_host_code(host_code) {
        (none, Err(ErrorView::BadRequest("host_code must be 6-7 chars"@)))
    } else {
        match table::first(db.pairings, db::is_waiting_with(code, now)) {
            None => (none, Err(ErrorView::NotFound("no phone waiting with this code"@))),
            Some(p) => if hidden_from(ctx, p.tenant_id) {
                (none, Err(ErrorView::NotFound("no phone waiting with this code"@)))
            } else {
                let tenant = claimant(ctx, p.tenant_id);
                match port_refusal(config, db, ctx, tenant, port) {
                    Some(e) => (none, Err(e)),
                    None => if table::first(db.claims, db::has_claim_id(id)) is Some {
                        (
                            none,
                            Err(
                                ErrorView::Internal(
                                    "claim insert: "@ + "UNIQUE constraint failed: claims.id"@,
                                ),
                            ),
                        )
                    } else {
                        (
                            seq![
                                ChangeView::InsertClaim(
                                    db::new_claim(
                                        id,
                                        code,
                                        host_code,
                                        claimed_label(req),
                                        port,
                                        CLAIM_TTL_SECS,
                                        tenant,
                                        now,
                                    ),
                                ),
                            ],
                            Ok(
                                ClaimReplyView {
                                    claim_id: id,
                                    device: p.device,
                                    host_code,
                                    port,
                                    expires_at: (now + CLAIM_TTL_SECS) as i64,
                                },
                            ),
                        )
                    },
                }
            },
        }
    }
}

fn check_port(config: &Config, store: &TokenDb, ctx: &TenantCtx, tenant: &str, port: u16) -> (res:
    AppResult<()>)
    ensures
        match res {
            Ok(_) => port_refusal(*config, store@, ctx@, tenant@, port) is None,
            Err(e) => port_refusal(*config, store@, ctx@, tenant@, port) == Some(e@),
        },
{
    match store.host_by_port(port) {
        Some(h) => {
            if !h.enabled {
                return Err(AppError::Forbidden("host disabled".to_owned()));
            }
            if !text::same(h.tenant_id.as_str(), tenant) {
                return Err(AppError::Forbidden("tunnel port owned by another host".to_owned()));
            }
        },
        None => {
            if !ctx.operator && !text::same(tenant, DEFAULT_TENANT) {
                return Err(
                    AppError::Forbidden(
                        "no host registered for this port; ask the operator to register it".to_owned(),
                    ),
                );
            }
            if !(config.tunnel_port_min <= port && port <= config.tunnel_port_max) {
                return Err(AppError::BadRequest(tenant::port_range_message(config)));
            }
        },
    }
    Ok(())
}

/// Answers a code on behalf of a Mac, with a claim of a given id, at a given
/// time.
pub fn claim_at(
    store: &mut TokenDb,
    config: &Config,
    ctx: &TenantCtx,
    req: &AdminClaimRequest,
    id: &str,
    now: i64,
) -> (res: AppResult<AdminClaimResponse>)
    requires
        clock::is_unix_time(now),
    ensures
        ({
            let out = claim_outcome(*config, old(store)@, ctx@, *req, id@, now);
            &&& old(store).advanced(final(store), out.0)
            &&& error::viewed(res) == out.1
        }),
        res is Ok ==> ({
            let before = old(store)@.claims;
            let after = final(store)@.claims;
            let port = match req.port {
                Some(p) => p,
                None => match text::parsed_u16(text::after_last(config.upstream_addr@, ':')) {
                    Some(p) => p,
                    None => config.tunnel_port_min,
                },
            };
            &&& res->Ok_0.port == port
            &&& after.len() == before.len() + 1
            &&& after.drop_last() == before
            &&& after.last().id == id@
            &&& after.last().upstream_port == port
            &&& after.last().pairing_code == split::plain_code(req.code@)
            &&& after.last().host_code == res->Ok_0.host_code@
            &&& res->Ok_0.host_code@ == split::plain_code(req.host_code@)
        }),
{
    proof {
        store.lemma_advanced_none();
    }
    let code = split::plain_code_of(req.code.as_str());
    if !valid_code_d(code.as_str()) {
        return Err(AppError::BadRequest("code must be 10 chars".to_owned()));
    }
    let host_code = split::plain_code_of(req.host_code.as_str());
    if !valid_host_code(host_code.as_str()) {
        return Err(AppError::BadRequest("host_code must be 6-7 chars".to_owned()));
    }
    let pending = match store.pairing_by_code(code.as_str(), now) {
        Some(p) => p,
        None => {
            return Err(AppError::NotFound("no phone waiting with this code".to_owned()));
        },
    };
    let tenant = if ctx.operator {
        if pending.tenant_id.as_str().is_empty() {
            DEFAULT_TENANT.to_owned()
        } else {
            pending.tenant_id.clone()
        }
    } else {
        if !pending.tenant_id.as_str().is_empty() && !text::same(
            pending.tenant_id.as_str(),
            ctx.id.as_str(),
        ) {
            return Err(AppError::NotFound("no phone waiting with this code".to_owned()));
        }
        ctx.id.clone()
    };
    let port: u16 = match req.port {
        Some(p) => p,
        None => config.default_tunnel_port(),
    };
    if let Err(e) = check_port(config, store, ctx, tenant.as_str(), port) {
        return Err(e);
    }
    let host_label = if req.host_label.as_str().is_empty() {
        "mac".to_owned()
    } else {
        text::take_chars(req.host_label.as_str(), 32)
    };
    match store.claim_insert(
        id,
        code.as_str(),
        host_code.as_str(),
        host_label.as_str(),
        port,
        CLAIM_TTL_SECS,
        tenant.as_str(),
        now,
    ) {
        Ok(_) => {
            proof {
                let c = claim_outcome(*config, old(store)@, ctx@, *req, id@, now).0[0];
                change::lemma_replay_one(old(store)@, c);
                assert(store@.claims.drop_last() =~= old(store)@.claims);
            }
            Ok(
                AdminClaimResponse {
                    claim_id: id.to_owned(),
                    device: pending.device,
                    host_code,
                    port,
                    expires_at: now + CLAIM_TTL_SECS,
                },
            )
        },
        Err(e) => Err(error::internal("claim insert: ", e.message.as_str())),
    }
}

/// A claim was handled, with the id `id`, at the time `now`.
pub open spec fn claim_handled(
    pre: AppState,
    post: AppState,
    ctx: (Seq<char>, bool),
    req: AdminClaimRequest,
    res: AppResult<AdminClaimResponse>,
    id: Seq<char>,
    now: i64,
) -> bool {
    let out = claim_outcome(pre.config, pre.db@, ctx, req, id, now);
    &&& crypto::is_uuid(id)
    &&& clock::is_unix_time(now)
    &&& state::kept_but_db(pre, post)
    &&& pre.db.advanced(&post.db, out.0)
    &&& error::viewed(res) == out.1
}

/// Answers the code of a phone on behalf of a Mac.
pub fn admin_claim_handler(state: &mut AppState, ctx: &TenantCtx, req: &AdminClaimRequest) -> (res:
    AppResult<AdminClaimResponse>)
    ensures
        exists|id: Seq<char>, now: i64|
            #[trigger] claim_handled(*old(state), *final(state), ctx@, *req, res, id, now),
{
    let id = crypto::new_uuid();
    let now = clock::utc_now();
    let res = claim_at(&mut state.db, &state.config, ctx, req, id.as_str(), now);
    assert(claim_handled(*old(state), *state, ctx@, *req, res, id@, now));
    res
}

} // verus!
