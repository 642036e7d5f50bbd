//! What requests are answered and what is written down for them, told field by
//! field.
use vstd::prelude::*;
use vstd::utf8::encode_utf8;

use crate::admin;
use crate::auth;
use crate::auth::LoginRequest;
use crate::change;
use crate::change::{ChangeView, DbView};
use crate::clock;
use crate::config::Config;
use crate::consistency;
use crate::crypto;
use crate::db;
use crate::error;
use crate::error::{AppResult, ErrorView};
use crate::http;
use crate::http::{FieldView, Headers};
use crate::jwt;
use crate::limiter;
use crate::pair;
use crate::pair::{AdminClaimRequest, PairConfirmRequest, PairPollRequest, PairStartRequest};
use crate::rows::PairingView;
use crate::split;
use crate::state::AppState;
use crate::table;
use crate::tenant;
use crate::tenant::HostCreateRequest;
use crate::text;

verus! {

// ---- a phone starts -------------------------------------------------------

/// A pairing waits: the phone with this code can still be answered.
pub open spec fn waits(p: PairingView, code: Seq<char>, now: i64) -> bool {
    p.code_d == code && p.status == "pending"@ && p.expires_at >= now
}

/// A start that is taken writes down one pairing, with the code and the secret
/// that the phone has sent, for the tenant that it names in any case, and tells
/// the phone its id and that it waits for ten minutes.
pub proof fn law_start_writes_what_was_asked(
    db: DbView,
    req: PairStartRequest,
    id: Seq<char>,
    now: i64,
)
    requires
        clock::is_unix_time(now),
    ensures
        match pair::start_outcome(db, req, id, now).1 {
            Ok(reply) => {
                let out = pair::start_outcome(db, req, id, now).0;
                let row = out[1]->InsertPairing_0;
                &&& reply == (id, (now + 600) as i64)
                &&& out.len() == 2 && out[0] == (ChangeView::Sweep { now }) && out[1]
                    is InsertPairing
                &&& row.id == id
                &&& row.code_d == split::plain_code(req.code@)
                &&& row.secret == req.secret@
                &&& row.device == req.device@
                &&& row.created_at == now
                &&& row.expires_at == now + 600
                &&& row.status == "pending"@
                &&& row.token_jti.len() == 0
                &&& row.tenant_id == text::ascii_lower(text::trimmed(req.tenant@))
            },
            Err(e) => e is BadRequest || e is Conflict,
        },
{
    pair::law_times();
}

/// A start is taken exactly where its code has ten symbols, its secret 32 to 128
/// letters and digits, the tenant it names is registered and not revoked, and
/// the code and the id are free.
pub proof fn law_start_is_taken_where_it_fits(
    db: DbView,
    req: PairStartRequest,
    id: Seq<char>,
    now: i64,
)
    ensures
        ({
            let tenant = text::ascii_lower(text::trimmed(req.tenant@));
            let code = split::plain_code(req.code@);
            let fits = pair::is_pairing_code(code) && pair::is_secret(req.secret@) && (tenant.len()
                == 0 || (pair::is_tenant_id(tenant) && (match table::first(
                db.tenants,
                db::has_tenant_id(tenant),
            ) {
                Some(t) => !t.0.revoked,
                None => false,
            })));
            match pair::start_outcome(db, req, id, now).1 {
                Ok(_) => fits && !db::pairing_refused(db, id, code, now),
                Err(ErrorView::Conflict(m)) => fits && db::pairing_refused(db, id, code, now) && m
                    == "code already in use; generate a new one"@,
                Err(_) => !fits && pair::start_outcome(db, req, id, now).0.len() == 0,
            }
        }),
{
}

// ---- a phone asks ---------------------------------------------------------

/// What a phone is told: by its id alone it learns nothing without its secret; a
/// pairing whose time is over is expired, one that was confirmed is confirmed,
/// and one that waits is told of its offers.
pub proof fn law_poll_tells_how_the_pairing_stands(db: DbView, req: PairPollRequest, now: i64)
    ensures
        match table::first(db.pairings, db::has_pairing_id(req.pairing_id@)) {
            None => pair::poll_outcome(db, req, now).1 == Err::<
                (Seq<char>, Seq<pair::OfferView>),
                ErrorView,
            >(ErrorView::NotFound("unknown pairing"@)),
            Some(p) => if p.secret != req.secret@ {
                pair::poll_outcome(db, req, now).1 == Err::<
                    (Seq<char>, Seq<pair::OfferView>),
                    ErrorView,
                >(ErrorView::Unauthorized)
            } else {
                match pair::poll_outcome(db, req, now).1 {
                    Ok(told) => if p.status == "expired"@ || p.expires_at < now {
                        told.0 == "expired"@ && told.1.len() == 0
                    } else if p.status == "confirmed"@ {
                        told.0 == "confirmed"@ && told.1.len() == 0
                    } else if told.1.len() == 0 {
                        told.0 == "waiting"@
                    } else {
                        told.0 == "offers"@
                    },
                    Err(_) => false,
                }
            },
        },
        match pair::poll_outcome(db, req, now).1 {
            Ok(told) => pair::poll_outcome(db, req, now).0 == (if told.0 == "waiting"@ || told.0
                == "offers"@ {
                seq![ChangeView::Sweep { now }]
            } else {
                Seq::empty()
            }),
            Err(_) => pair::poll_outcome(db, req, now).0.len() == 0,
        },
{
    reveal_strlit("waiting");
    reveal_strlit("offers");
    reveal_strlit("expired");
    reveal_strlit("confirmed");
    assert("waiting"@[0] == 'w' && "offers"@[0] == 'o' && "expired"@[0] == 'e' && "confirmed"@[0]
        == 'c');
}

/// A pairing that waits is shown every claim on its code that stands, with the
/// host code, the label and the port that the Mac has given; where it is anchored,
/// those of its tenant.
pub proof fn law_standing_offers_are_shown(db: DbView, req: PairPollRequest, now: i64, k: int)
    requires
        table::first(db.pairings, db::has_pairing_id(req.pairing_id@)) is Some,
        ({
            let p = table::first(db.pairings, db::has_pairing_id(req.pairing_id@))->0;
            &&& p.secret == req.secret@
            &&& p.status == "pending"@
            &&& p.expires_at >= now
            &&& 0 <= k < db.claims.len()
            &&& db.claims[k].pairing_code == p.code_d
            &&& db.claims[k].status == "offered"@
            &&& db.claims[k].expires_at >= now
            &&& p.tenant_id.len() == 0 || db.claims[k].tenant_id == p.tenant_id
        }),
    ensures
        match pair::poll_outcome(db, req, now).1 {
            Ok(told) => told.0 == "offers"@ && exists|i: int|
                0 <= i < told.1.len() && {
                    let o = #[trigger] told.1[i];
                    let c = db.claims[k];
                    &&& o.claim_id == c.id
                    &&& o.host_code == c.host_code
                    &&& o.host_label == c.host_label
                    &&& o.upstream_port == c.upstream_port
                    &&& o.expires_at == c.expires_at
                },
            Err(_) => false,
        },
{
    broadcast use vstd::seq_lib::group_filter_ensures;

    consistency::lemma_status_words();
    let p = table::first(db.pairings, db::has_pairing_id(req.pairing_id@))->0;
    let c = db.claims[k];
    let swept = change::apply(db, ChangeView::Sweep { now });
    assert(swept.claims[k] == c);
    let standing = swept.claims.filter(db::is_offered_for(p.code_d));
    assert(db::is_offered_for(p.code_d)(c));
    assert(swept.claims.contains(c));
    assert(standing.contains(c));
    let m = standing.index_of(c);
    table::lemma_ranked_has_all(standing, db::oldest_claim(), m);
    let listed = db::offers_for(swept, p.code_d);
    assert(listed.contains(c));
    assert(pair::visible_to(p.tenant_id)(c));
    let shown = listed.filter(pair::visible_to(p.tenant_id));
    assert(shown.contains(c));
    let i = shown.index_of(c);
    let told = pair::poll_outcome(db, req, now).1->Ok_0;
    assert(told.1[i] == pair::offer_of()(c));
}

/// Offers are shown oldest first.
pub proof fn law_offers_are_listed_oldest_first(db: DbView, code: Seq<char>, i: int, j: int)
    requires
        0 <= i < j < db::offers_for(db, code).len(),
    ensures
        db::offers_for(db, code)[i].created_at <= db::offers_for(db, code)[j].created_at,
{
    let standing = db.claims.filter(db::is_offered_for(code));
    table::law_ranking_goes_by_key(standing, db::oldest_claim(), i, j);
}

// ---- a phone confirms -----------------------------------------------------

/// A confirmation that succeeds takes the claim, ends the pairing and writes down
/// one token: for the device that has started, bound to the tunnel of the claim,
/// under its label and for its tenant. The answer names the same machine, by its
/// label and by its port in decimal.
pub proof fn law_confirmation_writes_the_token(
    config: Config,
    db: DbView,
    req: PairConfirmRequest,
    jti: Seq<char>,
    now: i64,
)
    requires
        pair::confirm_outcome(config, db, req, jti, now).1 is Ok,
    ensures
        ({
            let p = table::first(db.pairings, db::has_pairing_id(req.pairing_id@))->0;
            let c = table::first(db.claims, db::has_claim_id(req.claim_id@))->0;
            let out = pair::confirm_outcome(config, db, req, jti, now).0;
            let reply = pair::confirm_outcome(config, db, req, jti, now).1->Ok_0;
            let row = out[3]->InsertToken_0;
            &&& out.len() == 4
            &&& out[0] == (ChangeView::ConsumeClaim { id: req.claim_id@ })
            &&& out[1] == (ChangeView::SetPairingStatus {
                id: req.pairing_id@,
                status: "confirmed"@,
            })
            &&& out[2] == (ChangeView::SetPairingToken { id: req.pairing_id@, jti })
            &&& out[3] is InsertToken
            &&& row.jti == jti
            &&& row.device == p.device
            &&& row.created_at == now
            &&& row.last_used_at is None
            &&& !row.revoked
            &&& row.upstream_port == Some(c.upstream_port)
            &&& row.host_label == c.host_label
            &&& row.tenant_id == c.tenant_id
            &&& reply.host_label == c.host_label
            &&& reply.host_ref == text::decimal(c.upstream_port as nat)
            &&& reply.expires_at == now + config.token_ttl_days * 86400
            &&& reply.token == jwt::jwt_token(
                seq![
                    ("sub"@, jwt::JwtView::Text("dsh-client"@)),
                    ("jti"@, jwt::JwtView::Text(jti)),
                    ("device"@, jwt::JwtView::Text(p.device)),
                    ("iat"@, jwt::JwtView::Number(now)),
                    ("exp"@, jwt::JwtView::Number(reply.expires_at)),
                ],
                config.jwt_secret@,
            )
        }),
{
}

/// Everything that a confirmation needs is enough.
pub proof fn law_confirmation_succeeds_where_it_fits(
    config: Config,
    db: DbView,
    req: PairConfirmRequest,
    jti: Seq<char>,
    now: i64,
)
    requires
        ({
            let p = table::first(db.pairings, db::has_pairing_id(req.pairing_id@));
            let c = table::first(db.claims, db::has_claim_id(req.claim_id@));
            &&& p is Some && c is Some
            &&& p->0.secret == req.secret@
            &&& p->0.status == "pending"@ && p->0.expires_at >= now
            &&& c->0.status == "offered"@ && c->0.expires_at >= now
            &&& c->0.pairing_code == p->0.code_d
            &&& c->0.host_code == split::plain_code(req.host_code@)
            &&& p->0.tenant_id.len() == 0 || c->0.tenant_id == p->0.tenant_id
        }),
        -8_334_601_228_800 <= now + config.token_ttl_days * 86400 <= 8_210_266_876_799,
        forall|i: int| 0 <= i < db.tokens.len() ==> (#[trigger] db.tokens[i]).jti != jti,
    ensures
        pair::confirm_outcome(config, db, req, jti, now).1 is Ok,
{
    table::lemma_first_holds(db.tokens, db::has_jti(jti));
}

// ---- a Mac answers --------------------------------------------------------

/// A claim that is accepted offers the Mac as it was described: under its host
/// code and label, with the port that was named. Where none was named, it is the
/// one behind the last colon of the default upstream's address; the lowest allowed
/// one only where none can be read there. The answer and the row agree, and the
/// offer stands for five minutes.
pub proof fn law_claim_offers_the_tunnel(
    config: Config,
    db: DbView,
    ctx: (Seq<char>, bool),
    req: AdminClaimRequest,
    id: Seq<char>,
    now: i64,
)
    requires
        clock::is_unix_time(now),
        pair::claim_outcome(config, db, ctx, req, id, now).1 is Ok,
    ensures
        ({
            let out = pair::claim_outcome(config, db, ctx, req, id, now).0;
            let reply = pair::claim_outcome(config, db, ctx, req, id, now).1->Ok_0;
            let row = out[0]->InsertClaim_0;
            &&& out.len() == 1 && out[0] is InsertClaim
            &&& row.id == id && reply.claim_id == id
            &&& row.pairing_code == split::plain_code(req.code@)
            &&& row.host_code == split::plain_code(req.host_code@)
            &&& reply.host_code == row.host_code
            &&& row.host_label == (if req.host_label@.len() == 0 {
                "mac"@
            } else if req.host_label@.len() <= 32 {
                req.host_label@
            } else {
                req.host_label@.take(32)
            })
            &&& reply.port == row.upstream_port
            &&& match req.port {
                Some(p) => row.upstream_port == p,
                None => match text::parsed_u16(text::after_last(config.upstream_addr@, ':')) {
                    Some(p) => row.upstream_port == p,
                    None => row.upstream_port == config.tunnel_port_min,
                },
            }
            &&& row.status == "offered"@
            &&& row.created_at == now
            &&& row.expires_at == now + 300 && reply.expires_at == now + 300
        }),
{
    pair::law_times();
}

/// The port of an address `host:port` is the one that a claim without a port
/// binds.
pub proof fn law_claim_without_port_binds_the_default_tunnel(
    config: Config,
    db: DbView,
    ctx: (Seq<char>, bool),
    req: AdminClaimRequest,
    id: Seq<char>,
    now: i64,
    host: Seq<char>,
    port: u16,
)
    requires
        pair::claim_outcome(config, db, ctx, req, id, now).1 is Ok,
        clock::is_unix_time(now),
        req.port is None,
        config.upstream_addr@ == host + seq![':'] + text::decimal(port as nat),
    ensures
        pair::claim_outcome(config, db, ctx, req, id, now).0[0]->InsertClaim_0.upstream_port
            == port,
        pair::claim_outcome(config, db, ctx, req, id, now).1->Ok_0.port == port,
{
    let digits = text::decimal(port as nat);
    text::lemma_decimal_reads_back(port as nat);
    assert forall|i: int| 0 <= i < digits.len() implies digits[i] != ':' by {
        assert(text::is_digit(digits[i]));
    }
    text::law_tail_follows_the_last(host, digits, ':');
    text::law_port_text_reads_back(port);
    law_claim_offers_the_tunnel(config, db, ctx, req, id, now);
}

/// Who may claim what: the phone waits, and for a tenant it waits for that tenant
/// or for any; the claim is made for the tenant itself, by the operator for the
/// tenant that the phone waits for. The port is registered to that tenant and
/// enabled, or it is not registered, allowed by the configuration, and claimed by
/// the operator or for the operator's tenant.
pub proof fn law_claim_keeps_to_its_tenant(
    config: Config,
    db: DbView,
    ctx: (Seq<char>, bool),
    req: AdminClaimRequest,
    id: Seq<char>,
    now: i64,
)
    requires
        pair::claim_outcome(config, db, ctx, req, id, now).1 is Ok,
    ensures
        ({
            let reply = pair::claim_outcome(config, db, ctx, req, id, now).1->Ok_0;
            let row = pair::claim_outcome(config, db, ctx, req, id, now).0[0]->InsertClaim_0;
            let code = split::plain_code(req.code@);
            &&& exists|k: int|
                0 <= k < db.pairings.len() && {
                    let p = #[trigger] db.pairings[k];
                    &&& waits(p, code, now)
                    &&& reply.device == p.device
                    &&& !ctx.1 ==> row.tenant_id == ctx.0 && (p.tenant_id.len() == 0 || p.tenant_id
                        == ctx.0)
                    &&& ctx.1 ==> row.tenant_id == (if p.tenant_id.len() == 0 {
                        "default"@
                    } else {
                        p.tenant_id
                    })
                }
            &&& (exists|k: int|
                0 <= k < db.hosts.len() && (#[trigger] db.hosts[k]).port == row.upstream_port
                    && db.hosts[k].enabled && db.hosts[k].tenant_id == row.tenant_id) || ((forall|
                k: int,
            |
                0 <= k < db.hosts.len() ==> (#[trigger] db.hosts[k]).port != row.upstream_port)
                && config.tunnel_port_min <= row.upstream_port <= config.tunnel_port_max && (ctx.1
                || row.tenant_id == "default"@))
        }),
{
    let code = split::plain_code(req.code@);
    let row = pair::claim_outcome(config, db, ctx, req, id, now).0[0]->InsertClaim_0;
    table::lemma_first_holds(db.pairings, db::is_waiting_with(code, now));
    let p = table::first(db.pairings, db::is_waiting_with(code, now))->0;
    let k = db.pairings.index_of(p);
    assert(waits(db.pairings[k], code, now));
    table::lemma_first_holds(db.hosts, db::has_port(row.upstream_port));
    if let Some(h) = table::first(db.hosts, db::has_port(row.upstream_port)) {
        let j = db.hosts.index_of(h);
        assert(db.hosts[j].port == row.upstream_port);
    } else {
        assert forall|k: int| 0 <= k < db.hosts.len() implies (#[trigger] db.hosts[k]).port
            != row.upstream_port by {
            assert(!db::has_port(row.upstream_port)(db.hosts[k]));
        }
    }
}

/// A claim on a phone that waits succeeds where the codes have their form, the
/// phone may be seen, the port may be claimed and the id is new.
pub proof fn law_claim_succeeds_where_it_fits(
    config: Config,
    db: DbView,
    ctx: (Seq<char>, bool),
    req: AdminClaimRequest,
    id: Seq<char>,
    now: i64,
    k: int,
    h: int,
    port: u16,
)
    requires
        consistency::consistent(db),
        pair::is_pairing_code(split::plain_code(req.code@)),
        pair::is_host_code(split::plain_code(req.host_code@)),
        0 <= k < db.pairings.len(),
        waits(db.pairings[k], split::plain_code(req.code@), now),
        ctx.1 || db.pairings[k].tenant_id.len() == 0 || db.pairings[k].tenant_id == ctx.0,
        req.port == Some(port),
        ({
            let tenant = if !ctx.1 {
                ctx.0
            } else if db.pairings[k].tenant_id.len() == 0 {
                "default"@
            } else {
                db.pairings[k].tenant_id
            };
            ||| 0 <= h < db.hosts.len() && db.hosts[h].port == port && db.hosts[h].enabled
                && db.hosts[h].tenant_id == tenant
            ||| (forall|j: int| 0 <= j < db.hosts.len() ==> (#[trigger] db.hosts[j]).port != port)
                && config.tunnel_port_min <= port <= config.tunnel_port_max && (ctx.1 || tenant
                == "default"@)
        }),
        forall|j: int| 0 <= j < db.claims.len() ==> (#[trigger] db.claims[j]).id != id,
    ensures
        pair::claim_outcome(config, db, ctx, req, id, now).1 is Ok,
{
    let code = split::plain_code(req.code@);
    let waiting = table::first(db.pairings, db::is_waiting_with(code, now));
    table::lemma_first_holds(db.pairings, db::is_waiting_with(code, now));
    assert(db::is_waiting_with(code, now)(db.pairings[k]));
    let m = db.pairings.index_of(waiting->0);
    assert(db.pairings[m] == waiting->0);
    assert(m == k);
    table::lemma_first_holds(db.hosts, db::has_port(port));
    if let Some(host) = table::first(db.hosts, db::has_port(port)) {
        let j = db.hosts.index_of(host);
        assert(db.hosts[j].port == port);
        assert(j == h);
    } else if 0 <= h < db.hosts.len() && db.hosts[h].port == port {
        assert(!db::has_port(port)(db.hosts[h]));
    }
    table::lemma_first_holds(db.claims, db::has_claim_id(id));
    if let Some(c) = table::first(db.claims, db::has_claim_id(id)) {
        let j = db.claims.index_of(c);
        assert(db.claims[j].id != id);
    }
}

// ---- tokens ---------------------------------------------------------------

/// A login that succeeds writes down one token, bound to no tunnel and for the
/// operator's tenant, under the name of the device, of which 64 characters count;
/// the token that is handed out says the same and lasts as many days as configured.
pub proof fn law_login_writes_the_token(
    config: Config,
    db: DbView,
    req: LoginRequest,
    jti: Seq<char>,
    now: i64,
)
    requires
        auth::login_outcome(config, db, req, jti, now).1 is Ok,
    ensures
        ({
            let out = auth::login_outcome(config, db, req, jti, now).0;
            let (token, expires_at) = auth::login_outcome(config, db, req, jti, now).1->Ok_0;
            let row = out[0]->InsertToken_0;
            let device = if req.device@.len() <= 64 {
                req.device@
            } else {
                req.device@.take(64)
            };
            &&& out.len() == 1 && out[0] is InsertToken
            &&& row.jti == jti
            &&& row.device == device
            &&& row.created_at == now
            &&& row.last_used_at is None
            &&& !row.revoked
            &&& row.upstream_port is None
            &&& row.host_label.len() == 0
            &&& row.tenant_id == "default"@
            &&& expires_at == now + config.token_ttl_days * 86400
            &&& token == jwt::jwt_token(
                seq![
                    ("sub"@, jwt::JwtView::Text("dsh-client"@)),
                    ("jti"@, jwt::JwtView::Text(jti)),
                    ("device"@, jwt::JwtView::Text(device)),
                    ("iat"@, jwt::JwtView::Number(now)),
                    ("exp"@, jwt::JwtView::Number(expires_at)),
                ],
                config.jwt_secret@,
            )
        }),
{
    reveal_strlit("");
}

/// A login succeeds exactly with the password whose hash is configured, where the
/// calendar holds the end of the token and its id is new; a wrong password is
/// answered 401 and writes nothing.
pub proof fn law_login_asks_for_the_password(
    config: Config,
    db: DbView,
    req: LoginRequest,
    jti: Seq<char>,
    now: i64,
)
    ensures
        ({
            let right = crypto::phc_well_formed(config.password_hash@) && crypto::accepted(
                encode_utf8(req.password@),
                config.password_hash@,
            );
            let in_time = -8_334_601_228_800 <= now + config.token_ttl_days * 86400
                <= 8_210_266_876_799;
            let fresh = forall|i: int|
                0 <= i < db.tokens.len() ==> (#[trigger] db.tokens[i]).jti != jti;
            let out = auth::login_outcome(config, db, req, jti, now);
            &&& out.1 is Ok <==> right && in_time && fresh
            &&& out.1 is Err ==> out.0.len() == 0
            &&& crypto::phc_well_formed(config.password_hash@) && !right ==> out.1 == Err::<
                (Seq<char>, i64),
                ErrorView,
            >(ErrorView::Unauthorized)
            &&& out.1 is Err && (right || !crypto::phc_well_formed(config.password_hash@))
                ==> out.1->Err_0 is Internal
        }),
{
    table::lemma_first_holds(db.tokens, db::has_jti(jti));
    if let Some(t) = table::first(db.tokens, db::has_jti(jti)) {
        let k = db.tokens.index_of(t);
        assert(db.tokens[k].jti == jti);
    } else {
        assert forall|i: int| 0 <= i < db.tokens.len() implies (#[trigger] db.tokens[i]).jti
            != jti by {
            assert(!db::has_jti(jti)(db.tokens[i]));
        }
    }
}

/// A request passes with a token that the secret vouches for and that has not
/// expired, where the first row with its id is not revoked. It is then noted when
/// the token was used, and the request goes where the row says, under the id and
/// the device name of the token.
pub proof fn law_requests_pass_with_their_token(
    db: DbView,
    secret: Seq<char>,
    fields: Seq<FieldView>,
    now: i64,
    token: Seq<char>,
    claims: Seq<(Seq<char>, jwt::JwtView)>,
    c: auth::ClaimsView,
    k: int,
)
    requires
        http::field_text(fields, "authorization"@) == Some("Bearer "@ + token),
        jwt::jwt_claims(token, secret) == Some(claims),
        auth::read_claims(claims) == Some(c),
        0 <= k < db.tokens.len(),
        db.tokens[k].jti == c.jti,
        forall|i: int| 0 <= i < k ==> (#[trigger] db.tokens[i]).jti != c.jti,
    ensures
        ({
            let out = auth::auth_outcome(db, secret, fields, now);
            if now <= c.exp + 60 && !db.tokens[k].revoked {
                &&& out.0 == seq![ChangeView::TouchToken { jti: c.jti, at: now }]
                &&& match out.1 {
                    Ok(d) => d.jti == c.jti && d.device == c.device && d.upstream_port
                        == db.tokens[k].upstream_port && d.tenant_id == db.tokens[k].tenant_id,
                    Err(_) => false,
                }
            } else {
                out.0.len() == 0 && out.1 == Err::<auth::DeviceView, ErrorView>(
                    ErrorView::Unauthorized,
                )
            }
        }),
{
    jwt::law_bearer_token(fields, token);
    db::law_tokens_go_by_their_row(db, c.jti, k);
}

/// A request without a token that the secret vouches for is answered 401 and
/// nothing is written.
pub proof fn law_requests_need_a_token(
    db: DbView,
    secret: Seq<char>,
    fields: Seq<FieldView>,
    now: i64,
)
    requires
        match jwt::bearer(fields) {
            Some(token) => match jwt::jwt_claims(token, secret) {
                Some(c) => auth::read_claims(c) is None,
                None => true,
            },
            None => true,
        },
    ensures
        auth::auth_outcome(db, secret, fields, now).0.len() == 0,
        auth::auth_outcome(db, secret, fields, now).1 == Err::<auth::DeviceView, ErrorView>(
            ErrorView::Unauthorized,
        ),
{
}

// ---- what the operator and tenants ask ------------------------------------

/// Revoking is told by whether a token was there that was not revoked yet: any for
/// the operator, one of its own for a tenant.
pub proof fn law_revocation_answers(db: DbView, ctx: (Seq<char>, bool), jti: Seq<char>)
    ensures
        ({
            let out = admin::admin_revoke_outcome(db, ctx, jti);
            &&& out.1 <==> exists|i: int|
                0 <= i < db.tokens.len() && (#[trigger] db.tokens[i]).jti == jti
                    && !db.tokens[i].revoked && (ctx.1 || db.tokens[i].tenant_id == ctx.0)
            &&& ctx.1 ==> out.0 == seq![ChangeView::RevokeToken { jti }]
            &&& !ctx.1 ==> out.0 == seq![
                ChangeView::RevokeTokenInTenant { jti, tenant_id: ctx.0 },
            ]
        }),
{
    let p = if ctx.1 {
        db::has_live_jti(jti)
    } else {
        db::has_live_jti_of(jti, ctx.0)
    };
    table::lemma_first_holds(db.tokens, p);
    if let Some(t) = table::first(db.tokens, p) {
        let k = db.tokens.index_of(t);
        assert(db.tokens[k].jti == jti);
    } else if exists|i: int|
        0 <= i < db.tokens.len() && (#[trigger] db.tokens[i]).jti == jti && !db.tokens[i].revoked
            && (ctx.1 || db.tokens[i].tenant_id == ctx.0) {
        let i = choose|i: int|
            0 <= i < db.tokens.len() && (#[trigger] db.tokens[i]).jti == jti
                && !db.tokens[i].revoked && (ctx.1 || db.tokens[i].tenant_id == ctx.0);
        assert(!p(db.tokens[i]));
    }
}

/// A Mac that asks how a pairing stands is told of the one that was started last
/// with the code: its status, its device, and the token that it has led to, with
/// its port in decimal. A tenant is told of no pairing that waits for another and
/// of no token of another.
pub proof fn law_status_answers(
    db: DbView,
    ctx: (Seq<char>, bool),
    code: Seq<char>,
)
    ensures
        admin::status_outcome(db, ctx, None) == Err::<admin::StatusView, ErrorView>(
            ErrorView::BadRequest("code required"@),
        ),
        match db::pairing_and_token(db, split::plain_code(code)) {
            None => admin::status_outcome(db, ctx, Some(code)) == Err::<
                admin::StatusView,
                ErrorView,
            >(ErrorView::NotFound("no pairing with this code"@)),
            Some((p, t)) => if !ctx.1 && p.tenant_id.len() > 0 && p.tenant_id != ctx.0 {
                admin::status_outcome(db, ctx, Some(code)) == Err::<admin::StatusView, ErrorView>(
                    ErrorView::NotFound("no pairing with this code"@),
                )
            } else {
                match admin::status_outcome(db, ctx, Some(code)) {
                    Ok(s) => {
                        &&& s.status == p.status
                        &&& s.device == p.device
                        &&& s.confirmed == (p.status == "confirmed"@)
                        &&& match t {
                            Some(row) => if ctx.1 || row.tenant_id == ctx.0 {
                                s.token == Some(
                                    (
                                        row,
                                        match row.upstream_port {
                                            Some(port) => Some(text::decimal(port as nat)),
                                            None => None,
                                        },
                                    ),
                                )
                            } else {
                                s.token is None
                            },
                            None => s.token is None,
                        }
                    },
                    Err(_) => false,
                }
            },
        },
{
}

/// The token that a pairing has led to is the one whose id it was given; a pairing
/// without one has led to none.
pub proof fn law_pairing_leads_to_its_token(db: DbView, code: Seq<char>)
    ensures
        match db::latest_pairing(db, code) {
            None => db::pairing_and_token(db, code) is None,
            Some(p) => match db::pairing_and_token(db, code) {
                None => false,
                Some((q, t)) => q == p && match t {
                    Some(row) => p.token_jti.len() > 0 && row.jti == p.token_jti
                        && db.tokens.contains(row),
                    None => p.token_jti.len() == 0 || forall|i: int|
                        0 <= i < db.tokens.len() ==> (#[trigger] db.tokens[i]).jti != p.token_jti,
                },
            },
        },
{
    if let Some(p) = db::latest_pairing(db, code) {
        let listed = db::tokens_listed(db);
        let wanted = db::has_jti(p.token_jti);
        table::lemma_first_holds(listed, wanted);
        if p.token_jti.len() > 0 {
            if let Some(row) = table::first(listed, wanted) {
                let k = listed.index_of(row);
                table::lemma_ranked_from(db.tokens, db::newest(), k);
            } else {
                assert forall|i: int| 0 <= i < db.tokens.len() implies (
                #[trigger] db.tokens[i]).jti != p.token_jti by {
                    table::lemma_ranked_has_all(db.tokens, db::newest(), i);
                    let k = listed.index_of(db.tokens[i]);
                    assert(!wanted(listed[k]));
                }
            }
        }
    }
}

/// Each token is listed with its row, whether it holds a WebSocket, and its port
/// in decimal: every one for the operator, its own for a tenant.
pub proof fn law_token_list_answers(
    db: DbView,
    ctx: (Seq<char>, bool),
    online: Set<Seq<char>>,
    i: int,
)
    requires
        0 <= i < admin::tokens_shown(db, ctx, online).len(),
    ensures
        ({
            let listed = if ctx.1 {
                db::tokens_listed(db)
            } else {
                db::tokens_of_tenant(db, ctx.0)
            };
            let s = admin::tokens_shown(db, ctx, online)[i];
            &&& admin::tokens_shown(db, ctx, online).len() == listed.len()
            &&& s.row == listed[i]
            &&& s.connected == online.contains(s.row.jti)
            &&& s.host_ref == (match s.row.upstream_port {
                Some(p) => Some(text::decimal(p as nat)),
                None => None,
            })
        }),
{
}

/// Who a request on the public listener acts for: the first tenant whose key has
/// the digest of the one that it carries and which is not revoked.
pub proof fn law_tenant_is_found_by_its_key(
    db: DbView,
    fields: Seq<FieldView>,
    key: Seq<char>,
    k: int,
)
    requires
        jwt::bearer(fields) == Some(key),
        0 <= k < db.tenants.len(),
        db.tenants[k].1 == text::hex_text(crypto::sha256_of(encode_utf8(key))),
        !db.tenants[k].0.revoked,
        forall|i: int|
            0 <= i < k ==> (#[trigger] db.tenants[i]).1 != text::hex_text(
                crypto::sha256_of(encode_utf8(key)),
            ) || db.tenants[i].0.revoked,
    ensures
        tenant::tenant_outcome(db, fields) == Ok::<(Seq<char>, bool), (u16, Seq<char>)>(
            (db.tenants[k].0.id, false),
        ),
{
    let digest = text::hex_text(crypto::sha256_of(encode_utf8(key)));
    assert forall|i: int| 0 <= i < k implies !db::has_live_key(digest)(
        #[trigger] db.tenants[i],
    ) by {}
    table::lemma_first(db.tenants, db::has_live_key(digest), k);
}

/// A key whose digest no tenant has that is not revoked opens nothing.
pub proof fn law_unknown_key_is_refused(db: DbView, fields: Seq<FieldView>)
    requires
        match jwt::bearer(fields) {
            Some(key) => forall|i: int|
                0 <= i < db.tenants.len() ==> (#[trigger] db.tenants[i]).1 != text::hex_text(
                    crypto::sha256_of(encode_utf8(key)),
                ) || db.tenants[i].0.revoked,
            None => true,
        },
    ensures
        tenant::tenant_outcome(db, fields) == Err::<(Seq<char>, bool), (u16, Seq<char>)>(
            (401u16, "tenant key required"@),
        ),
{
    if let Some(key) = jwt::bearer(fields) {
        let digest = text::hex_text(crypto::sha256_of(encode_utf8(key)));
        table::lemma_first_holds(db.tenants, db::has_live_key(digest));
        if let Some(t) = table::first(db.tenants, db::has_live_key(digest)) {
            let i = db.tenants.index_of(t);
            assert(db.tenants[i].1 != digest || db.tenants[i].0.revoked);
        }
    }
}

/// On the admin listener a request acts for the operator: every one where no admin
/// token is configured, else the one that carries it.
pub proof fn law_operator_is_known_by_the_admin_token(config: Config, fields: Seq<FieldView>)
    ensures
        match tenant::admin_outcome(config, fields) {
            Ok(ctx) => ctx == ("default"@, true) && (config.admin_token@.len() == 0
                || http::field_text(fields, "authorization"@) == Some(
                "Bearer "@ + config.admin_token@,
            )),
            Err(r) => r == (401u16, "admin token required"@) && config.admin_token@.len() > 0
                && http::field_text(fields, "authorization"@) != Some(
                "Bearer "@ + config.admin_token@,
            ),
        },
{
    jwt::law_bearer_token(fields, config.admin_token@);
}

/// A tenant is written down with the digest of its key, never the key itself, and
/// with 64 characters of its name; the answer holds the key and the name as given.
pub proof fn law_tenant_is_written_down(
    db: DbView,
    name: Seq<char>,
    id: Seq<char>,
    key: Seq<char>,
    now: i64,
)
    ensures
        match tenant::create_tenant_outcome(db, name, id, key, now).1 {
            Ok(reply) => {
                let out = tenant::create_tenant_outcome(db, name, id, key, now).0;
                &&& reply == (id, name, key)
                &&& out.len() == 1 && out[0] is InsertTenant
                &&& out[0]->InsertTenant_row.id == id
                &&& out[0]->InsertTenant_row.name == (if name.len() <= 64 {
                    name
                } else {
                    name.take(64)
                })
                &&& out[0]->InsertTenant_row.created_at == now
                &&& !out[0]->InsertTenant_row.revoked
                &&& out[0]->admin_key_hash == text::hex_text(crypto::sha256_of(encode_utf8(key)))
                &&& forall|i: int|
                    0 <= i < db.tenants.len() ==> (#[trigger] db.tenants[i]).0.id != id
            },
            Err(e) => e is Internal && tenant::create_tenant_outcome(db, name, id, key, now).0.len()
                == 0 && exists|i: int|
                0 <= i < db.tenants.len() && (#[trigger] db.tenants[i]).0.id == id,
        },
{
    table::lemma_first_holds(db.tenants, db::has_tenant_id(id));
    if let Some(t) = table::first(db.tenants, db::has_tenant_id(id)) {
        let i = db.tenants.index_of(t);
        assert(db.tenants[i].0.id == id);
    } else {
        assert forall|i: int| 0 <= i < db.tenants.len() implies (#[trigger] db.tenants[i]).0.id
            != id by {
            assert(!db::has_tenant_id(id)(db.tenants[i]));
        }
    }
}

/// Revoking a tenant is told by whether there is one, and the operator's tenant
/// cannot be revoked.
pub proof fn law_tenant_revocation_answers(db: DbView, id: Seq<char>)
    ensures
        ({
            let out = tenant::revoke_tenant_outcome(db, id);
            if id == "default"@ {
                out.0.len() == 0 && out.1 is Err && out.1->Err_0 is BadRequest
            } else {
                &&& out.0 == seq![ChangeView::SetTenantRevoked { id, revoked: true }]
                &&& out.1 is Ok
                &&& out.1->Ok_0 <==> exists|i: int|
                    0 <= i < db.tenants.len() && (#[trigger] db.tenants[i]).0.id == id
            }
        }),
{
    table::lemma_first_holds(db.tenants, db::has_tenant_id(id));
    if let Some(t) = table::first(db.tenants, db::has_tenant_id(id)) {
        let i = db.tenants.index_of(t);
        assert(db.tenants[i].0.id == id);
    } else if exists|i: int| 0 <= i < db.tenants.len() && (#[trigger] db.tenants[i]).0.id == id {
        let i = choose|i: int| 0 <= i < db.tenants.len() && (#[trigger] db.tenants[i]).0.id == id;
        assert(!db::has_tenant_id(id)(db.tenants[i]));
    }
}

/// A host is registered for a tenant that there is, under a port that is allowed
/// and free, and then its port is that tenant's.
pub proof fn law_host_is_written_down(
    config: Config,
    db: DbView,
    req: HostCreateRequest,
    id: Seq<char>,
    now: i64,
)
    ensures
        ({
            let out = tenant::create_host_outcome(config, db, req, id, now);
            let known = req.tenant_id@ == "default"@ || exists|i: int|
                0 <= i < db.tenants.len() && (#[trigger] db.tenants[i]).0.id == req.tenant_id@;
            let allowed = config.tunnel_port_min <= req.port <= config.tunnel_port_max;
            let free = forall|i: int|
                0 <= i < db.hosts.len() ==> (#[trigger] db.hosts[i]).port != req.port
                    && db.hosts[i].id != id;
            &&& out.1 is Ok <==> known && allowed && free
            &&& out.1 is Ok ==> {
                let row = out.0[0]->InsertHost_0;
                &&& out.1->Ok_0 == (id, req.port, req.tenant_id@)
                &&& out.0.len() == 1 && out.0[0] is InsertHost
                &&& row.id == id && row.port == req.port && row.tenant_id == req.tenant_id@
                &&& row.label == (if req.label@.len() <= 64 {
                    req.label@
                } else {
                    req.label@.take(64)
                })
                &&& row.created_at == now && row.enabled
            }
            &&& out.1 is Err ==> out.0.len() == 0
            &&& !known || !allowed ==> out.1->Err_0 is BadRequest
        }),
{
    table::lemma_first_holds(db.tenants, db::has_tenant_id(req.tenant_id@));
    table::lemma_first_holds(db.hosts, db::has_host_id(id));
    table::lemma_first_holds(db.hosts, db::has_port(req.port));
    let t = table::first(db.tenants, db::has_tenant_id(req.tenant_id@));
    let a = table::first(db.hosts, db::has_host_id(id));
    let b = table::first(db.hosts, db::has_port(req.port));
    if t is Some {
        let i = db.tenants.index_of(t->0);
        assert(db.tenants[i].0.id == req.tenant_id@);
    } else if exists|i: int|
        0 <= i < db.tenants.len() && (#[trigger] db.tenants[i]).0.id == req.tenant_id@ {
        let i = choose|i: int|
            0 <= i < db.tenants.len() && (#[trigger] db.tenants[i]).0.id == req.tenant_id@;
        assert(!db::has_tenant_id(req.tenant_id@)(db.tenants[i]));
    }
    if a is Some {
        let i = db.hosts.index_of(a->0);
        assert(db.hosts[i].id == id);
    }
    if b is Some {
        let i = db.hosts.index_of(b->0);
        assert(db.hosts[i].port == req.port);
    }
    if a is None && b is None {
        assert forall|i: int| 0 <= i < db.hosts.len() implies (#[trigger] db.hosts[i]).port
            != req.port && db.hosts[i].id != id by {
            assert(!db::has_host_id(id)(db.hosts[i]));
            assert(!db::has_port(req.port)(db.hosts[i]));
        }
    }
}

/// The ids of tenants and hosts: a letter, a hyphen and the first eight characters
/// of a random id.
pub proof fn law_short_ids(prefix: Seq<char>, uuid: Seq<char>)
    requires
        crypto::is_uuid(uuid),
    ensures
        tenant::short_id(prefix, uuid) == prefix + uuid.take(8),
        tenant::short_id(prefix, uuid).len() == prefix.len() + 8,
{
}

/// What is said of a port that is not allowed names the two ends of the range.
pub proof fn law_port_range_is_named(config: Config)
    ensures
        tenant::port_range_text(config) == "tunnel port must be "@ + text::decimal(
            config.tunnel_port_min as nat,
        ) + seq!['-'] + text::decimal(config.tunnel_port_max as nat),
        forall|port: u16|
            #[trigger] tenant::port_allowed(config, port) <==> config.tunnel_port_min <= port
                && port <= config.tunnel_port_max,
{
    reveal_strlit("-");
    assert("-"@ =~= seq!['-']);
}

// ---- limits and what stays ------------------------------------------------

/// Password logins are counted per address. One that comes too often is answered
/// 409 and nothing is written; else the answer is that of the login. Nothing but
/// the register and this count changes.
pub proof fn law_logins_are_limited(
    pre: AppState,
    post: AppState,
    headers: Headers,
    req: LoginRequest,
    res: AppResult<auth::LoginResponse>,
    tick: u128,
    jti: Seq<char>,
    now: i64,
)
    requires
        auth::login_handled(pre, post, headers, req, res, tick, jti, now),
    ensures
        ({
            let key = auth::source_ip(headers);
            let l = pre.login_limiter;
            let passes = limiter::recent(l.attempts(key), tick, l.window()).len() < l.max();
            let out = auth::login_outcome(pre.config, pre.db@, req, jti, now);
            &&& passes ==> error::viewed(res) == out.1 && post.db@ == change::replay(
                pre.db@,
                out.0,
            ) && post.login_limiter.attempts(key).last() == tick
            &&& !passes ==> post.db == pre.db && res is Err && res->Err_0@ == ErrorView::Conflict(
                "too many attempts, retry later"@,
            )
            &&& forall|other: Seq<char>|
                other != key ==> #[trigger] post.login_limiter.attempts(other) == l.attempts(other)
            &&& post.config == pre.config && post.pair_limiter == pre.pair_limiter
                && post.admin_limiter == pre.admin_limiter && post.ws_sessions == pre.ws_sessions
            &&& crypto::is_uuid(jti)
        }),
{
}

/// Starting and confirming pairings is counted per address, together and apart from
/// logins. What comes too often is answered 409 and nothing is written.
pub proof fn law_starts_are_limited(
    pre: AppState,
    post: AppState,
    headers: Headers,
    req: PairStartRequest,
    res: AppResult<pair::PairStartResponse>,
    tick: u128,
    id: Seq<char>,
    now: i64,
)
    requires
        pair::start_handled(pre, post, headers, req, res, tick, id, now),
    ensures
        ({
            let key = auth::source_ip(headers);
            let l = pre.pair_limiter;
            let passes = limiter::recent(l.attempts(key), tick, l.window()).len() < l.max();
            let out = pair::start_outcome(pre.db@, req, id, now);
            &&& passes ==> error::viewed(res) == out.1 && post.db@ == change::replay(
                pre.db@,
                out.0,
            ) && post.pair_limiter.attempts(key).last() == tick
            &&& !passes ==> post.db == pre.db && res is Err && res->Err_0@ == ErrorView::Conflict(
                "too many pairing attempts, retry later"@,
            )
            &&& forall|other: Seq<char>|
                other != key ==> #[trigger] post.pair_limiter.attempts(other) == l.attempts(other)
            &&& post.config == pre.config && post.login_limiter == pre.login_limiter
                && post.admin_limiter == pre.admin_limiter && post.ws_sessions == pre.ws_sessions
            &&& crypto::is_uuid(id)
        }),
{
}

/// See `law_starts_are_limited`, for confirmations.
pub proof fn law_confirmations_are_limited(
    pre: AppState,
    post: AppState,
    headers: Headers,
    req: PairConfirmRequest,
    res: AppResult<pair::PairConfirmResponse>,
    tick: u128,
    jti: Seq<char>,
    now: i64,
)
    requires
        pair::confirm_handled(pre, post, headers, req, res, tick, jti, now),
    ensures
        ({
            let key = auth::source_ip(headers);
            let l = pre.pair_limiter;
            let passes = limiter::recent(l.attempts(key), tick, l.window()).len() < l.max();
            let out = pair::confirm_outcome(pre.config, pre.db@, req, jti, now);
            &&& passes ==> error::viewed(res) == out.1 && post.db@ == change::replay(
                pre.db@,
                out.0,
            ) && post.pair_limiter.attempts(key).last() == tick
            &&& !passes ==> post.db == pre.db && res is Err && res->Err_0@ == ErrorView::Conflict(
                "too many attempts, retry later"@,
            )
            &&& forall|other: Seq<char>|
                other != key ==> #[trigger] post.pair_limiter.attempts(other) == l.attempts(other)
            &&& post.config == pre.config && post.login_limiter == pre.login_limiter
                && post.admin_limiter == pre.admin_limiter && post.ws_sessions == pre.ws_sessions
            &&& crypto::is_uuid(jti)
        }),
{
}

/// Tenant requests are counted per address. One that comes too often is answered
/// 429 and its key is not looked at; nothing but this count changes.
pub proof fn law_tenant_requests_are_limited(
    pre: AppState,
    post: AppState,
    headers: Headers,
    res: Result<tenant::TenantCtx, error::Refusal>,
    tick: u128,
)
    requires
        tenant::tenant_handled(pre, post, headers, res, tick),
    ensures
        ({
            let key = auth::source_ip(headers);
            let l = pre.admin_limiter;
            let passes = limiter::recent(l.attempts(key), tick, l.window()).len() < l.max();
            &&& passes ==> tenant::ctx_viewed(res) == tenant::tenant_outcome(pre.db@, headers@)
                && post.admin_limiter.attempts(key).last() == tick
            &&& !passes ==> res is Err && res->Err_0@ == (
                429u16,
                "too many admin requests, retry later"@,
            )
            &&& res is Ok ==> !res->Ok_0.operator
            &&& post.db == pre.db && post.config == pre.config && post.login_limiter
                == pre.login_limiter && post.pair_limiter == pre.pair_limiter && post.ws_sessions
                == pre.ws_sessions
        }),
{
}

/// A tenant that is registered gets an id of its own form and a key of 64
/// hexadecimal digits, which it can use from then on.
pub proof fn law_new_tenants_get_id_and_key(
    pre: AppState,
    post: AppState,
    req: tenant::TenantCreateRequest,
    res: AppResult<tenant::TenantCreated>,
    uuid: Seq<char>,
    bytes: Seq<u8>,
    now: i64,
)
    requires
        tenant::tenant_created(pre, post, req, res, uuid, bytes, now),
        res is Ok,
    ensures
        res->Ok_0.id@ == "t-"@ + uuid.take(8),
        res->Ok_0.name@ == req.name@,
        res->Ok_0.admin_key@ == text::hex_text(bytes),
        res->Ok_0.admin_key@.len() == 64,
        post.db@.tenants.len() == pre.db@.tenants.len() + 1,
        post.db@.tenants.last().0.id == res->Ok_0.id@,
        post.db@.tenants.last().1 == text::hex_text(
            crypto::sha256_of(encode_utf8(res->Ok_0.admin_key@)),
        ),
        post.config == pre.config,
{
    text::lemma_hex_text_len(bytes);
    let out = tenant::create_tenant_outcome(
        pre.db@,
        req.name@,
        tenant::short_id("t-"@, uuid),
        text::hex_text(bytes),
        now,
    );
    change::lemma_replay_one(pre.db@, out.0[0]);
    assert(out.0 =~= seq![out.0[0]]);
}

/// A host that is registered gets an id of its own form.
pub proof fn law_new_hosts_get_an_id(
    pre: AppState,
    post: AppState,
    req: HostCreateRequest,
    res: AppResult<tenant::HostCreated>,
    uuid: Seq<char>,
    now: i64,
)
    requires
        tenant::host_created(pre, post, req, res, uuid, now),
        res is Ok,
    ensures
        res->Ok_0.id@ == "h-"@ + uuid.take(8),
        res->Ok_0.port == req.port,
        res->Ok_0.tenant_id@ == req.tenant_id@,
        post.db@.hosts.len() == pre.db@.hosts.len() + 1,
        post.db@.hosts.last().id == res->Ok_0.id@,
        post.db@.hosts.last().port == req.port,
        post.db@.hosts.last().tenant_id == req.tenant_id@,
        post.config == pre.config,
{
    let out = tenant::create_host_outcome(
        pre.config,
        pre.db@,
        req,
        tenant::short_id("h-"@, uuid),
        now,
    );
    change::lemma_replay_one(pre.db@, out.0[0]);
    assert(out.0 =~= seq![out.0[0]]);
}

/// The other requests answer what they lead to and change nothing but the register,
/// by what is written down for them.
pub proof fn law_handled_requests_answer_their_outcome(
    pre: AppState,
    post: AppState,
    fields: Seq<FieldView>,
    device: AppResult<auth::AuthedDevice>,
    poll: PairPollRequest,
    told: AppResult<pair::PairPollResponse>,
    ctx: (Seq<char>, bool),
    claim: AdminClaimRequest,
    claimed: AppResult<pair::AdminClaimResponse>,
    id: Seq<char>,
    now: i64,
)
    ensures
        auth::auth_handled(pre, post, fields, device, now) ==> {
            let out = auth::auth_outcome(pre.db@, pre.config.jwt_secret@, fields, now);
            &&& error::viewed(device) == out.1 && post.db@ == change::replay(pre.db@, out.0)
            &&& post.config == pre.config && post.login_limiter == pre.login_limiter
        },
        pair::poll_handled(pre, post, poll, told, now) ==> {
            let out = pair::poll_outcome(pre.db@, poll, now);
            &&& error::viewed(told) == out.1 && post.db@ == change::replay(pre.db@, out.0)
            &&& post.config == pre.config && post.pair_limiter == pre.pair_limiter
        },
        pair::claim_handled(pre, post, ctx, claim, claimed, id, now) ==> {
            let out = pair::claim_outcome(pre.config, pre.db@, ctx, claim, id, now);
            &&& error::viewed(claimed) == out.1 && post.db@ == change::replay(pre.db@, out.0)
            &&& post.config == pre.config && crypto::is_uuid(id)
        },
{
}

} // verus!
