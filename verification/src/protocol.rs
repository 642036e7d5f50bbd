//! What holds of pairing from the first request to the last, and between the
//! requests of different phones, Macs and tenants.
use vstd::prelude::*;

use crate::admin;
use crate::auth;
use crate::auth::DeviceView;
use crate::change;
use crate::change::{ChangeView, DbView};
use crate::clock;
use crate::config::Config;
use crate::consistency;
use crate::db;
use crate::error::ErrorView;
use crate::http::FieldView;
use crate::jwt;
use crate::pair;
use crate::pair::{
    AdminClaimRequest, ConfirmView, PairConfirmRequest, PairPollRequest, PairStartRequest,
};
use crate::rows::{ClaimView, HostView, PairingView, TokenView};
use crate::split;
use crate::table;
use crate::tenant;
use crate::tenant::{HostCreateRequest, DEFAULT_TENANT};

verus! {

// ---- codes ----------------------------------------------------------------

/// Two rows are the same pairing, whatever has become of it.
pub open spec fn same_pairing(a: PairingView, b: PairingView) -> bool {
    &&& a.id == b.id
    &&& a.code_d == b.code_d
    &&& a.secret == b.secret
    &&& a.device == b.device
    &&& a.created_at == b.created_at
    &&& a.expires_at == b.expires_at
    &&& a.tenant_id == b.tenant_id
}

/// A pairing is never forgotten, and its code, secret and times never change.
pub proof fn law_pairings_persist(db: DbView, changes: Seq<ChangeView>, i: int)
    requires
        0 <= i < db.pairings.len(),
    ensures
        i < change::replay(db, changes).pairings.len(),
        same_pairing(db.pairings[i], change::replay(db, changes).pairings[i]),
    decreases changes.len(),
{
    if changes.len() > 0 {
        law_pairings_persist(db, changes.drop_last(), i);
    }
}

/// A code cannot be registered again within thirty minutes, whatever has become
/// of the pairing it was registered for, nor while that pairing waits.
pub proof fn law_code_is_not_reused(
    db: DbView,
    i: int,
    req: PairStartRequest,
    id: Seq<char>,
    now: i64,
)
    requires
        0 <= i < db.pairings.len(),
        split::plain_code(req.code@) == db.pairings[i].code_d,
        db.pairings[i].created_at > now - db::REUSE_SECS || (db.pairings[i].status == "pending"@
            && db.pairings[i].expires_at >= now),
    ensures
        pair::start_outcome(db, req, id, now).1 is Err,
        pair::start_outcome(db, req, id, now).1->Err_0 is BadRequest || pair::start_outcome(
            db,
            req,
            id,
            now,
        ).1->Err_0 == ErrorView::Conflict("code already in use; generate a new one"@),
{
    let code = db.pairings[i].code_d;
    let swept = change::apply(db, ChangeView::Sweep { now });
    assert(swept.pairings[i] == change::pairing_swept(db.pairings[i], now));
    table::lemma_first_holds(swept.pairings, db::blocks_code(code, now));
    assert(db::blocks_code(code, now)(swept.pairings[i]));
}

/// A row that keeps a code from being registered: its pairing waits and its time
/// is not over, or it was started within the last thirty minutes, whatever has
/// become of it.
pub open spec fn holds_code(p: PairingView, code: Seq<char>, now: i64) -> bool {
    p.code_d == code && ((p.status == "pending"@ && p.expires_at >= now) || p.created_at > now
        - db::REUSE_SECS)
}

/// A pairing is taken into the register exactly where no row holds its code and
/// its id is new. Then one row is added, which waits for the given time; else
/// none is.
pub proof fn law_pairing_is_taken_where_code_is_free(
    db: DbView,
    id: Seq<char>,
    code: Seq<char>,
    secret: Seq<char>,
    device: Seq<char>,
    ttl_secs: i64,
    tenant: Seq<char>,
    now: i64,
)
    requires
        i64::MIN <= now + ttl_secs <= i64::MAX,
    ensures
        db::pairing_refused(db, id, code, now) == exists|i: int|
            0 <= i < db.pairings.len() && ((#[trigger] db.pairings[i]).id == id || holds_code(
                db.pairings[i],
                code,
                now,
            )),
        ({
            let row = db::new_pairing(id, code, secret, device, ttl_secs, tenant, now);
            let swept = change::replay(db, seq![ChangeView::Sweep { now }]);
            let after = change::replay(
                db,
                seq![ChangeView::Sweep { now }, ChangeView::InsertPairing(row)],
            );
            &&& swept.pairings.len() == db.pairings.len()
            &&& after.pairings == swept.pairings.push(row)
            &&& row.status == "pending"@ && row.expires_at == now + ttl_secs
        }),
{
    consistency::lemma_status_words();
    let sweep = ChangeView::Sweep { now };
    let swept = change::apply(db, sweep);
    let row = db::new_pairing(id, code, secret, device, ttl_secs, tenant, now);
    change::lemma_replay_one(db, sweep);
    let both = seq![sweep, ChangeView::InsertPairing(row)];
    assert(both.drop_last() =~= seq![sweep]);
    assert(change::replay(db, both) == change::apply(swept, both.last()));
    let blocks = db::blocks_code(code, now);
    let taken = db::has_pairing_id(id);
    table::lemma_first_holds(swept.pairings, blocks);
    table::lemma_first_holds(swept.pairings, taken);
    assert forall|i: int| 0 <= i < db.pairings.len() implies blocks(#[trigger] swept.pairings[i])
        == holds_code(db.pairings[i], code, now) && taken(swept.pairings[i]) == (db.pairings[i].id
        == id) by {
        assert(swept.pairings[i] == change::pairing_swept(db.pairings[i], now));
    }
    if db::pairing_refused(db, id, code, now) {
        let p = if table::first(swept.pairings, blocks) is Some {
            table::first(swept.pairings, blocks)->0
        } else {
            table::first(swept.pairings, taken)->0
        };
        let k = swept.pairings.index_of(p);
        assert(swept.pairings[k] == p);
        assert(db.pairings[k].id == id || holds_code(db.pairings[k], code, now));
    } else {
        assert forall|i: int| 0 <= i < db.pairings.len() implies !((#[trigger] db.pairings[i]).id
            == id || holds_code(db.pairings[i], code, now)) by {
            assert(!blocks(swept.pairings[i]) && !taken(swept.pairings[i]));
        }
    }
}

/// A change that may end this pairing: its status is set, or time has passed
/// its end.
pub open spec fn may_end(c: ChangeView, id: Seq<char>, expires_at: int) -> bool {
    match c {
        ChangeView::SetPairingStatus { id: other, status } => other == id,
        ChangeView::Sweep { now } => now > expires_at,
        _ => false,
    }
}

/// The pairing with this secret waits.
pub open spec fn pairing_waits(
    db: DbView,
    id: Seq<char>,
    secret: Seq<char>,
    expires_at: int,
) -> bool {
    match table::first(db.pairings, db::has_pairing_id(id)) {
        Some(p) => p.status == "pending"@ && p.secret == secret && p.expires_at == expires_at,
        None => false,
    }
}

proof fn lemma_waiting_stays(
    db: DbView,
    changes: Seq<ChangeView>,
    id: Seq<char>,
    secret: Seq<char>,
    expires_at: int,
)
    requires
        pairing_waits(db, id, secret, expires_at),
        forall|i: int| 0 <= i < changes.len() ==> !may_end(#[trigger] changes[i], id, expires_at),
    ensures
        pairing_waits(change::replay(db, changes), id, secret, expires_at),
    decreases changes.len(),
{
    if changes.len() > 0 {
        let init = changes.drop_last();
        assert forall|i: int| 0 <= i < init.len() implies !may_end(
            #[trigger] init[i],
            id,
            expires_at,
        ) by {
            assert(init[i] == changes[i]);
        }
        lemma_waiting_stays(db, init, id, secret, expires_at);
        let before = change::replay(db, init);
        let c = changes.last();
        assert(!may_end(changes[changes.len() - 1], id, expires_at));
        let after = change::apply(before, c);
        let p = db::has_pairing_id(id);
        table::lemma_first_holds(before.pairings, p);
        match c {
            ChangeView::Sweep { now } => {
                let f = |x: PairingView| change::pairing_swept(x, now);
                table::lemma_first_map(before.pairings, p, f);
                assert(after.pairings =~= before.pairings.map_values(f));
            },
            ChangeView::SetPairingStatus { id: other, status } => {
                let f = |x: PairingView| change::pairing_marked(x, other, status);
                table::lemma_first_map(before.pairings, p, f);
                assert(after.pairings =~= before.pairings.map_values(f));
            },
            ChangeView::SetPairingToken { id: other, jti } => {
                let f = |x: PairingView| change::pairing_bound(x, other, jti);
                table::lemma_first_map(before.pairings, p, f);
                assert(after.pairings =~= before.pairings.map_values(f));
            },
            ChangeView::InsertPairing(row) => {
                table::lemma_first_push(before.pairings, row, p);
            },
            _ => {},
        }
    }
}

/// A pairing that was started waits until it is confirmed or its time is over,
/// whatever else happens: its phone is told so whenever it asks.
pub proof fn law_started_pairing_waits(
    db: DbView,
    req: PairStartRequest,
    id: Seq<char>,
    now: i64,
    between: Seq<ChangeView>,
    later: i64,
    poll: PairPollRequest,
)
    requires
        clock::is_unix_time(now),
        pair::start_outcome(db, req, id, now).1 is Ok,
        forall|i: int|
            0 <= i < between.len() ==> !may_end(
                #[trigger] between[i],
                id,
                now + pair::PAIRING_TTL_SECS,
            ),
        poll.pairing_id@ == id,
        poll.secret@ == req.secret@,
        later <= now + pair::PAIRING_TTL_SECS,
    ensures
        ({
            let started = change::replay(db, pair::start_outcome(db, req, id, now).0);
            match pair::poll_outcome(change::replay(started, between), poll, later).1 {
                Ok(r) => r.0 == "waiting"@ || r.0 == "offers"@,
                Err(_) => false,
            }
        }),
{
    consistency::lemma_status_words();
    let sweep = ChangeView::Sweep { now };
    let changes = pair::start_outcome(db, req, id, now).0;
    let swept = change::apply(db, sweep);
    change::lemma_replay_one(db, sweep);
    assert(changes.drop_last() =~= seq![sweep]);
    let row = changes[1]->InsertPairing_0;
    table::lemma_first_push(swept.pairings, row, db::has_pairing_id(id));
    lemma_waiting_stays(
        change::replay(db, changes),
        between,
        id,
        req.secret@,
        now + pair::PAIRING_TTL_SECS,
    );
}

// ---- offers ---------------------------------------------------------------

/// A phone is shown offers on its own code that still stand, and where its
/// pairing is anchored only those of that tenant.
pub proof fn law_offers_are_for_this_pairing(db: DbView, p: PairingView, now: i64, i: int)
    requires
        0 <= i < pair::offers_shown(change::apply(db, ChangeView::Sweep { now }), p).len(),
    ensures
        exists|k: int|
            {
                let c = #[trigger] db.claims[k];
                &&& 0 <= k < db.claims.len()
                &&& pair::offer_of()(c) == pair::offers_shown(
                    change::apply(db, ChangeView::Sweep { now }),
                    p,
                )[i]
                &&& c.pairing_code == p.code_d
                &&& c.status == "offered"@
                &&& c.expires_at >= now
                &&& p.tenant_id.len() > 0 ==> c.tenant_id == p.tenant_id
            },
{
    consistency::lemma_status_words();
    let swept = change::apply(db, ChangeView::Sweep { now });
    let standing = swept.claims.filter(db::is_offered_for(p.code_d));
    let listed = table::ranked(standing, db::oldest_claim());
    let shown = listed.filter(pair::visible_to(p.tenant_id));
    assert(listed == db::offers_for(swept, p.code_d));
    let c = shown[i];
    listed.lemma_filter_pred(pair::visible_to(p.tenant_id), i);
    table::lemma_filter_from(listed, pair::visible_to(p.tenant_id));
    let j = listed.index_of(c);
    table::lemma_ranked_from(standing, db::oldest_claim(), j);
    let m = standing.index_of(c);
    swept.claims.lemma_filter_pred(db::is_offered_for(p.code_d), m);
    table::lemma_filter_from(swept.claims, db::is_offered_for(p.code_d));
    let k = swept.claims.index_of(c);
    assert(swept.claims[k] == change::claim_swept(db.claims[k], now));
    assert(db.claims[k] == c);
}

/// A claim that is accepted is for a phone that waits and whose time is not over;
/// its port is its
/// tenant's, or not registered, in the allowed range, and claimed by the
/// operator or for the operator's tenant.
pub proof fn law_claimed_port_is_owned(
    config: Config,
    db: DbView,
    ctx: (Seq<char>, bool),
    req: AdminClaimRequest,
    id: Seq<char>,
    now: i64,
)
    requires
        pair::claim_outcome(config, db, ctx, req, id, now).1 is Ok,
    ensures
        ({
            let code = split::plain_code(req.code@);
            let waiting = table::first(db.pairings, db::is_waiting_with(code, now));
            let tenant = pair::claimant(ctx, waiting->0.tenant_id);
            let port = pair::claimed_port(config, req);
            let changes = pair::claim_outcome(config, db, ctx, req, id, now).0;
            &&& waiting is Some
            &&& waiting->0.status == "pending"@ && waiting->0.expires_at >= now
            &&& waiting->0.tenant_id.len() > 0 ==> tenant == waiting->0.tenant_id
            &&& changes.len() == 1
            &&& changes[0] is InsertClaim
            &&& changes[0]->InsertClaim_0.tenant_id == tenant
            &&& changes[0]->InsertClaim_0.upstream_port == port
            &&& changes[0]->InsertClaim_0.pairing_code == code
            &&& match table::first(db.hosts, db::has_port(port)) {
                Some(h) => h.enabled && h.tenant_id == tenant,
                None => tenant::port_allowed(config, port) && (ctx.1 || tenant == DEFAULT_TENANT@),
            }
        }),
{
    let code = split::plain_code(req.code@);
    table::lemma_first_holds(db.pairings, db::is_waiting_with(code, now));
}

/// A tenant claims for itself, and only ports that are registered to it.
pub proof fn law_tenants_claim_their_own_ports(
    config: Config,
    db: DbView,
    ctx: (Seq<char>, bool),
    req: AdminClaimRequest,
    id: Seq<char>,
    now: i64,
)
    requires
        !ctx.1,
        ctx.0 != DEFAULT_TENANT@,
        pair::claim_outcome(config, db, ctx, req, id, now).1 is Ok,
    ensures
        pair::claim_outcome(config, db, ctx, req, id, now).0[0]->InsertClaim_0.tenant_id == ctx.0,
        match table::first(db.hosts, db::has_port(pair::claimed_port(config, req))) {
            Some(h) => h.enabled && h.tenant_id == ctx.0,
            None => false,
        },
{
    law_claimed_port_is_owned(config, db, ctx, req, id, now);
}

/// To a tenant a phone that waits for another tenant is as good as none.
pub proof fn law_foreign_pairing_is_invisible(
    config: Config,
    db: DbView,
    without: DbView,
    ctx: (Seq<char>, bool),
    req: AdminClaimRequest,
    id: Seq<char>,
    now: i64,
)
    requires
        !ctx.1,
        table::first(db.pairings, db::is_waiting_with(split::plain_code(req.code@), now)) is Some,
        table::first(
            db.pairings,
            db::is_waiting_with(split::plain_code(req.code@), now),
        )->0.tenant_id.len() > 0,
        table::first(db.pairings, db::is_waiting_with(split::plain_code(req.code@), now))->0.tenant_id
            != ctx.0,
        table::first(without.pairings, db::is_waiting_with(split::plain_code(req.code@), now)) is None,
    ensures
        pair::claim_outcome(config, db, ctx, req, id, now) == pair::claim_outcome(
            config,
            without,
            ctx,
            req,
            id,
            now,
        ),
        pair::claim_outcome(config, db, ctx, req, id, now).1 is Err,
{
}

// ---- confirming -----------------------------------------------------------

/// A confirmation that is refused changes nothing, so a person who has mistyped
/// a host code can try again. (It is made with a token id that is not in use.)
pub proof fn law_refused_confirmation_changes_nothing(
    config: Config,
    db: DbView,
    req: PairConfirmRequest,
    jti: Seq<char>,
    now: i64,
)
    requires
        table::first(db.tokens, db::has_jti(jti)) is None,
        pair::confirm_outcome(config, db, req, jti, now).1 is Err,
    ensures
        pair::confirm_outcome(config, db, req, jti, now).0 == Seq::<ChangeView>::empty(),
{
}

/// What can be confirmed: a pairing that waits, by who knows its secret, with a
/// claim on its code that stands, of its tenant where it is anchored, and with
/// the host code of that claim.
pub proof fn law_confirmation_needs_everything(
    config: Config,
    db: DbView,
    req: PairConfirmRequest,
    jti: Seq<char>,
    now: i64,
)
    requires
        pair::confirm_outcome(config, db, req, jti, now).1 is Ok,
    ensures
        ({
            let p = table::first(db.pairings, db::has_pairing_id(req.pairing_id@));
            let c = table::first(db.claims, db::has_claim_id(req.claim_id@));
            &&& p is Some && c is Some
            &&& p->0.secret == req.secret@
            &&& p->0.status == "pending"@ && p->0.expires_at >= now
            &&& c->0.status == "offered"@ && c->0.expires_at >= now
            &&& c->0.pairing_code == p->0.code_d
            &&& c->0.host_code == split::plain_code(req.host_code@)
            &&& p->0.tenant_id.len() > 0 ==> c->0.tenant_id == p->0.tenant_id
        }),
{
}

/// The claim is spent: it does not stand any more.
pub open spec fn claim_spent(db: DbView, id: Seq<char>) -> bool {
    match table::first(db.claims, db::has_claim_id(id)) {
        Some(c) => c.status != "offered"@,
        None => false,
    }
}

/// The pairing with this secret is over: it does not wait any more.
pub open spec fn pairing_over(db: DbView, id: Seq<char>, secret: Seq<char>) -> bool {
    match table::first(db.pairings, db::has_pairing_id(id)) {
        Some(p) => p.status != "pending"@ && p.secret == secret,
        None => false,
    }
}

proof fn lemma_spent_stays(db: DbView, c: ChangeView, id: Seq<char>)
    requires
        claim_spent(db, id),
    ensures
        claim_spent(change::apply(db, c), id),
{
    consistency::lemma_status_words();
    let p = db::has_claim_id(id);
    let after = change::apply(db, c);
    match c {
        ChangeView::Sweep { now } => {
            let f = |x: ClaimView| change::claim_swept(x, now);
            table::lemma_first_map(db.claims, p, f);
            assert(after.claims =~= db.claims.map_values(f));
        },
        ChangeView::ConsumeClaim { id: other } => {
            let f = |x: ClaimView| change::claim_consumed(x, other);
            table::lemma_first_map(db.claims, p, f);
            assert(after.claims =~= db.claims.map_values(f));
        },
        ChangeView::InsertClaim(row) => {
            table::lemma_first_push(db.claims, row, p);
        },
        _ => {},
    }
}

proof fn lemma_over_stays(db: DbView, c: ChangeView, id: Seq<char>, secret: Seq<char>)
    requires
        pairing_over(db, id, secret),
        consistency::admissible(db, c),
    ensures
        pairing_over(change::apply(db, c), id, secret),
{
    consistency::lemma_status_words();
    let p = db::has_pairing_id(id);
    let after = change::apply(db, c);
    match c {
        ChangeView::Sweep { now } => {
            let f = |x: PairingView| change::pairing_swept(x, now);
            table::lemma_first_map(db.pairings, p, f);
            assert(after.pairings =~= db.pairings.map_values(f));
        },
        ChangeView::SetPairingStatus { id: other, status } => {
            let f = |x: PairingView| change::pairing_marked(x, other, status);
            table::lemma_first_map(db.pairings, p, f);
            assert(after.pairings =~= db.pairings.map_values(f));
        },
        ChangeView::SetPairingToken { id: other, jti } => {
            let f = |x: PairingView| change::pairing_bound(x, other, jti);
            table::lemma_first_map(db.pairings, p, f);
            assert(after.pairings =~= db.pairings.map_values(f));
        },
        ChangeView::InsertPairing(row) => {
            table::lemma_first_push(db.pairings, row, p);
        },
        _ => {},
    }
}

proof fn lemma_taken_ends_both(db: DbView, req: PairConfirmRequest, jti: Seq<char>)
    requires
        table::first(db.pairings, db::has_pairing_id(req.pairing_id@)) is Some,
        table::first(db.claims, db::has_claim_id(req.claim_id@)) is Some,
    ensures
        claim_spent(change::replay(db, pair::taken(req, jti)), req.claim_id@),
        pairing_over(
            change::replay(db, pair::taken(req, jti)),
            req.pairing_id@,
            table::first(db.pairings, db::has_pairing_id(req.pairing_id@))->0.secret,
        ),
        ({
            let after = change::replay(db, pair::taken(req, jti));
            let p = table::first(db.pairings, db::has_pairing_id(req.pairing_id@))->0;
            &&& table::first(after.pairings, db::has_pairing_id(req.pairing_id@)) == Some(
                PairingView { status: "confirmed"@, token_jti: jti, ..p },
            )
            &&& after.pairings == db.pairings.map_values(taken_pairing(req, jti))
        }),
{
    consistency::lemma_status_words();
    let t = pair::taken(req, jti);
    let (a, b, c) = (t[0], t[1], t[2]);
    reveal_with_fuel(change::replay, 4);
    assert(t.drop_last().drop_last().drop_last() =~= Seq::<ChangeView>::empty());
    let d1 = change::apply(db, a);
    let d2 = change::apply(d1, b);
    let d3 = change::apply(d2, c);
    assert(change::replay(db, t) == d3);
    let fc = |x: ClaimView| change::claim_consumed(x, req.claim_id@);
    table::lemma_first_map(db.claims, db::has_claim_id(req.claim_id@), fc);
    table::lemma_first_holds(db.claims, db::has_claim_id(req.claim_id@));
    assert(d1.claims =~= db.claims.map_values(fc));
    let f = taken_pairing(req, jti);
    assert(d3.pairings =~= db.pairings.map_values(f));
    table::lemma_first_map(db.pairings, db::has_pairing_id(req.pairing_id@), f);
    table::lemma_first_holds(db.pairings, db::has_pairing_id(req.pairing_id@));
}

/// What taking a claim makes of a pairing row.
pub open spec fn taken_pairing(req: PairConfirmRequest, jti: Seq<char>) -> spec_fn(
    PairingView,
) -> PairingView {
    |p: PairingView|
        if p.id == req.pairing_id@ {
            PairingView { status: "confirmed"@, token_jti: jti, ..p }
        } else {
            p
        }
}

proof fn lemma_ends_stay(
    db: DbView,
    changes: Seq<ChangeView>,
    claim: Seq<char>,
    pairing: Seq<char>,
    secret: Seq<char>,
)
    requires
        claim_spent(db, claim),
        pairing_over(db, pairing, secret),
        consistency::all_admissible(db, changes),
    ensures
        claim_spent(change::replay(db, changes), claim),
        pairing_over(change::replay(db, changes), pairing, secret),
    decreases changes.len(),
{
    if changes.len() > 0 {
        let before = change::replay(db, changes.drop_last());
        lemma_ends_stay(db, changes.drop_last(), claim, pairing, secret);
        lemma_spent_stays(before, changes.last(), claim);
        lemma_over_stays(before, changes.last(), pairing, secret);
    }
}

/// A confirmation ends its claim and its pairing.
proof fn lemma_confirmation_ends_both(
    config: Config,
    db: DbView,
    req: PairConfirmRequest,
    jti: Seq<char>,
    now: i64,
)
    requires
        pair::confirm_outcome(config, db, req, jti, now).1 is Ok,
    ensures
        ({
            let after = change::replay(db, pair::confirm_outcome(config, db, req, jti, now).0);
            &&& claim_spent(after, req.claim_id@)
            &&& pairing_over(after, req.pairing_id@, req.secret@)
        }),
{
    let changes = pair::confirm_outcome(config, db, req, jti, now).0;
    let t = pair::taken(req, jti);
    lemma_taken_ends_both(db, req, jti);
    assert(changes.drop_last() =~= t);
    let mid = change::replay(db, t);
    lemma_spent_stays(mid, changes.last(), req.claim_id@);
    assert(change::replay(db, changes) == change::apply(mid, changes.last()));
    assert(change::apply(mid, changes.last()).pairings == mid.pairings);
}

/// A claim is taken once. After a confirmation neither its claim nor its pairing
/// can be confirmed again, whatever happens in between.
pub proof fn law_claim_is_taken_once(
    config: Config,
    db: DbView,
    req: PairConfirmRequest,
    jti: Seq<char>,
    now: i64,
    between: Seq<ChangeView>,
    again: PairConfirmRequest,
    jti2: Seq<char>,
    later: i64,
)
    requires
        pair::confirm_outcome(config, db, req, jti, now).1 is Ok,
        consistency::all_admissible(
            change::replay(db, pair::confirm_outcome(config, db, req, jti, now).0),
            between,
        ),
        again.claim_id@ == req.claim_id@ || again.pairing_id@ == req.pairing_id@,
    ensures
        ({
            let first = change::replay(db, pair::confirm_outcome(config, db, req, jti, now).0);
            let then = change::replay(first, between);
            let out = pair::confirm_outcome(config, then, again, jti2, later);
            &&& out.1 is Err
            &&& out.0 == Seq::<ChangeView>::empty()
            &&& again.pairing_id@ == req.pairing_id@ && again.secret@ == req.secret@ ==> out.1
                == Err::<ConfirmView, ErrorView>(ErrorView::BadRequest("pairing no longer active"@))
        }),
{
    lemma_confirmation_ends_both(config, db, req, jti, now);
    lemma_ends_stay(
        change::replay(db, pair::confirm_outcome(config, db, req, jti, now).0),
        between,
        req.claim_id@,
        req.pairing_id@,
        req.secret@,
    );
}

/// One of several attempts to confirm: what else has happened since the one
/// before, the token id it is made with, and when.
pub struct Attempt {
    pub between: Seq<ChangeView>,
    pub jti: Seq<char>,
    pub now: i64,
}

/// The register as the `n`-th attempt finds it.
pub open spec fn found_by(
    config: Config,
    db: DbView,
    req: PairConfirmRequest,
    attempts: Seq<Attempt>,
    n: nat,
) -> DbView {
    change::replay(left_before(config, db, req, attempts, n), attempts[n as int].between)
}

/// The register as the attempts before the `n`-th have left it.
pub open spec fn left_before(
    config: Config,
    db: DbView,
    req: PairConfirmRequest,
    attempts: Seq<Attempt>,
    n: nat,
) -> DbView
    decreases n,
{
    if n == 0 {
        db
    } else {
        let m = (n - 1) as nat;
        let found = change::replay(
            left_before(config, db, req, attempts, m),
            attempts[m as int].between,
        );
        change::replay(
            found,
            pair::confirm_outcome(
                config,
                found,
                req,
                attempts[m as int].jti,
                attempts[m as int].now,
            ).0,
        )
    }
}

/// What the `n`-th attempt leads to.
pub open spec fn attempt_outcome(
    config: Config,
    db: DbView,
    req: PairConfirmRequest,
    attempts: Seq<Attempt>,
    n: nat,
) -> (Seq<ChangeView>, Result<ConfirmView, ErrorView>) {
    pair::confirm_outcome(
        config,
        found_by(config, db, req, attempts, n),
        req,
        attempts[n as int].jti,
        attempts[n as int].now,
    )
}

/// However often a confirmation is sent, and whatever happens in between, at
/// most one attempt succeeds: every one after it is refused and writes nothing,
/// so at most one token is made.
pub proof fn law_one_confirmation_succeeds(
    config: Config,
    db: DbView,
    req: PairConfirmRequest,
    attempts: Seq<Attempt>,
    i: nat,
    j: nat,
)
    requires
        i < j < attempts.len(),
        forall|n: int|
            0 <= n < attempts.len() ==> consistency::all_admissible(
                left_before(config, db, req, attempts, n as nat),
                (#[trigger] attempts[n]).between,
            ),
        attempt_outcome(config, db, req, attempts, i).1 is Ok,
    ensures
        attempt_outcome(config, db, req, attempts, j) == (
            Seq::<ChangeView>::empty(),
            Err::<ConfirmView, ErrorView>(ErrorView::BadRequest("pairing no longer active"@)),
        ),
{
    lemma_ended_until(config, db, req, attempts, i, j);
    assert(consistency::all_admissible(
        left_before(config, db, req, attempts, j),
        attempts[j as int].between,
    ));
    lemma_ends_stay(
        left_before(config, db, req, attempts, j),
        attempts[j as int].between,
        req.claim_id@,
        req.pairing_id@,
        req.secret@,
    );
}

/// After an attempt that succeeds the claim and the pairing are over for every
/// later one.
proof fn lemma_ended_until(
    config: Config,
    db: DbView,
    req: PairConfirmRequest,
    attempts: Seq<Attempt>,
    i: nat,
    j: nat,
)
    requires
        i < j <= attempts.len(),
        forall|n: int|
            0 <= n < attempts.len() ==> consistency::all_admissible(
                left_before(config, db, req, attempts, n as nat),
                (#[trigger] attempts[n]).between,
            ),
        attempt_outcome(config, db, req, attempts, i).1 is Ok,
    ensures
        claim_spent(left_before(config, db, req, attempts, j), req.claim_id@),
        pairing_over(left_before(config, db, req, attempts, j), req.pairing_id@, req.secret@),
    decreases j,
{
    let m = (j - 1) as nat;
    let found = found_by(config, db, req, attempts, m);
    if m == i {
        lemma_confirmation_ends_both(config, found, req, attempts[i as int].jti, attempts[i as int].now);
    } else {
        lemma_ended_until(config, db, req, attempts, i, m);
        assert(consistency::all_admissible(
            left_before(config, db, req, attempts, m),
            attempts[m as int].between,
        ));
        lemma_ends_stay(
            left_before(config, db, req, attempts, m),
            attempts[m as int].between,
            req.claim_id@,
            req.pairing_id@,
            req.secret@,
        );
        assert(attempt_outcome(config, db, req, attempts, m).0 == Seq::<ChangeView>::empty());
        assert(change::replay(found, Seq::<ChangeView>::empty()) == found);
    }
}

/// The token of a confirmed pairing passes the check until it expires. It is
/// bound to the tunnel of the Mac that was picked and belongs to its tenant.
pub proof fn law_confirmed_token_is_bound(
    config: Config,
    db: DbView,
    req: PairConfirmRequest,
    jti: Seq<char>,
    now: i64,
    token: Seq<char>,
    fields: Seq<FieldView>,
    later: i64,
)
    requires
        pair::confirm_outcome(config, db, req, jti, now).1 is Ok,
        0 <= clock::days_later(now, config.token_ttl_days),
        auth::vouched(
            token,
            config.jwt_secret@,
            auth::device_claims(
                jti,
                table::first(db.pairings, db::has_pairing_id(req.pairing_id@))->0.device,
                now,
                clock::days_later(now, config.token_ttl_days),
            ),
        ),
        jwt::bearer(fields) == Some(token),
        later <= clock::days_later(now, config.token_ttl_days),
    ensures
        ({
            let after = change::replay(db, pair::confirm_outcome(config, db, req, jti, now).0);
            let p = table::first(db.pairings, db::has_pairing_id(req.pairing_id@))->0;
            let c = table::first(db.claims, db::has_claim_id(req.claim_id@))->0;
            auth::auth_outcome(after, config.jwt_secret@, fields, later).1 == Ok::<
                DeviceView,
                ErrorView,
            >(
                DeviceView {
                    jti,
                    device: p.device,
                    upstream_port: Some(c.upstream_port),
                    tenant_id: c.tenant_id,
                },
            )
        }),
{
    let p = table::first(db.pairings, db::has_pairing_id(req.pairing_id@))->0;
    let exp = clock::days_later(now, config.token_ttl_days);
    let claims = auth::device_claims(jti, p.device, now, exp);
    auth::law_signed_claims_read_back(claims);
    assert(jwt::is_live(auth::signed_claims(claims), later));
    let changes = pair::confirm_outcome(config, db, req, jti, now).0;
    assert(changes.drop_last() =~= pair::taken(req, jti));
    pair::lemma_taken_keeps_tokens(db, req, jti);
    let mid = change::replay(db, pair::taken(req, jti));
    let row = changes.last()->InsertToken_0;
    let after = change::apply(mid, changes.last());
    assert(change::replay(db, changes) == after);
    table::lemma_first_push(db.tokens, row, db::has_jti(jti));
    db::lemma_valid_has_route(after, jti);
}

/// The Mac that asks about the code learns of the confirmation, and of the
/// token that it has led to: on behalf of the operator, or of the tenant whose
/// claim was taken.
pub proof fn law_confirmation_is_reported(
    config: Config,
    db: DbView,
    req: PairConfirmRequest,
    jti: Seq<char>,
    now: i64,
    ctx: (Seq<char>, bool),
    code: Seq<char>,
)
    requires
        pair::confirm_outcome(config, db, req, jti, now).1 is Ok,
        jti.len() > 0,
        ctx.1 || table::first(db.claims, db::has_claim_id(req.claim_id@))->0.tenant_id == ctx.0,
        db::latest_pairing(db, split::plain_code(code)) == table::first(
            db.pairings,
            db::has_pairing_id(req.pairing_id@),
        ),
    ensures
        ({
            let after = change::replay(db, pair::confirm_outcome(config, db, req, jti, now).0);
            let p = table::first(db.pairings, db::has_pairing_id(req.pairing_id@))->0;
            let c = table::first(db.claims, db::has_claim_id(req.claim_id@))->0;
            match admin::status_outcome(after, ctx, Some(code)) {
                Ok(s) => {
                    &&& s.confirmed
                    &&& s.device == p.device
                    &&& match s.token {
                        Some(t) => t.0 == db::new_token(
                            jti,
                            p.device,
                            Some(c.upstream_port),
                            c.host_label,
                            c.tenant_id,
                            now,
                        ),
                        None => false,
                    }
                },
                Err(_) => false,
            }
        }),
{
    consistency::lemma_status_words();
    let p = table::first(db.pairings, db::has_pairing_id(req.pairing_id@))->0;
    let plain = split::plain_code(code);
    let changes = pair::confirm_outcome(config, db, req, jti, now).0;
    assert(changes.drop_last() =~= pair::taken(req, jti));
    lemma_taken_ends_both(db, req, jti);
    pair::lemma_taken_keeps_tokens(db, req, jti);
    let mid = change::replay(db, pair::taken(req, jti));
    let row = changes.last()->InsertToken_0;
    let after = change::apply(mid, changes.last());
    assert(change::replay(db, changes) == after);
    let f = taken_pairing(req, jti);
    table::lemma_filter_map(db.pairings, db::has_code(plain), f);
    table::lemma_ranked_map(db.pairings.filter(db::has_code(plain)), db::newest_pairing(), f);
    table::lemma_first_holds(db.pairings, db::has_pairing_id(req.pairing_id@));
    assert(db::latest_pairing(after, plain) == Some(f(p)));
    let listed = db::tokens_listed(after);
    table::lemma_ranked_has_all(after.tokens, db::newest(), db.tokens.len() as int);
    table::lemma_first_holds(listed, db::has_jti(jti));
    table::lemma_first_holds(db.tokens, db::has_jti(jti));
    let found = table::first(listed, db::has_jti(jti));
    assert(found == Some(row)) by {
        let k = listed.index_of(row);
        assert(listed[k] == row);
        assert(db::has_jti(jti)(listed[k]));
        let j = listed.index_of(found->0);
        table::lemma_ranked_from(after.tokens, db::newest(), j);
        let m = after.tokens.index_of(found->0);
        if m < db.tokens.len() {
            assert(!db::has_jti(jti)(db.tokens[m]));
        }
    }
}

// ---- tokens over time -----------------------------------------------------

/// A change that revokes a token of this tenant.
pub open spec fn revokes(c: ChangeView, jti: Seq<char>, tenant: Seq<char>) -> bool {
    match c {
        ChangeView::RevokeToken { jti: other } => other == jti,
        ChangeView::RevokeTokenInTenant { jti: other, tenant_id } => other == jti && tenant_id
            == tenant,
        _ => false,
    }
}

/// The row of a token keeps where its requests go and whose it is, is never
/// restored once it is revoked, and is revoked by nothing but a revocation.
proof fn lemma_token_row_stays(db: DbView, changes: Seq<ChangeView>, jti: Seq<char>)
    requires
        table::first(db.tokens, db::has_jti(jti)) is Some,
    ensures
        ({
            let t = table::first(db.tokens, db::has_jti(jti))->0;
            let then = table::first(change::replay(db, changes).tokens, db::has_jti(jti));
            &&& then is Some
            &&& then->0.upstream_port == t.upstream_port
            &&& then->0.tenant_id == t.tenant_id
            &&& t.revoked ==> then->0.revoked
            &&& !t.revoked && (forall|i: int|
                0 <= i < changes.len() ==> !revokes(#[trigger] changes[i], jti, t.tenant_id))
                ==> !then->0.revoked
        }),
    decreases changes.len(),
{
    if changes.len() > 0 {
        let init = changes.drop_last();
        lemma_token_row_stays(db, init, jti);
        let before = change::replay(db, init);
        let c = changes.last();
        let after = change::apply(before, c);
        let p = db::has_jti(jti);
        let t = table::first(db.tokens, p)->0;
        if forall|i: int|
            0 <= i < changes.len() ==> !revokes(#[trigger] changes[i], jti, t.tenant_id) {
            assert forall|i: int| 0 <= i < init.len() implies !revokes(
                #[trigger] init[i],
                jti,
                t.tenant_id,
            ) by {
                assert(init[i] == changes[i]);
            }
            assert(!revokes(changes[changes.len() - 1], jti, t.tenant_id));
        }
        table::lemma_first_holds(before.tokens, p);
        match c {
            ChangeView::InsertToken(row) => {
                table::lemma_first_push(before.tokens, row, p);
            },
            ChangeView::RevokeToken { jti: other } => {
                let f = |x: TokenView| change::token_revoked(x, other);
                table::lemma_first_map(before.tokens, p, f);
                assert(after.tokens =~= before.tokens.map_values(f));
            },
            ChangeView::RevokeTokenInTenant { jti: other, tenant_id } => {
                let f = |x: TokenView| change::token_revoked_in(x, other, tenant_id);
                table::lemma_first_map(before.tokens, p, f);
                assert(after.tokens =~= before.tokens.map_values(f));
            },
            ChangeView::TouchToken { jti: other, at } => {
                let f = |x: TokenView| change::token_touched(x, other, at);
                table::lemma_first_map(before.tokens, p, f);
                assert(after.tokens =~= before.tokens.map_values(f));
            },
            _ => {},
        }
    }
}

/// Revoking a token is final: whatever happens later, a request with it is
/// refused.
pub proof fn law_revocation_is_final(
    db: DbView,
    changes: Seq<ChangeView>,
    jti: Seq<char>,
    secret: Seq<char>,
    fields: Seq<FieldView>,
    now: i64,
)
    requires
        table::first(db.tokens, db::has_jti(jti)) is Some,
        table::first(db.tokens, db::has_jti(jti))->0.revoked,
        auth::request_claims(fields, secret, now) is Some,
        auth::request_claims(fields, secret, now)->0.jti == jti,
    ensures
        auth::auth_outcome(change::replay(db, changes), secret, fields, now) == (
            Seq::<ChangeView>::empty(),
            Err::<DeviceView, ErrorView>(ErrorView::Unauthorized),
        ),
{
    lemma_token_row_stays(db, changes, jti);
}

/// A device that has passed the check passes it again, to the same upstream and
/// for the same tenant, until its token expires or is revoked: nothing else that
/// happens matters.
pub proof fn law_device_stays(
    db: DbView,
    changes: Seq<ChangeView>,
    secret: Seq<char>,
    fields: Seq<FieldView>,
    now: i64,
    later: i64,
)
    requires
        auth::auth_outcome(db, secret, fields, now).1 is Ok,
        auth::request_claims(fields, secret, later) is Some,
        ({
            let d = auth::auth_outcome(db, secret, fields, now).1->Ok_0;
            forall|i: int|
                0 <= i < changes.len() ==> !revokes(#[trigger] changes[i], d.jti, d.tenant_id)
        }),
    ensures
        auth::auth_outcome(change::replay(db, changes), secret, fields, later).1
            == auth::auth_outcome(db, secret, fields, now).1,
{
    let jti = auth::request_claims(fields, secret, now)->0.jti;
    let then = change::replay(db, changes);
    db::lemma_valid_has_route(db, jti);
    lemma_token_row_stays(db, changes, jti);
    db::lemma_valid_has_route(then, jti);
}

// ---- ports ----------------------------------------------------------------

/// A port that has been registered can be claimed for its tenant, by the tenant
/// or the operator, and for no other.
pub proof fn law_registered_port_is_its_tenants(
    config: Config,
    db: DbView,
    req: HostCreateRequest,
    id: Seq<char>,
    now: i64,
    ctx: (Seq<char>, bool),
    tenant: Seq<char>,
)
    requires
        tenant::create_host_outcome(config, db, req, id, now).1 is Ok,
    ensures
        ({
            let after = change::replay(
                db,
                tenant::create_host_outcome(config, db, req, id, now).0,
            );
            pair::port_refusal(config, after, ctx, tenant, req.port) == (if tenant
                == req.tenant_id@ {
                None
            } else {
                Some(ErrorView::Forbidden("tunnel port owned by another host"@))
            })
        }),
{
    let c = tenant::create_host_outcome(config, db, req, id, now).0[0];
    change::lemma_replay_one(db, c);
    table::lemma_first_push(db.hosts, c->InsertHost_0, db::has_port(req.port));
}

/// When the registration of a host is removed, its port is as if it had never
/// been registered: it can be registered again, and a tenant cannot claim it.
pub proof fn law_removed_host_frees_its_port(
    config: Config,
    db: DbView,
    host: HostView,
    tenant: Seq<char>,
)
    requires
        consistency::consistent(db),
        db.hosts.contains(host),
    ensures
        ({
            let after = change::apply(db, ChangeView::RemoveHost { id: host.id });
            &&& table::first(after.hosts, db::has_port(host.port)) is None
            &&& tenant != DEFAULT_TENANT@ ==> pair::port_refusal(
                config,
                after,
                (tenant, false),
                tenant,
                host.port,
            ) == Some(
                ErrorView::Forbidden(
                    "no host registered for this port; ask the operator to register it"@,
                ),
            )
        }),
{
    let keep = |h: HostView| h.id != host.id;
    let after = change::apply(db, ChangeView::RemoveHost { id: host.id });
    table::lemma_first_holds(after.hosts, db::has_port(host.port));
    if let Some(found) = table::first(after.hosts, db::has_port(host.port)) {
        let k = after.hosts.index_of(found);
        db.hosts.lemma_filter_pred(keep, k);
        table::lemma_filter_from(db.hosts, keep);
        let i = db.hosts.index_of(found);
        let j = db.hosts.index_of(host);
        assert(db.hosts[i] == found && db.hosts[j] == host);
        assert(i != j);
    }
}

// ---- what a tenant is shown -----------------------------------------------

/// A tenant that asks about a code or lists tokens is shown no token of another,
/// and no pairing that waits for another.
pub proof fn law_tenants_are_shown_their_own(
    db: DbView,
    tenant: Seq<char>,
    code: Seq<char>,
    online: Set<Seq<char>>,
)
    ensures
        match admin::status_outcome(db, (tenant, false), Some(code)) {
            Ok(s) => {
                let p = db::latest_pairing(db, split::plain_code(code))->0;
                &&& p.tenant_id.len() == 0 || p.tenant_id == tenant
                &&& s.token is Some ==> ({
                    let (row, host_ref) = s.token->0;
                    row.tenant_id == tenant
                })
            },
            Err(e) => e == ErrorView::NotFound("no pairing with this code"@),
        },
        forall|i: int|
            0 <= i < admin::tokens_shown(db, (tenant, false), online).len() ==> (
            #[trigger] admin::tokens_shown(db, (tenant, false), online)[i]).row.tenant_id
                == tenant,
{
    auth::law_tenants_see_their_own(db, tenant);
}

// ---- time -----------------------------------------------------------------

/// Sweeping twice at one time is sweeping once, and what an earlier sweep does a
/// later one does too.
pub proof fn law_sweeping_is_settled(db: DbView, a: i64, b: i64)
    requires
        a <= b,
    ensures
        change::apply(change::apply(db, ChangeView::Sweep { now: a }), ChangeView::Sweep { now: b })
            == change::apply(db, ChangeView::Sweep { now: b }),
{
    consistency::lemma_status_words();
    let x = change::apply(db, ChangeView::Sweep { now: a });
    let y = change::apply(x, ChangeView::Sweep { now: b });
    let z = change::apply(db, ChangeView::Sweep { now: b });
    assert(y.pairings =~= z.pairings);
    assert(y.claims =~= z.claims);
}

} // verus!
