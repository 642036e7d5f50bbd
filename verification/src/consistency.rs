//! What every change keeps: ids are used once, a port has one host, and a code
//! that waits is held by one pairing.
use vstd::prelude::*;

use crate::admin;
use crate::auth;
use crate::auth::LoginRequest;
use crate::change;
use crate::change::{ChangeView, DbView};
use crate::config::Config;
use crate::db;
use crate::http::FieldView;
use crate::pair;
use crate::pair::{AdminClaimRequest, PairConfirmRequest, PairPollRequest, PairStartRequest};
use crate::rows::HostView;
use crate::table;
use crate::tenant;
use crate::tenant::HostCreateRequest;
use crate::web;
use crate::web::WebPasswordRequest;

verus! {

/// The register is consistent.
pub open spec fn consistent(db: DbView) -> bool {
    &&& forall|i: int, j: int|
        0 <= i < j < db.tokens.len() ==> (#[trigger] db.tokens[i]).jti != (
        #[trigger] db.tokens[j]).jti
    &&& forall|i: int, j: int|
        0 <= i < j < db.pairings.len() ==> (#[trigger] db.pairings[i]).id != (
        #[trigger] db.pairings[j]).id
    &&& forall|i: int, j: int|
        0 <= i < j < db.pairings.len() ==> !((#[trigger] db.pairings[i]).code_d == (
        #[trigger] db.pairings[j]).code_d && db.pairings[i].status == "pending"@
            && db.pairings[j].status == "pending"@)
    &&& forall|i: int, j: int|
        0 <= i < j < db.claims.len() ==> (#[trigger] db.claims[i]).id != (
        #[trigger] db.claims[j]).id
    &&& forall|i: int, j: int|
        0 <= i < j < db.tenants.len() ==> (#[trigger] db.tenants[i]).0.id != (
        #[trigger] db.tenants[j]).0.id
    &&& forall|i: int, j: int|
        0 <= i < j < db.hosts.len() ==> (#[trigger] db.hosts[i]).id != (
        #[trigger] db.hosts[j]).id && db.hosts[i].port != db.hosts[j].port
    &&& db.web_version >= 0
    &&& match db.web_password {
        Some(w) => 1 <= w.1 && w.1 == db.web_version,
        None => true,
    }
}

/// A change that the register may make.
pub open spec fn admissible(db: DbView, c: ChangeView) -> bool {
    match c {
        ChangeView::InsertToken(row) => table::first(db.tokens, db::has_jti(row.jti)) is None,
        ChangeView::InsertPairing(row) => {
            &&& table::first(db.pairings, db::has_pairing_id(row.id)) is None
            &&& table::first(db.pairings, db::is_pending_with(row.code_d)) is None
        },
        ChangeView::SetPairingStatus { id, status } => status != "pending"@,
        ChangeView::InsertClaim(row) => table::first(db.claims, db::has_claim_id(row.id)) is None,
        ChangeView::InsertTenant { row, admin_key_hash } => table::first(
            db.tenants,
            db::has_tenant_id(row.id),
        ) is None,
        ChangeView::InsertHost(row) => {
            &&& table::first(db.hosts, db::has_host_id(row.id)) is None
            &&& table::first(db.hosts, db::has_port(row.port)) is None
        },
        ChangeView::SetWebPassword { hash, version, at } => version == db.web_version + 1,
        _ => true,
    }
}

/// A row of changes that the register may make one after the other.
pub open spec fn all_admissible(db: DbView, changes: Seq<ChangeView>) -> bool
    decreases changes.len(),
{
    if changes.len() == 0 {
        true
    } else {
        &&& all_admissible(db, changes.drop_last())
        &&& admissible(change::replay(db, changes.drop_last()), changes.last())
    }
}

/// The register is consistent at the start.
pub proof fn law_empty_register_is_consistent()
    ensures
        consistent(change::empty()),
{
}

pub proof fn lemma_status_words()
    ensures
        "pending"@ != "expired"@,
        "pending"@ != "confirmed"@,
        "offered"@ != "expired"@,
        "offered"@ != "consumed"@,
        "expired"@ != "confirmed"@,
{
    reveal_strlit("pending");
    reveal_strlit("expired");
    reveal_strlit("confirmed");
    reveal_strlit("offered");
    reveal_strlit("consumed");
    assert("pending"@[0] == 'p' && "expired"@[0] == 'e' && "confirmed"@[0] == 'c' && "offered"@[0]
        == 'o' && "consumed"@[0] == 'c');
}

/// A change that the register may make keeps it consistent.
pub proof fn law_change_keeps_consistency(db: DbView, c: ChangeView)
    requires
        consistent(db),
        admissible(db, c),
    ensures
        consistent(change::apply(db, c)),
{
    let after = change::apply(db, c);
    lemma_status_words();
    match c {
        ChangeView::InsertToken(row) => {
            table::lemma_first_holds(db.tokens, db::has_jti(row.jti));
            assert forall|i: int, j: int| 0 <= i < j < after.tokens.len() implies (
            #[trigger] after.tokens[i]).jti != (#[trigger] after.tokens[j]).jti by {
                if j == db.tokens.len() {
                    assert(!db::has_jti(row.jti)(db.tokens[i]));
                }
            }
        },
        ChangeView::InsertPairing(row) => {
            table::lemma_first_holds(db.pairings, db::has_pairing_id(row.id));
            table::lemma_first_holds(db.pairings, db::is_pending_with(row.code_d));
            assert forall|i: int, j: int| 0 <= i < j < after.pairings.len() implies (
            #[trigger] after.pairings[i]).id != (#[trigger] after.pairings[j]).id by {
                if j == db.pairings.len() {
                    assert(!db::has_pairing_id(row.id)(db.pairings[i]));
                }
            }
            assert forall|i: int, j: int| 0 <= i < j < after.pairings.len() implies !((
            #[trigger] after.pairings[i]).code_d == (#[trigger] after.pairings[j]).code_d
                && after.pairings[i].status == "pending"@ && after.pairings[j].status
                == "pending"@) by {
                if j == db.pairings.len() {
                    assert(!db::is_pending_with(row.code_d)(db.pairings[i]));
                }
            }
        },
        ChangeView::InsertClaim(row) => {
            table::lemma_first_holds(db.claims, db::has_claim_id(row.id));
            assert forall|i: int, j: int| 0 <= i < j < after.claims.len() implies (
            #[trigger] after.claims[i]).id != (#[trigger] after.claims[j]).id by {
                if j == db.claims.len() {
                    assert(!db::has_claim_id(row.id)(db.claims[i]));
                }
            }
        },
        ChangeView::InsertTenant { row, admin_key_hash } => {
            table::lemma_first_holds(db.tenants, db::has_tenant_id(row.id));
            assert forall|i: int, j: int| 0 <= i < j < after.tenants.len() implies (
            #[trigger] after.tenants[i]).0.id != (#[trigger] after.tenants[j]).0.id by {
                if j == db.tenants.len() {
                    assert(!db::has_tenant_id(row.id)(db.tenants[i]));
                }
            }
        },
        ChangeView::InsertHost(row) => {
            table::lemma_first_holds(db.hosts, db::has_host_id(row.id));
            table::lemma_first_holds(db.hosts, db::has_port(row.port));
            assert forall|i: int, j: int| 0 <= i < j < after.hosts.len() implies (
            #[trigger] after.hosts[i]).id != (#[trigger] after.hosts[j]).id && after.hosts[i].port
                != after.hosts[j].port by {
                if j == db.hosts.len() {
                    assert(!db::has_host_id(row.id)(db.hosts[i]));
                    assert(!db::has_port(row.port)(db.hosts[i]));
                }
            }
        },
        ChangeView::RemoveHost { id } => {
            lemma_filter_keeps_hosts_apart(db.hosts, id);
        },
        _ => {},
    }
}

proof fn lemma_filter_keeps_hosts_apart(hosts: Seq<HostView>, id: Seq<char>)
    requires
        forall|i: int, j: int|
            0 <= i < j < hosts.len() ==> (#[trigger] hosts[i]).id != (#[trigger] hosts[j]).id
                && hosts[i].port != hosts[j].port,
    ensures
        ({
            let kept = hosts.filter(|h: HostView| h.id != id);
            &&& forall|i: int, j: int|
                0 <= i < j < kept.len() ==> (#[trigger] kept[i]).id != (#[trigger] kept[j]).id
                    && kept[i].port != kept[j].port
            &&& forall|i: int| 0 <= i < kept.len() ==> hosts.contains(#[trigger] kept[i])
        }),
    decreases hosts.len(),
{
    reveal(Seq::filter);
    let p = |h: HostView| h.id != id;
    if hosts.len() > 0 {
        let init = hosts.drop_last();
        lemma_filter_keeps_hosts_apart(init, id);
        let kept = init.filter(p);
        let all = hosts.filter(p);
        table::lemma_filter_from(hosts, p);
        if p(hosts.last()) {
            assert(all == kept.push(hosts.last()));
            assert forall|i: int, j: int| 0 <= i < j < all.len() implies (#[trigger] all[i]).id != (
            #[trigger] all[j]).id && all[i].port != all[j].port by {
                if j == kept.len() {
                    let k = init.index_of(kept[i]);
                    assert(init[k] == kept[i]);
                    assert(hosts[k].id != hosts[hosts.len() - 1].id);
                }
            }
        }
    }
}

/// Changes that the register may make keep it consistent.
pub proof fn law_changes_keep_consistency(db: DbView, changes: Seq<ChangeView>)
    requires
        consistent(db),
        all_admissible(db, changes),
    ensures
        consistent(change::replay(db, changes)),
    decreases changes.len(),
{
    if changes.len() > 0 {
        law_changes_keep_consistency(db, changes.drop_last());
        law_change_keeps_consistency(change::replay(db, changes.drop_last()), changes.last());
    }
}

proof fn lemma_one(db: DbView, c: ChangeView)
    ensures
        all_admissible(db, seq![c]) == admissible(db, c),
{
    assert(seq![c].drop_last() =~= Seq::<ChangeView>::empty());
    assert(all_admissible(db, Seq::<ChangeView>::empty()));
    assert(change::replay(db, Seq::<ChangeView>::empty()) == db);
}

/// Whatever is asked leads to changes that the register may make, and it stays
/// consistent: logging in, using and revoking tokens.
pub proof fn law_token_requests_keep_consistency(
    config: Config,
    db: DbView,
    req: LoginRequest,
    fields: Seq<FieldView>,
    ctx: (Seq<char>, bool),
    jti: Seq<char>,
    now: i64,
)
    requires
        consistent(db),
    ensures
        all_admissible(db, auth::login_outcome(config, db, req, jti, now).0),
        all_admissible(db, auth::auth_outcome(db, config.jwt_secret@, fields, now).0),
        all_admissible(db, admin::admin_revoke_outcome(db, ctx, jti).0),
        consistent(change::replay(db, auth::login_outcome(config, db, req, jti, now).0)),
        consistent(change::replay(db, auth::auth_outcome(db, config.jwt_secret@, fields, now).0)),
        consistent(change::replay(db, admin::admin_revoke_outcome(db, ctx, jti).0)),
{
    let a = auth::login_outcome(config, db, req, jti, now).0;
    let b = auth::auth_outcome(db, config.jwt_secret@, fields, now).0;
    let c = admin::admin_revoke_outcome(db, ctx, jti).0;
    if a.len() > 0 {
        lemma_one(db, a[0]);
        assert(a =~= seq![a[0]]);
    }
    if b.len() > 0 {
        lemma_one(db, b[0]);
        assert(b =~= seq![b[0]]);
    }
    lemma_one(db, c[0]);
    assert(c =~= seq![c[0]]);
    law_changes_keep_consistency(db, a);
    law_changes_keep_consistency(db, b);
    law_changes_keep_consistency(db, c);
}

/// Whatever is asked leads to changes that the register may make, and it stays
/// consistent: registering tenants and hosts, and setting the web password.
pub proof fn law_operator_requests_keep_consistency(
    config: Config,
    db: DbView,
    name: Seq<char>,
    host: HostCreateRequest,
    password: WebPasswordRequest,
    id: Seq<char>,
    key: Seq<char>,
    now: i64,
)
    requires
        consistent(db),
    ensures
        all_admissible(db, tenant::create_tenant_outcome(db, name, id, key, now).0),
        all_admissible(db, tenant::revoke_tenant_outcome(db, id).0),
        all_admissible(db, tenant::create_host_outcome(config, db, host, id, now).0),
        all_admissible(db, seq![ChangeView::RemoveHost { id }]),
        all_admissible(db, web::password_outcome(db, password, key, now).0),
        consistent(change::replay(db, tenant::create_tenant_outcome(db, name, id, key, now).0)),
        consistent(change::replay(db, tenant::revoke_tenant_outcome(db, id).0)),
        consistent(change::replay(db, tenant::create_host_outcome(config, db, host, id, now).0)),
        consistent(change::replay(db, seq![ChangeView::RemoveHost { id }])),
        consistent(change::replay(db, web::password_outcome(db, password, key, now).0)),
{
    let a = tenant::create_tenant_outcome(db, name, id, key, now).0;
    let b = tenant::revoke_tenant_outcome(db, id).0;
    let c = tenant::create_host_outcome(config, db, host, id, now).0;
    let d = seq![ChangeView::RemoveHost { id }];
    let e = web::password_outcome(db, password, key, now).0;
    if a.len() > 0 {
        lemma_one(db, a[0]);
        assert(a =~= seq![a[0]]);
    }
    if b.len() > 0 {
        lemma_one(db, b[0]);
        assert(b =~= seq![b[0]]);
    }
    if c.len() > 0 {
        lemma_one(db, c[0]);
        assert(c =~= seq![c[0]]);
    }
    lemma_one(db, d[0]);
    if e.len() > 0 {
        lemma_one(db, e[0]);
        assert(e =~= seq![e[0]]);
    }
    law_changes_keep_consistency(db, a);
    law_changes_keep_consistency(db, b);
    law_changes_keep_consistency(db, c);
    law_changes_keep_consistency(db, d);
    law_changes_keep_consistency(db, e);
}

/// Whatever is asked leads to changes that the register may make, and it stays
/// consistent: starting, answering, following and confirming a pairing.
pub proof fn law_pairing_requests_keep_consistency(
    config: Config,
    db: DbView,
    start: PairStartRequest,
    poll: PairPollRequest,
    confirm: PairConfirmRequest,
    claim: AdminClaimRequest,
    ctx: (Seq<char>, bool),
    id: Seq<char>,
    now: i64,
)
    requires
        consistent(db),
    ensures
        all_admissible(db, pair::start_outcome(db, start, id, now).0),
        all_admissible(db, pair::poll_outcome(db, poll, now).0),
        all_admissible(db, pair::confirm_outcome(config, db, confirm, id, now).0),
        all_admissible(db, pair::claim_outcome(config, db, ctx, claim, id, now).0),
        consistent(change::replay(db, pair::start_outcome(db, start, id, now).0)),
        consistent(change::replay(db, pair::poll_outcome(db, poll, now).0)),
        consistent(change::replay(db, pair::confirm_outcome(config, db, confirm, id, now).0)),
        consistent(change::replay(db, pair::claim_outcome(config, db, ctx, claim, id, now).0)),
{
    lemma_status_words();
    let sweep = ChangeView::Sweep { now };
    lemma_one(db, sweep);
    change::lemma_replay_one(db, sweep);
    let a = pair::start_outcome(db, start, id, now).0;
    if a.len() == 2 {
        let swept = change::apply(db, sweep);
        assert(a.drop_last() =~= seq![sweep]);
        let row = a[1]->InsertPairing_0;
        table::lemma_first_holds(swept.pairings, db::blocks_code(row.code_d, now));
        table::lemma_first_holds(swept.pairings, db::is_pending_with(row.code_d));
        assert(table::first(swept.pairings, db::is_pending_with(row.code_d)) is None) by {
            if let Some(p) = table::first(swept.pairings, db::is_pending_with(row.code_d)) {
                let k = swept.pairings.index_of(p);
                assert(db::blocks_code(row.code_d, now)(swept.pairings[k]));
            }
        }
        assert(a.last() == a[1]);
        assert(admissible(swept, a[1]));
    } else if a.len() == 1 {
        assert(a =~= seq![sweep]);
    }
    law_changes_keep_consistency(db, a);
    let b = pair::poll_outcome(db, poll, now).0;
    if b.len() > 0 {
        assert(b =~= seq![sweep]);
    }
    law_changes_keep_consistency(db, b);
    let d = pair::claim_outcome(config, db, ctx, claim, id, now).0;
    if d.len() > 0 {
        lemma_one(db, d[0]);
        assert(d =~= seq![d[0]]);
    }
    law_changes_keep_consistency(db, d);
    let c = pair::confirm_outcome(config, db, confirm, id, now).0;
    let t = pair::taken(confirm, id);
    lemma_taken_is_admissible(db, confirm, id);
    if c.len() == 4 {
        assert(c.drop_last() =~= t);
        pair::lemma_taken_keeps_tokens(db, confirm, id);
        assert(c.last() == c[3]);
    } else if c.len() == 3 {
        assert(c =~= t);
    }
    law_changes_keep_consistency(db, c);
}

proof fn lemma_taken_is_admissible(db: DbView, req: PairConfirmRequest, jti: Seq<char>)
    ensures
        all_admissible(db, pair::taken(req, jti)),
{
    lemma_status_words();
    let t = pair::taken(req, jti);
    let t2 = t.drop_last();
    let t1 = t2.drop_last();
    assert(t1.drop_last() =~= Seq::<ChangeView>::empty());
    assert(all_admissible(db, t1.drop_last()));
    assert(all_admissible(db, t1));
    assert(all_admissible(db, t2));
}

} // verus!
