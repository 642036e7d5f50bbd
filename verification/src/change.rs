//! Changes: every write to the register is one of these, and the register is
//! what its changes, applied in order, make of an empty one.
use vstd::prelude::*;

use crate::rows::{
    ClaimRow, ClaimView, HostRow, HostView, PairingRow, PairingView, TenantRow, TenantView, TokenRow,
    TokenView,
};

verus! {

/// The contents of the register. A tenant is held with the digest of its key,
/// the web password with its version. `web_version` is the highest version that
/// a web password has had, also where it was removed. When it was set stands in
/// the change alone, since nothing reads it.
pub struct DbView {
    pub tokens: Seq<TokenView>,
    pub pairings: Seq<PairingView>,
    pub claims: Seq<ClaimView>,
    pub tenants: Seq<(TenantView, Seq<char>)>,
    pub hosts: Seq<HostView>,
    pub web_password: Option<(Seq<char>, i64)>,
    pub web_version: i64,
}

/// The register without a row.
pub open spec fn empty() -> DbView {
    DbView {
        tokens: Seq::empty(),
        pairings: Seq::empty(),
        claims: Seq::empty(),
        tenants: Seq::empty(),
        hosts: Seq::empty(),
        web_password: None,
        web_version: 0,
    }
}

/// One change to the register.
#[derive(Debug)]
pub enum Change {
    InsertToken(TokenRow),
    /// Revoke the token with this id, whoever owns it.
    RevokeToken { jti: String },
    /// Revoke the token with this id where it belongs to this tenant.
    RevokeTokenInTenant { jti: String, tenant_id: String },
    TouchToken { jti: String, at: i64 },
    InsertPairing(PairingRow),
    SetPairingStatus { id: String, status: String },
    SetPairingToken { id: String, jti: String },
    /// Mark as expired what was due before this time.
    Sweep { now: i64 },
    InsertClaim(ClaimRow),
    /// Consume the claim with this id where it is still offered.
    ConsumeClaim { id: String },
    InsertTenant { row: TenantRow, admin_key_hash: String },
    SetTenantRevoked { id: String, revoked: bool },
    InsertHost(HostRow),
    RemoveHost { id: String },
    SetWebPassword { hash: String, version: i64, at: i64 },
    ClearWebPassword,
}

pub enum ChangeView {
    InsertToken(TokenView),
    RevokeToken { jti: Seq<char> },
    RevokeTokenInTenant { jti: Seq<char>, tenant_id: Seq<char> },
    TouchToken { jti: Seq<char>, at: i64 },
    InsertPairing(PairingView),
    SetPairingStatus { id: Seq<char>, status: Seq<char> },
    SetPairingToken { id: Seq<char>, jti: Seq<char> },
    Sweep { now: i64 },
    InsertClaim(ClaimView),
    ConsumeClaim { id: Seq<char> },
    InsertTenant { row: TenantView, admin_key_hash: Seq<char> },
    SetTenantRevoked { id: Seq<char>, revoked: bool },
    InsertHost(HostView),
    RemoveHost { id: Seq<char> },
    SetWebPassword { hash: Seq<char>, version: i64, at: i64 },
    ClearWebPassword,
}

impl View for Change {
    type V = ChangeView;

    open spec fn view(&self) -> ChangeView {
        match self {
            Change::InsertToken(row) => ChangeView::InsertToken(row@),
            Change::RevokeToken { jti } => ChangeView::RevokeToken { jti: jti@ },
            Change::RevokeTokenInTenant { jti, tenant_id } => ChangeView::RevokeTokenInTenant {
                jti: jti@,
                tenant_id: tenant_id@,
            },
            Change::TouchToken { jti, at } => ChangeView::TouchToken { jti: jti@, at: *at },
            Change::InsertPairing(row) => ChangeView::InsertPairing(row@),
            Change::SetPairingStatus { id, status } => ChangeView::SetPairingStatus {
                id: id@,
                status: status@,
            },
            Change::SetPairingToken { id, jti } => ChangeView::SetPairingToken {
                id: id@,
                jti: jti@,
            },
            Change::Sweep { now } => ChangeView::Sweep { now: *now },
            Change::InsertClaim(row) => ChangeView::InsertClaim(row@),
            Change::ConsumeClaim { id } => ChangeView::ConsumeClaim { id: id@ },
            Change::InsertTenant { row, admin_key_hash } => ChangeView::InsertTenant {
                row: row@,
                admin_key_hash: admin_key_hash@,
            },
            Change::SetTenantRevoked { id, revoked } => ChangeView::SetTenantRevoked {
                id: id@,
                revoked: *revoked,
            },
            Change::InsertHost(row) => ChangeView::InsertHost(row@),
            Change::RemoveHost { id } => ChangeView::RemoveHost { id: id@ },
            Change::SetWebPassword { hash, version, at } => ChangeView::SetWebPassword {
                hash: hash@,
                version: *version,
                at: *at,
            },
            Change::ClearWebPassword => ChangeView::ClearWebPassword,
        }
    }
}

// ---- what a change does ---------------------------------------------------

pub open spec fn token_revoked(t: TokenView, jti: Seq<char>) -> TokenView {
    if t.jti == jti {
        TokenView { revoked: true, ..t }
    } else {
        t
    }
}

pub open spec fn token_revoked_in(t: TokenView, jti: Seq<char>, tenant: Seq<char>) -> TokenView {
    if t.jti == jti && t.tenant_id == tenant {
        TokenView { revoked: true, ..t }
    } else {
        t
    }
}

pub open spec fn token_touched(t: TokenView, jti: Seq<char>, at: i64) -> TokenView {
    if t.jti == jti {
        TokenView { last_used_at: Some(at), ..t }
    } else {
        t
    }
}

pub open spec fn pairing_marked(p: PairingView, id: Seq<char>, status: Seq<char>) -> PairingView {
    if p.id == id {
        PairingView { status, ..p }
    } else {
        p
    }
}

pub open spec fn pairing_bound(p: PairingView, id: Seq<char>, jti: Seq<char>) -> PairingView {
    if p.id == id {
        PairingView { token_jti: jti, ..p }
    } else {
        p
    }
}

pub open spec fn pairing_swept(p: PairingView, now: i64) -> PairingView {
    if p.status == "pending"@ && p.expires_at < now {
        PairingView { status: "expired"@, ..p }
    } else {
        p
    }
}

pub open spec fn claim_swept(c: ClaimView, now: i64) -> ClaimView {
    if c.status == "offered"@ && c.expires_at < now {
        ClaimView { status: "expired"@, ..c }
    } else {
        c
    }
}

pub open spec fn claim_consumed(c: ClaimView, id: Seq<char>) -> ClaimView {
    if c.id == id && c.status == "offered"@ {
        ClaimView { status: "consumed"@, ..c }
    } else {
        c
    }
}

pub open spec fn tenant_marked(
    t: (TenantView, Seq<char>),
    id: Seq<char>,
    revoked: bool,
) -> (TenantView, Seq<char>) {
    if t.0.id == id {
        (TenantView { revoked, ..t.0 }, t.1)
    } else {
        t
    }
}

/// The register after one change.
pub open spec fn apply(db: DbView, change: ChangeView) -> DbView {
    match change {
        ChangeView::InsertToken(row) => DbView { tokens: db.tokens.push(row), ..db },
        ChangeView::RevokeToken { jti } => DbView {
            tokens: db.tokens.map_values(|t: TokenView| token_revoked(t, jti)),
            ..db
        },
        ChangeView::RevokeTokenInTenant { jti, tenant_id } => DbView {
            tokens: db.tokens.map_values(|t: TokenView| token_revoked_in(t, jti, tenant_id)),
            ..db
        },
        ChangeView::TouchToken { jti, at } => DbView {
            tokens: db.tokens.map_values(|t: TokenView| token_touched(t, jti, at)),
            ..db
        },
        ChangeView::InsertPairing(row) => DbView { pairings: db.pairings.push(row), ..db },
        ChangeView::SetPairingStatus { id, status } => DbView {
            pairings: db.pairings.map_values(|p: PairingView| pairing_marked(p, id, status)),
            ..db
        },
        ChangeView::SetPairingToken { id, jti } => DbView {
            pairings: db.pairings.map_values(|p: PairingView| pairing_bound(p, id, jti)),
            ..db
        },
        ChangeView::Sweep { now } => DbView {
            pairings: db.pairings.map_values(|p: PairingView| pairing_swept(p, now)),
            claims: db.claims.map_values(|c: ClaimView| claim_swept(c, now)),
            ..db
        },
        ChangeView::InsertClaim(row) => DbView { claims: db.claims.push(row), ..db },
        ChangeView::ConsumeClaim { id } => DbView {
            claims: db.claims.map_values(|c: ClaimView| claim_consumed(c, id)),
            ..db
        },
        ChangeView::InsertTenant { row, admin_key_hash } => DbView {
            tenants: db.tenants.push((row, admin_key_hash)),
            ..db
        },
        ChangeView::SetTenantRevoked { id, revoked } => DbView {
            tenants: db.tenants.map_values(
                |t: (TenantView, Seq<char>)| tenant_marked(t, id, revoked),
            ),
            ..db
        },
        ChangeView::InsertHost(row) => DbView { hosts: db.hosts.push(row), ..db },
        ChangeView::RemoveHost { id } => DbView {
            hosts: db.hosts.filter(|h: HostView| h.id != id),
            ..db
        },
        ChangeView::SetWebPassword { hash, version, at } => DbView {
            web_password: Some((hash, version)),
            web_version: if version > db.web_version {
                version
            } else {
                db.web_version
            },
            ..db
        },
        ChangeView::ClearWebPassword => DbView { web_password: None, ..db },
    }
}

/// The register after a row of changes.
pub open spec fn replay(db: DbView, changes: Seq<ChangeView>) -> DbView
    decreases changes.len(),
{
    if changes.len() == 0 {
        db
    } else {
        apply(replay(db, changes.drop_last()), changes.last())
    }
}

/// Replaying two rows of changes one after the other is replaying them joined.
pub proof fn law_replay_joins(db: DbView, a: Seq<ChangeView>, b: Seq<ChangeView>)
    ensures
        replay(db, a + b) == replay(replay(db, a), b),
    decreases b.len(),
{
    if b.len() > 0 {
        assert((a + b).drop_last() == a + b.drop_last());
        law_replay_joins(db, a, b.drop_last());
    } else {
        assert(a + b == a);
    }
}

pub proof fn lemma_replay_one(db: DbView, c: ChangeView)
    ensures
        replay(db, seq![c]) == apply(db, c),
{
    assert(seq![c].drop_last() == Seq::<ChangeView>::empty());
    assert(replay(db, Seq::<ChangeView>::empty()) == db);
}

/// What each change to a token does, row by row: a revocation marks the rows with
/// its id, and where it is a tenant's only those of that tenant; a use notes its
/// time. Everything else of every row stays.
pub proof fn law_token_changes(
    db: DbView,
    jti: Seq<char>,
    tenant_id: Seq<char>,
    at: i64,
    i: int,
)
    requires
        0 <= i < db.tokens.len(),
    ensures
        ({
            let t = db.tokens[i];
            let revoked = apply(db, ChangeView::RevokeToken { jti });
            let revoked_in = apply(db, ChangeView::RevokeTokenInTenant { jti, tenant_id });
            let touched = apply(db, ChangeView::TouchToken { jti, at });
            &&& revoked.tokens.len() == db.tokens.len() && revoked_in.tokens.len()
                == db.tokens.len() && touched.tokens.len() == db.tokens.len()
            &&& revoked.tokens[i] == (TokenView { revoked: t.revoked || t.jti == jti, ..t })
            &&& revoked_in.tokens[i] == (TokenView {
                revoked: t.revoked || (t.jti == jti && t.tenant_id == tenant_id),
                ..t
            })
            &&& touched.tokens[i] == (TokenView {
                last_used_at: if t.jti == jti {
                    Some(at)
                } else {
                    t.last_used_at
                },
                ..t
            })
        }),
{
}

/// What each change to a pairing does, row by row.
pub proof fn law_pairing_changes(
    db: DbView,
    id: Seq<char>,
    status: Seq<char>,
    jti: Seq<char>,
    now: i64,
    i: int,
)
    requires
        0 <= i < db.pairings.len(),
    ensures
        ({
            let p = db.pairings[i];
            let marked = apply(db, ChangeView::SetPairingStatus { id, status });
            let bound = apply(db, ChangeView::SetPairingToken { id, jti });
            let swept = apply(db, ChangeView::Sweep { now });
            &&& marked.pairings.len() == db.pairings.len() && bound.pairings.len()
                == db.pairings.len() && swept.pairings.len() == db.pairings.len()
            &&& marked.pairings[i] == (PairingView {
                status: if p.id == id {
                    status
                } else {
                    p.status
                },
                ..p
            })
            &&& bound.pairings[i] == (PairingView {
                token_jti: if p.id == id {
                    jti
                } else {
                    p.token_jti
                },
                ..p
            })
            &&& swept.pairings[i] == (PairingView {
                status: if p.status == "pending"@ && p.expires_at < now {
                    "expired"@
                } else {
                    p.status
                },
                ..p
            })
        }),
{
}

/// What each change to a claim does, row by row.
pub proof fn law_claim_changes(db: DbView, id: Seq<char>, now: i64, i: int)
    requires
        0 <= i < db.claims.len(),
    ensures
        ({
            let c = db.claims[i];
            let consumed = apply(db, ChangeView::ConsumeClaim { id });
            let swept = apply(db, ChangeView::Sweep { now });
            &&& consumed.claims.len() == db.claims.len() && swept.claims.len() == db.claims.len()
            &&& consumed.claims[i] == (ClaimView {
                status: if c.id == id && c.status == "offered"@ {
                    "consumed"@
                } else {
                    c.status
                },
                ..c
            })
            &&& swept.claims[i] == (ClaimView {
                status: if c.status == "offered"@ && c.expires_at < now {
                    "expired"@
                } else {
                    c.status
                },
                ..c
            })
        }),
{
}

/// What each change to a tenant or a host does.
pub proof fn law_tenant_and_host_changes(
    db: DbView,
    id: Seq<char>,
    revoked: bool,
    i: int,
    h: HostView,
)
    requires
        0 <= i < db.tenants.len(),
    ensures
        ({
            let t = db.tenants[i];
            let marked = apply(db, ChangeView::SetTenantRevoked { id, revoked });
            let removed = apply(db, ChangeView::RemoveHost { id });
            &&& marked.tenants.len() == db.tenants.len()
            &&& marked.tenants[i] == (
                TenantView {
                    revoked: if t.0.id == id {
                        revoked
                    } else {
                        t.0.revoked
                    },
                    ..t.0
                },
                t.1,
            )
            &&& removed.hosts.contains(h) <==> db.hosts.contains(h) && h.id != id
        }),
{
    broadcast use vstd::seq_lib::group_filter_ensures;

    let p = |h: HostView| h.id != id;
    let kept = db.hosts.filter(p);
    crate::table::lemma_filter_from(db.hosts, p);
    if kept.contains(h) {
        let k = kept.index_of(h);
        db.hosts.lemma_filter_pred(p, k);
        assert(db.hosts.contains(kept[k]));
    }
    if db.hosts.contains(h) && h.id != id {
        assert(p(h));
    }
}

/// A row that is written down stands at the end of its table, as it was given.
pub proof fn law_rows_are_added_at_the_end(
    db: DbView,
    token: TokenView,
    pairing: PairingView,
    claim: ClaimView,
    tenant: TenantView,
    key_hash: Seq<char>,
    host: HostView,
)
    ensures
        apply(db, ChangeView::InsertToken(token)) == (DbView {
            tokens: db.tokens + seq![token],
            ..db
        }),
        apply(db, ChangeView::InsertPairing(pairing)) == (DbView {
            pairings: db.pairings + seq![pairing],
            ..db
        }),
        apply(db, ChangeView::InsertClaim(claim)) == (DbView {
            claims: db.claims + seq![claim],
            ..db
        }),
        apply(db, ChangeView::InsertTenant { row: tenant, admin_key_hash: key_hash }) == (DbView {
            tenants: db.tenants + seq![(tenant, key_hash)],
            ..db
        }),
        apply(db, ChangeView::InsertHost(host)) == (DbView {
            hosts: db.hosts + seq![host],
            ..db
        }),
{
    assert(db.tokens + seq![token] =~= db.tokens.push(token));
    assert(db.pairings + seq![pairing] =~= db.pairings.push(pairing));
    assert(db.claims + seq![claim] =~= db.claims.push(claim));
    assert(db.tenants + seq![(tenant, key_hash)] =~= db.tenants.push((tenant, key_hash)));
    assert(db.hosts + seq![host] =~= db.hosts.push(host));
}

/// A change touches the table that it is about and no other.
pub proof fn law_changes_stay_in_their_table(db: DbView, c: ChangeView)
    ensures
        ({
            let after = apply(db, c);
            let of_tokens = c is InsertToken || c is RevokeToken || c is RevokeTokenInTenant || c
                is TouchToken;
            let of_pairings = c is InsertPairing || c is SetPairingStatus || c is SetPairingToken
                || c is Sweep;
            let of_claims = c is InsertClaim || c is ConsumeClaim || c is Sweep;
            let of_tenants = c is InsertTenant || c is SetTenantRevoked;
            let of_hosts = c is InsertHost || c is RemoveHost;
            let of_web = c is SetWebPassword || c is ClearWebPassword;
            &&& !of_tokens ==> after.tokens == db.tokens
            &&& !of_pairings ==> after.pairings == db.pairings
            &&& !of_claims ==> after.claims == db.claims
            &&& !of_tenants ==> after.tenants == db.tenants
            &&& !of_hosts ==> after.hosts == db.hosts
            &&& !of_web ==> after.web_password == db.web_password
            &&& !(c is SetWebPassword) ==> after.web_version == db.web_version
        }),
{
}

/// The web password is set with its version, and removed without freeing it.
pub proof fn law_web_password_is_kept(db: DbView, hash: Seq<char>, version: i64, at: i64)
    ensures
        apply(db, ChangeView::SetWebPassword { hash, version, at }).web_password == Some(
            (hash, version),
        ),
        version > db.web_version ==> apply(
            db,
            ChangeView::SetWebPassword { hash, version, at },
        ).web_version == version,
        apply(db, ChangeView::ClearWebPassword).web_password is None,
        apply(db, ChangeView::ClearWebPassword).web_version == db.web_version,
{
}

} // verus!
