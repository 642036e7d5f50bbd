//! The register: issued tokens, pairings that phones have started, claims that
//! Macs have made on them, tenants, hosts and the web password.
//!
//! The tables are held in memory. Every write is a `Change`, which is also kept
//! in a journal; whoever stores the register writes the journal out, change by
//! change, and at the next start applies what it stored.
use vstd::prelude::*;

use crate::change;
use crate::change::{Change, ChangeView, DbView};
use crate::rows;
use crate::rows::{
    ClaimRow, ClaimView, HostRow, HostView, PairingRow, PairingView, TenantRow, TenantView, TokenRow,
    TokenView,
};
use crate::table;
use crate::text;

verus! {

/// A tenant with the digest of its admin key.
struct KeyedTenant {
    row: TenantRow,
    admin_key_hash: String,
}

impl View for KeyedTenant {
    type V = (TenantView, Seq<char>);

    closed spec fn view(&self) -> (TenantView, Seq<char>) {
        (self.row@, self.admin_key_hash@)
    }
}

spec fn keyed_views(rows: Seq<KeyedTenant>) -> Seq<(TenantView, Seq<char>)> {
    table::views(rows)
}

pub open spec fn change_views(changes: Seq<Change>) -> Seq<ChangeView> {
    changes.map_values(|c: Change| c@)
}

/// Tokens, pairings, claims, tenants, hosts and the web password.
pub struct TokenDb {
    tokens: Vec<TokenRow>,
    pairings: Vec<PairingRow>,
    claims: Vec<ClaimRow>,
    tenants: Vec<KeyedTenant>,
    hosts: Vec<HostRow>,
    web: Option<(String, i64)>,
    web_version: i64,
    changes: Vec<Change>,
}

impl View for TokenDb {
    type V = DbView;

    closed spec fn view(&self) -> DbView {
        DbView {
            tokens: rows::token_views(self.tokens@),
            pairings: rows::pairing_views(self.pairings@),
            claims: rows::claim_views(self.claims@),
            tenants: keyed_views(self.tenants@),
            hosts: rows::host_views(self.hosts@),
            web_password: match self.web {
                Some(w) => Some((w.0@, w.1)),
                None => None,
            },
            web_version: self.web_version,
        }
    }
}

/// Why a row was refused.
#[derive(Debug)]
pub struct DbError {
    pub message: String,
}

// ---- changing rows --------------------------------------------------------

fn revoke_rows(tokens: &mut Vec<TokenRow>, jti: &str)
    ensures
        rows::token_views(final(tokens)@) == rows::token_views(old(tokens)@).map_values(
            |t: TokenView| change::token_revoked(t, jti@),
        ),
{
    let n = tokens.len();
    for i in 0..n
        invariant
            n == tokens.len(),
            n == old(tokens).len(),
            forall|j: int|
                0 <= j < i ==> (#[trigger] tokens@[j])@ == change::token_revoked(
                    old(tokens)@[j]@,
                    jti@,
                ),
            forall|j: int| i <= j < n ==> tokens@[j] == old(tokens)@[j],
    {
        if text::same(tokens[i].jti.as_str(), jti) {
            tokens[i].revoked = true;
        }
    }
}

fn revoke_rows_in_tenant(tokens: &mut Vec<TokenRow>, jti: &str, tenant: &str)
    ensures
        rows::token_views(final(tokens)@) == rows::token_views(old(tokens)@).map_values(
            |t: TokenView| change::token_revoked_in(t, jti@, tenant@),
        ),
{
    let n = tokens.len();
    for i in 0..n
        invariant
            n == tokens.len(),
            n == old(tokens).len(),
            forall|j: int|
                0 <= j < i ==> (#[trigger] tokens@[j])@ == change::token_revoked_in(
                    old(tokens)@[j]@,
                    jti@,
                    tenant@,
                ),
            forall|j: int| i <= j < n ==> tokens@[j] == old(tokens)@[j],
    {
        if text::same(tokens[i].jti.as_str(), jti) && text::same(
            tokens[i].tenant_id.as_str(),
            tenant,
        ) {
            tokens[i].revoked = true;
        }
    }
}

fn touch_rows(tokens: &mut Vec<TokenRow>, jti: &str, at: i64)
    ensures
        rows::token_views(final(tokens)@) == rows::token_views(old(tokens)@).map_values(
            |r: TokenView| change::token_touched(r, jti@, at),
        ),
{
    let n = tokens.len();
    for i in 0..n
        invariant
            n == tokens.len(),
            n == old(tokens).len(),
            forall|j: int|
                0 <= j < i ==> (#[trigger] tokens@[j])@ == change::token_touched(old(tokens)@[j]@, jti@, at),
            forall|j: int| i <= j < n ==> tokens@[j] == old(tokens)@[j],
    {
        if text::same(tokens[i].jti.as_str(), jti) {
            tokens[i].last_used_at = Some(at);
        }
    }
}

fn mark_pairings(pairings: &mut Vec<PairingRow>, id: &str, status: &str)
    ensures
        rows::pairing_views(final(pairings)@) == rows::pairing_views(old(pairings)@).map_values(
            |r: PairingView| change::pairing_marked(r, id@, status@),
        ),
{
    let n = pairings.len();
    for i in 0..n
        invariant
            n == pairings.len(),
            n == old(pairings).len(),
            forall|j: int|
                0 <= j < i ==> (#[trigger] pairings@[j])@ == change::pairing_marked(old(pairings)@[j]@, id@, status@),
            forall|j: int| i <= j < n ==> pairings@[j] == old(pairings)@[j],
    {
        if text::same(pairings[i].id.as_str(), id) {
            pairings[i].status = status.to_owned();
        }
    }
}

fn bind_pairings(pairings: &mut Vec<PairingRow>, id: &str, jti: &str)
    ensures
        rows::pairing_views(final(pairings)@) == rows::pairing_views(old(pairings)@).map_values(
            |r: PairingView| change::pairing_bound(r, id@, jti@),
        ),
{
    let n = pairings.len();
    for i in 0..n
        invariant
            n == pairings.len(),
            n == old(pairings).len(),
            forall|j: int|
                0 <= j < i ==> (#[trigger] pairings@[j])@ == change::pairing_bound(old(pairings)@[j]@, id@, jti@),
            forall|j: int| i <= j < n ==> pairings@[j] == old(pairings)@[j],
    {
        if text::same(pairings[i].id.as_str(), id) {
            pairings[i].token_jti = jti.to_owned();
        }
    }
}

fn sweep_pairings(pairings: &mut Vec<PairingRow>, now: i64)
    ensures
        rows::pairing_views(final(pairings)@) == rows::pairing_views(old(pairings)@).map_values(
            |r: PairingView| change::pairing_swept(r, now),
        ),
{
    let n = pairings.len();
    for i in 0..n
        invariant
            n == pairings.len(),
            n == old(pairings).len(),
            forall|j: int|
                0 <= j < i ==> (#[trigger] pairings@[j])@ == change::pairing_swept(old(pairings)@[j]@, now),
            forall|j: int| i <= j < n ==> pairings@[j] == old(pairings)@[j],
    {
        if text::same(pairings[i].status.as_str(), "pending") && pairings[i].expires_at < now {
            pairings[i].status = "expired".to_owned();
        }
    }
}

fn sweep_claims(claims: &mut Vec<ClaimRow>, now: i64)
    ensures
        rows::claim_views(final(claims)@) == rows::claim_views(old(claims)@).map_values(
            |r: ClaimView| change::claim_swept(r, now),
        ),
{
    let n = claims.len();
    for i in 0..n
        invariant
            n == claims.len(),
            n == old(claims).len(),
            forall|j: int|
                0 <= j < i ==> (#[trigger] claims@[j])@ == change::claim_swept(old(claims)@[j]@, now),
            forall|j: int| i <= j < n ==> claims@[j] == old(claims)@[j],
    {
        if text::same(claims[i].status.as_str(), "offered") && claims[i].expires_at < now {
            claims[i].status = "expired".to_owned();
        }
    }
}

fn consume_claims(claims: &mut Vec<ClaimRow>, id: &str)
    ensures
        rows::claim_views(final(claims)@) == rows::claim_views(old(claims)@).map_values(
            |r: ClaimView| change::claim_consumed(r, id@),
        ),
{
    let n = claims.len();
    for i in 0..n
        invariant
            n == claims.len(),
            n == old(claims).len(),
            forall|j: int|
                0 <= j < i ==> (#[trigger] claims@[j])@ == change::claim_consumed(old(claims)@[j]@, id@),
            forall|j: int| i <= j < n ==> claims@[j] == old(claims)@[j],
    {
        if text::same(claims[i].id.as_str(), id) && text::same(claims[i].status.as_str(), "offered") {
            claims[i].status = "consumed".to_owned();
        }
    }
}

fn mark_tenants(tenants: &mut Vec<KeyedTenant>, id: &str, revoked: bool)
    ensures
        keyed_views(final(tenants)@) == keyed_views(old(tenants)@).map_values(
            |t: (TenantView, Seq<char>)| change::tenant_marked(t, id@, revoked),
        ),
{
    let n = tenants.len();
    for i in 0..n
        invariant
            n == tenants.len(),
            n == old(tenants).len(),
            forall|j: int|
                #![trigger tenants@[j]]
                0 <= j < i ==> (tenants@[j].row@, tenants@[j].admin_key_hash@)
                    == change::tenant_marked(
                    (old(tenants)@[j].row@, old(tenants)@[j].admin_key_hash@),
                    id@,
                    revoked,
                ),
            forall|j: int| i <= j < n ==> tenants@[j] == old(tenants)@[j],
    {
        if text::same(tenants[i].row.id.as_str(), id) {
            tenants[i].row.revoked = revoked;
        }
    }
}

fn remove_hosts(hosts: &mut Vec<HostRow>, id: &str)
    ensures
        rows::host_views(final(hosts)@) == rows::host_views(old(hosts)@).filter(
            |h: HostView| h.id != id@,
        ),
{
    let ghost kept = |h: HostView| h.id != id@;
    let out = table::select(
        hosts,
        |r: &HostRow| -> (b: bool)
            ensures
                b == kept(r@)
            { !text::same(r.id.as_str(), id) },
        Ghost(kept),
    );
    *hosts = out;
}

// ---- the register and its journal -----------------------------------------

impl TokenDb {
    /// The changes made since the journal was last taken.
    pub closed spec fn journal(&self) -> Seq<ChangeView> {
        change_views(self.changes@)
    }

    /// `post` is this register after `changes`, which its journal has gained.
    pub open spec fn advanced(&self, post: &TokenDb, changes: Seq<ChangeView>) -> bool {
        &&& post@ == change::replay(self@, changes)
        &&& post.journal() == self.journal() + changes
    }

    /// Two rows of changes one after the other are one row of changes.
    pub proof fn lemma_advanced_joins(
        &self,
        mid: &TokenDb,
        post: &TokenDb,
        a: Seq<ChangeView>,
        b: Seq<ChangeView>,
    )
        requires
            self.advanced(mid, a),
            mid.advanced(post, b),
        ensures
            self.advanced(post, a + b),
    {
        change::law_replay_joins(self@, a, b);
        assert(self.journal() + a + b == self.journal() + (a + b));
    }

    /// No change leaves the register as it is.
    pub proof fn lemma_advanced_none(&self)
        ensures
            self.advanced(self, Seq::empty()),
    {
        assert(self.journal() + Seq::<ChangeView>::empty() == self.journal());
    }

    /// An empty register.
    pub fn open_in_memory() -> (db: TokenDb)
        ensures
            db@ == change::empty(),
            db.journal() == Seq::<ChangeView>::empty(),
    {
        let db = TokenDb {
            tokens: Vec::new(),
            pairings: Vec::new(),
            claims: Vec::new(),
            tenants: Vec::new(),
            hosts: Vec::new(),
            web: None,
            web_version: 0,
            changes: Vec::new(),
        };
        assert(db@.tokens =~= change::empty().tokens);
        assert(db@.pairings =~= change::empty().pairings);
        assert(db@.claims =~= change::empty().claims);
        assert(db@.tenants =~= change::empty().tenants);
        assert(db@.hosts =~= change::empty().hosts);
        assert(db.journal() =~= Seq::<ChangeView>::empty());
        db
    }

    /// Makes one change and notes it in the journal.
    pub fn apply(&mut self, entry: Change)
        ensures
            final(self)@ == change::apply(old(self)@, entry@),
            final(self).journal() == old(self).journal().push(entry@),
            old(self).advanced(final(self), seq![entry@]),
    {
        match &entry {
            Change::InsertToken(row) => {
                self.tokens.push(row.clone());
            },
            Change::RevokeToken { jti } => {
                revoke_rows(&mut self.tokens, jti.as_str());
            },
            Change::RevokeTokenInTenant { jti, tenant_id } => {
                revoke_rows_in_tenant(&mut self.tokens, jti.as_str(), tenant_id.as_str());
            },
            Change::TouchToken { jti, at } => {
                touch_rows(&mut self.tokens, jti.as_str(), *at);
            },
            Change::InsertPairing(row) => {
                self.pairings.push(row.clone());
            },
            Change::SetPairingStatus { id, status } => {
                mark_pairings(&mut self.pairings, id.as_str(), status.as_str());
            },
            Change::SetPairingToken { id, jti } => {
                bind_pairings(&mut self.pairings, id.as_str(), jti.as_str());
            },
            Change::Sweep { now } => {
                sweep_pairings(&mut self.pairings, *now);
                sweep_claims(&mut self.claims, *now);
            },
            Change::InsertClaim(row) => {
                self.claims.push(row.clone());
            },
            Change::ConsumeClaim { id } => {
                consume_claims(&mut self.claims, id.as_str());
            },
            Change::InsertTenant { row, admin_key_hash } => {
                self.tenants.push(
                    KeyedTenant { row: row.clone(), admin_key_hash: admin_key_hash.clone() },
                );
            },
            Change::SetTenantRevoked { id, revoked } => {
                mark_tenants(&mut self.tenants, id.as_str(), *revoked);
            },
            Change::InsertHost(row) => {
                self.hosts.push(row.clone());
            },
            Change::RemoveHost { id } => {
                remove_hosts(&mut self.hosts, id.as_str());
            },
            Change::SetWebPassword { hash, version, at } => {
                self.web = Some((hash.clone(), *version));
                if *version > self.web_version {
                    self.web_version = *version;
                }
            },
            Change::ClearWebPassword => {
                self.web = None;
            },
        }
        proof {
            let want = change::apply(old(self)@, entry@);
            assert(self@.tokens =~= want.tokens);
            assert(self@.pairings =~= want.pairings);
            assert(self@.claims =~= want.claims);
            assert(self@.tenants =~= want.tenants);
            assert(self@.hosts =~= want.hosts);
        }
        self.changes.push(entry);
        proof {
            assert(self.journal() =~= old(self).journal().push(entry@));
            assert(self.journal() =~= old(self).journal() + seq![entry@]);
            change::lemma_replay_one(old(self)@, entry@);
        }
    }

    /// Hands out the journal and starts an empty one.
    pub fn take_changes(&mut self) -> (out: Vec<Change>)
        ensures
            change_views(out@) == old(self).journal(),
            final(self).journal() == Seq::<ChangeView>::empty(),
            final(self)@ == old(self)@,
    {
        let mut out: Vec<Change> = Vec::new();
        std::mem::swap(&mut out, &mut self.changes);
        assert(self.journal() =~= Seq::<ChangeView>::empty());
        out
    }
}

// ---- what is read ---------------------------------------------------------

pub open spec fn has_jti(jti: Seq<char>) -> spec_fn(TokenView) -> bool {
    |t: TokenView| t.jti == jti
}

pub open spec fn has_live_jti(jti: Seq<char>) -> spec_fn(TokenView) -> bool {
    |t: TokenView| t.jti == jti && !t.revoked
}

pub open spec fn has_live_jti_of(jti: Seq<char>, tenant_id: Seq<char>) -> spec_fn(
    TokenView,
) -> bool {
    |t: TokenView| t.jti == jti && !t.revoked && t.tenant_id == tenant_id
}

pub open spec fn of_tenant(tenant_id: Seq<char>) -> spec_fn(TokenView) -> bool {
    |t: TokenView| t.tenant_id == tenant_id
}

pub open spec fn has_pairing_id(id: Seq<char>) -> spec_fn(PairingView) -> bool {
    |p: PairingView| p.id == id
}

pub open spec fn has_code(code: Seq<char>) -> spec_fn(PairingView) -> bool {
    |p: PairingView| p.code_d == code
}

pub open spec fn is_pending_with(code: Seq<char>) -> spec_fn(PairingView) -> bool {
    |p: PairingView| p.code_d == code && p.status == "pending"@
}

/// A pairing that waits with this code and whose time is not over.
pub open spec fn is_waiting_with(code: Seq<char>, now: i64) -> spec_fn(PairingView) -> bool {
    |p: PairingView| p.code_d == code && p.status == "pending"@ && p.expires_at >= now
}

pub open spec fn has_claim_id(id: Seq<char>) -> spec_fn(ClaimView) -> bool {
    |c: ClaimView| c.id == id
}

pub open spec fn is_offered_id(id: Seq<char>) -> spec_fn(ClaimView) -> bool {
    |c: ClaimView| c.id == id && c.status == "offered"@
}

pub open spec fn is_offered_for(code: Seq<char>) -> spec_fn(ClaimView) -> bool {
    |c: ClaimView| c.pairing_code == code && c.status == "offered"@
}

pub open spec fn has_tenant_id(id: Seq<char>) -> spec_fn((TenantView, Seq<char>)) -> bool {
    |t: (TenantView, Seq<char>)| t.0.id == id
}

pub open spec fn has_live_key(hash: Seq<char>) -> spec_fn((TenantView, Seq<char>)) -> bool {
    |t: (TenantView, Seq<char>)| t.1 == hash && !t.0.revoked
}

pub open spec fn has_host_id(id: Seq<char>) -> spec_fn(HostView) -> bool {
    |h: HostView| h.id == id
}

pub open spec fn has_port(port: u16) -> spec_fn(HostView) -> bool {
    |h: HostView| h.port == port
}

/// The code is held by a pairing that waits, or by one started less than
/// thirty minutes ago, whatever became of it.
pub open spec fn blocks_code(code: Seq<char>, now: i64) -> spec_fn(PairingView) -> bool {
    |p: PairingView|
        p.code_d == code && (p.status == "pending"@ || p.created_at > now - REUSE_SECS)
}

/// How long a code stays out of use after it was registered, in seconds.
pub const REUSE_SECS: i64 = 1800;

pub open spec fn newest() -> spec_fn(TokenView) -> int {
    |t: TokenView| -(t.created_at as int)
}

pub open spec fn oldest_claim() -> spec_fn(ClaimView) -> int {
    |c: ClaimView| c.created_at as int
}

pub open spec fn newest_pairing() -> spec_fn(PairingView) -> int {
    |p: PairingView| -(p.created_at as int)
}

pub open spec fn oldest_tenant() -> spec_fn(TenantView) -> int {
    |t: TenantView| t.created_at as int
}

pub open spec fn lowest_port() -> spec_fn(HostView) -> int {
    |h: HostView| h.port as int
}

/// All tokens, newest first.
pub open spec fn tokens_listed(db: DbView) -> Seq<TokenView> {
    table::ranked(db.tokens, newest())
}

/// The tokens of one tenant, newest first.
pub open spec fn tokens_of_tenant(db: DbView, tenant_id: Seq<char>) -> Seq<TokenView> {
    tokens_listed(db).filter(of_tenant(tenant_id))
}

/// Where requests with a token go: its tunnel port and its tenant.
pub open spec fn route(db: DbView, jti: Seq<char>) -> Option<(Option<u16>, Seq<char>)> {
    match table::first(db.tokens, has_live_jti(jti)) {
        Some(t) => Some((t.upstream_port, t.tenant_id)),
        None => None,
    }
}

/// A token is known and not revoked.
pub open spec fn token_valid(db: DbView, jti: Seq<char>) -> bool {
    match table::first(db.tokens, has_jti(jti)) {
        Some(t) => !t.revoked,
        None => false,
    }
}

/// The claims on a code that still stand, oldest first.
pub open spec fn offers_for(db: DbView, code: Seq<char>) -> Seq<ClaimView> {
    table::ranked(db.claims.filter(is_offered_for(code)), oldest_claim())
}

/// The pairing that was started last with a code.
pub open spec fn latest_pairing(db: DbView, code: Seq<char>) -> Option<PairingView> {
    let found = table::ranked(db.pairings.filter(has_code(code)), newest_pairing());
    if found.len() > 0 {
        Some(found[0])
    } else {
        None
    }
}

/// That pairing with the token it led to.
pub open spec fn pairing_and_token(db: DbView, code: Seq<char>) -> Option<
    (PairingView, Option<TokenView>),
> {
    match latest_pairing(db, code) {
        Some(p) => Some(
            (
                p,
                if p.token_jti.len() == 0 {
                    None
                } else {
                    table::first(tokens_listed(db), has_jti(p.token_jti))
                },
            ),
        ),
        None => None,
    }
}

pub open spec fn tenant_with_key(db: DbView, hash: Seq<char>) -> Option<TenantView> {
    match table::first(db.tenants, has_live_key(hash)) {
        Some(t) => Some(t.0),
        None => None,
    }
}

pub open spec fn tenant_with_id(db: DbView, id: Seq<char>) -> Option<TenantView> {
    match table::first(db.tenants, has_tenant_id(id)) {
        Some(t) => Some(t.0),
        None => None,
    }
}

pub open spec fn tenants_listed(db: DbView) -> Seq<TenantView> {
    table::ranked(db.tenants.map_values(|t: (TenantView, Seq<char>)| t.0), oldest_tenant())
}

pub open spec fn hosts_listed(db: DbView) -> Seq<HostView> {
    table::ranked(db.hosts, lowest_port())
}

/// The version that the next web password gets: above every one before it.
pub open spec fn next_version(db: DbView) -> int {
    db.web_version + 1
}

/// A token that is known and not revoked has a route: that of its row.
pub proof fn lemma_valid_has_route(db: DbView, jti: Seq<char>)
    ensures
        token_valid(db, jti) ==> route(db, jti) == Some(
            {
                let t = table::first(db.tokens, has_jti(jti))->0;
                (t.upstream_port, t.tenant_id)
            },
        ),
{
    if token_valid(db, jti) {
        lemma_first_live(db.tokens, jti);
    }
}

proof fn lemma_first_live(tokens: Seq<TokenView>, jti: Seq<char>)
    requires
        table::first(tokens, has_jti(jti)) is Some,
        !table::first(tokens, has_jti(jti))->0.revoked,
    ensures
        table::first(tokens, has_live_jti(jti)) == table::first(tokens, has_jti(jti)),
    decreases tokens.len(),
{
    if !has_jti(jti)(tokens[0]) {
        lemma_first_live(tokens.drop_first(), jti);
    }
}

// ---- tokens ---------------------------------------------------------------

/// A token as it is first written down.
pub open spec fn new_token(
    jti: Seq<char>,
    device: Seq<char>,
    upstream_port: Option<u16>,
    host_label: Seq<char>,
    tenant_id: Seq<char>,
    now: i64,
) -> TokenView {
    TokenView {
        jti,
        device,
        created_at: now,
        last_used_at: None,
        revoked: false,
        upstream_port,
        host_label,
        tenant_id,
    }
}

impl TokenDb {
    fn token_index(&self, jti: &str) -> (n: usize)
        ensures
            table::found(self.tokens@, has_jti(jti@), n as int),
    {
        table::position(
            &self.tokens,
            |r: &TokenRow| -> (b: bool)
                ensures
                    b == has_jti(jti@)(r@)
                { text::same(r.jti.as_str(), jti) },
            Ghost(has_jti(jti@)),
        )
    }

    /// Writes down a new token. A token id can be used once.
    pub fn insert(
        &mut self,
        jti: &str,
        device: &str,
        upstream_port: Option<u16>,
        host_label: &str,
        tenant_id: &str,
        now: i64,
    ) -> (res: Result<(), DbError>)
        ensures
            match res {
                Ok(_) => table::first(old(self)@.tokens, has_jti(jti@)) is None
                    && old(self).advanced(
                    final(self),
                    seq![ChangeView::InsertToken(
                        new_token(jti@, device@, upstream_port, host_label@, tenant_id@, now),
                    )],
                ),
                Err(e) => table::first(old(self)@.tokens, has_jti(jti@)) is Some && e.message@
                    == "UNIQUE constraint failed: tokens.jti"@ && *final(self) == *old(self),
            },
    {
        let n = self.token_index(jti);
        if n < self.tokens.len() {
            return Err(DbError { message: "UNIQUE constraint failed: tokens.jti".to_owned() });
        }
        let row = TokenRow {
            jti: jti.to_owned(),
            device: device.to_owned(),
            created_at: now,
            last_used_at: None,
            revoked: false,
            upstream_port,
            host_label: host_label.to_owned(),
            tenant_id: tenant_id.to_owned(),
        };
        self.apply(Change::InsertToken(row));
        Ok(())
    }

    /// Revokes a token; whether there was one to revoke.
    pub fn revoke(&mut self, jti: &str) -> (hit: bool)
        ensures
            hit == (table::first(old(self)@.tokens, has_live_jti(jti@)) is Some),
            old(self).advanced(final(self), seq![ChangeView::RevokeToken { jti: jti@ }]),
    {
        let n = self.live_token_index(jti);
        let hit = n < self.tokens.len();
        self.apply(Change::RevokeToken { jti: jti.to_owned() });
        hit
    }

    fn live_token_index(&self, jti: &str) -> (n: usize)
        ensures
            table::found(self.tokens@, has_live_jti(jti@), n as int),
    {
        table::position(
            &self.tokens,
            |r: &TokenRow| -> (b: bool)
                ensures
                    b == has_live_jti(jti@)(r@)
                { text::same(r.jti.as_str(), jti) && !r.revoked },
            Ghost(has_live_jti(jti@)),
        )
    }

    /// Revokes a token of one tenant. The token of another tenant and an
    /// unknown one are answered alike.
    pub fn revoke_in_tenant(&mut self, jti: &str, tenant_id: &str) -> (hit: bool)
        ensures
            hit == (table::first(old(self)@.tokens, has_live_jti_of(jti@, tenant_id@)) is Some),
            old(self).advanced(
                final(self),
                seq![
                    ChangeView::RevokeTokenInTenant { jti: jti@, tenant_id: tenant_id@ },
                ],
            ),
    {
        let n = table::position(
            &self.tokens,
            |r: &TokenRow| -> (b: bool)
                ensures
                    b == has_live_jti_of(jti@, tenant_id@)(r@)
                { text::same(r.jti.as_str(), jti) && !r.revoked && text::same(
                    r.tenant_id.as_str(),
                    tenant_id,
                ) },
            Ghost(has_live_jti_of(jti@, tenant_id@)),
        );
        let hit = n < self.tokens.len();
        self.apply(
            Change::RevokeTokenInTenant { jti: jti.to_owned(), tenant_id: tenant_id.to_owned() },
        );
        hit
    }

    /// Whether a token is known and not revoked.
    pub fn is_valid(&self, jti: &str) -> (r: bool)
        ensures
            r == token_valid(self@, jti@),
    {
        let n = self.token_index(jti);
        n < self.tokens.len() && !self.tokens[n].revoked
    }

    /// Where requests with a token go; `None` for an unknown or revoked one.
    pub fn route_for(&self, jti: &str) -> (out: Option<(Option<u16>, String)>)
        ensures
            match out {
                Some(r) => route(self@, jti@) == Some((r.0, r.1@)),
                None => route(self@, jti@) is None,
            },
    {
        let n = self.live_token_index(jti);
        if n < self.tokens.len() {
            Some((self.tokens[n].upstream_port, self.tokens[n].tenant_id.clone()))
        } else {
            None
        }
    }

    /// The machine that a token was paired with.
    pub fn host_label_for(&self, jti: &str) -> (out: Option<String>)
        ensures
            text::opt(out) == (match table::first(self@.tokens, has_jti(jti@)) {
                Some(t) => Some(t.host_label),
                None => None,
            }),
    {
        let n = self.token_index(jti);
        if n < self.tokens.len() {
            Some(self.tokens[n].host_label.clone())
        } else {
            None
        }
    }

    /// Notes when a token was last used.
    pub fn touch(&mut self, jti: &str, now: i64)
        ensures
            old(self).advanced(final(self), seq![ChangeView::TouchToken { jti: jti@, at: now }]),
    {
        self.apply(Change::TouchToken { jti: jti.to_owned(), at: now });
    }

    /// All tokens, newest first.
    pub fn list(&self) -> (out: Vec<TokenRow>)
        ensures
            rows::token_views(out@) == tokens_listed(self@),
    {
        table::rank(
            &self.tokens,
            |r: &TokenRow| -> (k: i128)
                ensures
                    k == newest()(r@)
                { -(r.created_at as i128) },
            Ghost(newest()),
        )
    }

    /// The tokens of one tenant, newest first.
    pub fn list_for_tenant(&self, tenant_id: &str) -> (out: Vec<TokenRow>)
        ensures
            rows::token_views(out@) == tokens_of_tenant(self@, tenant_id@),
    {
        let all = self.list();
        table::select(
            &all,
            |r: &TokenRow| -> (b: bool)
                ensures
                    b == of_tenant(tenant_id@)(r@)
                { text::same(r.tenant_id.as_str(), tenant_id) },
            Ghost(of_tenant(tenant_id@)),
        )
    }
}

// ---- pairings -------------------------------------------------------------

/// A pairing as it is first written down.
pub open spec fn new_pairing(
    id: Seq<char>,
    code_d: Seq<char>,
    secret: Seq<char>,
    device: Seq<char>,
    ttl_secs: i64,
    tenant_id: Seq<char>,
    now: i64,
) -> PairingView {
    PairingView {
        id,
        code_d,
        secret,
        device,
        created_at: now,
        expires_at: (now + ttl_secs) as i64,
        status: "pending"@,
        token_jti: Seq::empty(),
        tenant_id,
    }
}

/// The code cannot be registered at this time.
pub open spec fn code_blocked(db: DbView, code: Seq<char>, now: i64) -> bool {
    table::first(
        change::apply(db, ChangeView::Sweep { now }).pairings,
        blocks_code(code, now),
    ) is Some
}

/// The register takes no pairing with this id or code at this time.
pub open spec fn pairing_refused(db: DbView, id: Seq<char>, code: Seq<char>, now: i64) -> bool {
    let swept = change::apply(db, ChangeView::Sweep { now });
    code_blocked(db, code, now) || table::first(swept.pairings, has_pairing_id(id)) is Some
}

impl TokenDb {
    fn pairing_index(&self, id: &str) -> (n: usize)
        ensures
            table::found(self.pairings@, has_pairing_id(id@), n as int),
    {
        table::position(
            &self.pairings,
            |r: &PairingRow| -> (b: bool)
                ensures
                    b == has_pairing_id(id@)(r@)
                { text::same(r.id.as_str(), id) },
            Ghost(has_pairing_id(id@)),
        )
    }

    fn waiting_index(&self, code: &str, now: i64) -> (n: usize)
        ensures
            table::found(self.pairings@, is_waiting_with(code@, now), n as int),
    {
        table::position(
            &self.pairings,
            |r: &PairingRow| -> (b: bool)
                ensures
                    b == is_waiting_with(code@, now)(r@)
                { text::same(r.code_d.as_str(), code) && text::same(r.status.as_str(), "pending") && r.expires_at
                    >= now },
            Ghost(is_waiting_with(code@, now)),
        )
    }

    fn blocking_index(&self, code: &str, now: i64) -> (n: usize)
        ensures
            table::found(self.pairings@, blocks_code(code@, now), n as int),
    {
        table::position(
            &self.pairings,
            |r: &PairingRow| -> (b: bool)
                ensures
                    b == blocks_code(code@, now)(r@)
                { text::same(r.code_d.as_str(), code) && (text::same(r.status.as_str(), "pending")
                    || r.created_at as i128 > now as i128 - REUSE_SECS as i128) },
            Ghost(blocks_code(code@, now)),
        )
    }

    /// Writes down a pairing that waits. Its code must not be held by a pairing
    /// that waits, nor by one started within the last thirty minutes, which
    /// keeps a spent code from being taken over.
    pub fn pairing_insert(
        &mut self,
        id: &str,
        code_d: &str,
        secret: &str,
        device: &str,
        ttl_secs: i64,
        tenant_id: &str,
        now: i64,
    ) -> (res: Result<(), DbError>)
        requires
            i64::MIN <= now + ttl_secs <= i64::MAX,
        ensures
            match res {
                Ok(_) => !pairing_refused(old(self)@, id@, code_d@, now) && old(self).advanced(
                    final(self),
                    seq![
                        ChangeView::Sweep { now },
                        ChangeView::InsertPairing(
                            new_pairing(id@, code_d@, secret@, device@, ttl_secs, tenant_id@, now),
                        ),
                    ],
                ),
                Err(e) => {
                    &&& pairing_refused(old(self)@, id@, code_d@, now)
                    &&& old(self).advanced(final(self), seq![ChangeView::Sweep { now }])
                    &&& e.message@ == (if code_blocked(old(self)@, code_d@, now) {
                        "live pairing with this code exists"@
                    } else {
                        "UNIQUE constraint failed: pairings.id"@
                    })
                },
            },
    {
        self.pairing_sweep(now);
        let ghost swept = *self;
        proof {
            change::lemma_replay_one(old(self)@, ChangeView::Sweep { now });
        }
        let blocked = self.blocking_index(code_d, now);
        let taken = self.pairing_index(id);
        if blocked < self.pairings.len() {
            return Err(DbError { message: "live pairing with this code exists".to_owned() });
        }
        if taken < self.pairings.len() {
            return Err(DbError { message: "UNIQUE constraint failed: pairings.id".to_owned() });
        }
        let row = PairingRow {
            id: id.to_owned(),
            code_d: code_d.to_owned(),
            secret: secret.to_owned(),
            device: device.to_owned(),
            created_at: now,
            expires_at: now + ttl_secs,
            status: "pending".to_owned(),
            token_jti: String::new(),
            tenant_id: tenant_id.to_owned(),
        };
        let ghost inserted = ChangeView::InsertPairing(row@);
        self.apply(Change::InsertPairing(row));
        proof {
            let both = seq![ChangeView::Sweep { now }, inserted];
            assert(both.drop_last() =~= seq![ChangeView::Sweep { now }]);
            assert(swept.journal().push(inserted) =~= old(self).journal() + both);
        }
        Ok(())
    }

    pub fn pairing_get(&self, id: &str) -> (out: Option<PairingRow>)
        ensures
            rows::opt_pairing(out) == table::first(self@.pairings, has_pairing_id(id@)),
    {
        let n = self.pairing_index(id);
        if n < self.pairings.len() {
            Some(self.pairings[n].clone())
        } else {
            None
        }
    }

    pub fn pairing_set_status(&mut self, id: &str, status: &str)
        ensures
            old(self).advanced(
                final(self),
                seq![ChangeView::SetPairingStatus { id: id@, status: status@ }],
            ),
    {
        self.apply(Change::SetPairingStatus { id: id.to_owned(), status: status.to_owned() });
    }

    /// Notes which token a pairing led to.
    pub fn pairing_set_token(&mut self, id: &str, jti: &str)
        ensures
            old(self).advanced(
                final(self),
                seq![ChangeView::SetPairingToken { id: id@, jti: jti@ }],
            ),
    {
        self.apply(Change::SetPairingToken { id: id.to_owned(), jti: jti.to_owned() });
    }

    /// The pairing that was started last with a code, and its token.
    pub fn pairing_status_with_token(&self, code_d: &str) -> (out: Option<
        (PairingRow, Option<TokenRow>),
    >)
        ensures
            match out {
                Some(r) => pairing_and_token(self@, code_d@) == Some(
                    (r.0@, rows::opt_token(r.1)),
                ),
                None => pairing_and_token(self@, code_d@) is None,
            },
    {
        let found = table::select(
            &self.pairings,
            |r: &PairingRow| -> (b: bool)
                ensures
                    b == has_code(code_d@)(r@)
                { text::same(r.code_d.as_str(), code_d) },
            Ghost(has_code(code_d@)),
        );
        let ranked = table::rank(
            &found,
            |r: &PairingRow| -> (k: i128)
                ensures
                    k == newest_pairing()(r@)
                { -(r.created_at as i128) },
            Ghost(newest_pairing()),
        );
        let ghost ranked_views = rows::pairing_views(ranked@);
        if ranked.len() == 0 {
            return None;
        }
        let pairing = ranked[0].clone();
        assert(ranked_views[0] == pairing@);
        if pairing.token_jti.as_str().is_empty() {
            return Some((pairing, None));
        }
        let all = self.list();
        let n = table::position(
            &all,
            |r: &TokenRow| -> (b: bool)
                ensures
                    b == has_jti(pairing.token_jti@)(r@)
                { text::same(r.jti.as_str(), pairing.token_jti.as_str()) },
            Ghost(has_jti(pairing.token_jti@)),
        );
        if n < all.len() {
            Some((pairing, Some(all[n].clone())))
        } else {
            Some((pairing, None))
        }
    }

    /// Marks as expired the pairings that waited and the claims that stood past
    /// their time.
    pub fn pairing_sweep(&mut self, now: i64)
        ensures
            final(self)@ == change::apply(old(self)@, ChangeView::Sweep { now }),
            old(self).advanced(final(self), seq![ChangeView::Sweep { now }]),
    {
        self.apply(Change::Sweep { now });
    }

    /// The pairing that waits with a code and whose time is not over.
    pub fn pairing_by_code(&self, code_d: &str, now: i64) -> (out: Option<PairingRow>)
        ensures
            rows::opt_pairing(out) == table::first(self@.pairings, is_waiting_with(code_d@, now)),
    {
        let n = self.waiting_index(code_d, now);
        if n < self.pairings.len() {
            Some(self.pairings[n].clone())
        } else {
            None
        }
    }
}

// ---- claims ---------------------------------------------------------------

/// A claim as it is first written down.
pub open spec fn new_claim(
    id: Seq<char>,
    pairing_code: Seq<char>,
    host_code: Seq<char>,
    host_label: Seq<char>,
    upstream_port: u16,
    ttl_secs: i64,
    tenant_id: Seq<char>,
    now: i64,
) -> ClaimView {
    ClaimView {
        id,
        pairing_code,
        host_code,
        host_label,
        upstream_port,
        created_at: now,
        expires_at: (now + ttl_secs) as i64,
        status: "offered"@,
        tenant_id,
    }
}

impl TokenDb {
    fn claim_index(&self, id: &str) -> (n: usize)
        ensures
            table::found(self.claims@, has_claim_id(id@), n as int),
    {
        table::position(
            &self.claims,
            |r: &ClaimRow| -> (b: bool)
                ensures
                    b == has_claim_id(id@)(r@)
                { text::same(r.id.as_str(), id) },
            Ghost(has_claim_id(id@)),
        )
    }

    fn offered_index(&self, id: &str) -> (n: usize)
        ensures
            table::found(self.claims@, is_offered_id(id@), n as int),
    {
        table::position(
            &self.claims,
            |r: &ClaimRow| -> (b: bool)
                ensures
                    b == is_offered_id(id@)(r@)
                { text::same(r.id.as_str(), id) && text::same(r.status.as_str(), "offered") },
            Ghost(is_offered_id(id@)),
        )
    }

    /// Writes down what a Mac offers. A claim id can be used once.
    pub fn claim_insert(
        &mut self,
        id: &str,
        pairing_code: &str,
        host_code: &str,
        host_label: &str,
        upstream_port: u16,
        ttl_secs: i64,
        tenant_id: &str,
        now: i64,
    ) -> (res: Result<(), DbError>)
        requires
            i64::MIN <= now + ttl_secs <= i64::MAX,
        ensures
            match res {
                Ok(_) => table::first(old(self)@.claims, has_claim_id(id@)) is None
                    && old(self).advanced(
                    final(self),
                    seq![
                        ChangeView::InsertClaim(
                            new_claim(
                                id@,
                                pairing_code@,
                                host_code@,
                                host_label@,
                                upstream_port,
                                ttl_secs,
                                tenant_id@,
                                now,
                            ),
                        ),
                    ],
                ),
                Err(e) => table::first(old(self)@.claims, has_claim_id(id@)) is Some && e.message@
                    == "UNIQUE constraint failed: claims.id"@ && *final(self) == *old(self),
            },
    {
        let n = self.claim_index(id);
        if n < self.claims.len() {
            return Err(DbError { message: "UNIQUE constraint failed: claims.id".to_owned() });
        }
        let row = ClaimRow {
            id: id.to_owned(),
            pairing_code: pairing_code.to_owned(),
            host_code: host_code.to_owned(),
            host_label: host_label.to_owned(),
            upstream_port,
            created_at: now,
            expires_at: now + ttl_secs,
            status: "offered".to_owned(),
            tenant_id: tenant_id.to_owned(),
        };
        self.apply(Change::InsertClaim(row));
        Ok(())
    }

    /// The claims on a code that still stand, oldest first.
    pub fn claims_for(&mut self, pairing_code: &str, now: i64) -> (out: Vec<ClaimRow>)
        ensures
            rows::claim_views(out@) == offers_for(
                change::apply(old(self)@, ChangeView::Sweep { now }),
                pairing_code@,
            ),
            old(self).advanced(final(self), seq![ChangeView::Sweep { now }]),
    {
        self.pairing_sweep(now);
        let found = table::select(
            &self.claims,
            |r: &ClaimRow| -> (b: bool)
                ensures
                    b == is_offered_for(pairing_code@)(r@)
                { text::same(r.pairing_code.as_str(), pairing_code) && text::same(
                    r.status.as_str(),
                    "offered",
                ) },
            Ghost(is_offered_for(pairing_code@)),
        );
        table::rank(
            &found,
            |r: &ClaimRow| -> (k: i128)
                ensures
                    k == oldest_claim()(r@)
                { r.created_at as i128 },
            Ghost(oldest_claim()),
        )
    }

    pub fn claim_get(&self, id: &str) -> (out: Option<ClaimRow>)
        ensures
            rows::opt_claim(out) == table::first(self@.claims, has_claim_id(id@)),
    {
        let n = self.claim_index(id);
        if n < self.claims.len() {
            Some(self.claims[n].clone())
        } else {
            None
        }
    }

    /// Consumes a claim that still stands; whether it did.
    pub fn claim_consume(&mut self, id: &str) -> (hit: bool)
        ensures
            hit == (table::first(old(self)@.claims, is_offered_id(id@)) is Some),
            old(self).advanced(final(self), seq![ChangeView::ConsumeClaim { id: id@ }]),
    {
        let n = self.offered_index(id);
        let hit = n < self.claims.len();
        self.apply(Change::ConsumeClaim { id: id.to_owned() });
        hit
    }
}

// ---- tenants and hosts ----------------------------------------------------

pub open spec fn new_tenant(id: Seq<char>, name: Seq<char>, now: i64) -> TenantView {
    TenantView { id, name, created_at: now, revoked: false }
}

pub open spec fn new_host(
    id: Seq<char>,
    tenant_id: Seq<char>,
    label: Seq<char>,
    port: u16,
    now: i64,
) -> HostView {
    HostView { id, tenant_id, label, port, created_at: now, enabled: true }
}

impl TokenDb {
    fn tenant_index(&self, id: &str) -> (n: usize)
        ensures
            table::found(self.tenants@, has_tenant_id(id@), n as int),
    {
        table::position(
            &self.tenants,
            |r: &KeyedTenant| -> (b: bool)
                ensures
                    b == has_tenant_id(id@)(r@)
                { text::same(r.row.id.as_str(), id) },
            Ghost(has_tenant_id(id@)),
        )
    }

    fn key_index(&self, hash: &str) -> (n: usize)
        ensures
            table::found(self.tenants@, has_live_key(hash@), n as int),
    {
        table::position(
            &self.tenants,
            |r: &KeyedTenant| -> (b: bool)
                ensures
                    b == has_live_key(hash@)(r@)
                { text::same(r.admin_key_hash.as_str(), hash) && !r.row.revoked },
            Ghost(has_live_key(hash@)),
        )
    }

    fn host_index(&self, id: &str) -> (n: usize)
        ensures
            table::found(self.hosts@, has_host_id(id@), n as int),
    {
        table::position(
            &self.hosts,
            |r: &HostRow| -> (b: bool)
                ensures
                    b == has_host_id(id@)(r@)
                { text::same(r.id.as_str(), id) },
            Ghost(has_host_id(id@)),
        )
    }

    fn port_index(&self, port: u16) -> (n: usize)
        ensures
            table::found(self.hosts@, has_port(port), n as int),
    {
        table::position(
            &self.hosts,
            |r: &HostRow| -> (b: bool)
                ensures
                    b == has_port(port)(r@)
                { r.port == port },
            Ghost(has_port(port)),
        )
    }

    /// Registers a tenant with the digest of its admin key.
    pub fn tenant_insert(&mut self, id: &str, name: &str, admin_key_hash: &str, now: i64) -> (res:
        Result<(), DbError>)
        ensures
            match res {
                Ok(_) => tenant_with_id(old(self)@, id@) is None && old(self).advanced(
                    final(self),
                    seq![
                        ChangeView::InsertTenant {
                            row: new_tenant(id@, name@, now),
                            admin_key_hash: admin_key_hash@,
                        },
                    ],
                ),
                Err(e) => tenant_with_id(old(self)@, id@) is Some && e.message@
                    == "UNIQUE constraint failed: tenants.id"@ && *final(self) == *old(self),
            },
    {
        let n = self.tenant_index(id);
        if n < self.tenants.len() {
            return Err(DbError { message: "UNIQUE constraint failed: tenants.id".to_owned() });
        }
        let row = TenantRow {
            id: id.to_owned(),
            name: name.to_owned(),
            created_at: now,
            revoked: false,
        };
        self.apply(Change::InsertTenant { row, admin_key_hash: admin_key_hash.to_owned() });
        Ok(())
    }

    /// The tenant that holds the key with this digest and is not revoked.
    pub fn tenant_by_key(&self, admin_key_hash: &str) -> (out: Option<TenantRow>)
        ensures
            rows::opt_tenant(out) == tenant_with_key(self@, admin_key_hash@),
    {
        let n = self.key_index(admin_key_hash);
        if n < self.tenants.len() {
            Some(self.tenants[n].row.clone())
        } else {
            None
        }
    }

    pub fn tenant_by_id(&self, id: &str) -> (out: Option<TenantRow>)
        ensures
            rows::opt_tenant(out) == tenant_with_id(self@, id@),
    {
        let n = self.tenant_index(id);
        if n < self.tenants.len() {
            Some(self.tenants[n].row.clone())
        } else {
            None
        }
    }

    /// All tenants, oldest first.
    pub fn tenants_list(&self) -> (out: Vec<TenantRow>)
        ensures
            rows::tenant_views(out@) == tenants_listed(self@),
    {
        let mut all: Vec<TenantRow> = Vec::new();
        for i in 0..self.tenants.len()
            invariant
                all.len() == i,
                forall|j: int| 0 <= j < i ==> (#[trigger] all@[j])@ == self.tenants@[j].row@,
        {
            all.push(self.tenants[i].row.clone());
        }
        assert(rows::tenant_views(all@) =~= self@.tenants.map_values(
            |t: (TenantView, Seq<char>)| t.0,
        ));
        table::rank(
            &all,
            |r: &TenantRow| -> (k: i128)
                ensures
                    k == oldest_tenant()(r@)
                { r.created_at as i128 },
            Ghost(oldest_tenant()),
        )
    }

    /// Revokes a tenant, whose key stops working, or restores it; whether there
    /// is such a tenant.
    pub fn tenant_set_revoked(&mut self, id: &str, revoked: bool) -> (hit: bool)
        ensures
            hit == (tenant_with_id(old(self)@, id@) is Some),
            old(self).advanced(
                final(self),
                seq![ChangeView::SetTenantRevoked { id: id@, revoked }],
            ),
    {
        let n = self.tenant_index(id);
        let hit = n < self.tenants.len();
        self.apply(Change::SetTenantRevoked { id: id.to_owned(), revoked });
        hit
    }

    /// Registers a tunnel port to a tenant. A port has one registration.
    pub fn host_insert(
        &mut self,
        id: &str,
        tenant_id: &str,
        label: &str,
        port: u16,
        now: i64,
    ) -> (res: Result<(), DbError>)
        ensures
            match res {
                Ok(_) => table::first(old(self)@.hosts, has_host_id(id@)) is None && table::first(
                    old(self)@.hosts,
                    has_port(port),
                ) is None && old(self).advanced(
                    final(self),
                    seq![ChangeView::InsertHost(new_host(id@, tenant_id@, label@, port, now))],
                ),
                Err(e) => {
                    &&& *final(self) == *old(self)
                    &&& if table::first(old(self)@.hosts, has_host_id(id@)) is Some {
                        e.message@ == "UNIQUE constraint failed: hosts.id"@
                    } else {
                        table::first(old(self)@.hosts, has_port(port)) is Some && e.message@
                            == "UNIQUE constraint failed: hosts.port"@
                    }
                },
            },
    {
        let n = self.host_index(id);
        let m = self.port_index(port);
        if n < self.hosts.len() {
            return Err(DbError { message: "UNIQUE constraint failed: hosts.id".to_owned() });
        }
        if m < self.hosts.len() {
            return Err(DbError { message: "UNIQUE constraint failed: hosts.port".to_owned() });
        }
        let row = HostRow {
            id: id.to_owned(),
            tenant_id: tenant_id.to_owned(),
            label: label.to_owned(),
            port,
            created_at: now,
            enabled: true,
        };
        self.apply(Change::InsertHost(row));
        Ok(())
    }

    /// The registration of a port.
    pub fn host_by_port(&self, port: u16) -> (out: Option<HostRow>)
        ensures
            rows::opt_host(out) == table::first(self@.hosts, has_port(port)),
    {
        let n = self.port_index(port);
        if n < self.hosts.len() {
            Some(self.hosts[n].clone())
        } else {
            None
        }
    }

    /// All registrations, by port.
    pub fn hosts_list(&self) -> (out: Vec<HostRow>)
        ensures
            rows::host_views(out@) == hosts_listed(self@),
    {
        table::rank(
            &self.hosts,
            |r: &HostRow| -> (k: i128)
                ensures
                    k == lowest_port()(r@)
                { r.port as i128 },
            Ghost(lowest_port()),
        )
    }

    /// Removes a registration; whether there was one.
    pub fn host_remove(&mut self, id: &str) -> (hit: bool)
        ensures
            hit == (table::first(old(self)@.hosts, has_host_id(id@)) is Some),
            old(self).advanced(final(self), seq![ChangeView::RemoveHost { id: id@ }]),
    {
        let n = self.host_index(id);
        let hit = n < self.hosts.len();
        self.apply(Change::RemoveHost { id: id.to_owned() });
        hit
    }
}

// ---- web password ---------------------------------------------------------

impl TokenDb {
    /// The hash of the web password and its version.
    pub fn web_password(&self) -> (out: Option<(String, i64)>)
        ensures
            match out {
                Some(w) => self@.web_password == Some((w.0@, w.1)),
                None => self@.web_password is None,
            },
    {
        match &self.web {
            Some(w) => Some((w.0.clone(), w.1)),
            None => None,
        }
    }

    /// The highest version that a web password has had; 0 where there was none.
    pub fn web_version(&self) -> (version: i64)
        ensures
            version == self@.web_version,
    {
        self.web_version
    }

    /// Sets the web password; the new version, one above the highest before, also
    /// where the password was removed in between.
    pub fn set_web_password(&mut self, hash: &str, now: i64) -> (version: i64)
        requires
            next_version(old(self)@) <= i64::MAX,
        ensures
            version == next_version(old(self)@),
            old(self).advanced(
                final(self),
                seq![ChangeView::SetWebPassword { hash: hash@, version, at: now }],
            ),
    {
        let version: i64 = self.web_version + 1;
        self.apply(Change::SetWebPassword { hash: hash.to_owned(), version, at: now });
        version
    }

    /// Removes the web password. Its version stays used.
    pub fn clear_web_password(&mut self)
        ensures
            old(self).advanced(final(self), seq![ChangeView::ClearWebPassword]),
    {
        self.apply(Change::ClearWebPassword);
    }
}

// ---- what is found --------------------------------------------------------

/// A token is looked for by its id, among those that are not revoked or among those
/// of one tenant.
pub proof fn law_token_lookups(t: TokenView, jti: Seq<char>, tenant_id: Seq<char>)
    ensures
        has_jti(jti)(t) <==> t.jti == jti,
        has_live_jti(jti)(t) <==> t.jti == jti && !t.revoked,
        has_live_jti_of(jti, tenant_id)(t) <==> t.jti == jti && !t.revoked && t.tenant_id
            == tenant_id,
        of_tenant(tenant_id)(t) <==> t.tenant_id == tenant_id,
{
}

/// A pairing is looked for by its id; by its code while it waits, up to the second
/// that its time ends; and its code is taken while it waits or was started less
/// than thirty minutes ago.
pub proof fn law_pairing_lookups(p: PairingView, id: Seq<char>, code: Seq<char>, now: i64)
    ensures
        has_pairing_id(id)(p) <==> p.id == id,
        has_code(code)(p) <==> p.code_d == code,
        is_pending_with(code)(p) <==> p.code_d == code && p.status == "pending"@,
        is_waiting_with(code, now)(p) <==> p.code_d == code && p.status == "pending"@ && now
            <= p.expires_at,
        blocks_code(code, now)(p) <==> p.code_d == code && (p.status == "pending"@ || now
            < p.created_at + 1800),
{
}

/// A claim is looked for by its id, or by the code that it answers while it stands.
pub proof fn law_claim_lookups(c: ClaimView, id: Seq<char>, code: Seq<char>)
    ensures
        has_claim_id(id)(c) <==> c.id == id,
        is_offered_id(id)(c) <==> c.id == id && c.status == "offered"@,
        is_offered_for(code)(c) <==> c.pairing_code == code && c.status == "offered"@,
{
}

/// A tenant is looked for by its id, or by the digest of its key while it is not
/// revoked; a host by its id or its port.
pub proof fn law_tenant_and_host_lookups(
    t: (TenantView, Seq<char>),
    h: HostView,
    id: Seq<char>,
    hash: Seq<char>,
    port: u16,
)
    ensures
        has_tenant_id(id)(t) <==> t.0.id == id,
        has_live_key(hash)(t) <==> t.1 == hash && !t.0.revoked,
        has_host_id(id)(h) <==> h.id == id,
        has_port(port)(h) <==> h.port == port,
{
}

/// A token passes where a row has its id and the first such row is not revoked; its
/// requests go where that row says.
pub proof fn law_tokens_go_by_their_row(db: DbView, jti: Seq<char>, k: int)
    requires
        0 <= k < db.tokens.len(),
        db.tokens[k].jti == jti,
        forall|i: int| 0 <= i < k ==> (#[trigger] db.tokens[i]).jti != jti,
    ensures
        token_valid(db, jti) == !db.tokens[k].revoked,
        !db.tokens[k].revoked ==> route(db, jti) == Some(
            (db.tokens[k].upstream_port, db.tokens[k].tenant_id),
        ),
{
    assert(table::is_first(db.tokens, has_jti(jti), k)) by {
        assert forall|i: int| 0 <= i < k implies !has_jti(jti)(#[trigger] db.tokens[i]) by {}
    }
    table::lemma_first(db.tokens, has_jti(jti), k);
    lemma_valid_has_route(db, jti);
}

/// An unknown token does not pass and goes nowhere.
pub proof fn law_unknown_tokens_go_nowhere(db: DbView, jti: Seq<char>)
    requires
        forall|i: int| 0 <= i < db.tokens.len() ==> (#[trigger] db.tokens[i]).jti != jti,
    ensures
        !token_valid(db, jti),
        route(db, jti) is None,
{
    table::lemma_first_holds(db.tokens, has_jti(jti));
    table::lemma_first_holds(db.tokens, has_live_jti(jti));
    if let Some(t) = table::first(db.tokens, has_jti(jti)) {
        let k = db.tokens.index_of(t);
        assert(db.tokens[k].jti != jti);
    }
    if let Some(t) = table::first(db.tokens, has_live_jti(jti)) {
        let k = db.tokens.index_of(t);
        assert(db.tokens[k].jti != jti);
    }
}

/// Tokens are listed newest first, tenants oldest first, hosts by their port; each
/// list holds every row.
pub proof fn law_lists_are_in_order(db: DbView, i: int, j: int)
    requires
        0 <= i < j,
    ensures
        tokens_listed(db).len() == db.tokens.len(),
        j < db.tokens.len() ==> tokens_listed(db)[i].created_at >= tokens_listed(db)[j].created_at,
        tenants_listed(db).len() == db.tenants.len(),
        j < db.tenants.len() ==> tenants_listed(db)[i].created_at <= tenants_listed(
            db,
        )[j].created_at,
        hosts_listed(db).len() == db.hosts.len(),
        j < db.hosts.len() ==> hosts_listed(db)[i].port <= hosts_listed(db)[j].port,
        forall|k: int|
            0 <= k < db.tokens.len() ==> tokens_listed(db).contains(#[trigger] db.tokens[k]),
        forall|k: int|
            0 <= k < db.tenants.len() ==> tenants_listed(db).contains(
                (#[trigger] db.tenants[k]).0,
            ),
        forall|k: int|
            0 <= k < db.hosts.len() ==> hosts_listed(db).contains(#[trigger] db.hosts[k]),
{
    let tenants = db.tenants.map_values(|t: (TenantView, Seq<char>)| t.0);
    if j < db.tokens.len() {
        table::law_ranking_goes_by_key(db.tokens, newest(), i, j);
    }
    if j < db.tenants.len() {
        table::law_ranking_goes_by_key(tenants, oldest_tenant(), i, j);
    }
    if j < db.hosts.len() {
        table::law_ranking_goes_by_key(db.hosts, lowest_port(), i, j);
    }
    assert forall|k: int| 0 <= k < db.tokens.len() implies tokens_listed(db).contains(
        #[trigger] db.tokens[k],
    ) by {
        table::lemma_ranked_has_all(db.tokens, newest(), k);
    }
    assert forall|k: int| 0 <= k < db.tenants.len() implies tenants_listed(db).contains(
        (#[trigger] db.tenants[k]).0,
    ) by {
        table::lemma_ranked_has_all(tenants, oldest_tenant(), k);
        assert(tenants[k] == db.tenants[k].0);
    }
    assert forall|k: int| 0 <= k < db.hosts.len() implies hosts_listed(db).contains(
        #[trigger] db.hosts[k],
    ) by {
        table::lemma_ranked_has_all(db.hosts, lowest_port(), k);
    }
}

/// The tokens of a tenant are listed newest first too.
pub proof fn law_tokens_of_a_tenant_are_in_order(db: DbView, tenant_id: Seq<char>, i: int, j: int)
    requires
        0 <= i < j < tokens_of_tenant(db, tenant_id).len(),
    ensures
        tokens_of_tenant(db, tenant_id)[i].created_at >= tokens_of_tenant(
            db,
            tenant_id,
        )[j].created_at,
{
    let listed = tokens_listed(db);
    assert forall|a: int, b: int| 0 <= a < b < listed.len() implies (
    #[trigger] listed[a]).created_at >= (#[trigger] listed[b]).created_at by {
        law_lists_are_in_order(db, a, b);
    }
    lemma_filter_keeps_order(listed, tenant_id);
}

proof fn lemma_filter_keeps_order(listed: Seq<TokenView>, tenant_id: Seq<char>)
    requires
        forall|a: int, b: int|
            0 <= a < b < listed.len() ==> (#[trigger] listed[a]).created_at >= (
            #[trigger] listed[b]).created_at,
    ensures
        forall|a: int, b: int|
            0 <= a < b < listed.filter(of_tenant(tenant_id)).len() ==> (#[trigger] listed.filter(
                of_tenant(tenant_id),
            )[a]).created_at >= (#[trigger] listed.filter(of_tenant(tenant_id))[b]).created_at,
    decreases listed.len(),
{
    reveal(Seq::filter);
    if listed.len() > 0 {
        let init = listed.drop_last();
        let p = of_tenant(tenant_id);
        lemma_filter_keeps_order(init, tenant_id);
        table::lemma_filter_from(init, p);
        let kept = init.filter(p);
        let all = listed.filter(p);
        assert forall|a: int, b: int| 0 <= a < b < all.len() implies (
        #[trigger] all[a]).created_at >= (#[trigger] all[b]).created_at by {
            assert(all[a] == kept[a]);
            if b < kept.len() {
                assert(all[b] == kept[b]);
            } else {
                let k = init.index_of(kept[a]);
                assert(init[k] == kept[a]);
                assert(listed[k] == init[k]);
                assert(listed[k].created_at >= listed[listed.len() - 1].created_at);
            }
        }
    }
}

/// The pairing that a code stands for is the one that was started last with it.
pub proof fn law_latest_pairing(db: DbView, code: Seq<char>, k: int)
    requires
        0 <= k < db.pairings.len(),
        db.pairings[k].code_d == code,
    ensures
        latest_pairing(db, code) is Some,
        latest_pairing(db, code)->0.code_d == code,
        db.pairings.contains(latest_pairing(db, code)->0),
        latest_pairing(db, code)->0.created_at >= db.pairings[k].created_at,
{
    broadcast use vstd::seq_lib::group_filter_ensures;

    let found = db.pairings.filter(has_code(code));
    assert(has_code(code)(db.pairings[k]));
    assert(db.pairings.contains(db.pairings[k]));
    assert(found.contains(db.pairings[k]));
    let m = found.index_of(db.pairings[k]);
    let ranked = table::ranked(found, newest_pairing());
    table::lemma_ranked_has_all(found, newest_pairing(), m);
    let j = ranked.index_of(db.pairings[k]);
    if j > 0 {
        table::law_ranking_goes_by_key(found, newest_pairing(), 0, j);
    }
    table::lemma_ranked_from(found, newest_pairing(), 0);
    let a = found.index_of(ranked[0]);
    db.pairings.lemma_filter_pred(has_code(code), a);
    table::lemma_filter_from(db.pairings, has_code(code));
    assert(db.pairings.contains(found[a]));
}

/// A code that nobody has started with stands for no pairing.
pub proof fn law_unknown_code(db: DbView, code: Seq<char>)
    requires
        forall|k: int| 0 <= k < db.pairings.len() ==> (#[trigger] db.pairings[k]).code_d != code,
    ensures
        latest_pairing(db, code) is None,
        pairing_and_token(db, code) is None,
{
    let found = db.pairings.filter(has_code(code));
    if found.len() > 0 {
        db.pairings.lemma_filter_pred(has_code(code), 0);
        table::lemma_filter_from(db.pairings, has_code(code));
        let k = db.pairings.index_of(found[0]);
        assert(db.pairings[k].code_d != code);
    }
}

/// A register that has advanced holds what its changes make of it, and its journal
/// has gained them, one after the other.
pub proof fn law_journal_gains_the_changes(pre: TokenDb, post: TokenDb, changes: Seq<ChangeView>)
    requires
        pre.advanced(&post, changes),
    ensures
        post@ == change::replay(pre@, changes),
        post.journal().len() == pre.journal().len() + changes.len(),
        post.journal() == pre.journal() + changes,
{
}

} // verus!
