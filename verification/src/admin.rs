//! What a Mac or the operator asks: how a pairing stands, which tokens there
//! are, and to revoke one. The operator sees everything, a tenant its own.
use vstd::prelude::*;

use crate::change::{ChangeView, DbView};
use crate::db;
use crate::error;
use crate::error::{AppError, AppResult, ErrorView};
use crate::pair;
use crate::rows::{TokenRow, TokenView};
use crate::split;
use crate::state;
use crate::state::AppState;
use crate::table;
use crate::tenant::TenantCtx;
use crate::text;

verus! {

/// The reference of a host: its tunnel port in decimal.
pub open spec fn host_ref_text(port: Option<u16>) -> Option<Seq<char>> {
    match port {
        Some(p) => Some(text::decimal(p as nat)),
        None => None,
    }
}

fn host_ref_of(port: Option<u16>) -> (out: Option<String>)
    ensures
        text::opt(out) == host_ref_text(port),
{
    match port {
        Some(p) => Some(text::decimal_of(p as u64)),
        None => None,
    }
}

// ---- revoking -------------------------------------------------------------

pub struct AdminRevokeRequest {
    pub jti: String,
}

/// Whether a token was revoked.
#[derive(Debug)]
pub struct AdminRevokeResponse {
    pub revoked: bool,
}

/// What a request to revoke leads to. For a tenant the token of another and an
/// unknown one are alike.
pub open spec fn admin_revoke_outcome(db: DbView, ctx: (Seq<char>, bool), jti: Seq<char>) -> (
    Seq<ChangeView>,
    bool,
) {
    if ctx.1 {
        (
            seq![ChangeView::RevokeToken { jti }],
            table::first(db.tokens, db::has_live_jti(jti)) is Some,
        )
    } else {
        (
            seq![ChangeView::RevokeTokenInTenant { jti, tenant_id: ctx.0 }],
            table::first(db.tokens, db::has_live_jti_of(jti, ctx.0)) is Some,
        )
    }
}

/// Revokes a token: any for the operator, its own for a tenant.
pub fn admin_revoke_token_handler(state: &mut AppState, ctx: &TenantCtx, req: &AdminRevokeRequest)
    -> (out: AdminRevokeResponse)
    ensures
        old(state).db.advanced(
            &final(state).db,
            admin_revoke_outcome(old(state).db@, ctx@, req.jti@).0,
        ),
        out.revoked == admin_revoke_outcome(old(state).db@, ctx@, req.jti@).1,
        state::kept_but_db(*old(state), *final(state)),
{
    let revoked = if ctx.operator {
        state.db.revoke(req.jti.as_str())
    } else {
        state.db.revoke_in_tenant(req.jti.as_str(), ctx.id.as_str())
    };
    AdminRevokeResponse { revoked }
}

// ---- how a pairing stands -------------------------------------------------

/// A token with the reference of its host.
#[derive(Debug)]
pub struct TokenInfo {
    pub row: TokenRow,
    pub host_ref: Option<String>,
}

impl View for TokenInfo {
    type V = (TokenView, Option<Seq<char>>);

    open spec fn view(&self) -> (TokenView, Option<Seq<char>>) {
        (self.row@, text::opt(self.host_ref))
    }
}

#[derive(Debug)]
pub struct AdminStatusResponse {
    pub status: String,
    pub device: String,
    pub confirmed: bool,
    pub token: Option<TokenInfo>,
}

pub struct StatusView {
    pub status: Seq<char>,
    pub device: Seq<char>,
    pub confirmed: bool,
    pub token: Option<(TokenView, Option<Seq<char>>)>,
}

impl View for AdminStatusResponse {
    type V = StatusView;

    open spec fn view(&self) -> StatusView {
        StatusView {
            status: self.status@,
            device: self.device@,
            confirmed: self.confirmed,
            token: match self.token {
                Some(t) => Some(t@),
                None => None,
            },
        }
    }
}

/// How the pairing that was started last with a code stands. A tenant sees no
/// pairing that is anchored to another, and no token of another.
pub open spec fn status_outcome(
    db: DbView,
    ctx: (Seq<char>, bool),
    code: Option<Seq<char>>,
) -> Result<StatusView, ErrorView> {
    match code {
        None => Err(ErrorView::BadRequest("code required"@)),
        Some(c) => match db::pairing_and_token(db, split::plain_code(c)) {
            None => Err(ErrorView::NotFound("no pairing with this code"@)),
            Some(found) => if pair::hidden_from(ctx, found.0.tenant_id) {
                Err(ErrorView::NotFound("no pairing with this code"@))
            } else {
                Ok(
                    StatusView {
                        status: found.0.status,
                        device: found.0.device,
                        confirmed: found.0.status == "confirmed"@,
                        token: match found.1 {
                            Some(t) if ctx.1 || t.tenant_id == ctx.0 => Some(
                                (t, host_ref_text(t.upstream_port)),
                            ),
                            _ => None,
                        },
                    },
                )
            },
        },
    }
}

/// Tells a Mac how the pairing with a code stands.
pub fn admin_status_handler(state: &AppState, ctx: &TenantCtx, code: &Option<String>) -> (res:
    AppResult<AdminStatusResponse>)
    ensures
        error::viewed(res) == status_outcome(state.db@, ctx@, text::opt(*code)),
{
    let code = match code {
        Some(c) => split::plain_code_of(c.as_str()),
        None => {
            return Err(AppError::BadRequest("code required".to_owned()));
        },
    };
    let (p, token) = match state.db.pairing_status_with_token(code.as_str()) {
        Some(found) => found,
        None => {
            return Err(AppError::NotFound("no pairing with this code".to_owned()));
        },
    };
    if !ctx.operator && !p.tenant_id.as_str().is_empty() && !text::same(
        p.tenant_id.as_str(),
        ctx.id.as_str(),
    ) {
        return Err(AppError::NotFound("no pairing with this code".to_owned()));
    }
    let confirmed = text::same(p.status.as_str(), "confirmed");
    let token = match token {
        Some(t) => if ctx.operator || text::same(t.tenant_id.as_str(), ctx.id.as_str()) {
            let host_ref = host_ref_of(t.upstream_port);
            Some(TokenInfo { row: t, host_ref })
        } else {
            None
        },
        None => None,
    };
    Ok(AdminStatusResponse { status: p.status, device: p.device, confirmed, token })
}

// ---- which tokens there are -----------------------------------------------

/// A token, whether it holds a WebSocket, and the reference of its host.
#[derive(Debug)]
pub struct TokenStatus {
    pub row: TokenRow,
    pub connected: bool,
    pub host_ref: Option<String>,
}

pub struct TokenStatusView {
    pub row: TokenView,
    pub connected: bool,
    pub host_ref: Option<Seq<char>>,
}

impl View for TokenStatus {
    type V = TokenStatusView;

    open spec fn view(&self) -> TokenStatusView {
        TokenStatusView {
            row: self.row@,
            connected: self.connected,
            host_ref: text::opt(self.host_ref),
        }
    }
}

pub open spec fn status_views(items: Seq<TokenStatus>) -> Seq<TokenStatusView> {
    items.map_values(|t: TokenStatus| t@)
}

pub open spec fn with_status(online: Set<Seq<char>>) -> spec_fn(TokenView) -> TokenStatusView {
    |t: TokenView|
        TokenStatusView {
            row: t,
            connected: online.contains(t.jti),
            host_ref: host_ref_text(t.upstream_port),
        }
}

/// The tokens that a request is shown: all for the operator, its own for a
/// tenant, newest first.
pub open spec fn tokens_shown(
    db: DbView,
    ctx: (Seq<char>, bool),
    online: Set<Seq<char>>,
) -> Seq<TokenStatusView> {
    (if ctx.1 {
        db::tokens_listed(db)
    } else {
        db::tokens_of_tenant(db, ctx.0)
    }).map_values(with_status(online))
}

fn is_among(items: &Vec<String>, s: &str) -> (r: bool)
    ensures
        r == split::views(items@).contains(s@),
{
    for i in 0..items.len()
        invariant
            forall|j: int| 0 <= j < i ==> #[trigger] split::views(items@)[j] != s@,
    {
        assert(split::views(items@)[i as int] == items@[i as int]@);
        if text::same(items[i].as_str(), s) {
            return true;
        }
    }
    false
}

/// Lists tokens with whether each is online.
pub fn admin_tokens_handler(state: &AppState, ctx: &TenantCtx) -> (out: Vec<TokenStatus>)
    ensures
        status_views(out@) == tokens_shown(state.db@, ctx@, state.ws_sessions@.dom()),
{
    let list = if ctx.operator {
        state.db.list()
    } else {
        state.db.list_for_tenant(ctx.id.as_str())
    };
    let online = state.ws_online();
    let ghost on = state.ws_sessions@.dom();
    let ghost shown = crate::rows::token_views(list@).map_values(with_status(on));
    let mut out: Vec<TokenStatus> = Vec::new();
    for i in 0..list.len()
        invariant
            shown == crate::rows::token_views(list@).map_values(with_status(on)),
            split::views(online@).to_set() == on,
            out.len() == i,
            forall|j: int| 0 <= j < i ==> (#[trigger] out@[j])@ == shown[j],
    {
        let row = list[i].clone();
        let connected = is_among(&online, row.jti.as_str());
        assert(split::views(online@).to_set().contains(row.jti@) == split::views(
            online@,
        ).contains(row.jti@));
        let host_ref = host_ref_of(row.upstream_port);
        let item = TokenStatus { row, connected, host_ref };
        assert(item@ == shown[i as int]);
        out.push(item);
    }
    assert(status_views(out@) =~= shown);
    out
}

} // verus!
