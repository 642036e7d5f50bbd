//! The rows of the register and what they hold.
use vstd::prelude::*;

use crate::table;

verus! {

/// An issued device token.
#[derive(Debug)]
pub struct TokenRow {
    pub jti: String,
    pub device: String,
    pub created_at: i64,
    pub last_used_at: Option<i64>,
    pub revoked: bool,
    /// The tunnel port that the pairing bound; `None` for a password login,
    /// which is relayed to the default upstream.
    pub upstream_port: Option<u16>,
    /// The machine that was paired with; empty for a password login.
    pub host_label: String,
    pub tenant_id: String,
}

/// A pairing that a phone has started.
#[derive(Debug)]
pub struct PairingRow {
    pub id: String,
    pub code_d: String,
    pub secret: String,
    pub device: String,
    pub created_at: i64,
    pub expires_at: i64,
    /// `pending`, `confirmed` or `expired`.
    pub status: String,
    pub token_jti: String,
    /// The tenant that the pairing is anchored to; empty for an open pairing.
    pub tenant_id: String,
}

/// What a Mac offers to the phone that shows a code.
#[derive(Debug)]
pub struct ClaimRow {
    pub id: String,
    pub pairing_code: String,
    pub host_code: String,
    pub host_label: String,
    pub upstream_port: u16,
    pub created_at: i64,
    pub expires_at: i64,
    /// `offered`, `consumed` or `expired`.
    pub status: String,
    /// The tenant of the Mac; the token inherits it.
    pub tenant_id: String,
}

#[derive(Debug)]
pub struct TenantRow {
    pub id: String,
    pub name: String,
    pub created_at: i64,
    pub revoked: bool,
}

/// A tunnel port that is registered to a tenant.
#[derive(Debug)]
pub struct HostRow {
    pub id: String,
    pub tenant_id: String,
    pub label: String,
    pub port: u16,
    pub created_at: i64,
    pub enabled: bool,
}

pub struct TokenView {
    pub jti: Seq<char>,
    pub device: Seq<char>,
    pub created_at: i64,
    pub last_used_at: Option<i64>,
    pub revoked: bool,
    pub upstream_port: Option<u16>,
    pub host_label: Seq<char>,
    pub tenant_id: Seq<char>,
}

pub struct PairingView {
    pub id: Seq<char>,
    pub code_d: Seq<char>,
    pub secret: Seq<char>,
    pub device: Seq<char>,
    pub created_at: i64,
    pub expires_at: i64,
    pub status: Seq<char>,
    pub token_jti: Seq<char>,
    pub tenant_id: Seq<char>,
}

pub struct ClaimView {
    pub id: Seq<char>,
    pub pairing_code: Seq<char>,
    pub host_code: Seq<char>,
    pub host_label: Seq<char>,
    pub upstream_port: u16,
    pub created_at: i64,
    pub expires_at: i64,
    pub status: Seq<char>,
    pub tenant_id: Seq<char>,
}

pub struct TenantView {
    pub id: Seq<char>,
    pub name: Seq<char>,
    pub created_at: i64,
    pub revoked: bool,
}

pub struct HostView {
    pub id: Seq<char>,
    pub tenant_id: Seq<char>,
    pub label: Seq<char>,
    pub port: u16,
    pub created_at: i64,
    pub enabled: bool,
}

impl View for TokenRow {
    type V = TokenView;

    open spec fn view(&self) -> TokenView {
        TokenView {
            jti: self.jti@,
            device: self.device@,
            created_at: self.created_at,
            last_used_at: self.last_used_at,
            revoked: self.revoked,
            upstream_port: self.upstream_port,
            host_label: self.host_label@,
            tenant_id: self.tenant_id@,
        }
    }
}

impl View for PairingRow {
    type V = PairingView;

    open spec fn view(&self) -> PairingView {
        PairingView {
            id: self.id@,
            code_d: self.code_d@,
            secret: self.secret@,
            device: self.device@,
            created_at: self.created_at,
            expires_at: self.expires_at,
            status: self.status@,
            token_jti: self.token_jti@,
            tenant_id: self.tenant_id@,
        }
    }
}

impl View for ClaimRow {
    type V = ClaimView;

    open spec fn view(&self) -> ClaimView {
        ClaimView {
            id: self.id@,
            pairing_code: self.pairing_code@,
            host_code: self.host_code@,
            host_label: self.host_label@,
            upstream_port: self.upstream_port,
            created_at: self.created_at,
            expires_at: self.expires_at,
            status: self.status@,
            tenant_id: self.tenant_id@,
        }
    }
}

impl View for TenantRow {
    type V = TenantView;

    open spec fn view(&self) -> TenantView {
        TenantView {
            id: self.id@,
            name: self.name@,
            created_at: self.created_at,
            revoked: self.revoked,
        }
    }
}

impl View for HostRow {
    type V = HostView;

    open spec fn view(&self) -> HostView {
        HostView {
            id: self.id@,
            tenant_id: self.tenant_id@,
            label: self.label@,
            port: self.port,
            created_at: self.created_at,
            enabled: self.enabled,
        }
    }
}

impl Clone for TokenRow {
    fn clone(&self) -> (out: Self)
        ensures
            out@ == self@,
    {
        TokenRow {
            jti: self.jti.clone(),
            device: self.device.clone(),
            created_at: self.created_at,
            last_used_at: self.last_used_at,
            revoked: self.revoked,
            upstream_port: self.upstream_port,
            host_label: self.host_label.clone(),
            tenant_id: self.tenant_id.clone(),
        }
    }
}

impl Clone for PairingRow {
    fn clone(&self) -> (out: Self)
        ensures
            out@ == self@,
    {
        PairingRow {
            id: self.id.clone(),
            code_d: self.code_d.clone(),
            secret: self.secret.clone(),
            device: self.device.clone(),
            created_at: self.created_at,
            expires_at: self.expires_at,
            status: self.status.clone(),
            token_jti: self.token_jti.clone(),
            tenant_id: self.tenant_id.clone(),
        }
    }
}

impl Clone for ClaimRow {
    fn clone(&self) -> (out: Self)
        ensures
            out@ == self@,
    {
        ClaimRow {
            id: self.id.clone(),
            pairing_code: self.pairing_code.clone(),
            host_code: self.host_code.clone(),
            host_label: self.host_label.clone(),
            upstream_port: self.upstream_port,
            created_at: self.created_at,
            expires_at: self.expires_at,
            status: self.status.clone(),
            tenant_id: self.tenant_id.clone(),
        }
    }
}

impl Clone for TenantRow {
    fn clone(&self) -> (out: Self)
        ensures
            out@ == self@,
    {
        TenantRow {
            id: self.id.clone(),
            name: self.name.clone(),
            created_at: self.created_at,
            revoked: self.revoked,
        }
    }
}

impl Clone for HostRow {
    fn clone(&self) -> (out: Self)
        ensures
            out@ == self@,
    {
        HostRow {
            id: self.id.clone(),
            tenant_id: self.tenant_id.clone(),
            label: self.label.clone(),
            port: self.port,
            created_at: self.created_at,
            enabled: self.enabled,
        }
    }
}

pub open spec fn token_views(rows: Seq<TokenRow>) -> Seq<TokenView> {
    table::views(rows)
}

pub open spec fn pairing_views(rows: Seq<PairingRow>) -> Seq<PairingView> {
    table::views(rows)
}

pub open spec fn claim_views(rows: Seq<ClaimRow>) -> Seq<ClaimView> {
    table::views(rows)
}

pub open spec fn tenant_views(rows: Seq<TenantRow>) -> Seq<TenantView> {
    table::views(rows)
}

pub open spec fn host_views(rows: Seq<HostRow>) -> Seq<HostView> {
    table::views(rows)
}

/// The view of an optional row.
pub open spec fn opt_pairing(row: Option<PairingRow>) -> Option<PairingView> {
    match row {
        Some(r) => Some(r@),
        None => None,
    }
}

pub open spec fn opt_token(row: Option<TokenRow>) -> Option<TokenView> {
    match row {
        Some(r) => Some(r@),
        None => None,
    }
}

pub open spec fn opt_claim(row: Option<ClaimRow>) -> Option<ClaimView> {
    match row {
        Some(r) => Some(r@),
        None => None,
    }
}

pub open spec fn opt_tenant(row: Option<TenantRow>) -> Option<TenantView> {
    match row {
        Some(r) => Some(r@),
        None => None,
    }
}

pub open spec fn opt_host(row: Option<HostRow>) -> Option<HostView> {
    match row {
        Some(r) => Some(r@),
        None => None,
    }
}

} // verus!
