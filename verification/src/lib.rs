//! The gateway between phones and the machines that they are paired with:
//! pairing, device tokens, tenants and the relay.
pub mod admin;
pub mod answers;
pub mod auth;
pub mod change;
pub mod clock;
pub mod config;
pub mod consistency;
pub mod crypto;
pub mod db;
pub mod error;
pub mod http;
pub mod jwt;
pub mod limiter;
pub mod pages;
pub mod pair;
pub mod presence;
pub mod protocol;
pub mod qr;
pub mod relay;
pub mod rows;
pub mod session;
pub mod split;
pub mod state;
pub mod table;
pub mod tenant;
pub mod text;
pub mod web;

pub use state::AppState;
