//! The state that all requests share.
use vstd::prelude::*;

use crate::config::Config;
use crate::db::TokenDb;
use crate::limiter::LoginRateLimiter;
use crate::presence::WsPresence;
use crate::split;

verus! {

pub struct AppState {
    pub config: Config,
    pub db: TokenDb,
    pub login_limiter: LoginRateLimiter,
    /// The limit on pairing, which counts apart from logins.
    pub pair_limiter: LoginRateLimiter,
    /// The limit on tenant requests. It is wide, since a Mac that waits for a
    /// phone asks every few seconds, and keeps keys from being guessed.
    pub admin_limiter: LoginRateLimiter,
    pub ws_sessions: WsPresence,
}

impl AppState {
    /// The tokens that hold a WebSocket, each once.
    pub fn ws_online(&self) -> (out: Vec<String>)
        ensures
            split::views(out@).no_duplicates(),
            split::views(out@).to_set() == self.ws_sessions@.dom(),
    {
        self.ws_sessions.ws_online()
    }
}

/// Nothing but the register and the login limiter has changed.
pub open spec fn kept_but_db_and_login(pre: AppState, post: AppState) -> bool {
    &&& post.config == pre.config
    &&& post.pair_limiter == pre.pair_limiter
    &&& post.admin_limiter == pre.admin_limiter
    &&& post.ws_sessions == pre.ws_sessions
}

/// Nothing but the register and the pairing limiter has changed.
pub open spec fn kept_but_db_and_pair(pre: AppState, post: AppState) -> bool {
    &&& post.config == pre.config
    &&& post.login_limiter == pre.login_limiter
    &&& post.admin_limiter == pre.admin_limiter
    &&& post.ws_sessions == pre.ws_sessions
}

/// Nothing but the register has changed.
pub open spec fn kept_but_db(pre: AppState, post: AppState) -> bool {
    &&& kept_but_db_and_login(pre, post)
    &&& post.login_limiter == pre.login_limiter
}

/// Nothing but the limiter of tenant requests has changed.
pub open spec fn kept_but_admin(pre: AppState, post: AppState) -> bool {
    &&& post.config == pre.config
    &&& post.db == pre.db
    &&& post.login_limiter == pre.login_limiter
    &&& post.pair_limiter == pre.pair_limiter
    &&& post.ws_sessions == pre.ws_sessions
}

/// What stays as it is, part by part.
pub proof fn law_kept_parts(pre: AppState, post: AppState)
    ensures
        kept_but_db(pre, post) ==> post.config == pre.config && post.login_limiter
            == pre.login_limiter && post.pair_limiter == pre.pair_limiter && post.admin_limiter
            == pre.admin_limiter && post.ws_sessions == pre.ws_sessions,
        kept_but_db_and_login(pre, post) ==> post.config == pre.config && post.pair_limiter
            == pre.pair_limiter && post.admin_limiter == pre.admin_limiter && post.ws_sessions
            == pre.ws_sessions,
        kept_but_db_and_pair(pre, post) ==> post.config == pre.config && post.login_limiter
            == pre.login_limiter && post.admin_limiter == pre.admin_limiter && post.ws_sessions
            == pre.ws_sessions,
        kept_but_admin(pre, post) ==> post.config == pre.config && post.db == pre.db
            && post.login_limiter == pre.login_limiter && post.pair_limiter == pre.pair_limiter
            && post.ws_sessions == pre.ws_sessions,
{
}

} // verus!
