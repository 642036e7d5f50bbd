//! A limit on attempts per key, over a sliding window.
use std::time::Instant;
use vstd::hash_map::StringHashMap;
use vstd::prelude::*;

use crate::clock;

verus! {

/// The time between two readings of the clock; none where the first is later.
pub open spec fn passed(from: u128, to: u128) -> int {
    if from < to {
        to - from
    } else {
        0
    }
}

/// Whether an attempt still counts: less than a window has passed since.
pub open spec fn counts_at(tick: u128, window: nat) -> spec_fn(u128) -> bool {
    |t: u128| passed(t, tick) < window
}

/// The attempts that still count.
pub open spec fn recent(attempts: Seq<u128>, tick: u128, window: nat) -> Seq<u128> {
    attempts.filter(counts_at(tick, window))
}

/// Lets a number of attempts per key pass in a window of time. Each limiter
/// counts for itself. Times are in nanoseconds since the limiter was made.
pub struct LoginRateLimiter {
    attempts: StringHashMap<Vec<u128>>,
    window: u128,
    max_attempts: usize,
    epoch: Instant,
}

impl LoginRateLimiter {
    /// The attempts of a key that were let pass and may still count.
    pub closed spec fn attempts(&self, key: Seq<char>) -> Seq<u128> {
        if self.attempts@.contains_key(key) {
            self.attempts@[key]@
        } else {
            Seq::empty()
        }
    }

    /// The window, in nanoseconds.
    pub closed spec fn window(&self) -> nat {
        self.window as nat
    }

    /// How many attempts pass in a window.
    pub closed spec fn max(&self) -> nat {
        self.max_attempts as nat
    }

    /// No attempt has been made.
    pub open spec fn is_fresh(&self, max: nat, window_secs: nat) -> bool {
        &&& self.max() == max
        &&& self.window() == window_secs * 1_000_000_000
        &&& forall|key: Seq<char>| #[trigger] self.attempts(key) == Seq::<u128>::empty()
    }

    /// An attempt with this key passes at this time.
    pub open spec fn admits(&self, key: Seq<char>, tick: u128) -> bool {
        recent(self.attempts(key), tick, self.window()).len() < self.max()
    }

    /// `post` is this limiter after an attempt with this key at this time. An
    /// attempt that does not pass is not counted; other keys are not touched.
    pub open spec fn counted(&self, post: &Self, key: Seq<char>, tick: u128) -> bool {
        &&& post.max() == self.max()
        &&& post.window() == self.window()
        &&& post.attempts(key) == (if self.admits(key, tick) {
            recent(self.attempts(key), tick, self.window()).push(tick)
        } else {
            recent(self.attempts(key), tick, self.window())
        })
        &&& forall|k: Seq<char>| k != key ==> #[trigger] post.attempts(k) == self.attempts(k)
    }

    /// A limiter for `max_attempts` in `window_secs` seconds.
    pub fn new_limits(max_attempts: usize, window_secs: u64) -> (out: LoginRateLimiter)
        ensures
            out.is_fresh(max_attempts as nat, window_secs as nat),
    {
        LoginRateLimiter {
            attempts: StringHashMap::new(),
            window: window_secs as u128 * 1_000_000_000,
            max_attempts,
            epoch: clock::steady_now(),
        }
    }

    /// The limiter for logins: 8 attempts in 300 seconds.
    pub fn new() -> (out: LoginRateLimiter)
        ensures
            out.is_fresh(8, 300),
    {
        LoginRateLimiter::new_limits(8, 300)
    }

    /// The limiter for pairing, where people type codes: 20 in 300 seconds.
    pub fn new_pairing() -> (out: LoginRateLimiter)
        ensures
            out.is_fresh(20, 300),
    {
        LoginRateLimiter::new_limits(20, 300)
    }

    /// The limiter for tenant requests: 300 in 300 seconds, since a Mac that waits
    /// for a phone asks every few seconds.
    pub fn new_admin() -> (out: LoginRateLimiter)
        ensures
            out.is_fresh(300, 300),
    {
        LoginRateLimiter::new_limits(300, 300)
    }

    /// Whether an attempt at the given time passes; one that does is counted.
    pub fn allow_at(&mut self, key: &str, tick: u128) -> (ok: bool)
        ensures
            ok == old(self).admits(key@, tick),
            old(self).counted(final(self), key@, tick),
    {
        let mut kept: Vec<u128> = Vec::new();
        let window: u128 = self.window;
        let ghost p = counts_at(tick, self.window());
        let ghost all = self.attempts(key@);
        assert(all.take(0).filter(p) == Seq::<u128>::empty()) by {
            reveal(Seq::filter);
        }
        if let Some(list) = self.attempts.get(key) {
            assert(all == list@);
            for i in 0..list.len()
                invariant
                    all == list@,
                    p == counts_at(tick, window as nat),
                    kept@ == all.take(i as int).filter(p),
            {
                proof {
                    reveal(Seq::filter);
                    assert(all.take(i + 1).drop_last() == all.take(i as int));
                    assert(all.take(i + 1).last() == all[i as int]);
                }
                let t: u128 = list[i];
                let age: u128 = if t < tick {
                    tick - t
                } else {
                    0
                };
                if age < window {
                    kept.push(t);
                }
            }
            assert(all.take(list.len() as int) == all);
        } else {
            assert(all.take(0) == all);
        }
        assert(kept@ == recent(all, tick, self.window()));
        let ok = kept.len() < self.max_attempts;
        if ok {
            kept.push(tick);
        }
        self.attempts.insert(key.to_owned(), kept);
        ok
    }

    /// Whether an attempt made now passes.
    pub fn allow(&mut self, key: &str) -> (ok: bool)
        ensures
            exists|tick: u128|
                ok == old(self).admits(key@, tick) && #[trigger] old(self).counted(
                    final(self),
                    key@,
                    tick,
                ),
    {
        let tick: u128 = clock::nanos_since(&self.epoch);
        self.allow_at(key, tick)
    }
}

impl Default for LoginRateLimiter {
    fn default() -> (out: Self)
        ensures
            out.is_fresh(8, 300),
    {
        LoginRateLimiter::new()
    }
}

// ---- what the limit means over time ---------------------------------------

/// The attempts of one key that pass, of those made at the given times.
pub open spec fn passing(ticks: Seq<u128>, max: nat, window: nat) -> Seq<u128>
    decreases ticks.len(),
{
    if ticks.len() == 0 {
        Seq::empty()
    } else {
        let before = passing(ticks.drop_last(), max, window);
        if recent(noted(ticks.drop_last(), max, window), ticks.last(), window).len() < max {
            before.push(ticks.last())
        } else {
            before
        }
    }
}

/// What a limiter has noted for one key after attempts at the given times.
pub open spec fn noted(ticks: Seq<u128>, max: nat, window: nat) -> Seq<u128>
    decreases ticks.len(),
{
    if ticks.len() == 0 {
        Seq::empty()
    } else {
        let kept = recent(noted(ticks.drop_last(), max, window), ticks.last(), window);
        if kept.len() < max {
            kept.push(ticks.last())
        } else {
            kept
        }
    }
}

pub open spec fn in_order(ticks: Seq<u128>) -> bool {
    forall|i: int, j: int| 0 <= i <= j < ticks.len() ==> ticks[i] <= ticks[j]
}

/// A limiter does what `passing` and `noted` say: one more attempt takes it from
/// what it has noted to what it notes next.
pub proof fn law_limiter_follows_attempts(
    pre: LoginRateLimiter,
    post: LoginRateLimiter,
    key: Seq<char>,
    ticks: Seq<u128>,
    tick: u128,
)
    requires
        pre.attempts(key) == noted(ticks, pre.max(), pre.window()),
        pre.counted(&post, key, tick),
    ensures
        post.attempts(key) == noted(ticks.push(tick), post.max(), post.window()),
        passing(ticks.push(tick), pre.max(), pre.window()) == (if pre.admits(key, tick) {
            passing(ticks, pre.max(), pre.window()).push(tick)
        } else {
            passing(ticks, pre.max(), pre.window())
        }),
{
    assert(ticks.push(tick).drop_last() == ticks);
}

proof fn lemma_filter_narrows(s: Seq<u128>, a: u128, b: u128, window: nat)
    requires
        a <= b,
        forall|i: int| 0 <= i < s.len() ==> s[i] <= a,
    ensures
        recent(recent(s, a, window), b, window) == recent(s, b, window),
    decreases s.len(),
{
    reveal(Seq::filter);
    if s.len() > 0 {
        let init = s.drop_last();
        lemma_filter_narrows(init, a, b, window);
        let kept = recent(init, a, window);
        if counts_at(a, window)(s.last()) {
            assert(recent(s, a, window) == kept.push(s.last()));
            assert(kept.push(s.last()).drop_last() == kept);
        }
    }
}

proof fn lemma_noted_is_recent(ticks: Seq<u128>, max: nat, window: nat)
    requires
        in_order(ticks),
        ticks.len() > 0,
        window > 0,
    ensures
        noted(ticks, max, window) == recent(passing(ticks, max, window), ticks.last(), window),
        noted(ticks, max, window).len() <= max,
        forall|i: int|
            0 <= i < passing(ticks, max, window).len() ==> passing(ticks, max, window)[i]
                <= ticks.last(),
    decreases ticks.len(),
{
    reveal(Seq::filter);
    let init = ticks.drop_last();
    let last = ticks.last();
    let before = passing(init, max, window);
    if init.len() > 0 {
        lemma_noted_is_recent(init, max, window);
        lemma_filter_narrows(before, init.last(), last, window);
        assert(init.last() <= last);
    } else {
        assert(before == Seq::<u128>::empty());
        assert(noted(init, max, window) == Seq::<u128>::empty());
    }
    let kept = recent(noted(init, max, window), last, window);
    assert(kept == recent(before, last, window));
    if kept.len() < max {
        assert(before.push(last).drop_last() == before);
        assert(counts_at(last, window)(last));
        assert(recent(before.push(last), last, window) == kept.push(last));
    } else {
        if init.len() > 0 {
            lemma_recent_shrinks(noted(init, max, window), last, window);
        }
    }
}

proof fn lemma_recent_shrinks(s: Seq<u128>, tick: u128, window: nat)
    ensures
        recent(s, tick, window).len() <= s.len(),
    decreases s.len(),
{
    reveal(Seq::filter);
    if s.len() > 0 {
        lemma_recent_shrinks(s.drop_last(), tick, window);
    }
}

/// In every window that ends with an attempt, no more attempts of a key pass
/// than the limit allows.
pub proof fn law_no_more_than_the_limit_in_a_window(ticks: Seq<u128>, max: nat, window: nat)
    requires
        in_order(ticks),
        ticks.len() > 0,
    ensures
        recent(passing(ticks, max, window), ticks.last(), window).len() <= max,
{
    if window > 0 {
        lemma_noted_is_recent(ticks, max, window);
    } else {
        lemma_nothing_counts(passing(ticks, max, window), ticks.last());
    }
}

/// An attempt passes exactly where fewer attempts of its key than the limit have
/// passed within a window before it.
pub proof fn law_attempt_passes_below_the_limit(
    ticks: Seq<u128>,
    tick: u128,
    max: nat,
    window: nat,
)
    requires
        in_order(ticks.push(tick)),
    ensures
        passing(ticks.push(tick), max, window) == (if recent(
            passing(ticks, max, window),
            tick,
            window,
        ).len() < max {
            passing(ticks, max, window).push(tick)
        } else {
            passing(ticks, max, window)
        }),
{
    let all = ticks.push(tick);
    let before = passing(ticks, max, window);
    assert(all.drop_last() == ticks);
    assert(all.last() == tick);
    if window == 0 {
        lemma_nothing_counts(noted(ticks, max, window), tick);
        lemma_nothing_counts(before, tick);
    } else if ticks.len() > 0 {
        assert(in_order(ticks)) by {
            assert forall|i: int, j: int| 0 <= i <= j < ticks.len() implies ticks[i]
                <= ticks[j] by {
                assert(all[i] <= all[j]);
            }
        }
        lemma_noted_is_recent(ticks, max, window);
        assert(all[ticks.len() - 1] <= all[ticks.len() as int]);
        lemma_filter_narrows(before, ticks.last(), tick, window);
    }
}

proof fn lemma_nothing_counts(s: Seq<u128>, tick: u128)
    ensures
        recent(s, tick, 0).len() == 0,
    decreases s.len(),
{
    reveal(Seq::filter);
    if s.len() > 0 {
        lemma_nothing_counts(s.drop_last(), tick);
    }
}

/// An attempt counts for as long as less time than the window has passed since, and
/// nothing else counts.
pub proof fn law_attempts_count_for_a_window(
    attempts: Seq<u128>,
    t: u128,
    tick: u128,
    window: nat,
)
    requires
        t <= tick,
    ensures
        recent(attempts, tick, window).contains(t) <==> attempts.contains(t) && tick - t < window,
{
    broadcast use vstd::seq_lib::group_filter_ensures;

    crate::table::lemma_filter_from(attempts, counts_at(tick, window));
    if recent(attempts, tick, window).contains(t) {
        let i = recent(attempts, tick, window).index_of(t);
        attempts.lemma_filter_pred(counts_at(tick, window), i);
        assert(attempts.contains(recent(attempts, tick, window)[i]));
    }
    if attempts.contains(t) && tick - t < window {
        assert(counts_at(tick, window)(t));
    }
}

/// The first attempts of a fresh limiter pass, up to its limit, however fast they
/// come.
pub proof fn law_limit_is_reached_in_one_window(ticks: Seq<u128>, max: nat, window: nat)
    requires
        ticks.len() <= max,
    ensures
        passing(ticks, max, window) == ticks,
        noted(ticks, max, window).len() <= ticks.len(),
    decreases ticks.len(),
{
    if ticks.len() > 0 {
        let init = ticks.drop_last();
        law_limit_is_reached_in_one_window(init, max, window);
        lemma_recent_shrinks(noted(init, max, window), ticks.last(), window);
        assert(init.push(ticks.last()) =~= ticks);
    } else {
        assert(passing(ticks, max, window) =~= ticks);
    }
}

/// A limiter lets an attempt pass where fewer than its limit count, notes those
/// that pass, and keeps its limit, its window and the other keys as they are.
pub proof fn law_limiter_counts(
    pre: LoginRateLimiter,
    post: LoginRateLimiter,
    key: Seq<char>,
    other: Seq<char>,
    tick: u128,
)
    requires
        pre.counted(&post, key, tick),
    ensures
        pre.admits(key, tick) <==> recent(pre.attempts(key), tick, pre.window()).len() < pre.max(),
        post.max() == pre.max(),
        post.window() == pre.window(),
        other != key ==> post.attempts(other) == pre.attempts(other),
        pre.admits(key, tick) ==> post.attempts(key) == recent(
            pre.attempts(key),
            tick,
            pre.window(),
        ).push(tick),
        !pre.admits(key, tick) ==> post.attempts(key) == recent(
            pre.attempts(key),
            tick,
            pre.window(),
        ),
{
}

/// A limiter that was just made has its limit and its window, and has noted
/// nothing: as many attempts as its limit pass, and no more.
pub proof fn law_fresh_limiter(l: LoginRateLimiter, max: nat, window_secs: nat, key: Seq<char>, tick: u128)
    requires
        l.is_fresh(max, window_secs),
    ensures
        l.max() == max,
        l.window() == window_secs * 1_000_000_000,
        l.attempts(key).len() == 0,
        l.admits(key, tick) <==> max > 0,
{
    reveal(Seq::filter);
}

} // verus!
