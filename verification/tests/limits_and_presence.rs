use dsh_mobile_gateway::limiter::LoginRateLimiter;
use dsh_mobile_gateway::presence::WsPresence;

const SECOND: u128 = 1_000_000_000;

#[test]
fn attempts_pass_up_to_the_limit_in_a_window() {
    let mut l = LoginRateLimiter::new_limits(2, 10);
    assert!(l.allow_at("a", 0));
    assert!(l.allow_at("a", 4 * SECOND));
    assert!(!l.allow_at("a", 9 * SECOND));
    assert!(!l.allow_at("a", 10 * SECOND - 1));
    assert!(l.allow_at("a", 10 * SECOND));
    assert!(!l.allow_at("a", 13 * SECOND));
    assert!(l.allow_at("a", 14 * SECOND));
}

#[test]
fn attempts_that_do_not_pass_are_not_counted() {
    let mut l = LoginRateLimiter::new_limits(3, 10);
    let mut passed: Vec<u128> = Vec::new();
    for tick in (0..200u128).map(|i| i * i % 7 + i * 2).scan(0, |last, t| {
        *last = t.max(*last);
        Some(*last * SECOND / 2)
    }) {
        let fewer = passed.iter().filter(|t| tick - **t < 10 * SECOND).count() < 3;
        assert_eq!(l.allow_at("a", tick), fewer, "{tick}");
        if fewer {
            passed.push(tick);
        }
    }
    assert!(passed.len() > 30);
}

#[test]
fn keys_are_counted_apart() {
    let mut l = LoginRateLimiter::new_limits(1, 10);
    assert!(l.allow_at("a", 0));
    assert!(l.allow_at("b", 0));
    assert!(!l.allow_at("a", SECOND));
    assert!(!l.allow_at("b", SECOND));
}

#[test]
fn limits_of_the_two_limiters() {
    let mut login = LoginRateLimiter::new();
    assert_eq!((0..30).filter(|_| login.allow("x")).count(), 8);
    let mut pairing = LoginRateLimiter::new_pairing();
    assert_eq!((0..30).filter(|_| pairing.allow("x")).count(), 20);
    let mut default = LoginRateLimiter::default();
    assert_eq!((0..30).filter(|_| default.allow("x")).count(), 8);
    let mut none = LoginRateLimiter::new_limits(0, 300);
    assert!(!none.allow("x"));
    let mut no_window = LoginRateLimiter::new_limits(1, 0);
    assert!(no_window.allow_at("x", 5) && no_window.allow_at("x", 5) && no_window.allow_at("x", 3));
}

#[test]
fn tenant_requests_have_a_wide_limit() {
    let mut l = LoginRateLimiter::new_admin();
    for _ in 0..300 {
        assert!(l.allow_at("a", 0));
    }
    assert!(!l.allow_at("a", 299_999_999_999));
    assert!(l.allow_at("a", 300_000_000_000));
}

#[test]
fn presence_counts_per_token() {
    let mut p = WsPresence::default();
    p.leave("a");
    assert!(p.ws_online().is_empty());
    p.enter("a");
    p.enter("b");
    p.enter("a");
    assert_eq!((p.count("a"), p.count("b"), p.count("c")), (2, 1, 0));
    p.leave("a");
    p.leave("b");
    assert_eq!(p.ws_online(), vec!["a"]);
    p.leave("a");
    assert_eq!(p.count("a"), 0);
    assert!(p.ws_online().is_empty());
}
