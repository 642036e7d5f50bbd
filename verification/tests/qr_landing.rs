use dsh_mobile_gateway::auth::LoginRateLimiter;
use dsh_mobile_gateway::config::Config;
use dsh_mobile_gateway::db::TokenDb;
use dsh_mobile_gateway::pages::pair_page_handler;
use dsh_mobile_gateway::pair::{admin_claim_handler, AdminClaimRequest};
use dsh_mobile_gateway::presence::WsPresence;
use dsh_mobile_gateway::qr::{admin_qr_handler, AdminQrRequest};
use dsh_mobile_gateway::tenant::TenantCtx;
use dsh_mobile_gateway::AppState;

const UPSTREAM_HOST: &str = "127.0.0.1:3080";

fn config(password_hash: &str) -> Config {
    Config {
        bind: "127.0.0.1".into(),
        port: 0,
        admin_port: 0,
        upstream_addr: "127.0.0.1:13100".into(),
        upstream_host: UPSTREAM_HOST.into(),
        jwt_secret: "test-secret".into(),
        password_hash: password_hash.into(),
        admin_token: String::new(),
        tunnel_sock_dir: None,
        token_ttl_days: 30,
        database_path: String::new(),
        tunnel_port_min: 1024,
        tunnel_port_max: 65535,
        web_hostname: "".into(),
        web_bind: "127.0.0.1".into(),
        web_port: 0,
        web_password_hash: "".into(),
        web_upstream_port: None,
    }
}

fn state_of(config: Config) -> AppState {
    AppState {
        config,
        db: TokenDb::open_in_memory(),
        login_limiter: LoginRateLimiter::new(),
        pair_limiter: LoginRateLimiter::new_pairing(),
        admin_limiter: LoginRateLimiter::new_limits(300, 300),
        ws_sessions: WsPresence::new(),
    }
}

#[test]
fn qr_renders_half_blocks_with_ansi_and_quiet_zone() {
    let req = AdminQrRequest {
        text: "https://dsh.example.com/pair#c=ABCDEFGHJK&h=ABC234".into(),
    };
    let body = admin_qr_handler(&req).unwrap();
    let qr = body.qr.as_str();
    assert!(qr.starts_with("\u{1b}[30;47m"), "missing fg-black/bg-white prefix");
    assert!(qr.ends_with("\u{1b}[0m"));
    let stripped = qr.replace("\u{1b}[30;47m", "").replace("\u{1b}[0m", "");
    let lines: Vec<&str> = stripped.split('\n').collect();
    let modules = body.modules;
    assert_eq!(lines.len(), (modules + 4 + 1) / 2);
    assert!(lines.iter().all(|l| l.chars().all(|c| "█▀▄ ".contains(c))));
    assert!(lines.first().unwrap().trim().is_empty());
    assert!(lines.last().unwrap().trim().is_empty());
    assert!((25..=45).contains(&modules), "unexpected module count {modules}");
    assert_eq!(lines[0].chars().count(), modules + 4);

    let mut grid = vec![vec![false; modules]; modules];
    for (ly, line) in stripped.split('\n').enumerate() {
        for (lx, ch) in line.chars().enumerate() {
            let y = ly * 2;
            let x = lx as isize - 2;
            let (top, bottom) = match ch {
                '█' => (true, true),
                '▀' => (true, false),
                '▄' => (false, true),
                _ => (false, false),
            };
            for (yy, dd) in [(y as isize, top), (y as isize + 1, bottom)] {
                let gy = yy - 2;
                if x >= 0 && gy >= 0 && (gy as usize) < modules && (x as usize) < modules {
                    grid[gy as usize][x as usize] = dd;
                }
            }
        }
    }
    let finder_ok = |fx: usize, fy: usize| -> bool {
        for i in 0..7 {
            for j in 0..7 {
                let dark = grid[fy + j][fx + i];
                let ring = i.min(6 - i).min(j.min(6 - j));
                if dark != (ring != 1) {
                    return false;
                }
            }
        }
        true
    };
    let last = modules - 7;
    assert!(finder_ok(0, 0), "top-left finder broken");
    assert!(finder_ok(last, 0), "top-right finder broken");
    assert!(finder_ok(0, last), "bottom-left finder broken");
}

#[test]
fn qr_rejects_empty_and_oversized_text() {
    for bad in ["".to_string(), "x".repeat(513)] {
        let refused = admin_qr_handler(&AdminQrRequest { text: bad }).unwrap_err();
        assert_eq!(refused.status(), 400);
    }
    assert!(admin_qr_handler(&AdminQrRequest { text: "x".repeat(512) }).is_ok());
}

#[test]
fn pair_landing_page_is_static_no_store_html() {
    let page = pair_page_handler();
    assert_eq!(page.cache_control, "no-store");
    let body = page.html;
    assert!(body.contains("URLSearchParams"));
    assert!(body.contains("锚定主机码"));
    assert!(!body.contains("http://cdn") && !body.contains("https://cdn"));
}

#[test]
fn admin_claim_rejects_when_no_phone_waiting() {
    let mut state = state_of(config(""));
    let ctx = TenantCtx { id: "default".into(), operator: true };
    let req = AdminClaimRequest {
        code: "ABCDEFGHJK".into(),
        host_code: "ABC234".into(),
        host_label: "mac".into(),
        port: Some(13100),
    };
    assert_eq!(admin_claim_handler(&mut state, &ctx, &req).unwrap_err().status(), 404);
}
