use dsh_mobile_gateway::clock::add_days;
use dsh_mobile_gateway::error::{internal, AppError};
use dsh_mobile_gateway::http::{bytes_of, value_is_valid, value_text, Headers};
use dsh_mobile_gateway::pages::{esc, login_html};
use dsh_mobile_gateway::split::{lines_of, plain_code_of, second_word_of, split};
use dsh_mobile_gateway::table::ordered;
use dsh_mobile_gateway::text::{
    byte_len, contains, decimal_of, hex, parse_i64, parse_u16, same_ignoring_case,
    signed_decimal_of, strip_prefix, tail_after, take_chars, to_lower, to_upper, trim,
};

#[test]
fn trimming_knows_unicode_white_space() {
    assert_eq!(trim("\u{3000} \t a b \r\n\u{a0}"), "a b");
    assert_eq!(trim("   "), "");
    assert_eq!(trim(""), "");
    for c in ['\u{85}', '\u{1680}', '\u{2000}', '\u{200a}', '\u{2028}', '\u{202f}', '\u{205f}'] {
        assert_eq!(trim(&format!("{c}x{c}")), "x");
    }
    assert_eq!(trim("\u{200b}x"), "\u{200b}x");
}

#[test]
fn case_is_ascii_only() {
    assert_eq!(to_upper("aZ9é-"), "AZ9é-");
    assert_eq!(to_lower("Az9É-"), "az9É-");
    assert!(same_ignoring_case("WebSocket", "websocket"));
    assert!(!same_ignoring_case("websockets", "websocket"));
}

#[test]
fn heads_count_characters() {
    assert_eq!(take_chars("日本語", 2), "日本");
    assert_eq!(take_chars("ab", 64), "ab");
    assert_eq!(byte_len("日本"), 6);
}

#[test]
fn searching_finds_text() {
    assert!(contains("keep-alive, upgrade", "upgrade"));
    assert!(contains("x", ""));
    assert!(!contains("upgrad", "upgrade"));
    assert_eq!(strip_prefix("Bearer x", "Bearer "), Some("x".to_string()));
    assert_eq!(strip_prefix("bearer x", "Bearer "), None);
    assert_eq!(tail_after("127.0.0.1:13100", ':'), "13100");
    assert_eq!(tail_after("localhost", ':'), "localhost");
    assert_eq!(tail_after("a:", ':'), "");
}

#[test]
fn numbers_are_written_and_read() {
    assert_eq!(decimal_of(0), "0");
    assert_eq!(decimal_of(u64::MAX), "18446744073709551615");
    assert_eq!(signed_decimal_of(i64::MIN), "-9223372036854775808");
    assert_eq!(signed_decimal_of(-7), "-7");
    assert_eq!(parse_u16("65535"), Some(65535));
    assert_eq!(parse_u16("65536"), None);
    assert_eq!(parse_u16("+0080"), Some(80));
    assert_eq!(parse_u16("-1"), None);
    assert_eq!(parse_u16(""), None);
    assert_eq!(parse_u16("+"), None);
    assert_eq!(parse_u16(" 80"), None);
    assert_eq!(parse_i64("-9223372036854775808"), Some(i64::MIN));
    assert_eq!(parse_i64("9223372036854775807"), Some(i64::MAX));
    assert_eq!(parse_i64("9223372036854775808"), None);
    assert_eq!(parse_i64("-"), None);
    for port in [0u16, 9, 10, 13100, 65535] {
        assert_eq!(parse_u16(&decimal_of(port as u64)), Some(port));
    }
}

#[test]
fn text_is_taken_apart() {
    assert_eq!(split("a,,b", ','), vec!["a", "", "b"]);
    assert_eq!(split("", ','), vec![""]);
    assert_eq!(lines_of("a\r\nb\nc"), vec!["a", "b", "c"]);
    assert_eq!(lines_of("a\n"), vec!["a"]);
    assert_eq!(lines_of("\n"), vec![""]);
    assert_eq!(lines_of("a\r"), vec!["a\r"]);
    assert!(lines_of("").is_empty());
    assert_eq!(second_word_of("HTTP/1.1 403 Forbidden"), Some("403".to_string()));
    assert_eq!(second_word_of("  one \t two  three"), Some("two".to_string()));
    assert_eq!(second_word_of("one "), None);
    assert_eq!(second_word_of(""), None);
}

#[test]
fn codes_lose_their_separators() {
    assert_eq!(plain_code_of(" abcde-fg:hj k "), "ABCDEFGHJK");
    assert_eq!(plain_code_of("--"), "");
}

#[test]
fn bytes_are_written_in_hexadecimal() {
    assert_eq!(hex(&[0x00, 0x0f, 0xa5, 0xff]), "000fa5ff");
    assert_eq!(hex(&[]), "");
}

#[test]
fn rows_are_ordered_by_key_and_ties_stay() {
    assert_eq!(ordered(&vec![3, 1, 2, 1]), vec![1, 3, 2, 0]);
    assert!(ordered(&vec![]).is_empty());
}

#[test]
fn days_are_added_within_the_calendar() {
    assert_eq!(add_days(1_000, 30), Some(1_000 + 30 * 86_400));
    assert_eq!(add_days(1_000, -1), Some(1_000 - 86_400));
    assert_eq!(add_days(8_210_266_876_799, 0), Some(8_210_266_876_799));
    assert_eq!(add_days(8_210_266_876_799, 1), None);
    assert_eq!(add_days(0, i64::MAX), None);
    assert_eq!(add_days(0, i64::MIN), None);
}

#[test]
fn errors_have_their_status() {
    assert_eq!(AppError::Unauthorized.status(), 401);
    assert_eq!(AppError::Forbidden("m".into()).status(), 403);
    assert_eq!(AppError::NotFound("m".into()).status(), 404);
    assert_eq!(AppError::Conflict("m".into()).status(), 409);
    assert_eq!(AppError::BadRequest("m".into()).status(), 400);
    match internal("what: ", "why") {
        AppError::Internal(m) => assert_eq!(m, "what: why"),
        other => panic!("{other:?}"),
    }
    assert_eq!(internal("a", "b").status(), 500);
}

#[test]
fn header_fields_are_read_as_text() {
    let mut h = Headers::new();
    h.append("a", b"one".to_vec());
    h.append("b", vec![0xff]);
    h.append("a", b"two".to_vec());
    h.append("c", b"tab\tok".to_vec());
    assert_eq!(h.text("a"), Some("one".to_string()));
    assert_eq!(h.text("b"), None);
    assert_eq!(h.text("c"), Some("tab\tok".to_string()));
    assert_eq!(h.text("d"), None);
    let rest = h.remove("a");
    assert_eq!(rest.fields.len(), 2);
    assert_eq!(rest.text("a"), None);
    assert_eq!(rest.text("c"), Some("tab\tok".to_string()));
    assert_eq!(value_text(&vec![127]), None);
    assert!(value_is_valid("ok\t é"));
    assert!(!value_is_valid("no\n"));
    assert!(!value_is_valid("no\u{7f}"));
    assert_eq!(bytes_of("é"), vec![0xc3, 0xa9]);
}

#[test]
fn pages_escape_what_they_show() {
    assert_eq!(esc("a<b>&\"c\"'"), "a&lt;b&gt;&amp;&quot;c&quot;'");
    let page = login_html(Some("<x>"));
    assert!(page.contains("<div class=\"err\">&lt;x&gt;</div>"));
    assert!(page.contains("<title>DSH 登录</title>"));
    assert!(page.contains("body{margin:0;"));
    assert!(!login_html(None).contains("<div class=\"err\">"));
}
