use prefix_ddns::address::Ipv6Address;
use prefix_ddns::config::Task;
use prefix_ddns::template::{occurs_at, push_all, replace_all};
use prefix_ddns::text::{chars_of, same_text, split};
use prefix_ddns::webhook::{
    build_request, method_for, method_of, render_chars, send_outcome, Delivery, HttpMethod,
    WebhookError,
};
use std::collections::HashMap;

fn chars(s: &str) -> Vec<char> {
    s.chars().collect()
}

fn text(v: Vec<char>) -> String {
    v.into_iter().collect()
}

fn task(url: &str, method: &str, body: Option<&str>) -> Task {
    let mut headers = HashMap::new();
    headers.insert("Authorization".to_string(), "Bearer abc".to_string());
    headers.insert("Content-Type".to_string(), "application/json".to_string());
    Task {
        id: "1".to_string(),
        name: "home".to_string(),
        suffix: "::1".to_string(),
        webhook_url: url.to_string(),
        webhook_method: method.to_string(),
        webhook_body: body.map(|b| b.to_string()),
        webhook_headers: headers,
        enabled: true,
        allow_api_trigger: false,
    }
}

const ORIGINAL: u128 = 0x2001_0db8_0001_0001_0000_0000_0000_0100;
const COMBINED: u128 = 0x2001_0db8_0001_0001_0000_0000_0000_0001;
const INPUT: u128 = 0x2001_0db8_0002_0002_0000_0000_0000_0009;

#[test]
fn chars_of_gives_every_character() {
    assert_eq!(chars_of("a\u{e9}\u{1f600}b"), chars("a\u{e9}\u{1f600}b"));
    assert_eq!(chars_of(""), Vec::<char>::new());
}

#[test]
fn same_text_compares_characters() {
    assert!(same_text("POST", "POST"));
    assert!(!same_text("POST", "POSt"));
    assert!(!same_text("POST", "POS"));
    assert!(same_text("", ""));
}

#[test]
fn split_cuts_at_every_separator() {
    let pieces = |s: &str| -> Vec<String> {
        split(&chars(s), ':').into_iter().map(text).collect()
    };
    assert_eq!(pieces(""), vec![""]);
    assert_eq!(pieces("a"), vec!["a"]);
    assert_eq!(pieces(":"), vec!["", ""]);
    assert_eq!(pieces("::1"), vec!["", "", "1"]);
    assert_eq!(pieces("ab:c:"), vec!["ab", "c", ""]);
}

#[test]
fn replace_all_replaces_from_the_left_without_overlap() {
    let r = |t: &str, p: &str, w: &str| text(replace_all(&chars(t), &chars(p), &chars(w)));
    assert_eq!(r("a{{x}}b{{x}}", "{{x}}", "1"), "a1b1");
    assert_eq!(r("aaa", "aa", "b"), "ba");
    assert_eq!(r("aaaa", "aa", "b"), "bb");
    assert_eq!(r("abc", "abcd", "x"), "abc");
    assert_eq!(r("abc", "", "x"), "abc");
    assert_eq!(r("", "a", "x"), "");
    assert_eq!(r("xax", "a", "aa"), "xaax");
    assert_eq!(r("{{{x}}}", "{{x}}", ""), "{}");
}

#[test]
fn occurs_at_looks_at_one_position() {
    assert!(occurs_at(&chars("hello"), 1, &chars("ell")));
    assert!(!occurs_at(&chars("hello"), 0, &chars("ell")));
    assert!(!occurs_at(&chars("hello"), 3, &chars("low")));
    assert!(occurs_at(&chars("hello"), 5, &chars("")));
    let mut out = chars("ab");
    push_all(&mut out, &chars("cd"));
    assert_eq!(out, chars("abcd"));
}

#[test]
fn render_fills_every_token() {
    let out = render_chars(
        "c={{combined_ip}} o={{original_ip}} i={{input_ip}} p={{prefix}} c={{combined_ip}}",
        Ipv6Address::from_bits(COMBINED),
        Ipv6Address::from_bits(ORIGINAL),
        Some(Ipv6Address::from_bits(INPUT)),
    );
    assert_eq!(
        text(out),
        "c=2001:db8:1:1::1 o=2001:db8:1:1::100 i=2001:db8:2:2::9 p=2001:db8:1:1::100/64 c=2001:db8:1:1::1"
    );
}

#[test]
fn render_leaves_the_input_token_without_an_input() {
    let out = render_chars(
        "{{input_ip}}|{{prefix}}|{{unknown}}",
        Ipv6Address::from_bits(COMBINED),
        Ipv6Address::from_bits(ORIGINAL),
        None,
    );
    assert_eq!(text(out), "{{input_ip}}|2001:db8:1:1::100/64|{{unknown}}");
}

#[test]
fn prefix_token_keeps_the_host_bits() {
    let out = render_chars(
        "{{prefix}}",
        Ipv6Address::from_bits(COMBINED),
        Ipv6Address::from_bits(0x2001_0db8_0000_0000_0000_0000_dead_beef),
        None,
    );
    assert_eq!(text(out), "2001:db8::dead:beef/64");
}

#[test]
fn method_names_are_read_in_any_case() {
    assert_eq!(method_of("POST"), HttpMethod::Post);
    assert_eq!(method_of("post"), HttpMethod::Post);
    assert_eq!(method_of("Put"), HttpMethod::Put);
    assert_eq!(method_of("patch"), HttpMethod::Patch);
    assert_eq!(method_of("GET"), HttpMethod::Get);
    assert_eq!(method_of("get"), HttpMethod::Get);
}

#[test]
fn unknown_method_names_mean_get() {
    assert_eq!(method_of("DELETE"), HttpMethod::Get);
    assert_eq!(method_of(""), HttpMethod::Get);
    assert_eq!(method_of(" POST"), HttpMethod::Get);
    assert_eq!(method_of("POSTS"), HttpMethod::Get);
}

#[test]
fn method_for_takes_upper_case_names_only() {
    assert_eq!(method_for("POST"), HttpMethod::Post);
    assert_eq!(method_for("PUT"), HttpMethod::Put);
    assert_eq!(method_for("PATCH"), HttpMethod::Patch);
    assert_eq!(method_for("post"), HttpMethod::Get);
    assert_eq!(method_for("GET"), HttpMethod::Get);
}

#[test]
fn request_has_method_url_headers_and_body() {
    let t = task(
        "https://dns.example/update?ip={{combined_ip}}",
        "post",
        Some("{\"from\":\"{{original_ip}}\"}"),
    );
    let r = build_request(
        &t,
        Ipv6Address::from_bits(ORIGINAL),
        Ipv6Address::from_bits(COMBINED),
        None,
    );
    assert_eq!(r.method, HttpMethod::Post);
    assert_eq!(r.url, "https://dns.example/update?ip=2001:db8:1:1::1");
    assert_eq!(r.body.as_deref(), Some("{\"from\":\"2001:db8:1:1::100\"}"));
    assert_eq!(r.headers, t.webhook_headers);
    assert_eq!(r.headers.len(), 2);
}

#[test]
fn request_has_no_body_where_it_is_empty_or_the_method_is_get() {
    let original = Ipv6Address::from_bits(ORIGINAL);
    let combined = Ipv6Address::from_bits(COMBINED);
    let none = build_request(&task("http://h/", "PUT", None), original, combined, None);
    assert_eq!(none.body, None);
    let empty = build_request(&task("http://h/", "PUT", Some("")), original, combined, None);
    assert_eq!(empty.body, None);
    let get = build_request(&task("http://h/", "GET", Some("x")), original, combined, None);
    assert_eq!(get.method, HttpMethod::Get);
    assert_eq!(get.body, None);
    let other = build_request(&task("http://h/", "delete", Some("x")), original, combined, None);
    assert_eq!(other.method, HttpMethod::Get);
    assert_eq!(other.body, None);
    let patch = build_request(&task("http://h/", "patch", Some("x")), original, combined, None);
    assert_eq!(patch.body.as_deref(), Some("x"));
}

#[test]
fn request_of_a_trigger_fills_the_input_token() {
    let t = task("http://h/{{input_ip}}/{{combined_ip}}", "GET", None);
    let r = build_request(
        &t,
        Ipv6Address::from_bits(INPUT),
        Ipv6Address::from_bits(COMBINED),
        Some(Ipv6Address::from_bits(INPUT)),
    );
    assert_eq!(r.url, "http://h/2001:db8:2:2::9/2001:db8:1:1::1");
}

#[test]
fn outcome_is_ok_for_a_status_from_200_to_299() {
    assert!(matches!(send_outcome(Delivery::Answered(200)), Ok(200)));
    assert!(matches!(send_outcome(Delivery::Answered(204)), Ok(204)));
    assert!(matches!(send_outcome(Delivery::Answered(299)), Ok(299)));
}

#[test]
fn outcome_is_an_error_for_any_other_status() {
    for s in [0u16, 100, 199, 300, 301, 404, 500, 65535] {
        match send_outcome(Delivery::Answered(s)) {
            Err(WebhookError::Status(got)) => assert_eq!(got, s),
            other => panic!("status {} gave {:?}", s, other),
        }
    }
}

#[test]
fn outcome_of_a_failed_delivery_carries_the_cause() {
    match send_outcome(Delivery::Failed("connection refused".to_string())) {
        Err(WebhookError::Transport(cause)) => assert_eq!(cause, "connection refused"),
        other => panic!("got {:?}", other),
    }
}

#[test]
fn error_messages() {
    assert_eq!(WebhookError::Status(404).message(), "HTTP 404");
    assert_eq!(WebhookError::Status(0).message(), "HTTP 0");
    assert_eq!(WebhookError::Status(65535).message(), "HTTP 65535");
    assert_eq!(
        WebhookError::Transport("timed out".to_string()).message(),
        "timed out"
    );
}
