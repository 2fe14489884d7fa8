use mcp_gateway::naming::join_name;
use mcp_gateway::naming::split_name;
use mcp_gateway::naming::str_eq;
use mcp_gateway::numfmt::u128_to_hex32;
use mcp_gateway::numfmt::u16_to_dec;
use mcp_gateway::pool::sse_url;
use mcp_gateway::auth::auth_gate;
use mcp_gateway::auth::error_body;
use mcp_gateway::auth::json_quote;
use mcp_gateway::auth::AuthError;
use mcp_gateway::auth::AuthGate;

#[test]
fn join_builds_namespaced_name() {
    assert_eq!(join_name("a", "hi"), "a:hi");
    assert_eq!(join_name("target", "tool"), "target:tool");
}

#[test]
fn split_recovers_the_pair() {
    assert_eq!(split_name("a:hi"), Some(("a".to_string(), "hi".to_string())));
    let (t, u) = split_name(&join_name("svc", "do")).unwrap();
    assert_eq!(t, "svc");
    assert_eq!(u, "do");
}

#[test]
fn split_uses_the_first_separator() {
    assert_eq!(split_name("a:b:c"), Some(("a".to_string(), "b:c".to_string())));
    assert_eq!(split_name(":x"), Some(("".to_string(), "x".to_string())));
    assert_eq!(split_name("x:"), Some(("x".to_string(), "".to_string())));
}

#[test]
fn split_rejects_a_name_without_separator() {
    assert_eq!(split_name("nocolon"), None);
    assert_eq!(split_name(""), None);
}

#[test]
fn str_eq_compares_content() {
    assert!(str_eq("abc", "abc"));
    assert!(!str_eq("abc", "abd"));
    assert!(!str_eq("abc", "abcd"));
}

#[test]
fn decimal_rendering_is_exact() {
    assert_eq!(u16_to_dec(0), "0");
    assert_eq!(u16_to_dec(7), "7");
    assert_eq!(u16_to_dec(8080), "8080");
    assert_eq!(u16_to_dec(65535), "65535");
}

#[test]
fn hex_rendering_is_32_lowercase_digits() {
    assert_eq!(u128_to_hex32(0), "00000000000000000000000000000000");
    assert_eq!(u128_to_hex32(0xdeadbeef), "000000000000000000000000deadbeef");
    assert_eq!(
        u128_to_hex32(u128::MAX),
        "ffffffffffffffffffffffffffffffff"
    );
    assert_eq!(u128_to_hex32(16), "00000000000000000000000000000010");
}

#[test]
fn sse_dial_url_is_exact() {
    assert_eq!(sse_url("localhost", 8080), "http://localhost:8080");
    assert_eq!(sse_url("10.0.0.1", 80), "http://10.0.0.1:80");
}

#[test]
fn json_quote_escapes_specials() {
    assert_eq!(json_quote("plain"), "\"plain\"");
    assert_eq!(json_quote("a\"b"), "\"a\\\"b\"");
    assert_eq!(json_quote("a\\b"), "\"a\\\\b\"");
    assert_eq!(json_quote("a\nb"), "\"a\\nb\"");
    assert_eq!(json_quote("a\tb"), "\"a\\tb\"");
    assert_eq!(json_quote("a\rb"), "\"a\\rb\"");
    assert_eq!(json_quote("a\u{1}b"), "\"a\\u0001b\"");
    assert_eq!(json_quote("a\u{1f}b"), "\"a\\u001fb\"");
}

#[test]
fn error_body_is_exact_json() {
    assert_eq!(error_body("boom"), "{\"error\":\"boom\"}");
    assert_eq!(error_body("say \"hi\""), "{\"error\":\"say \\\"hi\\\"\"}");
}

#[test]
fn auth_error_messages_and_body() {
    let e = AuthError::InvalidToken { detail: "bad signature".to_string() };
    assert_eq!(e.status(), 400);
    assert_eq!(e.message(), "Invalid token, error: bad signature");
    assert_eq!(
        e.response_body(),
        "{\"error\":\"Invalid token, error: bad signature\"}"
    );

    let m = AuthError::NoAuthHeaderPresent { detail: "missing header".to_string() };
    assert_eq!(m.status(), 400);
    assert_eq!(m.message(), "No auth header present, error: missing header");
    assert_eq!(
        m.response_body(),
        "{\"error\":\"No auth header present, error: missing header\"}"
    );
}

#[test]
fn auth_gate_decides_the_step() {
    assert_eq!(auth_gate(false, false), AuthGate::NoAuth);
    assert_eq!(auth_gate(false, true), AuthGate::NoAuth);
    assert_eq!(auth_gate(true, true), AuthGate::VerifyToken);
    assert_eq!(auth_gate(true, false), AuthGate::MissingHeader);
}
