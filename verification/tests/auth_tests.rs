use odak::auth::{challenge, parse_callback, simple_uuid, Pkce, REDIRECT};

#[test]
fn challenge_matches_rfc_7636_example() {
    assert_eq!(challenge("dBjftJeZ4CVP-mB92K27uhbUJU1p1r_wW1gFWFOEjXk"), "E9Melhoa2OwvFrEMTJguCHaoeK1t8URWbuGJSstw-cM");
}

#[test]
fn verifier_is_long_enough_and_unique() {
    let (a, b) = (Pkce::new(), Pkce::new());
    assert!((43..=128).contains(&a.verifier.len()));
    assert_ne!(a.verifier, b.verifier);
    assert_eq!(a.challenge, challenge(&a.verifier));
}

#[test]
fn callback_code_is_read() {
    let result = parse_callback("GET /callback?code=abc-123 HTTP/1.1\r\n");
    assert_eq!(result.unwrap().unwrap(), "abc-123");
}

#[test]
fn callback_error_is_reported() {
    let result = parse_callback("GET /callback?error=access_denied&error_description=User+denied%20access HTTP/1.1");
    let message = result.unwrap().unwrap_err().message();
    assert!(message.contains("User denied access"), "{message}");
}

#[test]
fn callback_without_code_is_an_error() {
    assert!(parse_callback("GET /callback HTTP/1.1").unwrap().is_err());
}

#[test]
fn other_requests_are_ignored() {
    assert!(parse_callback("GET /favicon.ico HTTP/1.1").is_none());
    assert!(parse_callback("POST /callback?code=x HTTP/1.1").is_none());
    assert!(parse_callback("").is_none());
}

#[test]
fn an_empty_code_reports_the_error_instead() {
    let message = parse_callback("GET /callback?code=&error=denied HTTP/1.1").unwrap().unwrap_err().message();
    assert_eq!(message, "Discord girişi tamamlanamadı: denied");
    let message = parse_callback("GET /callback?state=1 HTTP/1.1").unwrap().unwrap_err().message();
    assert_eq!(message, "Discord girişi tamamlanamadı: yanıtta kod yok");
}

#[test]
fn uuids_print_as_32_hex_digits() {
    assert_eq!(simple_uuid(0), "00000000000000000000000000000000");
    assert_eq!(simple_uuid(0xabc), "00000000000000000000000000000abc");
    assert_eq!(simple_uuid(u128::MAX), "ffffffffffffffffffffffffffffffff");
    assert_eq!(simple_uuid(7), uuid::Uuid::from_u128(7).simple().to_string());
}

#[test]
fn the_redirect_is_the_loopback_callback() {
    assert_eq!(REDIRECT, "http://127.0.0.1:53117/callback");
    assert_eq!(parse_callback("GET /callback?code=z HTTP/1.1").unwrap().unwrap(), "z");
}
