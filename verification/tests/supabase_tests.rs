use odak::supabase::{authorize_url, enabled, endpoint, error_message, realtime_url, Error, Session};

#[test]
fn auth_rejections_and_temporary_errors() {
    assert!(Error::Status(401, String::new()).is_auth_rejected());
    assert!(Error::Status(400, String::new()).is_auth_rejected());
    assert!(!Error::Status(404, String::new()).is_auth_rejected());
    assert!(!Error::Network("x".into()).is_auth_rejected());
    assert!(Error::Network("x".into()).is_temporary());
    assert!(Error::Status(503, String::new()).is_temporary());
    assert!(Error::Status(429, String::new()).is_temporary());
    assert!(!Error::Status(403, String::new()).is_temporary());
    assert!(!Error::Cancelled.is_temporary());
}

#[test]
fn messages_read_in_turkish() {
    assert_eq!(Error::Network("dns".into()).message(), "Sunucuya ulaşılamadı (dns)");
    assert_eq!(Error::Status(409, "conflict".into()).message(), "Sunucu hatası 409: conflict");
    assert_eq!(Error::Local("port".into()).message(), "port");
    assert_eq!(Error::Cancelled.message(), "İptal edildi");
}

#[test]
fn a_session_needs_a_refresh_a_minute_before_it_expires() {
    let s = Session::stale(7, "r".into());
    assert!(s.needs_refresh(0));
    let fresh = Session { access_token: "a".into(), refresh_token: "r".into(), expires_at: 120_000, user_id: 7 };
    assert!(!fresh.needs_refresh(0));
    assert!(!fresh.needs_refresh(60_000));
    assert!(fresh.needs_refresh(60_001));
}

#[test]
fn addresses_follow_the_build_settings() {
    assert!(enabled(Some("https://x.supabase.co"), Some("k")));
    assert!(!enabled(None, Some("k")));
    assert_eq!(endpoint(Some("https://x.supabase.co"), "/rest/v1/tasks"), "https://x.supabase.co/rest/v1/tasks");
    assert_eq!(endpoint(None, "/rest"), "/rest");
    assert_eq!(
        realtime_url(Some("https://x.supabase.co"), Some("key")),
        "wss://x.supabase.co/realtime/v1/websocket?apikey=key&vsn=1.0.0"
    );
    assert_eq!(realtime_url(None, None), "wss:///realtime/v1/websocket?apikey=&vsn=1.0.0");
}

#[test]
fn the_sign_in_address_carries_the_challenge() {
    let url = authorize_url(Some("https://x.supabase.co"), "abc", "http://127.0.0.1:53117/callback");
    assert_eq!(
        url,
        "https://x.supabase.co/auth/v1/authorize?provider=discord&redirect_to=http%3A%2F%2F127.0.0.1%3A53117%2Fcallback&code_challenge=abc&code_challenge_method=s256"
    );
    assert_eq!(authorize_url(None, "abc", "x"), "");
}

#[test]
fn error_bodies_are_read_for_their_message() {
    assert_eq!(error_message(r#"{"msg":"bad token","message":"other"}"#), "bad token");
    assert_eq!(error_message(r#"{"message":"duplicate key"}"#), "duplicate key");
    assert_eq!(error_message(r#"{"error":"invalid_grant","error_description":"expired"}"#), "expired");
    assert_eq!(error_message("plain text"), "plain text");
    let long = "x".repeat(300);
    assert_eq!(error_message(&long).len(), 200);
}
