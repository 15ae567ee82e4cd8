use jmap_webmail::{
    clear_session_cookie, make_session_cookie, parse_session_cookie, urlencoding_decode, Config,
    JmapConfig, JmapError, ServerConfig, Session, SessionStore,
};

fn record(name: &str) -> Session {
    Session {
        username: name.to_string(),
        password: "pw".to_string(),
        api_url: "https://h/api".to_string(),
        account_id: "acc".to_string(),
    }
}

#[test]
fn create_twice_returns_distinct_tokens() {
    let mut store = SessionStore::new();
    let t1 = store.create(record("a"));
    let t2 = store.create(record("b"));
    assert_ne!(t1, t2);
    assert!(store.contains(t1));
    assert!(store.contains(t2));
}

#[test]
fn get_returns_the_stored_record() {
    let mut store = SessionStore::new();
    let t = store.create(record("ann"));
    let s = store.get(t).expect("present");
    assert_eq!(s.username, "ann");
    assert_eq!(s.api_url, "https://h/api");
    assert!(store.get(t ^ 1).is_none());
}

#[test]
fn contains_is_false_right_after_remove() {
    let mut store = SessionStore::new();
    let t = store.create(record("ann"));
    assert!(store.contains(t));
    let removed = store.remove(t).expect("was present");
    assert_eq!(removed.username, "ann");
    assert!(!store.contains(t));
    assert!(store.remove(t).is_none());
}

#[test]
fn tokens_are_time_ordered_coarsely() {
    let mut store = SessionStore::new();
    let t1 = store.create(record("a"));
    let t2 = store.create(record("b"));
    // version-7 identifiers begin with a millisecond timestamp
    assert!(t2 >= t1);
}

#[test]
fn session_cookie_carries_the_token_text() {
    let token: u128 = 0x0123456789abcdef0123456789abcdef;
    assert_eq!(
        make_session_cookie(token),
        "session=01234567-89ab-cdef-0123-456789abcdef; HttpOnly; SameSite=Strict; Path=/"
    );
}

#[test]
fn clear_cookie_expires_at_once() {
    assert_eq!(
        clear_session_cookie(),
        "session=; HttpOnly; SameSite=Strict; Path=/; Max-Age=0"
    );
}

#[test]
fn cookie_round_trips_through_the_uuid_crate() {
    let token: u128 = 0x0123456789abcdef0123456789abcdef;
    let cookie = make_session_cookie(token);
    let value = cookie.strip_prefix("session=").unwrap().split(';').next().unwrap();
    let parsed = uuid::Uuid::parse_str(value).expect("well-formed");
    assert_eq!(parsed.as_u128(), token);
}

#[test]
fn listen_address_joins_host_and_port() {
    let c = Config {
        server: ServerConfig { listen_addr: "127.0.0.1".to_string(), listen_port: 8080 },
        jmap: JmapConfig { well_known_url: "https://h/.well-known/jmap".to_string() },
    };
    assert_eq!(c.listen_address(), "127.0.0.1:8080");
}

#[test]
fn cookie_header_yields_the_token() {
    let token: u128 = 0x0123456789abcdef0123456789abcdef;
    let header = format!("other=1;  session=01234567-89ab-cdef-0123-456789abcdef ; x=y");
    assert_eq!(parse_session_cookie(&header), Some(token));
    assert_eq!(parse_session_cookie("session=not-a-uuid"), None);
    assert_eq!(parse_session_cookie("a=b; c=d"), None);
    assert_eq!(
        parse_session_cookie("session=01234567-89ab-cdef-0123-456789abcdef"),
        Some(token)
    );
}

#[test]
fn first_session_cookie_wins() {
    // the first `session=` segment decides, even when it does not parse
    let header = "session=broken; session=01234567-89ab-cdef-0123-456789abcdef";
    assert_eq!(parse_session_cookie(header), None);
}

#[test]
fn url_decoding_handles_escapes_and_plus() {
    assert_eq!(urlencoding_decode("a%20b+c"), "a b c");
    assert_eq!(urlencoding_decode("%41%62"), "Ab");
    assert_eq!(urlencoding_decode("%zz"), "%zz");
    assert_eq!(urlencoding_decode("100%"), "100%");
    assert_eq!(urlencoding_decode("plain"), "plain");
}

#[test]
fn error_messages_name_their_kind() {
    assert_eq!(JmapError::Http("x".to_string()).message(), "HTTP error: x");
    assert_eq!(
        JmapError::AuthenticationFailed.message(),
        "Authentication failed (401 Unauthorized)"
    );
    assert_eq!(JmapError::Parse("y".to_string()).message(), "Parse error: y");
    assert_eq!(JmapError::Api("z".to_string()).message(), "API error: z");
}

#[test]
fn listen_address_port_bounds() {
    let mut c = Config {
        server: ServerConfig { listen_addr: "0.0.0.0".to_string(), listen_port: 0 },
        jmap: JmapConfig { well_known_url: "https://h/.well-known/jmap".to_string() },
    };
    assert_eq!(c.listen_address(), "0.0.0.0:0");
    c.server.listen_port = 65535;
    assert_eq!(c.listen_address(), "0.0.0.0:65535");
}
