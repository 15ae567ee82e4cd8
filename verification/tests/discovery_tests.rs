use jmap_webmail::{
    finish_discovery, resolve_redirect, Discovery, DiscoveryStep, FetchOutcome, HttpReply,
    JmapError,
};

fn reply(status: u16, location: Option<&str>, body: &str) -> FetchOutcome {
    FetchOutcome::Reply(HttpReply {
        status,
        location: location.map(|l| l.to_string()),
        body: body.to_string(),
    })
}

#[test]
fn resolve_absolute_url_unchanged() {
    let r = resolve_redirect("https://a.example/x/y", "https://b.example/z");
    assert_eq!(r, "https://b.example/z");
    let r = resolve_redirect("https://a.example/x/y", "http://b.example/z");
    assert_eq!(r, "http://b.example/z");
}

#[test]
fn resolve_absolute_path_replaces_path() {
    let r = resolve_redirect("https://a.example/x/y", "/session");
    assert_eq!(r, "https://a.example/session");
}

#[test]
fn resolve_absolute_path_base_without_path() {
    let r = resolve_redirect("https://a.example", "/session");
    assert_eq!(r, "https://a.example/session");
}

#[test]
fn resolve_relative_against_directory() {
    let r = resolve_redirect("https://a.example/x/y", "next");
    assert_eq!(r, "https://a.example/x/next");
}

#[test]
fn resolve_relative_base_without_slash() {
    let r = resolve_redirect("no-scheme-or-slash", "next");
    assert_eq!(r, "next");
}

#[test]
fn discovery_follows_redirect_with_auth_preserving_resolution() {
    let d = Discovery::begin("https://mail.example.com/.well-known/jmap");
    assert_eq!(d.next_url(), "https://mail.example.com/.well-known/jmap");
    match d.step(reply(301, Some("https://jmap.example.com/session"), "")) {
        DiscoveryStep::Redirected(d2) => {
            assert_eq!(d2.next_url(), "https://jmap.example.com/session");
        },
        _ => panic!("expected a redirect"),
    }
}

#[test]
fn discovery_exhausts_hop_budget_after_exactly_five_attempts() {
    let mut d = Discovery::begin("https://h.example/a");
    // four redirects are followed...
    for _ in 0..4 {
        d = match d.step(reply(302, Some("/a"), "")) {
            DiscoveryStep::Redirected(next) => next,
            _ => panic!("expected to keep following"),
        };
    }
    // ...and the fifth answer ends discovery.
    match d.step(reply(302, Some("/a"), "")) {
        DiscoveryStep::Failed(JmapError::Http(m)) => assert_eq!(m, "Too many redirects"),
        _ => panic!("expected the hop budget to be spent"),
    }
}

#[test]
fn discovery_401_fails_immediately_with_auth_variant() {
    let d = Discovery::begin("https://h.example/a");
    let d = match d.step(reply(301, Some("/b"), "")) {
        DiscoveryStep::Redirected(next) => next,
        _ => panic!("expected a redirect"),
    };
    match d.step(reply(401, None, "denied")) {
        DiscoveryStep::Failed(JmapError::AuthenticationFailed) => {},
        _ => panic!("expected the authentication-failure variant"),
    }
}

#[test]
fn discovery_empty_success_body_is_http_error_not_parse() {
    let d = Discovery::begin("https://h.example/a");
    match d.step(reply(200, None, "")) {
        DiscoveryStep::Failed(JmapError::Http(m)) => {
            assert_eq!(m, "Server returned empty response (status 200)");
        },
        DiscoveryStep::Failed(JmapError::Parse(_)) => panic!("must not be a parse error"),
        _ => panic!("expected an HTTP error"),
    }
}

#[test]
fn discovery_redirect_without_location_fails() {
    let d = Discovery::begin("https://h.example/a");
    match d.step(reply(302, None, "")) {
        DiscoveryStep::Failed(JmapError::Http(m)) => {
            assert_eq!(m, "Redirect 302 without Location header");
        },
        _ => panic!("expected an HTTP error"),
    }
}

#[test]
fn discovery_error_status_carries_truncated_body() {
    let d = Discovery::begin("https://h.example/a");
    let long_body = "x".repeat(300);
    match d.step(reply(500, None, &long_body)) {
        DiscoveryStep::Failed(JmapError::Http(m)) => {
            assert_eq!(m, format!("HTTP 500 error: {}", "x".repeat(200)));
        },
        _ => panic!("expected an HTTP error"),
    }
}

#[test]
fn discovery_transport_failure_is_http_error() {
    let d = Discovery::begin("https://h.example/a");
    match d.step(FetchOutcome::Transport("connection refused".to_string())) {
        DiscoveryStep::Failed(JmapError::Http(m)) => assert_eq!(m, "connection refused"),
        _ => panic!("expected an HTTP error"),
    }
}

#[test]
fn end_to_end_discovery_scenario() {
    let d = Discovery::begin("https://mail.example.com/.well-known/jmap");
    let d = match d.step(reply(301, Some("https://jmap.example.com/session"), "")) {
        DiscoveryStep::Redirected(next) => next,
        _ => panic!("expected a redirect"),
    };
    assert_eq!(d.next_url(), "https://jmap.example.com/session");
    let body = r#"{"apiUrl":"https://jmap.example.com/api","primaryAccounts":{"urn:ietf:params:jmap:mail":"u1234"},"accounts":{"u1234":{}}}"#;
    let body = match d.step(reply(200, None, body)) {
        DiscoveryStep::Success(b) => b,
        _ => panic!("expected success"),
    };
    let (descriptor, client) = finish_discovery(&body, "user@example.com", "pw").expect("discovery");
    assert_eq!(client.api_url(), "https://jmap.example.com/api");
    assert_eq!(client.account_id(), "u1234");
    assert_eq!(descriptor.api_url, "https://jmap.example.com/api");
}

#[test]
fn finish_discovery_prefers_primary_account() {
    let body = r#"{"apiUrl":"https://h/api",
        "primaryAccounts":{"urn:ietf:params:jmap:mail":"primary-one"},
        "accounts":{"other":{"urn:ietf:params:jmap:mail":{}},"primary-one":{}}}"#;
    let (_, client) = finish_discovery(body, "u", "p").expect("discovery");
    assert_eq!(client.account_id(), "primary-one");
}

#[test]
fn finish_discovery_scans_accounts_when_no_primary() {
    let body = r#"{"apiUrl":"https://h/api",
        "primaryAccounts":{"urn:ietf:params:jmap:core":"x"},
        "accounts":{"a1":{"urn:ietf:params:jmap:core":{}},"a2":{"urn:ietf:params:jmap:mail":{}}}}"#;
    let (_, client) = finish_discovery(body, "u", "p").expect("discovery");
    assert_eq!(client.account_id(), "a2");
}

#[test]
fn finish_discovery_without_mail_account_is_api_error() {
    let body = r#"{"apiUrl":"https://h/api","primaryAccounts":{},"accounts":{"a":{}}}"#;
    match finish_discovery(body, "u", "p") {
        Err(JmapError::Api(_)) => {},
        _ => panic!("expected an API error"),
    }
}

#[test]
fn finish_discovery_malformed_json_is_parse_error() {
    match finish_discovery("{not json", "u", "p") {
        Err(JmapError::Parse(_)) => {},
        _ => panic!("expected a parse error"),
    }
}

#[test]
fn finish_discovery_wrong_shape_is_parse_error() {
    match finish_discovery(r#"{"apiUrl":17}"#, "u", "p") {
        Err(JmapError::Parse(_)) => {},
        _ => panic!("expected a parse error"),
    }
}
