use jmap_webmail::{
    auth_header, decode_email_get, decode_email_query, decode_mailboxes, missing_ids, JmapClient,
    JmapError, Json,
};

fn client() -> JmapClient {
    JmapClient::from_session(
        "u".to_string(),
        "p".to_string(),
        "https://h/api".to_string(),
        "acc".to_string(),
    )
}

#[test]
fn auth_header_encodes_credentials() {
    // base64("user:pass") must actually be computed, not echoed back
    assert_eq!(auth_header("user", "pass"), "Basic dXNlcjpwYXNz");
}

#[test]
fn client_accessors() {
    let c = client();
    assert_eq!(c.account_id(), "acc");
    assert_eq!(c.api_url(), "https://h/api");
    assert_eq!(c.auth_value(), "Basic dTpw");
}

#[test]
fn mailbox_get_request_text() {
    let c = client();
    assert_eq!(
        c.mailbox_get_request(),
        "{\"using\":[\"urn:ietf:params:jmap:core\",\"urn:ietf:params:jmap:mail\"],\
         \"methodCalls\":[[\"Mailbox/get\",{\"accountId\":\"acc\",\"ids\":null},\"0\"]]}"
    );
}

#[test]
fn email_query_request_text() {
    let c = client();
    assert_eq!(
        c.email_query_request("mbox1", 50),
        "{\"using\":[\"urn:ietf:params:jmap:core\",\"urn:ietf:params:jmap:mail\"],\
         \"methodCalls\":[[\"Email/query\",{\"accountId\":\"acc\",\
         \"filter\":{\"inMailbox\":\"mbox1\"},\
         \"sort\":[{\"property\":\"receivedAt\",\"isAscending\":false}],\
         \"limit\":50},\"0\"]]}"
    );
}

#[test]
fn email_get_request_escapes_and_lists_properties() {
    let c = client();
    let ids = vec!["a\"1".to_string()];
    let body = c.email_get_request(&ids).expect("a request");
    assert_eq!(
        body,
        "{\"using\":[\"urn:ietf:params:jmap:core\",\"urn:ietf:params:jmap:mail\"],\
         \"methodCalls\":[[\"Email/get\",{\"accountId\":\"acc\",\"ids\":[\"a\\\"1\"],\
         \"properties\":[\"id\",\"from\",\"to\",\"cc\",\"subject\",\"receivedAt\",\"preview\",\
         \"textBody\",\"bodyValues\",\"keywords\"],\"fetchTextBodyValues\":true},\"0\"]]}"
    );
}

#[test]
fn email_get_request_empty_ids_makes_no_request() {
    let c = client();
    assert!(c.email_get_request(&vec![]).is_none());
}

#[test]
fn decode_mailboxes_reads_list() {
    let body = r#"{"methodResponses":[["Mailbox/get",
        {"accountId":"acc","list":[
            {"id":"m1","name":"Inbox","role":"inbox","totalEmails":7,"unreadEmails":2},
            {"id":"m2","name":"Old","role":null}
        ]},"0"]]}"#;
    let ms = decode_mailboxes(body).expect("mailboxes");
    assert_eq!(ms.len(), 2);
    assert_eq!(ms[0].id, "m1");
    assert_eq!(ms[0].name, "Inbox");
    assert_eq!(ms[0].role.as_deref(), Some("inbox"));
    assert_eq!(ms[0].total_emails, 7);
    assert_eq!(ms[0].unread_emails, 2);
    assert_eq!(ms[1].role, None);
    assert_eq!(ms[1].total_emails, 0);
}

#[test]
fn decode_mailboxes_wrong_method_name_is_api_error() {
    let body = r#"{"methodResponses":[["Email/get",{"list":[]},"0"]]}"#;
    match decode_mailboxes(body) {
        Err(JmapError::Api(m)) => assert_eq!(m, "Unexpected response"),
        _ => panic!("expected an API error"),
    }
}

#[test]
fn decode_mailboxes_empty_responses_is_api_error() {
    let body = r#"{"methodResponses":[]}"#;
    match decode_mailboxes(body) {
        Err(JmapError::Api(m)) => assert_eq!(m, "Unexpected response"),
        _ => panic!("expected an API error"),
    }
}

#[test]
fn decode_mailboxes_malformed_json_is_parse_error() {
    match decode_mailboxes("][") {
        Err(JmapError::Parse(_)) => {},
        _ => panic!("expected a parse error"),
    }
}

#[test]
fn decode_email_query_keeps_server_order() {
    let body = r#"{"methodResponses":[["Email/query",
        {"ids":["e3","e1","e2"],"position":0,"total":3},"0"]]}"#;
    let ids = decode_email_query(body).expect("ids");
    assert_eq!(ids, vec!["e3", "e1", "e2"]);
}

#[test]
fn decode_email_get_partial_result_is_success_with_diagnostic() {
    let body = r#"{"methodResponses":[["Email/get",
        {"list":[{"id":"a"},{"id":"c"}],"notFound":["b"]},"0"]]}"#;
    let emails = decode_email_get(body).expect("emails");
    assert_eq!(emails.len(), 2);
    let requested = vec!["a".to_string(), "b".to_string(), "c".to_string()];
    let missing = missing_ids(&requested, &emails);
    assert_eq!(missing, vec!["b"]);
}

#[test]
fn query_then_get_three_messages_in_order() {
    let query = r#"{"methodResponses":[["Email/query",
        {"ids":["e1","e2","e3"],"position":0},"0"]]}"#;
    let ids = decode_email_query(query).expect("ids");
    assert_eq!(ids.len(), 3);
    let get = r#"{"methodResponses":[["Email/get",{"list":[
        {"id":"e1","subject":"first"},
        {"id":"e2","subject":"second"},
        {"id":"e3","subject":"third"}
    ]},"0"]]}"#;
    let emails = decode_email_get(get).expect("emails");
    assert_eq!(emails.len(), 3);
    for (i, e) in emails.iter().enumerate() {
        assert_eq!(e.id, ids[i]);
    }
    assert!(missing_ids(&ids, &emails).is_empty());
}

#[test]
fn decode_email_get_reads_all_fields() {
    let body = r#"{"methodResponses":[["Email/get",{"list":[
        {"id":"e1",
         "from":[{"name":"Ann","email":"ann@example.com"}],
         "to":[{"email":"bob@example.com"}],
         "cc":null,
         "subject":"Hello",
         "receivedAt":"2024-05-06T07:08:09Z",
         "preview":"Hi there",
         "textBody":[{"partId":"1"}],
         "bodyValues":{"1":{"value":"Hi there, full text."}},
         "keywords":{"$seen":true}}
    ]},"0"]]}"#;
    let emails = decode_email_get(body).expect("emails");
    assert_eq!(emails.len(), 1);
    let e = &emails[0];
    assert_eq!(e.id, "e1");
    let from = e.from.as_ref().unwrap();
    assert_eq!(from[0].name.as_deref(), Some("Ann"));
    assert_eq!(from[0].email.as_deref(), Some("ann@example.com"));
    assert_eq!(e.to.as_ref().unwrap()[0].email.as_deref(), Some("bob@example.com"));
    assert!(e.cc.is_none());
    assert_eq!(e.subject.as_deref(), Some("Hello"));
    assert_eq!(e.received_at.as_deref(), Some("2024-05-06T07:08:09Z"));
    assert_eq!(e.text_body.as_ref().unwrap(), &vec!["1".to_string()]);
    assert_eq!(e.body_values, vec![("1".to_string(), "Hi there, full text.".to_string())]);
    assert_eq!(e.keywords, vec![("$seen".to_string(), true)]);
}

#[test]
fn json_to_text_escapes_and_renders() {
    let j = Json::Obj(vec![
        ("a\"b".to_string(), Json::Str("x\ny".to_string())),
        ("n".to_string(), Json::Int(-42)),
        ("t".to_string(), Json::Bool(true)),
        ("z".to_string(), Json::Arr(vec![Json::Null, Json::Int(7)])),
    ]);
    assert_eq!(j.to_text(), "{\"a\\\"b\":\"x\\ny\",\"n\":-42,\"t\":true,\"z\":[null,7]}");
}
