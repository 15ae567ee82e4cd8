use jmap_webmail::{
    base_page, email_list, email_list_rows, email_view, error_fragment, format_address_short,
    format_addresses, format_date, get_email_body, html_escape, login_page, mailbox_list,
    main_page, truncate, truncate_str, Email, EmailAddress, Mailbox,
};

fn mailbox(id: &str, name: &str, role: Option<&str>, unread: u64) -> Mailbox {
    Mailbox {
        id: id.to_string(),
        name: name.to_string(),
        role: role.map(|r| r.to_string()),
        total_emails: 10,
        unread_emails: unread,
    }
}

fn plain_email(id: &str, subject: &str) -> Email {
    Email {
        id: id.to_string(),
        from: Some(vec![EmailAddress { name: Some("Ann".to_string()), email: None }]),
        to: None,
        cc: None,
        subject: Some(subject.to_string()),
        received_at: Some("2024-01-02T03:04:05Z".to_string()),
        preview: Some("preview text".to_string()),
        text_body: None,
        body_values: vec![],
        keywords: vec![],
    }
}

#[test]
fn html_escape_rewrites_every_special_character() {
    assert_eq!(html_escape("<a&\"'>"), "&lt;a&amp;&quot;&#39;&gt;");
    assert_eq!(html_escape("plain"), "plain");
}

#[test]
fn truncate_adds_ellipsis_only_when_cutting() {
    assert_eq!(truncate("hello", 3), "hel...");
    assert_eq!(truncate("hello", 5), "hello");
}

#[test]
fn truncate_str_counts_characters_not_bytes() {
    assert_eq!(truncate_str("h\u{e9}llo", 2), "h\u{e9}");
    assert_eq!(truncate_str("ab", 10), "ab");
}

#[test]
fn format_date_splits_on_the_t() {
    assert_eq!(format_date("2024-01-02T03:04:05Z"), "2024-01-02 03:04");
    assert_eq!(format_date("2024-01-02"), "2024-01-02");
    assert_eq!(format_date("2024-01-02T03"), "2024-01-02 ");
}

#[test]
fn addresses_render_name_and_mail() {
    let a = EmailAddress {
        name: Some("Ann".to_string()),
        email: Some("ann@example.com".to_string()),
    };
    let b = EmailAddress { name: None, email: Some("bob@example.com".to_string()) };
    assert_eq!(format_address_short(&a), "Ann");
    assert_eq!(format_address_short(&b), "bob@example.com");
    assert_eq!(
        format_addresses(&vec![a, b]),
        "Ann <ann@example.com>, bob@example.com"
    );
}

#[test]
fn mailbox_list_orders_by_role_then_name() {
    let boxes = vec![
        mailbox("m1", "Zeta", None, 0),
        mailbox("m2", "Archive", Some("archive"), 0),
        mailbox("m3", "Inbox", Some("inbox"), 3),
        mailbox("m4", "Alpha", None, 0),
        mailbox("m5", "Sent", Some("sent"), 0),
    ];
    let html = mailbox_list(&boxes);
    let inbox = html.find("Inbox").unwrap();
    let sent = html.find("Sent").unwrap();
    let archive = html.find("Archive").unwrap();
    let alpha = html.find("Alpha").unwrap();
    let zeta = html.find("Zeta").unwrap();
    assert!(inbox < sent && sent < archive && archive < alpha && alpha < zeta);
    assert!(html.starts_with("<ul>") && html.ends_with("</ul>"));
    assert!(html.contains("<span class=\"unread\">(3)</span>"));
}

#[test]
fn mailbox_list_escapes_interpolations() {
    let boxes = vec![mailbox("a<b", "N&M", None, 0)];
    let html = mailbox_list(&boxes);
    assert!(html.contains("/mailbox/a&lt;b/emails"));
    assert!(html.contains("N&amp;M"));
}

#[test]
fn email_list_empty_shows_placeholder() {
    let html = email_list(&vec![], "m", None);
    assert_eq!(
        html,
        "<div style=\"padding: 1rem; color: #666;\">No emails in this mailbox</div>"
    );
}

#[test]
fn email_list_renders_rows_and_load_more() {
    let emails = vec![plain_email("e1", "Hi")];
    let html = email_list(&emails, "mbox", Some(50));
    assert!(html.starts_with("<table>"));
    assert!(html.contains("class=\"unread\""));  // no $seen keyword
    assert!(html.contains("Ann"));
    assert!(html.contains("Hi"));
    assert!(html.contains("2024-01-02 03:04"));
    assert!(html.contains("/mailbox/mbox/emails?offset=50"));
    let rows = email_list_rows(&emails, "mbox", Some(50));
    assert!(html.contains(&rows));
}

#[test]
fn seen_email_is_not_marked_unread() {
    let mut e = plain_email("e1", "Hi");
    e.keywords = vec![("$seen".to_string(), true)];
    let html = email_list(&vec![e], "m", None);
    assert!(!html.contains("class=\"unread\""));
}

#[test]
fn email_body_prefers_fetched_text_over_preview() {
    let mut e = plain_email("e1", "Hi");
    e.text_body = Some(vec!["2".to_string(), "1".to_string()]);
    e.body_values = vec![
        ("1".to_string(), "first part".to_string()),
        ("2".to_string(), "second part".to_string()),
    ];
    assert_eq!(get_email_body(&e), "second part");
    e.text_body = Some(vec!["9".to_string()]);
    assert_eq!(get_email_body(&e), "preview text");
    e.preview = None;
    assert_eq!(get_email_body(&e), "(no body)");
}

#[test]
fn email_view_shows_headers_and_escaped_body() {
    let mut e = plain_email("e<1", "A<B");
    e.text_body = Some(vec!["1".to_string()]);
    e.body_values = vec![("1".to_string(), "body <text>".to_string())];
    let html = email_view(&e);
    assert!(html.contains("/email/e&lt;1/raw"));
    assert!(html.contains("<dt>Subject:</dt><dd>A&lt;B</dd>"));
    assert!(html.contains("<pre class=\"body\">body &lt;text&gt;</pre>"));
    assert!(!html.contains("<dt>Cc:"));
}

#[test]
fn error_fragment_is_escaped() {
    assert_eq!(
        error_fragment("bad <thing>"),
        "<div class=\"error\">bad &lt;thing&gt;</div>"
    );
}

#[test]
fn pages_wrap_their_bodies() {
    let page = base_page("T&T", "BODY");
    assert!(page.starts_with("<!DOCTYPE html>"));
    assert!(page.contains("<title>T&amp;T</title>"));
    assert!(page.contains("\nBODY\n</body>"));
    let login = login_page(Some("no <way>"));
    assert!(login.contains("Webmail Login"));
    assert!(login.contains("<div class=\"error\">no &lt;way&gt;</div>"));
    let login_plain = login_page(None);
    assert!(!login_plain.contains("class=\"error\""));
    let main = main_page("ann@example.com");
    assert!(main.contains("<span class=\"username\">ann@example.com</span>"));
    assert!(main.contains("Loading mailboxes..."));
}
