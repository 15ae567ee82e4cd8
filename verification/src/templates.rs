//! Server-rendered HTML fragments. Every function's output is pinned down
//! character by character by a spec function; all interpolated data is
//! HTML-escaped.

use vstd::prelude::*;
use crate::json::dec_digits;
use crate::mail::{Email, EmailAddress, EmailAddressView, EmailView, Mailbox, MailboxView};
use crate::session_doc::{assoc_str, lemma_assoc_str_found, lemma_assoc_str_missing};

verus! {

broadcast use vstd::std_specs::vec::group_vec_axioms, vstd::seq::group_seq_axioms;

// ---- escaping ----

/// How one character is written in HTML text.
pub open spec fn html_escape_char(c: char) -> Seq<char> {
    if c == '&' {
        "&amp;"@
    } else if c == '<' {
        "&lt;"@
    } else if c == '>' {
        "&gt;"@
    } else if c == '"' {
        "&quot;"@
    } else if c == '\'' {
        "&#39;"@
    } else {
        seq![c]
    }
}

/// A text with every character HTML-escaped.
pub open spec fn html_escape_text(s: Seq<char>) -> Seq<char>
    decreases s.len(),
{
    if s.len() == 0 {
        Seq::empty()
    } else {
        html_escape_text(s.drop_last()) + html_escape_char(s.last())
    }
}

/// Escapes `&`, `<`, `>`, `"` and `'` for safe interpolation into HTML.
pub fn html_escape(s: &str) -> (r: String)
    ensures
        r@ == html_escape_text(s@),
{
    let n = s.unicode_len();
    let mut out = String::new();
    let mut i: usize = 0;
    while i < n
        invariant
            n == s@.len(),
            i <= n,
            out@ == html_escape_text(s@.take(i as int)),
        decreases n - i,
    {
        let c = s.get_char(i);
        if c == '&' {
            out.append("&amp;");
        } else if c == '<' {
            out.append("&lt;");
        } else if c == '>' {
            out.append("&gt;");
        } else if c == '"' {
            out.append("&quot;");
        } else if c == '\'' {
            out.append("&#39;");
        } else {
            crate::text::push_char(&mut out, c);
        }
        proof {
            assert(s@.take(i + 1).drop_last() =~= s@.take(i as int));
            assert(s@.take(i + 1).last() == s@[i as int]);
            assert(out@ =~= html_escape_text(s@.take(i + 1)));
        }
        i = i + 1;
    }
    proof {
        assert(s@.take(n as int) =~= s@);
    }
    out
}

// ---- small text helpers ----

/// A text cut to `max_len` characters, with a trailing ellipsis where
/// anything was cut.
pub open spec fn truncate_text(s: Seq<char>, max_len: int) -> Seq<char> {
    if s.len() <= max_len {
        s
    } else {
        s.take(max_len) + "..."@
    }
}

/// Cuts a preview down to at most `max_len` characters.
pub fn truncate(s: &str, max_len: usize) -> (r: String)
    ensures
        r@ == truncate_text(s@, max_len as int),
{
    let n = s.unicode_len();
    if n <= max_len {
        s.to_owned()
    } else {
        let mut out = crate::text::truncate_str(s, max_len);
        out.append("...");
        out
    }
}

/// A date-time line from an ISO-8601 text: the date, a space, and the
/// five clock characters after the `T`, where they exist.
pub open spec fn format_date_text(s: Seq<char>) -> Seq<char> {
    match crate::text::find_from(s, "T"@, 0) {
        Some(t) => s.take(t) + seq![' '] + (if t + 6 <= s.len() {
            s.subrange(t + 1, t + 6)
        } else {
            Seq::empty()
        }),
        None => s,
    }
}

/// Renders an ISO-8601 timestamp as `date hh:mm`.
pub fn format_date(iso_date: &str) -> (r: String)
    ensures
        r@ == format_date_text(iso_date@),
{
    let n = iso_date.unicode_len();
    match crate::text::find_str(iso_date, "T") {
        Some(t) => {
            proof {
                reveal_strlit("T");
                crate::text::lemma_find_from_some(iso_date@, "T"@, 0, t as int);
            }
            let mut out = iso_date.substring_char(0, t).to_owned();
            proof {
                assert(iso_date@.take(t as int) =~= iso_date@.subrange(0, t as int));
            }
            crate::text::push_char(&mut out, ' ');
            if n >= 6 && t <= n - 6 {
                let clock = iso_date.substring_char(t + 1, t + 6);
                out.append(clock);
            }
            proof {
                assert(out@ =~= format_date_text(iso_date@));
            }
            out
        },
        None => iso_date.to_owned(),
    }
}

/// The short display of an address: its name, else its address, else a
/// placeholder.
pub open spec fn address_short_text(a: EmailAddressView) -> Seq<char> {
    match a.name {
        Some(n) => n,
        None => match a.email {
            Some(e) => e,
            None => "(unknown)"@,
        },
    }
}

/// Renders an address for the message list: name over address.
pub fn format_address_short(addr: &EmailAddress) -> (r: String)
    ensures
        r@ == address_short_text(addr@),
{
    match &addr.name {
        Some(n) => n.clone(),
        None => match &addr.email {
            Some(e) => e.clone(),
            None => "(unknown)".to_owned(),
        },
    }
}

/// The full display of one address: `name <address>` where both are known.
pub open spec fn address_full_text(a: EmailAddressView) -> Seq<char> {
    match (a.name, a.email) {
        (Some(n), Some(e)) => n + " <"@ + e + ">"@,
        (Some(n), None) => n,
        (None, Some(e)) => e,
        (None, None) => "(unknown)"@,
    }
}

fn format_address_full(addr: &EmailAddress) -> (r: String)
    ensures
        r@ == address_full_text(addr@),
{
    match (&addr.name, &addr.email) {
        (Some(n), Some(e)) => {
            let mut out = n.clone();
            out.append(" <");
            out.append(e.as_str());
            out.append(">");
            out
        },
        (Some(n), None) => n.clone(),
        (None, Some(e)) => e.clone(),
        (None, None) => "(unknown)".to_owned(),
    }
}

/// An address list joined with commas, each rendered in full.
pub open spec fn addresses_text(addrs: Seq<EmailAddressView>) -> Seq<char>
    decreases addrs.len(),
{
    if addrs.len() == 0 {
        Seq::empty()
    } else if addrs.len() == 1 {
        address_full_text(addrs[0])
    } else {
        addresses_text(addrs.drop_last()) + ", "@ + address_full_text(addrs.last())
    }
}

/// Renders a whole address list for the message view.
#[verifier::loop_isolation(false)]
pub fn format_addresses(addrs: &Vec<EmailAddress>) -> (r: String)
    ensures
        r@ == addresses_text(crate::mail::addr_views(addrs@)),
{
    let ghost av: Seq<EmailAddressView> = crate::mail::addr_views(addrs@);
    let n = addrs.len();
    let mut out = String::new();
    let mut i: usize = 0;
    while i < n
        invariant
            i <= n,
            out@ == addresses_text(av.take(i as int)),
        decreases n - i,
    {
        if i > 0 {
            out.append(", ");
        }
        let part = format_address_full(&addrs[i]);
        out.append(part.as_str());
        proof {
            assert(av.take(i + 1).drop_last() =~= av.take(i as int));
            assert(av.take(i + 1).last() == av[i as int]);
            assert(out@ =~= addresses_text(av.take(i + 1)));
        }
        i = i + 1;
    }
    proof {
        assert(av.take(n as int) =~= av);
    }
    out
}

// ---- the message body ----

/// The text of the first body part whose value was fetched, if any.
pub open spec fn first_body_value(
    parts: Seq<Seq<char>>,
    vals: Seq<(Seq<char>, Seq<char>)>,
) -> Option<Seq<char>>
    decreases parts.len(),
{
    if parts.len() == 0 {
        None
    } else {
        match assoc_str(vals, parts[0]) {
            Some(v) => Some(v),
            None => first_body_value(parts.drop_first(), vals),
        }
    }
}

/// What the message view shows as the body: the first fetched text part,
/// else the preview, else a placeholder.
pub open spec fn email_body_text(e: EmailView) -> Seq<char> {
    let fallback = match e.preview {
        Some(p) => p,
        None => "(no body)"@,
    };
    match e.text_body {
        Some(parts) => match first_body_value(parts, e.body_values) {
            Some(v) => v,
            None => fallback,
        },
        None => fallback,
    }
}

/// Looks a part id up among the fetched body values, first match.
#[verifier::loop_isolation(false)]
fn body_value_get<'a>(vals: &'a Vec<(String, String)>, part_id: &str) -> (r: Option<&'a String>)
    ensures
        ({
            let vv = Seq::new(vals@.len(), |i: int| (vals@[i].0@, vals@[i].1@));
            match r {
                Some(v) => assoc_str(vv, part_id@) == Some(v@),
                None => assoc_str(vv, part_id@) is None,
            }
        }),
{
    let ghost vv: Seq<(Seq<char>, Seq<char>)> = Seq::new(
        vals@.len(),
        |i: int| (vals@[i].0@, vals@[i].1@),
    );
    let n = vals.len();
    let mut i: usize = 0;
    while i < n
        invariant
            i <= n,
            forall|m: int| 0 <= m < i ==> vv[m].0 != part_id@,
        decreases n - i,
    {
        if crate::text::str_eq(vals[i].0.as_str(), part_id) {
            proof {
                lemma_assoc_str_found(vv, part_id@, i as int);
            }
            return Some(&vals[i].1);
        }
        i = i + 1;
    }
    proof {
        lemma_assoc_str_missing(vv, part_id@);
    }
    None
}

/// Picks the body text to show, as [`email_body_text`] says.
#[verifier::loop_isolation(false)]
pub fn get_email_body(email: &Email) -> (r: String)
    ensures
        r@ == email_body_text(email@),
{
    let ghost vv: Seq<(Seq<char>, Seq<char>)> = email@.body_values;
    match &email.text_body {
        Some(parts) => {
            let ghost pv: Seq<Seq<char>> = email@.text_body->0;
            proof {
                assert(pv.skip(0) =~= pv);
            }
            let n = parts.len();
            let mut i: usize = 0;
            while i < n
                invariant
                    i <= n,
                    pv.len() == n,
                    first_body_value(pv, vv) == first_body_value(pv.skip(i as int), vv),
                decreases n - i,
            {
                proof {
                    assert(pv[i as int] == parts@[i as int]@);
                }
                match body_value_get(&email.body_values, parts[i].as_str()) {
                    Some(v) => {
                        proof {
                            assert(pv.skip(i as int)[0] == pv[i as int]);
                        }
                        return v.clone();
                    },
                    None => {
                        proof {
                            assert(pv.skip(i as int)[0] == pv[i as int]);
                            assert(pv.skip(i as int).drop_first() =~= pv.skip(i + 1));
                        }
                    },
                }
                i = i + 1;
            }
            proof {
                assert(pv.skip(n as int) =~= Seq::<Seq<char>>::empty());
            }
            match &email.preview {
                Some(p) => p.clone(),
                None => "(no body)".to_owned(),
            }
        },
        None => {
            match &email.preview {
                Some(p) => p.clone(),
                None => "(no body)".to_owned(),
            }
        },
    }
}

// ---- mailbox ordering ----

/// The display rank of a mailbox role: well-known roles first, in the
/// fixed order, everything else last.
pub open spec fn role_rank(m: MailboxView) -> int {
    match m.role {
        Some(r) => if r == "inbox"@ {
            0
        } else if r == "drafts"@ {
            1
        } else if r == "sent"@ {
            2
        } else if r == "trash"@ {
            3
        } else if r == "junk"@ || r == "spam"@ {
            4
        } else if r == "archive"@ {
            5
        } else {
            10
        },
        None => 10,
    }
}

fn role_rank_exec(m: &Mailbox) -> (r: u32)
    ensures
        r as int == role_rank(m@),
{
    match &m.role {
        Some(role) => {
            let r = role.as_str();
            if crate::text::str_eq(r, "inbox") {
                0
            } else if crate::text::str_eq(r, "drafts") {
                1
            } else if crate::text::str_eq(r, "sent") {
                2
            } else if crate::text::str_eq(r, "trash") {
                3
            } else if crate::text::str_eq(r, "junk") || crate::text::str_eq(r, "spam") {
                4
            } else if crate::text::str_eq(r, "archive") {
                5
            } else {
                10
            }
        },
        None => 10,
    }
}

/// Lexicographic order on character sequences.
pub open spec fn seq_char_le(a: Seq<char>, b: Seq<char>) -> bool
    decreases a.len(),
{
    if a.len() == 0 {
        true
    } else if b.len() == 0 {
        false
    } else if a[0] != b[0] {
        a[0] < b[0]
    } else {
        seq_char_le(a.drop_first(), b.drop_first())
    }
}

#[verifier::loop_isolation(false)]
fn str_le(a: &str, b: &str) -> (r: bool)
    ensures
        r == seq_char_le(a@, b@),
{
    let na = a.unicode_len();
    let nb = b.unicode_len();
    proof {
        assert(a@.skip(0) =~= a@);
        assert(b@.skip(0) =~= b@);
    }
    let mut i: usize = 0;
    loop
        invariant
            na == a@.len(),
            nb == b@.len(),
            i <= na,
            i <= nb,
            seq_char_le(a@, b@) == seq_char_le(a@.skip(i as int), b@.skip(i as int)),
        decreases na - i,
    {
        if i == na {
            return true;
        }
        if i == nb {
            return false;
        }
        let ca = a.get_char(i);
        let cb = b.get_char(i);
        if ca != cb {
            return ca < cb;
        }
        proof {
            assert(a@.skip(i as int).drop_first() =~= a@.skip(i + 1));
            assert(b@.skip(i as int).drop_first() =~= b@.skip(i + 1));
        }
        i = i + 1;
    }
}

/// The display order: by role rank, then by name.
pub open spec fn mb_le(a: MailboxView, b: MailboxView) -> bool {
    role_rank(a) < role_rank(b) || (role_rank(a) == role_rank(b) && seq_char_le(a.name, b.name))
}

fn mb_le_exec(a: &Mailbox, b: &Mailbox) -> (r: bool)
    ensures
        r == mb_le(a@, b@),
{
    let ra = role_rank_exec(a);
    let rb = role_rank_exec(b);
    if ra < rb {
        true
    } else if ra == rb {
        str_le(a.name.as_str(), b.name.as_str())
    } else {
        false
    }
}

pub open spec fn mb_ref_views(s: Seq<&Mailbox>) -> Seq<MailboxView> {
    Seq::new(s.len(), |i: int| s[i]@)
}

/// Inserts a mailbox into an ordered list, after every entry it does not
/// precede (so equal entries keep their arrival order).
pub open spec fn insert_mb(s: Seq<MailboxView>, x: MailboxView) -> Seq<MailboxView>
    decreases s.len(),
{
    if s.len() > 0 && !mb_le(s.last(), x) {
        insert_mb(s.drop_last(), x).push(s.last())
    } else {
        s.push(x)
    }
}

/// The display order of a mailbox list: insertion sort by [`mb_le`],
/// stable.
pub open spec fn sort_mbs(s: Seq<MailboxView>) -> Seq<MailboxView>
    decreases s.len(),
{
    if s.len() == 0 {
        Seq::empty()
    } else {
        insert_mb(sort_mbs(s.drop_last()), s.last())
    }
}

fn insert_mb_exec<'a>(s: Vec<&'a Mailbox>, x: &'a Mailbox) -> (r: Vec<&'a Mailbox>)
    ensures
        mb_ref_views(r@) == insert_mb(mb_ref_views(s@), x@),
    decreases s@.len(),
{
    let mut s = s;
    let ghost sv: Seq<MailboxView> = mb_ref_views(s@);
    if s.len() > 0 {
        let lastref: &Mailbox = s[s.len() - 1];
        if !mb_le_exec(lastref, x) {
            let popped = match s.pop() {
                Some(p) => p,
                None => lastref,
            };
            proof {
                assert(mb_ref_views(s@) =~= sv.drop_last());
            }
            let mut r = insert_mb_exec(s, x);
            r.push(popped);
            proof {
                assert(mb_ref_views(r@) =~= insert_mb(sv.drop_last(), x@).push(sv.last()));
            }
            return r;
        }
    }
    s.push(x);
    proof {
        assert(mb_ref_views(s@) =~= sv.push(x@));
    }
    s
}

#[verifier::loop_isolation(false)]
fn sort_mailboxes<'a>(mailboxes: &'a Vec<Mailbox>) -> (r: Vec<&'a Mailbox>)
    ensures
        mb_ref_views(r@) == sort_mbs(crate::mail::mailbox_views(mailboxes@)),
{
    let ghost mv: Seq<MailboxView> = crate::mail::mailbox_views(mailboxes@);
    let n = mailboxes.len();
    let mut sorted: Vec<&Mailbox> = Vec::new();
    proof {
        assert(mb_ref_views(sorted@) =~= sort_mbs(mv.take(0)));
    }
    let mut i: usize = 0;
    while i < n
        invariant
            i <= n,
            mb_ref_views(sorted@) == sort_mbs(mv.take(i as int)),
        decreases n - i,
    {
        sorted = insert_mb_exec(sorted, &mailboxes[i]);
        proof {
            assert(mv.take(i + 1).drop_last() =~= mv.take(i as int));
            assert(mv.take(i + 1).last() == mv[i as int]);
        }
        i = i + 1;
    }
    proof {
        assert(mv.take(n as int) =~= mv);
    }
    sorted
}

// ---- fragments ----

/// The unread badge of one mailbox entry: shown only over zero.
pub open spec fn unread_badge_text(m: MailboxView) -> Seq<char> {
    if m.unread_emails > 0 {
        " <span class=\"unread\">("@ + dec_digits(m.unread_emails as nat) + ")</span>"@
    } else {
        Seq::empty()
    }
}

/// One mailbox entry of the sidebar.
pub open spec fn mailbox_item_text(m: MailboxView) -> Seq<char> {
    "<li hx-get=\"/mailbox/"@ + html_escape_text(m.id)
        + "/emails\" hx-target=\"#email-list\" hx-swap=\"innerHTML\">"@ + html_escape_text(m.name)
        + unread_badge_text(m) + "</li>"@
}

pub open spec fn mailbox_items_text(s: Seq<MailboxView>) -> Seq<char>
    decreases s.len(),
{
    if s.len() == 0 {
        Seq::empty()
    } else {
        mailbox_items_text(s.drop_last()) + mailbox_item_text(s.last())
    }
}

fn render_mailbox_item(m: &Mailbox, out: &mut String)
    ensures
        final(out)@ == old(out)@ + mailbox_item_text(m@),
{
    out.append("<li hx-get=\"/mailbox/");
    let id = html_escape(m.id.as_str());
    out.append(id.as_str());
    out.append("/emails\" hx-target=\"#email-list\" hx-swap=\"innerHTML\">");
    let name = html_escape(m.name.as_str());
    out.append(name.as_str());
    if m.unread_emails > 0 {
        out.append(" <span class=\"unread\">(");
        crate::json::write_u64_dec(m.unread_emails, out);
        out.append(")</span>");
    }
    out.append("</li>");
    proof {
        assert(final(out)@ =~= old(out)@ + mailbox_item_text(m@));
    }
}

/// The sidebar list: the mailboxes in display order, as one `<ul>`.
#[verifier::loop_isolation(false)]
pub fn mailbox_list(mailboxes: &Vec<Mailbox>) -> (r: String)
    ensures
        r@ == "<ul>"@ + mailbox_items_text(sort_mbs(crate::mail::mailbox_views(mailboxes@)))
            + "</ul>"@,
{
    let sorted = sort_mailboxes(mailboxes);
    let ghost sv: Seq<MailboxView> = mb_ref_views(sorted@);
    let mut out = "<ul>".to_owned();
    let n = sorted.len();
    let mut i: usize = 0;
    while i < n
        invariant
            i <= n,
            out@ == "<ul>"@ + mailbox_items_text(sv.take(i as int)),
        decreases n - i,
    {
        render_mailbox_item(sorted[i], &mut out);
        proof {
            assert(sv.take(i + 1).drop_last() =~= sv.take(i as int));
            assert(sv.take(i + 1).last() == sv[i as int]);
            assert(out@ =~= "<ul>"@ + mailbox_items_text(sv.take(i + 1)));
        }
        i = i + 1;
    }
    out.append("</ul>");
    proof {
        assert(sv.take(n as int) =~= sv);
        assert(out@ =~= "<ul>"@ + mailbox_items_text(sv) + "</ul>"@);
    }
    out
}

// ---- message rows ----

/// The value of a keyword: the first pair under that name, false when
/// absent.
pub open spec fn keyword_flag(ks: Seq<(Seq<char>, bool)>, k: Seq<char>) -> bool
    decreases ks.len(),
{
    if ks.len() == 0 {
        false
    } else if ks[0].0 == k {
        ks[0].1
    } else {
        keyword_flag(ks.drop_first(), k)
    }
}

proof fn lemma_keyword_flag_found(ks: Seq<(Seq<char>, bool)>, k: Seq<char>, i: int)
    requires
        0 <= i < ks.len(),
        ks[i].0 == k,
        forall|m: int| 0 <= m < i ==> ks[m].0 != k,
    ensures
        keyword_flag(ks, k) == ks[i].1,
    decreases i,
{
    if i > 0 {
        lemma_keyword_flag_found(ks.drop_first(), k, i - 1);
    }
}

proof fn lemma_keyword_flag_missing(ks: Seq<(Seq<char>, bool)>, k: Seq<char>)
    requires
        forall|m: int| 0 <= m < ks.len() ==> ks[m].0 != k,
    ensures
        keyword_flag(ks, k) == false,
    decreases ks.len(),
{
    if ks.len() > 0 {
        lemma_keyword_flag_missing(ks.drop_first(), k);
    }
}

/// Whether a message carries the given keyword.
#[verifier::loop_isolation(false)]
fn email_has_keyword(email: &Email, k: &str) -> (r: bool)
    ensures
        r == keyword_flag(email@.keywords, k@),
{
    let ghost ks: Seq<(Seq<char>, bool)> = email@.keywords;
    let n = email.keywords.len();
    let mut i: usize = 0;
    while i < n
        invariant
            i <= n,
            forall|m: int| 0 <= m < i ==> ks[m].0 != k@,
        decreases n - i,
    {
        if crate::text::str_eq(email.keywords[i].0.as_str(), k) {
            proof {
                lemma_keyword_flag_found(ks, k@, i as int);
            }
            return email.keywords[i].1;
        }
        i = i + 1;
    }
    proof {
        lemma_keyword_flag_missing(ks, k@);
    }
    false
}

/// The sender column of one row: the first `from` entry, shortened.
pub open spec fn row_from_text(e: EmailView) -> Seq<char> {
    match e.from {
        Some(addrs) => if addrs.len() > 0 {
            address_short_text(addrs[0])
        } else {
            "(unknown)"@
        },
        None => "(unknown)"@,
    }
}

pub open spec fn row_subject_text(e: EmailView) -> Seq<char> {
    match e.subject {
        Some(s) => s,
        None => "(no subject)"@,
    }
}

pub open spec fn row_date_text(e: EmailView) -> Seq<char> {
    match e.received_at {
        Some(d) => format_date_text(d),
        None => Seq::empty(),
    }
}

pub open spec fn row_preview_text(e: EmailView) -> Seq<char> {
    match e.preview {
        Some(p) => p,
        None => Seq::empty(),
    }
}

/// One row of the message list.
pub open spec fn email_row_text(e: EmailView) -> Seq<char> {
    "<tr"@ + (if keyword_flag(e.keywords, "$seen"@) {
        Seq::empty()
    } else {
        " class=\"unread\""@
    }) + " hx-get=\"/email/"@ + html_escape_text(e.id)
        + "\" hx-target=\"#email-view\" hx-swap=\"innerHTML\">\n  <td>"@ + html_escape_text(
        row_from_text(e),
    ) + "</td>\n  <td><span class=\"subject\">"@ + html_escape_text(row_subject_text(e))
        + "</span><br><span class=\"preview\">"@ + html_escape_text(
        truncate_text(row_preview_text(e), 80),
    ) + "</span></td>\n  <td>"@ + html_escape_text(row_date_text(e)) + "</td>\n</tr>"@
}

pub open spec fn email_rows_body_text(es: Seq<EmailView>) -> Seq<char>
    decreases es.len(),
{
    if es.len() == 0 {
        Seq::empty()
    } else {
        email_rows_body_text(es.drop_last()) + email_row_text(es.last())
    }
}

/// The trailing load-more row, shown while another page may follow.
pub open spec fn load_more_text(mailbox_id: Seq<char>, next_offset: Option<u32>) -> Seq<char> {
    match next_offset {
        Some(o) =>
            "<tr id=\"loadmore\">\n  <td colspan=\"3\" style=\"text-align: center; padding: 1rem;\">\n    <button hx-get=\"/mailbox/"@
            + html_escape_text(mailbox_id) + "/emails?offset="@ + dec_digits(o as nat)
            + "\" hx-target=\"#loadmore\" hx-swap=\"outerHTML\" style=\"padding: 0.5rem 1rem; cursor: pointer; font-family: monospace; background: #f0f0f0; border: 1px solid #ccc;\">Load More</button>\n  </td>\n</tr>"@,
        None => Seq::empty(),
    }
}

/// All rows of the message list, the load-more row included.
pub open spec fn email_rows_text(
    es: Seq<EmailView>,
    mailbox_id: Seq<char>,
    next_offset: Option<u32>,
) -> Seq<char> {
    email_rows_body_text(es) + load_more_text(mailbox_id, next_offset)
}

#[verifier::rlimit(60)]
fn render_email_row(e: &Email, out: &mut String)
    ensures
        final(out)@ == old(out)@ + email_row_text(e@),
{
    out.append("<tr");
    if !email_has_keyword(e, "$seen") {
        out.append(" class=\"unread\"");
    }
    out.append(" hx-get=\"/email/");
    let id = html_escape(e.id.as_str());
    out.append(id.as_str());
    out.append("\" hx-target=\"#email-view\" hx-swap=\"innerHTML\">\n  <td>");
    let from = match &e.from {
        Some(addrs) => {
            if addrs.len() > 0 {
                format_address_short(&addrs[0])
            } else {
                "(unknown)".to_owned()
            }
        },
        None => "(unknown)".to_owned(),
    };
    proof {
        assert(from@ == row_from_text(e@));
    }
    let from_html = html_escape(from.as_str());
    out.append(from_html.as_str());
    out.append("</td>\n  <td><span class=\"subject\">");
    let subject = match &e.subject {
        Some(s) => s.clone(),
        None => "(no subject)".to_owned(),
    };
    let subject_html = html_escape(subject.as_str());
    out.append(subject_html.as_str());
    out.append("</span><br><span class=\"preview\">");
    let preview = match &e.preview {
        Some(p) => p.clone(),
        None => String::new(),
    };
    let preview_cut = truncate(preview.as_str(), 80);
    let preview_html = html_escape(preview_cut.as_str());
    out.append(preview_html.as_str());
    out.append("</span></td>\n  <td>");
    let date = match &e.received_at {
        Some(d) => format_date(d.as_str()),
        None => String::new(),
    };
    let date_html = html_escape(date.as_str());
    out.append(date_html.as_str());
    out.append("</td>\n</tr>");
    proof {
        assert(final(out)@ =~= old(out)@ + email_row_text(e@));
    }
}

/// Renders the rows of the message list, newest first as given.
#[verifier::loop_isolation(false)]
fn email_rows(emails: &Vec<Email>, mailbox_id: &str, next_offset: Option<u32>) -> (r: String)
    ensures
        r@ == email_rows_text(crate::mail::email_views(emails@), mailbox_id@, next_offset),
{
    let ghost ev: Seq<EmailView> = crate::mail::email_views(emails@);
    let n = emails.len();
    let mut out = String::new();
    let mut i: usize = 0;
    while i < n
        invariant
            i <= n,
            out@ == email_rows_body_text(ev.take(i as int)),
        decreases n - i,
    {
        render_email_row(&emails[i], &mut out);
        proof {
            assert(ev.take(i + 1).drop_last() =~= ev.take(i as int));
            assert(ev.take(i + 1).last() == ev[i as int]);
            assert(out@ =~= email_rows_body_text(ev.take(i + 1)));
        }
        i = i + 1;
    }
    proof {
        assert(ev.take(n as int) =~= ev);
    }
    match next_offset {
        Some(o) => {
            out.append(
                "<tr id=\"loadmore\">\n  <td colspan=\"3\" style=\"text-align: center; padding: 1rem;\">\n    <button hx-get=\"/mailbox/",
            );
            let mid = html_escape(mailbox_id);
            out.append(mid.as_str());
            out.append("/emails?offset=");
            crate::json::write_u64_dec(o as u64, &mut out);
            out.append(
                "\" hx-target=\"#loadmore\" hx-swap=\"outerHTML\" style=\"padding: 0.5rem 1rem; cursor: pointer; font-family: monospace; background: #f0f0f0; border: 1px solid #ccc;\">Load More</button>\n  </td>\n</tr>",
            );
            proof {
                assert(out@ =~= email_rows_text(ev, mailbox_id@, next_offset));
            }
        },
        None => {
            proof {
                assert(out@ =~= email_rows_text(ev, mailbox_id@, next_offset));
            }
        },
    }
    out
}

/// The message-list pane: a placeholder for an empty mailbox, else the
/// table of rows.
pub open spec fn email_list_text(
    es: Seq<EmailView>,
    mailbox_id: Seq<char>,
    next_offset: Option<u32>,
) -> Seq<char> {
    if es.len() == 0 {
        "<div style=\"padding: 1rem; color: #666;\">No emails in this mailbox</div>"@
    } else {
        "<table>\n<thead><tr><th>From</th><th>Subject</th><th>Date</th></tr></thead>\n<tbody>"@
            + email_rows_text(es, mailbox_id, next_offset) + "</tbody>\n</table>"@
    }
}

/// Renders the message-list pane.
pub fn email_list(emails: &Vec<Email>, mailbox_id: &str, next_offset: Option<u32>) -> (r: String)
    ensures
        r@ == email_list_text(crate::mail::email_views(emails@), mailbox_id@, next_offset),
{
    if emails.len() == 0 {
        return "<div style=\"padding: 1rem; color: #666;\">No emails in this mailbox</div>".to_owned();
    }
    let mut out =
        "<table>\n<thead><tr><th>From</th><th>Subject</th><th>Date</th></tr></thead>\n<tbody>".to_owned();
    let rows = email_rows(emails, mailbox_id, next_offset);
    out.append(rows.as_str());
    out.append("</tbody>\n</table>");
    proof {
        assert(out@ =~= email_list_text(
            crate::mail::email_views(emails@),
            mailbox_id@,
            next_offset,
        ));
    }
    out
}

/// Renders only the rows, for appending another page to the list.
pub fn email_list_rows(emails: &Vec<Email>, mailbox_id: &str, next_offset: Option<u32>) -> (r:
    String)
    ensures
        r@ == email_rows_text(crate::mail::email_views(emails@), mailbox_id@, next_offset),
{
    email_rows(emails, mailbox_id, next_offset)
}

// ---- the message view ----

pub open spec fn view_from_text(e: EmailView) -> Seq<char> {
    match e.from {
        Some(addrs) => addresses_text(addrs),
        None => "(unknown)"@,
    }
}

pub open spec fn view_to_text(e: EmailView) -> Seq<char> {
    match e.to {
        Some(addrs) => addresses_text(addrs),
        None => "(unknown)"@,
    }
}

pub open spec fn view_cc_html_text(e: EmailView) -> Seq<char> {
    match e.cc {
        Some(addrs) => "<dt>Cc:</dt><dd>"@ + html_escape_text(addresses_text(addrs)) + "</dd>"@,
        None => Seq::empty(),
    }
}

pub open spec fn view_date_text(e: EmailView) -> Seq<char> {
    match e.received_at {
        Some(d) => d,
        None => "(unknown date)"@,
    }
}

/// The whole message view: headers, then the body as preformatted text.
pub open spec fn email_view_text(e: EmailView) -> Seq<char> {
    "<div style=\"margin-bottom: 0.5rem;\">\n  <a href=\"/email/"@ + html_escape_text(e.id)
        + "/raw\" target=\"_blank\" style=\"font-size: 12px; color: #666; text-decoration: none; border: 1px solid #ccc; padding: 2px 8px; background: #f5f5f5;\">View Raw</a>\n</div>\n<dl class=\"headers\">\n  <dt>From:</dt><dd>"@
        + html_escape_text(view_from_text(e)) + "</dd>\n  <dt>To:</dt><dd>"@ + html_escape_text(
        view_to_text(e),
    ) + "</dd>\n  "@ + view_cc_html_text(e) + "\n  <dt>Subject:</dt><dd>"@ + html_escape_text(
        row_subject_text(e),
    ) + "</dd>\n  <dt>Date:</dt><dd>"@ + html_escape_text(view_date_text(e))
        + "</dd>\n</dl>\n<hr>\n<pre class=\"body\">"@ + html_escape_text(email_body_text(e))
        + "</pre>"@
}

/// Renders one message in full.
pub fn email_view(email: &Email) -> (r: String)
    ensures
        r@ == email_view_text(email@),
{
    let mut out = "<div style=\"margin-bottom: 0.5rem;\">\n  <a href=\"/email/".to_owned();
    let id = html_escape(email.id.as_str());
    out.append(id.as_str());
    out.append(
        "/raw\" target=\"_blank\" style=\"font-size: 12px; color: #666; text-decoration: none; border: 1px solid #ccc; padding: 2px 8px; background: #f5f5f5;\">View Raw</a>\n</div>\n<dl class=\"headers\">\n  <dt>From:</dt><dd>",
    );
    let from = match &email.from {
        Some(addrs) => format_addresses(addrs),
        None => "(unknown)".to_owned(),
    };
    let from_html = html_escape(from.as_str());
    out.append(from_html.as_str());
    out.append("</dd>\n  <dt>To:</dt><dd>");
    let to = match &email.to {
        Some(addrs) => format_addresses(addrs),
        None => "(unknown)".to_owned(),
    };
    let to_html = html_escape(to.as_str());
    out.append(to_html.as_str());
    out.append("</dd>\n  ");
    match &email.cc {
        Some(addrs) => {
            out.append("<dt>Cc:</dt><dd>");
            let cc = format_addresses(addrs);
            let cc_html = html_escape(cc.as_str());
            out.append(cc_html.as_str());
            out.append("</dd>");
        },
        None => {},
    }
    out.append("\n  <dt>Subject:</dt><dd>");
    let subject = match &email.subject {
        Some(s) => s.clone(),
        None => "(no subject)".to_owned(),
    };
    let subject_html = html_escape(subject.as_str());
    out.append(subject_html.as_str());
    out.append("</dd>\n  <dt>Date:</dt><dd>");
    let date = match &email.received_at {
        Some(d) => d.clone(),
        None => "(unknown date)".to_owned(),
    };
    let date_html = html_escape(date.as_str());
    out.append(date_html.as_str());
    out.append("</dd>\n</dl>\n<hr>\n<pre class=\"body\">");
    let body = get_email_body(email);
    let body_html = html_escape(body.as_str());
    out.append(body_html.as_str());
    out.append("</pre>");
    proof {
        assert(out@ =~= email_view_text(email@));
    }
    out
}

// ---- page shells ----

/// Everything of the page before the escaped title.
pub const PAGE_HEAD: &'static str = "<!DOCTYPE html>\n<html>\n<head>\n  <meta charset=\"utf-8\">\n  <meta name=\"viewport\" content=\"width=device-width, initial-scale=1\">\n  <title>";

/// Everything between the title and the body: the script tag and the
/// whole stylesheet.
pub const PAGE_STYLE: &'static str = "</title>\n  <script src=\"/static/htmx.min.js\"></script>\n  <style>\n    * { box-sizing: border-box; }\n    body { margin: 0; font-family: monospace; font-size: 14px; background: #fafafa; }\n    .container { display: flex; height: 100vh; }\n    .sidebar {\n      width: 200px;\n      border-right: 1px solid #ccc;\n      background: #f5f5f5;\n      display: flex;\n      flex-direction: column;\n    }\n    .sidebar-header {\n      padding: 0.5rem;\n      border-bottom: 1px solid #ccc;\n      background: #f0f0f0;\n      display: flex;\n      justify-content: space-between;\n      align-items: center;\n    }\n    .sidebar-header .username {\n      font-size: 12px;\n      color: #333;\n      overflow: hidden;\n      text-overflow: ellipsis;\n      white-space: nowrap;\n    }\n    .mailbox-list {\n      flex: 1;\n      overflow-y: scroll;\n      padding: 0.5rem 0;\n    }\n    .sidebar ul { list-style: none; margin: 0; padding: 0; }\n    .sidebar li {\n      padding: 0.5rem 1rem;\n      cursor: pointer;\n      border-bottom: 1px solid #eee;\n    }\n    .sidebar li:hover { background: #e8e8e8; }\n    .sidebar li.selected { background: #ddd; font-weight: bold; }\n    .sidebar .unread { color: #666; font-size: 12px; }\n    .main { flex: 1; display: flex; flex-direction: column; overflow: hidden; }\n    .email-list {\n      height: 40%;\n      overflow-y: scroll;\n      border-bottom: 1px solid #ccc;\n    }\n    .email-list table { width: 100%; border-collapse: collapse; }\n    .email-list th, .email-list td {\n      padding: 0.5rem;\n      text-align: left;\n      border-bottom: 1px solid #eee;\n    }\n    .email-list th { background: #f0f0f0; position: sticky; top: 0; }\n    .email-list tr { cursor: pointer; }\n    .email-list tr:hover { background: #f5f5f5; }\n    .email-list tr.unread { font-weight: bold; }\n    .email-list .subject { max-width: 300px; overflow: hidden; text-overflow: ellipsis; white-space: nowrap; }\n    .email-list .preview { color: #666; font-size: 12px; }\n    .email-view {\n      flex: 1;\n      overflow-y: scroll;\n      padding: 1rem;\n    }\n    .email-view .headers { margin-bottom: 1rem; }\n    .email-view .headers dt { font-weight: bold; float: left; width: 80px; clear: left; }\n    .email-view .headers dd { margin-left: 90px; margin-bottom: 0.25rem; }\n    .email-view .body {\n      white-space: pre-wrap;\n      font-family: monospace;\n      background: #fff;\n      padding: 1rem;\n      border: 1px solid #ddd;\n    }\n    .login-page {\n      display: flex;\n      justify-content: center;\n      align-items: center;\n      height: 100vh;\n      background: #f5f5f5;\n    }\n    .login-form {\n      background: #fff;\n      padding: 2rem;\n      border: 1px solid #ccc;\n      width: 300px;\n    }\n    .login-form h1 { margin: 0 0 1rem 0; font-size: 1.5rem; }\n    .login-form input {\n      display: block;\n      width: 100%;\n      padding: 0.5rem;\n      margin-bottom: 1rem;\n      border: 1px solid #ccc;\n      font-family: monospace;\n    }\n    .login-form button {\n      width: 100%;\n      padding: 0.5rem;\n      background: #333;\n      color: #fff;\n      border: none;\n      cursor: pointer;\n      font-family: monospace;\n    }\n    .login-form button:hover { background: #555; }\n    .error { color: #c00; margin-top: 1rem; }\n    .loading { color: #666; font-style: italic; }\n    .logout-btn {\n      padding: 0.25rem 0.5rem;\n      background: none;\n      border: 1px solid #ccc;\n      cursor: pointer;\n      color: #666;\n      font-family: monospace;\n      font-size: 11px;\n    }\n    .logout-btn:hover { color: #000; }\n  </style>\n</head>\n<body>\n";

/// Everything after the body.
pub const PAGE_FOOT: &'static str = "\n</body>\n</html>";

/// The full page around a body: head, escaped title, style, body, foot.
pub open spec fn base_page_text(title: Seq<char>, body: Seq<char>) -> Seq<char> {
    PAGE_HEAD@ + html_escape_text(title) + PAGE_STYLE@ + body + PAGE_FOOT@
}

/// Wraps a body in the page shell. The body is trusted markup from the
/// other functions here; only the title is escaped.
pub fn base_page(title: &str, body: &str) -> (r: String)
    ensures
        r@ == base_page_text(title@, body@),
{
    let mut out = PAGE_HEAD.to_owned();
    let t = html_escape(title);
    out.append(t.as_str());
    out.append(PAGE_STYLE);
    out.append(body);
    out.append(PAGE_FOOT);
    out
}

/// The login form, with an error box where a message is given.
pub open spec fn login_body_text(error: Option<Seq<char>>) -> Seq<char> {
    "<div class=\"login-page\">\n  <form class=\"login-form\" hx-post=\"/login\" hx-target=\"body\" hx-swap=\"innerHTML\">\n    <h1>Webmail Login</h1>\n    <input name=\"username\" type=\"text\" placeholder=\"Email address\" required autofocus>\n    <input name=\"password\" type=\"password\" placeholder=\"Password\" required>\n    <button type=\"submit\">Login</button>\n    "@
        + (match error {
        Some(e) => "<div class=\"error\">"@ + html_escape_text(e) + "</div>"@,
        None => Seq::empty(),
    }) + "\n  </form>\n</div>"@
}

/// Renders the login page.
pub fn login_page(error: Option<&str>) -> (r: String)
    ensures
        r@ == base_page_text(
            "Login"@,
            login_body_text(
                match error {
                    Some(e) => Some(e@),
                    None => None,
                },
            ),
        ),
{
    let mut body =
        "<div class=\"login-page\">\n  <form class=\"login-form\" hx-post=\"/login\" hx-target=\"body\" hx-swap=\"innerHTML\">\n    <h1>Webmail Login</h1>\n    <input name=\"username\" type=\"text\" placeholder=\"Email address\" required autofocus>\n    <input name=\"password\" type=\"password\" placeholder=\"Password\" required>\n    <button type=\"submit\">Login</button>\n    ".to_owned();
    match error {
        Some(e) => {
            body.append("<div class=\"error\">");
            let m = html_escape(e);
            body.append(m.as_str());
            body.append("</div>");
        },
        None => {},
    }
    body.append("\n  </form>\n</div>");
    proof {
        assert(body@ =~= login_body_text(
            match error {
                Some(e) => Some(e@),
                None => None,
            },
        ));
    }
    base_page("Login", body.as_str())
}

/// The main two-pane layout, with the user's name in the sidebar header.
pub open spec fn main_body_text(username: Seq<char>) -> Seq<char> {
    "<div class=\"container\">\n  <div class=\"sidebar\">\n    <div class=\"sidebar-header\">\n      <span class=\"username\">"@
        + html_escape_text(username)
        + "</span>\n      <button class=\"logout-btn\" hx-post=\"/logout\" hx-target=\"body\" hx-swap=\"innerHTML\">Logout</button>\n    </div>\n    <div class=\"mailbox-list\" hx-get=\"/mailboxes\" hx-trigger=\"load\">\n      <div class=\"loading\">Loading mailboxes...</div>\n    </div>\n  </div>\n  <div class=\"main\">\n    <div class=\"email-list\" id=\"email-list\">\n      <div style=\"padding: 1rem; color: #666;\">Select a mailbox</div>\n    </div>\n    <div class=\"email-view\" id=\"email-view\">\n      <div style=\"color: #666;\">Select an email to view</div>\n    </div>\n  </div>\n</div>"@
}

/// Renders the main page.
pub fn main_page(username: &str) -> (r: String)
    ensures
        r@ == base_page_text("Webmail"@, main_body_text(username@)),
{
    let mut body =
        "<div class=\"container\">\n  <div class=\"sidebar\">\n    <div class=\"sidebar-header\">\n      <span class=\"username\">".to_owned();
    let u = html_escape(username);
    body.append(u.as_str());
    body.append(
        "</span>\n      <button class=\"logout-btn\" hx-post=\"/logout\" hx-target=\"body\" hx-swap=\"innerHTML\">Logout</button>\n    </div>\n    <div class=\"mailbox-list\" hx-get=\"/mailboxes\" hx-trigger=\"load\">\n      <div class=\"loading\">Loading mailboxes...</div>\n    </div>\n  </div>\n  <div class=\"main\">\n    <div class=\"email-list\" id=\"email-list\">\n      <div style=\"padding: 1rem; color: #666;\">Select a mailbox</div>\n    </div>\n    <div class=\"email-view\" id=\"email-view\">\n      <div style=\"color: #666;\">Select an email to view</div>\n    </div>\n  </div>\n</div>",
    );
    proof {
        assert(body@ =~= main_body_text(username@));
    }
    base_page("Webmail", body.as_str())
}

/// An error box the page swaps in.
pub fn error_fragment(message: &str) -> (r: String)
    ensures
        r@ == "<div class=\"error\">"@ + html_escape_text(message@) + "</div>"@,
{
    let mut out = "<div class=\"error\">".to_owned();
    let m = html_escape(message);
    out.append(m.as_str());
    out.append("</div>");
    out
}

} // verus!
