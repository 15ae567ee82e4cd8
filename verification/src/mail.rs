//! Mailboxes, messages, and the decoding of the method results that carry
//! them. Decoders are total over any parsed document: every departure from
//! the expected shape is reported, never mis-read.

use vstd::prelude::*;
use crate::json::{obj_get, Json, JsonView, json_view};

verus! {

broadcast use vstd::std_specs::vec::group_vec_axioms, vstd::seq::group_seq_axioms;

/// One mailbox of the account.
pub struct Mailbox {
    pub id: String,
    pub name: String,
    /// The semantic tag (inbox, drafts, sent, trash, junk, archive), if any.
    pub role: Option<String>,
    pub total_emails: u64,
    pub unread_emails: u64,
}

/// The mathematical value of a [`Mailbox`].
pub struct MailboxView {
    pub id: Seq<char>,
    pub name: Seq<char>,
    pub role: Option<Seq<char>>,
    pub total_emails: u64,
    pub unread_emails: u64,
}

impl View for Mailbox {
    type V = MailboxView;

    open spec fn view(&self) -> MailboxView {
        MailboxView {
            id: self.id@,
            name: self.name@,
            role: match self.role {
                Some(ref r) => Some(r@),
                None => None,
            },
            total_emails: self.total_emails,
            unread_emails: self.unread_emails,
        }
    }
}

/// One name/address pair of a message header.
pub struct EmailAddress {
    pub name: Option<String>,
    pub email: Option<String>,
}

/// The mathematical value of an [`EmailAddress`].
pub struct EmailAddressView {
    pub name: Option<Seq<char>>,
    pub email: Option<Seq<char>>,
}

impl View for EmailAddress {
    type V = EmailAddressView;

    open spec fn view(&self) -> EmailAddressView {
        EmailAddressView {
            name: match self.name {
                Some(ref n) => Some(n@),
                None => None,
            },
            email: match self.email {
                Some(ref e) => Some(e@),
                None => None,
            },
        }
    }
}

/// One message, with the fixed property set this client requests.
pub struct Email {
    pub id: String,
    pub from: Option<Vec<EmailAddress>>,
    pub to: Option<Vec<EmailAddress>>,
    pub cc: Option<Vec<EmailAddress>>,
    pub subject: Option<String>,
    pub received_at: Option<String>,
    pub preview: Option<String>,
    /// The ids of the text body parts, in order.
    pub text_body: Option<Vec<String>>,
    /// Body part id to its text, in document order.
    pub body_values: Vec<(String, String)>,
    /// Keyword to its flag, in document order (`$seen` marks a read mail).
    pub keywords: Vec<(String, bool)>,
}

/// The mathematical value of an [`Email`].
pub struct EmailView {
    pub id: Seq<char>,
    pub from: Option<Seq<EmailAddressView>>,
    pub to: Option<Seq<EmailAddressView>>,
    pub cc: Option<Seq<EmailAddressView>>,
    pub subject: Option<Seq<char>>,
    pub received_at: Option<Seq<char>>,
    pub preview: Option<Seq<char>>,
    pub text_body: Option<Seq<Seq<char>>>,
    pub body_values: Seq<(Seq<char>, Seq<char>)>,
    pub keywords: Seq<(Seq<char>, bool)>,
}

pub open spec fn opt_seq_view(v: Option<Vec<String>>) -> Option<Seq<Seq<char>>> {
    match v {
        Some(xs) => Some(Seq::new(xs@.len(), |i: int| xs@[i]@)),
        None => None,
    }
}

pub open spec fn opt_addrs_view(v: Option<Vec<EmailAddress>>) -> Option<Seq<EmailAddressView>> {
    match v {
        Some(xs) => Some(Seq::new(xs@.len(), |i: int| xs@[i]@)),
        None => None,
    }
}

impl View for Email {
    type V = EmailView;

    open spec fn view(&self) -> EmailView {
        EmailView {
            id: self.id@,
            from: opt_addrs_view(self.from),
            to: opt_addrs_view(self.to),
            cc: opt_addrs_view(self.cc),
            subject: match self.subject {
                Some(ref s) => Some(s@),
                None => None,
            },
            received_at: match self.received_at {
                Some(ref s) => Some(s@),
                None => None,
            },
            preview: match self.preview {
                Some(ref s) => Some(s@),
                None => None,
            },
            text_body: opt_seq_view(self.text_body),
            body_values: Seq::new(
                self.body_values@.len(),
                |i: int| (self.body_values@[i].0@, self.body_values@[i].1@),
            ),
            keywords: Seq::new(
                self.keywords@.len(),
                |i: int| (self.keywords@[i].0@, self.keywords@[i].1),
            ),
        }
    }
}

// ---- field readers at the specification level ----

/// An optional string field: absent or null reads as `None`, a string as
/// its value, anything else is a shape error (outer `None`).
pub open spec fn opt_str_field(j: JsonView, key: Seq<char>) -> Option<Option<Seq<char>>> {
    match obj_get(j, key) {
        None => Some(None),
        Some(JsonView::Null) => Some(None),
        Some(JsonView::Str(s)) => Some(Some(s)),
        Some(_) => None,
    }
}

/// A count field: absent or null reads as 0; a non-negative integer as its
/// value; anything else is a shape error.
pub open spec fn count_field(j: JsonView, key: Seq<char>) -> Option<u64> {
    match obj_get(j, key) {
        None => Some(0),
        Some(JsonView::Null) => Some(0),
        Some(JsonView::Int(i)) => if 0 <= i {
            Some(i as u64)
        } else {
            None
        },
        Some(_) => None,
    }
}

/// What one mailbox object means: `id` and `name` must be strings, `role`
/// is optional, the two counts default to 0 when absent.
pub open spec fn mailbox_of(j: JsonView) -> Option<MailboxView> {
    match (obj_get(j, "id"@), obj_get(j, "name"@)) {
        (Some(JsonView::Str(id)), Some(JsonView::Str(name))) => {
            match (
                opt_str_field(j, "role"@),
                count_field(j, "totalEmails"@),
                count_field(j, "unreadEmails"@),
            ) {
                (Some(role), Some(total), Some(unread)) => Some(
                    MailboxView {
                        id: id,
                        name: name,
                        role: role,
                        total_emails: total,
                        unread_emails: unread,
                    },
                ),
                _ => None,
            }
        },
        _ => None,
    }
}

/// The mailboxes of a `Mailbox/get` result list, if every entry is
/// well-formed.
pub open spec fn mailboxes_of(items: Seq<JsonView>) -> Option<Seq<MailboxView>>
    decreases items.len(),
{
    if items.len() == 0 {
        Some(Seq::empty())
    } else {
        match (mailboxes_of(items.drop_last()), mailbox_of(items.last())) {
            (Some(ms), Some(m)) => Some(ms.push(m)),
            _ => None,
        }
    }
}

/// The strings of an id list, if every entry is a string.
pub open spec fn str_list_of(items: Seq<JsonView>) -> Option<Seq<Seq<char>>>
    decreases items.len(),
{
    if items.len() == 0 {
        Some(Seq::empty())
    } else {
        match (str_list_of(items.drop_last()), items.last()) {
            (Some(ss), JsonView::Str(s)) => Some(ss.push(s)),
            _ => None,
        }
    }
}

/// What one address object means: optional `name` and `email` strings.
pub open spec fn address_of(j: JsonView) -> Option<EmailAddressView> {
    if !(j matches JsonView::Obj(_)) {
        None
    } else {
        match (opt_str_field(j, "name"@), opt_str_field(j, "email"@)) {
            (Some(n), Some(e)) => Some(EmailAddressView { name: n, email: e }),
            _ => None,
        }
    }
}

pub open spec fn addresses_of(items: Seq<JsonView>) -> Option<Seq<EmailAddressView>>
    decreases items.len(),
{
    if items.len() == 0 {
        Some(Seq::empty())
    } else {
        match (addresses_of(items.drop_last()), address_of(items.last())) {
            (Some(xs), Some(x)) => Some(xs.push(x)),
            _ => None,
        }
    }
}

/// An optional address-list field: absent or null reads as `None`.
pub open spec fn opt_addresses_field(j: JsonView, key: Seq<char>) -> Option<
    Option<Seq<EmailAddressView>>,
> {
    match obj_get(j, key) {
        None => Some(None),
        Some(JsonView::Null) => Some(None),
        Some(JsonView::Arr(items)) => match addresses_of(items) {
            Some(xs) => Some(Some(xs)),
            None => None,
        },
        Some(_) => None,
    }
}

/// The part ids of a `textBody` list: each entry must be an object with a
/// string `partId`.
pub open spec fn parts_of(items: Seq<JsonView>) -> Option<Seq<Seq<char>>>
    decreases items.len(),
{
    if items.len() == 0 {
        Some(Seq::empty())
    } else {
        match (parts_of(items.drop_last()), obj_get(items.last(), "partId"@)) {
            (Some(ps), Some(JsonView::Str(p))) => Some(ps.push(p)),
            _ => None,
        }
    }
}

pub open spec fn opt_parts_field(j: JsonView, key: Seq<char>) -> Option<Option<Seq<Seq<char>>>> {
    match obj_get(j, key) {
        None => Some(None),
        Some(JsonView::Null) => Some(None),
        Some(JsonView::Arr(items)) => match parts_of(items) {
            Some(ps) => Some(Some(ps)),
            None => None,
        },
        Some(_) => None,
    }
}

/// The pairs of a `bodyValues` object: each value must be an object with a
/// string `value`.
pub open spec fn body_values_of(fields: Seq<(Seq<char>, JsonView)>) -> Option<
    Seq<(Seq<char>, Seq<char>)>,
>
    decreases fields.len(),
{
    if fields.len() == 0 {
        Some(Seq::empty())
    } else {
        match (body_values_of(fields.drop_last()), obj_get(fields.last().1, "value"@)) {
            (Some(ps), Some(JsonView::Str(v))) => Some(ps.push((fields.last().0, v))),
            _ => None,
        }
    }
}

pub open spec fn opt_body_values_field(j: JsonView, key: Seq<char>) -> Option<
    Seq<(Seq<char>, Seq<char>)>,
> {
    match obj_get(j, key) {
        None => Some(Seq::empty()),
        Some(JsonView::Null) => Some(Seq::empty()),
        Some(JsonView::Obj(fields)) => body_values_of(fields),
        Some(_) => None,
    }
}

/// The pairs of a `keywords` object: each value must be a boolean.
pub open spec fn bool_pairs_of(fields: Seq<(Seq<char>, JsonView)>) -> Option<
    Seq<(Seq<char>, bool)>,
>
    decreases fields.len(),
{
    if fields.len() == 0 {
        Some(Seq::empty())
    } else {
        match (bool_pairs_of(fields.drop_last()), fields.last().1) {
            (Some(ps), JsonView::Bool(b)) => Some(ps.push((fields.last().0, b))),
            _ => None,
        }
    }
}

pub open spec fn opt_bool_pairs_field(j: JsonView, key: Seq<char>) -> Option<
    Seq<(Seq<char>, bool)>,
> {
    match obj_get(j, key) {
        None => Some(Seq::empty()),
        Some(JsonView::Null) => Some(Seq::empty()),
        Some(JsonView::Obj(fields)) => bool_pairs_of(fields),
        Some(_) => None,
    }
}

/// What one email object means, over the fixed property set this client
/// requests; only `id` is mandatory.
pub open spec fn email_of(j: JsonView) -> Option<EmailView> {
    match obj_get(j, "id"@) {
        Some(JsonView::Str(id)) => {
            match (
                opt_addresses_field(j, "from"@),
                opt_addresses_field(j, "to"@),
                opt_addresses_field(j, "cc"@),
                opt_str_field(j, "subject"@),
                opt_str_field(j, "receivedAt"@),
                opt_str_field(j, "preview"@),
                opt_parts_field(j, "textBody"@),
                opt_body_values_field(j, "bodyValues"@),
                opt_bool_pairs_field(j, "keywords"@),
            ) {
                (
                    Some(from),
                    Some(to),
                    Some(cc),
                    Some(subject),
                    Some(received_at),
                    Some(preview),
                    Some(text_body),
                    Some(body_values),
                    Some(keywords),
                ) => Some(
                    EmailView {
                        id,
                        from,
                        to,
                        cc,
                        subject,
                        received_at,
                        preview,
                        text_body,
                        body_values,
                        keywords,
                    },
                ),
                _ => None,
            }
        },
        _ => None,
    }
}

pub open spec fn emails_of(items: Seq<JsonView>) -> Option<Seq<EmailView>>
    decreases items.len(),
{
    if items.len() == 0 {
        Some(Seq::empty())
    } else {
        match (emails_of(items.drop_last()), email_of(items.last())) {
            (Some(es), Some(e)) => Some(es.push(e)),
            _ => None,
        }
    }
}

// ---- views of built vectors ----

pub open spec fn jviews(items: Seq<Json>) -> Seq<JsonView> {
    Seq::new(items.len(), |i: int| json_view(items[i]))
}

pub open spec fn mailbox_views(ms: Seq<Mailbox>) -> Seq<MailboxView> {
    Seq::new(ms.len(), |i: int| ms[i]@)
}

pub open spec fn email_views(es: Seq<Email>) -> Seq<EmailView> {
    Seq::new(es.len(), |i: int| es[i]@)
}

pub open spec fn addr_views(xs: Seq<EmailAddress>) -> Seq<EmailAddressView> {
    Seq::new(xs.len(), |i: int| xs[i]@)
}

pub open spec fn str_views(xs: Seq<String>) -> Seq<Seq<char>> {
    Seq::new(xs.len(), |i: int| xs[i]@)
}

// ---- field readers ----

/// Reads an optional string field, as [`opt_str_field`] says.
fn get_opt_str_field(j: &Json, key: &str) -> (r: Result<Option<String>, ()>)
    ensures
        match r {
            Ok(o) => opt_str_field(j@, key@) == Some(
                match o {
                    Some(s) => Some(s@),
                    None => None::<Seq<char>>,
                },
            ),
            Err(_) => opt_str_field(j@, key@) is None,
        },
{
    match j.get(key) {
        None => Ok(None),
        Some(v) => {
            if v.is_null() {
                Ok(None)
            } else {
                match v.as_str() {
                    Some(s) => Ok(Some(s.clone())),
                    None => Err(()),
                }
            }
        },
    }
}

/// Reads a count field, as [`count_field`] says.
fn get_count_field(j: &Json, key: &str) -> (r: Result<u64, ()>)
    ensures
        match r {
            Ok(n) => count_field(j@, key@) == Some(n),
            Err(_) => count_field(j@, key@) is None,
        },
{
    match j.get(key) {
        None => Ok(0),
        Some(v) => {
            if v.is_null() {
                Ok(0)
            } else {
                match v.as_i64() {
                    Some(i) => if i >= 0 {
                        Ok(i as u64)
                    } else {
                        Err(())
                    },
                    None => Err(()),
                }
            }
        },
    }
}

/// Reads a required string field; a missing or non-string field is an
/// error.
fn get_str_field(j: &Json, key: &str) -> (r: Result<String, ()>)
    ensures
        match r {
            Ok(s) => obj_get(j@, key@) == Some(JsonView::Str(s@)),
            Err(_) => !(obj_get(j@, key@) matches Some(JsonView::Str(_))),
        },
{
    match j.get(key) {
        None => Err(()),
        Some(v) => match v.as_str() {
            Some(s) => Ok(s.clone()),
            None => Err(()),
        },
    }
}

// ---- mailboxes ----

proof fn lemma_mailboxes_of_none(items: Seq<JsonView>, i: int)
    requires
        0 <= i < items.len(),
        mailbox_of(items[i]) is None,
    ensures
        mailboxes_of(items) is None,
    decreases items.len(),
{
    if i < items.len() - 1 {
        lemma_mailboxes_of_none(items.drop_last(), i);
    }
}

/// Reads one mailbox object, as [`mailbox_of`] says.
fn mailbox_from_json(j: &Json) -> (r: Result<Mailbox, ()>)
    ensures
        match r {
            Ok(m) => mailbox_of(j@) == Some(m@),
            Err(_) => mailbox_of(j@) is None,
        },
{
    let id = match get_str_field(j, "id") {
        Ok(s) => s,
        Err(_) => {
            return Err(());
        },
    };
    let name = match get_str_field(j, "name") {
        Ok(s) => s,
        Err(_) => {
            return Err(());
        },
    };
    let role = match get_opt_str_field(j, "role") {
        Ok(o) => o,
        Err(_) => {
            return Err(());
        },
    };
    let total_emails = match get_count_field(j, "totalEmails") {
        Ok(n) => n,
        Err(_) => {
            return Err(());
        },
    };
    let unread_emails = match get_count_field(j, "unreadEmails") {
        Ok(n) => n,
        Err(_) => {
            return Err(());
        },
    };
    Ok(Mailbox { id, name, role, total_emails, unread_emails })
}

/// Reads a `Mailbox/get` result list, as [`mailboxes_of`] says.
#[verifier::loop_isolation(false)]
pub fn mailboxes_from_json(items: &Vec<Json>) -> (r: Result<Vec<Mailbox>, ()>)
    ensures
        match r {
            Ok(ms) => mailboxes_of(jviews(items@)) == Some(mailbox_views(ms@)),
            Err(_) => mailboxes_of(jviews(items@)) is None,
        },
{
    let ghost itemsv: Seq<JsonView> = jviews(items@);
    let n = items.len();
    let mut out: Vec<Mailbox> = Vec::new();
    let mut k: usize = 0;
    while k < n
        invariant
            k <= n,
            out@.len() == k,
            mailboxes_of(itemsv.take(k as int)) == Some(mailbox_views(out@)),
        decreases n - k,
    {
        match mailbox_from_json(&items[k]) {
            Ok(m) => {
                let ghost old_out = out@;
                out.push(m);
                proof {
                    assert(itemsv.take(k + 1).drop_last() =~= itemsv.take(k as int));
                    assert(itemsv.take(k + 1).last() == itemsv[k as int]);
                    assert(mailbox_views(out@) =~= mailbox_views(old_out).push(
                        out@[k as int]@,
                    ));
                }
            },
            Err(_) => {
                proof {
                    lemma_mailboxes_of_none(itemsv, k as int);
                }
                return Err(());
            },
        }
        k = k + 1;
    }
    proof {
        assert(itemsv.take(n as int) =~= itemsv);
    }
    Ok(out)
}

// ---- id lists ----

proof fn lemma_str_list_of_none(items: Seq<JsonView>, i: int)
    requires
        0 <= i < items.len(),
        !(items[i] matches JsonView::Str(_)),
    ensures
        str_list_of(items) is None,
    decreases items.len(),
{
    if i < items.len() - 1 {
        lemma_str_list_of_none(items.drop_last(), i);
    }
}

/// Reads a list of strings, as [`str_list_of`] says.
#[verifier::loop_isolation(false)]
pub fn str_list_from_json(items: &Vec<Json>) -> (r: Result<Vec<String>, ()>)
    ensures
        match r {
            Ok(ss) => str_list_of(jviews(items@)) == Some(str_views(ss@)),
            Err(_) => str_list_of(jviews(items@)) is None,
        },
{
    let ghost itemsv: Seq<JsonView> = jviews(items@);
    let n = items.len();
    let mut out: Vec<String> = Vec::new();
    let mut k: usize = 0;
    while k < n
        invariant
            k <= n,
            out@.len() == k,
            str_list_of(itemsv.take(k as int)) == Some(str_views(out@)),
        decreases n - k,
    {
        match items[k].as_str() {
            Some(s) => {
                let ghost old_out = out@;
                out.push(s.clone());
                proof {
                    assert(itemsv.take(k + 1).drop_last() =~= itemsv.take(k as int));
                    assert(itemsv.take(k + 1).last() == itemsv[k as int]);
                    assert(str_views(out@) =~= str_views(old_out).push(out@[k as int]@));
                }
            },
            None => {
                proof {
                    lemma_str_list_of_none(itemsv, k as int);
                }
                return Err(());
            },
        }
        k = k + 1;
    }
    proof {
        assert(itemsv.take(n as int) =~= itemsv);
    }
    Ok(out)
}

// ---- addresses ----

proof fn lemma_addresses_of_none(items: Seq<JsonView>, i: int)
    requires
        0 <= i < items.len(),
        address_of(items[i]) is None,
    ensures
        addresses_of(items) is None,
    decreases items.len(),
{
    if i < items.len() - 1 {
        lemma_addresses_of_none(items.drop_last(), i);
    }
}

/// Reads one address object, as [`address_of`] says.
fn address_from_json(j: &Json) -> (r: Result<EmailAddress, ()>)
    ensures
        match r {
            Ok(x) => address_of(j@) == Some(x@),
            Err(_) => address_of(j@) is None,
        },
{
    if j.as_obj().is_none() {
        return Err(());
    }
    let name = match get_opt_str_field(j, "name") {
        Ok(o) => o,
        Err(_) => {
            return Err(());
        },
    };
    let email = match get_opt_str_field(j, "email") {
        Ok(o) => o,
        Err(_) => {
            return Err(());
        },
    };
    Ok(EmailAddress { name, email })
}

/// Reads an optional address-list field, as [`opt_addresses_field`] says.
#[verifier::loop_isolation(false)]
fn get_opt_addresses(j: &Json, key: &str) -> (r: Result<Option<Vec<EmailAddress>>, ()>)
    ensures
        match r {
            Ok(o) => opt_addresses_field(j@, key@) == Some(opt_addrs_view(o)),
            Err(_) => opt_addresses_field(j@, key@) is None,
        },
{
    let arr: &Vec<Json> = match j.get(key) {
        None => {
            return Ok(None);
        },
        Some(v) => {
            if v.is_null() {
                return Ok(None);
            }
            match v.as_arr() {
                Some(items) => items,
                None => {
                    return Err(());
                },
            }
        },
    };
    let ghost itemsv: Seq<JsonView> = obj_get(j@, key@)->0->Arr_0;
    let n = arr.len();
    let mut out: Vec<EmailAddress> = Vec::new();
    let mut k: usize = 0;
    while k < n
        invariant
            k <= n,
            out@.len() == k,
            addresses_of(itemsv.take(k as int)) == Some(addr_views(out@)),
        decreases n - k,
    {
        match address_from_json(&arr[k]) {
            Ok(x) => {
                let ghost old_out = out@;
                out.push(x);
                proof {
                    assert(itemsv.take(k + 1).drop_last() =~= itemsv.take(k as int));
                    assert(itemsv.take(k + 1).last() == itemsv[k as int]);
                    assert(addr_views(out@) =~= addr_views(old_out).push(out@[k as int]@));
                }
            },
            Err(_) => {
                proof {
                    lemma_addresses_of_none(itemsv, k as int);
                }
                return Err(());
            },
        }
        k = k + 1;
    }
    proof {
        assert(itemsv.take(n as int) =~= itemsv);
        let ov = opt_addrs_view(Some(out));
        assert(ov matches Some(s2) && s2 =~= addr_views(out@));
        assert(ov == Some(addr_views(out@)));
    }
    Ok(Some(out))
}

// ---- body parts ----

proof fn lemma_parts_of_none(items: Seq<JsonView>, i: int)
    requires
        0 <= i < items.len(),
        !(obj_get(items[i], "partId"@) matches Some(JsonView::Str(_))),
    ensures
        parts_of(items) is None,
    decreases items.len(),
{
    if i < items.len() - 1 {
        lemma_parts_of_none(items.drop_last(), i);
    }
}

/// Reads an optional `textBody` part list, as [`opt_parts_field`] says.
#[verifier::loop_isolation(false)]
fn get_opt_parts(j: &Json, key: &str) -> (r: Result<Option<Vec<String>>, ()>)
    ensures
        match r {
            Ok(o) => opt_parts_field(j@, key@) == Some(opt_seq_view(o)),
            Err(_) => opt_parts_field(j@, key@) is None,
        },
{
    let arr: &Vec<Json> = match j.get(key) {
        None => {
            return Ok(None);
        },
        Some(v) => {
            if v.is_null() {
                return Ok(None);
            }
            match v.as_arr() {
                Some(items) => items,
                None => {
                    return Err(());
                },
            }
        },
    };
    let ghost itemsv: Seq<JsonView> = obj_get(j@, key@)->0->Arr_0;
    let n = arr.len();
    let mut out: Vec<String> = Vec::new();
    let mut k: usize = 0;
    while k < n
        invariant
            k <= n,
            out@.len() == k,
            parts_of(itemsv.take(k as int)) == Some(str_views(out@)),
        decreases n - k,
    {
        match get_str_field(&arr[k], "partId") {
            Ok(p) => {
                let ghost old_out = out@;
                out.push(p);
                proof {
                    assert(itemsv.take(k + 1).drop_last() =~= itemsv.take(k as int));
                    assert(itemsv.take(k + 1).last() == itemsv[k as int]);
                    assert(str_views(out@) =~= str_views(old_out).push(out@[k as int]@));
                }
            },
            Err(_) => {
                proof {
                    lemma_parts_of_none(itemsv, k as int);
                }
                return Err(());
            },
        }
        k = k + 1;
    }
    proof {
        assert(itemsv.take(n as int) =~= itemsv);
        let ov = opt_seq_view(Some(out));
        assert(ov matches Some(s2) && s2 =~= str_views(out@));
        assert(ov == Some(str_views(out@)));
    }
    Ok(Some(out))
}

// ---- body values and keywords ----

proof fn lemma_body_values_of_none(fields: Seq<(Seq<char>, JsonView)>, i: int)
    requires
        0 <= i < fields.len(),
        !(obj_get(fields[i].1, "value"@) matches Some(JsonView::Str(_))),
    ensures
        body_values_of(fields) is None,
    decreases fields.len(),
{
    if i < fields.len() - 1 {
        lemma_body_values_of_none(fields.drop_last(), i);
    }
}

/// Reads an optional `bodyValues` object, as [`opt_body_values_field`]
/// says: part id to body text.
#[verifier::loop_isolation(false)]
fn get_body_values(j: &Json, key: &str) -> (r: Result<Vec<(String, String)>, ()>)
    ensures
        match r {
            Ok(ps) => opt_body_values_field(j@, key@) == Some(
                Seq::new(ps@.len(), |i: int| (ps@[i].0@, ps@[i].1@)),
            ),
            Err(_) => opt_body_values_field(j@, key@) is None,
        },
{
    let fields: &Vec<(String, Json)> = match j.get(key) {
        None => {
            let out: Vec<(String, String)> = Vec::new();
            proof {
                assert(Seq::new(out@.len(), |i: int| (out@[i].0@, out@[i].1@))
                    =~= Seq::<(Seq<char>, Seq<char>)>::empty());
            }
            return Ok(out);
        },
        Some(v) => {
            if v.is_null() {
                let out: Vec<(String, String)> = Vec::new();
                proof {
                    assert(Seq::new(out@.len(), |i: int| (out@[i].0@, out@[i].1@))
                        =~= Seq::<(Seq<char>, Seq<char>)>::empty());
                }
                return Ok(out);
            }
            match v.as_obj() {
                Some(fields) => fields,
                None => {
                    return Err(());
                },
            }
        },
    };
    let ghost fv: Seq<(Seq<char>, JsonView)> = obj_get(j@, key@)->0->Obj_0;
    let n = fields.len();
    let mut out: Vec<(String, String)> = Vec::new();
    let mut k: usize = 0;
    while k < n
        invariant
            k <= n,
            out@.len() == k,
            body_values_of(fv.take(k as int)) == Some(
                Seq::new(out@.len(), |i: int| (out@[i].0@, out@[i].1@)),
            ),
        decreases n - k,
    {
        match get_str_field(&fields[k].1, "value") {
            Ok(v) => {
                let ghost old_out = out@;
                out.push((fields[k].0.clone(), v));
                proof {
                    assert(fv.take(k + 1).drop_last() =~= fv.take(k as int));
                    assert(fv.take(k + 1).last() == fv[k as int]);
                    assert(Seq::new(out@.len(), |i: int| (out@[i].0@, out@[i].1@)) =~= Seq::new(
                        old_out.len(),
                        |i: int| (old_out[i].0@, old_out[i].1@),
                    ).push((out@[k as int].0@, out@[k as int].1@)));
                }
            },
            Err(_) => {
                proof {
                    lemma_body_values_of_none(fv, k as int);
                }
                return Err(());
            },
        }
        k = k + 1;
    }
    proof {
        assert(fv.take(n as int) =~= fv);
    }
    Ok(out)
}

proof fn lemma_bool_pairs_of_none(fields: Seq<(Seq<char>, JsonView)>, i: int)
    requires
        0 <= i < fields.len(),
        !(fields[i].1 matches JsonView::Bool(_)),
    ensures
        bool_pairs_of(fields) is None,
    decreases fields.len(),
{
    if i < fields.len() - 1 {
        lemma_bool_pairs_of_none(fields.drop_last(), i);
    }
}

/// Reads an optional `keywords` object, as [`opt_bool_pairs_field`] says.
#[verifier::loop_isolation(false)]
fn get_keywords(j: &Json, key: &str) -> (r: Result<Vec<(String, bool)>, ()>)
    ensures
        match r {
            Ok(ps) => opt_bool_pairs_field(j@, key@) == Some(
                Seq::new(ps@.len(), |i: int| (ps@[i].0@, ps@[i].1)),
            ),
            Err(_) => opt_bool_pairs_field(j@, key@) is None,
        },
{
    let fields: &Vec<(String, Json)> = match j.get(key) {
        None => {
            let out: Vec<(String, bool)> = Vec::new();
            proof {
                assert(Seq::new(out@.len(), |i: int| (out@[i].0@, out@[i].1)) =~= Seq::<
                    (Seq<char>, bool),
                >::empty());
            }
            return Ok(out);
        },
        Some(v) => {
            if v.is_null() {
                let out: Vec<(String, bool)> = Vec::new();
                proof {
                    assert(Seq::new(out@.len(), |i: int| (out@[i].0@, out@[i].1)) =~= Seq::<
                        (Seq<char>, bool),
                    >::empty());
                }
                return Ok(out);
            }
            match v.as_obj() {
                Some(fields) => fields,
                None => {
                    return Err(());
                },
            }
        },
    };
    let ghost fv: Seq<(Seq<char>, JsonView)> = obj_get(j@, key@)->0->Obj_0;
    let n = fields.len();
    let mut out: Vec<(String, bool)> = Vec::new();
    let mut k: usize = 0;
    while k < n
        invariant
            k <= n,
            out@.len() == k,
            bool_pairs_of(fv.take(k as int)) == Some(
                Seq::new(out@.len(), |i: int| (out@[i].0@, out@[i].1)),
            ),
        decreases n - k,
    {
        match fields[k].1.as_bool() {
            Some(b) => {
                let ghost old_out = out@;
                out.push((fields[k].0.clone(), b));
                proof {
                    assert(fv.take(k + 1).drop_last() =~= fv.take(k as int));
                    assert(fv.take(k + 1).last() == fv[k as int]);
                    assert(Seq::new(out@.len(), |i: int| (out@[i].0@, out@[i].1)) =~= Seq::new(
                        old_out.len(),
                        |i: int| (old_out[i].0@, old_out[i].1),
                    ).push((out@[k as int].0@, out@[k as int].1)));
                }
            },
            None => {
                proof {
                    lemma_bool_pairs_of_none(fv, k as int);
                }
                return Err(());
            },
        }
        k = k + 1;
    }
    proof {
        assert(fv.take(n as int) =~= fv);
    }
    Ok(out)
}

// ---- emails ----

proof fn lemma_emails_of_none(items: Seq<JsonView>, i: int)
    requires
        0 <= i < items.len(),
        email_of(items[i]) is None,
    ensures
        emails_of(items) is None,
    decreases items.len(),
{
    if i < items.len() - 1 {
        lemma_emails_of_none(items.drop_last(), i);
    }
}

/// Reads one email object, as [`email_of`] says.
fn email_from_json(j: &Json) -> (r: Result<Email, ()>)
    ensures
        match r {
            Ok(e) => email_of(j@) == Some(e@),
            Err(_) => email_of(j@) is None,
        },
{
    let id = match get_str_field(j, "id") {
        Ok(s) => s,
        Err(_) => {
            return Err(());
        },
    };
    let from = match get_opt_addresses(j, "from") {
        Ok(o) => o,
        Err(_) => {
            return Err(());
        },
    };
    let to = match get_opt_addresses(j, "to") {
        Ok(o) => o,
        Err(_) => {
            return Err(());
        },
    };
    let cc = match get_opt_addresses(j, "cc") {
        Ok(o) => o,
        Err(_) => {
            return Err(());
        },
    };
    let subject = match get_opt_str_field(j, "subject") {
        Ok(o) => o,
        Err(_) => {
            return Err(());
        },
    };
    let received_at = match get_opt_str_field(j, "receivedAt") {
        Ok(o) => o,
        Err(_) => {
            return Err(());
        },
    };
    let preview = match get_opt_str_field(j, "preview") {
        Ok(o) => o,
        Err(_) => {
            return Err(());
        },
    };
    let text_body = match get_opt_parts(j, "textBody") {
        Ok(o) => o,
        Err(_) => {
            return Err(());
        },
    };
    let body_values = match get_body_values(j, "bodyValues") {
        Ok(ps) => ps,
        Err(_) => {
            return Err(());
        },
    };
    let keywords = match get_keywords(j, "keywords") {
        Ok(ps) => ps,
        Err(_) => {
            return Err(());
        },
    };
    Ok(
        Email {
            id,
            from,
            to,
            cc,
            subject,
            received_at,
            preview,
            text_body,
            body_values,
            keywords,
        },
    )
}

/// Reads an `Email/get` result list, as [`emails_of`] says.
#[verifier::loop_isolation(false)]
pub fn emails_from_json(items: &Vec<Json>) -> (r: Result<Vec<Email>, ()>)
    ensures
        match r {
            Ok(es) => emails_of(jviews(items@)) == Some(email_views(es@)),
            Err(_) => emails_of(jviews(items@)) is None,
        },
{
    let ghost itemsv: Seq<JsonView> = jviews(items@);
    let n = items.len();
    let mut out: Vec<Email> = Vec::new();
    let mut k: usize = 0;
    while k < n
        invariant
            k <= n,
            out@.len() == k,
            emails_of(itemsv.take(k as int)) == Some(email_views(out@)),
        decreases n - k,
    {
        match email_from_json(&items[k]) {
            Ok(e) => {
                let ghost old_out = out@;
                out.push(e);
                proof {
                    assert(itemsv.take(k + 1).drop_last() =~= itemsv.take(k as int));
                    assert(itemsv.take(k + 1).last() == itemsv[k as int]);
                    assert(email_views(out@) =~= email_views(old_out).push(out@[k as int]@));
                }
            },
            Err(_) => {
                proof {
                    lemma_emails_of_none(itemsv, k as int);
                }
                return Err(());
            },
        }
        k = k + 1;
    }
    proof {
        assert(itemsv.take(n as int) =~= itemsv);
    }
    Ok(out)
}

// ---- the not-found diagnostic ----

/// The requested ids that no returned message carries, in request order.
pub open spec fn missing_of(req: Seq<Seq<char>>, got: Seq<Seq<char>>) -> Seq<Seq<char>>
    decreases req.len(),
{
    if req.len() == 0 {
        Seq::empty()
    } else {
        let rest = missing_of(req.drop_last(), got);
        if got.contains(req.last()) {
            rest
        } else {
            rest.push(req.last())
        }
    }
}

/// The ids of the given messages, in order.
pub open spec fn ids_of(es: Seq<EmailView>) -> Seq<Seq<char>> {
    Seq::new(es.len(), |i: int| es[i].id)
}

/// Which requested ids came back with no message: the request-order
/// difference `requested - returned`. A count mismatch is a diagnostic,
/// not an error.
#[verifier::loop_isolation(false)]
pub fn missing_ids(requested: &Vec<String>, emails: &Vec<Email>) -> (r: Vec<String>)
    ensures
        str_views(r@) == missing_of(str_views(requested@), ids_of(email_views(emails@))),
{
    let ghost reqv: Seq<Seq<char>> = str_views(requested@);
    let ghost gotv: Seq<Seq<char>> = ids_of(email_views(emails@));
    let n = requested.len();
    let mut out: Vec<String> = Vec::new();
    let mut k: usize = 0;
    while k < n
        invariant
            k <= n,
            str_views(out@) == missing_of(reqv.take(k as int), gotv),
        decreases n - k,
    {
        let id = &requested[k];
        let ne = emails.len();
        let mut m: usize = 0;
        let mut found = false;
        while m < ne && !found
            invariant
                m <= ne,
                ne == emails@.len(),
                found ==> gotv.contains(reqv[k as int]),
                !found ==> forall|t: int| 0 <= t < m ==> gotv[t] != reqv[k as int],
            decreases ne - m + (if found { 0int } else { 1int }),
        {
            if crate::text::str_eq(emails[m].id.as_str(), id.as_str()) {
                proof {
                    assert(gotv[m as int] == reqv[k as int]);
                }
                found = true;
            } else {
                m = m + 1;
            }
        }
        proof {
            assert(reqv.take(k + 1).drop_last() =~= reqv.take(k as int));
            assert(reqv.take(k + 1).last() == reqv[k as int]);
            if !found {
                assert(!gotv.contains(reqv[k as int]));
            }
        }
        if !found {
            let ghost old_out = out@;
            out.push(id.clone());
            proof {
                assert(str_views(out@) =~= str_views(old_out).push(out@[out@.len() - 1]@));
            }
        }
        k = k + 1;
    }
    proof {
        assert(reqv.take(n as int) =~= reqv);
    }
    out
}

} // verus!
