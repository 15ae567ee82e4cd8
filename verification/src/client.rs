//! The JMAP client: the authentication header, the conclusion of
//! discovery, and the three mail operations as request builders and
//! response decoders. The network transfer itself is the driver's job:
//! it GETs or POSTs the built text and hands the answer body back.

use vstd::prelude::*;
use base64::Engine;
use crate::error::{JmapError, JmapErrorView};
use crate::json::{json_of, obj_get, parse_json, serializable, Json, JsonView};
use crate::mail::{
    email_views, emails_of, jviews, mailbox_views, mailboxes_of, str_list_of, str_views, Email,
    Mailbox,
};
use crate::session_doc::{descriptor_of, mail_account_of, SessionDescriptor};
use crate::transport::{
    build_request_body, first_response, request_text, single_result_of, MethodCall, MethodCallView,
};

verus! {

broadcast use vstd::std_specs::vec::group_vec_axioms, vstd::seq::group_seq_axioms;

/// What the base64 crate's standard engine encodes the UTF-8 bytes of a
/// text to: a function of the text alone.
pub uninterp spec fn base64_of(s: Seq<char>) -> Seq<char>;

/// Relies on `base64::engine::general_purpose::STANDARD.encode`: standard
/// alphabet with padding, deterministic in the input bytes. The length
/// bound keeps the input far under the size at which the encoder's buffer
/// arithmetic would overflow.
#[verifier::external_body]
fn base64_encode(s: &str) -> (r: String)
    requires
        s@.len() < 0x1000_0000_0000,
    ensures
        r@ == base64_of(s@),
{
    base64::engine::general_purpose::STANDARD.encode(s)
}

/// The Basic authentication header value for the given credentials.
pub open spec fn auth_header_text(username: Seq<char>, password: Seq<char>) -> Seq<char> {
    "Basic "@ + base64_of(username + ":"@ + password)
}

/// Builds the Basic authentication header, built once per login or request
/// and presented unchanged on every redirect hop.
pub fn auth_header(username: &str, password: &str) -> (r: String)
    requires
        username@.len() + password@.len() + 1 < 0x1000_0000_0000,
    ensures
        r@ == auth_header_text(username@, password@),
{
    let mut creds = username.to_owned();
    creds.append(":");
    creds.append(password);
    proof {
        reveal_strlit(":");
    }
    let encoded = base64_encode(creds.as_str());
    let mut r = "Basic ".to_owned();
    r.append(encoded.as_str());
    r
}

/// An authenticated client: credentials, the resolved API endpoint, and
/// the account all operations are scoped to. Immutable once constructed.
pub struct JmapClient {
    pub username: String,
    pub password: String,
    pub api_url: String,
    pub account_id: String,
}

/// Concludes discovery from the body the final hop returned: parses the
/// session document, selects the mail account, and builds the client.
///
/// It succeeds exactly when the body is valid JSON of the session-document
/// shape naming a mail account; a body that is not is a parse error, a
/// well-formed document without a mail account an API error.
pub fn finish_discovery(body: &str, username: &str, password: &str) -> (r: Result<
    (SessionDescriptor, JmapClient),
    JmapError,
>)
    ensures
        r matches Ok((d, c)) ==> {
            &&& json_of(body@) matches Some(jv) && descriptor_of(jv) == Some(d@)
            &&& mail_account_of(d@) == Some(c.account_id@)
            &&& c.api_url@ == d@.api_url
            &&& c.username@ == username@
            &&& c.password@ == password@
        },
        r is Ok <==> (json_of(body@) matches Some(jv) && descriptor_of(jv) matches Some(dv)
            && mail_account_of(dv) is Some),
        r matches Err(e) ==> match json_of(body@) {
            None => e@ matches JmapErrorView::Parse(_),
            Some(jv) => if descriptor_of(jv) is None {
                e@ matches JmapErrorView::Parse(_)
            } else {
                e@ matches JmapErrorView::Api(_)
            },
        },
{
    let j: Json = match parse_json(body) {
        Ok(j) => j,
        Err(m) => {
            let mut msg = "Failed to parse session: ".to_owned();
            msg.append(m.as_str());
            msg.append(". Response was: ");
            let excerpt = crate::text::truncate_str(body, 500);
            msg.append(excerpt.as_str());
            return Err(JmapError::Parse(msg));
        },
    };
    let d: SessionDescriptor = match crate::session_doc::descriptor_from_json(&j) {
        Ok(d) => d,
        Err(_) => {
            let mut msg = "Session document has an unexpected shape. Response was: ".to_owned();
            let excerpt = crate::text::truncate_str(body, 500);
            msg.append(excerpt.as_str());
            return Err(JmapError::Parse(msg));
        },
    };
    let account_id: String = match d.mail_account_id() {
        Some(id) => id,
        None => {
            let mut msg = "No mail account found. Response was: ".to_owned();
            let excerpt = crate::text::truncate_str(body, 500);
            msg.append(excerpt.as_str());
            return Err(JmapError::Api(msg));
        },
    };
    let client = JmapClient {
        username: username.to_owned(),
        password: password.to_owned(),
        api_url: d.api_url.clone(),
        account_id,
    };
    Ok((d, client))
}

// ---- the arguments of the three method calls ----

/// The arguments of `Mailbox/get`: all mailboxes of the account.
pub open spec fn mailbox_get_args(account: Seq<char>) -> JsonView {
    JsonView::Obj(seq![("accountId"@, JsonView::Str(account)), ("ids"@, JsonView::Null)])
}

/// The arguments of `Email/query`: the newest `limit` messages of one
/// mailbox, newest first.
pub open spec fn email_query_args(account: Seq<char>, mailbox_id: Seq<char>, limit: u32) -> JsonView {
    JsonView::Obj(
        seq![
            ("accountId"@, JsonView::Str(account)),
            ("filter"@, JsonView::Obj(seq![("inMailbox"@, JsonView::Str(mailbox_id))])),
            (
                "sort"@,
                JsonView::Arr(
                    seq![
                        JsonView::Obj(
                            seq![
                                ("property"@, JsonView::Str("receivedAt"@)),
                                ("isAscending"@, JsonView::Bool(false)),
                            ],
                        ),
                    ],
                ),
            ),
            ("limit"@, JsonView::Int(limit as i64)),
        ],
    )
}

/// The property set every `Email/get` requests.
pub open spec fn email_properties() -> Seq<JsonView> {
    seq![
        JsonView::Str("id"@),
        JsonView::Str("from"@),
        JsonView::Str("to"@),
        JsonView::Str("cc"@),
        JsonView::Str("subject"@),
        JsonView::Str("receivedAt"@),
        JsonView::Str("preview"@),
        JsonView::Str("textBody"@),
        JsonView::Str("bodyValues"@),
        JsonView::Str("keywords"@),
    ]
}

/// The arguments of `Email/get`: the given ids, the fixed property set,
/// and the body text fetched along.
pub open spec fn email_get_args(account: Seq<char>, ids: Seq<Seq<char>>) -> JsonView {
    JsonView::Obj(
        seq![
            ("accountId"@, JsonView::Str(account)),
            ("ids"@, JsonView::Arr(Seq::new(ids.len(), |i: int| JsonView::Str(ids[i])))),
            ("properties"@, JsonView::Arr(email_properties())),
            ("fetchTextBodyValues"@, JsonView::Bool(true)),
        ],
    )
}

/// The one batched call each request of this client carries.
pub open spec fn one_call(name: Seq<char>, args: JsonView) -> Seq<MethodCallView> {
    seq![MethodCallView { name: name, arguments: args, call_id: "0"@ }]
}

// ---- result readers ----

/// The mailboxes under the `list` field of a `Mailbox/get` result.
pub open spec fn mailbox_list_of(res: JsonView) -> Option<Seq<crate::mail::MailboxView>> {
    match obj_get(res, "list"@) {
        Some(JsonView::Arr(items)) => mailboxes_of(items),
        _ => None,
    }
}

/// The ids under the `ids` field of an `Email/query` result.
pub open spec fn email_ids_of(res: JsonView) -> Option<Seq<Seq<char>>> {
    match obj_get(res, "ids"@) {
        Some(JsonView::Arr(items)) => str_list_of(items),
        _ => None,
    }
}

/// The messages under the `list` field of an `Email/get` result.
pub open spec fn email_list_of(res: JsonView) -> Option<Seq<crate::mail::EmailView>> {
    match obj_get(res, "list"@) {
        Some(JsonView::Arr(items)) => emails_of(items),
        _ => None,
    }
}

impl JmapClient {
    /// Rebuilds a client from a stored session without re-running
    /// discovery.
    pub fn from_session(username: String, password: String, api_url: String, account_id: String)
        -> (r: JmapClient)
        ensures
            r.username@ == username@,
            r.password@ == password@,
            r.api_url@ == api_url@,
            r.account_id@ == account_id@,
    {
        JmapClient { username, password, api_url, account_id }
    }

    /// The account all operations are scoped to.
    pub fn account_id(&self) -> (r: &str)
        ensures
            r@ == self.account_id@,
    {
        self.account_id.as_str()
    }

    /// The endpoint method calls are POSTed to.
    pub fn api_url(&self) -> (r: &str)
        ensures
            r@ == self.api_url@,
    {
        self.api_url.as_str()
    }

    /// The Basic authentication header value for this client's
    /// credentials.
    pub fn auth_value(&self) -> (r: String)
        requires
            self.username@.len() + self.password@.len() + 1 < 0x1000_0000_0000,
        ensures
            r@ == auth_header_text(self.username@, self.password@),
    {
        auth_header(self.username.as_str(), self.password.as_str())
    }

    /// The POST body of a `Mailbox/get` for all mailboxes of the account.
    pub fn mailbox_get_request(&self) -> (r: String)
        ensures
            r@ == request_text(one_call("Mailbox/get"@, mailbox_get_args(self.account_id@))),
    {
        let mut fields: Vec<(String, Json)> = Vec::new();
        fields.push(("accountId".to_owned(), Json::Str(self.account_id.clone())));
        fields.push(("ids".to_owned(), Json::Null));
        proof {
            assert(fields@.len() == 2);
            assert(fields@[0].0@ == "accountId"@);
            assert(crate::json::json_view(fields@[0].1) == JsonView::Str(self.account_id@));
            assert(fields@[1].0@ == "ids"@);
            assert(crate::json::json_view(fields@[1].1) == JsonView::Null);
        }
        let args = Json::Obj(fields);
        proof {
            assert(args@->Obj_0 =~= mailbox_get_args(self.account_id@)->Obj_0);
            assert(args@ == mailbox_get_args(self.account_id@));
            assert(serializable(args@)) by {
                let fv = args@->Obj_0;
                assert(forall|m: int| 0 <= m < fv.len() ==> serializable(#[trigger] fv[m].1));
            }
        }
        let ghost argsv: JsonView = args@;
        let call = MethodCall {
            name: "Mailbox/get".to_owned(),
            arguments: args,
            call_id: "0".to_owned(),
        };
        let mut calls: Vec<MethodCall> = Vec::new();
        calls.push(call);
        proof {
            assert(Seq::new(calls@.len(), |i: int| calls@[i]@) =~= one_call(
                "Mailbox/get"@,
                mailbox_get_args(self.account_id@),
            ));
        }
        build_request_body(calls)
    }

    /// The POST body of an `Email/query` for the newest `limit` messages
    /// of one mailbox.
    pub fn email_query_request(&self, mailbox_id: &str, limit: u32) -> (r: String)
        ensures
            r@ == request_text(
                one_call("Email/query"@, email_query_args(self.account_id@, mailbox_id@, limit)),
            ),
    {
        let ghost goal: JsonView = email_query_args(self.account_id@, mailbox_id@, limit);
        let mut filter_fields: Vec<(String, Json)> = Vec::new();
        filter_fields.push(("inMailbox".to_owned(), Json::Str(mailbox_id.to_owned())));
        proof {
            assert(filter_fields@.len() == 1);
            assert(filter_fields@[0].0@ == "inMailbox"@);
            assert(crate::json::json_view(filter_fields@[0].1) == JsonView::Str(mailbox_id@));
        }
        let filter = Json::Obj(filter_fields);
        proof {
            assert(filter@->Obj_0 =~= goal->Obj_0[1].1->Obj_0);
            assert(filter@ == goal->Obj_0[1].1);
        }
        let ghost filterv: JsonView = filter@;
        let mut sort_fields: Vec<(String, Json)> = Vec::new();
        sort_fields.push(("property".to_owned(), Json::Str("receivedAt".to_owned())));
        sort_fields.push(("isAscending".to_owned(), Json::Bool(false)));
        proof {
            assert(sort_fields@.len() == 2);
            assert(sort_fields@[0].0@ == "property"@);
            assert(crate::json::json_view(sort_fields@[0].1) == JsonView::Str("receivedAt"@));
            assert(sort_fields@[1].0@ == "isAscending"@);
            assert(crate::json::json_view(sort_fields@[1].1) == JsonView::Bool(false));
        }
        let sort_entry = Json::Obj(sort_fields);
        proof {
            assert(sort_entry@->Obj_0 =~= goal->Obj_0[2].1->Arr_0[0]->Obj_0);
            assert(sort_entry@ == goal->Obj_0[2].1->Arr_0[0]);
        }
        let ghost sev: JsonView = sort_entry@;
        let mut sort_items: Vec<Json> = Vec::new();
        sort_items.push(sort_entry);
        proof {
            assert(sort_items@.len() == 1);
            assert(crate::json::json_view(sort_items@[0]) == sev);
        }
        let sort = Json::Arr(sort_items);
        proof {
            assert(sort@->Arr_0 =~= goal->Obj_0[2].1->Arr_0);
            assert(sort@ == goal->Obj_0[2].1);
        }
        let ghost sortv: JsonView = sort@;
        let mut fields: Vec<(String, Json)> = Vec::new();
        fields.push(("accountId".to_owned(), Json::Str(self.account_id.clone())));
        fields.push(("filter".to_owned(), filter));
        fields.push(("sort".to_owned(), sort));
        fields.push(("limit".to_owned(), Json::Int(limit as i64)));
        proof {
            assert(fields@.len() == 4);
            assert(fields@[0].0@ == "accountId"@);
            assert(crate::json::json_view(fields@[0].1) == JsonView::Str(self.account_id@));
            assert(fields@[1].0@ == "filter"@);
            assert(crate::json::json_view(fields@[1].1) == filterv);
            assert(fields@[2].0@ == "sort"@);
            assert(crate::json::json_view(fields@[2].1) == sortv);
            assert(fields@[3].0@ == "limit"@);
            assert(crate::json::json_view(fields@[3].1) == JsonView::Int(limit as i64));
        }
        let args = Json::Obj(fields);
        proof {
            assert(args@->Obj_0 =~= goal->Obj_0);
            assert(args@ == goal);
            assert(serializable(args@)) by {
                let fv = args@->Obj_0;
                assert forall|m: int| 0 <= m < fv.len() implies serializable(
                    #[trigger] fv[m].1,
                ) by {
                    if m == 1 {
                        let ff = fv[1].1->Obj_0;
                        assert(forall|t: int| 0 <= t < ff.len() ==> serializable(
                            #[trigger] ff[t].1,
                        ));
                    } else if m == 2 {
                        let si = fv[2].1->Arr_0;
                        assert(si.len() == 1);
                        assert(serializable(si[0])) by {
                            let sf = si[0]->Obj_0;
                            assert(forall|t: int| 0 <= t < sf.len() ==> serializable(
                                #[trigger] sf[t].1,
                            ));
                        }
                        assert(forall|t: int| 0 <= t < si.len() ==> serializable(
                            #[trigger] si[t],
                        ));
                    }
                }
            }
        }
        let call = MethodCall {
            name: "Email/query".to_owned(),
            arguments: args,
            call_id: "0".to_owned(),
        };
        let mut calls: Vec<MethodCall> = Vec::new();
        calls.push(call);
        proof {
            assert(Seq::new(calls@.len(), |i: int| calls@[i]@) =~= one_call("Email/query"@, goal));
        }
        build_request_body(calls)
    }

    /// The POST body of an `Email/get` for the given ids, or nothing at
    /// all: an empty id list makes no request (the caller short-circuits
    /// to an empty result without touching the network).
    #[verifier::loop_isolation(false)]
    pub fn email_get_request(&self, ids: &Vec<String>) -> (r: Option<String>)
        ensures
            r is None <==> ids@.len() == 0,
            r matches Some(b) ==> b@ == request_text(
                one_call("Email/get"@, email_get_args(self.account_id@, str_views(ids@))),
            ),
    {
        if ids.len() == 0 {
            return None;
        }
        let ghost goal: JsonView = email_get_args(self.account_id@, str_views(ids@));
        let n = ids.len();
        let mut id_items: Vec<Json> = Vec::new();
        let mut k: usize = 0;
        while k < n
            invariant
                k <= n,
                id_items@.len() == k,
                forall|m: int|
                    0 <= m < k ==> #[trigger] crate::json::json_view(id_items@[m])
                        == JsonView::Str(ids@[m]@),
            decreases n - k,
        {
            id_items.push(Json::Str(ids[k].clone()));
            k = k + 1;
        }
        proof {
            assert(id_items@.len() == n);
        }
        let ids_json = Json::Arr(id_items);
        proof {
            assert(goal->Obj_0[1].1->Arr_0.len() == n);
            assert forall|i: int| 0 <= i < n implies ids_json@->Arr_0[i] == goal->Obj_0[1].1->Arr_0[i] by {
                assert(ids_json@->Arr_0[i] == crate::json::json_view(id_items@[i]));
                assert(str_views(ids@)[i] == ids@[i]@);
                assert(goal->Obj_0[1].1->Arr_0[i] == JsonView::Str(str_views(ids@)[i]));
            }
            assert(ids_json@->Arr_0 =~= goal->Obj_0[1].1->Arr_0);
            assert(ids_json@ == goal->Obj_0[1].1);
        }
        let ghost idsv: JsonView = ids_json@;
        let mut props: Vec<Json> = Vec::new();
        props.push(Json::Str("id".to_owned()));
        props.push(Json::Str("from".to_owned()));
        props.push(Json::Str("to".to_owned()));
        props.push(Json::Str("cc".to_owned()));
        props.push(Json::Str("subject".to_owned()));
        props.push(Json::Str("receivedAt".to_owned()));
        props.push(Json::Str("preview".to_owned()));
        props.push(Json::Str("textBody".to_owned()));
        props.push(Json::Str("bodyValues".to_owned()));
        props.push(Json::Str("keywords".to_owned()));
        proof {
            assert(props@.len() == 10);
            assert(crate::json::json_view(props@[0]) == JsonView::Str("id"@));
            assert(crate::json::json_view(props@[1]) == JsonView::Str("from"@));
            assert(crate::json::json_view(props@[2]) == JsonView::Str("to"@));
            assert(crate::json::json_view(props@[3]) == JsonView::Str("cc"@));
            assert(crate::json::json_view(props@[4]) == JsonView::Str("subject"@));
            assert(crate::json::json_view(props@[5]) == JsonView::Str("receivedAt"@));
            assert(crate::json::json_view(props@[6]) == JsonView::Str("preview"@));
            assert(crate::json::json_view(props@[7]) == JsonView::Str("textBody"@));
            assert(crate::json::json_view(props@[8]) == JsonView::Str("bodyValues"@));
            assert(crate::json::json_view(props@[9]) == JsonView::Str("keywords"@));
        }
        let props_json = Json::Arr(props);
        proof {
            assert(props_json@->Arr_0 =~= email_properties());
            assert(props_json@ == goal->Obj_0[2].1);
        }
        let ghost propsv: JsonView = props_json@;
        let mut fields: Vec<(String, Json)> = Vec::new();
        fields.push(("accountId".to_owned(), Json::Str(self.account_id.clone())));
        fields.push(("ids".to_owned(), ids_json));
        fields.push(("properties".to_owned(), props_json));
        fields.push(("fetchTextBodyValues".to_owned(), Json::Bool(true)));
        proof {
            assert(fields@.len() == 4);
            assert(fields@[0].0@ == "accountId"@);
            assert(crate::json::json_view(fields@[0].1) == JsonView::Str(self.account_id@));
            assert(fields@[1].0@ == "ids"@);
            assert(crate::json::json_view(fields@[1].1) == idsv);
            assert(fields@[2].0@ == "properties"@);
            assert(crate::json::json_view(fields@[2].1) == propsv);
            assert(fields@[3].0@ == "fetchTextBodyValues"@);
            assert(crate::json::json_view(fields@[3].1) == JsonView::Bool(true));
        }
        let args = Json::Obj(fields);
        proof {
            assert(args@->Obj_0 =~= goal->Obj_0);
            assert(args@ == goal);
            assert(serializable(args@)) by {
                let fv = args@->Obj_0;
                assert forall|m: int| 0 <= m < fv.len() implies serializable(
                    #[trigger] fv[m].1,
                ) by {
                    if m == 1 {
                        let iv = fv[1].1->Arr_0;
                        assert(forall|t: int| 0 <= t < iv.len() ==> serializable(
                            #[trigger] iv[t],
                        ));
                    } else if m == 2 {
                        let pv = fv[2].1->Arr_0;
                        assert(forall|t: int| 0 <= t < pv.len() ==> serializable(
                            #[trigger] pv[t],
                        ));
                    }
                }
            }
        }
        let call = MethodCall {
            name: "Email/get".to_owned(),
            arguments: args,
            call_id: "0".to_owned(),
        };
        let mut calls: Vec<MethodCall> = Vec::new();
        calls.push(call);
        proof {
            assert(Seq::new(calls@.len(), |i: int| calls@[i]@) =~= one_call("Email/get"@, goal));
        }
        Some(build_request_body(calls))
    }
}

/// Decodes a `Mailbox/get` response body into the account's mailboxes.
pub fn decode_mailboxes(body: &str) -> (r: Result<Vec<Mailbox>, JmapError>)
    ensures
        match json_of(body@) {
            None => r matches Err(e) && e@ matches JmapErrorView::Parse(_),
            Some(jv) => match single_result_of(jv, "Mailbox/get"@) {
                Err(ev) => r matches Err(e) && e@ == ev,
                Ok(res) => match mailbox_list_of(res) {
                    Some(ms) => r matches Ok(v) && mailbox_views(v@) == ms,
                    None => r matches Err(e) && e@ matches JmapErrorView::Parse(_),
                },
            },
        },
{
    let j: Json = match parse_json(body) {
        Ok(j) => j,
        Err(m) => {
            let mut msg = "Failed to parse response: ".to_owned();
            msg.append(m.as_str());
            return Err(JmapError::Parse(msg));
        },
    };
    let res: &Json = match first_response(&j, "Mailbox/get") {
        Ok(res) => res,
        Err(e) => {
            return Err(e);
        },
    };
    let items: &Vec<Json> = match res.get("list") {
        Some(v) => match v.as_arr() {
            Some(items) => items,
            None => {
                return Err(JmapError::Parse("Mailbox/get result has an unexpected shape".to_owned()));
            },
        },
        None => {
            return Err(JmapError::Parse("Mailbox/get result has an unexpected shape".to_owned()));
        },
    };
    proof {
        assert(jviews(items@) =~= obj_get(res@, "list"@)->0->Arr_0);
    }
    match crate::mail::mailboxes_from_json(items) {
        Ok(ms) => Ok(ms),
        Err(_) => Err(JmapError::Parse("Mailbox/get result has an unexpected shape".to_owned())),
    }
}

/// Decodes an `Email/query` response body into the returned id list, in
/// server order.
pub fn decode_email_query(body: &str) -> (r: Result<Vec<String>, JmapError>)
    ensures
        match json_of(body@) {
            None => r matches Err(e) && e@ matches JmapErrorView::Parse(_),
            Some(jv) => match single_result_of(jv, "Email/query"@) {
                Err(ev) => r matches Err(e) && e@ == ev,
                Ok(res) => match email_ids_of(res) {
                    Some(ss) => r matches Ok(v) && str_views(v@) == ss,
                    None => r matches Err(e) && e@ matches JmapErrorView::Parse(_),
                },
            },
        },
{
    let j: Json = match parse_json(body) {
        Ok(j) => j,
        Err(m) => {
            let mut msg = "Failed to parse response: ".to_owned();
            msg.append(m.as_str());
            return Err(JmapError::Parse(msg));
        },
    };
    let res: &Json = match first_response(&j, "Email/query") {
        Ok(res) => res,
        Err(e) => {
            return Err(e);
        },
    };
    let items: &Vec<Json> = match res.get("ids") {
        Some(v) => match v.as_arr() {
            Some(items) => items,
            None => {
                return Err(JmapError::Parse("Email/query result has an unexpected shape".to_owned()));
            },
        },
        None => {
            return Err(JmapError::Parse("Email/query result has an unexpected shape".to_owned()));
        },
    };
    proof {
        assert(jviews(items@) =~= obj_get(res@, "ids"@)->0->Arr_0);
    }
    match crate::mail::str_list_from_json(items) {
        Ok(ss) => Ok(ss),
        Err(_) => Err(JmapError::Parse("Email/query result has an unexpected shape".to_owned())),
    }
}

/// Decodes an `Email/get` response body into the returned messages, in
/// server order. Messages the server did not return are no error: the
/// caller computes the missing ids with [`crate::mail::missing_ids`].
pub fn decode_email_get(body: &str) -> (r: Result<Vec<Email>, JmapError>)
    ensures
        match json_of(body@) {
            None => r matches Err(e) && e@ matches JmapErrorView::Parse(_),
            Some(jv) => match single_result_of(jv, "Email/get"@) {
                Err(ev) => r matches Err(e) && e@ == ev,
                Ok(res) => match email_list_of(res) {
                    Some(es) => r matches Ok(v) && email_views(v@) == es,
                    None => r matches Err(e) && e@ matches JmapErrorView::Parse(_),
                },
            },
        },
{
    let j: Json = match parse_json(body) {
        Ok(j) => j,
        Err(m) => {
            let mut msg = "Failed to parse response: ".to_owned();
            msg.append(m.as_str());
            return Err(JmapError::Parse(msg));
        },
    };
    let res: &Json = match first_response(&j, "Email/get") {
        Ok(res) => res,
        Err(e) => {
            return Err(e);
        },
    };
    let items: &Vec<Json> = match res.get("list") {
        Some(v) => match v.as_arr() {
            Some(items) => items,
            None => {
                return Err(JmapError::Parse("Email/get result has an unexpected shape".to_owned()));
            },
        },
        None => {
            return Err(JmapError::Parse("Email/get result has an unexpected shape".to_owned()));
        },
    };
    proof {
        assert(jviews(items@) =~= obj_get(res@, "list"@)->0->Arr_0);
    }
    match crate::mail::emails_from_json(items) {
        Ok(es) => Ok(es),
        Err(_) => Err(JmapError::Parse("Email/get result has an unexpected shape".to_owned())),
    }
}

} // verus!
