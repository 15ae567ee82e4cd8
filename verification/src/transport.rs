//! Method-call transport framing: the body of a batched POST request, and
//! the decoding of the response envelope, correlated by the first entry.

use vstd::prelude::*;
use crate::error::{JmapError, JmapErrorView};
use crate::json::{
    arr_texts, comma_join, obj_get, serializable, text_of, Json, JsonView, json_view,
};

verus! {

broadcast use vstd::std_specs::vec::group_vec_axioms, vstd::seq::group_seq_axioms;

/// One method call: a name, its arguments, and a correlation id.
pub struct MethodCall {
    pub name: String,
    pub arguments: Json,
    pub call_id: String,
}

/// The mathematical value of a [`MethodCall`].
pub struct MethodCallView {
    pub name: Seq<char>,
    pub arguments: JsonView,
    pub call_id: Seq<char>,
}

impl View for MethodCall {
    type V = MethodCallView;

    open spec fn view(&self) -> MethodCallView {
        MethodCallView {
            name: self.name@,
            arguments: self.arguments@,
            call_id: self.call_id@,
        }
    }
}

/// One entry of a response envelope: a name, its result, and the id it
/// answers.
pub struct MethodResponseView {
    pub name: Seq<char>,
    pub result: JsonView,
    pub call_id: Seq<char>,
}

/// The `[name, arguments, id]` triple a call is sent as.
pub open spec fn call_json(c: MethodCallView) -> JsonView {
    JsonView::Arr(seq![JsonView::Str(c.name), c.arguments, JsonView::Str(c.call_id)])
}

/// The whole request document: the two capability URNs and the batched
/// calls, in order.
pub open spec fn request_json(calls: Seq<MethodCallView>) -> JsonView {
    JsonView::Obj(
        seq![
            (
                "using"@,
                JsonView::Arr(
                    seq![
                        JsonView::Str("urn:ietf:params:jmap:core"@),
                        JsonView::Str("urn:ietf:params:jmap:mail"@),
                    ],
                ),
            ),
            ("methodCalls"@, JsonView::Arr(Seq::new(calls.len(), |i: int| call_json(calls[i])))),
        ],
    )
}

/// The serialized request body for the given calls.
pub open spec fn request_text(calls: Seq<MethodCallView>) -> Seq<char> {
    text_of(request_json(calls))
}

/// Builds the POST body carrying the given calls: exactly
/// [`request_text`] of them.
#[verifier::loop_isolation(false)]
pub fn build_request_body(calls: Vec<MethodCall>) -> (r: String)
    requires
        forall|i: int| 0 <= i < calls@.len() ==> serializable(#[trigger] calls@[i]@.arguments),
    ensures
        r@ == request_text(Seq::new(calls@.len(), |i: int| calls@[i]@)),
{
    let ghost callsv: Seq<MethodCallView> = Seq::new(calls@.len(), |i: int| calls@[i]@);
    let mut using: Vec<Json> = Vec::new();
    using.push(Json::Str("urn:ietf:params:jmap:core".to_owned()));
    using.push(Json::Str("urn:ietf:params:jmap:mail".to_owned()));
    proof {
        assert(using@.len() == 2);
        assert(json_view(using@[0]) == JsonView::Str("urn:ietf:params:jmap:core"@));
        assert(json_view(using@[1]) == JsonView::Str("urn:ietf:params:jmap:mail"@));
    }
    let mut items: Vec<Json> = Vec::new();
    let mut rest = calls;
    let ghost n: int = callsv.len() as int;
    while rest.len() > 0
        invariant
            items@.len() + rest@.len() == n,
            forall|i: int|
                0 <= i < rest@.len() ==> #[trigger] rest@[i]@ == callsv[items@.len() + i],
            forall|i: int|
                0 <= i < items@.len() ==> #[trigger] json_view(items@[i]) == call_json(callsv[i]),
            forall|i: int|
                0 <= i < items@.len() ==> serializable(#[trigger] json_view(items@[i])),
        decreases rest@.len(),
    {
        let c = rest.remove(0);
        let ghost cv: MethodCallView = c@;
        let ghost k: int = items@.len() as int;
        proof {
            assert(cv == callsv[k]);
        }
        let mut triple: Vec<Json> = Vec::new();
        triple.push(Json::Str(c.name));
        triple.push(c.arguments);
        triple.push(Json::Str(c.call_id));
        let entry = Json::Arr(triple);
        proof {
            assert(json_view(triple@[0]) == JsonView::Str(cv.name));
            assert(json_view(triple@[1]) == cv.arguments);
            assert(json_view(triple@[2]) == JsonView::Str(cv.call_id));
            assert(entry@->Arr_0 =~= call_json(cv)->Arr_0);
            assert(entry@ == call_json(callsv[k]));
            assert(serializable(callsv[k].arguments));
            assert forall|m: int| 0 <= m < entry@->Arr_0.len() implies serializable(
                #[trigger] entry@->Arr_0[m],
            ) by {}
        }
        items.push(entry);
    }
    let ghost rv = request_json(callsv)->Obj_0;
    let using_json = Json::Arr(using);
    proof {
        let ua = using_json@->Arr_0;
        let ra = rv[0].1->Arr_0;
        assert(rv[0] == request_json(callsv)->Obj_0[0]);
        assert(ua.len() == 2);
        assert(ra.len() == 2);
        assert(ua[0] == JsonView::Str("urn:ietf:params:jmap:core"@));
        assert(ua[1] == JsonView::Str("urn:ietf:params:jmap:mail"@));
        assert(ra[0] == JsonView::Str("urn:ietf:params:jmap:core"@));
        assert(ra[1] == JsonView::Str("urn:ietf:params:jmap:mail"@));
        assert(ua =~= ra);
        assert(using_json@ == rv[0].1);
    }
    let ghost uj: JsonView = using_json@;
    proof {
        assert(items@.len() == callsv.len());
        assert(forall|i: int|
            0 <= i < items@.len() ==> #[trigger] json_view(items@[i]) == call_json(callsv[i]));
    }
    let calls_json = Json::Arr(items);
    proof {
        let ca = calls_json@->Arr_0;
        let ra2 = rv[1].1->Arr_0;
        assert forall|i: int| 0 <= i < ca.len() implies ca[i] == ra2[i] by {
            assert(ca[i] == json_view(items@[i]));
            assert(ra2[i] == call_json(callsv[i]));
        }
        assert(ca =~= ra2);
        assert(calls_json@ == rv[1].1);
    }
    let ghost cj: JsonView = calls_json@;
    let mut fields: Vec<(String, Json)> = Vec::new();
    fields.push(("using".to_owned(), using_json));
    fields.push(("methodCalls".to_owned(), calls_json));
    let doc = Json::Obj(fields);
    proof {
        let fv = doc@->Obj_0;
        assert(fv.len() == 2);
        assert(fv[0] == ("using"@, uj));
        assert(fv[1] == ("methodCalls"@, cj));
        assert(fv =~= rv);
        assert(doc@ == request_json(callsv));
        assert(serializable(doc@)) by {
            assert forall|m: int| 0 <= m < fv.len() implies serializable(#[trigger] fv[m].1) by {
                if m == 0 {
                    let uv = fv[0].1->Arr_0;
                    assert(forall|k: int| 0 <= k < uv.len() ==> serializable(#[trigger] uv[k]));
                } else {
                    let mv = fv[1].1->Arr_0;
                    assert forall|k: int| 0 <= k < mv.len() implies serializable(
                        #[trigger] mv[k],
                    ) by {
                        assert(mv[k] == json_view(items@[k]));
                    }
                }
            }
        }
    }
    doc.to_text()
}

/// What one envelope entry means: entries are `[name, result, id]` triples
/// with string name and id; anything else is not an entry.
pub open spec fn response_of(item: JsonView) -> Option<MethodResponseView> {
    match item {
        JsonView::Arr(t) => if t.len() == 3 {
            match (t[0], t[2]) {
                (JsonView::Str(n), JsonView::Str(id)) => Some(
                    MethodResponseView { name: n, result: t[1], call_id: id },
                ),
                _ => None,
            }
        } else {
            None
        },
        _ => None,
    }
}

/// The entries of a response list, if every one is well-formed.
pub open spec fn responses_of(items: Seq<JsonView>) -> Option<Seq<MethodResponseView>>
    decreases items.len(),
{
    if items.len() == 0 {
        Some(Seq::empty())
    } else {
        match (responses_of(items.drop_last()), response_of(items.last())) {
            (Some(rs), Some(r)) => Some(rs.push(r)),
            _ => None,
        }
    }
}

/// What a response body means: an object with a `methodResponses` array of
/// well-formed entries; anything else is not an envelope.
pub open spec fn envelope_of(j: JsonView) -> Option<Seq<MethodResponseView>> {
    match obj_get(j, "methodResponses"@) {
        Some(JsonView::Arr(items)) => responses_of(items),
        _ => None,
    }
}

/// The result this system reads out of an envelope: the first entry, owed
/// to carry the method name that was sent. A malformed envelope is a parse
/// error; an empty list or an unexpected name is an API error.
pub open spec fn single_result_of(j: JsonView, expected: Seq<char>) -> Result<
    JsonView,
    JmapErrorView,
> {
    match envelope_of(j) {
        None => Err(JmapErrorView::Parse("unexpected response shape"@)),
        Some(rs) => if rs.len() == 0 {
            Err(JmapErrorView::Api("Unexpected response"@))
        } else if rs[0].name != expected {
            Err(JmapErrorView::Api("Unexpected response"@))
        } else {
            Ok(rs[0].result)
        },
    }
}

proof fn lemma_responses_of_none(items: Seq<JsonView>, i: int)
    requires
        0 <= i < items.len(),
        response_of(items[i]) is None,
    ensures
        responses_of(items) is None,
    decreases items.len(),
{
    if i < items.len() - 1 {
        lemma_responses_of_none(items.drop_last(), i);
    }
}

proof fn lemma_responses_of_index(items: Seq<JsonView>, i: int)
    requires
        responses_of(items) is Some,
        0 <= i < items.len(),
    ensures
        responses_of(items)->0.len() == items.len(),
        responses_of(items)->0[i] == response_of(items[i])->0,
        response_of(items[i]) is Some,
    decreases items.len(),
{
    if items.len() > 0 {
        if i < items.len() - 1 {
            lemma_responses_of_index(items.drop_last(), i);
        } else {
            if items.len() > 1 {
                lemma_responses_of_index(items.drop_last(), 0);
            }
        }
        assert(responses_of(items)->0.len() == responses_of(items.drop_last())->0.len() + 1);
    }
}

proof fn lemma_responses_of_len(items: Seq<JsonView>)
    requires
        responses_of(items) is Some,
    ensures
        responses_of(items)->0.len() == items.len(),
    decreases items.len(),
{
    if items.len() > 0 {
        lemma_responses_of_len(items.drop_last());
    }
}

/// Reads the single result out of a parsed response body, as
/// [`single_result_of`] says.
#[verifier::loop_isolation(false)]
pub fn first_response<'a>(j: &'a Json, expected: &str) -> (r: Result<&'a Json, JmapError>)
    ensures
        match r {
            Ok(res) => single_result_of(j@, expected@) == Ok::<JsonView, JmapErrorView>(res@),
            Err(e) => single_result_of(j@, expected@) == Err::<JsonView, JmapErrorView>(e@),
        },
{
    let items: &Vec<Json> = match j.get("methodResponses") {
        Some(v) => match v.as_arr() {
            Some(items) => items,
            None => {
                return Err(JmapError::Parse("unexpected response shape".to_owned()));
            },
        },
        None => {
            return Err(JmapError::Parse("unexpected response shape".to_owned()));
        },
    };
    let ghost itemsv: Seq<JsonView> = obj_get(j@, "methodResponses"@)->0->Arr_0;
    let n = items.len();
    let mut k: usize = 0;
    while k < n
        invariant
            k <= n,
            responses_of(itemsv.take(k as int)) is Some,
        decreases n - k,
    {
        let entry = &items[k];
        let ok = match entry.as_arr() {
            Some(t) => {
                if t.len() == 3 {
                    let a = t[0].as_str().is_some();
                    let b = t[2].as_str().is_some();
                    a && b
                } else {
                    false
                }
            },
            None => false,
        };
        if !ok {
            proof {
                assert(response_of(itemsv[k as int]) is None);
                lemma_responses_of_none(itemsv, k as int);
            }
            return Err(JmapError::Parse("unexpected response shape".to_owned()));
        }
        proof {
            assert(itemsv.take(k + 1).drop_last() =~= itemsv.take(k as int));
            assert(itemsv.take(k + 1).last() == itemsv[k as int]);
            assert(response_of(itemsv[k as int]) is Some);
        }
        k = k + 1;
    }
    proof {
        assert(itemsv.take(n as int) =~= itemsv);
        lemma_responses_of_len(itemsv);
    }
    if items.len() == 0 {
        return Err(JmapError::Api("Unexpected response".to_owned()));
    }
    let first = &items[0];
    match first.as_arr() {
        Some(t) => {
            proof {
                lemma_responses_of_index(itemsv, 0);
            }
            let name = match t[0].as_str() {
                Some(nm) => nm,
                None => {
                    return Err(JmapError::Parse("unexpected response shape".to_owned()));
                },
            };
            if crate::text::str_eq(name.as_str(), expected) {
                Ok(&t[1])
            } else {
                Err(JmapError::Api("Unexpected response".to_owned()))
            }
        },
        None => {
            proof {
                lemma_responses_of_index(itemsv, 0);
                assert(false);
            }
            Err(JmapError::Parse("unexpected response shape".to_owned()))
        },
    }
}

} // verus!
