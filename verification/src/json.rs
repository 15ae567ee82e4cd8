//! A JSON document model.
//!
//! The JMAP protocol exchanges JSON bodies. Incoming text is parsed by
//! `serde_json` behind a single trusted boundary (`parse_json`) and handed
//! to the rest of the crate as a [`Json`] tree of plain values; outgoing
//! bodies are produced by the verified serializer [`to_text`], whose output
//! is pinned down character by character by [`text_of`].

use vstd::prelude::*;

verus! {

broadcast use vstd::std_specs::vec::group_vec_axioms, vstd::seq::group_seq_axioms;

/// The mathematical shape of a JSON document: what a [`Json`] value views to.
pub enum JsonView {
    Null,
    Bool(bool),
    Int(i64),
    /// A number that does not fit in `i64` (the protocol only uses small
    /// integers, so its precise value is never needed).
    OtherNum,
    Str(Seq<char>),
    Arr(Seq<JsonView>),
    Obj(Seq<(Seq<char>, JsonView)>),
}

/// A JSON document held as plain values.
pub enum Json {
    Null,
    Bool(bool),
    Int(i64),
    /// A number that does not fit in `i64`.
    OtherNum,
    Str(String),
    Arr(Vec<Json>),
    Obj(Vec<(String, Json)>),
}

pub open spec fn json_view(j: Json) -> JsonView
    decreases j,
{
    match j {
        Json::Null => JsonView::Null,
        Json::Bool(b) => JsonView::Bool(b),
        Json::Int(i) => JsonView::Int(i),
        Json::OtherNum => JsonView::OtherNum,
        Json::Str(s) => JsonView::Str(s@),
        Json::Arr(items) => JsonView::Arr(
            Seq::new(
                items@.len(),
                |i: int|
                    if 0 <= i < items@.len() {
                        json_view(items@[i])
                    } else {
                        JsonView::Null
                    },
            ),
        ),
        Json::Obj(fields) => JsonView::Obj(
            Seq::new(
                fields@.len(),
                |i: int|
                    if 0 <= i < fields@.len() {
                        (fields@[i].0@, json_view(fields@[i].1))
                    } else {
                        (Seq::empty(), JsonView::Null)
                    },
            ),
        ),
    }
}

impl View for Json {
    type V = JsonView;

    open spec fn view(&self) -> JsonView {
        json_view(*self)
    }
}

/// What `serde_json` parses a given text to: `None` where the text is not
/// valid JSON, otherwise the document, with object fields in insertion order.
pub uninterp spec fn json_of(s: Seq<char>) -> Option<JsonView>;

#[verifier::external_type_specification]
#[verifier::external_body]
pub struct ExValue(serde_json::Value);

/// Converts a `serde_json` tree into the crate's own document type,
/// one variant to one variant, in field order.
#[verifier::external_body]
fn json_of_value(v: &serde_json::Value) -> Json {
    match v {
        serde_json::Value::Null => Json::Null,
        serde_json::Value::Bool(b) => Json::Bool(*b),
        serde_json::Value::Number(n) => match n.as_i64() {
            Some(i) => Json::Int(i),
            None => Json::OtherNum,
        },
        serde_json::Value::String(s) => Json::Str(s.clone()),
        serde_json::Value::Array(a) => Json::Arr(a.iter().map(json_of_value).collect()),
        serde_json::Value::Object(m) => Json::Obj(
            m.iter().map(|(k, x)| (k.clone(), json_of_value(x))).collect(),
        ),
    }
}

/// Relies on `serde_json::from_str::<Value>`: what it accepts and what it
/// returns are a function of the text alone (object fields keep insertion
/// order under the `preserve_order` feature).
#[verifier::external_body]
pub fn parse_json(s: &str) -> (r: Result<Json, String>)
    ensures
        r matches Ok(j) ==> json_of(s@) == Some(j@),
        r is Err ==> json_of(s@) is None,
{
    match serde_json::from_str::<serde_json::Value>(s) {
        Ok(v) => Ok(json_of_value(&v)),
        Err(e) => Err(e.to_string()),
    }
}

impl Json {
    /// The value under `key` where this is an object with such a field
    /// (first occurrence), `None` otherwise.
    pub fn get<'a>(&'a self, key: &str) -> (r: Option<&'a Json>)
        ensures
            match r {
                Some(v) => obj_get(self@, key@) == Some(v@),
                None => obj_get(self@, key@) is None,
            },
    {
        match self {
            Json::Obj(fields) => {
                let n = fields.len();
                let mut i: usize = 0;
                while i < n
                    invariant
                        n == fields@.len(),
                        i <= n,
                        self matches Json::Obj(f) && f == fields,
                        forall|k: int| 0 <= k < i ==> fields@[k].0@ != key@,
                    decreases n - i,
                {
                    if crate::text::str_eq(fields[i].0.as_str(), key) {
                        assert(obj_fields_get(self@->Obj_0, key@) == Some(json_view(fields@[i as int].1))) by {
                            lemma_obj_fields_get_found(self@->Obj_0, key@, i as int);
                        }
                        return Some(&fields[i].1);
                    }
                    i = i + 1;
                }
                assert(obj_fields_get(self@->Obj_0, key@) is None) by {
                    lemma_obj_fields_get_missing(self@->Obj_0, key@);
                }
                None
            },
            _ => None,
        }
    }
}

impl Json {
    /// The held string, where this is a string.
    pub fn as_str(&self) -> (r: Option<&String>)
        ensures
            match r {
                Some(s) => self@ == JsonView::Str(s@),
                None => !(self@ matches JsonView::Str(_)),
            },
    {
        match self {
            Json::Str(s) => Some(s),
            Json::Null => None,
            Json::Bool(_) => None,
            Json::Int(_) => None,
            Json::OtherNum => None,
            Json::Arr(_) => None,
            Json::Obj(_) => None,
        }
    }

    /// The held fields, where this is an object.
    pub fn as_obj(&self) -> (r: Option<&Vec<(String, Json)>>)
        ensures
            match r {
                Some(fields) => self@ matches JsonView::Obj(fv) && fv == Seq::new(
                    fields@.len(),
                    |i: int|
                        if 0 <= i < fields@.len() {
                            (fields@[i].0@, json_view(fields@[i].1))
                        } else {
                            (Seq::<char>::empty(), JsonView::Null)
                        },
                ),
                None => !(self@ matches JsonView::Obj(_)),
            },
    {
        match self {
            Json::Obj(fields) => Some(fields),
            Json::Null => None,
            Json::Bool(_) => None,
            Json::Int(_) => None,
            Json::OtherNum => None,
            Json::Str(_) => None,
            Json::Arr(_) => None,
        }
    }

    /// The held elements, where this is an array.
    pub fn as_arr(&self) -> (r: Option<&Vec<Json>>)
        ensures
            match r {
                Some(items) => self@ matches JsonView::Arr(iv) && iv == Seq::new(
                    items@.len(),
                    |i: int|
                        if 0 <= i < items@.len() {
                            json_view(items@[i])
                        } else {
                            JsonView::Null
                        },
                ),
                None => !(self@ matches JsonView::Arr(_)),
            },
    {
        match self {
            Json::Arr(items) => Some(items),
            Json::Null => None,
            Json::Bool(_) => None,
            Json::Int(_) => None,
            Json::OtherNum => None,
            Json::Str(_) => None,
            Json::Obj(_) => None,
        }
    }

    /// The held integer, where this is a number that fits `i64`.
    pub fn as_i64(&self) -> (r: Option<i64>)
        ensures
            match r {
                Some(i) => self@ == JsonView::Int(i),
                None => !(self@ matches JsonView::Int(_)),
            },
    {
        match self {
            Json::Int(i) => Some(*i),
            Json::Null => None,
            Json::Bool(_) => None,
            Json::OtherNum => None,
            Json::Str(_) => None,
            Json::Arr(_) => None,
            Json::Obj(_) => None,
        }
    }

    /// The held truth value, where this is a boolean.
    pub fn as_bool(&self) -> (r: Option<bool>)
        ensures
            match r {
                Some(b) => self@ == JsonView::Bool(b),
                None => !(self@ matches JsonView::Bool(_)),
            },
    {
        match self {
            Json::Bool(b) => Some(*b),
            Json::Null => None,
            Json::Int(_) => None,
            Json::OtherNum => None,
            Json::Str(_) => None,
            Json::Arr(_) => None,
            Json::Obj(_) => None,
        }
    }

    /// Whether this is the JSON null.
    pub fn is_null(&self) -> (r: bool)
        ensures
            r == (self@ matches JsonView::Null),
    {
        match self {
            Json::Null => true,
            Json::Bool(_) => false,
            Json::Int(_) => false,
            Json::OtherNum => false,
            Json::Str(_) => false,
            Json::Arr(_) => false,
            Json::Obj(_) => false,
        }
    }
}

/// First field of `fields` named `k`, if any.
pub open spec fn obj_fields_get(fields: Seq<(Seq<char>, JsonView)>, k: Seq<char>) -> Option<JsonView>
    decreases fields.len(),
{
    if fields.len() == 0 {
        None
    } else if fields[0].0 == k {
        Some(fields[0].1)
    } else {
        obj_fields_get(fields.drop_first(), k)
    }
}

/// The value under `k` where `j` is an object with such a field, else `None`.
pub open spec fn obj_get(j: JsonView, k: Seq<char>) -> Option<JsonView> {
    match j {
        JsonView::Obj(fields) => obj_fields_get(fields, k),
        _ => None,
    }
}

/// The decimal digits of `n`, most significant first.
pub open spec fn dec_digits(n: nat) -> Seq<char>
    decreases n,
{
    if n < 10 {
        seq![dec_digit_char(n)]
    } else {
        dec_digits(n / 10) + seq![dec_digit_char(n % 10)]
    }
}

pub open spec fn dec_digit_char(d: nat) -> char {
    ((48 + d) as u8) as char
}

/// The canonical decimal rendering of an integer, `-` sign included.
pub open spec fn int_text(i: int) -> Seq<char> {
    if i < 0 {
        seq!['-'] + dec_digits((-i) as nat)
    } else {
        dec_digits(i as nat)
    }
}

pub open spec fn hex_digit_char(d: nat) -> char {
    if d < 10 {
        ((48 + d) as u8) as char
    } else {
        ((87 + d) as u8) as char
    }
}

/// How one character is written inside a JSON string literal.
pub open spec fn escape_char(c: char) -> Seq<char> {
    if c == '"' {
        "\\\""@
    } else if c == '\\' {
        "\\\\"@
    } else if c == '\n' {
        "\\n"@
    } else if c == '\r' {
        "\\r"@
    } else if c == '\t' {
        "\\t"@
    } else if (c as u32) < 32 {
        "\\u00"@ + seq![hex_digit_char((c as u32 / 16) as nat), hex_digit_char((c as u32 % 16) as nat)]
    } else {
        seq![c]
    }
}

/// How a whole character sequence is written inside a JSON string literal.
pub open spec fn escape_str(s: Seq<char>) -> Seq<char>
    decreases s.len(),
{
    if s.len() == 0 {
        Seq::empty()
    } else {
        escape_str(s.drop_last()) + escape_char(s.last())
    }
}

/// A JSON string literal: quotes around the escaped characters.
pub open spec fn str_text(s: Seq<char>) -> Seq<char> {
    seq!['"'] + escape_str(s) + seq!['"']
}

/// The given parts joined with commas.
pub open spec fn comma_join(parts: Seq<Seq<char>>) -> Seq<char>
    decreases parts.len(),
{
    if parts.len() == 0 {
        Seq::empty()
    } else if parts.len() == 1 {
        parts[0]
    } else {
        comma_join(parts.drop_last()) + seq![','] + parts.last()
    }
}

/// The exact text the serializer produces for a document.
pub open spec fn text_of(j: JsonView) -> Seq<char>
    decreases j,
{
    match j {
        JsonView::Null => "null"@,
        JsonView::Bool(b) => if b {
            "true"@
        } else {
            "false"@
        },
        JsonView::Int(i) => int_text(i as int),
        JsonView::OtherNum => "null"@,
        JsonView::Str(s) => str_text(s),
        JsonView::Arr(items) => seq!['['] + comma_join(arr_texts(items)) + seq![']'],
        JsonView::Obj(fields) => seq!['{'] + comma_join(obj_texts(fields)) + seq!['}'],
    }
}

/// The texts of the elements of an array, in order.
pub open spec fn arr_texts(items: Seq<JsonView>) -> Seq<Seq<char>>
    decreases items,
{
    if items.len() == 0 {
        Seq::empty()
    } else {
        arr_texts(items.drop_last()).push(text_of(items.last()))
    }
}

/// The `"key":value` texts of the fields of an object, in order.
pub open spec fn obj_texts(fields: Seq<(Seq<char>, JsonView)>) -> Seq<Seq<char>>
    decreases fields,
{
    if fields.len() == 0 {
        Seq::empty()
    } else {
        obj_texts(fields.drop_last()).push(
            str_text(fields.last().0) + seq![':'] + text_of(fields.last().1),
        )
    }
}

/// Whether the serializer can render this document (every number fits `i64`).
pub open spec fn serializable(j: JsonView) -> bool
    decreases j,
{
    match j {
        JsonView::OtherNum => false,
        JsonView::Arr(items) => forall|i: int| 0 <= i < items.len() ==> serializable(#[trigger] items[i]),
        JsonView::Obj(fields) => forall|i: int|
            0 <= i < fields.len() ==> serializable(#[trigger] fields[i].1),
        _ => true,
    }
}

proof fn lemma_escape_str_step(s: Seq<char>, i: int)
    requires
        0 <= i < s.len(),
    ensures
        escape_str(s.take(i + 1)) == escape_str(s.take(i)) + escape_char(s[i]),
{
    assert(s.take(i + 1).drop_last() =~= s.take(i));
    assert(s.take(i + 1).last() == s[i]);
}

proof fn lemma_comma_join_push(ps: Seq<Seq<char>>, t: Seq<char>)
    ensures
        comma_join(ps.push(t)) == if ps.len() == 0 {
            t
        } else {
            comma_join(ps) + seq![','] + t
        },
{
    assert(ps.push(t).drop_last() =~= ps);
    assert(ps.push(t).last() == t);
    if ps.len() == 0 {
        assert(comma_join(ps.push(t)) == ps.push(t)[0]);
    }
}

proof fn lemma_arr_texts_step(items: Seq<JsonView>, i: int)
    requires
        0 <= i < items.len(),
    ensures
        arr_texts(items.take(i + 1)) == arr_texts(items.take(i)).push(text_of(items[i])),
{
    assert(items.take(i + 1).drop_last() =~= items.take(i));
    assert(items.take(i + 1).last() == items[i]);
}

proof fn lemma_obj_texts_step(fields: Seq<(Seq<char>, JsonView)>, i: int)
    requires
        0 <= i < fields.len(),
    ensures
        obj_texts(fields.take(i + 1)) == obj_texts(fields.take(i)).push(
            str_text(fields[i].0) + seq![':'] + text_of(fields[i].1),
        ),
{
    assert(fields.take(i + 1).drop_last() =~= fields.take(i));
    assert(fields.take(i + 1).last() == fields[i]);
}

/// Appends the decimal digits of `n`.
pub(crate) fn write_u64_dec(n: u64, out: &mut String)
    ensures
        final(out)@ == old(out)@ + dec_digits(n as nat),
    decreases n,
{
    if n < 10 {
        crate::text::push_char(out, (48 + n as u8) as char);
        assert(final(out)@ =~= old(out)@ + dec_digits(n as nat));
    } else {
        write_u64_dec(n / 10, out);
        crate::text::push_char(out, (48 + (n % 10) as u8) as char);
        assert(final(out)@ =~= old(out)@ + dec_digits(n as nat));
    }
}

/// Appends the decimal rendering of `i`, `-` sign included.
fn write_i64_dec(i: i64, out: &mut String)
    ensures
        final(out)@ == old(out)@ + int_text(i as int),
{
    if i < 0 {
        crate::text::push_char(out, '-');
        let mag: u64 = (-(i as i128)) as u64;
        write_u64_dec(mag, out);
        assert(final(out)@ =~= old(out)@ + int_text(i as int));
    } else {
        write_u64_dec(i as u64, out);
    }
}

/// Appends the characters of `s`, escaped as inside a JSON string literal.
fn write_escaped(s: &str, out: &mut String)
    ensures
        final(out)@ == old(out)@ + escape_str(s@),
{
    let n = s.unicode_len();
    let mut i: usize = 0;
    while i < n
        invariant
            n == s@.len(),
            i <= n,
            out@ == old(out)@ + escape_str(s@.take(i as int)),
        decreases n - i,
    {
        let c = s.get_char(i);
        if c == '"' {
            out.append("\\\"");
        } else if c == '\\' {
            out.append("\\\\");
        } else if c == '\n' {
            out.append("\\n");
        } else if c == '\r' {
            out.append("\\r");
        } else if c == '\t' {
            out.append("\\t");
        } else if (c as u32) < 32 {
            out.append("\\u00");
            let v = c as u32;
            let hi = (v / 16) as u8;
            let lo = (v % 16) as u8;
            crate::text::push_char(out, if hi < 10 { (48 + hi) as char } else { (87 + hi) as char });
            crate::text::push_char(out, if lo < 10 { (48 + lo) as char } else { (87 + lo) as char });
        } else {
            crate::text::push_char(out, c);
        }
        proof {
            lemma_escape_str_step(s@, i as int);
            assert(out@ =~= old(out)@ + escape_str(s@.take(i + 1)));
        }
        i = i + 1;
    }
    proof {
        assert(s@.take(n as int) =~= s@);
    }
}

/// Appends a JSON string literal holding `s`.
fn write_str_literal(s: &str, out: &mut String)
    ensures
        final(out)@ == old(out)@ + str_text(s@),
{
    crate::text::push_char(out, '"');
    write_escaped(s, out);
    crate::text::push_char(out, '"');
    assert(final(out)@ =~= old(out)@ + str_text(s@));
}

/// Appends the text of `j`.
fn write_json(j: &Json, out: &mut String)
    requires
        serializable(j@),
    ensures
        final(out)@ == old(out)@ + text_of(j@),
    decreases j,
{
    match j {
        Json::Null => {
            out.append("null");
        },
        Json::OtherNum => {
            out.append("null");
        },
        Json::Bool(b) => {
            if *b {
                out.append("true");
            } else {
                out.append("false");
            }
        },
        Json::Int(i) => {
            write_i64_dec(*i, out);
        },
        Json::Str(s) => {
            write_str_literal(s.as_str(), out);
            assert(final(out)@ == old(out)@ + text_of(j@));
        },
        Json::Arr(items) => {
            let ghost iv: Seq<JsonView> = j@->Arr_0;
            crate::text::push_char(out, '[');
            let n = items.len();
            let mut idx: usize = 0;
            while idx < n
                invariant
                    serializable(j@),
                    j matches Json::Arr(it) && it == items,
                    iv == j@->Arr_0,
                    n == items@.len(),
                    iv.len() == n,
                    idx <= n,
                    out@ == old(out)@ + seq!['['] + comma_join(arr_texts(iv.take(idx as int))),
                decreases n - idx,
            {
                proof {
                    assert(*j == Json::Arr(*items));
                    assert(iv[idx as int] == json_view(items@[idx as int]));
                    assert(serializable(iv[idx as int]));
                }
                if idx > 0 {
                    crate::text::push_char(out, ',');
                }
                write_json(&items[idx], out);
                proof {
                    lemma_arr_texts_step(iv, idx as int);
                    lemma_comma_join_push(arr_texts(iv.take(idx as int)), text_of(iv[idx as int]));
                    assert(out@ =~= old(out)@ + seq!['['] + comma_join(
                        arr_texts(iv.take(idx + 1)),
                    ));
                }
                idx = idx + 1;
            }
            crate::text::push_char(out, ']');
            proof {
                assert(iv.take(n as int) =~= iv);
                assert(final(out)@ =~= old(out)@ + text_of(j@));
            }
        },
        Json::Obj(fields) => {
            let ghost fv: Seq<(Seq<char>, JsonView)> = j@->Obj_0;
            crate::text::push_char(out, '{');
            let n = fields.len();
            let mut idx: usize = 0;
            while idx < n
                invariant
                    serializable(j@),
                    j matches Json::Obj(ff) && ff == fields,
                    fv == j@->Obj_0,
                    n == fields@.len(),
                    fv.len() == n,
                    idx <= n,
                    out@ == old(out)@ + seq!['{'] + comma_join(obj_texts(fv.take(idx as int))),
                decreases n - idx,
            {
                proof {
                    assert(*j == Json::Obj(*fields));
                    assert(fv[idx as int] == (fields@[idx as int].0@, json_view(
                        fields@[idx as int].1,
                    )));
                    assert(serializable(fv[idx as int].1));
                }
                if idx > 0 {
                    crate::text::push_char(out, ',');
                }
                write_str_literal(fields[idx].0.as_str(), out);
                crate::text::push_char(out, ':');
                write_json(&fields[idx].1, out);
                proof {
                    lemma_obj_texts_step(fv, idx as int);
                    lemma_comma_join_push(
                        obj_texts(fv.take(idx as int)),
                        str_text(fv[idx as int].0) + seq![':'] + text_of(fv[idx as int].1),
                    );
                    assert(out@ =~= old(out)@ + seq!['{'] + comma_join(
                        obj_texts(fv.take(idx + 1)),
                    ));
                }
                idx = idx + 1;
            }
            crate::text::push_char(out, '}');
            proof {
                assert(fv.take(n as int) =~= fv);
                assert(final(out)@ =~= old(out)@ + text_of(j@));
            }
        },
    }
}

impl Json {
    /// The serialized text of this document.
    pub fn to_text(&self) -> (r: String)
        requires
            serializable(self@),
        ensures
            r@ == text_of(self@),
    {
        let mut out = String::new();
        write_json(self, &mut out);
        assert(out@ =~= text_of(self@));
        out
    }
}

proof fn lemma_obj_fields_get_found(fields: Seq<(Seq<char>, JsonView)>, k: Seq<char>, i: int)
    requires
        0 <= i < fields.len(),
        fields[i].0 == k,
        forall|m: int| 0 <= m < i ==> fields[m].0 != k,
    ensures
        obj_fields_get(fields, k) == Some(fields[i].1),
    decreases i,
{
    if i > 0 {
        lemma_obj_fields_get_found(fields.drop_first(), k, i - 1);
    }
}

proof fn lemma_obj_fields_get_missing(fields: Seq<(Seq<char>, JsonView)>, k: Seq<char>)
    requires
        forall|m: int| 0 <= m < fields.len() ==> fields[m].0 != k,
    ensures
        obj_fields_get(fields, k) is None,
    decreases fields.len(),
{
    if fields.len() > 0 {
        lemma_obj_fields_get_missing(fields.drop_first(), k);
    }
}

} // verus!
