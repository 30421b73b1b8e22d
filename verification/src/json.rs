//! The JSON that the library reads and writes, through `serde_json`: a GitHub release list
//! read, and a small launch configuration written.
use vstd::prelude::*;
use crate::text::{chars_of, same_chars};

verus! {

/// A JSON value as `serde_json` holds it; opaque here.
#[verifier::external_type_specification]
#[verifier::external_body]
pub struct ExJsonValue(serde_json::Value);

/// A JSON value as the library reads it: numbers are kept only as the unsigned integer they
/// hold (`None` for any other number); objects keep their members in the order
/// `serde_json` gives them.
#[derive(Debug)]
pub enum Json {
    Null,
    Bool(bool),
    Number(Option<u64>),
    Str(String),
    Array(Vec<Json>),
    Object(Vec<(String, Json)>),
}

/// A JSON value as text and numbers: the view of `Json`.
pub enum JsonView {
    Null,
    Bool(bool),
    Number(Option<u64>),
    Str(Seq<char>),
    Array(Seq<JsonView>),
    Object(Seq<(Seq<char>, JsonView)>),
}

/// The view of a JSON value.
pub open spec fn json_view(j: Json) -> JsonView
    decreases j,
{
    match j {
        Json::Null => JsonView::Null,
        Json::Bool(b) => JsonView::Bool(b),
        Json::Number(n) => JsonView::Number(n),
        Json::Str(s) => JsonView::Str(s@),
        Json::Array(a) => JsonView::Array(views_of(a@)),
        Json::Object(es) => JsonView::Object(members_of(es@)),
    }
}

/// The views of the items of an array.
pub open spec fn views_of(a: Seq<Json>) -> Seq<JsonView>
    decreases a,
{
    if a.len() == 0 {
        Seq::empty()
    } else {
        seq![json_view(a[0])] + views_of(a.drop_first())
    }
}

/// The views of the members of an object.
pub open spec fn members_of(es: Seq<(String, Json)>) -> Seq<(Seq<char>, JsonView)>
    decreases es,
{
    if es.len() == 0 {
        Seq::empty()
    } else {
        seq![(es[0].0@, json_view(es[0].1))] + members_of(es.drop_first())
    }
}

impl View for Json {
    type V = JsonView;

    open spec fn view(&self) -> JsonView {
        json_view(*self)
    }
}

/// The views of an array's items are its items' views, one for one.
pub proof fn lemma_views_of(a: Seq<Json>)
    ensures
        views_of(a).len() == a.len(),
        forall|i: int| 0 <= i < a.len() ==> #[trigger] views_of(a)[i] == json_view(a[i]),
    decreases a.len(),
{
    if a.len() > 0 {
        lemma_views_of(a.drop_first());
        assert forall|i: int| 0 <= i < a.len() implies #[trigger] views_of(a)[i] == json_view(a[i]) by {
            if i > 0 {
                assert(views_of(a)[i] == views_of(a.drop_first())[i - 1]);
                assert(a.drop_first()[i - 1] == a[i]);
            }
        }
    }
}

/// The views of an object's members are its members' views, one for one.
pub proof fn lemma_members_of(es: Seq<(String, Json)>)
    ensures
        members_of(es).len() == es.len(),
        forall|i: int|
            0 <= i < es.len() ==> #[trigger] members_of(es)[i] == (es[i].0@, json_view(es[i].1)),
    decreases es.len(),
{
    if es.len() > 0 {
        lemma_members_of(es.drop_first());
        assert forall|i: int| 0 <= i < es.len() implies #[trigger] members_of(es)[i] == (
            es[i].0@,
            json_view(es[i].1),
        ) by {
            if i > 0 {
                assert(members_of(es)[i] == members_of(es.drop_first())[i - 1]);
                assert(es.drop_first()[i - 1] == es[i]);
            }
        }
    }
}

/// The JSON value that `serde_json::from_slice` parses out of `bytes` (as the library reads
/// it), or `None` where `bytes` are no JSON.
pub uninterp spec fn json_of(bytes: Seq<u8>) -> Option<JsonView>;

/// `serde_json::from_slice` then `json_model`: parses `bytes` as one JSON value, or gives
/// the parser's message. Claimed: whether the bytes parse, and the value they parse to, are
/// a fixed function of the bytes (named `json_of`); JSON's grammar and the parser's message
/// are not stated.
#[verifier::external_body]
pub(crate) fn json_parse(bytes: &[u8]) -> (r: Result<Json, String>)
    ensures
        match r {
            Ok(j) => json_of(bytes@) == Some(j@),
            Err(_) => json_of(bytes@) is None,
        },
{
    serde_json::from_slice::<serde_json::Value>(bytes).map(json_model).map_err(|e| e.to_string())
}

/// Turns a `serde_json::Value` into the library's `Json`, variant by variant (a number by
/// `Number::as_u64`). Nothing is stated of the result, the value being opaque here.
#[verifier::external_body]
pub(crate) fn json_model(v: serde_json::Value) -> (r: Json) {
    match v {
        serde_json::Value::Null => Json::Null,
        serde_json::Value::Bool(b) => Json::Bool(b),
        serde_json::Value::Number(n) => Json::Number(n.as_u64()),
        serde_json::Value::String(s) => Json::Str(s),
        serde_json::Value::Array(a) => Json::Array(a.into_iter().map(json_model).collect()),
        serde_json::Value::Object(m) => Json::Object(m.into_iter().map(|(k, x)| (k, json_model(x))).collect()),
    }
}

/// The value of the first of `entries` whose key is `key`.
pub open spec fn member_in(entries: Seq<(Seq<char>, JsonView)>, key: Seq<char>) -> Option<JsonView>
    decreases entries.len(),
{
    if entries.len() == 0 {
        None
    } else if entries[0].0 == key {
        Some(entries[0].1)
    } else {
        member_in(entries.drop_first(), key)
    }
}

/// The member of `v` under `key`, if `v` is an object that has one (`Value::get`).
pub open spec fn member(v: JsonView, key: Seq<char>) -> Option<JsonView> {
    match v {
        JsonView::Object(es) => member_in(es, key),
        _ => None,
    }
}

/// The text of the member of `v` under `key`, or the empty text when there is no such
/// member or it is no string.
pub open spec fn member_text_of(v: JsonView, key: Seq<char>) -> Seq<char> {
    match member(v, key) {
        Some(JsonView::Str(s)) => s,
        _ => Seq::empty(),
    }
}

/// Finds the member of `v` under `key`.
pub fn find_member<'a>(v: &'a Json, key: &str) -> (r: Option<&'a Json>)
    ensures
        match r {
            Some(m) => member(v@, key@) == Some(m@),
            None => member(v@, key@) is None,
        },
{
    match v {
        Json::Object(es) => {
            let k = chars_of(key);
            let ghost ms = members_of(es@);
            proof {
                lemma_members_of(es@);
            }
            assert(ms.skip(0) =~= ms);
            assert(member(v@, key@) == member_in(ms, key@));
            let mut i: usize = 0;
            while i < es.len()
                invariant
                    i <= es@.len(),
                    k@ == key@,
                    ms == members_of(es@),
                    ms.len() == es@.len(),
                    forall|j: int| 0 <= j < es@.len() ==> #[trigger] ms[j] == (es@[j].0@, json_view(es@[j].1)),
                    member(v@, key@) == member_in(ms, key@),
                    member_in(ms, key@) == member_in(ms.skip(i as int), key@),
                decreases es@.len() - i,
            {
                assert(ms.skip(i as int)[0] == ms[i as int]);
                if same_chars(&chars_of(es[i].0.as_str()), &k) {
                    assert(member_in(ms.skip(i as int), key@) == Some(json_view(es@[i as int].1)));
                    return Some(&es[i].1);
                }
                assert(ms.skip(i as int).drop_first() =~= ms.skip(i + 1));
                i = i + 1;
            }
            assert(ms.skip(i as int).len() == 0);
            None
        },
        _ => None,
    }
}

/// The bytes that `serde_json::to_vec` writes for a JSON object whose members are the given
/// `(key, text)` pairs.
pub uninterp spec fn json_object_text(pairs: Seq<(Seq<char>, Seq<char>)>) -> Seq<u8>;

/// `serde_json::to_vec` of a JSON object holding string members. Claimed: it succeeds (an
/// object with string keys and string values always serialises), and the bytes are a fixed
/// function of the pairs (named `json_object_text`); JSON's escaping and the order of members
/// are not stated.
#[verifier::external_body]
pub(crate) fn json_object_bytes(pairs: &Vec<(String, String)>) -> (r: Result<Vec<u8>, String>)
    ensures
        r is Ok,
        r matches Ok(b) ==> b@ == json_object_text(pairs@.map_values(|p: (String, String)| (p.0@, p.1@))),
{
    let mut map = serde_json::Map::new();
    for (k, v) in pairs {
        map.insert(k.clone(), serde_json::Value::String(v.clone()));
    }
    serde_json::to_vec(&serde_json::Value::Object(map)).map_err(|e| e.to_string())
}

} // verus!
