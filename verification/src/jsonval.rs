//! A JSON value model of the library's own. Parsing is done by an outside
//! crate; the parsed tree is converted into this model, and every walk over
//! it is verified. Numeric values are never read by any walk, so the model
//! keeps only the fact that a node is a number.

use vstd::prelude::*;

verus! {

broadcast use vstd::std_specs::vec::group_vec_axioms, vstd::seq::group_seq_axioms;

/// A parsed JSON document.
pub enum JsonValue {
    Null,
    Bool(bool),
    Num,
    Str(String),
    Arr(Vec<JsonValue>),
    Obj(Vec<(String, JsonValue)>),
}

/// The mathematical view of a `JsonValue`.
pub ghost enum JsonSpec {
    Null,
    Bool(bool),
    Num,
    Str(Seq<char>),
    Arr(Seq<JsonSpec>),
    Obj(Seq<(Seq<char>, JsonSpec)>),
}

pub open spec fn json_model(v: JsonValue) -> JsonSpec
    decreases v,
    via json_model_decreases
{
    match v {
        JsonValue::Null => JsonSpec::Null,
        JsonValue::Bool(b) => JsonSpec::Bool(b),
        JsonValue::Num => JsonSpec::Num,
        JsonValue::Str(s) => JsonSpec::Str(s@),
        JsonValue::Arr(items) => JsonSpec::Arr(json_model_list(items@)),
        JsonValue::Obj(fields) => JsonSpec::Obj(json_model_fields(fields@)),
    }
}

#[via_fn]
proof fn json_model_decreases(v: JsonValue) {
    match v {
        JsonValue::Arr(items) => {
            assert(decreases_to!(v => items));
            assert(decreases_to!(items => items@));
        },
        JsonValue::Obj(fields) => {
            assert(decreases_to!(v => fields));
            assert(decreases_to!(fields => fields@));
        },
        _ => {},
    }
}

pub open spec fn json_model_list(items: Seq<JsonValue>) -> Seq<JsonSpec>
    decreases items,
{
    if items.len() == 0 {
        Seq::empty()
    } else {
        seq![json_model(items[0])] + json_model_list(items.subrange(1, items.len() as int))
    }
}

pub open spec fn json_model_fields(fields: Seq<(String, JsonValue)>) -> Seq<
    (Seq<char>, JsonSpec),
>
    decreases fields,
    via json_model_fields_decreases
{
    if fields.len() == 0 {
        Seq::empty()
    } else {
        seq![(fields[0].0@, json_model(fields[0].1))] + json_model_fields(
            fields.subrange(1, fields.len() as int),
        )
    }
}

#[via_fn]
proof fn json_model_fields_decreases(fields: Seq<(String, JsonValue)>) {
    if fields.len() > 0 {
        assert(decreases_to!(fields => fields[0]));
        assert(decreases_to!(fields[0] => fields[0].1));
    }
}

pub proof fn lemma_json_model_list(items: Seq<JsonValue>)
    ensures
        json_model_list(items).len() == items.len(),
        forall|i: int|
            0 <= i < items.len() ==> #[trigger] json_model_list(items)[i] == json_model(items[i]),
    decreases items.len(),
{
    if items.len() > 0 {
        lemma_json_model_list(items.subrange(1, items.len() as int));
        assert(forall|i: int|
            0 <= i < items.len() - 1 ==> items.subrange(1, items.len() as int)[i] == items[i + 1]);
    }
}

pub proof fn lemma_json_model_fields(fields: Seq<(String, JsonValue)>)
    ensures
        json_model_fields(fields).len() == fields.len(),
        forall|i: int|
            0 <= i < fields.len() ==> #[trigger] json_model_fields(fields)[i] == (
            fields[i].0@,
            json_model(fields[i].1),
            ),
    decreases fields.len(),
{
    if fields.len() > 0 {
        lemma_json_model_fields(fields.subrange(1, fields.len() as int));
        assert(forall|i: int|
            0 <= i < fields.len() - 1 ==> fields.subrange(1, fields.len() as int)[i] == fields[i
                + 1]);
    }
}

impl View for JsonValue {
    type V = JsonSpec;

    open spec fn view(&self) -> JsonSpec {
        json_model(*self)
    }
}

#[verifier::external_type_specification]
#[verifier::external_body]
pub struct ExValue(serde_json::Value);

/// What `serde_json::from_str::<serde_json::Value>` yields on `s`, carried
/// over into the library's model: the parsed document, or nothing when `s`
/// is not valid JSON.
pub uninterp spec fn json_parse(s: Seq<char>) -> Option<JsonSpec>;

/// The library model of a `serde_json::Value` tree: the same variant shape,
/// with object fields in the order the map iterates them.
pub uninterp spec fn value_model(v: serde_json::Value) -> JsonSpec;

/// Relies on `serde_json::from_str::<serde_json::Value>`: parses `s` as a
/// JSON document, a function of `s` alone; `None` exactly when `s` is not
/// valid JSON.
#[verifier::external_body]
fn parse_value(s: &str) -> (r: Option<serde_json::Value>)
    ensures
        match r {
            Some(v) => json_parse(s@) == Some(value_model(v)),
            None => json_parse(s@) is None,
        },
{
    serde_json::from_str(s).ok()
}

/// Relies on the variant structure of `serde_json::Value`: each variant is
/// carried into the corresponding variant of the library's model, arrays and
/// object entries in iteration order; numeric payloads are dropped, as
/// nothing in the library reads them.
#[verifier::external_body]
fn value_to_json(v: serde_json::Value) -> (r: JsonValue)
    ensures
        r@ == value_model(v),
{
    match v {
        serde_json::Value::Null => JsonValue::Null,
        serde_json::Value::Bool(b) => JsonValue::Bool(b),
        serde_json::Value::Number(_) => JsonValue::Num,
        serde_json::Value::String(s) => JsonValue::Str(s),
        serde_json::Value::Array(a) => JsonValue::Arr(
            a.into_iter().map(value_to_json).collect(),
        ),
        serde_json::Value::Object(m) => JsonValue::Obj(
            m.into_iter().map(|(k, f)| (k, value_to_json(f))).collect(),
        ),
    }
}

/// Parses a JSON document into the library's value model.
pub fn parse_json(s: &str) -> (r: Option<JsonValue>)
    ensures
        match r {
            Some(j) => json_parse(s@) == Some(j@),
            None => json_parse(s@) is None,
        },
{
    match parse_value(s) {
        Some(v) => Some(value_to_json(v)),
        None => None,
    }
}

/// The value of the first field of `fields` named `key`, if any.
pub open spec fn obj_lookup(fields: Seq<(Seq<char>, JsonSpec)>, key: Seq<char>) -> Option<
    JsonSpec,
>
    decreases fields.len(),
{
    if fields.len() == 0 {
        None
    } else if fields[0].0 == key {
        Some(fields[0].1)
    } else {
        obj_lookup(fields.skip(1), key)
    }
}

/// Indexing a JSON value by a key: the named member when the value is an
/// object that has it, nothing otherwise.
pub open spec fn json_get(v: JsonSpec, key: Seq<char>) -> Option<JsonSpec> {
    match v {
        JsonSpec::Obj(fields) => obj_lookup(fields, key),
        _ => None,
    }
}

/// The member of `v` named `key`, as `json_get` describes.
pub fn get_member<'a>(v: &'a JsonValue, key: &str) -> (r: Option<&'a JsonValue>)
    ensures
        match r {
            Some(m) => json_get(v@, key@) == Some(m@),
            None => json_get(v@, key@) is None,
        },
{
    match v {
        JsonValue::Obj(fields) => {
            let ghost fv = v@->Obj_0;
            proof {
                lemma_json_model_fields(fields@);
                assert(fv == json_model_fields(fields@));
                assert(fv.len() == fields@.len());
                assert(forall|i: int|
                    0 <= i < fields@.len() ==> #[trigger] fv[i] == (
                    fields@[i].0@,
                    json_model(fields@[i].1),
                ));
            }
            let n = fields.len();
            let key_string = String::from_str(key);
            let mut i: usize = 0;
            proof {
                assert(fv.skip(0) =~= fv);
            }
            while i < n
                invariant
                    v@ == JsonSpec::Obj(fv),
                    fv == json_model_fields(fields@),
                    n == fields@.len() == fv.len(),
                    forall|q: int|
                        0 <= q < n ==> #[trigger] fv[q] == (
                        fields@[q].0@,
                        json_model(fields@[q].1),
                    ),
                    0 <= i <= n,
                    key_string@ == key@,
                    forall|q: int| 0 <= q < i ==> fv[q].0 != key@,
                    obj_lookup(fv, key@) == obj_lookup(fv.skip(i as int), key@),
                decreases n - i,
            {
                if fields[i].0 == key_string {
                    proof {
                        assert(fv.skip(i as int)[0] == fv[i as int]);
                        assert(fv[i as int].0 == key@);
                        assert(obj_lookup(fv.skip(i as int), key@) == Some(fv[i as int].1));
                    }
                    return Some(&fields[i].1);
                }
                proof {
                    assert(fv.skip(i as int)[0] == fv[i as int]);
                    assert(fv.skip(i as int).skip(1) =~= fv.skip(i + 1));
                }
                i += 1;
            }
            proof {
                assert(fv.skip(n as int) =~= Seq::<(Seq<char>, JsonSpec)>::empty());
            }
            None
        },
        _ => None,
    }
}

/// The text of `v` when it is a string value, as `as_text` of the model.
pub open spec fn as_text(v: Option<JsonSpec>) -> Option<Seq<char>> {
    match v {
        Some(JsonSpec::Str(s)) => Some(s),
        _ => None,
    }
}

/// The string payload of `v`, if `v` is a string value.
pub fn get_str<'a>(v: &'a JsonValue) -> (r: Option<&'a String>)
    ensures
        match r {
            Some(s) => as_text(Some(v@)) == Some(s@),
            None => as_text(Some(v@)) is None,
        },
{
    match v {
        JsonValue::Str(s) => Some(s),
        _ => None,
    }
}

} // verus!
