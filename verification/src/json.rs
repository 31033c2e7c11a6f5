//! The boundary to the structured-text parser: parsing is delegated to
//! serde_json (and serde_yaml for configuration files), behind trusted
//! declarations whose contracts speak of a parsed value's shape. The engine's
//! own logic — schema checks, merging, serialising — is verified against that
//! shape.

use vstd::prelude::*;

use crate::document::{entries_view, StructuredDocument};
use crate::value::{TypedValue, ValueModel};

verus! {

/// The shape of a parsed structured value: nulls, strings, arrays and
/// objects are distinguished (objects keep their key order and have unique
/// keys); any other value is a leaf carrying its compact text.
pub enum JsonModel {
    Null,
    Str(Seq<char>),
    Arr(Seq<JsonModel>),
    Obj(Seq<(Seq<char>, JsonModel)>),
    Other(Seq<char>),
}

/// What parsing structured text yields: nothing for malformed text, else the
/// parsed value's shape.
pub uninterp spec fn json_of_text(content: Seq<char>) -> Option<JsonModel>;

/// What parsing YAML text into a structured value yields.
pub uninterp spec fn yaml_of_text(content: Seq<char>) -> Option<JsonModel>;

/// The shape of a parsed value.
pub uninterp spec fn json_model_of(v: serde_json::Value) -> JsonModel;

/// The compact serialisation of a value of the given shape.
pub uninterp spec fn compact_text(m: JsonModel) -> Seq<char>;

#[verifier::external_type_specification]
#[verifier::external_body]
pub struct ExValue(serde_json::Value);

/// Relies on `serde_json::from_str::<Value>`: whether it succeeds, and what
/// value it yields, is a function of the text alone (well-formed text within
/// the parser's nesting limit parses; anything else is an error); object key
/// order is preserved.
#[verifier::external_body]
pub(crate) fn json_parse(content: &str) -> (r: Option<serde_json::Value>)
    ensures
        r is Some <==> json_of_text(content@) is Some,
        r matches Some(v) ==> json_of_text(content@) == Some(json_model_of(v)),
{
    serde_json::from_str(content).ok()
}

/// Relies on `serde_yaml::from_str` deserialising into a
/// `serde_json::Value`: it succeeds exactly on well-formed YAML that maps
/// into a structured value, and yields that value.
#[verifier::external_body]
pub(crate) fn yaml_parse(content: &str) -> (r: Option<serde_json::Value>)
    ensures
        r is Some <==> yaml_of_text(content@) is Some,
        r matches Some(v) ==> yaml_of_text(content@) == Some(json_model_of(v)),
{
    serde_yaml::from_str(content).ok()
}

/// Relies on `serde_json::Value::as_str`: `Some` exactly for string values,
/// with the string's text.
#[verifier::external_body]
pub(crate) fn json_as_str<'a>(v: &'a serde_json::Value) -> (r: Option<&'a str>)
    ensures
        match r {
            Some(s) => json_model_of(*v) == JsonModel::Str(s@),
            None => !(json_model_of(*v) is Str),
        },
{
    v.as_str()
}

/// Relies on `serde_json::Value::is_null`.
#[verifier::external_body]
pub(crate) fn json_is_null(v: &serde_json::Value) -> (r: bool)
    ensures
        r == (json_model_of(*v) is Null),
{
    v.is_null()
}

/// Relies on `serde_json::Value::as_array`: `Some` exactly for arrays, with
/// the elements in order.
#[verifier::external_body]
pub(crate) fn json_as_array<'a>(v: &'a serde_json::Value) -> (r: Option<&'a Vec<serde_json::Value>>)
    ensures
        match r {
            Some(items) => {
                &&& json_model_of(*v) is Arr
                &&& items@.len() == (json_model_of(*v)->Arr_0).len()
                &&& forall|i: int| 0 <= i < items@.len() ==> json_model_of(items@[i]) == (
                json_model_of(*v)->Arr_0)[i]
            },
            None => !(json_model_of(*v) is Arr),
        },
{
    v.as_array()
}

/// Relies on `serde_json::Value::as_object` and `Map::iter`: `Some` exactly
/// for objects, yielding the entries in order; a parsed object's keys are
/// unique.
#[verifier::external_body]
pub(crate) fn json_object_entries<'a>(v: &'a serde_json::Value) -> (r: Option<
    Vec<(&'a String, &'a serde_json::Value)>,
>)
    ensures
        match r {
            Some(entries) => {
                &&& json_model_of(*v) is Obj
                &&& entries@.len() == (json_model_of(*v)->Obj_0).len()
                &&& forall|i: int| 0 <= i < entries@.len() ==> entries@[i].0@ == (json_model_of(
                    *v,
                )->Obj_0)[i].0 && json_model_of(*entries@[i].1) == (json_model_of(*v)->Obj_0)[i].1
                &&& forall|i: int, j: int| 0 <= i < j < entries@.len() ==> entries@[i].0@
                    != entries@[j].0@
            },
            None => !(json_model_of(*v) is Obj),
        },
{
    match v.as_object() {
        Some(m) => Some(m.iter().collect()),
        None => None,
    }
}

/// Relies on `serde_json::to_string`: the compact text of a value, a
/// function of the value alone; serialising a parsed value cannot fail.
#[verifier::external_body]
pub(crate) fn json_text(v: &serde_json::Value) -> (r: String)
    ensures
        r@ == compact_text(json_model_of(*v)),
{
    match serde_json::to_string(v) {
        Ok(s) => s,
        Err(_) => String::new(),
    }
}

/// The document-level reading of a parsed value: a string value is its text,
/// any other value is carried through as its compact text.
pub open spec fn typed_of_json(m: JsonModel) -> ValueModel {
    match m {
        JsonModel::Str(s) => ValueModel::Str(s),
        _ => ValueModel::Raw(compact_text(m)),
    }
}

/// The document a parsed value describes: its top-level object entries in
/// order, each value read at the document level; nothing if the value is not
/// an object.
pub open spec fn doc_of_json(m: JsonModel) -> Option<Seq<(Seq<char>, ValueModel)>> {
    match m {
        JsonModel::Obj(es) => Some(
            es.map_values(|e: (Seq<char>, JsonModel)| (e.0, typed_of_json(e.1))),
        ),
        _ => None,
    }
}

/// The document that structured text describes, if it parses as an object.
pub open spec fn doc_of_text(content: Seq<char>) -> Option<Seq<(Seq<char>, ValueModel)>> {
    match json_of_text(content) {
        Some(m) => doc_of_json(m),
        None => None,
    }
}

/// Parses structured text into a document: the top-level object's entries in
/// their original order, keys unique; fails exactly when the text is not a
/// well-formed object.
pub fn parse_structured(content: &str) -> (r: Option<StructuredDocument>)
    ensures
        match r {
            Some(doc) => doc_of_text(content@) == Some(doc@) && doc.wf(),
            None => doc_of_text(content@) is None,
        },
{
    let v = match json_parse(content) {
        Some(v) => v,
        None => {
            return None;
        }
    };
    let entries = match json_object_entries(&v) {
        Some(es) => es,
        None => {
            return None;
        }
    };
    let ghost obj = json_model_of(v)->Obj_0;
    let ghost target = obj.map_values(|e: (Seq<char>, JsonModel)| (e.0, typed_of_json(e.1)));
    let mut out: Vec<(String, TypedValue)> = Vec::new();
    let mut i: usize = 0;
    while i < entries.len()
        invariant
            entries@.len() == obj.len(),
            target == obj.map_values(|e: (Seq<char>, JsonModel)| (e.0, typed_of_json(e.1))),
            forall|j: int| 0 <= j < entries@.len() ==> entries@[j].0@ == obj[j].0
                && json_model_of(*entries@[j].1) == obj[j].1,
            i <= entries@.len(),
            out@.len() == i,
            entries_view(out@) == target.take(i as int),
        decreases entries@.len() - i,
    {
        let (k, ev) = entries[i];
        let tv = match json_as_str(ev) {
            Some(s) => TypedValue::Str(s.to_owned()),
            None => TypedValue::Raw(json_text(ev)),
        };
        proof {
            assert(tv@ == typed_of_json(obj[i as int].1));
        }
        out.push((k.clone(), tv));
        i += 1;
        proof {
            assert(entries_view(out@) =~= target.take(i as int));
        }
    }
    proof {
        assert(entries_view(out@) =~= target);
    }
    let doc = StructuredDocument { entries: out };
    proof {
        assert(doc.wf()) by {
            assert(forall|x: int, y: int| 0 <= x < y < doc@.len() ==> doc@[x].0 != doc@[y].0);
        }
    }
    Some(doc)
}

} // verus!
