//! Typed values produced by coercion: a raw variable value becomes either the
//! string itself or a list of comma-separated, trimmed pieces. Values read
//! from a structured document that are neither strings nor lists are carried
//! through verbatim as raw structured text.

use vstd::prelude::*;

use crate::text::{chars_of, split_commas, split_commas_chars, string_of, trim_chars, trimmed};

verus! {

/// The declared coercion for a replacement value.
#[derive(Clone, Copy, Debug, PartialEq, Eq, Structural)]
pub enum TypeTag {
    /// The raw string, unchanged.
    Str,
    /// Comma-separated pieces, each trimmed.
    Array,
}

/// A typed value held by a structured document or substituted into text.
#[derive(Debug)]
pub enum TypedValue {
    /// A plain string.
    Str(String),
    /// An ordered list of strings.
    Items(Vec<String>),
    /// Structured text carried through verbatim.
    Raw(String),
}

/// The mathematical shape of a `TypedValue`.
pub enum ValueModel {
    Str(Seq<char>),
    Items(Seq<Seq<char>>),
    Raw(Seq<char>),
}

impl View for TypedValue {
    type V = ValueModel;

    open spec fn view(&self) -> ValueModel {
        match self {
            TypedValue::Str(s) => ValueModel::Str(s@),
            TypedValue::Items(v) => ValueModel::Items(v@.map_values(|x: String| x@)),
            TypedValue::Raw(s) => ValueModel::Raw(s@),
        }
    }
}

impl TypedValue {
    /// An equal copy of this value.
    pub fn duplicate(&self) -> (r: TypedValue)
        ensures
            r@ == self@,
    {
        match self {
            TypedValue::Str(s) => TypedValue::Str(s.clone()),
            TypedValue::Raw(s) => TypedValue::Raw(s.clone()),
            TypedValue::Items(v) => {
                let mut out: Vec<String> = Vec::new();
                let mut i: usize = 0;
                while i < v.len()
                    invariant
                        i <= v@.len(),
                        out@ == v@.take(i as int),
                    decreases v@.len() - i,
                {
                    out.push(v[i].clone());
                    i += 1;
                    proof {
                        assert(out@ =~= v@.take(i as int));
                    }
                }
                proof {
                    assert(out@ =~= v@);
                }
                TypedValue::Items(out)
            }
        }
    }
}

/// What coercing `raw` under `tag` yields: under `Array`, the comma-separated
/// pieces of `raw`, each trimmed; under `Str`, the raw text unchanged.
pub open spec fn coerce_model(raw: Seq<char>, tag: TypeTag) -> ValueModel {
    match tag {
        TypeTag::Array => ValueModel::Items(split_commas(raw).map_values(|p: Seq<char>| trimmed(p))),
        TypeTag::Str => ValueModel::Str(raw),
    }
}

/// Converts a raw variable value into a typed value. Total: it never fails,
/// and the tag alone decides the shape of the result.
pub fn coerce(raw: &str, tag: TypeTag) -> (r: TypedValue)
    ensures
        r@ == coerce_model(raw@, tag),
{
    match tag {
        TypeTag::Array => {
            let cs = chars_of(raw);
            let pieces = split_commas_chars(&cs);
            let ghost piece_views = pieces@.map_values(|p: Vec<char>| p@);
            let mut items: Vec<String> = Vec::new();
            let mut i: usize = 0;
            while i < pieces.len()
                invariant
                    piece_views == pieces@.map_values(|p: Vec<char>| p@),
                    piece_views == split_commas(raw@),
                    i <= pieces@.len(),
                    items@.map_values(|x: String| x@)
                        == piece_views.map_values(|p: Seq<char>| trimmed(p)).take(i as int),
                decreases pieces@.len() - i,
            {
                let ghost prev_items = items@;
                let t = trim_chars(&pieces[i]);
                let st = string_of(&t);
                proof {
                    assert(piece_views[i as int] == pieces@[i as int]@);
                    assert(st@ == trimmed(piece_views[i as int]));
                    assert(prev_items.map_values(|x: String| x@).len() == i as int);
                }
                items.push(st);
                i += 1;
                proof {
                    assert(items@.map_values(|x: String| x@)
                        =~= piece_views.map_values(|p: Seq<char>| trimmed(p)).take(i as int));
                }
            }
            proof {
                assert(items@.map_values(|x: String| x@)
                    =~= piece_views.map_values(|p: Seq<char>| trimmed(p)));
            }
            TypedValue::Items(items)
        }
        TypeTag::Str => TypedValue::Str(raw.to_owned()),
    }
}

/// The tag declared by a manifest `type` field: `"array"` selects list
/// coercion and any other text falls back to plain string behaviour.
pub open spec fn tag_of(t: Seq<char>) -> TypeTag {
    if t == "array"@ {
        TypeTag::Array
    } else {
        TypeTag::Str
    }
}

/// Reads a manifest `type` field into a tag.
pub fn tag_from_text(t: &str) -> (r: TypeTag)
    ensures
        r == tag_of(t@),
{
    if crate::text::str_eq(t, "array") {
        TypeTag::Array
    } else {
        TypeTag::Str
    }
}

} // verus!
