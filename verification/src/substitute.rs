//! Literal substitution in free-form text: each rule's resolved value
//! replaces both the `{{variable_name}}` placeholder token and every verbatim
//! occurrence of the rule's target key, in a single pass per rule. A rule
//! that does not resolve leaves the text untouched; a missing occurrence is a
//! no-op, not an error.

use vstd::prelude::*;

use crate::config::{resolve, resolve_value, Replacement, ReplacementModel};
use crate::context::Context;
use crate::serialize::value_text;
use crate::text::{chars_of, lemma_replace_all_self, push_all, replace_all, replace_all_chars, string_of};
use crate::value::{coerce, coerce_model, TypedValue, ValueModel};

verus! {

/// The placeholder token recognised in free text for a variable name.
pub open spec fn placeholder(name: Seq<char>) -> Seq<char> {
    seq!['{', '{'] + name + seq!['}', '}']
}

/// How a coerced value appears in free text: scalars as their raw text
/// without quoting, lists as their compact structured literal (lists have no
/// natural free-text form), passthrough text verbatim.
pub open spec fn formatted_value(v: ValueModel) -> Seq<char> {
    match v {
        ValueModel::Str(s) => s,
        ValueModel::Items(_) => value_text(v),
        ValueModel::Raw(t) => t,
    }
}

/// One rule applied to text: if a value resolves, every occurrence of the
/// placeholder token and then every occurrence of the target key is replaced
/// by the formatted value; otherwise the text is returned exactly as found.
pub open spec fn subst_one(
    content: Seq<char>,
    r: ReplacementModel,
    vars: Seq<(Seq<char>, Seq<char>)>,
) -> Seq<char> {
    match resolve(r, vars) {
        None => content,
        Some(raw) => {
            let v = formatted_value(coerce_model(raw, r.type_tag));
            replace_all(replace_all(content, placeholder(r.name), v), r.key, v)
        }
    }
}

/// All rules applied to text, in manifest order.
pub open spec fn substitute(
    content: Seq<char>,
    rs: Seq<ReplacementModel>,
    vars: Seq<(Seq<char>, Seq<char>)>,
) -> Seq<char>
    decreases rs.len(),
{
    if rs.len() == 0 {
        content
    } else {
        substitute(subst_one(content, rs[0], vars), rs.drop_first(), vars)
    }
}

/// The placeholder token for a variable name.
fn placeholder_chars(name: &str) -> (r: Vec<char>)
    ensures
        r@ == placeholder(name@),
{
    let mut r: Vec<char> = Vec::new();
    r.push('{');
    r.push('{');
    let cs = chars_of(name);
    push_all(&mut r, &cs);
    r.push('}');
    r.push('}');
    proof {
        assert(r@ =~= placeholder(name@));
    }
    r
}

/// A coerced value in its free-text form.
fn formatted_chars(v: &TypedValue) -> (r: Vec<char>)
    ensures
        r@ == formatted_value(v@),
{
    match v {
        TypedValue::Str(s) => chars_of(s.as_str()),
        TypedValue::Raw(t) => chars_of(t.as_str()),
        TypedValue::Items(_) => {
            let mut out: Vec<char> = Vec::new();
            crate::serialize::push_value(&mut out, v);
            out
        }
    }
}

/// Applies every rule of a group to free-form text, in manifest order: for
/// each rule that resolves (context, else default), both the placeholder
/// token and the literal target key are replaced by the formatted value
/// wherever they occur; rules that do not resolve change nothing.
pub fn replace_in_text(content: &str, replacements: &Vec<Replacement>, ctx: &Context) -> (r:
    String)
    ensures
        r@ == substitute(
            content@,
            replacements@.map_values(|x: Replacement| x@),
            ctx.vars_view(),
        ),
{
    let ghost rs = replacements@.map_values(|x: Replacement| x@);
    let ghost vars = ctx.vars_view();
    let mut cur = chars_of(content);
    let mut k: usize = 0;
    proof {
        assert(rs.skip(0) =~= rs);
    }
    while k < replacements.len()
        invariant
            rs == replacements@.map_values(|x: Replacement| x@),
            vars == ctx.vars_view(),
            k <= replacements@.len(),
            substitute(content@, rs, vars) == substitute(cur@, rs.skip(k as int), vars),
        decreases replacements@.len() - k,
    {
        let ghost rrest = rs.skip(k as int);
        proof {
            assert(rrest[0] == rs[k as int]);
            assert(rs[k as int] == replacements@[k as int]@);
            assert(rrest.drop_first() =~= rs.skip(k as int + 1));
        }
        let rep = &replacements[k];
        match resolve_value(rep, ctx) {
            Some(raw) => {
                let v = coerce(raw.as_str(), rep.type_tag);
                let formatted = formatted_chars(&v);
                let ph = placeholder_chars(rep.name.as_str());
                let key_cs = chars_of(rep.key.as_str());
                let step1 = replace_all_chars(&cur, &ph, &formatted);
                cur = replace_all_chars(&step1, &key_cs, &formatted);
            }
            None => {
            }
        }
        k += 1;
    }
    proof {
        assert(rs.skip(replacements@.len() as int) =~= Seq::<ReplacementModel>::empty());
    }
    string_of(&cur)
}

/// A rule whose variable is missing and has no default leaves free text
/// exactly as found: no insertion, no removal, no other change.
pub proof fn lemma_unresolved_rule_keeps_text(
    content: Seq<char>,
    r: ReplacementModel,
    vars: Seq<(Seq<char>, Seq<char>)>,
)
    requires
        resolve(r, vars) is None,
    ensures
        subst_one(content, r, vars) == content,
{
}

/// Substitution is single-pass, never recursive: a rule whose resolved value
/// formats to its own placeholder token, and whose target key is that same
/// token, leaves any text exactly as it found it — so substituting a second
/// time returns the first result unchanged and can never loop or
/// double-substitute.
pub proof fn lemma_substitute_self_is_identity(
    content: Seq<char>,
    rs: Seq<ReplacementModel>,
    vars: Seq<(Seq<char>, Seq<char>)>,
)
    requires
        forall|i: int| 0 <= i < rs.len() ==> {
            &&& #[trigger] resolve(rs[i], vars) is Some
            &&& formatted_value(coerce_model(resolve(rs[i], vars).unwrap(), rs[i].type_tag))
                == placeholder(rs[i].name)
            &&& rs[i].key == placeholder(rs[i].name)
        },
    ensures
        substitute(content, rs, vars) == content,
    decreases rs.len(),
{
    if rs.len() > 0 {
        let r = rs[0];
        let ph = placeholder(r.name);
        lemma_replace_all_self(content, ph);
        lemma_replace_all_self(replace_all(content, ph, ph), ph);
        assert(subst_one(content, r, vars) == content);
        assert(forall|i: int| 0 <= i < rs.drop_first().len() ==> rs.drop_first()[i] == rs[i + 1]);
        lemma_substitute_self_is_identity(content, rs.drop_first(), vars);
    }
}

} // verus!
