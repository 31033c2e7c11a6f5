//! The manifest loader: template text is parsed as structured text and then
//! checked against the manifest schema — an ordered list of groups, each with
//! a `files_to_replace` array of strings and a `replacements` array of rule
//! objects ({`name`, `key`, optional `type`, optional `default`}). Order is
//! preserved everywhere; unknown fields are ignored; `type` defaults to
//! `"string"`.

use vstd::prelude::*;

use crate::config::{Replacement, ReplacementModel, TemplateConfig, TemplateConfigModel};
use crate::json::{
    json_as_array, json_as_str, json_is_null, json_model_of, json_object_entries, json_of_text,
    json_parse, JsonModel,
};
use crate::text::str_eq;
use crate::value::{tag_from_text, tag_of, TypeTag};

verus! {

/// Why a manifest could not be loaded from its text.
#[derive(Clone, Copy, Debug, PartialEq, Eq, Structural)]
pub enum ManifestError {
    /// The manifest text is not well-formed or does not match the schema.
    ParseError,
}

/// The first value bound to `k` among an object's entries, if any.
pub open spec fn obj_lookup(entries: Seq<(Seq<char>, JsonModel)>, k: Seq<char>) -> Option<
    JsonModel,
>
    decreases entries.len(),
{
    if entries.len() == 0 {
        None
    } else if entries[0].0 == k {
        Some(entries[0].1)
    } else {
        obj_lookup(entries.drop_first(), k)
    }
}

/// The rule a parsed object describes: `name` and `key` are required
/// strings; `type` is an optional string, unrecognised or missing tags
/// falling back to plain string coercion; `default` is an optional string,
/// null standing for absent. Other fields are ignored.
pub open spec fn replacement_of(m: JsonModel) -> Option<ReplacementModel> {
    match m {
        JsonModel::Obj(es) => {
            let name = obj_lookup(es, "name"@);
            let key = obj_lookup(es, "key"@);
            let ty = obj_lookup(es, "type"@);
            let dfl = obj_lookup(es, "default"@);
            match (name, key) {
                (Some(JsonModel::Str(n)), Some(JsonModel::Str(k))) => {
                    let tag = match ty {
                        None => Some(TypeTag::Str),
                        Some(JsonModel::Str(t)) => Some(tag_of(t)),
                        Some(_) => None,
                    };
                    let default = match dfl {
                        None => Some(None),
                        Some(JsonModel::Null) => Some(None),
                        Some(JsonModel::Str(d)) => Some(Some(d)),
                        Some(_) => None,
                    };
                    match (tag, default) {
                        (Some(tag), Some(default)) => Some(
                            ReplacementModel { name: n, key: k, type_tag: tag, default },
                        ),
                        _ => None,
                    }
                },
                _ => None,
            }
        },
        _ => None,
    }
}

/// The texts of a list of string values; nothing if any element is not a
/// string.
pub open spec fn strings_of(ms: Seq<JsonModel>) -> Option<Seq<Seq<char>>>
    decreases ms.len(),
{
    if ms.len() == 0 {
        Some(Seq::empty())
    } else {
        match ms[0] {
            JsonModel::Str(s) => match strings_of(ms.drop_first()) {
                Some(rest) => Some(seq![s] + rest),
                None => None,
            },
            _ => None,
        }
    }
}

/// The rules of a list of rule objects; nothing if any element is invalid.
pub open spec fn replacements_of(ms: Seq<JsonModel>) -> Option<Seq<ReplacementModel>>
    decreases ms.len(),
{
    if ms.len() == 0 {
        Some(Seq::empty())
    } else {
        match (replacement_of(ms[0]), replacements_of(ms.drop_first())) {
            (Some(r), Some(rest)) => Some(seq![r] + rest),
            _ => None,
        }
    }
}

/// The group a parsed object describes: a `files_to_replace` array of
/// strings and a `replacements` array of rule objects, both required.
pub open spec fn group_of(m: JsonModel) -> Option<TemplateConfigModel> {
    match m {
        JsonModel::Obj(es) => {
            match (obj_lookup(es, "files_to_replace"@), obj_lookup(es, "replacements"@)) {
                (Some(JsonModel::Arr(fs)), Some(JsonModel::Arr(rs))) => {
                    match (strings_of(fs), replacements_of(rs)) {
                        (Some(files), Some(reps)) => Some(
                            TemplateConfigModel { files_to_replace: files, replacements: reps },
                        ),
                        _ => None,
                    }
                },
                _ => None,
            }
        },
        _ => None,
    }
}

/// The groups of a list of group objects; nothing if any element is invalid.
pub open spec fn groups_of(ms: Seq<JsonModel>) -> Option<Seq<TemplateConfigModel>>
    decreases ms.len(),
{
    if ms.len() == 0 {
        Some(Seq::empty())
    } else {
        match (group_of(ms[0]), groups_of(ms.drop_first())) {
            (Some(g), Some(rest)) => Some(seq![g] + rest),
            _ => None,
        }
    }
}

/// The manifest a parsed value describes: an ordered list of groups.
pub open spec fn manifest_of(m: JsonModel) -> Option<Seq<TemplateConfigModel>> {
    match m {
        JsonModel::Arr(ms) => groups_of(ms),
        _ => None,
    }
}

/// The manifest that text describes, if it parses and matches the schema.
pub open spec fn manifest_of_text(content: Seq<char>) -> Option<Seq<TemplateConfigModel>> {
    match json_of_text(content) {
        Some(m) => manifest_of(m),
        None => None,
    }
}

/// The entry bound to `key` among an object's entries, as `obj_lookup` finds
/// it.
fn obj_get<'a>(
    entries: &Vec<(&'a String, &'a serde_json::Value)>,
    key: &str,
    Ghost(obj): Ghost<Seq<(Seq<char>, JsonModel)>>,
) -> (r: Option<&'a serde_json::Value>)
    requires
        entries@.len() == obj.len(),
        forall|j: int| 0 <= j < entries@.len() ==> entries@[j].0@ == obj[j].0 && json_model_of(
            *entries@[j].1,
        ) == obj[j].1,
    ensures
        match r {
            Some(v) => obj_lookup(obj, key@) == Some(json_model_of(*v)),
            None => obj_lookup(obj, key@) is None,
        },
{
    let mut i: usize = 0;
    proof {
        assert(obj.skip(0) =~= obj);
    }
    while i < entries.len()
        invariant
            entries@.len() == obj.len(),
            forall|j: int| 0 <= j < entries@.len() ==> entries@[j].0@ == obj[j].0
                && json_model_of(*entries@[j].1) == obj[j].1,
            i <= entries@.len(),
            obj_lookup(obj.skip(i as int), key@) == obj_lookup(obj, key@),
        decreases entries@.len() - i,
    {
        let ghost rest = obj.skip(i as int);
        proof {
            assert(rest[0] == obj[i as int]);
            assert(rest.drop_first() =~= obj.skip(i + 1));
        }
        let (k, v) = entries[i];
        if str_eq(k.as_str(), key) {
            return Some(v);
        }
        i += 1;
    }
    proof {
        assert(obj.skip(obj.len() as int) =~= Seq::<(Seq<char>, JsonModel)>::empty());
    }
    None
}

/// Reads one rule object, against the schema `replacement_of` describes.
fn parse_replacement(v: &serde_json::Value) -> (r: Option<Replacement>)
    ensures
        match r {
            Some(rep) => replacement_of(json_model_of(*v)) == Some(rep@),
            None => replacement_of(json_model_of(*v)) is None,
        },
{
    let entries = match json_object_entries(v) {
        Some(es) => es,
        None => {
            return None;
        }
    };
    let ghost obj = json_model_of(*v)->Obj_0;
    let name = match obj_get(&entries, "name", Ghost(obj)) {
        Some(nv) => match json_as_str(nv) {
            Some(s) => s.to_owned(),
            None => {
                return None;
            }
        },
        None => {
            return None;
        }
    };
    let key = match obj_get(&entries, "key", Ghost(obj)) {
        Some(kv) => match json_as_str(kv) {
            Some(s) => s.to_owned(),
            None => {
                return None;
            }
        },
        None => {
            return None;
        }
    };
    let type_tag = match obj_get(&entries, "type", Ghost(obj)) {
        Some(tv) => match json_as_str(tv) {
            Some(t) => tag_from_text(t),
            None => {
                return None;
            }
        },
        None => TypeTag::Str,
    };
    let default = match obj_get(&entries, "default", Ghost(obj)) {
        Some(dv) => match json_as_str(dv) {
            Some(d) => Some(d.to_owned()),
            None => {
                if json_is_null(dv) {
                    None
                } else {
                    return None;
                }
            }
        },
        None => None,
    };
    Some(Replacement { name, key, type_tag, default })
}

/// Reads one group object, against the schema `group_of` describes.
#[verifier::loop_isolation(false)]
fn parse_group(v: &serde_json::Value) -> (r: Option<TemplateConfig>)
    ensures
        match r {
            Some(g) => group_of(json_model_of(*v)) == Some(g@),
            None => group_of(json_model_of(*v)) is None,
        },
{
    let entries = match json_object_entries(v) {
        Some(es) => es,
        None => {
            return None;
        }
    };
    let ghost obj = json_model_of(*v)->Obj_0;
    let files_val = match obj_get(&entries, "files_to_replace", Ghost(obj)) {
        Some(fv) => fv,
        None => {
            return None;
        }
    };
    let reps_val = match obj_get(&entries, "replacements", Ghost(obj)) {
        Some(rv) => rv,
        None => {
            return None;
        }
    };
    let files_arr = match json_as_array(files_val) {
        Some(a) => a,
        None => {
            return None;
        }
    };
    let reps_arr = match json_as_array(reps_val) {
        Some(a) => a,
        None => {
            return None;
        }
    };
    let ghost fs = json_model_of(*files_val)->Arr_0;
    let ghost rs = json_model_of(*reps_val)->Arr_0;
    let mut files_to_replace: Vec<String> = Vec::new();
    let mut i: usize = 0;
    while i < files_arr.len()
        invariant
            files_arr@.len() == fs.len(),
            forall|j: int| 0 <= j < fs.len() ==> json_model_of(files_arr@[j]) == fs[j],
            i <= fs.len(),
            strings_of(fs) matches Some(all) ==> {
                &&& files_to_replace@.len() == i
                &&& files_to_replace@.map_values(|s: String| s@) == all.take(i as int)
            },
            forall|j: int| 0 <= j < i ==> fs[j] is Str,
        decreases fs.len() - i,
    {
        match json_as_str(&files_arr[i]) {
            Some(s) => {
                files_to_replace.push(s.to_owned());
            }
            None => {
                proof {
                    lemma_strings_of_non_str(fs, i as int);
                }
                return None;
            }
        }
        i += 1;
        proof {
            lemma_strings_of_prefix(fs, i as int);
            if strings_of(fs) is Some {
                assert(files_to_replace@.map_values(|s: String| s@) =~= strings_of(
                    fs,
                ).unwrap().take(i as int));
            }
        }
    }
    proof {
        lemma_strings_of_all(fs);
        assert(files_to_replace@.map_values(|s: String| s@) =~= strings_of(fs).unwrap());
    }
    let mut replacements: Vec<Replacement> = Vec::new();
    let mut i: usize = 0;
    while i < reps_arr.len()
        invariant
            reps_arr@.len() == rs.len(),
            forall|j: int| 0 <= j < rs.len() ==> json_model_of(reps_arr@[j]) == rs[j],
            i <= rs.len(),
            replacements_of(rs) matches Some(all) ==> {
                &&& replacements@.len() == i
                &&& replacements@.map_values(|x: Replacement| x@) == all.take(i as int)
            },
            forall|j: int| 0 <= j < i ==> replacement_of(rs[j]) is Some,
        decreases rs.len() - i,
    {
        match parse_replacement(&reps_arr[i]) {
            Some(rep) => {
                replacements.push(rep);
            }
            None => {
                proof {
                    lemma_replacements_of_invalid(rs, i as int);
                }
                return None;
            }
        }
        i += 1;
        proof {
            lemma_replacements_of_prefix(rs, i as int);
            if replacements_of(rs) is Some {
                assert(replacements@.map_values(|x: Replacement| x@) =~= replacements_of(
                    rs,
                ).unwrap().take(i as int));
            }
        }
    }
    proof {
        lemma_replacements_of_all(rs);
        assert(replacements@.map_values(|x: Replacement| x@) =~= replacements_of(rs).unwrap());
    }
    Some(TemplateConfig { files_to_replace, replacements })
}

proof fn lemma_strings_of_non_str(ms: Seq<JsonModel>, i: int)
    requires
        0 <= i < ms.len(),
        !(ms[i] is Str),
    ensures
        strings_of(ms) is None,
    decreases i,
{
    if i > 0 {
        if ms[0] is Str {
            lemma_strings_of_non_str(ms.drop_first(), i - 1);
        }
    }
}

proof fn lemma_strings_of_prefix(ms: Seq<JsonModel>, i: int)
    requires
        0 <= i <= ms.len(),
        forall|j: int| 0 <= j < i ==> ms[j] is Str,
    ensures
        strings_of(ms) matches Some(all) ==> all.len() == ms.len() && forall|j: int|
            0 <= j < ms.len() ==> #[trigger] all[j] == ms[j]->Str_0,
    decreases ms.len(),
{
    if ms.len() > 0 && ms[0] is Str {
        lemma_strings_of_prefix(ms.drop_first(), if i > 0 {
            i - 1
        } else {
            0
        });
    }
}

proof fn lemma_strings_of_all(ms: Seq<JsonModel>)
    requires
        forall|j: int| 0 <= j < ms.len() ==> ms[j] is Str,
    ensures
        strings_of(ms) matches Some(all) && all.len() == ms.len() && (forall|j: int|
            0 <= j < ms.len() ==> #[trigger] all[j] == ms[j]->Str_0),
    decreases ms.len(),
{
    if ms.len() > 0 {
        lemma_strings_of_all(ms.drop_first());
        let all = strings_of(ms).unwrap();
        let rest = strings_of(ms.drop_first()).unwrap();
        assert forall|j: int| 0 <= j < ms.len() implies #[trigger] all[j] == ms[j]->Str_0 by {
            if j > 0 {
                assert(all[j] == rest[j - 1]);
                assert(ms.drop_first()[j - 1] == ms[j]);
            }
        }
    }
}

proof fn lemma_replacements_of_invalid(ms: Seq<JsonModel>, i: int)
    requires
        0 <= i < ms.len(),
        replacement_of(ms[i]) is None,
    ensures
        replacements_of(ms) is None,
    decreases i,
{
    if i > 0 {
        if replacement_of(ms[0]) is Some {
            lemma_replacements_of_invalid(ms.drop_first(), i - 1);
        }
    }
}

proof fn lemma_replacements_of_prefix(ms: Seq<JsonModel>, i: int)
    requires
        0 <= i <= ms.len(),
        forall|j: int| 0 <= j < i ==> #[trigger] replacement_of(ms[j]) is Some,
    ensures
        replacements_of(ms) matches Some(all) ==> all.len() == ms.len() && forall|j: int|
            0 <= j < ms.len() ==> #[trigger] all[j] == replacement_of(ms[j]).unwrap(),
    decreases ms.len(),
{
    if ms.len() > 0 && replacement_of(ms[0]) is Some {
        lemma_replacements_of_prefix(ms.drop_first(), if i > 0 {
            i - 1
        } else {
            0
        });
    }
}

proof fn lemma_replacements_of_all(ms: Seq<JsonModel>)
    requires
        forall|j: int| 0 <= j < ms.len() ==> #[trigger] replacement_of(ms[j]) is Some,
    ensures
        replacements_of(ms) matches Some(all) && all.len() == ms.len() && (forall|j: int|
            0 <= j < ms.len() ==> #[trigger] all[j] == replacement_of(ms[j]).unwrap()),
    decreases ms.len(),
{
    if ms.len() > 0 {
        lemma_replacements_of_all(ms.drop_first());
        let all = replacements_of(ms).unwrap();
        let rest = replacements_of(ms.drop_first()).unwrap();
        assert forall|j: int| 0 <= j < ms.len() implies #[trigger] all[j] == replacement_of(
            ms[j],
        ).unwrap() by {
            if j > 0 {
                assert(all[j] == rest[j - 1]);
                assert(ms.drop_first()[j - 1] == ms[j]);
            }
        }
    }
}

proof fn lemma_groups_of_invalid(ms: Seq<JsonModel>, i: int)
    requires
        0 <= i < ms.len(),
        group_of(ms[i]) is None,
    ensures
        groups_of(ms) is None,
    decreases i,
{
    if i > 0 {
        if group_of(ms[0]) is Some {
            lemma_groups_of_invalid(ms.drop_first(), i - 1);
        }
    }
}

proof fn lemma_groups_of_prefix(ms: Seq<JsonModel>, i: int)
    requires
        0 <= i <= ms.len(),
        forall|j: int| 0 <= j < i ==> #[trigger] group_of(ms[j]) is Some,
    ensures
        groups_of(ms) matches Some(all) ==> all.len() == ms.len() && forall|j: int|
            0 <= j < ms.len() ==> #[trigger] all[j] == group_of(ms[j]).unwrap(),
    decreases ms.len(),
{
    if ms.len() > 0 && group_of(ms[0]) is Some {
        lemma_groups_of_prefix(ms.drop_first(), if i > 0 {
            i - 1
        } else {
            0
        });
    }
}

proof fn lemma_groups_of_all(ms: Seq<JsonModel>)
    requires
        forall|j: int| 0 <= j < ms.len() ==> #[trigger] group_of(ms[j]) is Some,
    ensures
        groups_of(ms) matches Some(all) && all.len() == ms.len() && (forall|j: int|
            0 <= j < ms.len() ==> #[trigger] all[j] == group_of(ms[j]).unwrap()),
    decreases ms.len(),
{
    if ms.len() > 0 {
        lemma_groups_of_all(ms.drop_first());
        let all = groups_of(ms).unwrap();
        let rest = groups_of(ms.drop_first()).unwrap();
        assert forall|j: int| 0 <= j < ms.len() implies #[trigger] all[j] == group_of(
            ms[j],
        ).unwrap() by {
            if j > 0 {
                assert(all[j] == rest[j - 1]);
                assert(ms.drop_first()[j - 1] == ms[j]);
            }
        }
    }
}

/// Loads the manifest from its text: an ordered list of file groups, each
/// requiring a `files_to_replace` array and a `replacements` array. Fails
/// with `ParseError` exactly when the text does not describe such a list.
#[verifier::loop_isolation(false)]
pub fn read_template_config(content: &str) -> (r: Result<Vec<TemplateConfig>, ManifestError>)
    ensures
        match r {
            Ok(cfg) => manifest_of_text(content@) == Some(
                cfg@.map_values(|g: TemplateConfig| g@),
            ),
            Err(e) => e == ManifestError::ParseError && manifest_of_text(content@) is None,
        },
{
    let v = match json_parse(content) {
        Some(v) => v,
        None => {
            return Err(ManifestError::ParseError);
        }
    };
    let groups_arr = match json_as_array(&v) {
        Some(a) => a,
        None => {
            return Err(ManifestError::ParseError);
        }
    };
    let ghost ms = json_model_of(v)->Arr_0;
    let mut groups: Vec<TemplateConfig> = Vec::new();
    let mut i: usize = 0;
    while i < groups_arr.len()
        invariant
            groups_arr@.len() == ms.len(),
            forall|j: int| 0 <= j < ms.len() ==> json_model_of(groups_arr@[j]) == ms[j],
            i <= ms.len(),
            groups_of(ms) matches Some(all) ==> {
                &&& groups@.len() == i
                &&& groups@.map_values(|g: TemplateConfig| g@) == all.take(i as int)
            },
            forall|j: int| 0 <= j < i ==> #[trigger] group_of(ms[j]) is Some,
        decreases ms.len() - i,
    {
        match parse_group(&groups_arr[i]) {
            Some(g) => {
                groups.push(g);
            }
            None => {
                proof {
                    lemma_groups_of_invalid(ms, i as int);
                }
                return Err(ManifestError::ParseError);
            }
        }
        i += 1;
        proof {
            lemma_groups_of_prefix(ms, i as int);
            if groups_of(ms) is Some {
                assert(groups@.map_values(|g: TemplateConfig| g@) =~= groups_of(
                    ms,
                ).unwrap().take(i as int));
            }
        }
    }
    proof {
        lemma_groups_of_all(ms);
        assert(groups@.map_values(|g: TemplateConfig| g@) =~= groups_of(ms).unwrap());
    }
    Ok(groups)
}


/// Appends to `acc` each name of `xs`, in order, that is not yet present.
pub open spec fn add_unique(acc: Seq<Seq<char>>, xs: Seq<Seq<char>>) -> Seq<Seq<char>>
    decreases xs.len(),
{
    if xs.len() == 0 {
        acc
    } else if acc.contains(xs[0]) {
        add_unique(acc, xs.drop_first())
    } else {
        add_unique(acc.push(xs[0]), xs.drop_first())
    }
}

/// The variable names of one group's rules, in order.
pub open spec fn group_names(g: TemplateConfigModel) -> Seq<Seq<char>> {
    g.replacements.map_values(|r: ReplacementModel| r.name)
}

/// The distinct variable names over all groups, each at its first occurrence
/// in manifest order, starting from `acc`.
pub open spec fn unique_names_from(acc: Seq<Seq<char>>, groups: Seq<TemplateConfigModel>) -> Seq<
    Seq<char>,
>
    decreases groups.len(),
{
    if groups.len() == 0 {
        acc
    } else {
        unique_names_from(add_unique(acc, group_names(groups[0])), groups.drop_first())
    }
}

/// The distinct variable names a manifest's rules use, each at its first
/// occurrence in manifest order.
pub open spec fn unique_names(groups: Seq<TemplateConfigModel>) -> Seq<Seq<char>> {
    unique_names_from(Seq::empty(), groups)
}

/// Whether some element of `v` holds the characters of `x`.
fn contains_string(v: &Vec<String>, x: &str) -> (r: bool)
    ensures
        r == v@.map_values(|s: String| s@).contains(x@),
{
    let ghost views = v@.map_values(|s: String| s@);
    let mut i: usize = 0;
    while i < v.len()
        invariant
            views == v@.map_values(|s: String| s@),
            i <= v@.len(),
            forall|j: int| 0 <= j < i ==> views[j] != x@,
        decreases v@.len() - i,
    {
        proof {
            assert(views[i as int] == v@[i as int]@);
        }
        if str_eq(v[i].as_str(), x) {
            proof {
                assert(views[i as int] == x@);
            }
            return true;
        }
        i += 1;
    }
    proof {
        if views.contains(x@) {
            let w = choose|w: int| 0 <= w < views.len() && views[w] == x@;
            assert(views[w] != x@);
        }
    }
    false
}

/// The distinct variable names the manifest's rules use, each listed once at
/// its first occurrence, in manifest order.
#[verifier::loop_isolation(false)]
pub fn extract_unique_keys(config: &Vec<TemplateConfig>) -> (r: Vec<String>)
    ensures
        r@.map_values(|s: String| s@) == unique_names(
            config@.map_values(|g: TemplateConfig| g@),
        ),
{
    let ghost groups = config@.map_values(|g: TemplateConfig| g@);
    let mut keys: Vec<String> = Vec::new();
    let mut gi: usize = 0;
    proof {
        assert(groups.skip(0) =~= groups);
        assert(keys@.map_values(|s: String| s@) =~= Seq::<Seq<char>>::empty());
    }
    while gi < config.len()
        invariant
            gi <= groups.len(),
            unique_names(groups) == unique_names_from(
                keys@.map_values(|s: String| s@),
                groups.skip(gi as int),
            ),
        decreases groups.len() - gi,
    {
        let ghost grest = groups.skip(gi as int);
        proof {
            assert(grest[0] == groups[gi as int]);
            assert(groups[gi as int] == config@[gi as int]@);
            assert(grest.drop_first() =~= groups.skip(gi as int + 1));
        }
        let reps = &config[gi].replacements;
        let ghost names = group_names(groups[gi as int]);
        proof {
            assert(names.skip(0) =~= names);
        }
        let mut ri: usize = 0;
        while ri < reps.len()
            invariant
                ri <= names.len(),
                names.len() == reps@.len(),
                unique_names(groups) == unique_names_from(
                    add_unique(keys@.map_values(|s: String| s@), names.skip(ri as int)),
                    groups.skip(gi as int + 1),
                ),
            decreases names.len() - ri,
        {
            let ghost prev_keys = keys@.map_values(|s: String| s@);
            let ghost nrest = names.skip(ri as int);
            proof {
                assert(nrest[0] == names[ri as int]);
                assert(names[ri as int] == reps@[ri as int]@.name);
                assert(nrest.drop_first() =~= names.skip(ri as int + 1));
            }
            if !contains_string(&keys, reps[ri].name.as_str()) {
                keys.push(reps[ri].name.clone());
                proof {
                    assert(keys@.map_values(|s: String| s@) =~= prev_keys.push(
                        names[ri as int],
                    ));
                }
            }
            ri += 1;
        }
        proof {
            assert(names.skip(names.len() as int) =~= Seq::<Seq<char>>::empty());
        }
        gi += 1;
    }
    proof {
        assert(groups.skip(groups.len() as int) =~= Seq::<TemplateConfigModel>::empty());
    }
    keys
}

} // verus!
