//! Coercion, text substitution and document merging on concrete values.

use scaffold::config::Replacement;
use scaffold::context::Context;
use scaffold::document::{create_ordered_map, merge_document, update_existing_values, StructuredDocument};
use scaffold::serialize::serialize_document;
use scaffold::substitute::replace_in_text;
use scaffold::value::{coerce, TypeTag, TypedValue};

fn ctx_with(vars: Vec<(&str, &str)>) -> Context {
    let mut ctx = Context::new();
    ctx.set_variables(
        vars.into_iter().map(|(k, v)| (k.to_owned(), v.to_owned())).collect(),
    );
    ctx
}

fn doc_of(entries: Vec<(&str, TypedValue)>) -> StructuredDocument {
    StructuredDocument {
        entries: entries.into_iter().map(|(k, v)| (k.to_owned(), v)).collect(),
    }
}

fn rep(name: &str, key: &str, tag: TypeTag, default: Option<&str>) -> Replacement {
    Replacement {
        name: name.to_owned(),
        key: key.to_owned(),
        type_tag: tag,
        default: default.map(|d| d.to_owned()),
    }
}

#[test]
fn coerce_array_splits_and_trims() {
    match coerce("x, y , z", TypeTag::Array) {
        TypedValue::Items(items) => assert_eq!(items, vec!["x", "y", "z"]),
        _ => panic!("array coercion must yield items"),
    }
}

#[test]
fn coerce_string_keeps_content() {
    match coerce("x,y,z", TypeTag::Str) {
        TypedValue::Str(s) => assert_eq!(s, "x,y,z"),
        _ => panic!("string coercion must yield the raw string"),
    }
}

#[test]
fn coerce_array_single_piece() {
    match coerce("solo", TypeTag::Array) {
        TypedValue::Items(items) => assert_eq!(items, vec!["solo"]),
        _ => panic!("array coercion must yield items"),
    }
}

#[test]
fn coerce_trims_unicode_whitespace() {
    match coerce("a\u{A0}, \u{0C}b\u{2009}", TypeTag::Array) {
        TypedValue::Items(items) => assert_eq!(items, vec!["a", "b"]),
        _ => panic!("array coercion must yield items"),
    }
}

#[test]
fn coerce_empty_and_trailing_comma() {
    match coerce("", TypeTag::Array) {
        TypedValue::Items(items) => assert_eq!(items, vec![""]),
        _ => panic!("array coercion must yield items"),
    }
    match coerce("a,", TypeTag::Array) {
        TypedValue::Items(items) => assert_eq!(items, vec!["a", ""]),
        _ => panic!("array coercion must yield items"),
    }
}

#[test]
fn substitute_empty_content() {
    let ctx = ctx_with(vec![("a", "x")]);
    let reps = vec![rep("a", "KEY", TypeTag::Str, None)];
    assert_eq!(replace_in_text("", &reps, &ctx), "");
}

#[test]
fn merge_into_empty_document_appends() {
    let doc = doc_of(vec![]);
    let ctx = ctx_with(vec![("v", "demo")]);
    let reps = vec![rep("v", "c", TypeTag::Str, None)];
    let merged = merge_document(&doc, &reps, &ctx);
    assert_eq!(serialize_document(&merged), "{\"c\":\"demo\"}");
}

#[test]
fn serialize_empty_document() {
    let doc = doc_of(vec![]);
    assert_eq!(serialize_document(&doc), "{}");
}

#[test]
fn substitute_replaces_placeholder_and_key() {
    let ctx = ctx_with(vec![("app", "demo")]);
    let reps = vec![rep("app", "__APP__", TypeTag::Str, None)];
    let out = replace_in_text("start {{app}} mid __APP__ end", &reps, &ctx);
    assert_eq!(out, "start demo mid demo end");
}

#[test]
fn substitute_every_occurrence() {
    let ctx = ctx_with(vec![("a", "x")]);
    let reps = vec![rep("a", "KEY", TypeTag::Str, None)];
    let out = replace_in_text("{{a}}{{a}} KEY KEY", &reps, &ctx);
    assert_eq!(out, "xx x x");
}

#[test]
fn substitute_missing_variable_without_default_is_untouched() {
    let ctx = Context::new();
    let reps = vec![rep("absent", "KEY", TypeTag::Str, None)];
    let content = "keep {{absent}} and KEY as found";
    let out = replace_in_text(content, &reps, &ctx);
    assert_eq!(out, content);
}

#[test]
fn substitute_falls_back_to_default() {
    let ctx = Context::new();
    let reps = vec![rep("absent", "KEY", TypeTag::Str, Some("fallback"))];
    let out = replace_in_text("v: {{absent}}/KEY", &reps, &ctx);
    assert_eq!(out, "v: fallback/fallback");
}

#[test]
fn substitute_array_renders_compact_literal() {
    let ctx = ctx_with(vec![("tags", "a, b")]);
    let reps = vec![rep("tags", "__TAGS__", TypeTag::Array, None)];
    let out = replace_in_text("tags = {{tags}}", &reps, &ctx);
    assert_eq!(out, "tags = [\"a\",\"b\"]");
}

#[test]
fn substitute_self_placeholder_twice_is_stable() {
    let ctx = ctx_with(vec![("name", "{{name}}")]);
    let reps = vec![rep("name", "{{name}}", TypeTag::Str, None)];
    let content = "a {{name}} b";
    let once = replace_in_text(content, &reps, &ctx);
    let twice = replace_in_text(&once, &reps, &ctx);
    assert_eq!(once, content);
    assert_eq!(twice, once);
}

#[test]
fn merge_inserts_new_key_after_pivot() {
    let doc = doc_of(vec![
        ("a", TypedValue::Str("1".to_owned())),
        ("name", TypedValue::Str("x".to_owned())),
        ("b", TypedValue::Str("2".to_owned())),
    ]);
    let ctx = ctx_with(vec![("project_c", "demo")]);
    let reps = vec![rep("project_c", "c", TypeTag::Str, None)];
    let merged = merge_document(&doc, &reps, &ctx);
    let keys: Vec<&str> = merged.entries.iter().map(|(k, _)| k.as_str()).collect();
    assert_eq!(keys, vec!["a", "name", "c", "b"]);
    assert_eq!(
        serialize_document(&merged),
        "{\"a\":\"1\",\"name\":\"x\",\"c\":\"demo\",\"b\":\"2\"}"
    );
}

#[test]
fn merge_without_pivot_appends_in_manifest_order() {
    let doc = doc_of(vec![
        ("a", TypedValue::Str("1".to_owned())),
        ("b", TypedValue::Str("2".to_owned())),
    ]);
    let ctx = ctx_with(vec![("v1", "x"), ("v2", "y")]);
    let reps = vec![
        rep("v1", "c", TypeTag::Str, None),
        rep("v2", "d", TypeTag::Str, None),
    ];
    let merged = merge_document(&doc, &reps, &ctx);
    let keys: Vec<&str> = merged.entries.iter().map(|(k, _)| k.as_str()).collect();
    assert_eq!(keys, vec!["a", "b", "c", "d"]);
}

#[test]
fn merge_overwrites_existing_key_in_place() {
    let doc = doc_of(vec![
        ("first", TypedValue::Str("keep".to_owned())),
        ("target", TypedValue::Str("old".to_owned())),
        ("last", TypedValue::Str("keep".to_owned())),
    ]);
    let ctx = ctx_with(vec![("v", "new")]);
    let reps = vec![rep("v", "target", TypeTag::Str, None)];
    let merged = merge_document(&doc, &reps, &ctx);
    let keys: Vec<&str> = merged.entries.iter().map(|(k, _)| k.as_str()).collect();
    assert_eq!(keys, vec!["first", "target", "last"]);
    match &merged.entries[1].1 {
        TypedValue::Str(s) => assert_eq!(s, "new"),
        _ => panic!("overwritten value must be a string"),
    }
}

#[test]
fn merge_missing_variable_without_default_changes_nothing() {
    let doc = doc_of(vec![
        ("name", TypedValue::Str("x".to_owned())),
        ("target", TypedValue::Str("old".to_owned())),
    ]);
    let ctx = Context::new();
    let reps = vec![
        rep("absent", "fresh", TypeTag::Str, None),
        rep("absent", "target", TypeTag::Str, None),
    ];
    let merged = merge_document(&doc, &reps, &ctx);
    assert_eq!(
        serialize_document(&merged),
        "{\"name\":\"x\",\"target\":\"old\"}"
    );
}

#[test]
fn merge_new_key_resolves_default() {
    let doc = doc_of(vec![("name", TypedValue::Str("x".to_owned()))]);
    let ctx = Context::new();
    let reps = vec![rep("absent", "c", TypeTag::Str, Some("dflt"))];
    let merged = merge_document(&doc, &reps, &ctx);
    assert_eq!(
        serialize_document(&merged),
        "{\"name\":\"x\",\"c\":\"dflt\"}"
    );
}

#[test]
fn create_ordered_map_only_inserts() {
    let doc = doc_of(vec![
        ("name", TypedValue::Str("x".to_owned())),
        ("target", TypedValue::Str("old".to_owned())),
    ]);
    let ctx = ctx_with(vec![("v", "new"), ("w", "ins")]);
    let reps = vec![
        rep("v", "target", TypeTag::Str, None),
        rep("w", "fresh", TypeTag::Str, None),
    ];
    let seeded = create_ordered_map(&doc, &reps, &ctx);
    // the existing key keeps its old value: overwriting is the second step
    assert_eq!(
        serialize_document(&seeded),
        "{\"name\":\"x\",\"fresh\":\"ins\",\"target\":\"old\"}"
    );
    let mut seeded = seeded;
    update_existing_values(&mut seeded, &reps, &ctx);
    assert_eq!(
        serialize_document(&seeded),
        "{\"name\":\"x\",\"fresh\":\"ins\",\"target\":\"new\"}"
    );
}

#[test]
fn merge_array_value_serialises_as_array() {
    let doc = doc_of(vec![("name", TypedValue::Str("x".to_owned()))]);
    let ctx = ctx_with(vec![("ks", "one,two")]);
    let reps = vec![rep("ks", "keywords", TypeTag::Array, None)];
    let merged = merge_document(&doc, &reps, &ctx);
    assert_eq!(
        serialize_document(&merged),
        "{\"name\":\"x\",\"keywords\":[\"one\",\"two\"]}"
    );
}

#[test]
fn serialize_escapes_quotes_backslashes_and_controls() {
    let doc = doc_of(vec![(
        "text",
        TypedValue::Str("a\"b\\c\nd\te".to_owned()),
    )]);
    assert_eq!(
        serialize_document(&doc),
        "{\"text\":\"a\\\"b\\\\c\\nd\\te\"}"
    );
}

#[test]
fn serialize_raw_value_passes_through() {
    let doc = doc_of(vec![
        ("n", TypedValue::Raw("5".to_owned())),
        ("flag", TypedValue::Raw("true".to_owned())),
    ]);
    assert_eq!(serialize_document(&doc), "{\"n\":5,\"flag\":true}");
}
