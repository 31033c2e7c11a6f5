//! The copier and the whole render pipeline on concrete trees.

use scaffold::context::Context;
use scaffold::exclusion::is_excluded;
use scaffold::render::{render, FileIssueKind, RenderError};
use scaffold::tree::{copy_tree, FsEntry, FsNode};

fn file(path: &[&str], content: &str) -> FsEntry {
    FsEntry {
        path: path.iter().map(|c| (*c).to_owned()).collect(),
        node: FsNode::File { content: content.as_bytes().to_vec() },
    }
}

fn file_text(entry: &FsEntry) -> String {
    match &entry.node {
        FsNode::File { content } => String::from_utf8(content.clone()).expect("file must be text"),
        FsNode::Dir => panic!("entry must be a file"),
    }
}

fn dir(path: &[&str]) -> FsEntry {
    FsEntry { path: path.iter().map(|c| (*c).to_owned()).collect(), node: FsNode::Dir }
}

fn ctx_with(vars: Vec<(&str, &str)>) -> Context {
    let mut ctx = Context::new();
    ctx.set_variables(
        vars.into_iter().map(|(k, v)| (k.to_owned(), v.to_owned())).collect(),
    );
    ctx
}

fn paths_of(entries: &[FsEntry]) -> Vec<String> {
    entries.iter().map(|e| e.path.join("/")).collect()
}

#[test]
fn excluded_names_are_recognised() {
    for name in ["node_modules", ".next", ".turbo", "dist", "build", "out",
        "template_config.json"] {
        assert!(is_excluded(name), "{name} must be excluded");
    }
    assert!(!is_excluded("src"));
    assert!(!is_excluded("package.json"));
    assert!(!is_excluded("Dist"));
}

#[test]
fn copy_tree_skips_excluded_entries_at_any_depth() {
    let template = vec![
        file(&["pkg.json"], "{}"),
        dir(&["node_modules"]),
        file(&["node_modules", "left", "x.js"], "cache"),
        dir(&["src"]),
        file(&["src", "main.ts"], "code"),
        dir(&["src", "dist"]),
        file(&["src", "dist", "bundle.js"], "built"),
        file(&["template_config.json"], "[]"),
        file(&["deep", "build", "out.txt"], "built"),
    ];
    let copied = copy_tree(&template);
    assert_eq!(paths_of(&copied), vec!["pkg.json", "src", "src/main.ts"]);
    for e in &copied {
        for comp in &e.path {
            assert!(!is_excluded(comp));
        }
    }
}

#[test]
fn copy_tree_keeps_content_and_order() {
    let template = vec![file(&["a.txt"], "one"), dir(&["d"]), file(&["d", "b.txt"], "two")];
    let copied = copy_tree(&template);
    assert_eq!(copied.len(), 3);
    assert_eq!(file_text(&copied[0]), "one");
    assert_eq!(file_text(&copied[2]), "two");
}

#[test]
fn copy_tree_keeps_binary_content_byte_for_byte() {
    let raw: Vec<u8> = vec![0x00, 0xff, 0x9f, 0x92, 0x96];
    assert!(String::from_utf8(raw.clone()).is_err());
    let template = vec![FsEntry {
        path: vec!["logo.png".to_owned()],
        node: FsNode::File { content: raw.clone() },
    }];
    let copied = copy_tree(&template);
    assert_eq!(copied.len(), 1);
    match &copied[0].node {
        FsNode::File { content } => assert_eq!(content, &raw),
        FsNode::Dir => panic!("entry must be a file"),
    }
}

const MANIFEST: &str = "[{\"files_to_replace\":[\"pkg.json\"],\"replacements\":\
[{\"name\":\"project_name\",\"key\":\"description\",\"type\":\"string\"}]}]";

#[test]
fn render_end_to_end_inserts_after_pivot() {
    let template = vec![
        file(&["pkg.json"], "{\"name\":\"x\"}"),
        file(&["template_config.json"], MANIFEST),
    ];
    let ctx = ctx_with(vec![("project_name", "demo")]);
    let out = render(&template, &ctx).expect("render must succeed");
    assert!(out.issues.is_empty());
    assert_eq!(paths_of(&out.files), vec!["pkg.json"]);
    assert_eq!(file_text(&out.files[0]), "{\"name\":\"x\",\"description\":\"demo\"}");
}

#[test]
fn render_missing_manifest_is_fatal() {
    let template = vec![file(&["pkg.json"], "{}")];
    let ctx = Context::new();
    match render(&template, &ctx) {
        Err(RenderError::ManifestNotFound) => {}
        _ => panic!("a template without a manifest must be rejected"),
    }
}

#[test]
fn render_malformed_manifest_is_fatal() {
    let template = vec![file(&["template_config.json"], "{\"not\":\"a list\"}")];
    let ctx = Context::new();
    match render(&template, &ctx) {
        Err(RenderError::ManifestParseError) => {}
        _ => panic!("a malformed manifest must be rejected"),
    }
}

#[test]
fn render_missing_declared_file_is_recorded_and_skipped() {
    let manifest = "[{\"files_to_replace\":[\"gone.txt\",\"here.txt\"],\"replacements\":\
[{\"name\":\"v\",\"key\":\"__V__\"}]}]";
    let template = vec![
        file(&["here.txt"], "__V__"),
        file(&["template_config.json"], manifest),
    ];
    let ctx = ctx_with(vec![("v", "yes")]);
    let out = render(&template, &ctx).expect("per-file failures must not abort");
    assert_eq!(out.issues.len(), 1);
    assert_eq!(out.issues[0].path, "gone.txt");
    assert_eq!(out.issues[0].kind, FileIssueKind::Missing);
    assert_eq!(file_text(&out.files[0]), "yes");
}

#[test]
fn render_unparseable_structured_file_is_recorded_and_left_as_found() {
    let manifest = "[{\"files_to_replace\":[\"bad.json\"],\"replacements\":\
[{\"name\":\"v\",\"key\":\"k\"}]}]";
    let template = vec![
        file(&["bad.json"], "not structured at all"),
        file(&["template_config.json"], manifest),
    ];
    let ctx = ctx_with(vec![("v", "x")]);
    let out = render(&template, &ctx).expect("per-file failures must not abort");
    assert_eq!(out.issues.len(), 1);
    assert_eq!(out.issues[0].kind, FileIssueKind::ParseFailed);
    assert_eq!(file_text(&out.files[0]), "not structured at all");
}

#[test]
fn render_directory_target_is_recorded() {
    let manifest = "[{\"files_to_replace\":[\"sub\"],\"replacements\":[]}]";
    let template = vec![dir(&["sub"]), file(&["template_config.json"], manifest)];
    let ctx = Context::new();
    let out = render(&template, &ctx).expect("per-file failures must not abort");
    assert_eq!(out.issues.len(), 1);
    assert_eq!(out.issues[0].kind, FileIssueKind::NotAFile);
}

#[test]
fn render_resolves_nested_paths_and_text_files() {
    let manifest = "[{\"files_to_replace\":[\"src/app.ts\"],\"replacements\":\
[{\"name\":\"app\",\"key\":\"__APP__\"}]}]";
    let template = vec![
        dir(&["src"]),
        file(&["src", "app.ts"], "export const name = \"__APP__\"; // {{app}}"),
        file(&["template_config.json"], manifest),
    ];
    let ctx = ctx_with(vec![("app", "demo")]);
    let out = render(&template, &ctx).expect("render must succeed");
    assert!(out.issues.is_empty());
    assert_eq!(file_text(&out.files[1]), "export const name = \"demo\"; // demo");
}

#[test]
fn render_passes_non_string_values_through_unchanged() {
    let manifest = "[{\"files_to_replace\":[\"pkg.json\"],\"replacements\":\
[{\"name\":\"project_name\",\"key\":\"description\"}]}]";
    let template = vec![
        file(&["pkg.json"], "{\"name\":\"x\",\"n\":5,\"ok\":true,\"list\":[1,2]}"),
        file(&["template_config.json"], manifest),
    ];
    let ctx = ctx_with(vec![("project_name", "demo")]);
    let out = render(&template, &ctx).expect("render must succeed");
    assert_eq!(
        file_text(&out.files[0]),
        "{\"name\":\"x\",\"description\":\"demo\",\"n\":5,\"ok\":true,\"list\":[1,2]}"
    );
}

#[test]
fn render_never_rewrites_into_excluded_entries() {
    let manifest = "[{\"files_to_replace\":[\"node_modules/x.txt\"],\"replacements\":\
[{\"name\":\"v\",\"key\":\"K\"}]}]";
    let template = vec![
        dir(&["node_modules"]),
        file(&["node_modules", "x.txt"], "K"),
        file(&["template_config.json"], manifest),
    ];
    let ctx = ctx_with(vec![("v", "x")]);
    let out = render(&template, &ctx).expect("render must succeed");
    // the excluded entry was never copied, so the declared path is missing
    assert!(out.files.is_empty());
    assert_eq!(out.issues.len(), 1);
    assert_eq!(out.issues[0].kind, FileIssueKind::Missing);
}

#[test]
fn render_copies_binary_files_untouched() {
    let raw: Vec<u8> = vec![0x89, 0x50, 0x4e, 0x47, 0x00, 0xff];
    assert!(String::from_utf8(raw.clone()).is_err());
    let template = vec![
        FsEntry { path: vec!["icon.png".to_owned()], node: FsNode::File { content: raw.clone() } },
        file(&["template_config.json"], "[]"),
    ];
    let ctx = Context::new();
    let out = render(&template, &ctx).expect("render must succeed");
    assert!(out.issues.is_empty());
    assert_eq!(paths_of(&out.files), vec!["icon.png"]);
    match &out.files[0].node {
        FsNode::File { content } => assert_eq!(content, &raw),
        FsNode::Dir => panic!("icon.png must be a file"),
    }
}

#[test]
fn render_declared_binary_file_is_recorded_and_left_as_found() {
    let raw: Vec<u8> = vec![0xc3, 0x28];
    assert!(String::from_utf8(raw.clone()).is_err());
    let manifest = "[{\"files_to_replace\":[\"blob.bin\"],\"replacements\":\
[{\"name\":\"v\",\"key\":\"K\"}]}]";
    let template = vec![
        FsEntry { path: vec!["blob.bin".to_owned()], node: FsNode::File { content: raw.clone() } },
        file(&["template_config.json"], manifest),
    ];
    let ctx = ctx_with(vec![("v", "x")]);
    let out = render(&template, &ctx).expect("per-file failures must not abort");
    assert_eq!(out.issues.len(), 1);
    assert_eq!(out.issues[0].kind, FileIssueKind::NotText);
    match &out.files[0].node {
        FsNode::File { content } => assert_eq!(content, &raw),
        FsNode::Dir => panic!("blob.bin must be a file"),
    }
}

#[test]
fn render_applies_groups_in_order() {
    let manifest = "[{\"files_to_replace\":[\"a.txt\"],\"replacements\":\
[{\"name\":\"v\",\"key\":\"__V__\"}]},{\"files_to_replace\":[\"a.txt\"],\"replacements\":\
[{\"name\":\"w\",\"key\":\"__W__\"}]}]";
    let template = vec![
        file(&["a.txt"], "__V__ __W__"),
        file(&["template_config.json"], manifest),
    ];
    let ctx = ctx_with(vec![("v", "1"), ("w", "2")]);
    let out = render(&template, &ctx).expect("render must succeed");
    assert_eq!(file_text(&out.files[0]), "1 2");
}
