//! Configuration files, the manifest loader, the variable context and the
//! small command-line helpers on concrete values.

use scaffold::args::Args;
use scaffold::cli::{get_template_info, parse_template_selection};
use scaffold::config::{default_type, template_categories, REPO_URL};
use scaffold::context::Context;
use scaffold::file_config::{parse_file_config, ConfigError, FileConfig};
use scaffold::github::{extract_organization_from_repo_url, GitHubRepo};
use scaffold::manifest::{extract_unique_keys, read_template_config, ManifestError};
use scaffold::template::TemplateManager;
use scaffold::validation::{validate_package_name, validate_project_name};
use scaffold::value::TypeTag;

#[test]
fn parse_yaml_config() {
    let text = "project_name: demo\nname: pkg\ntemplate_category: apps\n\
template_name: web\nextra: 7\nflag: true\n";
    let cfg = parse_file_config(text).expect("yaml config must parse");
    assert_eq!(cfg.project_name, "demo");
    assert_eq!(cfg.name, "pkg");
    assert_eq!(cfg.template_category.as_deref(), Some("apps"));
    assert_eq!(cfg.template_name.as_deref(), Some("web"));
    assert_eq!(cfg.template_branch, None);
    let vars = cfg.additional_vars.clone();
    assert!(vars.contains(&("extra".to_owned(), "7".to_owned())));
    assert!(vars.contains(&("flag".to_owned(), "true".to_owned())));
}

#[test]
fn parse_json_config() {
    let text = "{\"project_name\":\"demo\",\"name\":\"pkg\",\
\"template_branch\":\"next\",\"github_tag\":\"apps\",\"note\":\"hi\"}";
    let cfg = parse_file_config(text).expect("json config must parse");
    assert_eq!(cfg.project_name, "demo");
    assert_eq!(cfg.get_template_branch(), "next");
    assert_eq!(cfg.get_github_tag().map(String::as_str), Some("apps"));
    assert_eq!(cfg.additional_vars, vec![("note".to_owned(), "hi".to_owned())]);
}

#[test]
fn empty_config_is_rejected() {
    assert_eq!(parse_file_config("   \n\t  ").unwrap_err(), ConfigError::Empty);
}

#[test]
fn unparseable_config_is_rejected() {
    assert_eq!(parse_file_config("{unclosed").unwrap_err(), ConfigError::ParseError);
    assert_eq!(parse_file_config("just a scalar").unwrap_err(), ConfigError::ParseError);
}

#[test]
fn config_null_optional_field_reads_as_absent() {
    let text = "{\"project_name\":\"demo\",\"name\":\"pkg\",\"template_branch\":null}";
    let cfg = parse_file_config(text).expect("json config must parse");
    assert_eq!(cfg.template_branch, None);
    assert_eq!(cfg.get_template_branch(), "main");
}

#[test]
fn manifest_null_default_reads_as_absent() {
    let text = "[{\"files_to_replace\":[],\"replacements\":\
[{\"name\":\"n\",\"key\":\"k\",\"default\":null}]}]";
    let groups = read_template_config(text).expect("manifest must parse");
    assert_eq!(groups[0].replacements[0].default, None);
}

#[test]
fn config_known_field_with_wrong_type_is_rejected() {
    assert_eq!(
        parse_file_config("{\"project_name\":5}").unwrap_err(),
        ConfigError::ParseError
    );
}

fn sample_config() -> FileConfig {
    FileConfig {
        project_name: "demo".to_owned(),
        name: "pkg".to_owned(),
        template_category: Some("apps".to_owned()),
        template_name: Some("web".to_owned()),
        template_branch: None,
        github_tag: None,
        additional_vars: vec![("name".to_owned(), "shadowed".to_owned())],
    }
}

#[test]
fn template_branch_defaults_to_main() {
    let cfg = sample_config();
    assert_eq!(cfg.get_template_branch(), "main");
}

#[test]
fn template_info_requires_both_parts() {
    let cfg = sample_config();
    assert_eq!(cfg.get_template_info(), Some(("apps".to_owned(), "web".to_owned())));
    let mut partial = sample_config();
    partial.template_name = None;
    assert_eq!(partial.get_template_info(), None);
}

#[test]
fn github_tag_validation() {
    let mut cfg = sample_config();
    assert!(cfg.validate_github_tag().is_ok());
    cfg.github_tag = Some("packages".to_owned());
    assert!(cfg.validate_github_tag().is_ok());
    cfg.github_tag = Some("other".to_owned());
    assert_eq!(cfg.validate_github_tag().unwrap_err(), ConfigError::InvalidGithubTag);
}

#[test]
fn to_variables_required_names_win() {
    let cfg = sample_config();
    let mut ctx = Context::new();
    ctx.set_variables(cfg.to_variables());
    assert_eq!(ctx.get_variable("project_name").as_deref(), Some("demo"));
    assert_eq!(ctx.get_variable("name").as_deref(), Some("pkg"));
}

#[test]
fn context_variables_and_debug_mode() {
    let mut ctx = Context::new();
    assert!(!ctx.is_debug_mode());
    assert_eq!(ctx.get_variable("k"), None);
    ctx.set_variables(vec![("k".to_owned(), "v".to_owned())]);
    assert_eq!(ctx.get_variable("k").as_deref(), Some("v"));
    assert_eq!(ctx.get_variable("other"), None);
    ctx.set_debug_mode(true);
    assert!(ctx.is_debug_mode());
}

const MANIFEST: &str = "[{\"files_to_replace\":[\"pkg.json\",\"readme.md\"],\
\"replacements\":[{\"name\":\"project_name\",\"key\":\"description\"},\
{\"name\":\"tags\",\"key\":\"keywords\",\"type\":\"array\",\"default\":\"a,b\"}]},\
{\"files_to_replace\":[\"other.txt\"],\"replacements\":\
[{\"name\":\"project_name\",\"key\":\"__P__\"}]}]";

#[test]
fn manifest_parses_with_defaults() {
    let groups = read_template_config(MANIFEST).expect("manifest must parse");
    assert_eq!(groups.len(), 2);
    assert_eq!(groups[0].files_to_replace, vec!["pkg.json", "readme.md"]);
    let reps = &groups[0].replacements;
    assert_eq!(reps[0].name, "project_name");
    assert_eq!(reps[0].key, "description");
    assert_eq!(reps[0].type_tag, TypeTag::Str);
    assert_eq!(reps[0].default, None);
    assert_eq!(reps[1].type_tag, TypeTag::Array);
    assert_eq!(reps[1].default.as_deref(), Some("a,b"));
}

#[test]
fn manifest_unknown_type_tag_falls_back_to_string() {
    let text = "[{\"files_to_replace\":[],\"replacements\":\
[{\"name\":\"n\",\"key\":\"k\",\"type\":\"mystery\"}]}]";
    let groups = read_template_config(text).expect("manifest must parse");
    assert_eq!(groups[0].replacements[0].type_tag, TypeTag::Str);
}

#[test]
fn manifest_schema_violations_are_rejected() {
    assert_eq!(read_template_config("nonsense").unwrap_err(), ManifestError::ParseError);
    assert_eq!(read_template_config("{}").unwrap_err(), ManifestError::ParseError);
    let missing_files = "[{\"replacements\":[]}]";
    assert_eq!(read_template_config(missing_files).unwrap_err(), ManifestError::ParseError);
    let bad_rule = "[{\"files_to_replace\":[],\"replacements\":[{\"key\":\"k\"}]}]";
    assert_eq!(read_template_config(bad_rule).unwrap_err(), ManifestError::ParseError);
}

#[test]
fn unique_keys_keep_first_occurrence_order() {
    let groups = read_template_config(MANIFEST).expect("manifest must parse");
    assert_eq!(extract_unique_keys(&groups), vec!["project_name", "tags"]);
}

#[test]
fn template_path_is_joined_with_slashes() {
    let mgr = TemplateManager::new("/tmp/repo".to_owned());
    assert_eq!(mgr.get_template_path("apps", "web"), "/tmp/repo/apps/web");
}

#[test]
fn organization_is_last_url_segment() {
    assert_eq!(extract_organization_from_repo_url(), "NextNodeSolutions");
    assert!(REPO_URL.ends_with("NextNodeSolutions"));
}

#[test]
fn github_repo_holds_token() {
    let repo = GitHubRepo::new("tok");
    assert_eq!(repo.token, "tok");
}

#[test]
fn constants_match_the_template_layout() {
    assert_eq!(default_type(), "string");
    assert_eq!(template_categories(), vec!["apps", "packages", "utils"]);
    assert_eq!(scaffold::exclusion::TEMPLATE_CONFIG_FILE, "template_config.json");
}

fn args_with(category: Option<&str>, template: Option<&str>) -> Args {
    Args {
        debug: false,
        config: None,
        category: category.map(|s| s.to_owned()),
        template: template.map(|s| s.to_owned()),
        remote: false,
        token: None,
    }
}

#[test]
fn template_info_prefers_config_then_args() {
    let cfg = sample_config();
    let args = args_with(Some("packages"), Some("lib"));
    assert_eq!(
        get_template_info(&args, Some(&cfg)),
        Some(("apps".to_owned(), "web".to_owned()))
    );
    assert_eq!(
        get_template_info(&args, None),
        Some(("packages".to_owned(), "lib".to_owned()))
    );
    assert_eq!(get_template_info(&args_with(Some("packages"), None), None), None);
}

#[test]
fn selection_lines_parse_back() {
    assert_eq!(
        parse_template_selection("web (apps)"),
        Some(("apps".to_owned(), "web".to_owned()))
    );
    assert_eq!(parse_template_selection("no separator"), None);
    assert_eq!(parse_template_selection("a (b (c)"), None);
}

#[test]
fn project_names_are_validated() {
    assert!(validate_project_name("demo-app_2"));
    assert!(!validate_project_name(""));
    assert!(!validate_project_name("2demo"));
    assert!(!validate_project_name("Demo"));
    assert!(!validate_project_name("demo app"));
}

#[test]
fn package_names_are_validated() {
    assert!(validate_package_name("pkg-1"));
    assert!(validate_package_name("@scope/pkg"));
    assert!(!validate_package_name(""));
    assert!(!validate_package_name("@/pkg"));
    assert!(!validate_package_name("@scope/"));
    assert!(!validate_package_name("@scope"));
    assert!(!validate_package_name("UPPER"));
    assert!(!validate_package_name("@scope/pkg/extra"));
}
