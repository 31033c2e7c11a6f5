//! The manifest's data model: one replacement rule binds a variable name to a
//! target key with a declared coercion and an optional default, and one file
//! group binds a list of relative file paths to a list of such rules.

use vstd::prelude::*;

use crate::context::Context;
use crate::value::TypeTag;

verus! {

/// The organization page under which repositories are created.
pub const REPO_URL: &'static str = "https://github.com/NextNodeSolutions";

/// The repository that holds the project templates.
pub const TEMPLATE_REPO_URL: &'static str = "/utils_project-templates.git";

/// The branch of the template repository used when none is configured.
pub const TEMPLATE_BRANCH: &'static str = "main";

/// The category directories at the root of the template repository.
pub fn template_categories() -> (r: Vec<String>)
    ensures
        r@.map_values(|s: String| s@) =~= seq!["apps"@, "packages"@, "utils"@],
{
    let mut r: Vec<String> = Vec::new();
    r.push("apps".to_owned());
    r.push("packages".to_owned());
    r.push("utils".to_owned());
    r
}

/// The manifest's `type` field value used when the field is omitted.
pub fn default_type() -> (r: String)
    ensures
        r@ == "string"@,
{
    "string".to_owned()
}

/// One substitution rule: the variable `name` is looked up in the context,
/// falling back to `default` if declared; the resolved value is coerced under
/// `type_tag` and applied to the target `key`.
#[derive(Debug)]
pub struct Replacement {
    pub name: String,
    pub key: String,
    pub type_tag: TypeTag,
    pub default: Option<String>,
}

/// The mathematical shape of a `Replacement`.
pub struct ReplacementModel {
    pub name: Seq<char>,
    pub key: Seq<char>,
    pub type_tag: TypeTag,
    pub default: Option<Seq<char>>,
}

impl View for Replacement {
    type V = ReplacementModel;

    open spec fn view(&self) -> ReplacementModel {
        ReplacementModel {
            name: self.name@,
            key: self.key@,
            type_tag: self.type_tag,
            default: match self.default {
                Some(d) => Some(d@),
                None => None,
            },
        }
    }
}

/// One manifest entry: the files to rewrite and the rules to apply to them.
#[derive(Debug)]
pub struct TemplateConfig {
    pub files_to_replace: Vec<String>,
    pub replacements: Vec<Replacement>,
}

/// The mathematical shape of a `TemplateConfig`.
pub struct TemplateConfigModel {
    pub files_to_replace: Seq<Seq<char>>,
    pub replacements: Seq<ReplacementModel>,
}

impl View for TemplateConfig {
    type V = TemplateConfigModel;

    open spec fn view(&self) -> TemplateConfigModel {
        TemplateConfigModel {
            files_to_replace: self.files_to_replace@.map_values(|s: String| s@),
            replacements: self.replacements@.map_values(|r: Replacement| r@),
        }
    }
}

/// The value a rule resolves to: the context's binding for the rule's
/// variable name, else the rule's default, else nothing.
pub open spec fn resolve(r: ReplacementModel, vars: Seq<(Seq<char>, Seq<char>)>) -> Option<
    Seq<char>,
> {
    match crate::context::lookup(vars, r.name) {
        Some(v) => Some(v),
        None => r.default,
    }
}

/// Resolves a rule's value from the context, falling back to its default.
pub fn resolve_value(r: &Replacement, ctx: &Context) -> (res: Option<String>)
    ensures
        match res {
            Some(v) => resolve(r@, ctx.vars_view()) == Some(v@),
            None => resolve(r@, ctx.vars_view()) is None,
        },
{
    match ctx.get_variable(r.name.as_str()) {
        Some(v) => Some(v),
        None => match &r.default {
            Some(d) => Some(d.clone()),
            None => None,
        },
    }
}


} // verus!
