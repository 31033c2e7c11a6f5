//! The caller-supplied configuration file: project and package names, the
//! template to use, an optional repository tag, and any further variables.
//! The text is read as YAML first, then as structured text, as either maps
//! into the same shape; unknown fields become additional variables.

use vstd::prelude::*;

use crate::json::{
    compact_text, json_as_str, json_is_null, json_model_of, json_object_entries, json_of_text,
    json_parse, json_text, yaml_of_text, yaml_parse, JsonModel,
};
use crate::text::{chars_of, str_eq, trim_chars, trimmed};

verus! {

/// Why a configuration file could not be used.
#[derive(Clone, Copy, Debug, PartialEq, Eq, Structural)]
pub enum ConfigError {
    /// The file holds nothing but whitespace.
    Empty,
    /// The text parses neither as YAML nor as structured text, or a known
    /// field has the wrong type.
    ParseError,
    /// The configured repository tag is not an allowed value.
    InvalidGithubTag,
}

/// A parsed configuration file.
#[derive(Debug)]
pub struct FileConfig {
    pub project_name: String,
    pub name: String,
    pub template_category: Option<String>,
    pub template_name: Option<String>,
    pub template_branch: Option<String>,
    pub github_tag: Option<String>,
    pub additional_vars: Vec<(String, String)>,
}

/// The mathematical shape of a configuration.
pub struct FileConfigView {
    pub project_name: Seq<char>,
    pub name: Seq<char>,
    pub template_category: Option<Seq<char>>,
    pub template_name: Option<Seq<char>>,
    pub template_branch: Option<Seq<char>>,
    pub github_tag: Option<Seq<char>>,
    pub additional_vars: Seq<(Seq<char>, Seq<char>)>,
}

impl View for FileConfig {
    type V = FileConfigView;

    open spec fn view(&self) -> FileConfigView {
        FileConfigView {
            project_name: self.project_name@,
            name: self.name@,
            template_category: match self.template_category {
                Some(ref s) => Some(s@),
                None => None,
            },
            template_name: match self.template_name {
                Some(ref s) => Some(s@),
                None => None,
            },
            template_branch: match self.template_branch {
                Some(ref s) => Some(s@),
                None => None,
            },
            github_tag: match self.github_tag {
                Some(ref s) => Some(s@),
                None => None,
            },
            additional_vars: self.additional_vars@.map_values(
                |e: (String, String)| (e.0@, e.1@),
            ),
        }
    }
}

/// The configuration with nothing set.
pub open spec fn empty_config_view() -> FileConfigView {
    FileConfigView {
        project_name: Seq::empty(),
        name: Seq::empty(),
        template_category: None,
        template_name: None,
        template_branch: None,
        github_tag: None,
        additional_vars: Seq::empty(),
    }
}

/// An additional variable's value: a string's text, anything else its
/// compact serialisation.
pub open spec fn var_text(m: JsonModel) -> Seq<char> {
    match m {
        JsonModel::Str(s) => s,
        _ => compact_text(m),
    }
}

/// One configuration field folded into the accumulator: the two name fields
/// must be strings; the four optional fields must be strings or null; any
/// other field becomes an additional variable.
pub open spec fn config_step(acc: FileConfigView, key: Seq<char>, val: JsonModel) -> Option<
    FileConfigView,
> {
    if key == "project_name"@ {
        match val {
            JsonModel::Str(s) => Some(FileConfigView { project_name: s, ..acc }),
            _ => None,
        }
    } else if key == "name"@ {
        match val {
            JsonModel::Str(s) => Some(FileConfigView { name: s, ..acc }),
            _ => None,
        }
    } else if key == "template_category"@ {
        match val {
            JsonModel::Str(s) => Some(FileConfigView { template_category: Some(s), ..acc }),
            JsonModel::Null => Some(FileConfigView { template_category: None, ..acc }),
            _ => None,
        }
    } else if key == "template_name"@ {
        match val {
            JsonModel::Str(s) => Some(FileConfigView { template_name: Some(s), ..acc }),
            JsonModel::Null => Some(FileConfigView { template_name: None, ..acc }),
            _ => None,
        }
    } else if key == "template_branch"@ {
        match val {
            JsonModel::Str(s) => Some(FileConfigView { template_branch: Some(s), ..acc }),
            JsonModel::Null => Some(FileConfigView { template_branch: None, ..acc }),
            _ => None,
        }
    } else if key == "github_tag"@ {
        match val {
            JsonModel::Str(s) => Some(FileConfigView { github_tag: Some(s), ..acc }),
            JsonModel::Null => Some(FileConfigView { github_tag: None, ..acc }),
            _ => None,
        }
    } else {
        Some(
            FileConfigView {
                additional_vars: acc.additional_vars.push((key, var_text(val))),
                ..acc
            },
        )
    }
}

/// The fields folded in order, starting from `acc`.
pub open spec fn config_fold(acc: FileConfigView, entries: Seq<(Seq<char>, JsonModel)>) -> Option<
    FileConfigView,
>
    decreases entries.len(),
{
    if entries.len() == 0 {
        Some(acc)
    } else {
        match config_step(acc, entries[0].0, entries[0].1) {
            Some(a2) => config_fold(a2, entries.drop_first()),
            None => None,
        }
    }
}

/// The configuration a parsed value describes.
pub open spec fn file_config_of(m: JsonModel) -> Option<FileConfigView> {
    match m {
        JsonModel::Obj(es) => config_fold(empty_config_view(), es),
        _ => None,
    }
}

/// The configuration that text describes: read as YAML first, then as
/// structured text.
pub open spec fn file_config_of_text(content: Seq<char>) -> Option<FileConfigView> {
    let y = match yaml_of_text(content) {
        Some(m) => file_config_of(m),
        None => None,
    };
    match y {
        Some(c) => Some(c),
        None => match json_of_text(content) {
            Some(m) => file_config_of(m),
            None => None,
        },
    }
}

/// Reads a configuration from one parsed value, against the schema
/// `file_config_of` describes.
#[verifier::loop_isolation(false)]
fn config_of_value(v: &serde_json::Value) -> (r: Option<FileConfig>)
    ensures
        match r {
            Some(c) => file_config_of(json_model_of(*v)) == Some(c@),
            None => file_config_of(json_model_of(*v)) is None,
        },
{
    let entries = match json_object_entries(v) {
        Some(es) => es,
        None => {
            return None;
        }
    };
    let ghost obj = json_model_of(*v)->Obj_0;
    let mut cfg = FileConfig {
        project_name: String::new(),
        name: String::new(),
        template_category: None,
        template_name: None,
        template_branch: None,
        github_tag: None,
        additional_vars: Vec::new(),
    };
    proof {
        assert(cfg@.additional_vars =~= Seq::<(Seq<char>, Seq<char>)>::empty());
        assert(cfg@ == empty_config_view());
        assert(obj.skip(0) =~= obj);
    }
    let mut i: usize = 0;
    while i < entries.len()
        invariant
            i <= entries@.len(),
            config_fold(empty_config_view(), obj) == config_fold(cfg@, obj.skip(i as int)),
        decreases entries@.len() - i,
    {
        let ghost orest = obj.skip(i as int);
        let ghost prev = cfg@;
        proof {
            assert(orest[0] == obj[i as int]);
            assert(orest.drop_first() =~= obj.skip(i as int + 1));
        }
        let (k, val) = entries[i];
        let ghost key = obj[i as int].0;
        let ghost vm = obj[i as int].1;
        if str_eq(k.as_str(), "project_name") {
            match json_as_str(val) {
                Some(s) => {
                    cfg.project_name = s.to_owned();
                }
                None => {
                    return None;
                }
            }
        } else if str_eq(k.as_str(), "name") {
            match json_as_str(val) {
                Some(s) => {
                    cfg.name = s.to_owned();
                }
                None => {
                    return None;
                }
            }
        } else if str_eq(k.as_str(), "template_category") {
            match json_as_str(val) {
                Some(s) => {
                    cfg.template_category = Some(s.to_owned());
                }
                None => {
                    if json_is_null(val) {
                        cfg.template_category = None;
                    } else {
                        return None;
                    }
                }
            }
        } else if str_eq(k.as_str(), "template_name") {
            match json_as_str(val) {
                Some(s) => {
                    cfg.template_name = Some(s.to_owned());
                }
                None => {
                    if json_is_null(val) {
                        cfg.template_name = None;
                    } else {
                        return None;
                    }
                }
            }
        } else if str_eq(k.as_str(), "template_branch") {
            match json_as_str(val) {
                Some(s) => {
                    cfg.template_branch = Some(s.to_owned());
                }
                None => {
                    if json_is_null(val) {
                        cfg.template_branch = None;
                    } else {
                        return None;
                    }
                }
            }
        } else if str_eq(k.as_str(), "github_tag") {
            match json_as_str(val) {
                Some(s) => {
                    cfg.github_tag = Some(s.to_owned());
                }
                None => {
                    if json_is_null(val) {
                        cfg.github_tag = None;
                    } else {
                        return None;
                    }
                }
            }
        } else {
            let text = match json_as_str(val) {
                Some(s) => s.to_owned(),
                None => json_text(val),
            };
            cfg.additional_vars.push((k.clone(), text));
            proof {
                assert(cfg@.additional_vars =~= prev.additional_vars.push((key, var_text(vm))));
            }
        }
        proof {
            assert(config_step(prev, key, vm) == Some(cfg@));
        }
        i += 1;
    }
    proof {
        assert(obj.skip(obj.len() as int) =~= Seq::<(Seq<char>, JsonModel)>::empty());
    }
    Some(cfg)
}

/// Reads a configuration from file text: an all-whitespace file is rejected
/// as empty; otherwise the text is read as YAML, then as structured text,
/// and rejected when neither reading matches the expected shape.
pub fn parse_file_config(content: &str) -> (r: Result<FileConfig, ConfigError>)
    ensures
        match r {
            Ok(c) => trimmed(content@).len() > 0 && file_config_of_text(content@) == Some(c@),
            Err(e) => {
                &&& (e == ConfigError::Empty || e == ConfigError::ParseError)
                &&& (e == ConfigError::Empty <==> trimmed(content@).len() == 0)
                &&& e == ConfigError::ParseError ==> file_config_of_text(content@) is None
            },
        },
{
    let cs = chars_of(content);
    let t = trim_chars(&cs);
    if t.len() == 0 {
        return Err(ConfigError::Empty);
    }
    match yaml_parse(content) {
        Some(v) => match config_of_value(&v) {
            Some(c) => {
                return Ok(c);
            }
            None => {
            }
        },
        None => {
        }
    }
    match json_parse(content) {
        Some(v) => match config_of_value(&v) {
            Some(c) => Ok(c),
            None => Err(ConfigError::ParseError),
        },
        None => Err(ConfigError::ParseError),
    }
}

impl FileConfig {
    /// The configured template, when both its category and its name are
    /// present.
    pub fn get_template_info(&self) -> (r: Option<(String, String)>)
        ensures
            match r {
                Some(p) => self@.template_category == Some(p.0@) && self@.template_name == Some(
                    p.1@,
                ),
                None => self@.template_category is None || self@.template_name is None,
            },
    {
        match (&self.template_category, &self.template_name) {
            (Some(category), Some(name)) => Some((category.clone(), name.clone())),
            _ => None,
        }
    }

    /// The configured template branch, or the default branch.
    pub fn get_template_branch(&self) -> (r: &str)
        ensures
            r@ == match self@.template_branch {
                Some(b) => b,
                None => "main"@,
            },
    {
        match &self.template_branch {
            Some(b) => b.as_str(),
            None => "main",
        }
    }

    /// The configured repository tag, if any.
    pub fn get_github_tag(&self) -> (r: Option<&String>)
        ensures
            match r {
                Some(t) => self@.github_tag == Some(t@),
                None => self@.github_tag is None,
            },
    {
        match &self.github_tag {
            Some(t) => Some(t),
            None => None,
        }
    }

    /// Whether the configured repository tag is allowed.
    pub open spec fn github_tag_ok(&self) -> bool {
        match self@.github_tag {
            None => true,
            Some(t) => t == "apps"@ || t == "packages"@ || t == "utils"@,
        }
    }

    /// Accepts a missing tag or one of the allowed values, and rejects
    /// anything else.
    pub fn validate_github_tag(&self) -> (r: Result<(), ConfigError>)
        ensures
            r is Ok <==> self.github_tag_ok(),
            r matches Err(e) ==> e == ConfigError::InvalidGithubTag,
    {
        match &self.github_tag {
            None => Ok(()),
            Some(t) => {
                if str_eq(t.as_str(), "apps") || str_eq(t.as_str(), "packages") || str_eq(
                    t.as_str(),
                    "utils",
                ) {
                    Ok(())
                } else {
                    Err(ConfigError::InvalidGithubTag)
                }
            }
        }
    }

    /// The variable bindings this configuration supplies: the project name
    /// and the package name first, then every additional variable in file
    /// order. A lookup takes the first binding of a name, so the two
    /// required names win over additional variables of the same name.
    pub fn to_variables(&self) -> (r: Vec<(String, String)>)
        ensures
            r@.map_values(|e: (String, String)| (e.0@, e.1@)) == seq![
                ("project_name"@, self@.project_name),
                ("name"@, self@.name),
            ] + self@.additional_vars,
    {
        let mut r: Vec<(String, String)> = Vec::new();
        r.push(("project_name".to_owned(), self.project_name.clone()));
        r.push(("name".to_owned(), self.name.clone()));
        let mut i: usize = 0;
        while i < self.additional_vars.len()
            invariant
                i <= self.additional_vars@.len(),
                r@.len() == 2 + i,
                r@[0].0@ == "project_name"@ && r@[0].1@ == self@.project_name,
                r@[1].0@ == "name"@ && r@[1].1@ == self@.name,
                forall|j: int| 2 <= j < i + 2 ==> (#[trigger] r@[j].0@, r@[j].1@)
                    == self@.additional_vars[j - 2],
            decreases self.additional_vars@.len() - i,
        {
            proof {
                assert(self@.additional_vars[i as int] == (
                    self.additional_vars@[i as int].0@,
                    self.additional_vars@[i as int].1@,
                ));
            }
            let pair = (self.additional_vars[i].0.clone(), self.additional_vars[i].1.clone());
            proof {
                assert((pair.0@, pair.1@) == self@.additional_vars[i as int]);
            }
            r.push(pair);
            i += 1;
        }
        proof {
            assert(r@.map_values(|e: (String, String)| (e.0@, e.1@)) =~= seq![
                ("project_name"@, self@.project_name),
                ("name"@, self@.name),
            ] + self@.additional_vars);
        }
        r
    }
}

} // verus!
