//! The render orchestrator: copy the template tree (exclusions applied),
//! load the manifest from the template, then rewrite each declared file —
//! structured files through the ordered document merger, everything else
//! through literal text substitution. A fatal error (no manifest, malformed
//! manifest) aborts the render; a per-file failure is recorded and the
//! remaining files are still processed.

use vstd::prelude::*;

use vstd::pervasive::VecAdditionalExecFns;

use crate::config::{Replacement, ReplacementModel, TemplateConfig, TemplateConfigModel};
use crate::context::Context;
use crate::document::merged;
use crate::json::doc_of_text;
use crate::manifest::{manifest_of_text, read_template_config};
use crate::serialize::{doc_text, serialize_document};
use crate::substitute::{replace_in_text, substitute};
use crate::text::{bytes_to_text, chars_of, split_on, split_on_chars, string_of, text_to_bytes};
use vstd::utf8::{decode_utf8, encode_utf8, valid_utf8};
use crate::tree::{
    copy_model, copy_tree, duplicate_path, find_path, find_path_index, is_structured_name,
    structured_name, tree_view, FsEntry, FsEntryModel, FsNode, FsNodeModel,
};

verus! {

/// Why a render failed as a whole.
#[derive(Clone, Copy, Debug, PartialEq, Eq, Structural)]
pub enum RenderError {
    /// The template root does not exist.
    TemplateNotFound,
    /// The template has no manifest file.
    ManifestNotFound,
    /// The manifest does not parse or does not match the schema.
    ManifestParseError,
}

/// Why one declared file was skipped; the render goes on with the others.
#[derive(Clone, Copy, Debug, PartialEq, Eq, Structural)]
pub enum FileIssueKind {
    /// The declared path names no entry of the rendered tree.
    Missing,
    /// The declared path names a directory.
    NotAFile,
    /// The file is structured but its content does not parse as an object.
    ParseFailed,
    /// The file's bytes are not valid text, so it cannot be rewritten.
    NotText,
}

/// One skipped file: its declared path and why it was skipped.
#[derive(Debug)]
pub struct FileIssue {
    pub path: String,
    pub kind: FileIssueKind,
}

impl View for FileIssue {
    type V = (Seq<char>, FileIssueKind);

    open spec fn view(&self) -> (Seq<char>, FileIssueKind) {
        (self.path@, self.kind)
    }
}

/// The shape of an issue list.
pub open spec fn issues_view(issues: Seq<FileIssue>) -> Seq<(Seq<char>, FileIssueKind)> {
    issues.map_values(|x: FileIssue| x@)
}

/// A rendered tree together with the files that had to be skipped.
#[derive(Debug)]
pub struct RenderOutput {
    pub files: Vec<FsEntry>,
    pub issues: Vec<FileIssue>,
}

/// What rewriting one file's content yields: a structured file is parsed,
/// merged and serialised; any other file goes through text substitution,
/// which never fails.
pub open spec fn rendered_file(
    name: Seq<char>,
    content: Seq<char>,
    rs: Seq<ReplacementModel>,
    vars: Seq<(Seq<char>, Seq<char>)>,
) -> Result<Seq<char>, FileIssueKind> {
    if is_structured_name(name) {
        match doc_of_text(content) {
            Some(d) => Ok(doc_text(merged(d, rs, vars))),
            None => Err(FileIssueKind::ParseFailed),
        }
    } else {
        Ok(substitute(content, rs, vars))
    }
}

/// Rewrites one file's content: a file whose name marks it as structured is
/// parsed, merged with the group's rules and serialised back; any other file
/// goes through literal text substitution. Fails exactly when a structured
/// file's content is not a well-formed object.
pub fn replace_in_file(
    name: &str,
    content: &str,
    replacements: &Vec<Replacement>,
    ctx: &Context,
) -> (r: Result<String, FileIssueKind>)
    ensures
        match r {
            Ok(text) => rendered_file(
                name@,
                content@,
                replacements@.map_values(|x: Replacement| x@),
                ctx.vars_view(),
            ) == Ok::<Seq<char>, FileIssueKind>(text@),
            Err(k) => rendered_file(
                name@,
                content@,
                replacements@.map_values(|x: Replacement| x@),
                ctx.vars_view(),
            ) == Err::<Seq<char>, FileIssueKind>(k),
        },
{
    if structured_name(name) {
        match crate::json::parse_structured(content) {
            Some(doc) => {
                let merged_doc = crate::document::merge_document(&doc, replacements, ctx);
                Ok(serialize_document(&merged_doc))
            }
            None => Err(FileIssueKind::ParseFailed),
        }
    } else {
        Ok(replace_in_text(content, replacements, ctx))
    }
}

/// One declared path applied to the running state: a missing or directory
/// path records an issue; a file is rewritten in place, or recorded as an
/// issue if its content cannot be parsed.
pub open spec fn apply_path(
    files: Seq<FsEntryModel>,
    issues: Seq<(Seq<char>, FileIssueKind)>,
    relpath: Seq<char>,
    rs: Seq<ReplacementModel>,
    vars: Seq<(Seq<char>, Seq<char>)>,
) -> (Seq<FsEntryModel>, Seq<(Seq<char>, FileIssueKind)>) {
    let comps = split_on(relpath, '/');
    match find_path(files, comps) {
        None => (files, issues.push((relpath, FileIssueKind::Missing))),
        Some(i) => match files[i].node {
            FsNodeModel::Dir => (files, issues.push((relpath, FileIssueKind::NotAFile))),
            FsNodeModel::File(bytes) => {
                if !valid_utf8(bytes) {
                    (files, issues.push((relpath, FileIssueKind::NotText)))
                } else {
                    match rendered_file(comps.last(), decode_utf8(bytes), rs, vars) {
                        Ok(newtext) => (
                            files.update(
                                i,
                                FsEntryModel {
                                    path: files[i].path,
                                    node: FsNodeModel::File(encode_utf8(newtext)),
                                },
                            ),
                            issues,
                        ),
                        Err(k) => (files, issues.push((relpath, k))),
                    }
                }
            },
        },
    }
}

/// A group's declared paths applied in order.
pub open spec fn apply_paths(
    files: Seq<FsEntryModel>,
    issues: Seq<(Seq<char>, FileIssueKind)>,
    paths: Seq<Seq<char>>,
    rs: Seq<ReplacementModel>,
    vars: Seq<(Seq<char>, Seq<char>)>,
) -> (Seq<FsEntryModel>, Seq<(Seq<char>, FileIssueKind)>)
    decreases paths.len(),
{
    if paths.len() == 0 {
        (files, issues)
    } else {
        let st = apply_path(files, issues, paths[0], rs, vars);
        apply_paths(st.0, st.1, paths.drop_first(), rs, vars)
    }
}

/// The manifest's groups applied in order.
pub open spec fn apply_groups(
    files: Seq<FsEntryModel>,
    issues: Seq<(Seq<char>, FileIssueKind)>,
    groups: Seq<TemplateConfigModel>,
    vars: Seq<(Seq<char>, Seq<char>)>,
) -> (Seq<FsEntryModel>, Seq<(Seq<char>, FileIssueKind)>)
    decreases groups.len(),
{
    if groups.len() == 0 {
        (files, issues)
    } else {
        let st = apply_paths(
            files,
            issues,
            groups[0].files_to_replace,
            groups[0].replacements,
            vars,
        );
        apply_groups(st.0, st.1, groups.drop_first(), vars)
    }
}

/// The manifest file's path inside a template.
pub open spec fn manifest_path() -> Seq<Seq<char>> {
    seq!["template_config.json"@]
}

/// What a whole render yields: the copied tree (exclusions applied) with
/// every declared file rewritten, and the skipped files — or a fatal error
/// when the template has no manifest or the manifest is malformed.
pub open spec fn render_model(
    template: Seq<FsEntryModel>,
    vars: Seq<(Seq<char>, Seq<char>)>,
) -> Result<(Seq<FsEntryModel>, Seq<(Seq<char>, FileIssueKind)>), RenderError> {
    match find_path(template, manifest_path()) {
        None => Err(RenderError::ManifestNotFound),
        Some(mi) => match template[mi].node {
            FsNodeModel::Dir => Err(RenderError::ManifestNotFound),
            FsNodeModel::File(mbytes) => {
                if !valid_utf8(mbytes) {
                    Err(RenderError::ManifestParseError)
                } else {
                    match manifest_of_text(decode_utf8(mbytes)) {
                        None => Err(RenderError::ManifestParseError),
                        Some(groups) => Ok(
                            apply_groups(copy_model(template), Seq::empty(), groups, vars),
                        ),
                    }
                }
            },
        },
    }
}

/// Splits a relative path into its slash-separated components.
fn split_path(relpath: &str) -> (r: Vec<String>)
    ensures
        r@.map_values(|s: String| s@) == split_on(relpath@, '/'),
        r@.len() >= 1,
{
    let cs = chars_of(relpath);
    let pieces = split_on_chars(&cs, '/');
    let ghost piece_views = pieces@.map_values(|p: Vec<char>| p@);
    let mut r: Vec<String> = Vec::new();
    let mut i: usize = 0;
    while i < pieces.len()
        invariant
            piece_views == pieces@.map_values(|p: Vec<char>| p@),
            piece_views == split_on(relpath@, '/'),
            i <= pieces@.len(),
            r@.len() == i,
            r@.map_values(|s: String| s@) == piece_views.take(i as int),
        decreases pieces@.len() - i,
    {
        let ghost prev = r@;
        let s = string_of(&pieces[i]);
        proof {
            assert(piece_views[i as int] == pieces@[i as int]@);
        }
        r.push(s);
        i += 1;
        proof {
            assert(r@.map_values(|s: String| s@) =~= piece_views.take(i as int));
        }
    }
    proof {
        assert(r@.map_values(|s: String| s@) =~= piece_views);
        crate::text::lemma_split_on_len(relpath@, '/');
    }
    r
}

/// Applies one declared path of one group to the running state.
#[verifier::loop_isolation(false)]
fn apply_one_path(
    files: &mut Vec<FsEntry>,
    issues: &mut Vec<FileIssue>,
    relpath: &String,
    replacements: &Vec<Replacement>,
    ctx: &Context,
)
    ensures
        ({
            let st = apply_path(
                tree_view(old(files)@),
                issues_view(old(issues)@),
                relpath@,
                replacements@.map_values(|x: Replacement| x@),
                ctx.vars_view(),
            );
            tree_view(final(files)@) == st.0 && issues_view(final(issues)@) == st.1
        }),
{
    let ghost files0 = tree_view(files@);
    let ghost issues0 = issues_view(issues@);
    let comps = split_path(relpath.as_str());
    let ghost comp_views = split_on(relpath@, '/');
    match find_path_index(files, &comps) {
        None => {
            issues.push(FileIssue { path: relpath.clone(), kind: FileIssueKind::Missing });
            proof {
                assert(issues_view(issues@) =~= issues0.push((relpath@, FileIssueKind::Missing)));
            }
        }
        Some(i) => {
            proof {
                crate::tree::lemma_find_path(files0, comp_views);
                assert(files0[i as int] == files@[i as int]@);
            }
            let name = comps[comps.len() - 1].clone();
            proof {
                assert(name@ == comp_views.last());
            }
            match &files[i].node {
                FsNode::Dir => {
                    issues.push(FileIssue { path: relpath.clone(), kind: FileIssueKind::NotAFile });
                    proof {
                        assert(issues_view(issues@) =~= issues0.push(
                            (relpath@, FileIssueKind::NotAFile),
                        ));
                    }
                }
                FsNode::File { content } => {
                    match bytes_to_text(content) {
                        None => {
                            issues.push(
                                FileIssue { path: relpath.clone(), kind: FileIssueKind::NotText },
                            );
                            proof {
                                assert(issues_view(issues@) =~= issues0.push(
                                    (relpath@, FileIssueKind::NotText),
                                ));
                            }
                        }
                        Some(text) => {
                            match replace_in_file(name.as_str(), text.as_str(), replacements, ctx) {
                                Ok(newtext) => {
                                    let path = duplicate_path(&files[i].path);
                                    let bytes = text_to_bytes(newtext.as_str());
                                    files.set(
                                        i,
                                        FsEntry { path, node: FsNode::File { content: bytes } },
                                    );
                                    proof {
                                        assert(tree_view(files@) =~= files0.update(
                                            i as int,
                                            FsEntryModel {
                                                path: files0[i as int].path,
                                                node: FsNodeModel::File(encode_utf8(newtext@)),
                                            },
                                        ));
                                    }
                                }
                                Err(k) => {
                                    issues.push(FileIssue { path: relpath.clone(), kind: k });
                                    proof {
                                        assert(issues_view(issues@) =~= issues0.push(
                                            (relpath@, k),
                                        ));
                                    }
                                }
                            }
                        }
                    }
                }
            }
        }
    }
}

/// Renders a template tree: copies it (exclusions applied), loads the
/// manifest found inside the template, and rewrites each declared file with
/// its group's rules. Per-file failures are recorded and do not stop the
/// render; a missing or malformed manifest aborts it.
#[verifier::loop_isolation(false)]
pub fn render(template: &Vec<FsEntry>, ctx: &Context) -> (r: Result<RenderOutput, RenderError>)
    ensures
        match r {
            Ok(out) => render_model(tree_view(template@), ctx.vars_view()) == Ok::<
                (Seq<FsEntryModel>, Seq<(Seq<char>, FileIssueKind)>),
                RenderError,
            >((tree_view(out.files@), issues_view(out.issues@))),
            Err(e) => render_model(tree_view(template@), ctx.vars_view()) == Err::<
                (Seq<FsEntryModel>, Seq<(Seq<char>, FileIssueKind)>),
                RenderError,
            >(e),
        },
{
    let ghost tv = tree_view(template@);
    let ghost vars = ctx.vars_view();
    let mut mpath: Vec<String> = Vec::new();
    mpath.push("template_config.json".to_owned());
    proof {
        assert(mpath@.map_values(|s: String| s@) =~= manifest_path());
    }
    let mi = match find_path_index(template, &mpath) {
        Some(mi) => mi,
        None => {
            return Err(RenderError::ManifestNotFound);
        }
    };
    proof {
        crate::tree::lemma_find_path(tv, manifest_path());
        assert(tv[mi as int] == template@[mi as int]@);
    }
    let mtext = match &template[mi].node {
        FsNode::File { content } => match bytes_to_text(content) {
            Some(t) => t,
            None => {
                return Err(RenderError::ManifestParseError);
            }
        },
        FsNode::Dir => {
            return Err(RenderError::ManifestNotFound);
        }
    };
    let groups = match read_template_config(mtext.as_str()) {
        Ok(groups) => groups,
        Err(_) => {
            return Err(RenderError::ManifestParseError);
        }
    };
    let ghost groups_v = groups@.map_values(|g: TemplateConfig| g@);
    let mut files = copy_tree(template);
    let mut issues: Vec<FileIssue> = Vec::new();
    let ghost target = apply_groups(copy_model(tv), Seq::empty(), groups_v, vars);
    proof {
        assert(issues_view(issues@) =~= Seq::<(Seq<char>, FileIssueKind)>::empty());
        assert(groups_v.skip(0) =~= groups_v);
    }
    let mut gi: usize = 0;
    while gi < groups.len()
        invariant
            gi <= groups_v.len(),
            target == apply_groups(
                tree_view(files@),
                issues_view(issues@),
                groups_v.skip(gi as int),
                vars,
            ),
        decreases groups_v.len() - gi,
    {
        let ghost grest = groups_v.skip(gi as int);
        proof {
            assert(grest[0] == groups_v[gi as int]);
            assert(groups_v[gi as int] == groups@[gi as int]@);
            assert(grest.drop_first() =~= groups_v.skip(gi as int + 1));
        }
        let group = &groups[gi];
        let ghost paths_v = groups_v[gi as int].files_to_replace;
        let ghost rs_v = groups_v[gi as int].replacements;
        proof {
            assert(paths_v.skip(0) =~= paths_v);
        }
        let mut pi: usize = 0;
        while pi < group.files_to_replace.len()
            invariant
                pi <= paths_v.len(),
                paths_v.len() == group.files_to_replace@.len(),
                ({
                    let st = apply_paths(
                        tree_view(files@),
                        issues_view(issues@),
                        paths_v.skip(pi as int),
                        rs_v,
                        vars,
                    );
                    target == apply_groups(st.0, st.1, groups_v.skip(gi as int + 1), vars)
                }),
            decreases paths_v.len() - pi,
        {
            let ghost prest = paths_v.skip(pi as int);
            proof {
                assert(prest[0] == paths_v[pi as int]);
                assert(paths_v[pi as int] == group.files_to_replace@[pi as int]@);
                assert(prest.drop_first() =~= paths_v.skip(pi as int + 1));
            }
            apply_one_path(
                &mut files,
                &mut issues,
                &group.files_to_replace[pi],
                &group.replacements,
                ctx,
            );
            pi += 1;
        }
        proof {
            assert(paths_v.skip(paths_v.len() as int) =~= Seq::<Seq<char>>::empty());
        }
        gi += 1;
    }
    proof {
        assert(groups_v.skip(groups_v.len() as int) =~= Seq::<TemplateConfigModel>::empty());
    }
    Ok(RenderOutput { files, issues })
}

} // verus!
