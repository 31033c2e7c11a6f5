//! An in-memory file tree: a list of entries, each a slash-free component
//! path with either a directory marker or file content held as raw bytes, so
//! that binary template files pass through untouched. The copier keeps every
//! entry none of whose components is excluded, preserving order and content
//! byte for byte, and never lets an excluded name into the result at any
//! depth.

use vstd::prelude::*;

use crate::exclusion::{is_excluded, is_excluded_name};
use crate::text::str_eq;

verus! {

/// A node of the tree: a directory, or a file with its raw bytes.
#[derive(Debug)]
pub enum FsNode {
    Dir,
    File { content: Vec<u8> },
}

/// The mathematical shape of a node.
pub enum FsNodeModel {
    Dir,
    File(Seq<u8>),
}

impl View for FsNode {
    type V = FsNodeModel;

    open spec fn view(&self) -> FsNodeModel {
        match self {
            FsNode::Dir => FsNodeModel::Dir,
            FsNode::File { content } => FsNodeModel::File(content@),
        }
    }
}

/// One entry of a tree: its path as components from the root, and its node.
#[derive(Debug)]
pub struct FsEntry {
    pub path: Vec<String>,
    pub node: FsNode,
}

/// The mathematical shape of an entry.
pub struct FsEntryModel {
    pub path: Seq<Seq<char>>,
    pub node: FsNodeModel,
}

impl View for FsEntry {
    type V = FsEntryModel;

    open spec fn view(&self) -> FsEntryModel {
        FsEntryModel { path: self.path@.map_values(|s: String| s@), node: self.node@ }
    }
}

/// The shape of a whole tree.
pub open spec fn tree_view(entries: Seq<FsEntry>) -> Seq<FsEntryModel> {
    entries.map_values(|e: FsEntry| e@)
}

/// Whether any component of the path is an excluded name.
pub open spec fn is_excluded_path(path: Seq<Seq<char>>) -> bool {
    exists|i: int| 0 <= i < path.len() && is_excluded_name(path[i])
}

/// Whether any component of `path` is an excluded name.
pub fn path_excluded(path: &Vec<String>) -> (r: bool)
    ensures
        r == is_excluded_path(path@.map_values(|s: String| s@)),
{
    let ghost pv = path@.map_values(|s: String| s@);
    let mut i: usize = 0;
    while i < path.len()
        invariant
            pv == path@.map_values(|s: String| s@),
            i <= path@.len(),
            forall|j: int| 0 <= j < i ==> !is_excluded_name(pv[j]),
        decreases path@.len() - i,
    {
        proof {
            assert(pv[i as int] == path@[i as int]@);
        }
        if is_excluded(path[i].as_str()) {
            proof {
                assert(is_excluded_name(pv[i as int]));
            }
            return true;
        }
        i += 1;
    }
    proof {
        if is_excluded_path(pv) {
            let w = choose|w: int| 0 <= w < pv.len() && is_excluded_name(pv[w]);
            assert(!is_excluded_name(pv[w]));
        }
    }
    false
}

/// An equal copy of a path.
pub fn duplicate_path(path: &Vec<String>) -> (r: Vec<String>)
    ensures
        r@.map_values(|s: String| s@) == path@.map_values(|s: String| s@),
{
    let mut r: Vec<String> = Vec::new();
    let mut i: usize = 0;
    while i < path.len()
        invariant
            i <= path@.len(),
            r@ == path@.take(i as int),
        decreases path@.len() - i,
    {
        r.push(path[i].clone());
        i += 1;
        proof {
            assert(r@ =~= path@.take(i as int));
        }
    }
    proof {
        assert(r@ =~= path@);
    }
    r
}

impl FsEntry {
    /// An equal copy of this entry.
    pub fn duplicate(&self) -> (r: FsEntry)
        ensures
            r@ == self@,
    {
        let path = duplicate_path(&self.path);
        let node = match &self.node {
            FsNode::Dir => FsNode::Dir,
            FsNode::File { content } => FsNode::File {
                content: crate::text::duplicate_bytes(content),
            },
        };
        let r = FsEntry { path, node };
        proof {
            assert(r@.path =~= self@.path);
        }
        r
    }
}

/// What copying keeps: the entries whose paths have no excluded component,
/// in their original order, each byte for byte unchanged.
pub open spec fn copy_model(es: Seq<FsEntryModel>) -> Seq<FsEntryModel>
    decreases es.len(),
{
    if es.len() == 0 {
        Seq::empty()
    } else if is_excluded_path(es[0].path) {
        copy_model(es.drop_first())
    } else {
        seq![es[0]] + copy_model(es.drop_first())
    }
}

/// Copies a template tree: every entry is kept byte for byte in order,
/// except that an entry with an excluded directory or file name anywhere in
/// its path is skipped — no excluded name ever appears in the result, at any
/// depth.
pub fn copy_tree(template: &Vec<FsEntry>) -> (r: Vec<FsEntry>)
    ensures
        tree_view(r@) == copy_model(tree_view(template@)),
        forall|i: int| 0 <= i < r@.len() ==> !is_excluded_path(tree_view(r@)[i].path),
{
    let ghost tv = tree_view(template@);
    let mut out: Vec<FsEntry> = Vec::new();
    let mut i: usize = 0;
    proof {
        assert(tv.skip(0) =~= tv);
        assert(tree_view(out@) + copy_model(tv) =~= copy_model(tv));
    }
    while i < template.len()
        invariant
            tv == tree_view(template@),
            i <= template@.len(),
            copy_model(tv) == tree_view(out@) + copy_model(tv.skip(i as int)),
            forall|j: int| 0 <= j < out@.len() ==> !is_excluded_path(tree_view(out@)[j].path),
        decreases template@.len() - i,
    {
        let ghost rest = tv.skip(i as int);
        let ghost prev = tree_view(out@);
        proof {
            assert(rest[0] == tv[i as int]);
            assert(tv[i as int] == template@[i as int]@);
            assert(rest.drop_first() =~= tv.skip(i + 1));
        }
        if !path_excluded(&template[i].path) {
            out.push(template[i].duplicate());
            proof {
                assert(tree_view(out@) =~= prev + seq![tv[i as int]]);
                assert(prev + (seq![tv[i as int]] + copy_model(tv.skip(i + 1))) =~= tree_view(out@)
                    + copy_model(tv.skip(i + 1)));
            }
        }
        i += 1;
    }
    proof {
        assert(tv.skip(template@.len() as int) =~= Seq::<FsEntryModel>::empty());
        assert(tree_view(out@) + copy_model(tv.skip(template@.len() as int)) =~= tree_view(out@));
    }
    out
}

/// The index of the first entry with the given path, if any.
pub open spec fn find_path(es: Seq<FsEntryModel>, path: Seq<Seq<char>>) -> Option<int>
    decreases es.len(),
{
    if es.len() == 0 {
        None
    } else if es[0].path == path {
        Some(0)
    } else {
        match find_path(es.drop_first(), path) {
            Some(i) => Some(i + 1),
            None => None,
        }
    }
}

/// What `find_path` returns, characterised positionally.
pub proof fn lemma_find_path(es: Seq<FsEntryModel>, path: Seq<Seq<char>>)
    ensures
        match find_path(es, path) {
            Some(i) => 0 <= i < es.len() && es[i].path == path && (forall|j: int|
                0 <= j < i ==> es[j].path != path),
            None => forall|j: int| 0 <= j < es.len() ==> es[j].path != path,
        },
    decreases es.len(),
{
    if es.len() == 0 {
    } else if es[0].path == path {
        assert(find_path(es, path) == Some(0int));
    } else {
        lemma_find_path(es.drop_first(), path);
        assert(es.drop_first().len() == es.len() - 1);
        match find_path(es.drop_first(), path) {
            Some(i) => {
                assert(find_path(es, path) == Some(i + 1));
                assert(es[i + 1] == es.drop_first()[i]);
                assert forall|j: int| 0 <= j < i + 1 implies es[j].path != path by {
                    if j > 0 {
                        assert(es[j] == es.drop_first()[j - 1]);
                    }
                }
            }
            None => {
                assert(find_path(es, path) is None);
                assert forall|j: int| 0 <= j < es.len() implies es[j].path != path by {
                    if j > 0 {
                        assert(es[j] == es.drop_first()[j - 1]);
                    }
                }
            }
        }
    }
}

/// A position that matches `find_path`'s characterisation is what it
/// returns.
pub proof fn lemma_find_path_at(es: Seq<FsEntryModel>, path: Seq<Seq<char>>, i: int)
    requires
        0 <= i < es.len(),
        es[i].path == path,
        forall|j: int| 0 <= j < i ==> es[j].path != path,
    ensures
        find_path(es, path) == Some(i),
    decreases i,
{
    if i > 0 {
        lemma_find_path_at(es.drop_first(), path, i - 1);
    }
}

/// Whether two paths hold the same components.
pub fn paths_eq(a: &Vec<String>, b: &Vec<String>) -> (r: bool)
    ensures
        r == (a@.map_values(|s: String| s@) == b@.map_values(|s: String| s@)),
{
    let ghost av = a@.map_values(|s: String| s@);
    let ghost bv = b@.map_values(|s: String| s@);
    if a.len() != b.len() {
        proof {
            assert(av.len() != bv.len());
        }
        return false;
    }
    let mut i: usize = 0;
    while i < a.len()
        invariant
            av == a@.map_values(|s: String| s@),
            bv == b@.map_values(|s: String| s@),
            av.len() == a@.len(),
            bv.len() == b@.len(),
            a@.len() == b@.len(),
            i <= a@.len(),
            forall|j: int| 0 <= j < i ==> av[j] == bv[j],
        decreases a@.len() - i,
    {
        proof {
            assert(av[i as int] == a@[i as int]@);
            assert(bv[i as int] == b@[i as int]@);
        }
        if !str_eq(a[i].as_str(), b[i].as_str()) {
            proof {
                assert(av[i as int] != bv[i as int]);
            }
            return false;
        }
        i += 1;
    }
    proof {
        assert(av =~= bv);
    }
    true
}

/// The index of the first entry of `entries` with the given path, if any.
pub fn find_path_index(entries: &Vec<FsEntry>, path: &Vec<String>) -> (r: Option<usize>)
    ensures
        match r {
            Some(i) => find_path(tree_view(entries@), path@.map_values(|s: String| s@)) == Some(
                i as int,
            ),
            None => find_path(tree_view(entries@), path@.map_values(|s: String| s@)) is None,
        },
{
    let ghost es = tree_view(entries@);
    let ghost pv = path@.map_values(|s: String| s@);
    let mut i: usize = 0;
    while i < entries.len()
        invariant
            es == tree_view(entries@),
            pv == path@.map_values(|s: String| s@),
            i <= entries@.len(),
            es.len() == entries@.len(),
            forall|j: int| 0 <= j < i ==> es[j].path != pv,
        decreases entries@.len() - i,
    {
        proof {
            assert(es[i as int] == entries@[i as int]@);
        }
        if paths_eq(&entries[i].path, path) {
            proof {
                lemma_find_path_at(es, pv, i as int);
            }
            return Some(i);
        }
        i += 1;
    }
    proof {
        lemma_find_path(es, pv);
        if find_path(es, pv) is Some {
            let w = find_path(es, pv).unwrap();
            assert(es[w].path != pv);
        }
    }
    None
}

/// Whether a file name marks its file as structured: it ends in `.json` with
/// a non-empty stem.
pub open spec fn is_structured_name(name: Seq<char>) -> bool {
    name.len() > 5 && name.subrange(name.len() - 5, name.len() as int) == seq![
        '.',
        'j',
        's',
        'o',
        'n',
    ]
}

/// Whether a file name marks its file as structured.
pub fn structured_name(name: &str) -> (r: bool)
    ensures
        r == is_structured_name(name@),
{
    let cs = crate::text::chars_of(name);
    let n = cs.len();
    if n <= 5 {
        return false;
    }
    let r = cs[n - 5] == '.' && cs[n - 4] == 'j' && cs[n - 3] == 's' && cs[n - 2] == 'o' && cs[n
        - 1] == 'n';
    proof {
        let suffix = name@.subrange(name@.len() - 5, name@.len() as int);
        assert(suffix.len() == 5);
        if r {
            assert(suffix =~= seq!['.', 'j', 's', 'o', 'n']);
        } else {
            if suffix == seq!['.', 'j', 's', 'o', 'n'] {
                assert(suffix[0] == '.' && suffix[1] == 'j' && suffix[2] == 's' && suffix[3] == 'o'
                    && suffix[4] == 'n');
            }
        }
    }
    r
}

} // verus!
