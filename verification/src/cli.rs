//! Decisions of the command-line layer that are pure: which template the
//! invocation names, and reading a template back out of a displayed selection
//! line. Prompting itself lives outside the engine.

use vstd::prelude::*;

use crate::args::Args;
use crate::file_config::FileConfig;
use crate::text::{chars_of, string_of};

verus! {

/// The template an invocation names: the configuration file's choice when a
/// configuration is given (nothing when it names no template), else the
/// explicit category and template options, else nothing — the caller then
/// has to ask.
pub fn get_template_info(args: &Args, config: Option<&FileConfig>) -> (r: Option<(String, String)>)
    ensures
        match config {
            Some(c) => match r {
                Some(p) => c@.template_category == Some(p.0@) && c@.template_name == Some(p.1@),
                None => c@.template_category is None || c@.template_name is None,
            },
            None => match (&args.category, &args.template) {
                (Some(cat), Some(t)) => r matches Some(p) && p.0@ == cat@ && p.1@ == t@,
                _ => r is None,
            },
        },
{
    match config {
        Some(c) => c.get_template_info(),
        None => match (&args.category, &args.template) {
            (Some(cat), Some(t)) => Some((cat.clone(), t.clone())),
            _ => None,
        },
    }
}

/// Whether a selection separator starts at position `i`.
pub open spec fn is_sep_at(s: Seq<char>, i: int) -> bool {
    0 <= i && i + 2 <= s.len() && s[i] == ' ' && s[i + 1] == '('
}

/// `s` without its trailing closing parentheses.
pub open spec fn trim_trailing_parens(s: Seq<char>) -> Seq<char>
    decreases s.len(),
{
    if s.len() > 0 && s.last() == ')' {
        trim_trailing_parens(s.drop_last())
    } else {
        s
    }
}

/// The category and name a displayed selection line holds: a line of the
/// form `name (category)` — exactly one ` (` separator — parses back into
/// `(category, name)`, the category stripped of trailing parentheses.
pub open spec fn selection_of(s: Seq<char>) -> Option<(Seq<char>, Seq<char>)> {
    if exists|i: int| is_sep_at(s, i) && (forall|j: int| is_sep_at(s, j) ==> j == i) {
        let i = choose|i: int| is_sep_at(s, i) && (forall|j: int| is_sep_at(s, j) ==> j == i);
        Some((trim_trailing_parens(s.skip(i + 2)), s.take(i)))
    } else {
        None
    }
}

proof fn lemma_trim_parens_take(s: Seq<char>, hi: int)
    requires
        0 <= hi <= s.len(),
        forall|j: int| hi <= j < s.len() ==> s[j] == ')',
        hi > 0 ==> s[hi - 1] != ')',
    ensures
        trim_trailing_parens(s) == s.take(hi),
    decreases s.len() - hi,
{
    if hi == s.len() {
        assert(s.take(hi) =~= s);
    } else {
        assert(s.last() == ')');
        lemma_trim_parens_take(s.drop_last(), hi);
        assert(s.drop_last().take(hi) =~= s.take(hi));
    }
}

/// Reads a displayed selection line back into `(category, name)`: the line
/// must hold exactly one ` (` separator; the name is what precedes it, the
/// category what follows it with trailing parentheses stripped.
#[verifier::loop_isolation(false)]
pub fn parse_template_selection(selected: &str) -> (r: Option<(String, String)>)
    ensures
        match r {
            Some(p) => selection_of(selected@) == Some((p.0@, p.1@)),
            None => selection_of(selected@) is None,
        },
{
    let cs = chars_of(selected);
    let n = cs.len();
    let mut first: Option<usize> = None;
    let mut count: usize = 0;
    let mut i: usize = 0;
    while i < n
        invariant
            i <= n,
            count <= i,
            match first {
                Some(p) => {
                    &&& count >= 1
                    &&& p < i
                    &&& is_sep_at(selected@, p as int)
                    &&& forall|j: int| 0 <= j < p ==> !is_sep_at(selected@, j)
                    &&& (count == 1 ==> forall|j: int| 0 <= j < i && j != p ==> !is_sep_at(
                        selected@,
                        j,
                    ))
                    &&& (count >= 2 ==> exists|q: int|
                        p < q < i && is_sep_at(selected@, q))
                },
                None => count == 0 && forall|j: int| 0 <= j < i ==> !is_sep_at(selected@, j),
            },
        decreases n - i,
    {
        if i + 1 < n && cs[i] == ' ' && cs[i + 1] == '(' {
            proof {
                assert(is_sep_at(selected@, i as int));
            }
            if first.is_none() {
                first = Some(i);
            }
            count += 1;
        } else {
            proof {
                assert(!is_sep_at(selected@, i as int));
            }
        }
        i += 1;
    }
    proof {
        assert(forall|j: int| is_sep_at(selected@, j) ==> 0 <= j < n);
    }
    let p = match first {
        Some(p) => p,
        None => {
            proof {
                if selection_of(selected@) is Some {
                    let w = choose|w: int|
                        is_sep_at(selected@, w) && (forall|j: int|
                            is_sep_at(selected@, j) ==> j == w);
                    assert(!is_sep_at(selected@, w));
                }
            }
            return None;
        }
    };
    if count != 1 {
        proof {
            let q = choose|q: int| p < q < n && is_sep_at(selected@, q);
            if selection_of(selected@) is Some {
                let w = choose|w: int|
                    is_sep_at(selected@, w) && (forall|j: int| is_sep_at(selected@, j) ==> j == w);
                assert(p as int == w);
                assert(q == w);
            }
        }
        return None;
    }
    proof {
        assert(is_sep_at(selected@, p as int) && (forall|j: int|
            is_sep_at(selected@, j) ==> j == p as int));
        let w = choose|w: int|
            is_sep_at(selected@, w) && (forall|j: int| is_sep_at(selected@, j) ==> j == w);
        assert(w == p as int);
    }
    let mut name_cs: Vec<char> = Vec::new();
    let mut i: usize = 0;
    while i < p
        invariant
            p < n,
            n == selected@.len(),
            cs@ == selected@,
            i <= p,
            name_cs@ == selected@.take(i as int),
        decreases p - i,
    {
        name_cs.push(cs[i]);
        i += 1;
        proof {
            assert(name_cs@ =~= selected@.take(i as int));
        }
    }
    let mut e: usize = n;
    while e > p + 2 && cs[e - 1] == ')'
        invariant
            p + 2 <= e <= n,
            forall|j: int| e <= j < n ==> selected@[j] == ')',
        decreases e,
    {
        e -= 1;
    }
    proof {
        let tail = selected@.skip(p + 2);
        lemma_trim_parens_take(tail, e - (p + 2));
        assert(tail.take(e - (p + 2)) =~= selected@.subrange(p + 2, e as int));
    }
    let mut cat_cs: Vec<char> = Vec::new();
    let mut i: usize = p + 2;
    while i < e
        invariant
            p + 2 <= i <= e <= n,
            n == selected@.len(),
            cs@ == selected@,
            cat_cs@ == selected@.subrange(p + 2, i as int),
        decreases e - i,
    {
        cat_cs.push(cs[i]);
        i += 1;
        proof {
            assert(cat_cs@ =~= selected@.subrange(p + 2, i as int));
        }
    }
    let category = string_of(&cat_cs);
    let name = string_of(&name_cs);
    Some((category, name))
}

} // verus!
