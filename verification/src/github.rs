//! The repository-creation side the engine touches: holding the token and
//! deriving the organization name from the configured repository page. The
//! network calls themselves live outside the engine.

use vstd::prelude::*;

use crate::config::REPO_URL;
use crate::text::{chars_of, string_of};

verus! {

/// A handle on the repository service: just the token; every call made with
/// it lives outside the engine.
pub struct GitHubRepo {
    pub token: String,
}

impl GitHubRepo {
    /// A handle holding the given token.
    pub fn new(token: &str) -> (r: GitHubRepo)
        ensures
            r.token@ == token@,
    {
        GitHubRepo { token: token.to_owned() }
    }
}

/// What follows the last occurrence of `c` in `s`; all of `s` when `c` does
/// not occur.
pub open spec fn after_last(s: Seq<char>, c: char) -> Seq<char>
    decreases s.len(),
{
    if s.len() == 0 {
        Seq::empty()
    } else if s.last() == c {
        Seq::empty()
    } else {
        after_last(s.drop_last(), c) + seq![s.last()]
    }
}

proof fn lemma_after_last_skip(s: Seq<char>, c: char, start: int)
    requires
        0 <= start <= s.len(),
        forall|j: int| start <= j < s.len() ==> s[j] != c,
        start > 0 ==> s[start - 1] == c,
    ensures
        after_last(s, c) == s.skip(start),
    decreases s.len(),
{
    if s.len() == 0 {
        assert(s.skip(0) =~= s);
    } else if start == s.len() {
        assert(s.last() == c);
        assert(s.skip(start) =~= Seq::<char>::empty());
    } else {
        assert(s.last() != c);
        lemma_after_last_skip(s.drop_last(), c, start);
        assert(s.drop_last().skip(start) + seq![s.last()] =~= s.skip(start));
    }
}

/// The organization name: the segment of the configured repository page
/// after its last slash.
pub fn extract_organization_from_repo_url() -> (r: String)
    ensures
        r@ == after_last(REPO_URL@, '/'),
{
    let cs = chars_of(REPO_URL);
    let n = cs.len();
    let mut start: usize = n;
    while start > 0 && cs[start - 1] != '/'
        invariant
            n == cs@.len(),
            start <= n,
            forall|j: int| start <= j < n ==> cs@[j] != '/',
        decreases start,
    {
        start -= 1;
    }
    proof {
        lemma_after_last_skip(cs@, '/', start as int);
    }
    let mut out: Vec<char> = Vec::new();
    let mut i: usize = start;
    while i < n
        invariant
            n == cs@.len(),
            start <= i <= n,
            out@ == cs@.subrange(start as int, i as int),
        decreases n - i,
    {
        out.push(cs[i]);
        i += 1;
        proof {
            assert(out@ =~= cs@.subrange(start as int, i as int));
        }
    }
    proof {
        assert(out@ =~= cs@.skip(start as int));
    }
    string_of(&out)
}

} // verus!
