//! Name validation: a project name is lower case, starts with a letter and
//! continues with letters, digits, hyphens or underscores; a package name is
//! lower-case letters, digits and hyphens, optionally scoped as
//! `@scope/name`.

use vstd::prelude::*;

use crate::text::chars_of;

verus! {

/// A lower-case letter.
pub open spec fn is_lower(c: char) -> bool {
    'a' <= c <= 'z'
}

/// A decimal digit.
pub open spec fn is_digit(c: char) -> bool {
    '0' <= c <= '9'
}

/// A character allowed after the first of a project name.
pub open spec fn is_project_char(c: char) -> bool {
    is_lower(c) || is_digit(c) || c == '_' || c == '-'
}

/// A valid project name: non-empty, a lower-case letter first, then letters,
/// digits, hyphens or underscores.
pub open spec fn valid_project_name(s: Seq<char>) -> bool {
    s.len() > 0 && is_lower(s[0]) && forall|i: int| 1 <= i < s.len() ==> is_project_char(s[i])
}

/// Whether `c` may continue a project name.
fn project_char(c: char) -> (r: bool)
    ensures
        r == is_project_char(c),
{
    ('a' <= c && c <= 'z') || ('0' <= c && c <= '9') || c == '_' || c == '-'
}

/// True exactly for valid project names: lower case, starting with a letter,
/// continuing with letters, digits, hyphens or underscores.
pub fn validate_project_name(input: &str) -> (r: bool)
    ensures
        r == valid_project_name(input@),
{
    let cs = chars_of(input);
    let n = cs.len();
    if n == 0 {
        return false;
    }
    let c0 = cs[0];
    if !('a' <= c0 && c0 <= 'z') {
        return false;
    }
    let mut i: usize = 1;
    while i < n
        invariant
            n == input@.len(),
            cs@ == input@,
            1 <= i <= n,
            forall|j: int| 1 <= j < i ==> is_project_char(input@[j]),
        decreases n - i,
    {
        if !project_char(cs[i]) {
            return false;
        }
        i += 1;
    }
    true
}

/// A character allowed in a package name or scope.
pub open spec fn is_package_char(c: char) -> bool {
    is_lower(c) || is_digit(c) || c == '-'
}

/// A scoped package name split at position `k`: `@`, a non-empty scope of
/// package characters, a slash at `k`, a non-empty name of package
/// characters.
pub open spec fn scoped_at(s: Seq<char>, k: int) -> bool {
    &&& 2 <= k <= s.len() - 2
    &&& s[k] == '/'
    &&& forall|j: int| 1 <= j < k ==> is_package_char(s[j])
    &&& forall|j: int| k < j < s.len() ==> is_package_char(s[j])
}

/// A valid package name: lower-case letters, digits and hyphens, optionally
/// scoped as `@scope/name` with both parts non-empty.
pub open spec fn valid_package_name(s: Seq<char>) -> bool {
    if s.len() > 0 && s[0] == '@' {
        exists|k: int| scoped_at(s, k)
    } else {
        s.len() > 0 && forall|i: int| 0 <= i < s.len() ==> is_package_char(s[i])
    }
}

/// Whether `c` may appear in a package name.
fn package_char(c: char) -> (r: bool)
    ensures
        r == is_package_char(c),
{
    ('a' <= c && c <= 'z') || ('0' <= c && c <= '9') || c == '-'
}

/// True exactly for valid package names: lower case, digits and hyphens,
/// optionally scoped as `@scope/name`.
#[verifier::loop_isolation(false)]
pub fn validate_package_name(input: &str) -> (r: bool)
    ensures
        r == valid_package_name(input@),
{
    let cs = chars_of(input);
    let n = cs.len();
    if n == 0 {
        return false;
    }
    if cs[0] != '@' {
        let mut i: usize = 0;
        while i < n
            invariant
                n == input@.len(),
                cs@ == input@,
                i <= n,
                forall|j: int| 0 <= j < i ==> is_package_char(input@[j]),
            decreases n - i,
        {
            if !package_char(cs[i]) {
                return false;
            }
            i += 1;
        }
        return true;
    }
    let mut k: usize = 1;
    while k < n && cs[k] != '/'
        invariant
            n == input@.len(),
            cs@ == input@,
            1 <= k <= n,
            forall|j: int| 1 <= j < k ==> input@[j] != '/',
        decreases n - k,
    {
        k += 1;
    }
    if k == n {
        proof {
            assert forall|k2: int| !scoped_at(input@, k2) by {
                if scoped_at(input@, k2) {
                    assert(input@[k2] == '/');
                }
            }
        }
        return false;
    }
    let slash: usize = k;
    let ghost sl = slash as int;
    proof {
        assert(input@[sl] == '/');
    }
    if slash < 2 || slash > n - 2 {
        proof {
            assert forall|k2: int| !scoped_at(input@, k2) by {
                if scoped_at(input@, k2) {
                    if k2 < sl {
                        assert(input@[k2] != '/');
                    } else if k2 > sl {
                        assert(is_package_char(input@[sl]));
                    }
                }
            }
        }
        return false;
    }
    let mut i: usize = 1;
    while i < slash
        invariant
            1 <= i <= slash,
            forall|j: int| 1 <= j < i ==> is_package_char(input@[j]),
        decreases slash - i,
    {
        if !package_char(cs[i]) {
            proof {
                let bad = i as int;
                assert forall|k2: int| !scoped_at(input@, k2) by {
                    if scoped_at(input@, k2) {
                        if k2 < sl {
                            assert(input@[k2] != '/');
                        } else if k2 > sl {
                            assert(is_package_char(input@[sl]));
                        } else {
                            assert(is_package_char(input@[bad]));
                        }
                    }
                }
            }
            return false;
        }
        i += 1;
    }
    let mut m: usize = slash + 1;
    while m < n
        invariant
            slash + 1 <= m <= n,
            forall|j: int| sl < j < m ==> is_package_char(input@[j]),
        decreases n - m,
    {
        if !package_char(cs[m]) {
            proof {
                let bad = m as int;
                assert forall|k2: int| !scoped_at(input@, k2) by {
                    if scoped_at(input@, k2) {
                        if k2 < sl {
                            assert(input@[k2] != '/');
                        } else if k2 > sl {
                            assert(is_package_char(input@[sl]));
                        } else {
                            assert(is_package_char(input@[bad]));
                        }
                    }
                }
            }
            return false;
        }
        m += 1;
    }
    proof {
        assert(scoped_at(input@, sl));
    }
    true
}

} // verus!
