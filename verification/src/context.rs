//! The variable context of one render: an explicit name-to-value mapping
//! passed by reference into the engine, together with the debug flag of the
//! surrounding session. Values are immutable during a render.

use vstd::prelude::*;

use crate::text::str_eq;

verus! {

/// The first value bound to `name` in `vars`, if any.
pub open spec fn lookup(vars: Seq<(Seq<char>, Seq<char>)>, name: Seq<char>) -> Option<Seq<char>>
    decreases vars.len(),
{
    if vars.len() == 0 {
        None
    } else if vars[0].0 == name {
        Some(vars[0].1)
    } else {
        lookup(vars.drop_first(), name)
    }
}

/// A variable-name to string-value mapping supplied by the caller for the
/// duration of one render, plus the session's debug flag.
pub struct Context {
    pub vars: Vec<(String, String)>,
    pub debug: bool,
}

impl Context {
    /// The bindings, as the engine's contracts see them.
    pub open spec fn vars_view(&self) -> Seq<(Seq<char>, Seq<char>)> {
        self.vars@.map_values(|e: (String, String)| (e.0@, e.1@))
    }

    /// The value the context gives to `name`, if any.
    pub open spec fn spec_get(&self, name: Seq<char>) -> Option<Seq<char>> {
        lookup(self.vars_view(), name)
    }

    /// An empty context with debug output off.
    pub fn new() -> (r: Context)
        ensures
            r.vars_view() == Seq::<(Seq<char>, Seq<char>)>::empty(),
            !r.debug,
    {
        let r = Context { vars: Vec::new(), debug: false };
        proof {
            assert(r.vars_view() =~= Seq::<(Seq<char>, Seq<char>)>::empty());
        }
        r
    }

    /// Replaces all bindings of this context.
    pub fn set_variables(&mut self, vars: Vec<(String, String)>)
        ensures
            final(self).vars_view() == vars@.map_values(|e: (String, String)| (e.0@, e.1@)),
            final(self).debug == old(self).debug,
    {
        self.vars = vars;
    }

    /// The value bound to `key`, or `None` when the context has no such
    /// variable.
    pub fn get_variable(&self, key: &str) -> (r: Option<String>)
        ensures
            match r {
                Some(v) => self.spec_get(key@) == Some(v@),
                None => self.spec_get(key@) is None,
            },
    {
        let mut i: usize = 0;
        proof {
            assert(self.vars_view().skip(0) =~= self.vars_view());
        }
        while i < self.vars.len()
            invariant
                i <= self.vars@.len(),
                lookup(self.vars_view().skip(i as int), key@) == self.spec_get(key@),
                forall|j: int| 0 <= j < i ==> self.vars_view()[j].0 != key@,
            decreases self.vars@.len() - i,
        {
            let ghost rest = self.vars_view().skip(i as int);
            proof {
                assert(rest[0] == self.vars_view()[i as int]);
                assert(rest.drop_first() =~= self.vars_view().skip(i + 1));
            }
            if str_eq(self.vars[i].0.as_str(), key) {
                return Some(self.vars[i].1.clone());
            }
            i += 1;
        }
        proof {
            assert(self.vars_view().skip(self.vars@.len() as int)
                =~= Seq::<(Seq<char>, Seq<char>)>::empty());
        }
        None
    }

    /// Turns debug output on or off.
    pub fn set_debug_mode(&mut self, debug: bool)
        ensures
            final(self).debug == debug,
            final(self).vars_view() == old(self).vars_view(),
    {
        self.debug = debug;
    }

    /// Whether debug output is on.
    pub fn is_debug_mode(&self) -> (r: bool)
        ensures
            r == self.debug,
    {
        self.debug
    }
}

} // verus!
