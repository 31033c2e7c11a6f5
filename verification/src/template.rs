//! The template repository on disk: the engine only forms paths inside it;
//! cloning the repository and listing its directories are the caller's
//! concern.

use vstd::prelude::*;

use crate::text::{chars_of, push_all, string_of};

verus! {

/// A checked-out template repository.
pub struct TemplateManager {
    pub repo_path: String,
}

impl TemplateManager {
    /// A manager over an already checked-out repository root.
    pub fn new(repo_path: String) -> (r: TemplateManager)
        ensures
            r.repo_path == repo_path,
    {
        TemplateManager { repo_path }
    }

    /// The path of one template inside the repository:
    /// `<root>/<category>/<template>`.
    pub fn get_template_path(&self, category: &str, template: &str) -> (r: String)
        ensures
            r@ == self.repo_path@ + seq!['/'] + category@ + seq!['/'] + template@,
    {
        let mut out = chars_of(self.repo_path.as_str());
        out.push('/');
        let c = chars_of(category);
        push_all(&mut out, &c);
        out.push('/');
        let t = chars_of(template);
        push_all(&mut out, &t);
        proof {
            assert(out@ =~= self.repo_path@ + seq!['/'] + category@ + seq!['/'] + template@);
        }
        string_of(&out)
    }
}

} // verus!
