//! The template manager: loads template files for one target domain and
//! holds the resulting probe definitions for the run.

use vstd::prelude::*;
use vstd::string::StrSliceExecFns;
use crate::secrets::SecretStore;
use crate::template::{
    process_template_content, spec_process_template, Template, TemplateError, TemplateV,
};
use crate::text::{ends_with_str, is_suffix};

verus! {

/// Mathematical value of a `TemplateManager`.
pub struct ManagerV {
    pub templates: Seq<TemplateV>,
    pub pending: Seq<Seq<char>>,
    pub domain: Seq<char>,
    pub threads: i32,
}

/// Holds the loaded templates, the pending template file paths, the target
/// domain and the concurrency setting of one run.
pub struct TemplateManager {
    templates: Vec<Template>,
    t_temp: Vec<String>,
    domain: String,
    threads: i32,
}

impl View for TemplateManager {
    type V = ManagerV;

    closed spec fn view(&self) -> ManagerV {
        ManagerV {
            templates: self.templates.deep_view(),
            pending: self.t_temp.deep_view(),
            domain: self.domain@,
            threads: self.threads,
        }
    }
}

impl TemplateManager {
    /// A manager for one target domain, with nothing loaded yet.
    pub fn new(domain: String) -> (r: TemplateManager)
        ensures
            r@.domain == domain@,
            r@.templates =~= Seq::<TemplateV>::empty(),
            r@.pending =~= Seq::<Seq<char>>::empty(),
            r@.threads == 0,
    {
        TemplateManager { templates: Vec::new(), t_temp: Vec::new(), domain, threads: 0 }
    }

    /// Sets the concurrency bound for this run.
    pub fn set_threads(&mut self, concurrency: i32)
        ensures
            final (self)@ == (ManagerV { threads: concurrency, ..old(self)@ }),
    {
        self.threads = concurrency;
    }

    /// The concurrency bound of this run.
    pub fn threads(&self) -> (r: i32)
        ensures
            r == self@.threads,
    {
        self.threads
    }

    /// The target domain of this run.
    pub fn domain(&self) -> (r: &String)
        ensures
            r@ == self@.domain,
    {
        &self.domain
    }

    /// Remembers one template file path for this run.
    pub fn add_pending_path(&mut self, path: String)
        ensures
            final (self)@ == (ManagerV { pending: old(self)@.pending.push(path@), ..old(self)@ }),
    {
        let ghost p = path@;
        self.t_temp.push(path);
        proof {
            assert(self@.pending =~= old(self)@.pending.push(p));
        }
    }

    /// The remembered template file paths, in order.
    pub fn pending_paths(&self) -> (r: &Vec<String>)
        ensures
            r.deep_view() == self@.pending,
    {
        &self.t_temp
    }

    /// Loads one template file's content for this run's domain: the parsed,
    /// substituted and schema-checked template is appended; a malformed
    /// file leaves the loaded templates untouched.
    pub fn load_template_content(&mut self, content: &str, api_keys: &SecretStore) -> (r: Result<
        (),
        TemplateError,
    >)
        ensures
            match r {
                Ok(()) => spec_process_template(content@, old(self)@.domain, api_keys.deep_view())
                    matches Ok(tv) && final (self)@ == (ManagerV {
                    templates: old(self)@.templates.push(tv),
                    ..old(self)@
                }),
                Err(e) => spec_process_template(content@, old(self)@.domain, api_keys.deep_view())
                    == Err::<TemplateV, TemplateError>(e) && final (self)@ == old(self)@,
            },
    {
        match process_template_content(content, self.domain.as_str(), api_keys) {
            Ok(t) => {
                let ghost tv = t.deep_view();
                self.templates.push(t);
                proof {
                    assert(self@.templates =~= old(self)@.templates.push(tv));
                }
                Ok(())
            },
            Err(e) => Err(e),
        }
    }

    /// The number of loaded templates.
    pub fn template_count(&self) -> (n: usize)
        ensures
            n == self@.templates.len(),
    {
        self.templates.len()
    }

    /// One loaded template, in load order.
    pub fn template(&self, i: usize) -> (r: &Template)
        requires
            i < self@.templates.len(),
        ensures
            r.deep_view() == self@.templates[i as int],
    {
        &self.templates[i]
    }

    /// The identifiers of the loaded templates, in load order.
    pub fn template_ids(&self) -> (r: Vec<String>)
        ensures
            r.deep_view() =~= Seq::new(self@.templates.len(), |i: int| self@.templates[i].id),
    {
        let mut out: Vec<String> = Vec::new();
        let mut i: usize = 0;
        while i < self.templates.len()
            invariant
                i <= self.templates@.len(),
                out@.len() == i,
                forall|j: int|
                    #![trigger out@[j]]
                    0 <= j < i ==> out@[j]@ == self@.templates[j].id,
        decreases self.templates@.len() - i,
        {
            proof {
                assert(self@.templates[i as int] == self.templates@[i as int].deep_view());
            }
            out.push(self.templates[i].id.clone());
            i += 1;
        }
        out
    }
}

/// True for file names the template store loads: extension `yaml` or `yml`,
/// with a non-empty stem.
pub fn is_template_file(name: &str) -> (r: bool)
    ensures
        r == ((name@.len() > 5 && is_suffix(".yaml"@, name@)) || (name@.len() > 4 && is_suffix(
            ".yml"@,
            name@,
        ))),
{
    proof {
        reveal_strlit(".yaml");
        reveal_strlit(".yml");
    }
    let len = name.unicode_len();
    (len > 5 && ends_with_str(name, ".yaml")) || (len > 4 && ends_with_str(name, ".yml"))
}

} // verus!
