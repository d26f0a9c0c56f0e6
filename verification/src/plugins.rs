pub mod examples;
pub mod registry;

use vstd::prelude::*;

use crate::cleaner::CleanResults;
use crate::config::Config;
use crate::project::Project;

verus! {

/// The lifecycle points at which plugin hooks run.
#[derive(Debug, Clone, Copy)]
pub enum HookType {
    /// Before the whole batch.
    BeforeCleaning,
    /// After the whole batch.
    AfterCleaning,
    /// Before one project is cleaned.
    BeforeCleanProject,
    /// After one project is cleaned.
    AfterCleanProject,
    /// Before one target is cleaned.
    BeforeCleanTarget,
    /// After one target is cleaned.
    AfterCleanTarget,
}

/// The read-only payloads a hook may receive: a configuration snapshot, the
/// project at hand, and the results snapshot, each where applicable.
#[derive(Debug, Clone)]
pub struct HookContext {
    pub config: Option<Config>,
    pub project: Option<Project>,
    pub results: Option<CleanResults>,
}

impl HookContext {
    /// A context carrying no payload.
    pub fn empty() -> (r: HookContext)
        ensures
            r.config is None,
            r.project is None,
            r.results is None,
    {
        HookContext { config: None, project: None, results: None }
    }
}

} // verus!
