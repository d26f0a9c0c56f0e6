use vstd::prelude::*;

use crate::fs_model::{tree_model, DirNode};
use crate::plugins::examples::ExamplePlugin;
use crate::plugins::{HookContext, HookType};
use crate::project::analyzers::DetectorKind;
use crate::project::Project;

verus! {

/// How a plugin reports failure.
#[derive(Debug, Clone)]
pub struct PluginError {
    pub message: String,
}

/// A registrable unit that contributes project detectors and lifecycle
/// hooks; the engine treats its detectors like the built-in ones.
pub trait Plugin: Sized {
    /// Whether this plugin's initialization and hooks always succeed.
    spec fn never_fails(&self) -> bool;

    /// The detectors this plugin contributes.
    spec fn detectors_spec(&self) -> Seq<DetectorKind>;

    /// The plugin's name.
    fn name(&self) -> (r: &'static str);

    /// The plugin's version.
    fn version(&self) -> (r: &'static str);

    /// The plugin's description.
    fn description(&self) -> (r: &'static str);

    /// One-time setup when the plugin is registered.
    fn initialize(&mut self) -> (r: Result<(), PluginError>)
        ensures
            old(self).never_fails() ==> r is Ok && final(self).never_fails(),
    ;

    /// The detectors this plugin contributes.
    fn get_project_detectors(&self) -> (r: Vec<DetectorKind>)
        ensures
            r@ == self.detectors_spec(),
    ;

    /// Runs the hook for one lifecycle point, over a read-only context.
    fn execute_hook(&self, hook_type: HookType, context: &HookContext) -> (r: Result<
        (),
        PluginError,
    >)
        ensures
            self.never_fails() ==> r is Ok,
    ;
}

/// One registered plugin: a closed set of variants dispatched statically.
#[derive(Debug, Clone, Copy)]
pub enum PluginKind {
    Example(ExamplePlugin),
}

impl PluginKind {
    /// Whether this plugin's initialization and hooks always succeed.
    pub open spec fn never_fails(self) -> bool {
        match self {
            PluginKind::Example(p) => p.never_fails(),
        }
    }

    /// The detectors this plugin contributes.
    pub open spec fn detectors_spec(self) -> Seq<DetectorKind> {
        match self {
            PluginKind::Example(p) => p.detectors_spec(),
        }
    }

    /// The plugin's name.
    pub fn name(&self) -> (r: &'static str) {
        match self {
            PluginKind::Example(p) => p.name(),
        }
    }

    /// The plugin's version.
    pub fn version(&self) -> (r: &'static str) {
        match self {
            PluginKind::Example(p) => p.version(),
        }
    }

    /// The plugin's description.
    pub fn description(&self) -> (r: &'static str) {
        match self {
            PluginKind::Example(p) => p.description(),
        }
    }

    /// One-time setup when the plugin is registered.
    pub fn initialize(&mut self) -> (r: Result<(), PluginError>)
        ensures
            old(self).never_fails() ==> r is Ok && final(self).never_fails(),
    {
        match self {
            PluginKind::Example(p) => p.initialize(),
        }
    }

    /// The detectors this plugin contributes.
    pub fn get_project_detectors(&self) -> (r: Vec<DetectorKind>)
        ensures
            r@ == self.detectors_spec(),
    {
        match self {
            PluginKind::Example(p) => p.get_project_detectors(),
        }
    }

    /// Runs the hook for one lifecycle point, over a read-only context.
    pub fn execute_hook(&self, hook_type: HookType, context: &HookContext) -> (r: Result<
        (),
        PluginError,
    >)
        ensures
            self.never_fails() ==> r is Ok,
    {
        match self {
            PluginKind::Example(p) => p.execute_hook(hook_type, context),
        }
    }
}

/// The detectors contributed by `plugins`, in registration order.
pub open spec fn registry_detectors(plugins: Seq<PluginKind>) -> Seq<DetectorKind>
    decreases plugins.len(),
{
    if plugins.len() == 0 {
        Seq::empty()
    } else {
        plugins[0].detectors_spec() + registry_detectors(plugins.drop_first())
    }
}

/// Whether one of the plugin's detectors recognizes the project.
pub open spec fn plugin_matches(
    p: PluginKind,
    pkg: Option<crate::project::PackageInfoView>,
    dir: crate::fs_model::TreeModel,
) -> bool {
    exists|i: int|
        0 <= i < p.detectors_spec().len() && p.detectors_spec()[i].matches_spec(pkg, dir)
}

/// The plugins of `plugins` with a detector that recognizes the project.
pub open spec fn matching_plugins(
    plugins: Seq<PluginKind>,
    pkg: Option<crate::project::PackageInfoView>,
    dir: crate::fs_model::TreeModel,
) -> Seq<PluginKind>
    decreases plugins.len(),
{
    if plugins.len() == 0 {
        Seq::empty()
    } else {
        let rest = matching_plugins(plugins.drop_first(), pkg, dir);
        if plugin_matches(plugins[0], pkg, dir) {
            seq![plugins[0]] + rest
        } else {
            rest
        }
    }
}

/// Holds the plugins contributed by external collaborators.
pub struct PluginRegistry {
    pub plugins: Vec<PluginKind>,
}

impl PluginRegistry {
    /// An empty registry.
    pub fn new() -> (r: Self)
        ensures
            r.plugins@ == Seq::<PluginKind>::empty(),
    {
        PluginRegistry { plugins: Vec::new() }
    }

    /// Registers one more plugin, after the ones already present.
    pub fn register(&mut self, plugin: PluginKind)
        ensures
            final(self).plugins@ == old(self).plugins@.push(plugin),
    {
        self.plugins.push(plugin);
    }

    /// All registered plugins, in registration order.
    pub fn get_plugins(&self) -> (r: &Vec<PluginKind>)
        ensures
            r@ == self.plugins@,
    {
        &self.plugins
    }

    /// The detectors contributed by all registered plugins, in order.
    pub fn get_project_detectors(&self) -> (r: Vec<DetectorKind>)
        ensures
            r@ == registry_detectors(self.plugins@),
    {
        let mut detectors: Vec<DetectorKind> = Vec::new();
        let mut i: usize = 0;
        let n = self.plugins.len();
        proof {
            assert(self.plugins@.subrange(0, n as int) =~= self.plugins@);
            assert(detectors@ + registry_detectors(self.plugins@) =~= registry_detectors(
                self.plugins@,
            ));
        }
        while i < n
            invariant
                0 <= i <= n,
                n == self.plugins@.len(),
                detectors@ + registry_detectors(self.plugins@.subrange(i as int, n as int))
                    == registry_detectors(self.plugins@),
            decreases n - i,
        {
            let ghost rest = self.plugins@.subrange(i as int, n as int);
            proof {
                assert(rest[0] == self.plugins@[i as int]);
                assert(rest.drop_first() =~= self.plugins@.subrange(i + 1, n as int));
            }
            let mut contributed = self.plugins[i].get_project_detectors();
            detectors.append(&mut contributed);
            proof {
                assert(detectors@ + registry_detectors(
                    self.plugins@.subrange(i + 1, n as int),
                ) =~= registry_detectors(self.plugins@));
            }
            i = i + 1;
        }
        proof {
            assert(self.plugins@.subrange(n as int, n as int).len() == 0);
            assert(detectors@ =~= registry_detectors(self.plugins@));
        }
        detectors
    }

    /// Runs the hook on every registered plugin, in registration order; one
    /// plugin's failure never keeps the remaining plugins' hooks from
    /// running.  The first failure, if any, is reported after all have run,
    /// for the caller to surface as a warning; the call succeeds whenever
    /// every registered plugin's hooks succeed.
    pub fn execute_hook(&self, hook_type: HookType, context: &HookContext) -> (r: Result<
        (),
        PluginError,
    >)
        ensures
            (forall|i: int|
                0 <= i < self.plugins@.len() ==> (#[trigger] self.plugins@[i].never_fails()))
                ==> r is Ok,
    {
        let mut first_failure: Option<PluginError> = None;
        let mut i: usize = 0;
        let n = self.plugins.len();
        while i < n
            invariant
                0 <= i <= n,
                n == self.plugins@.len(),
                (forall|j: int|
                    0 <= j < n ==> (#[trigger] self.plugins@[j].never_fails()))
                    ==> first_failure is None,
            decreases n - i,
        {
            match self.plugins[i].execute_hook(hook_type, context) {
                Ok(_) => {},
                Err(e) => {
                    if first_failure.is_none() {
                        first_failure = Some(e);
                    }
                },
            }
            i = i + 1;
        }
        match first_failure {
            None => Ok(()),
            Some(e) => Err(e),
        }
    }

    /// The registered plugins with a detector that recognizes the project:
    /// a side-effect-free lookup over the project and its root directory.
    pub fn filter_plugins_for_project(&self, project: &Project, dir: &DirNode) -> (r: Vec<
        PluginKind,
    >)
        ensures
            r@ == matching_plugins(self.plugins@, project@.package_info, tree_model(*dir)),
    {
        let ghost pkg = project@.package_info;
        let ghost dirm = tree_model(*dir);
        let mut result: Vec<PluginKind> = Vec::new();
        let mut i: usize = 0;
        let n = self.plugins.len();
        proof {
            assert(self.plugins@.subrange(0, n as int) =~= self.plugins@);
            assert(result@ + matching_plugins(self.plugins@, pkg, dirm) =~= matching_plugins(
                self.plugins@,
                pkg,
                dirm,
            ));
        }
        while i < n
            invariant
                0 <= i <= n,
                n == self.plugins@.len(),
                pkg == project@.package_info,
                dirm == tree_model(*dir),
                result@ + matching_plugins(
                    self.plugins@.subrange(i as int, n as int),
                    pkg,
                    dirm,
                ) == matching_plugins(self.plugins@, pkg, dirm),
            decreases n - i,
        {
            let ghost rest = self.plugins@.subrange(i as int, n as int);
            proof {
                assert(rest[0] == self.plugins@[i as int]);
                assert(rest.drop_first() =~= self.plugins@.subrange(i + 1, n as int));
            }
            let plugin = self.plugins[i];
            let detectors = plugin.get_project_detectors();
            let mut found = false;
            let mut j: usize = 0;
            let dn = detectors.len();
            while j < dn
                invariant
                    0 <= j <= dn,
                    dn == detectors@.len(),
                    pkg == project@.package_info,
                    dirm == tree_model(*dir),
                    detectors@ == plugin.detectors_spec(),
                    found == exists|k: int|
                        0 <= k < j && detectors@[k].matches_spec(pkg, dirm),
                decreases dn - j,
            {
                if detectors[j].matches(project, dir) {
                    found = true;
                }
                j = j + 1;
            }
            if found {
                result.push(plugin);
            }
            proof {
                assert(found == plugin_matches(self.plugins@[i as int], pkg, dirm));
                assert(result@ + matching_plugins(
                    self.plugins@.subrange(i + 1, n as int),
                    pkg,
                    dirm,
                ) =~= matching_plugins(self.plugins@, pkg, dirm));
            }
            i = i + 1;
        }
        proof {
            assert(self.plugins@.subrange(n as int, n as int).len() == 0);
            assert(result@ =~= matching_plugins(self.plugins@, pkg, dirm));
        }
        result
    }
}

/// Builds the plugin registry and registers the built-in example plugin.
pub fn initialize_plugins() -> (r: PluginRegistry)
    ensures
        r.plugins@ == seq![PluginKind::Example(ExamplePlugin)],
{
    let mut registry = PluginRegistry::new();
    registry.register(PluginKind::Example(ExamplePlugin::new()));
    proof {
        assert(registry.plugins@ =~= seq![PluginKind::Example(ExamplePlugin)]);
    }
    registry
}

} // verus!
