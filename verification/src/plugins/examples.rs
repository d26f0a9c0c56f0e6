use vstd::prelude::*;
use vstd::string::StringExecFns;

use crate::fs_model::{tree_model, DirNode, TreeModel};
use crate::plugins::registry::{Plugin, PluginError};
use crate::plugins::{HookContext, HookType};
use crate::project::analyzers::{file_present, DetectorKind};
use crate::project::detector::ProjectDetector;
use crate::project::{PackageInfoView, Project, ProjectType};

verus! {

/// A built-in plugin demonstrating the extension point: it contributes one
/// detector and hooks that always succeed without side effects.
#[derive(Debug, Clone, Copy)]
pub struct ExamplePlugin;

impl ExamplePlugin {
    pub fn new() -> (r: Self) {
        ExamplePlugin
    }
}

impl Plugin for ExamplePlugin {
    open spec fn never_fails(&self) -> bool {
        true
    }

    open spec fn detectors_spec(&self) -> Seq<DetectorKind> {
        seq![DetectorKind::Example(ExampleDetector)]
    }

    fn name(&self) -> (r: &'static str) {
        "example_plugin"
    }

    fn version(&self) -> (r: &'static str) {
        "0.1.0"
    }

    fn description(&self) -> (r: &'static str) {
        "An example plugin demonstrating the use of the plugin system"
    }

    fn initialize(&mut self) -> (r: Result<(), PluginError>) {
        Ok(())
    }

    fn get_project_detectors(&self) -> (r: Vec<DetectorKind>) {
        let mut v: Vec<DetectorKind> = Vec::new();
        v.push(DetectorKind::Example(ExampleDetector::new()));
        proof {
            assert(v@ =~= self.detectors_spec());
        }
        v
    }

    fn execute_hook(&self, hook_type: HookType, context: &HookContext) -> (r: Result<
        (),
        PluginError,
    >) {
        Ok(())
    }
}

/// The example plugin's detector: it recognizes a project by a marker
/// configuration file and leaves the classification unchanged in kind.
#[derive(Debug, Clone, Copy)]
pub struct ExampleDetector;

impl ExampleDetector {
    pub fn new() -> (r: Self) {
        ExampleDetector
    }
}

impl ProjectDetector for ExampleDetector {
    open spec fn matches_spec(&self, pkg: Option<PackageInfoView>, dir: TreeModel) -> bool {
        file_present(dir, "example.config.js"@)
    }

    open spec fn assigned_type(&self) -> ProjectType {
        ProjectType::Unknown
    }

    open spec fn build_dirs_spec(&self) -> Seq<Seq<char>> {
        seq!["example-build"@, "example-dist"@]
    }

    open spec fn cache_dirs_spec(&self) -> Seq<Seq<char>> {
        seq![".example-cache"@]
    }

    open spec fn coverage_dirs_spec(&self) -> Seq<Seq<char>> {
        seq!["example-coverage"@]
    }

    open spec fn priority_spec(&self) -> int {
        50
    }

    fn matches(&self, project: &Project, dir: &DirNode) -> (r: bool) {
        dir.has_file("example.config.js")
    }

    fn detect(&self, project: &mut Project, dir: &DirNode) -> (r: bool) {
        let m = self.matches(project, dir);
        if m {
            project.project_type = ProjectType::Unknown;
        }
        m
    }

    fn get_build_dirs(&self, project: &Project) -> (r: Vec<String>) {
        let mut v: Vec<String> = Vec::new();
        v.push("example-build".to_owned());
        v.push("example-dist".to_owned());
        proof {
            assert(v@.map_values(|s: String| s@) =~= self.build_dirs_spec());
        }
        v
    }

    fn get_cache_dirs(&self, project: &Project) -> (r: Vec<String>) {
        let mut v: Vec<String> = Vec::new();
        v.push(".example-cache".to_owned());
        proof {
            assert(v@.map_values(|s: String| s@) =~= self.cache_dirs_spec());
        }
        v
    }

    fn get_coverage_dirs(&self, project: &Project) -> (r: Vec<String>) {
        let mut v: Vec<String> = Vec::new();
        v.push("example-coverage".to_owned());
        proof {
            assert(v@.map_values(|s: String| s@) =~= self.coverage_dirs_spec());
        }
        v
    }

    fn get_priority(&self) -> (r: u8) {
        50
    }
}

} // verus!
