use vstd::prelude::*;
use vstd::string::StringExecFns;

use crate::fs_model::{find_file, tree_model, DirNode, TreeModel};
use crate::plugins::examples::ExampleDetector;
use crate::project::detector::{DefaultDetector, ProjectDetector};
use crate::project::{pairs_contain_key, PackageInfoView, Project, ProjectType};

verus! {

/// Whether `key` appears among the dependencies or dev-dependencies of `p`.
pub open spec fn dep_present(p: PackageInfoView, key: Seq<char>) -> bool {
    pairs_contain_key(p.dependencies, key) || pairs_contain_key(p.dev_dependencies, key)
}

/// Whether the project root directly holds a file named `name`.
pub open spec fn file_present(dir: TreeModel, name: Seq<char>) -> bool {
    find_file(dir.files, name) is Some
}

/// Recognizes React projects by their dependency on `react`.
#[derive(Debug, Clone, Copy)]
pub struct ReactDetector;

impl ReactDetector {
    pub fn new() -> (r: Self) {
        ReactDetector
    }
}

impl ProjectDetector for ReactDetector {
    open spec fn matches_spec(&self, pkg: Option<PackageInfoView>, dir: TreeModel) -> bool {
        match pkg {
            None => false,
            Some(p) => dep_present(p, "react"@),
        }
    }

    open spec fn assigned_type(&self) -> ProjectType {
        ProjectType::React
    }

    open spec fn build_dirs_spec(&self) -> Seq<Seq<char>> {
        seq!["build"@, "dist"@]
    }

    open spec fn cache_dirs_spec(&self) -> Seq<Seq<char>> {
        Seq::empty()
    }

    open spec fn coverage_dirs_spec(&self) -> Seq<Seq<char>> {
        seq!["coverage"@]
    }

    open spec fn priority_spec(&self) -> int {
        100
    }

    fn matches(&self, project: &Project, dir: &DirNode) -> (r: bool) {
        match &project.package_info {
            None => false,
            Some(info) => info.depends_on("react"),
        }
    }

    fn detect(&self, project: &mut Project, dir: &DirNode) -> (r: bool) {
        let m = self.matches(project, dir);
        if m {
            project.project_type = ProjectType::React;
        }
        m
    }

    fn get_build_dirs(&self, project: &Project) -> (r: Vec<String>) {
        let mut v: Vec<String> = Vec::new();
        v.push("build".to_owned());
        v.push("dist".to_owned());
        proof {
            assert(v@.map_values(|s: String| s@) =~= self.build_dirs_spec());
        }
        v
    }

    fn get_cache_dirs(&self, project: &Project) -> (r: Vec<String>) {
        let v: Vec<String> = Vec::new();
        proof {
            assert(v@.map_values(|s: String| s@) =~= self.cache_dirs_spec());
        }
        v
    }

    fn get_coverage_dirs(&self, project: &Project) -> (r: Vec<String>) {
        let mut v: Vec<String> = Vec::new();
        v.push("coverage".to_owned());
        proof {
            assert(v@.map_values(|s: String| s@) =~= self.coverage_dirs_spec());
        }
        v
    }

    fn get_priority(&self) -> (r: u8) {
        100
    }
}

/// Recognizes Vue projects by their dependencies or Vue build configuration.
#[derive(Debug, Clone, Copy)]
pub struct VueDetector;

impl VueDetector {
    pub fn new() -> (r: Self) {
        VueDetector
    }
}

impl ProjectDetector for VueDetector {
    open spec fn matches_spec(&self, pkg: Option<PackageInfoView>, dir: TreeModel) -> bool {
        match pkg {
            None => false,
            Some(p) => dep_present(p, "vue"@) || dep_present(p, "@vue/cli-service"@)
                || file_present(dir, "vue.config.js"@) || file_present(dir, "vite.config.js"@),
        }
    }

    open spec fn assigned_type(&self) -> ProjectType {
        ProjectType::Vue
    }

    open spec fn build_dirs_spec(&self) -> Seq<Seq<char>> {
        seq!["dist"@]
    }

    open spec fn cache_dirs_spec(&self) -> Seq<Seq<char>> {
        Seq::empty()
    }

    open spec fn coverage_dirs_spec(&self) -> Seq<Seq<char>> {
        seq!["coverage"@]
    }

    open spec fn priority_spec(&self) -> int {
        100
    }

    fn matches(&self, project: &Project, dir: &DirNode) -> (r: bool) {
        match &project.package_info {
            None => false,
            Some(info) => info.depends_on("vue") || info.depends_on("@vue/cli-service")
                || dir.has_file("vue.config.js") || dir.has_file("vite.config.js"),
        }
    }

    fn detect(&self, project: &mut Project, dir: &DirNode) -> (r: bool) {
        let m = self.matches(project, dir);
        if m {
            project.project_type = ProjectType::Vue;
        }
        m
    }

    fn get_build_dirs(&self, project: &Project) -> (r: Vec<String>) {
        let mut v: Vec<String> = Vec::new();
        v.push("dist".to_owned());
        proof {
            assert(v@.map_values(|s: String| s@) =~= self.build_dirs_spec());
        }
        v
    }

    fn get_cache_dirs(&self, project: &Project) -> (r: Vec<String>) {
        let v: Vec<String> = Vec::new();
        proof {
            assert(v@.map_values(|s: String| s@) =~= self.cache_dirs_spec());
        }
        v
    }

    fn get_coverage_dirs(&self, project: &Project) -> (r: Vec<String>) {
        let mut v: Vec<String> = Vec::new();
        v.push("coverage".to_owned());
        proof {
            assert(v@.map_values(|s: String| s@) =~= self.coverage_dirs_spec());
        }
        v
    }

    fn get_priority(&self) -> (r: u8) {
        100
    }
}

/// Recognizes Next.js projects by their dependency on `next` or a Next.js
/// configuration file.
#[derive(Debug, Clone, Copy)]
pub struct NextJsDetector;

impl NextJsDetector {
    pub fn new() -> (r: Self) {
        NextJsDetector
    }
}

impl ProjectDetector for NextJsDetector {
    open spec fn matches_spec(&self, pkg: Option<PackageInfoView>, dir: TreeModel) -> bool {
        match pkg {
            None => false,
            Some(p) => dep_present(p, "next"@) || file_present(dir, "next.config.js"@),
        }
    }

    open spec fn assigned_type(&self) -> ProjectType {
        ProjectType::NextJs
    }

    open spec fn build_dirs_spec(&self) -> Seq<Seq<char>> {
        seq![".next"@, "out"@]
    }

    open spec fn cache_dirs_spec(&self) -> Seq<Seq<char>> {
        Seq::empty()
    }

    open spec fn coverage_dirs_spec(&self) -> Seq<Seq<char>> {
        seq!["coverage"@]
    }

    open spec fn priority_spec(&self) -> int {
        80
    }

    fn matches(&self, project: &Project, dir: &DirNode) -> (r: bool) {
        match &project.package_info {
            None => false,
            Some(info) => info.depends_on("next") || dir.has_file("next.config.js"),
        }
    }

    fn detect(&self, project: &mut Project, dir: &DirNode) -> (r: bool) {
        let m = self.matches(project, dir);
        if m {
            project.project_type = ProjectType::NextJs;
        }
        m
    }

    fn get_build_dirs(&self, project: &Project) -> (r: Vec<String>) {
        let mut v: Vec<String> = Vec::new();
        v.push(".next".to_owned());
        v.push("out".to_owned());
        proof {
            assert(v@.map_values(|s: String| s@) =~= self.build_dirs_spec());
        }
        v
    }

    fn get_cache_dirs(&self, project: &Project) -> (r: Vec<String>) {
        let v: Vec<String> = Vec::new();
        proof {
            assert(v@.map_values(|s: String| s@) =~= self.cache_dirs_spec());
        }
        v
    }

    fn get_coverage_dirs(&self, project: &Project) -> (r: Vec<String>) {
        let mut v: Vec<String> = Vec::new();
        v.push("coverage".to_owned());
        proof {
            assert(v@.map_values(|s: String| s@) =~= self.coverage_dirs_spec());
        }
        v
    }

    fn get_priority(&self) -> (r: u8) {
        80
    }
}

/// Recognizes Angular projects by their dependency on `@angular/core` or an
/// Angular workspace file.
#[derive(Debug, Clone, Copy)]
pub struct AngularDetector;

impl AngularDetector {
    pub fn new() -> (r: Self) {
        AngularDetector
    }
}

impl ProjectDetector for AngularDetector {
    open spec fn matches_spec(&self, pkg: Option<PackageInfoView>, dir: TreeModel) -> bool {
        match pkg {
            None => false,
            Some(p) => dep_present(p, "@angular/core"@) || file_present(dir, "angular.json"@),
        }
    }

    open spec fn assigned_type(&self) -> ProjectType {
        ProjectType::Angular
    }

    open spec fn build_dirs_spec(&self) -> Seq<Seq<char>> {
        seq!["dist"@]
    }

    open spec fn cache_dirs_spec(&self) -> Seq<Seq<char>> {
        seq![".angular"@]
    }

    open spec fn coverage_dirs_spec(&self) -> Seq<Seq<char>> {
        seq!["coverage"@]
    }

    open spec fn priority_spec(&self) -> int {
        90
    }

    fn matches(&self, project: &Project, dir: &DirNode) -> (r: bool) {
        match &project.package_info {
            None => false,
            Some(info) => info.depends_on("@angular/core") || dir.has_file("angular.json"),
        }
    }

    fn detect(&self, project: &mut Project, dir: &DirNode) -> (r: bool) {
        let m = self.matches(project, dir);
        if m {
            project.project_type = ProjectType::Angular;
        }
        m
    }

    fn get_build_dirs(&self, project: &Project) -> (r: Vec<String>) {
        let mut v: Vec<String> = Vec::new();
        v.push("dist".to_owned());
        proof {
            assert(v@.map_values(|s: String| s@) =~= self.build_dirs_spec());
        }
        v
    }

    fn get_cache_dirs(&self, project: &Project) -> (r: Vec<String>) {
        let mut v: Vec<String> = Vec::new();
        v.push(".angular".to_owned());
        proof {
            assert(v@.map_values(|s: String| s@) =~= self.cache_dirs_spec());
        }
        v
    }

    fn get_coverage_dirs(&self, project: &Project) -> (r: Vec<String>) {
        let mut v: Vec<String> = Vec::new();
        v.push("coverage".to_owned());
        proof {
            assert(v@.map_values(|s: String| s@) =~= self.coverage_dirs_spec());
        }
        v
    }

    fn get_priority(&self) -> (r: u8) {
        90
    }
}

/// Recognizes Nuxt.js projects by their dependency on `nuxt` or a Nuxt
/// configuration file.
#[derive(Debug, Clone, Copy)]
pub struct NuxtJsDetector;

impl NuxtJsDetector {
    pub fn new() -> (r: Self) {
        NuxtJsDetector
    }
}

impl ProjectDetector for NuxtJsDetector {
    open spec fn matches_spec(&self, pkg: Option<PackageInfoView>, dir: TreeModel) -> bool {
        match pkg {
            None => false,
            Some(p) => dep_present(p, "nuxt"@) || file_present(dir, "nuxt.config.js"@)
                || file_present(dir, "nuxt.config.ts"@),
        }
    }

    open spec fn assigned_type(&self) -> ProjectType {
        ProjectType::NuxtJs
    }

    open spec fn build_dirs_spec(&self) -> Seq<Seq<char>> {
        seq![".nuxt"@, "dist"@]
    }

    open spec fn cache_dirs_spec(&self) -> Seq<Seq<char>> {
        seq![".cache"@]
    }

    open spec fn coverage_dirs_spec(&self) -> Seq<Seq<char>> {
        seq!["coverage"@]
    }

    open spec fn priority_spec(&self) -> int {
        85
    }

    fn matches(&self, project: &Project, dir: &DirNode) -> (r: bool) {
        match &project.package_info {
            None => false,
            Some(info) => info.depends_on("nuxt") || dir.has_file("nuxt.config.js")
                || dir.has_file("nuxt.config.ts"),
        }
    }

    fn detect(&self, project: &mut Project, dir: &DirNode) -> (r: bool) {
        let m = self.matches(project, dir);
        if m {
            project.project_type = ProjectType::NuxtJs;
        }
        m
    }

    fn get_build_dirs(&self, project: &Project) -> (r: Vec<String>) {
        let mut v: Vec<String> = Vec::new();
        v.push(".nuxt".to_owned());
        v.push("dist".to_owned());
        proof {
            assert(v@.map_values(|s: String| s@) =~= self.build_dirs_spec());
        }
        v
    }

    fn get_cache_dirs(&self, project: &Project) -> (r: Vec<String>) {
        let mut v: Vec<String> = Vec::new();
        v.push(".cache".to_owned());
        proof {
            assert(v@.map_values(|s: String| s@) =~= self.cache_dirs_spec());
        }
        v
    }

    fn get_coverage_dirs(&self, project: &Project) -> (r: Vec<String>) {
        let mut v: Vec<String> = Vec::new();
        v.push("coverage".to_owned());
        proof {
            assert(v@.map_values(|s: String| s@) =~= self.coverage_dirs_spec());
        }
        v
    }

    fn get_priority(&self) -> (r: u8) {
        85
    }
}

/// One detector of the chain: a closed set of variants behind the common
/// capability interface, dispatched statically.
#[derive(Debug, Clone, Copy)]
pub enum DetectorKind {
    NextJs(NextJsDetector),
    NuxtJs(NuxtJsDetector),
    Angular(AngularDetector),
    Vue(VueDetector),
    React(ReactDetector),
    Generic(DefaultDetector),
    Example(ExampleDetector),
}

impl DetectorKind {
    /// Whether this detector recognizes the project.
    pub open spec fn matches_spec(self, pkg: Option<PackageInfoView>, dir: TreeModel) -> bool {
        match self {
            DetectorKind::NextJs(d) => d.matches_spec(pkg, dir),
            DetectorKind::NuxtJs(d) => d.matches_spec(pkg, dir),
            DetectorKind::Angular(d) => d.matches_spec(pkg, dir),
            DetectorKind::Vue(d) => d.matches_spec(pkg, dir),
            DetectorKind::React(d) => d.matches_spec(pkg, dir),
            DetectorKind::Generic(d) => d.matches_spec(pkg, dir),
            DetectorKind::Example(d) => d.matches_spec(pkg, dir),
        }
    }

    /// The classification assigned on a match.
    pub open spec fn assigned_type(self) -> ProjectType {
        match self {
            DetectorKind::NextJs(d) => d.assigned_type(),
            DetectorKind::NuxtJs(d) => d.assigned_type(),
            DetectorKind::Angular(d) => d.assigned_type(),
            DetectorKind::Vue(d) => d.assigned_type(),
            DetectorKind::React(d) => d.assigned_type(),
            DetectorKind::Generic(d) => d.assigned_type(),
            DetectorKind::Example(d) => d.assigned_type(),
        }
    }

    /// The build-output directory names for this project type.
    pub open spec fn build_dirs_spec(self) -> Seq<Seq<char>> {
        match self {
            DetectorKind::NextJs(d) => d.build_dirs_spec(),
            DetectorKind::NuxtJs(d) => d.build_dirs_spec(),
            DetectorKind::Angular(d) => d.build_dirs_spec(),
            DetectorKind::Vue(d) => d.build_dirs_spec(),
            DetectorKind::React(d) => d.build_dirs_spec(),
            DetectorKind::Generic(d) => d.build_dirs_spec(),
            DetectorKind::Example(d) => d.build_dirs_spec(),
        }
    }

    /// The tool-cache directory names for this project type.
    pub open spec fn cache_dirs_spec(self) -> Seq<Seq<char>> {
        match self {
            DetectorKind::NextJs(d) => d.cache_dirs_spec(),
            DetectorKind::NuxtJs(d) => d.cache_dirs_spec(),
            DetectorKind::Angular(d) => d.cache_dirs_spec(),
            DetectorKind::Vue(d) => d.cache_dirs_spec(),
            DetectorKind::React(d) => d.cache_dirs_spec(),
            DetectorKind::Generic(d) => d.cache_dirs_spec(),
            DetectorKind::Example(d) => d.cache_dirs_spec(),
        }
    }

    /// The coverage directory names for this project type.
    pub open spec fn coverage_dirs_spec(self) -> Seq<Seq<char>> {
        match self {
            DetectorKind::NextJs(d) => d.coverage_dirs_spec(),
            DetectorKind::NuxtJs(d) => d.coverage_dirs_spec(),
            DetectorKind::Angular(d) => d.coverage_dirs_spec(),
            DetectorKind::Vue(d) => d.coverage_dirs_spec(),
            DetectorKind::React(d) => d.coverage_dirs_spec(),
            DetectorKind::Generic(d) => d.coverage_dirs_spec(),
            DetectorKind::Example(d) => d.coverage_dirs_spec(),
        }
    }

    /// The chain rank; lower wins.
    pub open spec fn priority_spec(self) -> int {
        match self {
            DetectorKind::NextJs(d) => d.priority_spec(),
            DetectorKind::NuxtJs(d) => d.priority_spec(),
            DetectorKind::Angular(d) => d.priority_spec(),
            DetectorKind::Vue(d) => d.priority_spec(),
            DetectorKind::React(d) => d.priority_spec(),
            DetectorKind::Generic(d) => d.priority_spec(),
            DetectorKind::Example(d) => d.priority_spec(),
        }
    }

    /// Side-effect-free test of whether this detector recognizes the project.
    pub fn matches(&self, project: &Project, dir: &DirNode) -> (r: bool)
        ensures
            r == self.matches_spec(project@.package_info, tree_model(*dir)),
    {
        match self {
            DetectorKind::NextJs(d) => d.matches(project, dir),
            DetectorKind::NuxtJs(d) => d.matches(project, dir),
            DetectorKind::Angular(d) => d.matches(project, dir),
            DetectorKind::Vue(d) => d.matches(project, dir),
            DetectorKind::React(d) => d.matches(project, dir),
            DetectorKind::Generic(d) => d.matches(project, dir),
            DetectorKind::Example(d) => d.matches(project, dir),
        }
    }

    /// Tests the project and, on a match, classifies it.
    pub fn detect(&self, project: &mut Project, dir: &DirNode) -> (r: bool)
        ensures
            r == self.matches_spec(old(project)@.package_info, tree_model(*dir)),
            final(project)@.path == old(project)@.path,
            final(project)@.package_info == old(project)@.package_info,
            final(project)@.size_info == old(project)@.size_info,
            final(project)@.detected_targets == old(project)@.detected_targets,
            final(project)@.project_type == if r {
                self.assigned_type()
            } else {
                old(project)@.project_type
            },
    {
        match self {
            DetectorKind::NextJs(d) => d.detect(project, dir),
            DetectorKind::NuxtJs(d) => d.detect(project, dir),
            DetectorKind::Angular(d) => d.detect(project, dir),
            DetectorKind::Vue(d) => d.detect(project, dir),
            DetectorKind::React(d) => d.detect(project, dir),
            DetectorKind::Generic(d) => d.detect(project, dir),
            DetectorKind::Example(d) => d.detect(project, dir),
        }
    }

    /// The build directories to consider for a project of this type.
    pub fn get_build_dirs(&self, project: &Project) -> (r: Vec<String>)
        ensures
            r@.map_values(|s: String| s@) == self.build_dirs_spec(),
    {
        match self {
            DetectorKind::NextJs(d) => d.get_build_dirs(project),
            DetectorKind::NuxtJs(d) => d.get_build_dirs(project),
            DetectorKind::Angular(d) => d.get_build_dirs(project),
            DetectorKind::Vue(d) => d.get_build_dirs(project),
            DetectorKind::React(d) => d.get_build_dirs(project),
            DetectorKind::Generic(d) => d.get_build_dirs(project),
            DetectorKind::Example(d) => d.get_build_dirs(project),
        }
    }

    /// The cache directories to consider for a project of this type.
    pub fn get_cache_dirs(&self, project: &Project) -> (r: Vec<String>)
        ensures
            r@.map_values(|s: String| s@) == self.cache_dirs_spec(),
    {
        match self {
            DetectorKind::NextJs(d) => d.get_cache_dirs(project),
            DetectorKind::NuxtJs(d) => d.get_cache_dirs(project),
            DetectorKind::Angular(d) => d.get_cache_dirs(project),
            DetectorKind::Vue(d) => d.get_cache_dirs(project),
            DetectorKind::React(d) => d.get_cache_dirs(project),
            DetectorKind::Generic(d) => d.get_cache_dirs(project),
            DetectorKind::Example(d) => d.get_cache_dirs(project),
        }
    }

    /// The coverage directories to consider for a project of this type.
    pub fn get_coverage_dirs(&self, project: &Project) -> (r: Vec<String>)
        ensures
            r@.map_values(|s: String| s@) == self.coverage_dirs_spec(),
    {
        match self {
            DetectorKind::NextJs(d) => d.get_coverage_dirs(project),
            DetectorKind::NuxtJs(d) => d.get_coverage_dirs(project),
            DetectorKind::Angular(d) => d.get_coverage_dirs(project),
            DetectorKind::Vue(d) => d.get_coverage_dirs(project),
            DetectorKind::React(d) => d.get_coverage_dirs(project),
            DetectorKind::Generic(d) => d.get_coverage_dirs(project),
            DetectorKind::Example(d) => d.get_coverage_dirs(project),
        }
    }

    /// The chain rank; lower wins.
    pub fn get_priority(&self) -> (r: u8)
        ensures
            r as int == self.priority_spec(),
    {
        match self {
            DetectorKind::NextJs(d) => d.get_priority(),
            DetectorKind::NuxtJs(d) => d.get_priority(),
            DetectorKind::Angular(d) => d.get_priority(),
            DetectorKind::Vue(d) => d.get_priority(),
            DetectorKind::React(d) => d.get_priority(),
            DetectorKind::Generic(d) => d.get_priority(),
            DetectorKind::Example(d) => d.get_priority(),
        }
    }
}

/// The built-in detector chain, in ascending priority order; the generic
/// fallback comes last.
pub open spec fn built_in_chain() -> Seq<DetectorKind> {
    seq![
        DetectorKind::NextJs(NextJsDetector),
        DetectorKind::NuxtJs(NuxtJsDetector),
        DetectorKind::Angular(AngularDetector),
        DetectorKind::Vue(VueDetector),
        DetectorKind::React(ReactDetector),
        DetectorKind::Generic(DefaultDetector),
    ]
}

/// All built-in project detectors, in the order the chain tries them.
pub fn get_all_detectors() -> (r: Vec<DetectorKind>)
    ensures
        r@ == built_in_chain(),
{
    let mut v: Vec<DetectorKind> = Vec::new();
    v.push(DetectorKind::NextJs(NextJsDetector::new()));
    v.push(DetectorKind::NuxtJs(NuxtJsDetector::new()));
    v.push(DetectorKind::Angular(AngularDetector::new()));
    v.push(DetectorKind::Vue(VueDetector::new()));
    v.push(DetectorKind::React(ReactDetector::new()));
    v.push(DetectorKind::Generic(DefaultDetector::new()));
    proof {
        assert(v@ =~= built_in_chain());
    }
    v
}

} // verus!
