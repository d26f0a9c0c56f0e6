pub mod analyzers;
pub mod detector;

use vstd::prelude::*;
use vstd::string::StringExecFns;

use crate::fs_model::{find_file, tree_model, DirNode, TreeModel};

verus! {

/// The frameworks a project can be classified as.
#[derive(Debug, Clone, PartialEq, Eq, Structural)]
pub enum ProjectType {
    NodeJs,
    React,
    Vue,
    Angular,
    NextJs,
    NuxtJs,
    Unknown,
}

/// The kinds of disposable directory a plan can carry.
#[derive(Debug, Clone, PartialEq, Eq)]
pub enum TargetType {
    NodeModules,
    BuildDir,
    CacheDir,
    Coverage,
    Custom(String),
}

/// Mathematical image of a [`TargetType`].
#[verifier::ext_equal]
pub enum TargetTypeView {
    NodeModules,
    BuildDir,
    CacheDir,
    Coverage,
    Custom(Seq<char>),
}

impl View for TargetType {
    type V = TargetTypeView;

    open spec fn view(&self) -> TargetTypeView {
        match self {
            TargetType::NodeModules => TargetTypeView::NodeModules,
            TargetType::BuildDir => TargetTypeView::BuildDir,
            TargetType::CacheDir => TargetTypeView::CacheDir,
            TargetType::Coverage => TargetTypeView::Coverage,
            TargetType::Custom(name) => TargetTypeView::Custom(name@),
        }
    }
}

impl TargetType {
    /// A short label for reports: the conventional directory-kind name, or
    /// the custom target's own name.
    pub fn label(&self) -> (r: String)
        ensures
            r@ == match self@ {
                TargetTypeView::NodeModules => "node_modules"@,
                TargetTypeView::BuildDir => "build"@,
                TargetTypeView::CacheDir => "cache"@,
                TargetTypeView::Coverage => "coverage"@,
                TargetTypeView::Custom(name) => "custom: "@ + name,
            },
    {
        match self {
            TargetType::NodeModules => "node_modules".to_owned(),
            TargetType::BuildDir => "build".to_owned(),
            TargetType::CacheDir => "cache".to_owned(),
            TargetType::Coverage => "coverage".to_owned(),
            TargetType::Custom(name) => {
                let mut s: String = "custom: ".to_owned();
                s.append(name.as_str());
                s
            },
        }
    }
}

impl TargetType {
    /// A fresh copy of the target type.
    pub fn clone_target_type(&self) -> (r: TargetType)
        ensures
            r@ == self@,
    {
        match self {
            TargetType::NodeModules => TargetType::NodeModules,
            TargetType::BuildDir => TargetType::BuildDir,
            TargetType::CacheDir => TargetType::CacheDir,
            TargetType::Coverage => TargetType::Coverage,
            TargetType::Custom(name) => TargetType::Custom(name.as_str().to_owned()),
        }
    }
}

/// Byte totals by target kind, plus the grand total; a best-effort snapshot,
/// each total saturating at the largest `u64`.
#[derive(Debug, Clone, PartialEq, Eq, Structural)]
pub struct SizeInfo {
    pub total_size: u64,
    pub node_modules_size: u64,
    pub build_dirs_size: u64,
    pub cache_dirs_size: u64,
    pub coverage_dirs_size: u64,
}

/// Package metadata read from a project manifest.
#[derive(Debug, Clone)]
pub struct PackageInfo {
    pub name: String,
    pub version: String,
    pub dependencies: Vec<(String, String)>,
    pub dev_dependencies: Vec<(String, String)>,
}

/// Mathematical image of a [`PackageInfo`].
#[verifier::ext_equal]
pub struct PackageInfoView {
    pub name: Seq<char>,
    pub version: Seq<char>,
    pub dependencies: Seq<(Seq<char>, Seq<char>)>,
    pub dev_dependencies: Seq<(Seq<char>, Seq<char>)>,
}

impl View for PackageInfo {
    type V = PackageInfoView;

    open spec fn view(&self) -> PackageInfoView {
        PackageInfoView {
            name: self.name@,
            version: self.version@,
            dependencies: self.dependencies@.map_values(|p: (String, String)| (p.0@, p.1@)),
            dev_dependencies: self.dev_dependencies@.map_values(
                |p: (String, String)| (p.0@, p.1@),
            ),
        }
    }
}

/// Whether `pairs` maps the key `key` to anything.
pub open spec fn pairs_contain_key(pairs: Seq<(Seq<char>, Seq<char>)>, key: Seq<char>) -> bool {
    exists|i: int| 0 <= i < pairs.len() && pairs[i].0 == key
}

/// Whether a dependency list holds the key `key`.
pub fn pairs_contain(pairs: &Vec<(String, String)>, key: &str) -> (r: bool)
    ensures
        r == pairs_contain_key(
            pairs@.map_values(|p: (String, String)| (p.0@, p.1@)),
            key@,
        ),
{
    let ghost mapped = pairs@.map_values(|p: (String, String)| (p.0@, p.1@));
    let mut i: usize = 0;
    let n = pairs.len();
    while i < n
        invariant
            0 <= i <= n,
            n == pairs@.len(),
            mapped == pairs@.map_values(|p: (String, String)| (p.0@, p.1@)),
            forall|j: int| 0 <= j < i ==> mapped[j].0 != key@,
        decreases n - i,
    {
        if crate::fs_model::str_eq(pairs[i].0.as_str(), key) {
            assert(mapped[i as int].0 == key@);
            return true;
        }
        assert(mapped[i as int].0 != key@);
        i = i + 1;
    }
    false
}

impl PackageInfo {
    /// Whether `key` appears among the dependencies or the dev-dependencies.
    pub fn depends_on(&self, key: &str) -> (r: bool)
        ensures
            r == (pairs_contain_key(self@.dependencies, key@) || pairs_contain_key(
                self@.dev_dependencies,
                key@,
            )),
    {
        pairs_contain(&self.dependencies, key) || pairs_contain(&self.dev_dependencies, key)
    }
}

/// A specific subdirectory of a project eligible for deletion.
#[derive(Debug, Clone)]
pub struct CleanTarget {
    pub path: String,
    pub target_type: TargetType,
    pub size: Option<u64>,
}

/// Mathematical image of a [`CleanTarget`].
#[verifier::ext_equal]
pub struct CleanTargetView {
    pub path: Seq<char>,
    pub target_type: TargetTypeView,
    pub size: Option<u64>,
}

impl View for CleanTarget {
    type V = CleanTargetView;

    open spec fn view(&self) -> CleanTargetView {
        CleanTargetView { path: self.path@, target_type: self.target_type@, size: self.size }
    }
}

/// A directory identified as the root of a software package, together with
/// its classification and its resolved cleanup plan.
#[derive(Debug, Clone)]
pub struct Project {
    pub path: String,
    pub project_type: ProjectType,
    pub package_info: Option<PackageInfo>,
    pub size_info: Option<SizeInfo>,
    pub detected_targets: Vec<CleanTarget>,
}

/// Mathematical image of a [`Project`].
#[verifier::ext_equal]
pub struct ProjectView {
    pub path: Seq<char>,
    pub project_type: ProjectType,
    pub package_info: Option<PackageInfoView>,
    pub size_info: Option<SizeInfo>,
    pub detected_targets: Seq<CleanTargetView>,
}

impl View for Project {
    type V = ProjectView;

    open spec fn view(&self) -> ProjectView {
        ProjectView {
            path: self.path@,
            project_type: self.project_type,
            package_info: match self.package_info {
                Some(pi) => Some(pi@),
                None => None,
            },
            size_info: self.size_info,
            detected_targets: self.detected_targets@.map_values(|t: CleanTarget| t@),
        }
    }
}

/// The file whose presence makes a directory a project root.
pub open spec fn manifest_file_name() -> Seq<char> {
    "package.json"@
}

/// Whether the directory is a project root: it directly holds the manifest.
pub open spec fn has_manifest(t: TreeModel) -> bool {
    find_file(t.files, manifest_file_name()) is Some
}

/// The text of the manifest at `t`, where the file exists and was read.
pub open spec fn manifest_text(t: TreeModel) -> Option<Seq<char>> {
    match find_file(t.files, manifest_file_name()) {
        None => None,
        Some(f) => f.text,
    }
}

impl Project {
    /// A freshly discovered, still unclassified project at `path`.
    pub fn new(path: String) -> (r: Project)
        ensures
            r@.path == path@,
            r@.project_type == ProjectType::Unknown,
            r@.package_info is None,
            r@.size_info is None,
            r@.detected_targets.len() == 0,
    {
        Project {
            path,
            project_type: ProjectType::Unknown,
            package_info: None,
            size_info: None,
            detected_targets: Vec::new(),
        }
    }

    /// Whether the directory holds a package manifest.
    pub fn has_package_json(dir: &DirNode) -> (r: bool)
        ensures
            r == has_manifest(tree_model(*dir)),
    {
        dir.has_file("package.json")
    }
}

} // verus!
