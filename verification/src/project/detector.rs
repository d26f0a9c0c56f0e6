use vstd::prelude::*;
use vstd::string::StringExecFns;

use crate::fs_model::{find_file, tree_model, DirNode, TreeModel};
use crate::project::{
    pairs_contain_key, PackageInfo, PackageInfoView, Project, ProjectType, ProjectView,
};

verus! {

/// What the manifest decoder hands over: the raw fields the engine reads,
/// before defaults and filtering are applied.  A dependency value that is not
/// a string in the document is carried as `None`.
#[derive(Debug)]
pub struct ManifestDoc {
    pub name: Option<String>,
    pub version: Option<String>,
    pub dependencies: Vec<(String, Option<String>)>,
    pub dev_dependencies: Vec<(String, Option<String>)>,
}

/// What decoding a manifest text yields; a function of the text alone.
pub uninterp spec fn manifest_of(s: Seq<char>) -> Option<ManifestDoc>;

/// Relies on `serde_json::from_str` and the `Value` accessors: parsing is
/// deterministic, and with this crate's default features object entries are
/// iterated in key order, so the decoded document depends on the text alone.
#[verifier::external_body]
fn decode_manifest(content: &str) -> (r: Option<ManifestDoc>)
    ensures
        r == manifest_of(content@),
{
    let v: serde_json::Value = serde_json::from_str(content).ok()?;
    let text = |k| v.get(k).and_then(|x| x.as_str()).map(str::to_string);
    let entries = |k| {
        let m = v.get(k).and_then(|x| x.as_object());
        m.map(|m| m.iter().map(|(k, x)| (k.clone(), x.as_str().map(str::to_string))).collect())
    };
    Some(ManifestDoc {
        name: text("name"),
        version: text("version"),
        dependencies: entries("dependencies").unwrap_or_default(),
        dev_dependencies: entries("devDependencies").unwrap_or_default(),
    })
}

/// How manifest parsing can fail.
#[derive(Debug, Clone, PartialEq, Eq, Structural)]
pub enum ManifestError {
    /// The text is not a well-formed manifest document.
    Invalid,
}

/// The raw entries whose values are strings, keys and values paired in order.
pub open spec fn filtered_entries(entries: Seq<(String, Option<String>)>) -> Seq<
    (Seq<char>, Seq<char>),
>
    decreases entries.len(),
{
    if entries.len() == 0 {
        Seq::empty()
    } else {
        let rest = filtered_entries(entries.drop_first());
        match entries[0].1 {
            Some(v) => seq![(entries[0].0@, v@)] + rest,
            None => rest,
        }
    }
}

/// Keeps the entries whose values are strings, dropping the others.
pub fn extract_dependencies(entries: &Vec<(String, Option<String>)>) -> (r: Vec<(String, String)>)
    ensures
        r@.map_values(|p: (String, String)| (p.0@, p.1@)) == filtered_entries(entries@),
{
    let mut result: Vec<(String, String)> = Vec::new();
    let mut i: usize = 0;
    let n = entries.len();
    proof {
        assert(entries@.subrange(0, n as int) =~= entries@);
    }
    while i < n
        invariant
            0 <= i <= n,
            n == entries@.len(),
            result@.map_values(|p: (String, String)| (p.0@, p.1@)) + filtered_entries(
                entries@.subrange(i as int, n as int),
            ) == filtered_entries(entries@),
        decreases n - i,
    {
        let ghost rest = entries@.subrange(i as int, n as int);
        proof {
            assert(rest[0] == entries@[i as int]);
            assert(rest.drop_first() =~= entries@.subrange(i + 1, n as int));
        }
        let ghost before = result@.map_values(|p: (String, String)| (p.0@, p.1@));
        match &entries[i].1 {
            Some(v) => {
                let key = entries[i].0.as_str().to_owned();
                let value = v.as_str().to_owned();
                result.push((key, value));
                proof {
                    assert(result@.map_values(|p: (String, String)| (p.0@, p.1@)) =~= before
                        + seq![(entries@[i as int].0@, entries@[i as int].1->0@)]);
                    assert(before + seq![(entries@[i as int].0@, entries@[i as int].1->0@)]
                        + filtered_entries(entries@.subrange(i + 1, n as int)) =~= before
                        + filtered_entries(rest));
                }
            },
            None => {},
        }
        i = i + 1;
    }
    proof {
        assert(entries@.subrange(n as int, n as int).len() == 0);
        assert(result@.map_values(|p: (String, String)| (p.0@, p.1@)) =~= filtered_entries(
            entries@,
        ));
    }
    result
}

/// The package metadata that parsing `text` yields: the decoded fields with
/// defaults for a missing name or version, and with non-string dependency
/// values dropped.  `None` where the text is not a well-formed manifest.
pub open spec fn parsed_package(text: Seq<char>) -> Option<PackageInfoView> {
    match manifest_of(text) {
        None => None,
        Some(m) => Some(doc_package_view(m)),
    }
}

/// The package metadata a decoded document denotes.
pub open spec fn doc_package_view(m: ManifestDoc) -> PackageInfoView {
    PackageInfoView {
        name: match m.name {
            Some(n) => n@,
            None => "unknown"@,
        },
        version: match m.version {
            Some(v) => v@,
            None => "0.0.0"@,
        },
        dependencies: filtered_entries(m.dependencies@),
        dev_dependencies: filtered_entries(m.dev_dependencies@),
    }
}

/// A project-type detector: it recognizes a project from its parsed manifest
/// and the files at its root, and supplies the disposable directory names for
/// its project type.
pub trait ProjectDetector: Sized {
    /// Whether this detector recognizes the project.
    spec fn matches_spec(&self, pkg: Option<PackageInfoView>, dir: TreeModel) -> bool;

    /// The classification assigned on a match.
    spec fn assigned_type(&self) -> ProjectType;

    /// The build-output directory names for this project type.
    spec fn build_dirs_spec(&self) -> Seq<Seq<char>>;

    /// The tool-cache directory names for this project type.
    spec fn cache_dirs_spec(&self) -> Seq<Seq<char>>;

    /// The coverage directory names for this project type.
    spec fn coverage_dirs_spec(&self) -> Seq<Seq<char>>;

    /// The chain rank; lower wins.
    spec fn priority_spec(&self) -> int;

    /// Side-effect-free test of whether this detector recognizes the project;
    /// detection and directory-list resolution both go through it.
    fn matches(&self, project: &Project, dir: &DirNode) -> (r: bool)
        ensures
            r == self.matches_spec(project@.package_info, tree_model(*dir));

    /// Tests the project and, on a match, classifies it; everything else
    /// about the project is left untouched, so detecting twice yields the
    /// same state.
    fn detect(&self, project: &mut Project, dir: &DirNode) -> (r: bool)
        ensures
            r == self.matches_spec(old(project)@.package_info, tree_model(*dir)),
            final(project)@.path == old(project)@.path,
            final(project)@.package_info == old(project)@.package_info,
            final(project)@.size_info == old(project)@.size_info,
            final(project)@.detected_targets == old(project)@.detected_targets,
            final(project)@.project_type == if r {
                self.assigned_type()
            } else {
                old(project)@.project_type
            },
    ;

    /// The build directories to consider for a project of this type.
    fn get_build_dirs(&self, project: &Project) -> (r: Vec<String>)
        ensures
            r@.map_values(|s: String| s@) == self.build_dirs_spec();

    /// The cache directories to consider for a project of this type.
    fn get_cache_dirs(&self, project: &Project) -> (r: Vec<String>)
        ensures
            r@.map_values(|s: String| s@) == self.cache_dirs_spec();

    /// The coverage directories to consider for a project of this type.
    fn get_coverage_dirs(&self, project: &Project) -> (r: Vec<String>)
        ensures
            r@.map_values(|s: String| s@) == self.coverage_dirs_spec();

    /// The chain rank; lower wins.
    fn get_priority(&self) -> (r: u8)
        ensures
            r as int == self.priority_spec();
}

/// The generic manifest-based fallback detector: any directory with a
/// readable manifest is at least a plain Node.js project.
#[derive(Debug, Clone, Copy)]
pub struct DefaultDetector;

impl DefaultDetector {
    pub fn new() -> (r: Self) {
        DefaultDetector
    }

    /// Parses a manifest text into package metadata: name and version fall
    /// back to `unknown` and `0.0.0`, dependency entries keep only string
    /// values.  Fails exactly when the text is not a well-formed manifest.
    pub fn parse_package_json(content: &str) -> (r: Result<PackageInfo, ManifestError>)
        ensures
            match r {
                Ok(pi) => parsed_package(content@) == Some(pi@),
                Err(e) => parsed_package(content@) is None && e == ManifestError::Invalid,
            },
    {
        match decode_manifest(content) {
            None => Err(ManifestError::Invalid),
            Some(doc) => {
                let name: String = match doc.name {
                    Some(n) => n,
                    None => "unknown".to_owned(),
                };
                let version: String = match doc.version {
                    Some(v) => v,
                    None => "0.0.0".to_owned(),
                };
                let dependencies = extract_dependencies(&doc.dependencies);
                let dev_dependencies = extract_dependencies(&doc.dev_dependencies);
                Ok(PackageInfo { name, version, dependencies, dev_dependencies })
            },
        }
    }
}

impl ProjectDetector for DefaultDetector {
    open spec fn matches_spec(&self, pkg: Option<PackageInfoView>, dir: TreeModel) -> bool {
        pkg is Some
    }

    open spec fn assigned_type(&self) -> ProjectType {
        ProjectType::NodeJs
    }

    open spec fn build_dirs_spec(&self) -> Seq<Seq<char>> {
        seq!["dist"@, "build"@, "out"@]
    }

    open spec fn cache_dirs_spec(&self) -> Seq<Seq<char>> {
        seq![".cache"@]
    }

    open spec fn coverage_dirs_spec(&self) -> Seq<Seq<char>> {
        seq!["coverage"@]
    }

    open spec fn priority_spec(&self) -> int {
        200
    }

    fn matches(&self, project: &Project, dir: &DirNode) -> (r: bool) {
        project.package_info.is_some()
    }

    fn detect(&self, project: &mut Project, dir: &DirNode) -> (r: bool) {
        let m = project.package_info.is_some();
        if m {
            project.project_type = ProjectType::NodeJs;
        }
        m
    }

    fn get_build_dirs(&self, project: &Project) -> (r: Vec<String>) {
        let mut v: Vec<String> = Vec::new();
        v.push("dist".to_owned());
        v.push("build".to_owned());
        v.push("out".to_owned());
        proof {
            assert(v@.map_values(|s: String| s@) =~= self.build_dirs_spec());
        }
        v
    }

    fn get_cache_dirs(&self, project: &Project) -> (r: Vec<String>) {
        let mut v: Vec<String> = Vec::new();
        v.push(".cache".to_owned());
        proof {
            assert(v@.map_values(|s: String| s@) =~= self.cache_dirs_spec());
        }
        v
    }

    fn get_coverage_dirs(&self, project: &Project) -> (r: Vec<String>) {
        let mut v: Vec<String> = Vec::new();
        v.push("coverage".to_owned());
        proof {
            assert(v@.map_values(|s: String| s@) =~= self.coverage_dirs_spec());
        }
        v
    }

    fn get_priority(&self) -> (r: u8) {
        200
    }
}

} // verus!
