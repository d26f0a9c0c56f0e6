use npm_clean::fs_model::{DirNode, FileNode};
use npm_clean::plugins::examples::{ExampleDetector, ExamplePlugin};
use npm_clean::plugins::registry::{initialize_plugins, Plugin, PluginKind, PluginRegistry};
use npm_clean::plugins::{HookContext, HookType};
use npm_clean::project::detector::{DefaultDetector, ManifestError, ProjectDetector};
use npm_clean::project::{Project, ProjectType};

fn marker_dir(with_marker: bool) -> DirNode {
    let mut files = Vec::new();
    if with_marker {
        files.push(FileNode { name: String::from("example.config.js"), size: 1, text: None });
    }
    DirNode { name: String::from("p"), files, dirs: Vec::new() }
}

#[test]
fn registry_holds_registered_plugins() {
    let mut registry = PluginRegistry::new();
    assert!(registry.get_plugins().is_empty());
    registry.register(PluginKind::Example(ExamplePlugin::new()));
    assert_eq!(registry.get_plugins().len(), 1);
    assert_eq!(registry.get_plugins()[0].name(), "example_plugin");
    assert_eq!(registry.get_plugins()[0].version(), "0.1.0");
}

#[test]
fn initialize_plugins_registers_the_example_plugin() {
    let registry = initialize_plugins();
    assert_eq!(registry.get_plugins().len(), 1);
    assert_eq!(registry.get_project_detectors().len(), 1);
}

#[test]
fn execute_hook_succeeds_over_the_example_plugin() {
    let registry = initialize_plugins();
    let context = HookContext::empty();
    assert!(registry.execute_hook(HookType::BeforeCleaning, &context).is_ok());
    assert!(registry.execute_hook(HookType::AfterCleaning, &context).is_ok());
    assert!(registry.execute_hook(HookType::BeforeCleanProject, &context).is_ok());
    assert!(registry.execute_hook(HookType::AfterCleanProject, &context).is_ok());
    assert!(registry.execute_hook(HookType::BeforeCleanTarget, &context).is_ok());
    assert!(registry.execute_hook(HookType::AfterCleanTarget, &context).is_ok());
}

#[test]
fn filter_plugins_matches_on_the_marker_file() {
    let registry = initialize_plugins();
    let project = Project::new(String::from("p"));
    let with_marker = marker_dir(true);
    let without_marker = marker_dir(false);
    assert_eq!(registry.filter_plugins_for_project(&project, &with_marker).len(), 1);
    assert_eq!(registry.filter_plugins_for_project(&project, &without_marker).len(), 0);
}

#[test]
fn example_detector_marks_projects_by_its_config_file() {
    let detector = ExampleDetector::new();
    let mut project = Project::new(String::from("p"));
    assert!(detector.detect(&mut project, &marker_dir(true)));
    assert_eq!(project.project_type, ProjectType::Unknown);
    assert!(!detector.detect(&mut project, &marker_dir(false)));
    assert_eq!(detector.get_priority(), 50);
    assert_eq!(detector.get_build_dirs(&project), vec!["example-build", "example-dist"]);
    assert_eq!(detector.get_cache_dirs(&project), vec![".example-cache"]);
    assert_eq!(detector.get_coverage_dirs(&project), vec!["example-coverage"]);
}

#[test]
fn parse_package_json_reads_metadata_with_defaults() {
    let info = DefaultDetector::parse_package_json(
        r#"{"name":"demo","version":"2.0.0","dependencies":{"react":"^18","broken":5},"devDependencies":{"vite":"^5"}}"#,
    )
    .expect("well-formed manifest");
    assert_eq!(info.name, "demo");
    assert_eq!(info.version, "2.0.0");
    assert_eq!(
        info.dependencies,
        vec![(String::from("react"), String::from("^18"))],
        "entries whose values are not strings are dropped"
    );
    assert_eq!(info.dev_dependencies, vec![(String::from("vite"), String::from("^5"))]);
}

#[test]
fn parse_package_json_fails_only_on_malformed_text() {
    assert_eq!(
        DefaultDetector::parse_package_json("not json at all").unwrap_err(),
        ManifestError::Invalid
    );
    let info = DefaultDetector::parse_package_json("{}").expect("empty object is a manifest");
    assert_eq!(info.name, "unknown");
    assert_eq!(info.version, "0.0.0");
    assert!(info.dependencies.is_empty());
    assert!(info.dev_dependencies.is_empty());
}
