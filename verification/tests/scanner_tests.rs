use npm_clean::cleaner::{Cleaner, TargetAction};
use npm_clean::config::Config;
use npm_clean::fs_model::{calculate_directory_size, DirNode, FileNode};
use npm_clean::project::{Project, ProjectType, TargetType};
use npm_clean::scanner::Scanner;

fn file(name: &str, size: u64) -> FileNode {
    FileNode { name: String::from(name), size, text: None }
}

fn manifest(text: &str) -> FileNode {
    FileNode { name: String::from("package.json"), size: text.len() as u64, text: Some(String::from(text)) }
}

fn dir(name: &str, files: Vec<FileNode>, dirs: Vec<DirNode>) -> DirNode {
    DirNode { name: String::from(name), files, dirs }
}

fn target_names(project: &Project) -> Vec<String> {
    project.detected_targets.iter().map(|t| t.path.clone()).collect()
}

#[test]
fn scenario_two_projects_dry_run() {
    let proj_a = dir(
        "proj-a",
        vec![manifest(r#"{"name":"a","version":"1.0.0","dependencies":{"next":"^13"}}"#)],
        vec![
            dir("node_modules", vec![file("left-pad.js", 100)], vec![]),
            dir(".next", vec![file("chunk.js", 50)], vec![]),
        ],
    );
    let proj_b = dir(
        "proj-b",
        vec![manifest(r#"{"name":"b","version":"1.0.0","dependencies":{"vue":"^3"}}"#)],
        vec![dir("dist", vec![file("bundle.js", 30)], vec![])],
    );
    let root = dir("root", vec![], vec![proj_a, proj_b]);

    let mut config = Config::default();
    config.recursive = false;
    config.force = true;
    config.dry_run = true;

    let scanner = Scanner::new(config.clone());
    let projects = scanner.scan(&root, "root");

    assert_eq!(projects.len(), 2, "exactly two projects");
    assert_eq!(projects[0].path, "root/proj-a");
    assert_eq!(projects[0].project_type, ProjectType::NextJs);
    assert_eq!(projects[1].path, "root/proj-b");
    assert_eq!(projects[1].project_type, ProjectType::Vue);

    assert_eq!(
        target_names(&projects[0]),
        vec![String::from("root/proj-a/node_modules"), String::from("root/proj-a/.next")]
    );
    assert_eq!(target_names(&projects[1]), vec![String::from("root/proj-b/dist")]);

    // Dry run: the plan simulates everything and removes nothing.
    let cleaner = Cleaner::new(config);
    let plan = cleaner.plan(&projects);
    assert!(!plan.needs_confirmation);
    for project_plan in &plan.projects {
        for target in &project_plan.targets {
            assert_eq!(target.action, TargetAction::Simulate);
            assert!(target.action != TargetAction::Remove);
        }
    }
}

#[test]
fn next_wins_over_react_by_priority() {
    let p = dir(
        "p",
        vec![manifest(
            r#"{"name":"p","version":"0.1.0","dependencies":{"react":"^18","next":"^13"}}"#,
        )],
        vec![],
    );
    let scanner = Scanner::new(Config::default());
    let project = scanner.analyze_project("p", &p);
    assert_eq!(project.project_type, ProjectType::NextJs);
}

#[test]
fn generic_fallback_classifies_plain_node_project() {
    let p = dir(
        "p",
        vec![manifest(r#"{"name":"p","version":"0.1.0","dependencies":{"lodash":"^4"}}"#)],
        vec![],
    );
    let scanner = Scanner::new(Config::default());
    let project = scanner.analyze_project("p", &p);
    assert_eq!(project.project_type, ProjectType::NodeJs);
}

#[test]
fn config_file_alone_is_not_enough_without_metadata() {
    // The framework detectors demand parsed metadata before they look at
    // configuration files.
    let p = dir("p", vec![file("next.config.js", 10)], vec![]);
    let scanner = Scanner::new(Config::default());
    let project = scanner.analyze_project("p", &p);
    assert_eq!(project.project_type, ProjectType::Unknown);
    assert!(project.package_info.is_none());
}

#[test]
fn vue_detected_through_config_file() {
    let p = dir(
        "p",
        vec![
            manifest(r#"{"name":"p","version":"0.1.0"}"#),
            file("vite.config.js", 10),
        ],
        vec![],
    );
    let scanner = Scanner::new(Config::default());
    let project = scanner.analyze_project("p", &p);
    assert_eq!(project.project_type, ProjectType::Vue);
}

#[test]
fn unparseable_manifest_leaves_project_unknown() {
    let broken = FileNode {
        name: String::from("package.json"),
        size: 3,
        text: Some(String::from("{ not json")),
    };
    let p = dir("p", vec![broken], vec![]);
    let scanner = Scanner::new(Config::default());
    let project = scanner.analyze_project("p", &p);
    assert_eq!(project.project_type, ProjectType::Unknown);
    assert!(project.package_info.is_none());
}

#[test]
fn exclusion_drops_matching_targets_even_custom_ones() {
    let p = dir(
        "proj",
        vec![manifest(r#"{"name":"p","version":"0.1.0"}"#)],
        vec![
            dir("node_modules", vec![], vec![]),
            dir("dist", vec![], vec![]),
            dir("junk", vec![], vec![]),
        ],
    );
    let mut config = Config::default();
    config.exclude = vec![String::from("*/dist"), String::from("*/junk")];
    config.custom_targets = vec![String::from("junk")];
    let scanner = Scanner::new(config);
    let project = scanner.analyze_project("proj", &p);
    let names = target_names(&project);
    assert_eq!(names, vec![String::from("proj/node_modules")]);
}

#[test]
fn custom_targets_are_discovered_and_typed() {
    let p = dir(
        "proj",
        vec![manifest(r#"{"name":"p","version":"0.1.0"}"#)],
        vec![dir("junk", vec![], vec![])],
    );
    let mut config = Config::default();
    config.custom_targets = vec![String::from("junk"), String::from("absent")];
    let scanner = Scanner::new(config);
    let project = scanner.analyze_project("proj", &p);
    let custom: Vec<&TargetType> = project
        .detected_targets
        .iter()
        .map(|t| &t.target_type)
        .collect();
    assert_eq!(custom, vec![&TargetType::Custom(String::from("junk"))]);
}

#[test]
fn node_modules_is_discovered_even_with_its_switch_off() {
    let p = dir(
        "proj",
        vec![manifest(r#"{"name":"p","version":"0.1.0"}"#)],
        vec![dir("node_modules", vec![], vec![])],
    );
    let mut config = Config::default();
    config.clean_node_modules = false;
    let scanner = Scanner::new(config.clone());
    let project = scanner.analyze_project("proj", &p);
    assert_eq!(target_names(&project), vec![String::from("proj/node_modules")]);

    let cleaner = Cleaner::new(config);
    let plan = cleaner.plan(&vec![project]);
    assert_eq!(plan.projects[0].targets[0].action, TargetAction::Skip);
}

#[test]
fn sizes_are_measured_only_with_stats_on() {
    let p = dir(
        "proj",
        vec![manifest(r#"{"name":"p","version":"0.1.0"}"#)],
        vec![dir(
            "node_modules",
            vec![file("a", 100), file("b", 20)],
            vec![dir("nested", vec![file("c", 3)], vec![])],
        )],
    );

    let scanner = Scanner::new(Config::default());
    let project = scanner.analyze_project("proj", &p);
    assert_eq!(project.detected_targets[0].size, None);
    assert!(project.size_info.is_none());

    let mut config = Config::default();
    config.stats = true;
    let scanner = Scanner::new(config);
    let project = scanner.analyze_project("proj", &p);
    assert_eq!(project.detected_targets[0].size, Some(123));
    let info = project.size_info.expect("size totals expected");
    assert_eq!(info.total_size, 123);
    assert_eq!(info.node_modules_size, 123);
    assert_eq!(info.build_dirs_size, 0);
}

#[test]
fn directory_size_sums_files_recursively() {
    let tree = dir(
        "top",
        vec![file("a", 7), file("b", 5)],
        vec![dir("sub", vec![file("c", 1)], vec![dir("deep", vec![file("d", 2)], vec![])])],
    );
    assert_eq!(calculate_directory_size(&tree), 15);
    assert!(!tree.is_empty_dir());
    assert!(dir("empty", vec![], vec![]).is_empty_dir());
}

#[test]
fn recursive_scan_descends_and_prunes_dependency_dirs() {
    let nested = dir(
        "inner",
        vec![manifest(r#"{"name":"inner","version":"0.1.0"}"#)],
        vec![],
    );
    let hidden = dir(
        "node_modules",
        vec![],
        vec![dir(
            "shadow",
            vec![manifest(r#"{"name":"shadow","version":"0.1.0"}"#)],
            vec![],
        )],
    );
    let root = dir(
        "root",
        vec![manifest(r#"{"name":"outer","version":"0.1.0"}"#)],
        vec![dir("packages", vec![], vec![nested]), hidden],
    );

    let mut config = Config::default();
    config.recursive = true;
    let scanner = Scanner::new(config);
    let paths = scanner.find_project_paths(&root, "root");
    assert_eq!(
        paths,
        vec![String::from("root"), String::from("root/packages/inner")]
    );

    // Non-recursive: the root project ends the descent.
    let scanner = Scanner::new(Config::default());
    let paths = scanner.find_project_paths(&root, "root");
    assert_eq!(paths, vec![String::from("root")]);
}

#[test]
fn max_depth_limits_the_walk() {
    let deep = dir(
        "a",
        vec![],
        vec![dir(
            "b",
            vec![],
            vec![dir(
                "c",
                vec![manifest(r#"{"name":"c","version":"0.1.0"}"#)],
                vec![],
            )],
        )],
    );
    // The project sits two hops below the root; depth counting starts at 0.
    let mut config = Config::default();
    config.recursive = true;
    config.max_depth = Some(1);
    let scanner = Scanner::new(config);
    assert!(scanner.scan(&deep, "a").is_empty());

    let mut config = Config::default();
    config.recursive = true;
    config.max_depth = Some(2);
    let scanner = Scanner::new(config);
    assert_eq!(scanner.scan(&deep, "a").len(), 1);
}

#[test]
fn duplicate_paths_never_enter_the_plan() {
    let p = dir(
        "proj",
        vec![manifest(r#"{"name":"p","version":"0.1.0"}"#)],
        vec![dir("dist", vec![], vec![]), dir("junk", vec![], vec![])],
    );
    let mut config = Config::default();
    config.custom_targets = vec![
        String::from("dist"),
        String::from("junk"),
        String::from("junk"),
    ];
    let scanner = Scanner::new(config);
    let project = scanner.analyze_project("proj", &p);
    // The build phase already claims "dist", so the custom name contributes
    // nothing; the repeated custom name contributes once.
    assert_eq!(
        target_names(&project),
        vec![String::from("proj/dist"), String::from("proj/junk")]
    );
    assert_eq!(project.detected_targets[0].target_type, TargetType::BuildDir);
    assert_eq!(
        project.detected_targets[1].target_type,
        TargetType::Custom(String::from("junk"))
    );
}

#[test]
fn rescan_after_clean_finds_nothing_eligible() {
    let before = dir(
        "root",
        vec![],
        vec![
            dir(
                "proj",
                vec![manifest(r#"{"name":"p","version":"0.1.0","dependencies":{"react":"*"}}"#)],
                vec![
                    dir("node_modules", vec![file("m", 10)], vec![]),
                    dir("build", vec![file("b", 5)], vec![]),
                    dir("src", vec![file("s", 1)], vec![]),
                ],
            ),
        ],
    );
    // The same root after the planned removals succeeded.
    let after = dir(
        "root",
        vec![],
        vec![dir(
            "proj",
            vec![manifest(r#"{"name":"p","version":"0.1.0","dependencies":{"react":"*"}}"#)],
            vec![dir("src", vec![file("s", 1)], vec![])],
        )],
    );

    let mut config = Config::default();
    config.recursive = true;
    config.force = true;
    let scanner = Scanner::new(config.clone());
    let cleaner = Cleaner::new(config);

    let first_plan = cleaner.plan(&scanner.scan(&before, "root"));
    let removed: Vec<String> = first_plan
        .projects
        .iter()
        .flat_map(|p| p.targets.iter())
        .filter(|t| t.action == TargetAction::Remove)
        .map(|t| t.path.clone())
        .collect();
    assert_eq!(
        removed,
        vec![String::from("root/proj/node_modules"), String::from("root/proj/build")]
    );

    let second_plan = cleaner.plan(&scanner.scan(&after, "root"));
    for project_plan in &second_plan.projects {
        for target in &project_plan.targets {
            assert!(target.action != TargetAction::Remove, "nothing left to remove");
        }
    }
}

#[test]
fn removal_order_lists_children_before_parents() {
    let tree = dir(
        "top",
        vec![],
        vec![
            dir("sub", vec![], vec![dir("deep", vec![], vec![])]),
            dir("other", vec![], vec![]),
        ],
    );
    let order = npm_clean::fs_model::removal_order(&tree, "top");
    assert_eq!(
        order,
        vec![
            String::from("top/sub/deep"),
            String::from("top/sub"),
            String::from("top/other"),
            String::from("top"),
        ]
    );
}

#[test]
fn scanning_twice_yields_the_same_projects() {
    let root = dir(
        "root",
        vec![manifest(r#"{"name":"p","version":"0.1.0","dependencies":{"react":"*"}}"#)],
        vec![dir("build", vec![file("x", 9)], vec![])],
    );
    let scanner = Scanner::new(Config::default());
    let first = scanner.scan(&root, "root");
    let second = scanner.scan(&root, "root");
    assert_eq!(first.len(), second.len());
    for (a, b) in first.iter().zip(second.iter()) {
        assert_eq!(a.path, b.path);
        assert_eq!(a.project_type, b.project_type);
        assert_eq!(target_names(a), target_names(b));
    }
}
