use npm_clean::cleaner::{
    preview_total_size, should_clean_target, CleanPlan, CleanResults, Cleaner, PlannedTarget,
    ProjectPlan, TargetAction, TargetOutcome,
};
use npm_clean::config::Config;
use npm_clean::project::{CleanTarget, Project, ProjectType, TargetType};

fn project_with_targets(path: &str, targets: Vec<CleanTarget>) -> Project {
    Project {
        path: String::from(path),
        project_type: ProjectType::NodeJs,
        package_info: None,
        size_info: None,
        detected_targets: targets,
    }
}

fn target(path: &str, tt: TargetType, size: Option<u64>) -> CleanTarget {
    CleanTarget { path: String::from(path), target_type: tt, size }
}

#[test]
fn plan_assigns_actions_by_switch_and_mode() {
    let mut config = Config::default();
    config.clean_build_dirs = false;
    let cleaner = Cleaner::new(config);
    let projects = vec![project_with_targets(
        "p",
        vec![
            target("p/node_modules", TargetType::NodeModules, Some(10)),
            target("p/dist", TargetType::BuildDir, Some(20)),
            target("p/junk", TargetType::Custom(String::from("junk")), None),
        ],
    )];
    let plan = cleaner.plan(&projects);
    assert!(plan.needs_confirmation, "no force, no dry run: confirmation owed");
    let actions: Vec<TargetAction> =
        plan.projects[0].targets.iter().map(|t| t.action.clone()).collect();
    assert_eq!(
        actions,
        vec![TargetAction::Remove, TargetAction::Skip, TargetAction::Remove]
    );
}

#[test]
fn force_skips_confirmation() {
    let mut config = Config::default();
    config.force = true;
    let cleaner = Cleaner::new(config);
    let plan = cleaner.plan(&vec![]);
    assert!(!plan.needs_confirmation);
    assert!(plan.projects.is_empty());
}

#[test]
fn collect_results_counts_totals_exactly() {
    let config = Config::default();
    let cleaner = Cleaner::new(config);
    let projects = vec![
        project_with_targets(
            "a",
            vec![
                target("a/node_modules", TargetType::NodeModules, Some(100)),
                target("a/dist", TargetType::BuildDir, Some(40)),
            ],
        ),
        project_with_targets("b", vec![target("b/coverage", TargetType::Coverage, None)]),
    ];
    let plan = cleaner.plan(&projects);
    let outcomes = vec![
        vec![TargetOutcome::Removed, TargetOutcome::Removed],
        vec![TargetOutcome::Removed],
    ];
    let results = cleaner.collect_results(&plan, &outcomes);
    assert_eq!(results.total_projects, 2);
    assert_eq!(results.cleaned_projects, 2);
    assert_eq!(results.failed_projects, 0);
    assert_eq!(results.total_targets, 3);
    assert_eq!(results.cleaned_targets, 3);
    assert_eq!(results.failed_targets, 0);
    assert_eq!(results.total_bytes_removed, 140);
}

#[test]
fn one_failed_target_does_not_spoil_the_batch() {
    let config = Config::default();
    let cleaner = Cleaner::new(config);
    let projects = vec![project_with_targets(
        "a",
        vec![
            target("a/node_modules", TargetType::NodeModules, Some(100)),
            target("a/dist", TargetType::BuildDir, Some(40)),
            target("a/coverage", TargetType::Coverage, Some(5)),
        ],
    )];
    let plan = cleaner.plan(&projects);
    let outcomes = vec![vec![
        TargetOutcome::Removed,
        TargetOutcome::Failed,
        TargetOutcome::Removed,
    ]];
    let results = cleaner.collect_results(&plan, &outcomes);
    assert_eq!(results.failed_targets, 1);
    assert_eq!(results.cleaned_targets, 2);
    assert_eq!(
        results.cleaned_projects, 1,
        "a project with one failed target still counts as cleaned"
    );
    assert_eq!(results.total_bytes_removed, 105);
}

#[test]
fn dry_run_counts_would_free_bytes_without_removals() {
    let mut config = Config::default();
    config.dry_run = true;
    config.clean_coverage_dirs = false;
    let cleaner = Cleaner::new(config);
    let projects = vec![project_with_targets(
        "a",
        vec![
            target("a/node_modules", TargetType::NodeModules, Some(70)),
            target("a/coverage", TargetType::Coverage, Some(9)),
        ],
    )];
    let plan = cleaner.plan(&projects);
    for t in &plan.projects[0].targets {
        assert!(t.action != TargetAction::Remove, "dry run never removes");
    }
    assert_eq!(preview_total_size(&plan), 70);
    let outcomes = vec![vec![TargetOutcome::Simulated, TargetOutcome::Skipped]];
    let results = cleaner.collect_results(&plan, &outcomes);
    assert_eq!(results.cleaned_targets, 1);
    assert_eq!(results.total_bytes_removed, 70);
}

#[test]
fn empty_results_keep_the_project_count() {
    let results = CleanResults::empty(4);
    assert_eq!(results.total_projects, 4);
    assert_eq!(results.cleaned_projects, 0);
    assert_eq!(results.total_bytes_removed, 0);
}

#[test]
fn should_clean_follows_the_switches() {
    let mut config = Config::default();
    config.clean_cache_dirs = false;
    assert!(should_clean_target(&config, &TargetType::NodeModules));
    assert!(!should_clean_target(&config, &TargetType::CacheDir));
    assert!(should_clean_target(
        &config,
        &TargetType::Custom(String::from("anything"))
    ));
}

#[test]
fn preview_counts_only_eligible_sizes() {
    let plan = CleanPlan {
        needs_confirmation: false,
        projects: vec![ProjectPlan {
            project_path: String::from("p"),
            targets: vec![
                PlannedTarget {
                    path: String::from("p/node_modules"),
                    target_type: TargetType::NodeModules,
                    size: Some(11),
                    action: TargetAction::Remove,
                },
                PlannedTarget {
                    path: String::from("p/dist"),
                    target_type: TargetType::BuildDir,
                    size: Some(5),
                    action: TargetAction::Skip,
                },
                PlannedTarget {
                    path: String::from("p/coverage"),
                    target_type: TargetType::Coverage,
                    size: None,
                    action: TargetAction::Simulate,
                },
            ],
        }],
    };
    assert_eq!(preview_total_size(&plan), 11);
}

#[test]
fn target_labels_read_naturally() {
    assert_eq!(TargetType::NodeModules.label(), "node_modules");
    assert_eq!(TargetType::BuildDir.label(), "build");
    assert_eq!(TargetType::CacheDir.label(), "cache");
    assert_eq!(TargetType::Coverage.label(), "coverage");
    assert_eq!(
        TargetType::Custom(String::from("junk")).label(),
        "custom: junk"
    );
}

#[test]
fn add_detectors_extends_the_cleaner() {
    let mut cleaner = Cleaner::new(Config::default());
    assert!(cleaner.additional_detectors.is_empty());
    cleaner.add_detectors(npm_clean::project::analyzers::get_all_detectors());
    assert_eq!(cleaner.additional_detectors.len(), 6);
}
