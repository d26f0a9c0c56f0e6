use npm_clean::cli::CliArgs;
use npm_clean::config::{apply_cli_args, default_build_dirs, default_cache_dirs, default_coverage_dirs, merge_configs, Config};

#[test]
fn test_default_config() {
    let config = Config::default();
    println!("Default config values:");
    println!("clean_node_modules = {}", config.clean_node_modules);
    println!("clean_build_dirs = {}", config.clean_build_dirs);
    println!("clean_cache_dirs = {}", config.clean_cache_dirs);
    println!("clean_coverage_dirs = {}", config.clean_coverage_dirs);

    assert!(
        config.clean_node_modules,
        "clean_node_modules should be true"
    );
    assert!(config.clean_build_dirs, "clean_build_dirs should be true");
    assert!(!config.dry_run, "dry_run should be false");
    assert!(!config.force, "force should be false");
}

#[test]
fn test_cli_args_override() {
    let mut config = Config::default();
    assert!(config.clean_node_modules);
    assert!(config.clean_build_dirs);

    let args = CliArgs {
        path: String::from("."),
        recursive: false,
        force: false,
        dry_run: false,
        config: None,
        node_modules_only: true,
        build: false,
        extra: None,
        exclude: None,
        stats: false,
        verbose: false,
    };

    config = apply_cli_args(config, &args);

    assert!(
        config.clean_node_modules,
        "clean_node_modules should be true with node_modules_only"
    );
    assert!(
        !config.clean_build_dirs,
        "clean_build_dirs should be false with node_modules_only"
    );
    assert!(
        !config.clean_cache_dirs,
        "clean_cache_dirs should be false with node_modules_only"
    );
    assert!(
        !config.clean_coverage_dirs,
        "clean_coverage_dirs should be false with node_modules_only"
    );
}

#[test]
fn test_config_default() {
    let config = Config::default();

    assert!(
        config.clean_node_modules,
        "clean_node_modules should default to true"
    );
    assert!(
        config.clean_build_dirs,
        "clean_build_dirs should default to true"
    );
    assert!(
        config.clean_cache_dirs,
        "clean_cache_dirs should default to true"
    );
    assert!(
        config.clean_coverage_dirs,
        "clean_coverage_dirs should default to true"
    );

    assert!(!config.recursive, "recursive should default to false");
    assert!(!config.force, "force should default to false");
    assert!(!config.dry_run, "dry_run should default to false");
    assert!(!config.stats, "stats should default to false");
    assert!(!config.verbose, "verbose should default to false");

    assert!(config.targets.is_empty(), "targets should default to empty");
    assert!(config.exclude.is_empty(), "exclude should default to empty");
    assert!(
        config.custom_targets.is_empty(),
        "custom_targets should default to empty"
    );
}

#[test]
fn merge_prefers_override_and_unions_lists() {
    let mut base = Config::default();
    base.targets = vec![String::from("a"), String::from("b")];
    base.exclude = vec![String::from("x")];
    base.clean_cache_dirs = false;
    base.max_depth = Some(3);

    let mut over = Config::default();
    over.recursive = true;
    over.targets = vec![String::from("b"), String::from("c")];
    over.exclude = vec![String::from("x"), String::from("y")];
    over.max_depth = Some(7);
    over.clean_cache_dirs = true; // kept from base, not merged

    let merged = merge_configs(base, over);
    assert!(merged.recursive);
    assert_eq!(merged.targets, vec![String::from("a"), String::from("b"), String::from("c")]);
    assert_eq!(
        merged.exclude,
        vec![String::from("x"), String::from("x"), String::from("y")]
    );
    assert_eq!(merged.max_depth, Some(7));
    assert!(!merged.clean_cache_dirs, "cache switch keeps the base value");
    assert!(merged.clean_coverage_dirs);
}

#[test]
fn cli_extra_and_exclude_lists_are_split_and_trimmed() {
    let config = Config::default();
    let args = CliArgs {
        path: String::from("."),
        recursive: false,
        force: false,
        dry_run: false,
        config: None,
        node_modules_only: false,
        build: false,
        extra: Some(String::from(" tmp , .cache-old ,,out2 ")),
        exclude: Some(String::from("**/keep,")),
        stats: false,
        verbose: false,
    };
    let config = apply_cli_args(config, &args);
    assert_eq!(
        config.custom_targets,
        vec![
            String::from("tmp"),
            String::from(".cache-old"),
            String::from("out2")
        ]
    );
    assert_eq!(config.exclude, vec![String::from("**/keep")]);
}

#[test]
fn default_directory_lists_hold_the_conventional_names() {
    assert_eq!(
        default_build_dirs(),
        vec!["dist", "build", "out", ".next", ".nuxt", ".cache", "coverage"]
    );
    assert_eq!(
        default_cache_dirs(),
        vec![".cache", ".angular", ".parcel-cache", ".nuxt"]
    );
    assert_eq!(default_coverage_dirs(), vec!["coverage", ".nyc_output"]);
}
