use vstd::prelude::*;

use crate::cli::{split_clean, split_arg_list, CliArgs};

verus! {

/// The configuration snapshot that governs one scan-and-clean cycle.
#[derive(Debug, Clone)]
pub struct Config {
    /// Explicitly requested target names.
    pub targets: Vec<String>,
    /// Glob patterns; a candidate target whose path matches any of them is
    /// dropped from the plan.
    pub exclude: Vec<String>,
    /// Keep descending below a discovered project root.
    pub recursive: bool,
    /// Skip the interactive confirmation.
    pub force: bool,
    /// Plan and report, but never remove anything.
    pub dry_run: bool,
    /// Measure target sizes while scanning.
    pub stats: bool,
    /// Verbose reporting.
    pub verbose: bool,
    /// Clean dependency-cache directories.
    pub clean_node_modules: bool,
    /// Clean build-output directories.
    pub clean_build_dirs: bool,
    /// Clean tool-cache directories.
    pub clean_cache_dirs: bool,
    /// Clean coverage directories.
    pub clean_coverage_dirs: bool,
    /// User-declared target names, resolved against each project root.
    pub custom_targets: Vec<String>,
    /// Maximum traversal depth in hops from the root, starting at 0.
    pub max_depth: Option<usize>,
    /// Advisory minimum size; not enforced by the engine.
    pub min_size: Option<u64>,
    /// Advisory worker count; not enforced by the engine.
    pub threads: Option<usize>,
    /// Advisory timeout in milliseconds; not enforced by the engine.
    pub timeout: Option<u64>,
    /// Set internally by callers; never read by the engine.
    pub project_path: Option<String>,
}

impl Default for Config {
    /// All clean switches on; every other switch off, every list empty,
    /// every limit absent.
    fn default() -> (c: Config)
        ensures
            c.targets@.len() == 0,
            c.exclude@.len() == 0,
            !c.recursive,
            !c.force,
            !c.dry_run,
            !c.stats,
            !c.verbose,
            c.clean_node_modules,
            c.clean_build_dirs,
            c.clean_cache_dirs,
            c.clean_coverage_dirs,
            c.custom_targets@.len() == 0,
            c.max_depth is None,
            c.min_size is None,
            c.threads is None,
            c.timeout is None,
            c.project_path is None,
    {
        Config {
            targets: Vec::new(),
            exclude: Vec::new(),
            recursive: false,
            force: false,
            dry_run: false,
            stats: false,
            verbose: false,
            clean_node_modules: true,
            clean_build_dirs: true,
            clean_cache_dirs: true,
            clean_coverage_dirs: true,
            custom_targets: Vec::new(),
            max_depth: None,
            min_size: None,
            threads: None,
            timeout: None,
            project_path: None,
        }
    }
}

/// Directory names conventionally holding build output.
pub fn default_build_dirs() -> (r: Vec<&'static str>)
    ensures
        r@.map_values(|s: &str| s@) =~= seq![
            "dist"@, "build"@, "out"@, ".next"@, ".nuxt"@, ".cache"@, "coverage"@,
        ],
{
    let mut v: Vec<&'static str> = Vec::new();
    v.push("dist");
    v.push("build");
    v.push("out");
    v.push(".next");
    v.push(".nuxt");
    v.push(".cache");
    v.push("coverage");
    v
}

/// Directory names conventionally holding tool caches.
pub fn default_cache_dirs() -> (r: Vec<&'static str>)
    ensures
        r@.map_values(|s: &str| s@) =~= seq![".cache"@, ".angular"@, ".parcel-cache"@, ".nuxt"@],
{
    let mut v: Vec<&'static str> = Vec::new();
    v.push(".cache");
    v.push(".angular");
    v.push(".parcel-cache");
    v.push(".nuxt");
    v
}

/// Directory names conventionally holding coverage reports.
pub fn default_coverage_dirs() -> (r: Vec<&'static str>)
    ensures
        r@.map_values(|s: &str| s@) =~= seq!["coverage"@, ".nyc_output"@],
{
    let mut v: Vec<&'static str> = Vec::new();
    v.push("coverage");
    v.push(".nyc_output");
    v
}

/// Whether some element of `ss` reads as `x`.
pub open spec fn contains_str(ss: Seq<String>, x: Seq<char>) -> bool {
    exists|i: int| 0 <= i < ss.len() && ss[i]@ == x
}

fn vec_contains_string(v: &Vec<String>, x: &String) -> (r: bool)
    ensures
        r == contains_str(v@, x@),
{
    let mut i: usize = 0;
    while i < v.len()
        invariant
            0 <= i <= v@.len(),
            forall|j: int| 0 <= j < i ==> v@[j]@ != x@,
        decreases v@.len() - i,
    {
        if v[i] == *x {
            return true;
        }
        i = i + 1;
    }
    false
}

/// `base` followed by the elements of `add` not already present, in order.
pub open spec fn merge_unique(base: Seq<String>, add: Seq<String>) -> Seq<String>
    decreases add.len(),
{
    if add.len() == 0 {
        base
    } else {
        let grown = if contains_str(base, add[0]@) {
            base
        } else {
            base.push(add[0])
        };
        merge_unique(grown, add.drop_first())
    }
}

/// Merges two configurations, the second taking precedence: booleans are
/// or-combined (except the cache and coverage switches, which keep the base
/// value), limits are overridden where the override provides one, target
/// lists are unioned without duplicates, and exclusion lists are concatenated.
pub fn merge_configs(base: Config, override_config: Config) -> (r: Config)
    ensures
        r.recursive == (override_config.recursive || base.recursive),
        r.force == (override_config.force || base.force),
        r.dry_run == (override_config.dry_run || base.dry_run),
        r.stats == (override_config.stats || base.stats),
        r.verbose == (override_config.verbose || base.verbose),
        r.clean_node_modules == (override_config.clean_node_modules || base.clean_node_modules),
        r.clean_build_dirs == (override_config.clean_build_dirs || base.clean_build_dirs),
        r.clean_cache_dirs == base.clean_cache_dirs,
        r.clean_coverage_dirs == base.clean_coverage_dirs,
        r.max_depth == (if override_config.max_depth is Some {
            override_config.max_depth
        } else {
            base.max_depth
        }),
        r.min_size == (if override_config.min_size is Some {
            override_config.min_size
        } else {
            base.min_size
        }),
        r.threads == (if override_config.threads is Some {
            override_config.threads
        } else {
            base.threads
        }),
        r.timeout == (if override_config.timeout is Some {
            override_config.timeout
        } else {
            base.timeout
        }),
        r.targets@ == merge_unique(base.targets@, override_config.targets@),
        r.custom_targets@ == merge_unique(base.custom_targets@, override_config.custom_targets@),
        r.exclude@ == base.exclude@ + override_config.exclude@,
        r.project_path == base.project_path,
{
    let mut result = base;

    result.recursive = override_config.recursive || result.recursive;
    result.force = override_config.force || result.force;
    result.dry_run = override_config.dry_run || result.dry_run;
    result.stats = override_config.stats || result.stats;
    result.verbose = override_config.verbose || result.verbose;
    result.clean_node_modules = override_config.clean_node_modules || result.clean_node_modules;
    result.clean_build_dirs = override_config.clean_build_dirs || result.clean_build_dirs;

    if override_config.max_depth.is_some() {
        result.max_depth = override_config.max_depth;
    }
    if override_config.min_size.is_some() {
        result.min_size = override_config.min_size;
    }
    if override_config.threads.is_some() {
        result.threads = override_config.threads;
    }
    if override_config.timeout.is_some() {
        result.timeout = override_config.timeout;
    }

    append_unique(&mut result.targets, override_config.targets);
    append_unique(&mut result.custom_targets, override_config.custom_targets);

    let mut extra_exclude = override_config.exclude;
    result.exclude.append(&mut extra_exclude);

    result
}

fn append_unique(acc: &mut Vec<String>, add: Vec<String>)
    ensures
        final(acc)@ == merge_unique(old(acc)@, add@),
{
    let mut rest = add;
    let ghost add_view = rest@;
    while rest.len() > 0
        invariant
            merge_unique(acc@, rest@) == merge_unique(old(acc)@, add_view),
        decreases rest@.len(),
    {
        let ghost rest_before = rest@;
        let element = rest.remove(0);
        proof {
            assert(rest@ =~= rest_before.drop_first());
        }
        if !vec_contains_string(acc, &element) {
            acc.push(element);
        }
    }
}

/// Applies command-line arguments on top of a configuration: simple switches
/// are or-combined (dry-run is taken from the arguments alone), exactly one
/// family of clean switches is enabled when a restricting flag is given, and
/// the comma-separated include/exclude lists are appended.
pub fn apply_cli_args(config: Config, args: &CliArgs) -> (r: Config)
    ensures
        r.recursive == (args.recursive || config.recursive),
        r.force == (args.force || config.force),
        r.dry_run == args.dry_run,
        r.stats == (args.stats || config.stats),
        r.verbose == (args.verbose || config.verbose),
        r.clean_node_modules == (args.node_modules_only || !args.build),
        r.clean_build_dirs == (!args.node_modules_only),
        r.clean_cache_dirs == (!args.node_modules_only && !args.build),
        r.clean_coverage_dirs == (!args.node_modules_only && !args.build),
        r.custom_targets@.map_values(|s: String| s@) == config.custom_targets@.map_values(
            |s: String| s@,
        ) + (match args.extra {
            Some(inc) => split_clean(inc@),
            None => Seq::<Seq<char>>::empty(),
        }),
        r.exclude@.map_values(|s: String| s@) == config.exclude@.map_values(|s: String| s@)
            + (match args.exclude {
            Some(exc) => split_clean(exc@),
            None => Seq::<Seq<char>>::empty(),
        }),
        r.targets == config.targets,
        r.max_depth == config.max_depth,
        r.min_size == config.min_size,
        r.threads == config.threads,
        r.timeout == config.timeout,
        r.project_path == config.project_path,
{
    let mut result = config;

    result.recursive = args.recursive || result.recursive;
    result.force = args.force || result.force;
    result.dry_run = args.dry_run;
    result.stats = args.stats || result.stats;
    result.verbose = args.verbose || result.verbose;

    if args.node_modules_only {
        result.clean_node_modules = true;
        result.clean_build_dirs = false;
        result.clean_cache_dirs = false;
        result.clean_coverage_dirs = false;
    } else if args.build {
        result.clean_node_modules = false;
        result.clean_build_dirs = true;
        result.clean_cache_dirs = false;
        result.clean_coverage_dirs = false;
    } else {
        result.clean_node_modules = true;
        result.clean_build_dirs = true;
        result.clean_cache_dirs = true;
        result.clean_coverage_dirs = true;
    }

    let ghost custom_before = result.custom_targets@;
    if let Some(extra_str) = &args.extra {
        let mut additions = split_arg_list(extra_str.as_str());
        result.custom_targets.append(&mut additions);
    }
    assert(result.custom_targets@.map_values(|s: String| s@) =~= config.custom_targets@.map_values(
        |s: String| s@,
    ) + (match args.extra {
        Some(inc) => split_clean(inc@),
        None => Seq::<Seq<char>>::empty(),
    }));

    if let Some(exclude_str) = &args.exclude {
        let mut excludes = split_arg_list(exclude_str.as_str());
        result.exclude.append(&mut excludes);
    }
    assert(result.exclude@.map_values(|s: String| s@) =~= config.exclude@.map_values(
        |s: String| s@,
    ) + (match args.exclude {
        Some(exc) => split_clean(exc@),
        None => Seq::<Seq<char>>::empty(),
    }));

    result
}

} // verus!
