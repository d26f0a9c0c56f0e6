use vstd::prelude::*;
use vstd::string::StringExecFns;

use crate::cleaner::size_or_zero;
use crate::config::Config;
use crate::fs_model::{
    cap64, calculate_directory_size, find_dir, find_file, has_entry, join_path, joined,
    tree_model, DirNode, TreeModel,
};
use crate::project::analyzers::{built_in_chain, get_all_detectors, DetectorKind};
use crate::project::detector::{parsed_package, DefaultDetector};
use crate::project::{
    has_manifest, manifest_text, CleanTarget, CleanTargetView, PackageInfoView, Project,
    ProjectType, ProjectView, SizeInfo, TargetType, TargetTypeView,
};

verus! {

/// Whether the glob `pattern` matches `path`; what `globset` computes from
/// the two strings alone.  The library's backslash handling is fixed per
/// compiled target, so the function named here is that of this build.
pub uninterp spec fn glob_excludes(pattern: Seq<char>, path: Seq<char>) -> bool;

/// Relies on `globset::Glob::new` and `GlobSet::is_match`: whether a pattern
/// matches a path depends on the two strings alone.  A pattern that does not
/// parse, or whose compiled form exceeds the library's size limits, matches
/// nothing; both paths return errors rather than panicking.
#[verifier::external_body]
fn glob_matches(pattern: &str, path: &str) -> (r: bool)
    ensures
        r == glob_excludes(pattern@, path@),
{
    let mut builder = globset::GlobSetBuilder::new();
    match globset::Glob::new(pattern) {
        Ok(glob) => {
            builder.add(glob);
        },
        Err(_) => return false,
    }
    match builder.build() {
        Ok(set) => set.is_match(path),
        Err(_) => false,
    }
}

/// Whether some exclusion pattern of the configuration matches `path`.
pub open spec fn excluded_spec(config: Config, path: Seq<char>) -> bool {
    exists|i: int|
        0 <= i < config.exclude@.len() && glob_excludes(config.exclude@[i]@, path)
}

/// The package metadata of the project at `t`: what parsing its manifest
/// yields, or nothing where the manifest is absent, unreadable or malformed.
pub open spec fn package_of(t: TreeModel) -> Option<PackageInfoView> {
    match manifest_text(t) {
        None => None,
        Some(text) => parsed_package(text),
    }
}

/// Index of the first detector of `chain` that recognizes the project;
/// `chain.len()` where none does.
pub open spec fn first_match_index(
    chain: Seq<DetectorKind>,
    pkg: Option<PackageInfoView>,
    dir: TreeModel,
) -> int
    decreases chain.len(),
{
    if chain.len() == 0 {
        0
    } else if chain[0].matches_spec(pkg, dir) {
        0
    } else {
        1 + first_match_index(chain.drop_first(), pkg, dir)
    }
}

/// Index of the detector whose directory lists govern the project: the first
/// match, or the last detector of the chain as the fallback.
pub open spec fn resolved_index(
    chain: Seq<DetectorKind>,
    pkg: Option<PackageInfoView>,
    dir: TreeModel,
) -> int {
    if first_match_index(chain, pkg, dir) < chain.len() {
        first_match_index(chain, pkg, dir)
    } else {
        chain.len() - 1
    }
}

pub proof fn lemma_first_match_props(
    chain: Seq<DetectorKind>,
    pkg: Option<PackageInfoView>,
    dir: TreeModel,
)
    ensures
        0 <= first_match_index(chain, pkg, dir) <= chain.len(),
        first_match_index(chain, pkg, dir) < chain.len() ==> chain[first_match_index(
            chain,
            pkg,
            dir,
        )].matches_spec(pkg, dir),
        forall|m: int|
            0 <= m < first_match_index(chain, pkg, dir) ==> !(#[trigger] chain[m]).matches_spec(
                pkg,
                dir,
            ),
    decreases chain.len(),
{
    if chain.len() > 0 && !chain[0].matches_spec(pkg, dir) {
        lemma_first_match_props(chain.drop_first(), pkg, dir);
        let f = first_match_index(chain.drop_first(), pkg, dir);
        assert forall|m: int| 0 <= m < first_match_index(chain, pkg, dir) implies !(
        #[trigger] chain[m]).matches_spec(pkg, dir) by {
            if m >= 1 {
                assert(chain.drop_first()[m - 1] == chain[m]);
            }
        }
        if f < chain.drop_first().len() {
            assert(chain.drop_first()[f] == chain[f + 1]);
        }
    }
}

pub proof fn lemma_first_match_unique(
    chain: Seq<DetectorKind>,
    pkg: Option<PackageInfoView>,
    dir: TreeModel,
    k: int,
)
    requires
        0 <= k <= chain.len(),
        forall|m: int| 0 <= m < k ==> !(#[trigger] chain[m]).matches_spec(pkg, dir),
        k < chain.len() ==> chain[k].matches_spec(pkg, dir),
    ensures
        first_match_index(chain, pkg, dir) == k,
    decreases chain.len(),
{
    if k == 0 {
        if chain.len() > 0 && !chain[0].matches_spec(pkg, dir) {
            lemma_first_match_props(chain.drop_first(), pkg, dir);
            assert(false);
        }
    } else {
        assert(!chain[0].matches_spec(pkg, dir));
        assert(forall|m: int|
            0 <= m < k - 1 ==> (#[trigger] chain.drop_first()[m]) == chain[m + 1]);
        if k - 1 < chain.drop_first().len() {
            assert(chain.drop_first()[k - 1] == chain[k]);
        }
        lemma_first_match_unique(chain.drop_first(), pkg, dir, k - 1);
    }
}

/// `x` as a byte count, saturating at the largest `u64`.
pub open spec fn sat64(x: int) -> u64 {
    if x > u64::MAX as int {
        u64::MAX
    } else if x < 0 {
        0u64
    } else {
        x as u64
    }
}

/// Bytes beneath the entry `name` of `t`: the recursive size of the
/// subdirectory of that name, or zero where no such subdirectory exists.
pub open spec fn entry_size(t: TreeModel, name: Seq<char>) -> int {
    match find_dir(t.dirs, name) {
        Some(d) => crate::fs_model::tree_size(d),
        None => 0,
    }
}

/// The size a target at entry `name` carries: measured only when statistics
/// are requested.
pub open spec fn target_size_spec(config: Config, t: TreeModel, name: Seq<char>) -> Option<u64> {
    if config.stats {
        Some(sat64(entry_size(t, name)))
    } else {
        None
    }
}

/// The dependency-cache target of the project, always discovered when the
/// entry exists (its clean switch only governs execution), unless excluded.
pub open spec fn nm_targets(config: Config, t: TreeModel, path: Seq<char>) -> Seq<
    CleanTargetView,
> {
    if has_entry(t, "node_modules"@) && !excluded_spec(config, joined(path, "node_modules"@)) {
        seq![
            CleanTargetView {
                path: joined(path, "node_modules"@),
                target_type: TargetTypeView::NodeModules,
                size: target_size_spec(config, t, "node_modules"@),
            },
        ]
    } else {
        Seq::empty()
    }
}

/// The targets contributed by a list of candidate directory names: one for
/// each name that exists as a subdirectory and is not excluded, in order.
pub open spec fn dir_targets(
    config: Config,
    t: TreeModel,
    path: Seq<char>,
    names: Seq<Seq<char>>,
    tt: TargetTypeView,
) -> Seq<CleanTargetView>
    decreases names.len(),
{
    if names.len() == 0 {
        Seq::empty()
    } else {
        let head = if find_dir(t.dirs, names[0]) is Some && !excluded_spec(
            config,
            joined(path, names[0]),
        ) {
            seq![
                CleanTargetView {
                    path: joined(path, names[0]),
                    target_type: tt,
                    size: target_size_spec(config, t, names[0]),
                },
            ]
        } else {
            Seq::empty()
        };
        head + dir_targets(config, t, path, names.drop_first(), tt)
    }
}

/// Whether some target of `ts` already claims the path `p`.
pub open spec fn path_taken(ts: Seq<CleanTargetView>, p: Seq<char>) -> bool {
    exists|i: int| 0 <= i < ts.len() && (#[trigger] ts[i]).path == p
}

/// Whether no two targets of `ts` share a path.
pub open spec fn distinct_paths(ts: Seq<CleanTargetView>) -> bool {
    forall|i: int, j: int|
        0 <= i < j < ts.len() ==> (#[trigger] ts[i]).path != (#[trigger] ts[j]).path
}

/// The targets contributed by the user's custom target names: one for each
/// name that exists as an entry and is not excluded, in order — except a name
/// whose path an earlier target (of `prior`, or an earlier custom name)
/// already claims, which would make the plan attempt one directory twice.
pub open spec fn custom_targets_model(
    config: Config,
    t: TreeModel,
    path: Seq<char>,
    names: Seq<String>,
    prior: Seq<CleanTargetView>,
) -> Seq<CleanTargetView>
    decreases names.len(),
{
    if names.len() == 0 {
        Seq::empty()
    } else {
        let head = if has_entry(t, names[0]@) && !excluded_spec(
            config,
            joined(path, names[0]@),
        ) && !path_taken(prior, joined(path, names[0]@)) {
            seq![
                CleanTargetView {
                    path: joined(path, names[0]@),
                    target_type: TargetTypeView::Custom(names[0]@),
                    size: target_size_spec(config, t, names[0]@),
                },
            ]
        } else {
            Seq::empty()
        };
        head + custom_targets_model(config, t, path, names.drop_first(), prior + head)
    }
}

/// The cleanup plan of one project: the dependency cache, then — each behind
/// its switch — the detector's build, cache and coverage directories, then
/// the custom targets; excluded candidates never enter the plan.
pub open spec fn targets_model(
    config: Config,
    det: DetectorKind,
    t: TreeModel,
    path: Seq<char>,
) -> Seq<CleanTargetView> {
    let pre = nm_targets(config, t, path) + (if config.clean_build_dirs {
        dir_targets(config, t, path, det.build_dirs_spec(), TargetTypeView::BuildDir)
    } else {
        Seq::empty()
    }) + (if config.clean_cache_dirs {
        dir_targets(config, t, path, det.cache_dirs_spec(), TargetTypeView::CacheDir)
    } else {
        Seq::empty()
    }) + (if config.clean_coverage_dirs {
        dir_targets(config, t, path, det.coverage_dirs_spec(), TargetTypeView::Coverage)
    } else {
        Seq::empty()
    });
    pre + custom_targets_model(config, t, path, config.custom_targets@, pre)
}

/// Sum of `f` over the targets.
pub open spec fn sum_sizes(ts: Seq<CleanTargetView>, f: spec_fn(CleanTargetView) -> int) -> int
    decreases ts.len(),
{
    if ts.len() == 0 {
        0
    } else {
        f(ts[0]) + sum_sizes(ts.drop_first(), f)
    }
}

/// The byte size a target contributes to its own kind's total.
pub open spec fn size_of_kind(t: CleanTargetView, tt: TargetTypeView) -> int {
    if t.target_type == tt {
        size_or_zero(t.size)
    } else {
        0
    }
}

/// The size totals of one project's plan: a grand total over every target,
/// and per-kind totals for the four conventional kinds; custom targets count
/// only toward the grand total.  Every total saturates at the largest `u64`.
pub open spec fn size_info_model(ts: Seq<CleanTargetView>) -> SizeInfo {
    SizeInfo {
        total_size: sat64(sum_sizes(ts, |t: CleanTargetView| size_or_zero(t.size))),
        node_modules_size: sat64(
            sum_sizes(ts, |t: CleanTargetView| size_of_kind(t, TargetTypeView::NodeModules)),
        ),
        build_dirs_size: sat64(
            sum_sizes(ts, |t: CleanTargetView| size_of_kind(t, TargetTypeView::BuildDir)),
        ),
        cache_dirs_size: sat64(
            sum_sizes(ts, |t: CleanTargetView| size_of_kind(t, TargetTypeView::CacheDir)),
        ),
        coverage_dirs_size: sat64(
            sum_sizes(ts, |t: CleanTargetView| size_of_kind(t, TargetTypeView::Coverage)),
        ),
    }
}

/// The fully analyzed project at `path`: its metadata, the classification
/// the chain assigns, its cleanup plan, and — when statistics are requested —
/// its size totals.
pub open spec fn analyze_model(config: Config, path: Seq<char>, t: TreeModel) -> ProjectView {
    let pkg = package_of(t);
    let chain = built_in_chain();
    let fm = first_match_index(chain, pkg, t);
    let det = chain[resolved_index(chain, pkg, t)];
    let targets = targets_model(config, det, t, path);
    ProjectView {
        path: path,
        project_type: if fm < chain.len() {
            chain[fm].assigned_type()
        } else {
            ProjectType::Unknown
        },
        package_info: pkg,
        size_info: if config.stats {
            Some(size_info_model(targets))
        } else {
            None
        },
        detected_targets: targets,
    }
}

/// One less hop of depth budget.
pub open spec fn dec_remaining(r: Option<usize>) -> Option<usize> {
    match r {
        Some(k) => Some((k - 1) as usize),
        None => None,
    }
}

/// The projects a scan of `t` discovers and analyzes, in preorder: the
/// directory itself where it holds a manifest, then — unless the node
/// qualified and recursion is off, and unless the depth budget is spent —
/// the projects beneath each subdirectory, dependency-cache directories
/// pruned by name.
pub open spec fn scan_model(
    config: Config,
    t: TreeModel,
    path: Seq<char>,
    remaining: Option<usize>,
) -> Seq<ProjectView>
    decreases t,
{
    let here = if has_manifest(t) {
        seq![analyze_model(config, path, t)]
    } else {
        Seq::<ProjectView>::empty()
    };
    if has_manifest(t) && !config.recursive {
        here
    } else if remaining == Some(0usize) {
        here
    } else {
        here + scan_children(config, t.dirs, path, dec_remaining(remaining))
    }
}

pub open spec fn scan_children(
    config: Config,
    ds: Seq<TreeModel>,
    path: Seq<char>,
    remaining: Option<usize>,
) -> Seq<ProjectView>
    decreases ds,
{
    if ds.len() == 0 {
        Seq::empty()
    } else {
        (if ds[0].name == "node_modules"@ {
            Seq::<ProjectView>::empty()
        } else {
            scan_model(config, ds[0], joined(path, ds[0].name), remaining)
        }) + scan_children(config, ds.drop_first(), path, remaining)
    }
}

/// Whether some already collected target claims `path`.
fn path_already_listed(targets: &Vec<CleanTarget>, path: &str) -> (r: bool)
    ensures
        r == path_taken(targets@.map_values(|t: CleanTarget| t@), path@),
{
    let ghost views = targets@.map_values(|t: CleanTarget| t@);
    let mut i: usize = 0;
    let n = targets.len();
    while i < n
        invariant
            0 <= i <= n,
            n == targets@.len(),
            views == targets@.map_values(|t: CleanTarget| t@),
            forall|j: int| 0 <= j < i ==> (#[trigger] views[j]).path != path@,
        decreases n - i,
    {
        if crate::fs_model::str_eq(targets[i].path.as_str(), path) {
            assert(views[i as int].path == path@);
            return true;
        }
        assert(views[i as int].path != path@);
        i = i + 1;
    }
    false
}

/// Turns a root directory snapshot into a list of fully classified,
/// plan-populated projects.
pub struct Scanner {
    pub config: Config,
}

impl Scanner {
    /// A scanner governed by `config`.
    pub fn new(config: Config) -> (r: Scanner)
        ensures
            r.config == config,
    {
        Scanner { config }
    }

    /// Whether some exclusion pattern of the configuration matches `path`.
    pub fn is_excluded(&self, path: &str) -> (r: bool)
        ensures
            r == excluded_spec(self.config, path@),
    {
        let mut i: usize = 0;
        let n = self.config.exclude.len();
        while i < n
            invariant
                0 <= i <= n,
                n == self.config.exclude@.len(),
                forall|j: int|
                    0 <= j < i ==> !glob_excludes(
                        #[trigger] self.config.exclude@[j]@,
                        path@,
                    ),
            decreases n - i,
        {
            if glob_matches(self.config.exclude[i].as_str(), path) {
                return true;
            }
            i = i + 1;
        }
        false
    }

    /// The measured size of the entry `name`, when statistics are requested.
    fn measure_entry(&self, dir: &DirNode, name: &str) -> (r: Option<u64>)
        ensures
            r == target_size_spec(self.config, tree_model(*dir), name@),
    {
        if self.config.stats {
            proof {
                crate::fs_model::lemma_tree_size_nonneg(tree_model(*dir));
            }
            match dir.find_subdir(name) {
                Some(sub) => {
                    proof {
                        crate::fs_model::lemma_tree_size_nonneg(tree_model(*sub));
                    }
                    Some(calculate_directory_size(sub))
                },
                None => Some(0),
            }
        } else {
            None
        }
    }

    /// Appends the targets that `names` contributes: one target of type `tt`
    /// for each name that exists as a subdirectory and is not excluded.
    fn push_dir_targets(
        &self,
        targets: &mut Vec<CleanTarget>,
        base: &str,
        dir: &DirNode,
        names: &Vec<String>,
        tt: &TargetType,
    )
        ensures
            final(targets)@.map_values(|t: CleanTarget| t@) == old(targets)@.map_values(
                |t: CleanTarget| t@,
            ) + dir_targets(
                self.config,
                tree_model(*dir),
                base@,
                names@.map_values(|s: String| s@),
                tt@,
            ),
    {
        let ghost t = tree_model(*dir);
        let ghost name_views = names@.map_values(|s: String| s@);
        let ghost orig = old(targets)@.map_values(|t: CleanTarget| t@);
        let mut i: usize = 0;
        let n = names.len();
        proof {
            assert(name_views.subrange(0, n as int) =~= name_views);
            assert(orig + dir_targets(self.config, t, base@, name_views, tt@) =~= orig
                + dir_targets(self.config, t, base@, name_views, tt@));
        }
        while i < n
            invariant
                0 <= i <= n,
                n == names@.len(),
                t == tree_model(*dir),
                name_views == names@.map_values(|s: String| s@),
                orig == old(targets)@.map_values(|t: CleanTarget| t@),
                targets@.map_values(|t: CleanTarget| t@) + dir_targets(
                    self.config,
                    t,
                    base@,
                    name_views.subrange(i as int, n as int),
                    tt@,
                ) =~~= orig + dir_targets(self.config, t, base@, name_views, tt@),
            decreases n - i,
        {
            let ghost rest = name_views.subrange(i as int, n as int);
            proof {
                assert(rest[0] == name_views[i as int]);
                assert(rest.drop_first() =~= name_views.subrange(i + 1, n as int));
            }
            let name = &names[i];
            let ghost before = targets@.map_values(|t: CleanTarget| t@);
            match dir.find_subdir(name.as_str()) {
                Some(_) => {
                    let path = join_path(base, name.as_str());
                    if !self.is_excluded(path.as_str()) {
                        let size = self.measure_entry(dir, name.as_str());
                        let fresh = CleanTarget {
                            path,
                            target_type: tt.clone_target_type(),
                            size,
                        };
                        let ghost fresh_view = fresh@;
                        targets.push(fresh);
                        proof {
                            assert(targets@.map_values(|t: CleanTarget| t@) =~~= before
                                + seq![fresh_view]);
                        }
                    }
                },
                None => {},
            }
            proof {
                assert(targets@.map_values(|t: CleanTarget| t@) + dir_targets(
                    self.config,
                    t,
                    base@,
                    name_views.subrange(i + 1, n as int),
                    tt@,
                ) =~~= orig + dir_targets(self.config, t, base@, name_views, tt@));
            }
            i = i + 1;
        }
        proof {
            assert(name_views.subrange(n as int, n as int).len() == 0);
            assert(targets@.map_values(|t: CleanTarget| t@) =~~= orig + dir_targets(
                self.config,
                t,
                base@,
                name_views,
                tt@,
            ));
        }
    }

    /// Appends the targets the user's custom target names contribute,
    /// skipping any name whose path an earlier target already claims.
    fn push_custom_targets(&self, targets: &mut Vec<CleanTarget>, base: &str, dir: &DirNode)
        ensures
            final(targets)@.map_values(|t: CleanTarget| t@) == old(targets)@.map_values(
                |t: CleanTarget| t@,
            ) + custom_targets_model(
                self.config,
                tree_model(*dir),
                base@,
                self.config.custom_targets@,
                old(targets)@.map_values(|t: CleanTarget| t@),
            ),
    {
        let ghost t = tree_model(*dir);
        let ghost names = self.config.custom_targets@;
        let ghost orig = old(targets)@.map_values(|t: CleanTarget| t@);
        let mut i: usize = 0;
        let n = self.config.custom_targets.len();
        proof {
            assert(names.subrange(0, n as int) =~= names);
        }
        while i < n
            invariant
                0 <= i <= n,
                n == self.config.custom_targets@.len(),
                t == tree_model(*dir),
                names == self.config.custom_targets@,
                orig == old(targets)@.map_values(|t: CleanTarget| t@),
                targets@.map_values(|t: CleanTarget| t@) + custom_targets_model(
                    self.config,
                    t,
                    base@,
                    names.subrange(i as int, n as int),
                    targets@.map_values(|t: CleanTarget| t@),
                ) =~~= orig + custom_targets_model(self.config, t, base@, names, orig),
            decreases n - i,
        {
            let ghost rest = names.subrange(i as int, n as int);
            proof {
                assert(rest[0] == names[i as int]);
                assert(rest.drop_first() =~= names.subrange(i + 1, n as int));
            }
            let name = &self.config.custom_targets[i];
            let ghost before = targets@.map_values(|t: CleanTarget| t@);
            if dir.has_entry_named(name.as_str()) {
                let path = join_path(base, name.as_str());
                if !self.is_excluded(path.as_str()) && !path_already_listed(
                    targets,
                    path.as_str(),
                ) {
                    let size = self.measure_entry(dir, name.as_str());
                    let fresh = CleanTarget {
                        path,
                        target_type: TargetType::Custom(name.as_str().to_owned()),
                        size,
                    };
                    let ghost fresh_view = fresh@;
                    targets.push(fresh);
                    proof {
                        assert(targets@.map_values(|t: CleanTarget| t@) =~~= before
                            + seq![fresh_view]);
                    }
                }
            }
            proof {
                assert(targets@.map_values(|t: CleanTarget| t@) + custom_targets_model(
                    self.config,
                    t,
                    base@,
                    names.subrange(i + 1, n as int),
                    targets@.map_values(|t: CleanTarget| t@),
                ) =~~= orig + custom_targets_model(self.config, t, base@, names, orig));
            }
            i = i + 1;
        }
        proof {
            assert(names.subrange(n as int, n as int).len() == 0);
            assert(targets@.map_values(|t: CleanTarget| t@) =~~= orig + custom_targets_model(
                self.config,
                t,
                base@,
                names,
                orig,
            ));
        }
    }

    /// Resolves the cleanup plan of a classified project: the detector that
    /// recognizes it (re-found by a side-effect-free lookup, the last one as
    /// the fallback) supplies the candidate directory names, the phases run
    /// in fixed order, excluded candidates are left out, and no two entries
    /// of the plan ever share a path.
    pub fn determine_clean_targets(
        &self,
        project: &mut Project,
        dir: &DirNode,
        detectors: &Vec<DetectorKind>,
    )
        requires
            detectors@.len() > 0,
        ensures
            final(project)@.path == old(project)@.path,
            final(project)@.project_type == old(project)@.project_type,
            final(project)@.package_info == old(project)@.package_info,
            final(project)@.size_info == old(project)@.size_info,
            final(project)@.detected_targets == targets_model(
                self.config,
                detectors@[resolved_index(
                    detectors@,
                    old(project)@.package_info,
                    tree_model(*dir),
                )],
                tree_model(*dir),
                old(project)@.path,
            ),
            distinct_paths(final(project)@.detected_targets),
    {
        let ghost t = tree_model(*dir);
        let ghost pkg = project@.package_info;

        let n = detectors.len();
        let mut idx: usize = n - 1;
        let mut found = false;
        let mut k: usize = 0;
        while k < n && !found
            invariant
                0 <= k <= n,
                n == detectors@.len(),
                pkg == project@.package_info,
                t == tree_model(*dir),
                !found ==> idx == n - 1,
                !found ==> forall|m: int|
                    0 <= m < k ==> !(#[trigger] detectors@[m]).matches_spec(pkg, t),
                found ==> idx < n && detectors@[idx as int].matches_spec(pkg, t)
                    && forall|m: int|
                    0 <= m < idx ==> !(#[trigger] detectors@[m]).matches_spec(pkg, t),
            decreases n - k,
        {
            if detectors[k].matches(project, dir) {
                found = true;
                idx = k;
            }
            k = k + 1;
        }
        proof {
            if found {
                lemma_first_match_unique(detectors@, pkg, t, idx as int);
            } else {
                lemma_first_match_unique(detectors@, pkg, t, n as int);
            }
            assert(idx as int == resolved_index(detectors@, pkg, t));
        }
        let detector = &detectors[idx];

        let mut targets: Vec<CleanTarget> = Vec::new();
        let ghost nm_part = nm_targets(self.config, t, project@.path);

        if dir.has_entry_named("node_modules") {
            let path = join_path(project.path.as_str(), "node_modules");
            if !self.is_excluded(path.as_str()) {
                let size = self.measure_entry(dir, "node_modules");
                targets.push(CleanTarget { path, target_type: TargetType::NodeModules, size });
            }
        }
        proof {
            assert(targets@.map_values(|x: CleanTarget| x@) =~~= nm_part);
        }

        let ghost build_part = if self.config.clean_build_dirs {
            dir_targets(self.config, t, project@.path, detector.build_dirs_spec(),
                TargetTypeView::BuildDir)
        } else {
            Seq::<CleanTargetView>::empty()
        };
        if self.config.clean_build_dirs {
            let names = detector.get_build_dirs(project);
            self.push_dir_targets(&mut targets, project.path.as_str(), dir, &names,
                &TargetType::BuildDir);
        }
        proof {
            assert(targets@.map_values(|x: CleanTarget| x@) =~~= nm_part + build_part);
        }

        let ghost cache_part = if self.config.clean_cache_dirs {
            dir_targets(self.config, t, project@.path, detector.cache_dirs_spec(),
                TargetTypeView::CacheDir)
        } else {
            Seq::<CleanTargetView>::empty()
        };
        if self.config.clean_cache_dirs {
            let names = detector.get_cache_dirs(project);
            self.push_dir_targets(&mut targets, project.path.as_str(), dir, &names,
                &TargetType::CacheDir);
        }
        proof {
            assert(targets@.map_values(|x: CleanTarget| x@) =~~= nm_part + build_part
                + cache_part);
        }

        let ghost coverage_part = if self.config.clean_coverage_dirs {
            dir_targets(self.config, t, project@.path, detector.coverage_dirs_spec(),
                TargetTypeView::Coverage)
        } else {
            Seq::<CleanTargetView>::empty()
        };
        if self.config.clean_coverage_dirs {
            let names = detector.get_coverage_dirs(project);
            self.push_dir_targets(&mut targets, project.path.as_str(), dir, &names,
                &TargetType::Coverage);
        }
        proof {
            assert(targets@.map_values(|x: CleanTarget| x@) =~~= nm_part + build_part + cache_part
                + coverage_part);
        }

        let ghost pre = targets@.map_values(|x: CleanTarget| x@);
        self.push_custom_targets(&mut targets, project.path.as_str(), dir);
        proof {
            assert(pre =~~= nm_part + build_part + cache_part + coverage_part);
            assert(targets@.map_values(|x: CleanTarget| x@) =~~= targets_model(
                self.config,
                detectors@[resolved_index(detectors@, pkg, t)],
                t,
                project@.path,
            ));
            lemma_no_duplicate_paths(
                self.config,
                detectors@[resolved_index(detectors@, pkg, t)],
                t,
                project@.path,
            );
        }

        project.detected_targets = targets;
    }

    /// Fills in the project's size totals from the measured sizes of its
    /// detected targets.
    pub fn calculate_size_info(&self, project: &mut Project)
        ensures
            final(project)@.path == old(project)@.path,
            final(project)@.project_type == old(project)@.project_type,
            final(project)@.package_info == old(project)@.package_info,
            final(project)@.detected_targets == old(project)@.detected_targets,
            final(project)@.size_info == Some(size_info_model(old(project)@.detected_targets)),
    {
        let ghost ts = project@.detected_targets;
        let ghost f_total = |t: CleanTargetView| size_or_zero(t.size);
        let ghost f_nm = |t: CleanTargetView| size_of_kind(t, TargetTypeView::NodeModules);
        let ghost f_build = |t: CleanTargetView| size_of_kind(t, TargetTypeView::BuildDir);
        let ghost f_cache = |t: CleanTargetView| size_of_kind(t, TargetTypeView::CacheDir);
        let ghost f_cov = |t: CleanTargetView| size_of_kind(t, TargetTypeView::Coverage);

        let mut total_size: u64 = 0;
        let mut node_modules_size: u64 = 0;
        let mut build_dirs_size: u64 = 0;
        let mut cache_dirs_size: u64 = 0;
        let mut coverage_dirs_size: u64 = 0;
        let ghost mut g_total: int = 0;
        let ghost mut g_nm: int = 0;
        let ghost mut g_build: int = 0;
        let ghost mut g_cache: int = 0;
        let ghost mut g_cov: int = 0;

        let mut i: usize = 0;
        let n = project.detected_targets.len();
        proof {
            assert(ts.subrange(0, n as int) =~= ts);
        }
        while i < n
            invariant
                0 <= i <= n,
                n == project.detected_targets@.len(),
                ts == project@.detected_targets,
                f_total == (|t: CleanTargetView| size_or_zero(t.size)),
                f_nm == (|t: CleanTargetView| size_of_kind(t, TargetTypeView::NodeModules)),
                f_build == (|t: CleanTargetView| size_of_kind(t, TargetTypeView::BuildDir)),
                f_cache == (|t: CleanTargetView| size_of_kind(t, TargetTypeView::CacheDir)),
                f_cov == (|t: CleanTargetView| size_of_kind(t, TargetTypeView::Coverage)),
                g_total >= 0 && g_nm >= 0 && g_build >= 0 && g_cache >= 0 && g_cov >= 0,
                g_total + sum_sizes(ts.subrange(i as int, n as int), f_total) == sum_sizes(
                    ts,
                    f_total,
                ),
                g_nm + sum_sizes(ts.subrange(i as int, n as int), f_nm) == sum_sizes(ts, f_nm),
                g_build + sum_sizes(ts.subrange(i as int, n as int), f_build) == sum_sizes(
                    ts,
                    f_build,
                ),
                g_cache + sum_sizes(ts.subrange(i as int, n as int), f_cache) == sum_sizes(
                    ts,
                    f_cache,
                ),
                g_cov + sum_sizes(ts.subrange(i as int, n as int), f_cov) == sum_sizes(
                    ts,
                    f_cov,
                ),
                total_size == sat64(g_total),
                node_modules_size == sat64(g_nm),
                build_dirs_size == sat64(g_build),
                cache_dirs_size == sat64(g_cache),
                coverage_dirs_size == sat64(g_cov),
            decreases n - i,
        {
            let ghost rest = ts.subrange(i as int, n as int);
            proof {
                assert(rest[0] == ts[i as int]);
                assert(rest.drop_first() =~= ts.subrange(i + 1, n as int));
                lemma_sum_sizes_nonneg(ts.subrange(i + 1, n as int), f_total);
                lemma_sum_sizes_nonneg(ts.subrange(i + 1, n as int), f_nm);
                lemma_sum_sizes_nonneg(ts.subrange(i + 1, n as int), f_build);
                lemma_sum_sizes_nonneg(ts.subrange(i + 1, n as int), f_cache);
                lemma_sum_sizes_nonneg(ts.subrange(i + 1, n as int), f_cov);
            }
            let target = &project.detected_targets[i];
            let add_bytes = match target.size {
                Some(s) => s,
                None => 0,
            };
            total_size = total_size.saturating_add(add_bytes);
            proof {
                g_total = g_total + f_total(ts[i as int]);
            }
            match &target.target_type {
                TargetType::NodeModules => {
                    node_modules_size = node_modules_size.saturating_add(add_bytes);
                },
                TargetType::BuildDir => {
                    build_dirs_size = build_dirs_size.saturating_add(add_bytes);
                },
                TargetType::CacheDir => {
                    cache_dirs_size = cache_dirs_size.saturating_add(add_bytes);
                },
                TargetType::Coverage => {
                    coverage_dirs_size = coverage_dirs_size.saturating_add(add_bytes);
                },
                TargetType::Custom(_) => {},
            }
            proof {
                g_nm = g_nm + f_nm(ts[i as int]);
                g_build = g_build + f_build(ts[i as int]);
                g_cache = g_cache + f_cache(ts[i as int]);
                g_cov = g_cov + f_cov(ts[i as int]);
            }
            i = i + 1;
        }
        project.size_info = Some(
            SizeInfo {
                total_size,
                node_modules_size,
                build_dirs_size,
                cache_dirs_size,
                coverage_dirs_size,
            },
        );
    }

    /// Analyzes one project directory: reads its package metadata, runs the
    /// detector chain in priority order stopping at the first match, resolves
    /// its cleanup plan — no two of its targets sharing a path — and measures
    /// sizes when statistics are requested.
    pub fn analyze_project(&self, project_path: &str, dir: &DirNode) -> (p: Project)
        ensures
            p@ == analyze_model(self.config, project_path@, tree_model(*dir)),
            distinct_paths(p@.detected_targets),
    {
        let ghost t = tree_model(*dir);
        let mut project = Project::new(project_path.to_owned());

        match dir.file_text("package.json") {
            Some(text) => {
                match DefaultDetector::parse_package_json(text.as_str()) {
                    Ok(pi) => {
                        project.package_info = Some(pi);
                    },
                    Err(_) => {},
                }
            },
            None => {},
        }
        let ghost pkg = project@.package_info;
        proof {
            assert(pkg == package_of(t));
        }

        let detectors = get_all_detectors();
        let n = detectors.len();
        let mut matched = false;
        let mut match_idx: usize = 0;
        let mut k: usize = 0;
        while k < n && !matched
            invariant
                0 <= k <= n,
                n == detectors@.len(),
                detectors@ == built_in_chain(),
                t == tree_model(*dir),
                project@.path == project_path@,
                project@.package_info == pkg,
                project@.size_info is None,
                project@.detected_targets.len() == 0,
                !matched ==> forall|m: int|
                    0 <= m < k ==> !(#[trigger] detectors@[m]).matches_spec(pkg, t),
                !matched ==> project@.project_type == ProjectType::Unknown,
                matched ==> match_idx < n && detectors@[match_idx as int].matches_spec(pkg, t)
                    && forall|m: int|
                    0 <= m < match_idx ==> !(#[trigger] detectors@[m]).matches_spec(pkg, t),
                matched ==> project@.project_type == detectors@[
                    match_idx as int
                ].assigned_type(),
            decreases n - k,
        {
            if detectors[k].detect(&mut project, dir) {
                matched = true;
                match_idx = k;
            }
            k = k + 1;
        }
        proof {
            if matched {
                lemma_first_match_unique(detectors@, pkg, t, match_idx as int);
            } else {
                lemma_first_match_unique(detectors@, pkg, t, n as int);
            }
        }

        self.determine_clean_targets(&mut project, dir, &detectors);

        if self.config.stats {
            self.calculate_size_info(&mut project);
        }
        proof {
            assert(project@ =~~= analyze_model(self.config, project_path@, t));
            lemma_no_duplicate_paths(
                self.config,
                built_in_chain()[resolved_index(built_in_chain(), pkg, t)],
                t,
                project_path@,
            );
        }
        project
    }

    /// Scans from a root directory snapshot: finds every project the
    /// traversal rules reach and hands back each one fully analyzed; over a
    /// well-formed snapshot no two of them share a path.
    pub fn scan(&self, root: &DirNode, root_path: &str) -> (r: Vec<Project>)
        ensures
            r@.map_values(|p: Project| p@) == scan_model(
                self.config,
                tree_model(*root),
                root_path@,
                self.config.max_depth,
            ),
            crate::fs_model::wf_tree(tree_model(*root)) ==> forall|i: int, j: int|
                0 <= i < j < r@.len() ==> (#[trigger] r@[i])@.path != (#[trigger] r@[j])@.path,
    {
        let result = self.scan_walk(root, root_path, self.config.max_depth);
        proof {
            if crate::fs_model::wf_tree(tree_model(*root)) {
                lemma_scan_paths_distinct(
                    self.config,
                    tree_model(*root),
                    root_path@,
                    self.config.max_depth,
                );
                let models = scan_model(
                    self.config,
                    tree_model(*root),
                    root_path@,
                    self.config.max_depth,
                );
                assert forall|i: int, j: int| 0 <= i < j < result@.len() implies (
                #[trigger] result@[i])@.path != (#[trigger] result@[j])@.path by {
                    assert(result@.map_values(|p: Project| p@)[i] == models[i]);
                    assert(result@.map_values(|p: Project| p@)[j] == models[j]);
                }
            }
        }
        result
    }

    /// The recursive walk behind [`Scanner::scan`].
    fn scan_walk(&self, node: &DirNode, path: &str, remaining: Option<usize>) -> (r: Vec<
        Project,
    >)
        ensures
            r@.map_values(|p: Project| p@) == scan_model(
                self.config,
                tree_model(*node),
                path@,
                remaining,
            ),
        decreases *node,
    {
        let ghost t = tree_model(*node);
        let mut result: Vec<Project> = Vec::new();

        let is_project = Project::has_package_json(node);
        if is_project {
            let project = self.analyze_project(path, node);
            result.push(project);
            if !self.config.recursive {
                proof {
                    assert(result@.map_values(|p: Project| p@) =~~= scan_model(
                        self.config,
                        t,
                        path@,
                        remaining,
                    ));
                }
                return result;
            }
        }
        let ghost here = result@.map_values(|p: Project| p@);

        let at_depth_limit = match remaining {
            Some(k) => k == 0,
            None => false,
        };
        if at_depth_limit {
            proof {
                assert(result@.map_values(|p: Project| p@) =~~= scan_model(
                    self.config,
                    t,
                    path@,
                    remaining,
                ));
            }
            return result;
        }
        let next_remaining = match remaining {
            Some(k) => Some(k - 1),
            None => None,
        };
        proof {
            assert(next_remaining == dec_remaining(remaining));
        }

        let mut i: usize = 0;
        let n = node.dirs.len();
        proof {
            crate::fs_model::lemma_dirs_model_index(node.dirs@);
            assert(t.dirs.subrange(0, n as int) =~= t.dirs);
            assert(here + scan_children(self.config, t.dirs, path@, dec_remaining(remaining))
                =~= here + scan_children(self.config, t.dirs, path@, dec_remaining(remaining)));
        }
        while i < n
            invariant
                0 <= i <= n,
                n == node.dirs@.len(),
                t == tree_model(*node),
                t.dirs.len() == n,
                forall|m: int| 0 <= m < n ==> t.dirs[m] == tree_model(node.dirs@[m]),
                next_remaining == dec_remaining(remaining),
                result@.map_values(|p: Project| p@) + scan_children(
                    self.config,
                    t.dirs.subrange(i as int, n as int),
                    path@,
                    dec_remaining(remaining),
                ) =~~= here + scan_children(
                    self.config,
                    t.dirs,
                    path@,
                    dec_remaining(remaining),
                ),
            decreases n - i,
        {
            let ghost rest = t.dirs.subrange(i as int, n as int);
            proof {
                assert(rest[0] == t.dirs[i as int]);
                assert(rest.drop_first() =~= t.dirs.subrange(i + 1, n as int));
            }
            let child = &node.dirs[i];
            if !crate::fs_model::str_eq(child.name.as_str(), "node_modules") {
                let child_path = join_path(path, child.name.as_str());
                proof {
                    assert(decreases_to!(*node => node.dirs@[i as int]));
                }
                let mut sub = self.scan_walk(child, child_path.as_str(), next_remaining);
                let ghost before = result@.map_values(|p: Project| p@);
                let ghost sub_views = sub@.map_values(|p: Project| p@);
                result.append(&mut sub);
                proof {
                    assert(result@.map_values(|p: Project| p@) =~~= before + sub_views);
                }
            }
            proof {
                assert(result@.map_values(|p: Project| p@) + scan_children(
                    self.config,
                    t.dirs.subrange(i + 1, n as int),
                    path@,
                    dec_remaining(remaining),
                ) =~~= here + scan_children(
                    self.config,
                    t.dirs,
                    path@,
                    dec_remaining(remaining),
                ));
            }
            i = i + 1;
        }
        proof {
            assert(t.dirs.subrange(n as int, n as int).len() == 0);
            assert(result@.map_values(|p: Project| p@) =~~= scan_model(
                self.config,
                t,
                path@,
                remaining,
            ));
        }
        result
    }
}

/// The paths of the projects a scan discovers.
pub open spec fn scan_paths(
    config: Config,
    t: TreeModel,
    path: Seq<char>,
    remaining: Option<usize>,
) -> Seq<Seq<char>> {
    scan_model(config, t, path, remaining).map_values(|p: ProjectView| p.path)
}

impl Scanner {
    /// The paths of every project directory the traversal rules reach from
    /// the root, in preorder; over a well-formed snapshot the paths are
    /// pairwise distinct — each directory contributes at most once.
    pub fn find_project_paths(&self, root: &DirNode, root_path: &str) -> (r: Vec<String>)
        ensures
            r@.map_values(|s: String| s@) == scan_paths(
                self.config,
                tree_model(*root),
                root_path@,
                self.config.max_depth,
            ),
            crate::fs_model::wf_tree(tree_model(*root)) ==> forall|i: int, j: int|
                0 <= i < j < r@.len() ==> (#[trigger] r@[i])@ != (#[trigger] r@[j])@,
    {
        let projects = self.scan(root, root_path);
        let ghost models = scan_model(
            self.config,
            tree_model(*root),
            root_path@,
            self.config.max_depth,
        );
        let mut paths: Vec<String> = Vec::new();
        let mut i: usize = 0;
        let n = projects.len();
        proof {
            assert(projects@.map_values(|p: Project| p@).len() == models.len());
        }
        while i < n
            invariant
                0 <= i <= n,
                n == projects@.len(),
                n == models.len(),
                projects@.map_values(|p: Project| p@) == models,
                paths@.len() == i,
                forall|k: int| 0 <= k < i ==> (#[trigger] paths@[k])@ == models[k].path,
            decreases n - i,
        {
            proof {
                assert(projects@.map_values(|p: Project| p@)[i as int] == models[i as int]);
            }
            let path = projects[i].path.as_str().to_owned();
            paths.push(path);
            i = i + 1;
        }
        proof {
            assert(paths@.map_values(|s: String| s@) =~= models.map_values(
                |p: ProjectView| p.path,
            ));
            if crate::fs_model::wf_tree(tree_model(*root)) {
                lemma_scan_paths_distinct(
                    self.config,
                    tree_model(*root),
                    root_path@,
                    self.config.max_depth,
                );
            }
        }
        paths
    }
}

/// Determinism law: scanning the same snapshot twice with the same
/// configuration yields the same projects — in particular, the same set of
/// project paths and the same classified types.
pub proof fn lemma_scan_deterministic(
    config: Config,
    t: TreeModel,
    path: Seq<char>,
    first: Seq<ProjectView>,
    second: Seq<ProjectView>,
)
    requires
        first == scan_model(config, t, path, config.max_depth),
        second == scan_model(config, t, path, config.max_depth),
    ensures
        first == second,
        first.len() == second.len(),
        forall|i: int|
            0 <= i < first.len() ==> (#[trigger] first[i]).path == second[i].path && first[
                i
            ].project_type == second[i].project_type,
{
}

/// The built-in chain's priorities never decrease along the chain.
pub proof fn lemma_chain_priorities_ascend()
    ensures
        forall|i: int, j: int|
            0 <= i <= j < built_in_chain().len() ==> (#[trigger] built_in_chain()[
                i
            ]).priority_spec() <= (#[trigger] built_in_chain()[j]).priority_spec(),
{
    let c = built_in_chain();
    assert(c[0].priority_spec() == 80);
    assert(c[1].priority_spec() == 85);
    assert(c[2].priority_spec() == 90);
    assert(c[3].priority_spec() == 100);
    assert(c[4].priority_spec() == 100);
    assert(c[5].priority_spec() == 200);
    assert forall|i: int, j: int| 0 <= i <= j < c.len() implies (#[trigger] c[
        i
    ]).priority_spec() <= (#[trigger] c[j]).priority_spec() by {
        assert(c.len() == 6);
    }
}

/// Priority law: when two detectors of the chain both recognize a project
/// and the first has the smaller priority number, the resolution never picks
/// the second — it picks the first match, whose priority is no larger than
/// any matching detector's — and the classification and directory lists of
/// the analyzed project come from that resolved detector.
pub proof fn lemma_priority_wins(
    config: Config,
    path: Seq<char>,
    dir: TreeModel,
    i: int,
    j: int,
)
    requires
        0 <= i < built_in_chain().len(),
        0 <= j < built_in_chain().len(),
        built_in_chain()[i].matches_spec(package_of(dir), dir),
        built_in_chain()[j].matches_spec(package_of(dir), dir),
        built_in_chain()[i].priority_spec() < built_in_chain()[j].priority_spec(),
    ensures
        resolved_index(built_in_chain(), package_of(dir), dir) != j,
        built_in_chain()[resolved_index(built_in_chain(), package_of(dir), dir)].priority_spec()
            <= built_in_chain()[i].priority_spec(),
        analyze_model(config, path, dir).project_type == built_in_chain()[resolved_index(
            built_in_chain(),
            package_of(dir),
            dir,
        )].assigned_type(),
        analyze_model(config, path, dir).detected_targets == targets_model(
            config,
            built_in_chain()[resolved_index(built_in_chain(), package_of(dir), dir)],
            dir,
            path,
        ),
{
    let c = built_in_chain();
    let pkg = package_of(dir);
    lemma_first_match_props(c, pkg, dir);
    lemma_chain_priorities_ascend();
    let f = first_match_index(c, pkg, dir);
    assert(f <= i);
    assert(f <= j);
    assert(c[f].priority_spec() <= c[i].priority_spec());
    if f == j {
        assert(c[j].priority_spec() <= c[i].priority_spec());
        assert(false);
    }
}

proof fn lemma_dir_targets_not_excluded(
    config: Config,
    t: TreeModel,
    path: Seq<char>,
    names: Seq<Seq<char>>,
    tt: TargetTypeView,
)
    ensures
        forall|k: int|
            0 <= k < dir_targets(config, t, path, names, tt).len() ==> !excluded_spec(
                config,
                (#[trigger] dir_targets(config, t, path, names, tt)[k]).path,
            ),
    decreases names.len(),
{
    if names.len() > 0 {
        lemma_dir_targets_not_excluded(config, t, path, names.drop_first(), tt);
    }
}

proof fn lemma_custom_targets_not_excluded(
    config: Config,
    t: TreeModel,
    path: Seq<char>,
    names: Seq<String>,
    prior: Seq<CleanTargetView>,
)
    ensures
        forall|k: int|
            0 <= k < custom_targets_model(config, t, path, names, prior).len()
                ==> !excluded_spec(
                config,
                (#[trigger] custom_targets_model(config, t, path, names, prior)[k]).path,
            ),
    decreases names.len(),
{
    if names.len() > 0 {
        let head = if has_entry(t, names[0]@) && !excluded_spec(config, joined(path, names[0]@))
            && !path_taken(prior, joined(path, names[0]@)) {
            seq![
                CleanTargetView {
                    path: joined(path, names[0]@),
                    target_type: TargetTypeView::Custom(names[0]@),
                    size: target_size_spec(config, t, names[0]@),
                },
            ]
        } else {
            Seq::<CleanTargetView>::empty()
        };
        lemma_custom_targets_not_excluded(config, t, path, names.drop_first(), prior + head);
    }
}

/// Exclusion law: a candidate whose path matches an exclusion pattern never
/// appears in the resolved plan — custom targets included.
pub proof fn lemma_exclusion_invariant(
    config: Config,
    det: DetectorKind,
    t: TreeModel,
    path: Seq<char>,
)
    ensures
        forall|k: int|
            0 <= k < targets_model(config, det, t, path).len() ==> !excluded_spec(
                config,
                (#[trigger] targets_model(config, det, t, path)[k]).path,
            ),
{
    lemma_dir_targets_not_excluded(config, t, path, det.build_dirs_spec(),
        TargetTypeView::BuildDir);
    lemma_dir_targets_not_excluded(config, t, path, det.cache_dirs_spec(),
        TargetTypeView::CacheDir);
    lemma_dir_targets_not_excluded(config, t, path, det.coverage_dirs_spec(),
        TargetTypeView::Coverage);
    let whole = targets_model(config, det, t, path);
    let nm = nm_targets(config, t, path);
    let build = if config.clean_build_dirs {
        dir_targets(config, t, path, det.build_dirs_spec(), TargetTypeView::BuildDir)
    } else {
        Seq::<CleanTargetView>::empty()
    };
    let cache = if config.clean_cache_dirs {
        dir_targets(config, t, path, det.cache_dirs_spec(), TargetTypeView::CacheDir)
    } else {
        Seq::<CleanTargetView>::empty()
    };
    let cov = if config.clean_coverage_dirs {
        dir_targets(config, t, path, det.coverage_dirs_spec(), TargetTypeView::Coverage)
    } else {
        Seq::<CleanTargetView>::empty()
    };
    let custom = custom_targets_model(config, t, path, config.custom_targets@, nm + build + cache
        + cov);
    lemma_custom_targets_not_excluded(config, t, path, config.custom_targets@, nm + build + cache
        + cov);
    assert forall|k: int| 0 <= k < whole.len() implies !excluded_spec(
        config,
        (#[trigger] whole[k]).path,
    ) by {
        let a = nm.len();
        let b = a + build.len();
        let c = b + cache.len();
        let d = c + cov.len();
        if k < a {
            assert(whole[k] == nm[k]);
        } else if k < b {
            assert(whole[k] == build[k - a]);
        } else if k < c {
            assert(whole[k] == cache[k - b]);
        } else if k < d {
            assert(whole[k] == cov[k - c]);
        } else {
            assert(whole[k] == custom[k - d]);
        }
    }
}


/// Every target of a candidate-name phase points at one of its names and
/// carries the phase's type.
pub proof fn lemma_dir_targets_shape(
    config: Config,
    t: TreeModel,
    path: Seq<char>,
    names: Seq<Seq<char>>,
    tt: TargetTypeView,
)
    ensures
        forall|k: int|
            0 <= k < dir_targets(config, t, path, names, tt).len() ==> exists|m: int|
                0 <= m < names.len() && (#[trigger] dir_targets(config, t, path, names, tt)[
                    k
                ]).path == joined(path, names[m]),
    decreases names.len(),
{
    if names.len() > 0 {
        lemma_dir_targets_shape(config, t, path, names.drop_first(), tt);
        let dt = dir_targets(config, t, path, names, tt);
        let rest = dir_targets(config, t, path, names.drop_first(), tt);
        assert forall|k: int| 0 <= k < dt.len() implies exists|m: int|
            0 <= m < names.len() && (#[trigger] dt[k]).path == joined(path, names[m]) by {
            let head_len = dt.len() - rest.len();
            if k < head_len {
                assert(dt[k].path == joined(path, names[0]));
            } else {
                assert(dt[k] == rest[k - head_len]);
                let m0 = choose|m0: int|
                    0 <= m0 < names.drop_first().len() && rest[k - head_len].path == joined(
                        path,
                        names.drop_first()[m0],
                    );
                assert(names.drop_first()[m0] == names[m0 + 1]);
                assert(dt[k].path == joined(path, names[m0 + 1]));
            }
        }
    }
}

/// The entry names a detector's plan can draw on, fixed order: the
/// dependency-cache name, then the build, cache and coverage lists.
spec fn candidate_names_seq(det: DetectorKind) -> Seq<Seq<char>> {
    seq!["node_modules"@] + det.build_dirs_spec() + det.cache_dirs_spec()
        + det.coverage_dirs_spec()
}

/// Every detector's candidate names are pairwise distinct: no list repeats a
/// name, no two lists share one, and none holds the dependency-cache name.
proof fn lemma_candidate_names_distinct(det: DetectorKind)
    ensures
        forall|i: int, j: int|
            0 <= i < j < candidate_names_seq(det).len() ==> (#[trigger] candidate_names_seq(
                det,
            )[i]) != (#[trigger] candidate_names_seq(det)[j]),
{
    reveal_strlit("node_modules");
    reveal_strlit("dist");
    reveal_strlit("build");
    reveal_strlit("out");
    reveal_strlit(".next");
    reveal_strlit(".nuxt");
    reveal_strlit(".cache");
    reveal_strlit(".angular");
    reveal_strlit("coverage");
    reveal_strlit("example-build");
    reveal_strlit("example-dist");
    reveal_strlit(".example-cache");
    reveal_strlit("example-coverage");
    assert("node_modules"@.len() == 12);
    assert("dist"@.len() == 4);
    assert("build"@.len() == 5);
    assert("out"@.len() == 3);
    assert(".next"@.len() == 5);
    assert(".nuxt"@.len() == 5);
    assert(".cache"@.len() == 6);
    assert(".angular"@.len() == 8);
    assert("coverage"@.len() == 8);
    assert("example-build"@.len() == 13);
    assert("example-dist"@.len() == 12);
    assert(".example-cache"@.len() == 14);
    assert("example-coverage"@.len() == 16);
    assert(".angular"@[0] != "coverage"@[0]);
    assert("node_modules"@[0] != "example-dist"@[0]);
    assert("build"@[0] != ".next"@[0]);
    assert("build"@[0] != ".nuxt"@[0]);
    assert(".next"@[2] != ".nuxt"@[2]);
    let cn = candidate_names_seq(det);
    match det {
        DetectorKind::NextJs(_) => {
            assert(cn =~~= seq!["node_modules"@, ".next"@, "out"@, "coverage"@]);
        },
        DetectorKind::NuxtJs(_) => {
            assert(cn =~~= seq!["node_modules"@, ".nuxt"@, "dist"@, ".cache"@, "coverage"@]);
        },
        DetectorKind::Angular(_) => {
            assert(cn =~~= seq!["node_modules"@, "dist"@, ".angular"@, "coverage"@]);
        },
        DetectorKind::Vue(_) => {
            assert(cn =~~= seq!["node_modules"@, "dist"@, "coverage"@]);
        },
        DetectorKind::React(_) => {
            assert(cn =~~= seq!["node_modules"@, "build"@, "dist"@, "coverage"@]);
        },
        DetectorKind::Generic(_) => {
            assert(cn =~~= seq!["node_modules"@, "dist"@, "build"@, "out"@, ".cache"@,
                "coverage"@]);
        },
        DetectorKind::Example(_) => {
            assert(cn =~~= seq!["node_modules"@, "example-build"@, "example-dist"@,
                ".example-cache"@, "example-coverage"@]);
        },
    }
}

/// A phase over pairwise-distinct names yields pairwise-distinct paths.
proof fn lemma_dir_targets_distinct(
    config: Config,
    t: TreeModel,
    path: Seq<char>,
    names: Seq<Seq<char>>,
    tt: TargetTypeView,
)
    requires
        forall|i: int, j: int|
            0 <= i < j < names.len() ==> (#[trigger] names[i]) != (#[trigger] names[j]),
    ensures
        distinct_paths(dir_targets(config, t, path, names, tt)),
    decreases names.len(),
{
    if names.len() > 0 {
        assert(forall|i: int|
            0 <= i < names.drop_first().len() ==> (#[trigger] names.drop_first()[i]) == names[
                i + 1
            ]);
        lemma_dir_targets_distinct(config, t, path, names.drop_first(), tt);
        lemma_dir_targets_shape(config, t, path, names.drop_first(), tt);
        let dt = dir_targets(config, t, path, names, tt);
        let rest = dir_targets(config, t, path, names.drop_first(), tt);
        let head_len = dt.len() - rest.len();
        assert forall|i: int, j: int|
            0 <= i < j < dt.len() implies (#[trigger] dt[i]).path != (#[trigger] dt[j]).path by {
            if i >= head_len {
                assert(dt[i] == rest[i - head_len]);
                assert(dt[j] == rest[j - head_len]);
            } else {
                assert(dt[i].path == joined(path, names[0]));
                assert(dt[j] == rest[j - head_len]);
                let m = choose|m: int|
                    0 <= m < names.drop_first().len() && rest[j - head_len].path == joined(
                        path,
                        names.drop_first()[m],
                    );
                if dt[j].path == dt[i].path {
                    crate::fs_model::lemma_joined_injective(path, names[0], names[m + 1]);
                    assert(false);
                }
            }
        }
    }
}

/// The targets already planned keep their pairwise-distinct paths when the
/// custom names are appended: a custom name whose path is taken is skipped.
proof fn lemma_custom_extends_distinct(
    config: Config,
    t: TreeModel,
    path: Seq<char>,
    names: Seq<String>,
    prior: Seq<CleanTargetView>,
)
    requires
        distinct_paths(prior),
    ensures
        distinct_paths(prior + custom_targets_model(config, t, path, names, prior)),
    decreases names.len(),
{
    if names.len() == 0 {
        assert(prior + custom_targets_model(config, t, path, names, prior) =~= prior);
    } else {
        let head = if has_entry(t, names[0]@) && !excluded_spec(config, joined(path, names[0]@))
            && !path_taken(prior, joined(path, names[0]@)) {
            seq![
                CleanTargetView {
                    path: joined(path, names[0]@),
                    target_type: TargetTypeView::Custom(names[0]@),
                    size: target_size_spec(config, t, names[0]@),
                },
            ]
        } else {
            Seq::<CleanTargetView>::empty()
        };
        assert(distinct_paths(prior + head));
        lemma_custom_extends_distinct(config, t, path, names.drop_first(), prior + head);
        assert(prior + custom_targets_model(config, t, path, names, prior) =~= (prior + head)
            + custom_targets_model(config, t, path, names.drop_first(), prior + head));
    }
}

/// Duplicate-freedom law: the resolved plan never holds two targets with the
/// same path — the fixed phases draw on pairwise-distinct names, and a custom
/// name whose path is already claimed contributes nothing.
pub proof fn lemma_no_duplicate_paths(
    config: Config,
    det: DetectorKind,
    t: TreeModel,
    path: Seq<char>,
)
    ensures
        distinct_paths(targets_model(config, det, t, path)),
{
    let cn = candidate_names_seq(det);
    lemma_candidate_names_distinct(det);
    let bl = det.build_dirs_spec();
    let cl = det.cache_dirs_spec();
    let vl = det.coverage_dirs_spec();
    assert(forall|m: int| 0 <= m < bl.len() ==> (#[trigger] bl[m]) == cn[1 + m]);
    assert(forall|m: int| 0 <= m < cl.len() ==> (#[trigger] cl[m]) == cn[1 + bl.len() + m]);
    assert(forall|m: int|
        0 <= m < vl.len() ==> (#[trigger] vl[m]) == cn[1 + bl.len() + cl.len() + m]);

    let nm = nm_targets(config, t, path);
    let build = if config.clean_build_dirs {
        dir_targets(config, t, path, bl, TargetTypeView::BuildDir)
    } else {
        Seq::<CleanTargetView>::empty()
    };
    let cache = if config.clean_cache_dirs {
        dir_targets(config, t, path, cl, TargetTypeView::CacheDir)
    } else {
        Seq::<CleanTargetView>::empty()
    };
    let cov = if config.clean_coverage_dirs {
        dir_targets(config, t, path, vl, TargetTypeView::Coverage)
    } else {
        Seq::<CleanTargetView>::empty()
    };
    let pre = nm + build + cache + cov;

    lemma_dir_targets_shape(config, t, path, bl, TargetTypeView::BuildDir);
    lemma_dir_targets_shape(config, t, path, cl, TargetTypeView::CacheDir);
    lemma_dir_targets_shape(config, t, path, vl, TargetTypeView::Coverage);
    lemma_dir_targets_distinct(config, t, path, bl, TargetTypeView::BuildDir);
    lemma_dir_targets_distinct(config, t, path, cl, TargetTypeView::CacheDir);
    lemma_dir_targets_distinct(config, t, path, vl, TargetTypeView::Coverage);

    assert forall|i: int, j: int|
        0 <= i < j < pre.len() implies (#[trigger] pre[i]).path != (#[trigger] pre[j]).path by {
        let a = nm.len() as int;
        let b = a + build.len();
        let c = b + cache.len();
        lemma_pre_segment_name(config, det, t, path, i, nm, build, cache, cov);
        lemma_pre_segment_name(config, det, t, path, j, nm, build, cache, cov);
        let mi = choose|mi: int|
            0 <= mi < cn.len() && pre[i].path == joined(path, cn[mi]) && seg_of(
                i,
                a,
                b,
                c,
            ) == seg_of_name(mi, bl.len() as int, cl.len() as int);
        let mj = choose|mj: int|
            0 <= mj < cn.len() && pre[j].path == joined(path, cn[mj]) && seg_of(
                j,
                a,
                b,
                c,
            ) == seg_of_name(mj, bl.len() as int, cl.len() as int);
        if pre[i].path == pre[j].path {
            crate::fs_model::lemma_joined_injective(path, cn[mi], cn[mj]);
            if mi != mj {
                assert(false);
            }
            assert(seg_of(i, a, b, c) == seg_of(j, a, b, c));
            if seg_of(i, a, b, c) == 0 {
                assert(false);
            } else if seg_of(i, a, b, c) == 1 {
                assert(pre[i] == build[i - a] && pre[j] == build[j - a]);
                assert(false);
            } else if seg_of(i, a, b, c) == 2 {
                assert(pre[i] == cache[i - b] && pre[j] == cache[j - b]);
                assert(false);
            } else {
                assert(pre[i] == cov[i - c] && pre[j] == cov[j - c]);
                assert(false);
            }
        }
    }
    lemma_custom_extends_distinct(config, t, path, config.custom_targets@, pre);
    assert(targets_model(config, det, t, path) == pre + custom_targets_model(
        config,
        t,
        path,
        config.custom_targets@,
        pre,
    ));
}

/// Which phase an index of the combined pre-custom plan falls in.
spec fn seg_of(i: int, a: int, b: int, c: int) -> int {
    if i < a {
        0
    } else if i < b {
        1
    } else if i < c {
        2
    } else {
        3
    }
}

/// Which phase a candidate-name index belongs to.
spec fn seg_of_name(m: int, build_len: int, cache_len: int) -> int {
    if m < 1 {
        0
    } else if m < 1 + build_len {
        1
    } else if m < 1 + build_len + cache_len {
        2
    } else {
        3
    }
}

/// Each element of the pre-custom plan points at a candidate name of its own
/// phase.
proof fn lemma_pre_segment_name(
    config: Config,
    det: DetectorKind,
    t: TreeModel,
    path: Seq<char>,
    i: int,
    nm: Seq<CleanTargetView>,
    build: Seq<CleanTargetView>,
    cache: Seq<CleanTargetView>,
    cov: Seq<CleanTargetView>,
)
    requires
        nm == nm_targets(config, t, path),
        build == (if config.clean_build_dirs {
            dir_targets(config, t, path, det.build_dirs_spec(), TargetTypeView::BuildDir)
        } else {
            Seq::<CleanTargetView>::empty()
        }),
        cache == (if config.clean_cache_dirs {
            dir_targets(config, t, path, det.cache_dirs_spec(), TargetTypeView::CacheDir)
        } else {
            Seq::<CleanTargetView>::empty()
        }),
        cov == (if config.clean_coverage_dirs {
            dir_targets(config, t, path, det.coverage_dirs_spec(), TargetTypeView::Coverage)
        } else {
            Seq::<CleanTargetView>::empty()
        }),
        0 <= i < (nm + build + cache + cov).len(),
    ensures
        exists|m: int|
            0 <= m < candidate_names_seq(det).len() && (#[trigger] candidate_names_seq(det)[m],
            (nm + build + cache + cov)[i].path) == (
                candidate_names_seq(det)[m],
                joined(path, candidate_names_seq(det)[m]),
            ) && seg_of(
                i,
                nm.len() as int,
                nm.len() as int + build.len(),
                nm.len() as int + build.len() + cache.len(),
            ) == seg_of_name(
                m,
                det.build_dirs_spec().len() as int,
                det.cache_dirs_spec().len() as int,
            ),
{
    let cn = candidate_names_seq(det);
    let bl = det.build_dirs_spec();
    let cl = det.cache_dirs_spec();
    let vl = det.coverage_dirs_spec();
    let pre = nm + build + cache + cov;
    let a = nm.len() as int;
    let b = a + build.len();
    let c = b + cache.len();
    lemma_dir_targets_shape(config, t, path, bl, TargetTypeView::BuildDir);
    lemma_dir_targets_shape(config, t, path, cl, TargetTypeView::CacheDir);
    lemma_dir_targets_shape(config, t, path, vl, TargetTypeView::Coverage);
    if i < a {
        assert(pre[i] == nm[i]);
        assert(pre[i].path == joined(path, cn[0]));
        assert(seg_of(i, a, b, c) == 0 && seg_of_name(0, bl.len() as int, cl.len() as int) == 0);
    } else if i < b {
        assert(pre[i] == build[i - a]);
        let m = choose|m: int|
            0 <= m < bl.len() && build[i - a].path == joined(path, bl[m]);
        assert(pre[i].path == joined(path, cn[1 + m]));
        assert(seg_of_name(1 + m, bl.len() as int, cl.len() as int) == 1);
    } else if i < c {
        assert(pre[i] == cache[i - b]);
        let m = choose|m: int|
            0 <= m < cl.len() && cache[i - b].path == joined(path, cl[m]);
        assert(pre[i].path == joined(path, cn[1 + bl.len() + m]));
        assert(seg_of_name(
            1 + bl.len() + m,
            bl.len() as int,
            cl.len() as int,
        ) == 2);
    } else {
        assert(pre[i] == cov[i - c]);
        let m = choose|m: int|
            0 <= m < vl.len() && cov[i - c].path == joined(path, vl[m]);
        assert(pre[i].path == joined(path, cn[1 + bl.len() + cl.len() + m]));
        assert(seg_of_name(
            1 + bl.len() + cl.len() + m,
            bl.len() as int,
            cl.len() as int,
        ) == 3);
    }
}


/// Whether `q` is a path prefix of `p`: `p` is `q` itself or `q` followed by
/// a separator and more.
pub open spec fn path_extends(p: Seq<char>, q: Seq<char>) -> bool {
    &&& q.len() <= p.len()
    &&& p.subrange(0, q.len() as int) == q
    &&& (p.len() == q.len() || p[q.len() as int] == '/')
}

proof fn lemma_extends_trans(p: Seq<char>, q: Seq<char>, n: Seq<char>)
    requires
        path_extends(p, joined(q, n)),
    ensures
        path_extends(p, q),
        p.len() > q.len(),
{
    reveal_strlit("/");
    let jq = joined(q, n);
    assert(jq.len() == q.len() + 1 + n.len());
    assert(forall|i: int| 0 <= i < jq.len() ==> p[i] == (#[trigger] jq[i]));
    assert(p.subrange(0, q.len() as int) =~= q);
    assert(jq[q.len() as int] == '/');
}

/// Two paths below the same directory but under differently named entries
/// never coincide.
proof fn lemma_extends_disjoint(
    p1: Seq<char>,
    p2: Seq<char>,
    q: Seq<char>,
    n1: Seq<char>,
    n2: Seq<char>,
)
    requires
        path_extends(p1, joined(q, n1)),
        path_extends(p2, joined(q, n2)),
        n1 != n2,
        crate::fs_model::no_separator(n1),
        crate::fs_model::no_separator(n2),
    ensures
        p1 != p2,
{
    reveal_strlit("/");
    let j1 = joined(q, n1);
    let j2 = joined(q, n2);
    assert(j1.len() == q.len() + 1 + n1.len());
    assert(j2.len() == q.len() + 1 + n2.len());
    if p1 == p2 {
        assert(forall|i: int| 0 <= i < j1.len() ==> p1[i] == (#[trigger] j1[i]));
        assert(forall|i: int| 0 <= i < j2.len() ==> p2[i] == (#[trigger] j2[i]));
        if n1.len() == n2.len() {
            assert forall|i: int| 0 <= i < n1.len() implies n1[i] == n2[i] by {
                assert(j1[q.len() + 1 + i] == n1[i]);
                assert(j2[q.len() + 1 + i] == n2[i]);
            }
            assert(n1 =~= n2);
        } else if n1.len() < n2.len() {
            let idx = j1.len() as int;
            if p1.len() == j1.len() {
                assert(false);
            } else {
                assert(p1[idx] == '/');
                assert(j2[idx] == n2[idx - q.len() - 1]);
                assert(false);
            }
        } else {
            let idx = j2.len() as int;
            if p2.len() == j2.len() {
                assert(false);
            } else {
                assert(p2[idx] == '/');
                assert(j1[idx] == n1[idx - q.len() - 1]);
                assert(false);
            }
        }
    }
}

/// Every project a scan discovers lies at or below the root path.
proof fn lemma_scan_extends(config: Config, t: TreeModel, path: Seq<char>, rem: Option<usize>)
    ensures
        forall|k: int|
            0 <= k < scan_model(config, t, path, rem).len() ==> path_extends(
                (#[trigger] scan_model(config, t, path, rem)[k]).path,
                path,
            ),
    decreases t,
{
    let s1 = scan_model(config, t, path, rem);
    let here_len: int = if has_manifest(t) {
        1
    } else {
        0
    };
    assert(path.subrange(0, path.len() as int) =~= path);
    if !(has_manifest(t) && !config.recursive) && rem != Some(0usize) {
        lemma_children_extends(config, t.dirs, path, dec_remaining(rem));
    }
    assert forall|k: int| 0 <= k < s1.len() implies path_extends(
        (#[trigger] s1[k]).path,
        path,
    ) by {
        if k < here_len {
            assert(s1[k] == analyze_model(config, path, t));
        } else {
            let children = scan_children(config, t.dirs, path, dec_remaining(rem));
            assert(s1[k] == children[k - here_len]);
        }
    }
}

proof fn lemma_children_extends(
    config: Config,
    ds: Seq<TreeModel>,
    path: Seq<char>,
    rem: Option<usize>,
)
    ensures
        forall|k: int|
            0 <= k < scan_children(config, ds, path, rem).len() ==> path_extends(
                (#[trigger] scan_children(config, ds, path, rem)[k]).path,
                path,
            ) && (#[trigger] scan_children(config, ds, path, rem)[k]).path.len() > path.len(),
    decreases ds,
{
    if ds.len() > 0 {
        let c1 = scan_children(config, ds, path, rem);
        let head: Seq<ProjectView> = if ds[0].name == "node_modules"@ {
            Seq::empty()
        } else {
            scan_model(config, ds[0], joined(path, ds[0].name), rem)
        };
        let rest = scan_children(config, ds.drop_first(), path, rem);
        if ds[0].name != "node_modules"@ {
            lemma_scan_extends(config, ds[0], joined(path, ds[0].name), rem);
        }
        lemma_children_extends(config, ds.drop_first(), path, rem);
        assert forall|k: int| 0 <= k < c1.len() implies path_extends(
            (#[trigger] c1[k]).path,
            path,
        ) && c1[k].path.len() > path.len() by {
            if k < head.len() {
                assert(c1[k] == head[k]);
                lemma_extends_trans(head[k].path, path, ds[0].name);
            } else {
                assert(c1[k] == rest[k - head.len()]);
            }
        }
    }
}

/// Distinctness law for the scan: over a well-formed snapshot, no two
/// discovered projects share a path — each directory contributes at most
/// once.
pub proof fn lemma_scan_paths_distinct(
    config: Config,
    t: TreeModel,
    path: Seq<char>,
    rem: Option<usize>,
)
    requires
        crate::fs_model::wf_tree(t),
    ensures
        forall|i: int, j: int|
            0 <= i < j < scan_model(config, t, path, rem).len() ==> (#[trigger] scan_model(
                config,
                t,
                path,
                rem,
            )[i]).path != (#[trigger] scan_model(config, t, path, rem)[j]).path,
    decreases t,
{
    let s1 = scan_model(config, t, path, rem);
    let here_len: int = if has_manifest(t) {
        1
    } else {
        0
    };
    if !(has_manifest(t) && !config.recursive) && rem != Some(0usize) {
        lemma_children_distinct(config, t.dirs, path, dec_remaining(rem));
        lemma_children_extends(config, t.dirs, path, dec_remaining(rem));
    }
    assert forall|i: int, j: int| 0 <= i < j < s1.len() implies (#[trigger] s1[i]).path != (
    #[trigger] s1[j]).path by {
        let children = scan_children(config, t.dirs, path, dec_remaining(rem));
        if i < here_len {
            assert(s1[i] == analyze_model(config, path, t));
            assert(s1[j] == children[j - here_len]);
            assert(s1[j].path.len() > path.len());
        } else {
            assert(s1[i] == children[i - here_len]);
            assert(s1[j] == children[j - here_len]);
        }
    }
}

proof fn lemma_children_distinct(
    config: Config,
    ds: Seq<TreeModel>,
    path: Seq<char>,
    rem: Option<usize>,
)
    requires
        forall|i: int| 0 <= i < ds.len() ==> crate::fs_model::wf_tree(#[trigger] ds[i]),
        forall|i: int|
            0 <= i < ds.len() ==> crate::fs_model::no_separator((#[trigger] ds[i]).name),
        forall|i: int, j: int|
            0 <= i < j < ds.len() ==> (#[trigger] ds[i]).name != (#[trigger] ds[j]).name,
    ensures
        forall|k: int, l: int|
            0 <= k < l < scan_children(config, ds, path, rem).len() ==> (
            #[trigger] scan_children(config, ds, path, rem)[k]).path != (
            #[trigger] scan_children(config, ds, path, rem)[l]).path,
        forall|k: int|
            0 <= k < scan_children(config, ds, path, rem).len() ==> exists|m: int|
                0 <= m < ds.len() && path_extends(
                    (#[trigger] scan_children(config, ds, path, rem)[k]).path,
                    joined(path, ds[m].name),
                ),
    decreases ds,
{
    if ds.len() > 0 {
        let c1 = scan_children(config, ds, path, rem);
        let head: Seq<ProjectView> = if ds[0].name == "node_modules"@ {
            Seq::empty()
        } else {
            scan_model(config, ds[0], joined(path, ds[0].name), rem)
        };
        let rest = scan_children(config, ds.drop_first(), path, rem);
        assert(forall|i: int|
            0 <= i < ds.drop_first().len() ==> (#[trigger] ds.drop_first()[i]) == ds[i + 1]);
        if ds[0].name != "node_modules"@ {
            lemma_scan_paths_distinct(config, ds[0], joined(path, ds[0].name), rem);
            lemma_scan_extends(config, ds[0], joined(path, ds[0].name), rem);
        }
        lemma_children_distinct(config, ds.drop_first(), path, rem);

        assert forall|k: int| 0 <= k < c1.len() implies exists|m: int|
            0 <= m < ds.len() && path_extends(
                (#[trigger] c1[k]).path,
                joined(path, ds[m].name),
            ) by {
            if k < head.len() {
                assert(c1[k] == head[k]);
                assert(path_extends(c1[k].path, joined(path, ds[0].name)));
            } else {
                assert(c1[k] == rest[k - head.len()]);
                let m0 = choose|m0: int|
                    0 <= m0 < ds.drop_first().len() && path_extends(
                        rest[k - head.len()].path,
                        joined(path, ds.drop_first()[m0].name),
                    );
                assert(path_extends(c1[k].path, joined(path, ds[m0 + 1].name)));
            }
        }
        assert forall|k: int, l: int| 0 <= k < l < c1.len() implies (#[trigger] c1[k]).path != (
        #[trigger] c1[l]).path by {
            if l < head.len() {
                assert(c1[k] == head[k] && c1[l] == head[l]);
            } else if k >= head.len() {
                assert(c1[k] == rest[k - head.len()] && c1[l] == rest[l - head.len()]);
            } else {
                assert(c1[k] == head[k] && c1[l] == rest[l - head.len()]);
                assert(path_extends(c1[k].path, joined(path, ds[0].name)));
                let m0 = choose|m0: int|
                    0 <= m0 < ds.drop_first().len() && path_extends(
                        rest[l - head.len()].path,
                        joined(path, ds.drop_first()[m0].name),
                    );
                lemma_extends_disjoint(
                    c1[k].path,
                    c1[l].path,
                    path,
                    ds[0].name,
                    ds[m0 + 1].name,
                );
            }
        }
    }
}

proof fn lemma_sum_sizes_nonneg(ts: Seq<CleanTargetView>, f: spec_fn(CleanTargetView) -> int)
    requires
        forall|t: CleanTargetView| #[trigger] f(t) >= 0,
    ensures
        sum_sizes(ts, f) >= 0,
    decreases ts.len(),
{
    if ts.len() > 0 {
        lemma_sum_sizes_nonneg(ts.drop_first(), f);
    }
}

} // verus!
