use vstd::prelude::*;

use crate::cleaner::{action_spec, TargetAction};
use crate::config::Config;
use crate::fs_model::{find_dir, find_file, has_entry, joined, no_separator, FileModel, TreeModel};
use crate::project::analyzers::DetectorKind;
use crate::project::{CleanTargetView, TargetTypeView};
use crate::project::{has_manifest, manifest_text};
use crate::project::analyzers::built_in_chain;
use crate::project::ProjectView;
use crate::scanner::{
    analyze_model, custom_targets_model, dec_remaining, dir_targets, excluded_spec,
    first_match_index, lemma_dir_targets_shape, nm_targets, package_of, resolved_index,
    scan_children, scan_model, targets_model,
};

verus! {

broadcast use vstd::string::group_string_axioms;

/// The paths a plan built from `targets` marks for removal.
pub open spec fn removed_target_paths(config: Config, targets: Seq<CleanTargetView>) -> Set<
    Seq<char>,
> {
    Set::new(
        |p: Seq<char>|
            exists|k: int|
                0 <= k < targets.len() && (#[trigger] targets[k]).path == p && action_spec(
                    config,
                    targets[k].target_type,
                ) == TargetAction::Remove,
    )
}

/// `fs` with every file whose full path is in `removed` taken out.
pub open spec fn prune_files(
    fs: Seq<FileModel>,
    path: Seq<char>,
    removed: Set<Seq<char>>,
) -> Seq<FileModel>
    decreases fs.len(),
{
    if fs.len() == 0 {
        Seq::empty()
    } else {
        (if removed.contains(joined(path, fs[0].name)) {
            Seq::<FileModel>::empty()
        } else {
            seq![fs[0]]
        }) + prune_files(fs.drop_first(), path, removed)
    }
}

/// The snapshot after every entry whose full path is in `removed` has been
/// deleted: what a run of the cleaner leaves behind when every removal
/// succeeds.
pub open spec fn prune_model(t: TreeModel, path: Seq<char>, removed: Set<Seq<char>>) -> TreeModel
    decreases t,
{
    TreeModel {
        name: t.name,
        files: prune_files(t.files, path, removed),
        dirs: prune_dirs(t.dirs, path, removed),
    }
}

/// `ds` with every subdirectory whose full path is in `removed` taken out,
/// the kept ones pruned recursively.
pub open spec fn prune_dirs(
    ds: Seq<TreeModel>,
    path: Seq<char>,
    removed: Set<Seq<char>>,
) -> Seq<TreeModel>
    decreases ds,
{
    if ds.len() == 0 {
        Seq::empty()
    } else {
        (if removed.contains(joined(path, ds[0].name)) {
            Seq::<TreeModel>::empty()
        } else {
            seq![prune_model(ds[0], joined(path, ds[0].name), removed)]
        }) + prune_dirs(ds.drop_first(), path, removed)
    }
}

/// A kept file keeps its place: looking a name up after pruning gives the
/// same file, as long as that name's path was not removed.
proof fn lemma_prune_files_find(
    fs: Seq<FileModel>,
    path: Seq<char>,
    removed: Set<Seq<char>>,
    name: Seq<char>,
)
    requires
        !removed.contains(joined(path, name)),
    ensures
        find_file(prune_files(fs, path, removed), name) == find_file(fs, name),
    decreases fs.len(),
{
    if fs.len() > 0 {
        lemma_prune_files_find(fs.drop_first(), path, removed, name);
        let pruned = prune_files(fs, path, removed);
        if removed.contains(joined(path, fs[0].name)) {
            assert(fs[0].name != name);
            assert(pruned =~= prune_files(fs.drop_first(), path, removed));
        } else {
            assert(pruned[0] == fs[0]);
            assert(pruned.drop_first() =~= prune_files(fs.drop_first(), path, removed));
        }
    }
}

/// A name found among the pruned subdirectories was already there before.
proof fn lemma_prune_dirs_some(
    ds: Seq<TreeModel>,
    path: Seq<char>,
    removed: Set<Seq<char>>,
    name: Seq<char>,
)
    requires
        find_dir(prune_dirs(ds, path, removed), name) is Some,
    ensures
        find_dir(ds, name) is Some,
        !removed.contains(joined(path, name)),
    decreases ds.len(),
{
    if ds.len() > 0 {
        let pruned = prune_dirs(ds, path, removed);
        if removed.contains(joined(path, ds[0].name)) {
            assert(pruned =~= prune_dirs(ds.drop_first(), path, removed));
            lemma_prune_dirs_some(ds.drop_first(), path, removed, name);
            if ds[0].name == name {
                assert(false);
            }
        } else {
            assert(pruned[0] == prune_model(ds[0], joined(path, ds[0].name), removed));
            assert(pruned[0].name == ds[0].name);
            assert(pruned.drop_first() =~= prune_dirs(ds.drop_first(), path, removed));
            if ds[0].name != name {
                lemma_prune_dirs_some(ds.drop_first(), path, removed, name);
            }
        }
    } else {
        assert(prune_dirs(ds, path, removed) =~= Seq::<TreeModel>::empty());
    }
}

/// A name found among the pruned files was already there before.
proof fn lemma_prune_files_some(
    fs: Seq<FileModel>,
    path: Seq<char>,
    removed: Set<Seq<char>>,
    name: Seq<char>,
)
    requires
        find_file(prune_files(fs, path, removed), name) is Some,
    ensures
        find_file(fs, name) is Some,
        !removed.contains(joined(path, name)),
    decreases fs.len(),
{
    if fs.len() > 0 {
        let pruned = prune_files(fs, path, removed);
        if removed.contains(joined(path, fs[0].name)) {
            assert(pruned =~= prune_files(fs.drop_first(), path, removed));
            lemma_prune_files_some(fs.drop_first(), path, removed, name);
            if fs[0].name == name {
                assert(false);
            }
        } else {
            assert(pruned[0] == fs[0]);
            assert(pruned.drop_first() =~= prune_files(fs.drop_first(), path, removed));
            if fs[0].name != name {
                lemma_prune_files_some(fs.drop_first(), path, removed, name);
            }
        }
    } else {
        assert(prune_files(fs, path, removed) =~= Seq::<FileModel>::empty());
    }
}

/// The entry names the resolved detector's plan can touch, with no custom
/// targets configured.
pub open spec fn candidate_name(det: DetectorKind, n: Seq<char>) -> bool {
    n == "node_modules"@ || det.build_dirs_spec().contains(n) || det.cache_dirs_spec().contains(
        n,
    ) || det.coverage_dirs_spec().contains(n)
}


/// With no custom targets, every path of the resolved plan is the project
/// path joined with one of the resolved detector's candidate names.
proof fn lemma_targets_shape(config: Config, det: DetectorKind, t: TreeModel, path: Seq<char>)
    requires
        config.custom_targets@.len() == 0,
    ensures
        forall|k: int|
            0 <= k < targets_model(config, det, t, path).len() ==> exists|n: Seq<char>|
                candidate_name(det, n) && (#[trigger] targets_model(config, det, t, path)[
                    k
                ]).path == joined(path, n),
{
    let whole = targets_model(config, det, t, path);
    let nm = nm_targets(config, t, path);
    let build = if config.clean_build_dirs {
        dir_targets(config, t, path, det.build_dirs_spec(), TargetTypeView::BuildDir)
    } else {
        Seq::<CleanTargetView>::empty()
    };
    let cache = if config.clean_cache_dirs {
        dir_targets(config, t, path, det.cache_dirs_spec(), TargetTypeView::CacheDir)
    } else {
        Seq::<CleanTargetView>::empty()
    };
    let cov = if config.clean_coverage_dirs {
        dir_targets(config, t, path, det.coverage_dirs_spec(), TargetTypeView::Coverage)
    } else {
        Seq::<CleanTargetView>::empty()
    };
    let custom = custom_targets_model(config, t, path, config.custom_targets@, nm + build + cache
        + cov);
    assert(custom =~= Seq::<CleanTargetView>::empty());
    lemma_dir_targets_shape(config, t, path, det.build_dirs_spec(), TargetTypeView::BuildDir);
    lemma_dir_targets_shape(config, t, path, det.cache_dirs_spec(), TargetTypeView::CacheDir);
    lemma_dir_targets_shape(config, t, path, det.coverage_dirs_spec(),
        TargetTypeView::Coverage);
    assert forall|k: int| 0 <= k < whole.len() implies exists|n: Seq<char>|
        candidate_name(det, n) && (#[trigger] whole[k]).path == joined(path, n) by {
        let a = nm.len();
        let b = a + build.len();
        let c = b + cache.len();
        let d = c + cov.len();
        if k < a {
            assert(whole[k].path == joined(path, "node_modules"@));
            assert(candidate_name(det, "node_modules"@));
        } else if k < b {
            assert(whole[k] == build[k - a]);
            let m = choose|m: int|
                0 <= m < det.build_dirs_spec().len() && build[k - a].path == joined(
                    path,
                    det.build_dirs_spec()[m],
                );
            assert(det.build_dirs_spec().contains(det.build_dirs_spec()[m]));
            assert(whole[k].path == joined(path, det.build_dirs_spec()[m]));
            assert(candidate_name(det, det.build_dirs_spec()[m]));
        } else if k < c {
            assert(whole[k] == cache[k - b]);
            let m = choose|m: int|
                0 <= m < det.cache_dirs_spec().len() && cache[k - b].path == joined(
                    path,
                    det.cache_dirs_spec()[m],
                );
            assert(det.cache_dirs_spec().contains(det.cache_dirs_spec()[m]));
            assert(whole[k].path == joined(path, det.cache_dirs_spec()[m]));
            assert(candidate_name(det, det.cache_dirs_spec()[m]));
        } else if k < d {
            assert(whole[k] == cov[k - c]);
            let m = choose|m: int|
                0 <= m < det.coverage_dirs_spec().len() && cov[k - c].path == joined(
                    path,
                    det.coverage_dirs_spec()[m],
                );
            assert(det.coverage_dirs_spec().contains(det.coverage_dirs_spec()[m]));
            assert(whole[k].path == joined(path, det.coverage_dirs_spec()[m]));
            assert(candidate_name(det, det.coverage_dirs_spec()[m]));
        } else {
            assert(whole[k] == custom[k - d]);
            assert(false);
        }
    }
}

/// Two joined paths that read the same have the same last component, as long
/// as neither component holds a separator.
proof fn lemma_joined_last_component(
    base_a: Seq<char>,
    a: Seq<char>,
    base_b: Seq<char>,
    b: Seq<char>,
)
    requires
        joined(base_a, a) == joined(base_b, b),
        no_separator(a),
        no_separator(b),
    ensures
        a == b,
{
    reveal_strlit("/");
    let whole = joined(base_a, a);
    assert(whole.len() == base_a.len() + 1 + a.len());
    assert(joined(base_b, b).len() == base_b.len() + 1 + b.len());
    assert(whole[base_a.len() as int] == '/');
    assert(whole[base_b.len() as int] == '/');
    if a.len() < b.len() {
        let p = base_a.len() as int;
        assert(p >= base_b.len() + 1);
        assert(whole[p] == b[p - base_b.len() - 1]);
        assert(false);
    }
    if b.len() < a.len() {
        let p = base_b.len() as int;
        assert(p >= base_a.len() + 1);
        assert(whole[p] == a[p - base_a.len() - 1]);
        assert(false);
    }
    assert(base_a.len() == base_b.len());
    assert forall|i: int| 0 <= i < a.len() implies a[i] == b[i] by {
        assert(whole[base_a.len() + 1 + i] == a[i]);
        assert(joined(base_b, b)[base_b.len() + 1 + i] == b[i]);
    }
    assert(a =~= b);
}

/// The file names detection reads: the manifest and the well-known framework
/// configuration files.
pub open spec fn metadata_file_name(n: Seq<char>) -> bool {
    n == "package.json"@ || n == "next.config.js"@ || n == "nuxt.config.js"@ || n
        == "nuxt.config.ts"@ || n == "angular.json"@ || n == "vue.config.js"@ || n
        == "vite.config.js"@ || n == "example.config.js"@
}

/// The conventional directory names and the detection file names are plain
/// entry names: none holds a path separator.
proof fn lemma_literal_names_clean()
    ensures
        no_separator("node_modules"@),
        no_separator("dist"@),
        no_separator("build"@),
        no_separator("out"@),
        no_separator(".next"@),
        no_separator(".nuxt"@),
        no_separator(".cache"@),
        no_separator(".angular"@),
        no_separator("coverage"@),
        no_separator("example-build"@),
        no_separator("example-dist"@),
        no_separator(".example-cache"@),
        no_separator("example-coverage"@),
        no_separator("package.json"@),
        no_separator("next.config.js"@),
        no_separator("nuxt.config.js"@),
        no_separator("nuxt.config.ts"@),
        no_separator("angular.json"@),
        no_separator("vue.config.js"@),
        no_separator("vite.config.js"@),
        no_separator("example.config.js"@),
{
    reveal_strlit("node_modules");
    reveal_strlit("dist");
    reveal_strlit("build");
    reveal_strlit("out");
    reveal_strlit(".next");
    reveal_strlit(".nuxt");
    reveal_strlit(".cache");
    reveal_strlit(".angular");
    reveal_strlit("coverage");
    reveal_strlit("example-build");
    reveal_strlit("example-dist");
    reveal_strlit(".example-cache");
    reveal_strlit("example-coverage");
    reveal_strlit("package.json");
    reveal_strlit("next.config.js");
    reveal_strlit("nuxt.config.js");
    reveal_strlit("nuxt.config.ts");
    reveal_strlit("angular.json");
    reveal_strlit("vue.config.js");
    reveal_strlit("vite.config.js");
    reveal_strlit("example.config.js");
}

/// No candidate directory name is a file that detection reads, and every
/// candidate name is a plain entry name.
#[verifier::rlimit(100)]
proof fn lemma_candidates_not_metadata(det: DetectorKind)
    ensures
        forall|n: Seq<char>| candidate_name(det, n) ==> !metadata_file_name(n),
        forall|n: Seq<char>| #[trigger] candidate_name(det, n) ==> no_separator(n),
{
    lemma_literal_names_clean();
    assert forall|n: Seq<char>| candidate_name(det, n) implies !metadata_file_name(n)
        && no_separator(n) by {
        reveal_strlit("node_modules");
        reveal_strlit("dist");
        reveal_strlit("build");
        reveal_strlit("out");
        reveal_strlit(".next");
        reveal_strlit(".nuxt");
        reveal_strlit(".cache");
        reveal_strlit(".angular");
        reveal_strlit("coverage");
        reveal_strlit("example-build");
        reveal_strlit("example-dist");
        reveal_strlit(".example-cache");
        reveal_strlit("example-coverage");
        reveal_strlit("package.json");
        reveal_strlit("next.config.js");
        reveal_strlit("nuxt.config.js");
        reveal_strlit("nuxt.config.ts");
        reveal_strlit("angular.json");
        reveal_strlit("vue.config.js");
        reveal_strlit("vite.config.js");
        reveal_strlit("example.config.js");
        assert("node_modules"@.len() == 12);
        assert("dist"@.len() == 4);
        assert("build"@.len() == 5);
        assert("out"@.len() == 3);
        assert(".next"@.len() == 5);
        assert(".nuxt"@.len() == 5);
        assert(".cache"@.len() == 6);
        assert(".angular"@.len() == 8);
        assert("coverage"@.len() == 8);
        assert("example-build"@.len() == 13);
        assert("example-dist"@.len() == 12);
        assert(".example-cache"@.len() == 14);
        assert("example-coverage"@.len() == 16);
        assert("package.json"@.len() == 12);
        assert("next.config.js"@.len() == 14);
        assert("nuxt.config.js"@.len() == 14);
        assert("nuxt.config.ts"@.len() == 14);
        assert("angular.json"@.len() == 12);
        assert("vue.config.js"@.len() == 13);
        assert("vite.config.js"@.len() == 14);
        assert("example.config.js"@.len() == 17);
        assert("node_modules"@[0] != "package.json"@[0]);
        assert("node_modules"@[0] != "angular.json"@[0]);
        assert("example-dist"@[0] != "package.json"@[0]);
        assert("example-dist"@[0] != "angular.json"@[0]);
        assert("example-build"@[0] != "vue.config.js"@[0]);
        assert(".example-cache"@[0] != "next.config.js"@[0]);
        assert(".example-cache"@[0] != "nuxt.config.js"@[0]);
        assert(".example-cache"@[0] != "nuxt.config.ts"@[0]);
        assert(".example-cache"@[0] != "vite.config.js"@[0]);
        match det {
            DetectorKind::NextJs(_) => {
                assert(det.build_dirs_spec() =~= seq![".next"@, "out"@]);
                assert(det.cache_dirs_spec() =~= Seq::<Seq<char>>::empty());
                assert(det.coverage_dirs_spec() =~= seq!["coverage"@]);
            },
            DetectorKind::NuxtJs(_) => {
                assert(det.build_dirs_spec() =~= seq![".nuxt"@, "dist"@]);
                assert(det.cache_dirs_spec() =~= seq![".cache"@]);
                assert(det.coverage_dirs_spec() =~= seq!["coverage"@]);
            },
            DetectorKind::Angular(_) => {
                assert(det.build_dirs_spec() =~= seq!["dist"@]);
                assert(det.cache_dirs_spec() =~= seq![".angular"@]);
                assert(det.coverage_dirs_spec() =~= seq!["coverage"@]);
            },
            DetectorKind::Vue(_) => {
                assert(det.build_dirs_spec() =~= seq!["dist"@]);
                assert(det.cache_dirs_spec() =~= Seq::<Seq<char>>::empty());
                assert(det.coverage_dirs_spec() =~= seq!["coverage"@]);
            },
            DetectorKind::React(_) => {
                assert(det.build_dirs_spec() =~= seq!["build"@, "dist"@]);
                assert(det.cache_dirs_spec() =~= Seq::<Seq<char>>::empty());
                assert(det.coverage_dirs_spec() =~= seq!["coverage"@]);
            },
            DetectorKind::Generic(_) => {
                assert(det.build_dirs_spec() =~= seq!["dist"@, "build"@, "out"@]);
                assert(det.cache_dirs_spec() =~= seq![".cache"@]);
                assert(det.coverage_dirs_spec() =~= seq!["coverage"@]);
            },
            DetectorKind::Example(_) => {
                assert(det.build_dirs_spec() =~= seq!["example-build"@, "example-dist"@]);
                assert(det.cache_dirs_spec() =~= seq![".example-cache"@]);
                assert(det.coverage_dirs_spec() =~= seq!["example-coverage"@]);
            },
        }
        if n != "node_modules"@ {
            if det.build_dirs_spec().contains(n) {
                let m = choose|m: int|
                    0 <= m < det.build_dirs_spec().len() && det.build_dirs_spec()[m] == n;
                assert(det.build_dirs_spec()[m] == n);
            } else if det.cache_dirs_spec().contains(n) {
                let m = choose|m: int|
                    0 <= m < det.cache_dirs_spec().len() && det.cache_dirs_spec()[m] == n;
                assert(det.cache_dirs_spec()[m] == n);
            } else {
                let m = choose|m: int|
                    0 <= m < det.coverage_dirs_spec().len() && det.coverage_dirs_spec()[m] == n;
                assert(det.coverage_dirs_spec()[m] == n);
            }
        }
    }
}

/// Every detector of the chain sees the pruned project the same way, as long
/// as the files detection reads were preserved.
proof fn lemma_matches_preserved(
    pkg: Option<crate::project::PackageInfoView>,
    t: TreeModel,
    t2: TreeModel,
)
    requires
        forall|n: Seq<char>|
            #[trigger] metadata_file_name(n) ==> find_file(t2.files, n) == find_file(t.files, n),
    ensures
        forall|m: int|
            0 <= m < built_in_chain().len() ==> (#[trigger] built_in_chain()[m]).matches_spec(
                pkg,
                t2,
            ) == built_in_chain()[m].matches_spec(pkg, t),
{
    let c = built_in_chain();
    assert(metadata_file_name("next.config.js"@));
    assert(metadata_file_name("nuxt.config.js"@));
    assert(metadata_file_name("nuxt.config.ts"@));
    assert(metadata_file_name("angular.json"@));
    assert(metadata_file_name("vue.config.js"@));
    assert(metadata_file_name("vite.config.js"@));
    assert(find_file(t2.files, "next.config.js"@) == find_file(t.files, "next.config.js"@));
    assert(find_file(t2.files, "nuxt.config.js"@) == find_file(t.files, "nuxt.config.js"@));
    assert(find_file(t2.files, "nuxt.config.ts"@) == find_file(t.files, "nuxt.config.ts"@));
    assert(find_file(t2.files, "angular.json"@) == find_file(t.files, "angular.json"@));
    assert(find_file(t2.files, "vue.config.js"@) == find_file(t.files, "vue.config.js"@));
    assert(find_file(t2.files, "vite.config.js"@) == find_file(t.files, "vite.config.js"@));
    assert forall|m: int| 0 <= m < c.len() implies (#[trigger] c[m]).matches_spec(pkg, t2) == c[
        m
    ].matches_spec(pkg, t) by {
        assert(c.len() == 6);
    }
}

/// Chains whose detectors agree on two projects resolve them identically.
proof fn lemma_first_match_congruent(
    chain: Seq<DetectorKind>,
    pkg: Option<crate::project::PackageInfoView>,
    t: TreeModel,
    t2: TreeModel,
)
    requires
        forall|m: int|
            0 <= m < chain.len() ==> (#[trigger] chain[m]).matches_spec(pkg, t2) == chain[
                m
            ].matches_spec(pkg, t),
    ensures
        first_match_index(chain, pkg, t2) == first_match_index(chain, pkg, t),
    decreases chain.len(),
{
    if chain.len() > 0 && !chain[0].matches_spec(pkg, t) {
        assert(forall|m: int|
            0 <= m < chain.drop_first().len() ==> (#[trigger] chain.drop_first()[m]) == chain[
                m + 1
            ]);
        lemma_first_match_congruent(chain.drop_first(), pkg, t, t2);
    }
}

/// Pruning a batch's removals never touches the files detection reads: every
/// removed path ends in a plain non-metadata name, so a metadata file's path
/// can never be among them.
proof fn lemma_metadata_preserved(t: TreeModel, path: Seq<char>, removed: Set<Seq<char>>)
    requires
        forall|q: Seq<char>| removed.contains(q) ==> #[trigger] removable_shape(q),
    ensures
        forall|n: Seq<char>|
            #[trigger] metadata_file_name(n) ==> find_file(
                prune_model(t, path, removed).files,
                n,
            ) == find_file(t.files, n),
{
    lemma_literal_names_clean();
    assert forall|n: Seq<char>| #[trigger] metadata_file_name(n) implies find_file(
        prune_model(t, path, removed).files,
        n,
    ) == find_file(t.files, n) by {
        if removed.contains(joined(path, n)) {
            assert(removable_shape(joined(path, n)));
            let (base, cn): (Seq<char>, Seq<char>) = choose|base: Seq<char>, cn: Seq<char>|
                joined(path, n) == joined(base, cn) && no_separator(cn) && !metadata_file_name(
                    cn,
                );
            assert(no_separator(n));
            lemma_joined_last_component(path, n, base, cn);
            assert(false);
        }
        lemma_prune_files_find(t.files, path, removed, n);
    }
}

/// The shape of every path a plan can mark for removal: some base directory
/// joined with a plain entry name that is not one of the files detection
/// reads.
pub open spec fn removable_shape(q: Seq<char>) -> bool {
    exists|base: Seq<char>, n: Seq<char>|
        q == joined(base, n) && no_separator(n) && !metadata_file_name(n)
}

/// Idempotence law, per project: after a run in which every removal the plan
/// called for succeeded, analyzing the same project directory again yields a
/// plan in which no target is eligible — nothing is left to remove.  Custom
/// targets are left out of the law: a custom target can delete the very files
/// detection reads, after which a second scan may classify the project
/// differently and propose different directories.
pub proof fn lemma_clean_once_is_enough(config: Config, path: Seq<char>, t: TreeModel)
    requires
        config.custom_targets@.len() == 0,
        !config.dry_run,
    ensures
        ({
            let before = analyze_model(config, path, t);
            let removed = removed_target_paths(config, before.detected_targets);
            let after = analyze_model(config, path, prune_model(t, path, removed));
            forall|k: int|
                0 <= k < after.detected_targets.len() ==> action_spec(
                    config,
                    (#[trigger] after.detected_targets[k]).target_type,
                ) != TargetAction::Remove
        }),
{
    let removed = removed_target_paths(config, analyze_model(config, path, t).detected_targets);
    lemma_project_removed_shape(config, path, t);
    lemma_project_clean_general(config, path, t, removed);
}

/// Whatever a single project's plan marks for removal has the removable
/// shape.
proof fn lemma_project_removed_shape(config: Config, path: Seq<char>, t: TreeModel)
    requires
        config.custom_targets@.len() == 0,
    ensures
        forall|q: Seq<char>|
            removed_target_paths(
                config,
                analyze_model(config, path, t).detected_targets,
            ).contains(q) ==> #[trigger] removable_shape(q),
{
    let before = analyze_model(config, path, t);
    let removed = removed_target_paths(config, before.detected_targets);
    let pkg = package_of(t);
    let chain = built_in_chain();
    let det = chain[resolved_index(chain, pkg, t)];
    lemma_targets_shape(config, det, t, path);
    lemma_candidates_not_metadata(det);
    assert forall|q: Seq<char>| removed.contains(q) implies #[trigger] removable_shape(q) by {
        let k = choose|k: int|
            0 <= k < before.detected_targets.len() && (#[trigger] before.detected_targets[
                k
            ]).path == q && action_spec(
                config,
                before.detected_targets[k].target_type,
            ) == TargetAction::Remove;
        let cn = choose|cn: Seq<char>|
            candidate_name(det, cn) && before.detected_targets[k].path == joined(path, cn);
        assert(q == joined(path, cn) && no_separator(cn) && !metadata_file_name(cn));
    }
}

/// The generalized per-project form: the batch may have removed more than
/// this project's plan, as long as it removed at least that plan and touched
/// only paths of the removable shape.
proof fn lemma_project_clean_general(
    config: Config,
    path: Seq<char>,
    t: TreeModel,
    removed: Set<Seq<char>>,
)
    requires
        config.custom_targets@.len() == 0,
        !config.dry_run,
        removed_target_paths(
            config,
            analyze_model(config, path, t).detected_targets,
        ).subset_of(removed),
        forall|q: Seq<char>| removed.contains(q) ==> #[trigger] removable_shape(q),
    ensures
        ({
            let after = analyze_model(config, path, prune_model(t, path, removed));
            forall|k: int|
                0 <= k < after.detected_targets.len() ==> action_spec(
                    config,
                    (#[trigger] after.detected_targets[k]).target_type,
                ) != TargetAction::Remove
        }),
{
    let before = analyze_model(config, path, t);
    let local = removed_target_paths(config, before.detected_targets);
    let t2 = prune_model(t, path, removed);
    let after = analyze_model(config, path, t2);
    let pkg = package_of(t);
    let chain = built_in_chain();
    let det = chain[resolved_index(chain, pkg, t)];
    assert(before.detected_targets == targets_model(config, det, t, path));

    lemma_metadata_preserved(t, path, removed);

    // Same metadata, same detection, same resolved detector.
    assert(metadata_file_name("package.json"@));
    assert(manifest_text(t2) == manifest_text(t));
    assert(package_of(t2) == pkg);
    lemma_matches_preserved(pkg, t, t2);
    lemma_first_match_congruent(chain, pkg, t, t2);
    assert(after.detected_targets == targets_model(config, det, t2, path));

    // Phase by phase, nothing eligible is left.
    let nm2 = nm_targets(config, t2, path);
    let build2 = if config.clean_build_dirs {
        dir_targets(config, t2, path, det.build_dirs_spec(), TargetTypeView::BuildDir)
    } else {
        Seq::<CleanTargetView>::empty()
    };
    let cache2 = if config.clean_cache_dirs {
        dir_targets(config, t2, path, det.cache_dirs_spec(), TargetTypeView::CacheDir)
    } else {
        Seq::<CleanTargetView>::empty()
    };
    let cov2 = if config.clean_coverage_dirs {
        dir_targets(config, t2, path, det.coverage_dirs_spec(), TargetTypeView::Coverage)
    } else {
        Seq::<CleanTargetView>::empty()
    };
    let custom2 = custom_targets_model(config, t2, path, config.custom_targets@, nm2 + build2
        + cache2 + cov2);
    assert(custom2 =~= Seq::<CleanTargetView>::empty());

    let nm = nm_targets(config, t, path);
    if config.clean_node_modules {
        if has_entry(t2, "node_modules"@) && !excluded_spec(
            config,
            joined(path, "node_modules"@),
        ) {
            if find_file(t2.files, "node_modules"@) is Some {
                lemma_prune_files_some(t.files, path, removed, "node_modules"@);
            } else {
                lemma_prune_dirs_some(t.dirs, path, removed, "node_modules"@);
            }
            assert(has_entry(t, "node_modules"@));
            assert(nm.len() == 1);
            assert(before.detected_targets[0] == nm[0]);
            assert(local.contains(joined(path, "node_modules"@)));
            assert(removed.contains(joined(path, "node_modules"@)));
            assert(false);
        }
        assert(nm2.len() == 0);
    }

    if config.clean_build_dirs {
        lemma_phase_empty(config, t, t2, path, removed, det.build_dirs_spec(),
            TargetTypeView::BuildDir, nm.len() as int, before.detected_targets);
        assert(build2.len() == 0);
    }
    let build1 = if config.clean_build_dirs {
        dir_targets(config, t, path, det.build_dirs_spec(), TargetTypeView::BuildDir)
    } else {
        Seq::<CleanTargetView>::empty()
    };
    if config.clean_cache_dirs {
        lemma_phase_empty(config, t, t2, path, removed, det.cache_dirs_spec(),
            TargetTypeView::CacheDir, nm.len() + build1.len() as int, before.detected_targets);
        assert(cache2.len() == 0);
    }
    let cache1 = if config.clean_cache_dirs {
        dir_targets(config, t, path, det.cache_dirs_spec(), TargetTypeView::CacheDir)
    } else {
        Seq::<CleanTargetView>::empty()
    };
    if config.clean_coverage_dirs {
        lemma_phase_empty(config, t, t2, path, removed, det.coverage_dirs_spec(),
            TargetTypeView::Coverage, nm.len() + build1.len() + cache1.len() as int,
            before.detected_targets);
        assert(cov2.len() == 0);
    }

    assert forall|k: int| 0 <= k < after.detected_targets.len() implies action_spec(
        config,
        (#[trigger] after.detected_targets[k]).target_type,
    ) != TargetAction::Remove by {
        let whole = after.detected_targets;
        assert(whole == nm2 + build2 + cache2 + cov2 + custom2);
        if k < nm2.len() {
            assert(whole[k] == nm2[k]);
            assert(!config.clean_node_modules);
            assert(whole[k].target_type == TargetTypeView::NodeModules);
        } else {
            assert(false);
        }
    }
}

/// Every existing, non-excluded candidate of an enabled phase was marked for
/// removal, so the phase over the pruned project is empty.
#[verifier::spinoff_prover]
proof fn lemma_phase_empty(
    config: Config,
    t: TreeModel,
    t2: TreeModel,
    path: Seq<char>,
    removed: Set<Seq<char>>,
    names: Seq<Seq<char>>,
    tt: TargetTypeView,
    offset: int,
    targets: Seq<CleanTargetView>,
)
    requires
        t2 == prune_model(t, path, removed),
        removed_target_paths(config, targets).subset_of(removed),
        action_spec(config, tt) == TargetAction::Remove,
        // the phase's targets sit in `targets` from `offset` on
        offset >= 0,
        offset + dir_targets(config, t, path, names, tt).len() <= targets.len(),
        forall|k: int|
            0 <= k < dir_targets(config, t, path, names, tt).len() ==> targets[offset + k] == (
            #[trigger] dir_targets(config, t, path, names, tt)[k]),
    ensures
        dir_targets(config, t2, path, names, tt).len() == 0,
    decreases names.len(),
{
    if names.len() > 0 {
        let dt2 = dir_targets(config, t2, path, names, tt);
        let dt1 = dir_targets(config, t, path, names, tt);
        if find_dir(t2.dirs, names[0]) is Some && !excluded_spec(config, joined(path, names[0])) {
            lemma_prune_dirs_some(t.dirs, path, removed, names[0]);
            assert(find_dir(t.dirs, names[0]) is Some);
            assert(dt1[0].path == joined(path, names[0]) && dt1[0].target_type == tt);
            assert(targets[offset] == dt1[0]);
            assert(removed_target_paths(config, targets).contains(joined(path, names[0])));
            assert(removed.contains(joined(path, names[0])));
            assert(false);
        }
        let head1_len = if find_dir(t.dirs, names[0]) is Some && !excluded_spec(
            config,
            joined(path, names[0]),
        ) {
            1int
        } else {
            0int
        };
        let rest1 = dir_targets(config, t, path, names.drop_first(), tt);
        assert forall|k: int| 0 <= k < rest1.len() implies targets[(offset + head1_len) + k] == (
        #[trigger] rest1[k]) by {
            assert(dt1[head1_len + k] == rest1[k]);
            assert(targets[offset + (head1_len + k)] == dt1[head1_len + k]);
        }
        lemma_phase_empty(config, t, t2, path, removed, names.drop_first(), tt,
            offset + head1_len, targets);
        assert(dt2 =~= dir_targets(config, t2, path, names.drop_first(), tt));
    }
}

/// Every path any project of a scanned batch marks for removal.
pub open spec fn batch_removed(config: Config, projects: Seq<ProjectView>) -> Set<Seq<char>> {
    Set::new(
        |p: Seq<char>|
            exists|i: int|
                0 <= i < projects.len() && removed_target_paths(
                    config,
                    (#[trigger] projects[i]).detected_targets,
                ).contains(p),
    )
}

/// Whatever any scanned project's plan marks for removal has the removable
/// shape.
proof fn lemma_scan_removed_shape(
    config: Config,
    t: TreeModel,
    path: Seq<char>,
    rem: Option<usize>,
)
    requires
        config.custom_targets@.len() == 0,
    ensures
        forall|i: int, q: Seq<char>|
            0 <= i < scan_model(config, t, path, rem).len() && removed_target_paths(
                config,
                (#[trigger] scan_model(config, t, path, rem)[i]).detected_targets,
            ).contains(q) ==> #[trigger] removable_shape(q),
    decreases t,
{
    let s1 = scan_model(config, t, path, rem);
    lemma_project_removed_shape(config, path, t);
    if !(has_manifest(t) && !config.recursive) && rem != Some(0usize) {
        lemma_scan_children_removed_shape(config, t.dirs, path, dec_remaining(rem));
    }
    assert forall|i: int, q: Seq<char>|
        0 <= i < s1.len() && removed_target_paths(
            config,
            (#[trigger] s1[i]).detected_targets,
        ).contains(q) implies #[trigger] removable_shape(q) by {
        let here_len: int = if has_manifest(t) {
            1
        } else {
            0
        };
        if i < here_len {
            assert(s1[i] == analyze_model(config, path, t));
        } else {
            let children = scan_children(config, t.dirs, path, dec_remaining(rem));
            assert(s1[i] == children[i - here_len]);
        }
    }
}

proof fn lemma_scan_children_removed_shape(
    config: Config,
    ds: Seq<TreeModel>,
    path: Seq<char>,
    rem: Option<usize>,
)
    requires
        config.custom_targets@.len() == 0,
    ensures
        forall|i: int, q: Seq<char>|
            0 <= i < scan_children(config, ds, path, rem).len() && removed_target_paths(
                config,
                (#[trigger] scan_children(config, ds, path, rem)[i]).detected_targets,
            ).contains(q) ==> #[trigger] removable_shape(q),
    decreases ds,
{
    if ds.len() > 0 {
        let c1 = scan_children(config, ds, path, rem);
        let head: Seq<ProjectView> = if ds[0].name == "node_modules"@ {
            Seq::empty()
        } else {
            scan_model(config, ds[0], joined(path, ds[0].name), rem)
        };
        let rest = scan_children(config, ds.drop_first(), path, rem);
        if ds[0].name != "node_modules"@ {
            lemma_scan_removed_shape(config, ds[0], joined(path, ds[0].name), rem);
        }
        lemma_scan_children_removed_shape(config, ds.drop_first(), path, rem);
        assert forall|i: int, q: Seq<char>|
            0 <= i < c1.len() && removed_target_paths(
                config,
                (#[trigger] c1[i]).detected_targets,
            ).contains(q) implies #[trigger] removable_shape(q) by {
            if i < head.len() {
                assert(c1[i] == head[i]);
            } else {
                assert(c1[i] == rest[i - head.len()]);
            }
        }
    }
}

/// Re-scanning a pruned subtree finds nothing more to remove, as long as the
/// batch removed at least what each of the subtree's projects planned, and
/// touched only removable-shaped paths.
proof fn lemma_rescan_tree(
    config: Config,
    t: TreeModel,
    path: Seq<char>,
    rem: Option<usize>,
    removed: Set<Seq<char>>,
)
    requires
        config.custom_targets@.len() == 0,
        !config.dry_run,
        forall|q: Seq<char>| removed.contains(q) ==> #[trigger] removable_shape(q),
        forall|i: int|
            0 <= i < scan_model(config, t, path, rem).len() ==> removed_target_paths(
                config,
                (#[trigger] scan_model(config, t, path, rem)[i]).detected_targets,
            ).subset_of(removed),
    ensures
        forall|i: int, k: int|
            0 <= i < scan_model(config, prune_model(t, path, removed), path, rem).len() && 0 <= k
                < scan_model(config, prune_model(t, path, removed), path, rem)[
                i
            ].detected_targets.len() ==> action_spec(
                config,
                (#[trigger] scan_model(config, prune_model(t, path, removed), path, rem)[
                    i
                ].detected_targets[k]).target_type,
            ) != TargetAction::Remove,
    decreases t,
{
    let t2 = prune_model(t, path, removed);
    let s1 = scan_model(config, t, path, rem);
    let s2 = scan_model(config, t2, path, rem);
    lemma_metadata_preserved(t, path, removed);
    assert(metadata_file_name("package.json"@));
    assert(find_file(t2.files, "package.json"@) == find_file(t.files, "package.json"@));
    assert(has_manifest(t2) == has_manifest(t));

    if has_manifest(t) {
        assert(s1[0] == analyze_model(config, path, t));
        assert(removed_target_paths(
            config,
            analyze_model(config, path, t).detected_targets,
        ).subset_of(removed));
        lemma_project_clean_general(config, path, t, removed);
    }
    let here2: Seq<ProjectView> = if has_manifest(t2) {
        seq![analyze_model(config, path, t2)]
    } else {
        Seq::empty()
    };

    if !(has_manifest(t) && !config.recursive) && rem != Some(0usize) {
        let here_len: int = if has_manifest(t) {
            1
        } else {
            0
        };
        let children1 = scan_children(config, t.dirs, path, dec_remaining(rem));
        assert forall|i: int|
            0 <= i < children1.len() implies removed_target_paths(
            config,
            (#[trigger] children1[i]).detected_targets,
        ).subset_of(removed) by {
            assert(s1[here_len + i] == children1[i]);
        }
        lemma_rescan_children(config, t.dirs, path, dec_remaining(rem), removed);
        assert(t2.dirs == prune_dirs(t.dirs, path, removed));
    }

    assert forall|i: int, k: int|
        0 <= i < s2.len() && 0 <= k < s2[i].detected_targets.len() implies action_spec(
        config,
        (#[trigger] s2[i].detected_targets[k]).target_type,
    ) != TargetAction::Remove by {
        if i < here2.len() {
            assert(s2[i] == analyze_model(config, path, t2));
        } else {
            let children2 = scan_children(
                config,
                prune_dirs(t.dirs, path, removed),
                path,
                dec_remaining(rem),
            );
            assert(s2[i] == children2[i - here2.len()]);
        }
    }
}

proof fn lemma_rescan_children(
    config: Config,
    ds: Seq<TreeModel>,
    path: Seq<char>,
    rem: Option<usize>,
    removed: Set<Seq<char>>,
)
    requires
        config.custom_targets@.len() == 0,
        !config.dry_run,
        forall|q: Seq<char>| removed.contains(q) ==> #[trigger] removable_shape(q),
        forall|i: int|
            0 <= i < scan_children(config, ds, path, rem).len() ==> removed_target_paths(
                config,
                (#[trigger] scan_children(config, ds, path, rem)[i]).detected_targets,
            ).subset_of(removed),
    ensures
        forall|i: int, k: int|
            0 <= i < scan_children(config, prune_dirs(ds, path, removed), path, rem).len() && 0
                <= k < scan_children(config, prune_dirs(ds, path, removed), path, rem)[
                i
            ].detected_targets.len() ==> action_spec(
                config,
                (#[trigger] scan_children(config, prune_dirs(ds, path, removed), path, rem)[
                    i
                ].detected_targets[k]).target_type,
            ) != TargetAction::Remove,
    decreases ds,
{
    if ds.len() == 0 {
        assert(prune_dirs(ds, path, removed) =~= Seq::<TreeModel>::empty());
    } else {
        let c1 = scan_children(config, ds, path, rem);
        let head1: Seq<ProjectView> = if ds[0].name == "node_modules"@ {
            Seq::empty()
        } else {
            scan_model(config, ds[0], joined(path, ds[0].name), rem)
        };
        let rest1 = scan_children(config, ds.drop_first(), path, rem);
        assert forall|i: int|
            0 <= i < rest1.len() implies removed_target_paths(
            config,
            (#[trigger] rest1[i]).detected_targets,
        ).subset_of(removed) by {
            assert(c1[head1.len() + i] == rest1[i]);
        }
        lemma_rescan_children(config, ds.drop_first(), path, rem, removed);

        let pruned = prune_dirs(ds, path, removed);
        let pruned_rest = prune_dirs(ds.drop_first(), path, removed);
        if removed.contains(joined(path, ds[0].name)) {
            assert(pruned =~= pruned_rest);
        } else {
            let child2 = prune_model(ds[0], joined(path, ds[0].name), removed);
            assert(pruned[0] == child2);
            assert(pruned.drop_first() =~= pruned_rest);
            assert(child2.name == ds[0].name);
            if ds[0].name != "node_modules"@ {
                assert forall|i: int|
                    0 <= i < scan_model(config, ds[0], joined(path, ds[0].name), rem).len()
                        implies removed_target_paths(
                    config,
                    (#[trigger] scan_model(config, ds[0], joined(path, ds[0].name), rem)[
                        i
                    ]).detected_targets,
                ).subset_of(removed) by {
                    assert(c1[i] == scan_model(config, ds[0], joined(path, ds[0].name), rem)[
                        i
                    ]);
                }
                lemma_rescan_tree(config, ds[0], joined(path, ds[0].name), rem, removed);
            }
            let head2: Seq<ProjectView> = if child2.name == "node_modules"@ {
                Seq::empty()
            } else {
                scan_model(config, child2, joined(path, child2.name), rem)
            };
            let c2 = scan_children(config, pruned, path, rem);
            let rest2 = scan_children(config, pruned_rest, path, rem);
            assert(scan_children(config, pruned.drop_first(), path, rem) == rest2);
            assert forall|i: int, k: int|
                0 <= i < c2.len() && 0 <= k < c2[i].detected_targets.len() implies action_spec(
                config,
                (#[trigger] c2[i].detected_targets[k]).target_type,
            ) != TargetAction::Remove by {
                if i < head2.len() {
                    assert(c2[i] == head2[i]);
                    assert(head2[i] == scan_model(
                        config,
                        prune_model(ds[0], joined(path, ds[0].name), removed),
                        joined(path, ds[0].name),
                        rem,
                    )[i]);
                } else {
                    assert(c2[i] == rest2[i - head2.len()]);
                }
            }
        }
    }
}

/// Idempotence law for a whole batch: run the scanner over a root, remove
/// every target the plan marks for removal, and scan the same root again —
/// the second scan proposes nothing more to remove.  As in the per-project
/// law, custom targets are left out, since one can delete the very files
/// detection reads and change the second scan's classifications.
pub proof fn lemma_rescan_after_clean(config: Config, t: TreeModel, path: Seq<char>)
    requires
        config.custom_targets@.len() == 0,
        !config.dry_run,
    ensures
        ({
            let projects = scan_model(config, t, path, config.max_depth);
            let removed = batch_removed(config, projects);
            let again = scan_model(config, prune_model(t, path, removed), path, config.max_depth);
            forall|i: int, k: int|
                0 <= i < again.len() && 0 <= k < again[i].detected_targets.len()
                    ==> action_spec(
                    config,
                    (#[trigger] again[i].detected_targets[k]).target_type,
                ) != TargetAction::Remove
        }),
{
    let projects = scan_model(config, t, path, config.max_depth);
    let removed = batch_removed(config, projects);
    lemma_scan_removed_shape(config, t, path, config.max_depth);
    assert forall|q: Seq<char>| removed.contains(q) implies #[trigger] removable_shape(q) by {
        let i = choose|i: int|
            0 <= i < projects.len() && removed_target_paths(
                config,
                (#[trigger] projects[i]).detected_targets,
            ).contains(q);
        assert(removed_target_paths(config, projects[i].detected_targets).contains(q));
    }
    assert forall|i: int|
        0 <= i < projects.len() implies removed_target_paths(
        config,
        (#[trigger] projects[i]).detected_targets,
    ).subset_of(removed) by {
        assert forall|q: Seq<char>|
            removed_target_paths(config, projects[i].detected_targets).contains(q)
                implies removed.contains(q) by {
            assert(removed_target_paths(
                config,
                (projects[i]).detected_targets,
            ).contains(q));
        }
    }
    lemma_rescan_tree(config, t, path, config.max_depth, removed);
}

} // verus!
