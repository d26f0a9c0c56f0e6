use vstd::prelude::*;
use vstd::string::StringExecFns;

verus! {

/// A plain file observed during a scan: its name, its size in bytes, and —
/// for the package manifest only — its text, where it could be read.
#[derive(Debug, Clone)]
pub struct FileNode {
    pub name: String,
    pub size: u64,
    pub text: Option<String>,
}

/// A directory observed during a scan, with the files and subdirectories it
/// holds.  A snapshot of this shape is what the engine works on; building one
/// from a real filesystem is a caller concern.  A snapshot read from a real
/// directory tree satisfies [`wf_tree`] by construction: entry names within a
/// directory are unique and never hold the path separator.
#[derive(Debug)]
pub struct DirNode {
    pub name: String,
    pub files: Vec<FileNode>,
    pub dirs: Vec<DirNode>,
}

/// Mathematical image of a [`FileNode`].
#[verifier::ext_equal]
pub struct FileModel {
    pub name: Seq<char>,
    pub size: u64,
    pub text: Option<Seq<char>>,
}

/// Mathematical image of a [`DirNode`].
#[verifier::ext_equal]
pub struct TreeModel {
    pub name: Seq<char>,
    pub files: Seq<FileModel>,
    pub dirs: Seq<TreeModel>,
}

pub open spec fn file_model(f: FileNode) -> FileModel {
    FileModel {
        name: f.name@,
        size: f.size,
        text: match f.text {
            Some(t) => Some(t@),
            None => None,
        },
    }
}

pub open spec fn files_model(fs: Seq<FileNode>) -> Seq<FileModel> {
    fs.map_values(|f: FileNode| file_model(f))
}

pub open spec fn tree_model(d: DirNode) -> TreeModel
    decreases d,
{
    TreeModel { name: d.name@, files: files_model(d.files@), dirs: dirs_model(d.dirs@) }
}

pub open spec fn dirs_model(ds: Seq<DirNode>) -> Seq<TreeModel>
    decreases ds,
{
    if ds.len() == 0 {
        Seq::empty()
    } else {
        seq![tree_model(ds[0])] + dirs_model(ds.drop_first())
    }
}

/// Character-wise string equality.
pub fn str_eq(a: &str, b: &str) -> (r: bool)
    ensures
        r == (a@ == b@),
{
    let sa: String = a.to_owned();
    let sb: String = b.to_owned();
    sa == sb
}

pub proof fn lemma_dirs_model_index(ds: Seq<DirNode>)
    ensures
        (#[trigger] dirs_model(ds)).len() == ds.len(),
        forall|i: int| 0 <= i < ds.len() ==> dirs_model(ds)[i] == tree_model(ds[i]),
    decreases ds,
{
    if ds.len() > 0 {
        lemma_dirs_model_index(ds.drop_first());
        assert forall|i: int| 0 <= i < ds.len() implies dirs_model(ds)[i] == tree_model(
            ds[i],
        ) by {
            if i >= 1 {
                assert(dirs_model(ds.drop_first())[i - 1] == tree_model(ds.drop_first()[i - 1]));
                assert(ds.drop_first()[i - 1] == ds[i]);
            }
        }
    }
}

/// The first file of `files` named `name`, if any.
pub open spec fn find_file(files: Seq<FileModel>, name: Seq<char>) -> Option<FileModel>
    decreases files.len(),
{
    if files.len() == 0 {
        None
    } else if files[0].name == name {
        Some(files[0])
    } else {
        find_file(files.drop_first(), name)
    }
}

/// The first subdirectory of `dirs` named `name`, if any.
pub open spec fn find_dir(dirs: Seq<TreeModel>, name: Seq<char>) -> Option<TreeModel>
    decreases dirs.len(),
{
    if dirs.len() == 0 {
        None
    } else if dirs[0].name == name {
        Some(dirs[0])
    } else {
        find_dir(dirs.drop_first(), name)
    }
}

/// Whether the directory holds an entry (file or subdirectory) named `name`.
pub open spec fn has_entry(t: TreeModel, name: Seq<char>) -> bool {
    find_file(t.files, name) is Some || find_dir(t.dirs, name) is Some
}

/// Exact byte count of the files of `fs`.
pub open spec fn files_size(fs: Seq<FileModel>) -> int
    decreases fs.len(),
{
    if fs.len() == 0 {
        0
    } else {
        fs[0].size + files_size(fs.drop_first())
    }
}

/// Exact byte count of every file beneath `t`: plain files contribute their
/// size, directory entries themselves contribute zero.
pub open spec fn tree_size(t: TreeModel) -> int
    decreases t,
{
    files_size(t.files) + dirs_size(t.dirs)
}

pub open spec fn dirs_size(ds: Seq<TreeModel>) -> int
    decreases ds,
{
    if ds.len() == 0 {
        0
    } else {
        tree_size(ds[0]) + dirs_size(ds.drop_first())
    }
}

/// `x`, capped at the largest value a `u64` can hold.
pub open spec fn cap64(x: int) -> int {
    if x > u64::MAX as int {
        u64::MAX as int
    } else {
        x
    }
}

proof fn lemma_files_size_nonneg(fs: Seq<FileModel>)
    ensures
        files_size(fs) >= 0,
    decreases fs.len(),
{
    if fs.len() > 0 {
        lemma_files_size_nonneg(fs.drop_first());
    }
}

pub proof fn lemma_tree_size_nonneg(t: TreeModel)
    ensures
        tree_size(t) >= 0,
    decreases t,
{
    lemma_files_size_nonneg(t.files);
    lemma_dirs_size_nonneg(t.dirs);
}

proof fn lemma_dirs_size_nonneg(ds: Seq<TreeModel>)
    ensures
        dirs_size(ds) >= 0,
    decreases ds,
{
    if ds.len() > 0 {
        lemma_tree_size_nonneg(ds[0]);
        lemma_dirs_size_nonneg(ds.drop_first());
    }
}

impl DirNode {
    /// Whether this directory directly holds a file named `name`.
    pub fn has_file(&self, name: &str) -> (r: bool)
        ensures
            r == (find_file(tree_model(*self).files, name@) is Some),
    {
        let mut i: usize = 0;
        let n = self.files.len();
        proof {
            assert(files_model(self.files@).subrange(0, n as int) =~= files_model(self.files@));
        }
        while i < n
            invariant
                0 <= i <= n,
                n == self.files@.len(),
                find_file(files_model(self.files@).subrange(i as int, n as int), name@)
                    == find_file(files_model(self.files@), name@),
            decreases n - i,
        {
            let ghost rest = files_model(self.files@).subrange(i as int, n as int);
            proof {
                assert(rest[0] == file_model(self.files@[i as int]));
                assert(rest.drop_first() =~= files_model(self.files@).subrange(
                    i + 1,
                    n as int,
                ));
            }
            if str_eq(self.files[i].name.as_str(), name) {
                assert(self.files@[i as int].name@ == name@);
                return true;
            }
            assert(self.files@[i as int].name@ != name@);
            i = i + 1;
        }
        false
    }

    /// The text of a file named `name` directly in this directory, if the
    /// file exists and was read.
    pub fn file_text(&self, name: &str) -> (r: Option<String>)
        ensures
            match find_file(tree_model(*self).files, name@) {
                None => r is None,
                Some(f) => match f.text {
                    None => r is None,
                    Some(t) => r is Some && r->0@ == t,
                },
            },
    {
        let mut i: usize = 0;
        let n = self.files.len();
        proof {
            assert(files_model(self.files@).subrange(0, n as int) =~= files_model(self.files@));
        }
        while i < n
            invariant
                0 <= i <= n,
                n == self.files@.len(),
                find_file(files_model(self.files@).subrange(i as int, n as int), name@)
                    == find_file(files_model(self.files@), name@),
            decreases n - i,
        {
            let ghost rest = files_model(self.files@).subrange(i as int, n as int);
            proof {
                assert(rest[0] == file_model(self.files@[i as int]));
                assert(rest.drop_first() =~= files_model(self.files@).subrange(
                    i + 1,
                    n as int,
                ));
            }
            if str_eq(self.files[i].name.as_str(), name) {
                assert(self.files@[i as int].name@ == name@);
                match &self.files[i].text {
                    Some(t) => {
                        let copy = t.as_str().to_owned();
                        return Some(copy);
                    },
                    None => {
                        return None;
                    },
                }
            }
            assert(self.files@[i as int].name@ != name@);
            i = i + 1;
        }
        None
    }

    /// The first subdirectory named `name`, if any.
    pub fn find_subdir(&self, name: &str) -> (r: Option<&DirNode>)
        ensures
            match r {
                Some(d) => find_dir(tree_model(*self).dirs, name@) == Some(tree_model(*d)),
                None => find_dir(tree_model(*self).dirs, name@) is None,
            },
    {
        let mut i: usize = 0;
        let n = self.dirs.len();
        proof {
            lemma_dirs_model_index(self.dirs@);
            assert(dirs_model(self.dirs@).subrange(0, n as int) =~= dirs_model(self.dirs@));
        }
        while i < n
            invariant
                0 <= i <= n,
                n == self.dirs@.len(),
                dirs_model(self.dirs@).len() == n,
                forall|j: int| 0 <= j < n ==> dirs_model(self.dirs@)[j] == tree_model(
                    self.dirs@[j],
                ),
                find_dir(dirs_model(self.dirs@).subrange(i as int, n as int), name@)
                    == find_dir(dirs_model(self.dirs@), name@),
            decreases n - i,
        {
            let ghost rest = dirs_model(self.dirs@).subrange(i as int, n as int);
            proof {
                assert(rest[0] == tree_model(self.dirs@[i as int]));
                assert(rest.drop_first() =~= dirs_model(self.dirs@).subrange(i + 1, n as int));
            }
            if str_eq(self.dirs[i].name.as_str(), name) {
                assert(tree_model(self.dirs@[i as int]).name == name@);
                return Some(&self.dirs[i]);
            }
            assert(tree_model(self.dirs@[i as int]).name != name@);
            i = i + 1;
        }
        None
    }

    /// Whether this directory holds an entry (file or subdirectory) named
    /// `name`.
    pub fn has_entry_named(&self, name: &str) -> (r: bool)
        ensures
            r == has_entry(tree_model(*self), name@),
    {
        if self.has_file(name) {
            true
        } else {
            self.find_subdir(name).is_some()
        }
    }

    /// Whether this directory holds no entry at all.
    pub fn is_empty_dir(&self) -> (r: bool)
        ensures
            r == (tree_model(*self).files.len() == 0 && tree_model(*self).dirs.len() == 0),
    {
        proof {
            lemma_dirs_model_index(self.dirs@);
        }
        self.files.len() == 0 && self.dirs.len() == 0
    }
}

/// Total size in bytes of the files beneath `path`, directories themselves
/// contributing zero; the count saturates at the largest `u64`.
pub fn calculate_directory_size(path: &DirNode) -> (r: u64)
    ensures
        r as int == cap64(tree_size(tree_model(*path))),
    decreases *path,
{
    let mut total: u64 = 0;
    let ghost m = tree_model(*path);
    let ghost mut done: int = 0;

    let mut i: usize = 0;
    let nf = path.files.len();
    while i < nf
        invariant
            0 <= i <= nf,
            nf == path.files@.len(),
            m == tree_model(*path),
            done == files_size(m.files.subrange(0, i as int)),
            done >= 0,
            total as int == cap64(done),
        decreases nf - i,
    {
        proof {
            lemma_files_size_snoc(m.files, i as int);
            lemma_files_size_nonneg(m.files.subrange(0, i as int));
            assert(m.files[i as int] == file_model(path.files@[i as int]));
        }
        total = total.saturating_add(path.files[i].size);
        proof {
            done = done + path.files@[i as int].size;
        }
        i = i + 1;
    }
    proof {
        assert(m.files.subrange(0, nf as int) =~= m.files);
        lemma_dirs_model_index(path.dirs@);
    }

    let mut j: usize = 0;
    let nd = path.dirs.len();
    while j < nd
        invariant
            0 <= j <= nd,
            nd == path.dirs@.len(),
            m == tree_model(*path),
            dirs_model(path.dirs@).len() == nd,
            forall|k: int| 0 <= k < nd ==> dirs_model(path.dirs@)[k] == tree_model(
                path.dirs@[k],
            ),
            done == files_size(m.files) + dirs_size_prefix(m.dirs, j as int),
            done >= 0,
            total as int == cap64(done),
        decreases nd - j,
    {
        proof {
            assert(decreases_to!(*path => path.dirs@[j as int]));
            lemma_dirs_size_prefix_snoc(m.dirs, j as int);
            lemma_tree_size_nonneg(m.dirs[j as int]);
        }
        let sub = calculate_directory_size(&path.dirs[j]);
        total = total.saturating_add(sub);
        proof {
            lemma_cap64_chain(done, tree_size(m.dirs[j as int]));
            done = done + tree_size(m.dirs[j as int]);
        }
        j = j + 1;
    }
    proof {
        lemma_dirs_size_prefix_all(m.dirs);
    }
    total
}

/// Size of the first `k` directories of `ds`.
pub open spec fn dirs_size_prefix(ds: Seq<TreeModel>, k: int) -> int {
    dirs_size(ds.subrange(0, clamp_len(k, ds.len() as int)))
}

pub open spec fn clamp_len(i: int, n: int) -> int {
    if i < 0 {
        0
    } else if i > n {
        n
    } else {
        i
    }
}

proof fn lemma_files_size_snoc(fs: Seq<FileModel>, k: int)
    requires
        0 <= k < fs.len(),
    ensures
        files_size(fs.subrange(0, k + 1)) == files_size(fs.subrange(0, k)) + fs[k].size,
    decreases k,
{
    if k == 0 {
        assert(fs.subrange(0, 1).drop_first() =~= fs.subrange(0, 0));
        assert(files_size(fs.subrange(0, 1)) == fs[0].size + files_size(fs.subrange(0, 0)));
    } else {
        lemma_files_size_snoc(fs.drop_first(), k - 1);
        assert(fs.subrange(0, k + 1).drop_first() =~= fs.drop_first().subrange(0, k));
        assert(fs.subrange(0, k).drop_first() =~= fs.drop_first().subrange(0, k - 1));
        assert(fs.drop_first()[k - 1] == fs[k]);
        assert(fs.subrange(0, k + 1)[0] == fs[0]);
        assert(fs.subrange(0, k)[0] == fs[0]);
    }
}

proof fn lemma_dirs_size_prefix_snoc(ds: Seq<TreeModel>, k: int)
    requires
        0 <= k < ds.len(),
    ensures
        dirs_size_prefix(ds, k + 1) == dirs_size_prefix(ds, k) + tree_size(ds[k]),
    decreases k,
{
    if k == 0 {
        assert(ds.subrange(0, 1).drop_first() =~= ds.subrange(0, 0));
        assert(dirs_size(ds.subrange(0, 1)) == tree_size(ds[0]) + dirs_size(ds.subrange(0, 0)));
    } else {
        lemma_dirs_size_prefix_snoc(ds.drop_first(), k - 1);
        assert(ds.subrange(0, k + 1).drop_first() =~= ds.drop_first().subrange(0, k));
        assert(ds.subrange(0, k).drop_first() =~= ds.drop_first().subrange(0, k - 1));
        assert(ds.drop_first()[k - 1] == ds[k]);
        assert(ds.subrange(0, k + 1)[0] == ds[0]);
        assert(ds.subrange(0, k)[0] == ds[0]);
    }
}

proof fn lemma_dirs_size_prefix_all(ds: Seq<TreeModel>)
    ensures
        dirs_size_prefix(ds, ds.len() as int) == dirs_size(ds),
{
    assert(ds.subrange(0, ds.len() as int) =~= ds);
}

proof fn lemma_cap64_chain(a: int, b: int)
    requires
        a >= 0,
        b >= 0,
    ensures
        cap64(cap64(a) + b) == cap64(a + b),
{
}

/// The paths of `t` and every directory beneath it, deepest first: each
/// subtree's paths come before the directory's own path, so deleting the
/// directories in this order always empties a directory before removing it.
pub open spec fn deep_order(t: TreeModel, path: Seq<char>) -> Seq<Seq<char>>
    decreases t,
{
    deep_order_children(t.dirs, path) + seq![path]
}

pub open spec fn deep_order_children(ds: Seq<TreeModel>, path: Seq<char>) -> Seq<Seq<char>>
    decreases ds,
{
    if ds.len() == 0 {
        Seq::empty()
    } else {
        deep_order(ds[0], joined(path, ds[0].name)) + deep_order_children(
            ds.drop_first(),
            path,
        )
    }
}

/// The order in which to delete a directory tree bottom-up: every
/// subdirectory's path before its parent's, the root's own path last.
pub fn removal_order(dir: &DirNode, path: &str) -> (r: Vec<String>)
    ensures
        r@.map_values(|s: String| s@) == deep_order(tree_model(*dir), path@),
    decreases *dir,
{
    let ghost t = tree_model(*dir);
    let mut result: Vec<String> = Vec::new();
    let mut i: usize = 0;
    let n = dir.dirs.len();
    proof {
        lemma_dirs_model_index(dir.dirs@);
        assert(t.dirs.subrange(0, n as int) =~= t.dirs);
        assert(result@.map_values(|s: String| s@) + deep_order_children(t.dirs, path@)
            =~= deep_order_children(t.dirs, path@));
    }
    while i < n
        invariant
            0 <= i <= n,
            n == dir.dirs@.len(),
            t == tree_model(*dir),
            t.dirs.len() == n,
            forall|m: int| 0 <= m < n ==> t.dirs[m] == tree_model(dir.dirs@[m]),
            result@.map_values(|s: String| s@) + deep_order_children(
                t.dirs.subrange(i as int, n as int),
                path@,
            ) =~~= deep_order_children(t.dirs, path@),
        decreases n - i,
    {
        let ghost rest = t.dirs.subrange(i as int, n as int);
        proof {
            assert(rest[0] == t.dirs[i as int]);
            assert(rest.drop_first() =~= t.dirs.subrange(i + 1, n as int));
        }
        let child = &dir.dirs[i];
        let child_path = join_path(path, child.name.as_str());
        proof {
            assert(decreases_to!(*dir => dir.dirs@[i as int]));
        }
        let mut sub = removal_order(child, child_path.as_str());
        let ghost before = result@.map_values(|s: String| s@);
        let ghost sub_views = sub@.map_values(|s: String| s@);
        result.append(&mut sub);
        proof {
            assert(result@.map_values(|s: String| s@) =~~= before + sub_views);
            assert(result@.map_values(|s: String| s@) + deep_order_children(
                t.dirs.subrange(i + 1, n as int),
                path@,
            ) =~~= deep_order_children(t.dirs, path@));
        }
        i = i + 1;
    }
    proof {
        assert(t.dirs.subrange(n as int, n as int).len() == 0);
    }
    let ghost before = result@.map_values(|s: String| s@);
    result.push(path.to_owned());
    proof {
        assert(result@.map_values(|s: String| s@) =~~= before + seq![path@]);
        assert(result@.map_values(|s: String| s@) =~~= deep_order(t, path@));
    }
    result
}

/// Every path the deep order lists sits at or below the root path.
pub proof fn lemma_deep_order_depths(t: TreeModel, path: Seq<char>)
    ensures
        deep_order(t, path).len() >= 1,
        deep_order(t, path).last() == path,
        forall|i: int|
            0 <= i < deep_order(t, path).len() ==> (#[trigger] deep_order(t, path)[i]).len()
                >= path.len(),
    decreases t,
{
    reveal_strlit("/");
    lemma_deep_order_children_depths(t.dirs, path);
    let whole = deep_order(t, path);
    let children = deep_order_children(t.dirs, path);
    assert(whole.last() == path);
    assert forall|i: int| 0 <= i < whole.len() implies (#[trigger] whole[i]).len()
        >= path.len() by {
        if i < children.len() {
            assert(whole[i] == children[i]);
        } else {
            assert(whole[i] == path);
        }
    }
}

proof fn lemma_deep_order_children_depths(ds: Seq<TreeModel>, path: Seq<char>)
    ensures
        forall|i: int|
            0 <= i < deep_order_children(ds, path).len() ==> (#[trigger] deep_order_children(
                ds,
                path,
            )[i]).len() > path.len(),
    decreases ds,
{
    reveal_strlit("/");
    if ds.len() > 0 {
        lemma_deep_order_depths(ds[0], joined(path, ds[0].name));
        lemma_deep_order_children_depths(ds.drop_first(), path);
        let whole = deep_order_children(ds, path);
        let head = deep_order(ds[0], joined(path, ds[0].name));
        let rest = deep_order_children(ds.drop_first(), path);
        assert forall|i: int| 0 <= i < whole.len() implies (#[trigger] whole[i]).len()
            > path.len() by {
            if i < head.len() {
                assert(whole[i] == head[i]);
                assert(head[i].len() >= joined(path, ds[0].name).len());
            } else {
                assert(whole[i] == rest[i - head.len()]);
            }
        }
    }
}

/// Deleting in the deep order removes children before their parents: every
/// entry before the last is a strictly deeper path than the root's, and the
/// root's own path comes last.
pub proof fn lemma_removal_order_children_first(t: TreeModel, path: Seq<char>)
    ensures
        deep_order(t, path).last() == path,
        forall|i: int|
            0 <= i < deep_order(t, path).len() - 1 ==> (#[trigger] deep_order(t, path)[
                i
            ]).len() > path.len(),
{
    reveal_strlit("/");
    lemma_deep_order_children_depths(t.dirs, path);
    let whole = deep_order(t, path);
    let children = deep_order_children(t.dirs, path);
    assert forall|i: int| 0 <= i < whole.len() - 1 implies (#[trigger] whole[i]).len()
        > path.len() by {
        assert(whole[i] == children[i]);
    }
}

/// Whether `n` is a plain entry name, free of the path separator.
pub open spec fn no_separator(n: Seq<char>) -> bool {
    forall|i: int| 0 <= i < n.len() ==> n[i] != '/'
}

/// Joining distinct names to the same base gives distinct paths.
pub proof fn lemma_joined_injective(base: Seq<char>, a: Seq<char>, b: Seq<char>)
    requires
        joined(base, a) == joined(base, b),
    ensures
        a == b,
{
    reveal_strlit("/");
    let ja = joined(base, a);
    let jb = joined(base, b);
    assert(ja.len() == base.len() + 1 + a.len());
    assert(jb.len() == base.len() + 1 + b.len());
    assert(a.len() == b.len());
    assert forall|i: int| 0 <= i < a.len() implies a[i] == b[i] by {
        assert(ja[base.len() + 1 + i] == a[i]);
        assert(jb[base.len() + 1 + i] == b[i]);
    }
    assert(a =~= b);
}

/// A snapshot taken from a real directory tree is well formed: within each
/// directory the entry names are pairwise distinct and free of the path
/// separator, recursively.  Snapshots built from a filesystem satisfy this by
/// construction; it is what scan-path distinctness rests on.
pub open spec fn wf_tree(t: TreeModel) -> bool
    decreases t,
{
    &&& forall|i: int| 0 <= i < t.files.len() ==> no_separator((#[trigger] t.files[i]).name)
    &&& forall|i: int| 0 <= i < t.dirs.len() ==> no_separator((#[trigger] t.dirs[i]).name)
    &&& forall|i: int, j: int|
        0 <= i < j < t.files.len() ==> (#[trigger] t.files[i]).name != (#[trigger] t.files[
            j
        ]).name
    &&& forall|i: int, j: int|
        0 <= i < j < t.dirs.len() ==> (#[trigger] t.dirs[i]).name != (#[trigger] t.dirs[j]).name
    &&& forall|i: int| 0 <= i < t.dirs.len() ==> wf_tree(#[trigger] t.dirs[i])
}

/// The character that separates path components.
pub open spec fn path_sep() -> Seq<char> {
    "/"@
}

/// `base`, a separator, then `name`.
pub open spec fn joined(base: Seq<char>, name: Seq<char>) -> Seq<char> {
    base + path_sep() + name
}

/// Joins a directory path and an entry name.
pub fn join_path(base: &str, name: &str) -> (r: String)
    ensures
        r@ == joined(base@, name@),
{
    let mut s: String = base.to_owned();
    s.append("/");
    s.append(name);
    s
}

} // verus!
