use vstd::prelude::*;
use vstd::string::StrSliceExecFns;

verus! {

/// Command-line options, as plain values.  Parsing the actual command line is
/// a caller concern; the library only consumes the parsed result.
#[derive(Debug, Clone)]
pub struct CliArgs {
    /// Path to project or directory to scan.
    pub path: String,
    /// Recursively find and clean projects in subdirectories.
    pub recursive: bool,
    /// Skip confirmation prompts.
    pub force: bool,
    /// Show what would be deleted without deleting.
    pub dry_run: bool,
    /// Use a specific config file.
    pub config: Option<String>,
    /// Clean only dependency-cache directories.
    pub node_modules_only: bool,
    /// Clean only build directories.
    pub build: bool,
    /// Additional directories to clean (comma-separated).
    pub extra: Option<String>,
    /// Directories to exclude (comma-separated).
    pub exclude: Option<String>,
    /// Show space-saving statistics.
    pub stats: bool,
    /// Display detailed output.
    pub verbose: bool,
}

/// The whitespace characters stripped from both ends of a list element.
pub open spec fn is_space(c: char) -> bool {
    c == ' ' || c == '\t' || c == '\n' || c == '\r'
}

/// Number of leading whitespace characters of `s`.
pub open spec fn lead_spaces(s: Seq<char>) -> int
    decreases s.len(),
{
    if s.len() == 0 {
        0
    } else if is_space(s[0]) {
        1 + lead_spaces(s.drop_first())
    } else {
        0
    }
}

/// Number of trailing whitespace characters of `s`.
pub open spec fn trail_spaces(s: Seq<char>) -> int
    decreases s.len(),
{
    if s.len() == 0 {
        0
    } else if is_space(s[s.len() - 1]) {
        1 + trail_spaces(s.drop_last())
    } else {
        0
    }
}

/// `i`, forced into the range `0 ..= n`.
pub open spec fn clamp_idx(i: int, n: int) -> int {
    if i < 0 {
        0
    } else if i > n {
        n
    } else {
        i
    }
}

/// `s` with whitespace stripped from both ends.
pub open spec fn trim_spec(s: Seq<char>) -> Seq<char> {
    let a = clamp_idx(lead_spaces(s), s.len() as int);
    let rest = s.subrange(a, s.len() as int);
    rest.subrange(0, rest.len() - clamp_idx(trail_spaces(rest), rest.len() as int))
}

/// Number of characters before the first comma of `s` (all of `s` if none).
pub open spec fn before_comma(s: Seq<char>) -> int
    decreases s.len(),
{
    if s.len() == 0 {
        0
    } else if s[0] == ',' {
        0
    } else {
        1 + before_comma(s.drop_first())
    }
}

/// `s` split at commas, each piece trimmed, empty pieces dropped.
pub open spec fn split_clean(s: Seq<char>) -> Seq<Seq<char>>
    decreases s.len(),
{
    let p = clamp_idx(before_comma(s), s.len() as int);
    let piece = trim_spec(s.subrange(0, p));
    let head = if piece.len() == 0 {
        Seq::<Seq<char>>::empty()
    } else {
        seq![piece]
    };
    if p == s.len() {
        head
    } else {
        head + split_clean(s.subrange(p + 1, s.len() as int))
    }
}

proof fn lemma_lead_spaces_unique(s: Seq<char>, k: int)
    requires
        0 <= k <= s.len(),
        forall|j: int| 0 <= j < k ==> is_space(s[j]),
        k < s.len() ==> !is_space(s[k]),
    ensures
        lead_spaces(s) == k,
    decreases s.len(),
{
    if k == 0 {
        if s.len() > 0 && is_space(s[0]) {
            assert(false);
        }
    } else {
        assert(is_space(s[0]));
        assert(forall|j: int| 0 <= j < k - 1 ==> is_space(s.drop_first()[j]));
        assert(k - 1 < s.drop_first().len() ==> !is_space(s.drop_first()[k - 1]));
        lemma_lead_spaces_unique(s.drop_first(), k - 1);
    }
}

proof fn lemma_trail_spaces_unique(s: Seq<char>, k: int)
    requires
        0 <= k <= s.len(),
        forall|j: int| s.len() - k <= j < s.len() ==> is_space(s[j]),
        k < s.len() ==> !is_space(s[s.len() - k - 1]),
    ensures
        trail_spaces(s) == k,
    decreases s.len(),
{
    if k == 0 {
        if s.len() > 0 && is_space(s[s.len() - 1]) {
            assert(false);
        }
    } else {
        assert(is_space(s[s.len() - 1]));
        assert(forall|j: int|
            s.drop_last().len() - (k - 1) <= j < s.drop_last().len()
                ==> s.drop_last()[j] == s[j] && is_space(s[j]));
        lemma_trail_spaces_unique(s.drop_last(), k - 1);
    }
}

proof fn lemma_before_comma_unique(s: Seq<char>, k: int)
    requires
        0 <= k <= s.len(),
        forall|j: int| 0 <= j < k ==> s[j] != ',',
        k < s.len() ==> s[k] == ',',
    ensures
        before_comma(s) == k,
    decreases s.len(),
{
    if k == 0 {
        if s.len() > 0 && s[0] != ',' {
            assert(false);
        }
    } else {
        assert(s[0] != ',');
        assert(forall|j: int| 0 <= j < k - 1 ==> s.drop_first()[j] != ',');
        assert(k - 1 < s.drop_first().len() ==> s.drop_first()[k - 1] == ',');
        lemma_before_comma_unique(s.drop_first(), k - 1);
    }
}

fn is_space_char(c: char) -> (r: bool)
    ensures
        r == is_space(c),
{
    c == ' ' || c == '\t' || c == '\n' || c == '\r'
}

/// `s` with whitespace stripped from both ends, as a fresh string.
pub fn trimmed(s: &str) -> (r: String)
    ensures
        r@ == trim_spec(s@),
{
    let n = s.unicode_len();
    let mut a: usize = 0;
    while a < n && is_space_char(s.get_char(a))
        invariant
            0 <= a <= n,
            n == s@.len(),
            forall|j: int| 0 <= j < a ==> is_space(s@[j]),
        decreases n - a,
    {
        a = a + 1;
    }
    let mut b: usize = n;
    while b > a && is_space_char(s.get_char(b - 1))
        invariant
            a <= b <= n,
            n == s@.len(),
            forall|j: int| 0 <= j < a ==> is_space(s@[j]),
            a < n ==> !is_space(s@[a as int]),
            forall|j: int| b <= j < n ==> is_space(s@[j]),
        decreases b,
    {
        b = b - 1;
    }
    proof {
        lemma_trim_via_bounds(s@, a as int, b as int);
    }
    s.substring_char(a, b).to_owned()
}

proof fn lemma_trim_via_bounds(s: Seq<char>, a: int, b: int)
    requires
        0 <= a <= b <= s.len(),
        forall|j: int| 0 <= j < a ==> is_space(s[j]),
        a < s.len() ==> !is_space(s[a]),
        forall|j: int| b <= j < s.len() ==> is_space(s[j]),
        b > a ==> !is_space(s[b - 1]),
        a == b ==> b == s.len() || a == 0,
    ensures
        trim_spec(s) == s.subrange(a, b),
{
    if a == s.len() {
        lemma_lead_spaces_unique(s, a);
        let rest = s.subrange(a, s.len() as int);
        assert(rest.len() == 0);
        assert(trim_spec(s) =~= s.subrange(a, b));
    } else {
        lemma_lead_spaces_unique(s, a);
        let rest = s.subrange(a, s.len() as int);
        assert(forall|j: int|
            rest.len() - (s.len() - b) <= j < rest.len() ==> rest[j] == s[j + a] && is_space(
                rest[j],
            ));
        if b > a {
            assert(rest[rest.len() - (s.len() - b) - 1] == s[b - 1]);
        }
        lemma_trail_spaces_unique(rest, s.len() - b);
        assert(trim_spec(s) =~= s.subrange(a, b));
    }
}

/// Splits a comma-separated option value into its cleaned-up elements:
/// each element is trimmed, and empty elements are dropped.
pub fn split_arg_list(s: &str) -> (r: Vec<String>)
    ensures
        r@.map_values(|x: String| x@) == split_clean(s@),
    decreases s@.len(),
{
    let n = s.unicode_len();
    let mut p: usize = 0;
    while p < n && s.get_char(p) != ','
        invariant
            0 <= p <= n,
            n == s@.len(),
            forall|j: int| 0 <= j < p ==> s@[j] != ',',
        decreases n - p,
    {
        p = p + 1;
    }
    proof {
        lemma_before_comma_unique(s@, p as int);
    }
    let raw = s.substring_char(0, p);
    let piece = trimmed(raw);
    let mut result: Vec<String> = Vec::new();
    if !piece.as_str().is_empty() {
        result.push(piece);
    }
    if p < n {
        let rest = s.substring_char(p + 1, n);
        let mut tail = split_arg_list(rest);
        result.append(&mut tail);
    }
    assert(result@.map_values(|x: String| x@) =~= split_clean(s@));
    result
}

} // verus!
