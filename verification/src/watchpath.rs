//! Which filesystem paths matter to the workspace: the filter the file
//! watcher and the directory lister apply.  The filesystem itself (what is
//! a directory, what a file's name is) is the caller's to report.

use crate::text::chars_of;
use crate::trusted::{lower_of, lowercase_str};
use vstd::prelude::*;

verus! {

/// `p` occurs in `s` as a contiguous subsequence.
pub open spec fn contains_sub(s: Seq<char>, p: Seq<char>) -> bool {
    exists|i: int|
        0 <= i <= s.len() - p.len() && #[trigger] s.subrange(i, i + p.len() as int) == p
}

/// `s` ends with `p`.
pub open spec fn ends_with(s: Seq<char>, p: Seq<char>) -> bool {
    s.len() >= p.len() && s.subrange(s.len() - p.len(), s.len() as int) == p
}

/// Whether `p` occurs in `s` starting at `at`, executably.
fn matches_at(s: &Vec<char>, p: &Vec<char>, at: usize) -> (r: bool)
    requires
        at + p@.len() <= s@.len(),
    ensures
        r == (s@.subrange(at as int, at + p@.len() as int) == p@),
{
    let n = s.len();
    let m = p.len();
    let mut d: usize = 0;
    while d < m
        invariant
            d <= m,
            m == p@.len(),
            n == s@.len(),
            at + m <= n,
            forall|k: int| 0 <= k < d ==> s@[at + k] == p@[k],
        decreases m - d,
    {
        if s[at + d] != p[d] {
            proof {
                assert(s@.subrange(at as int, at + p@.len() as int)[d as int] == s@[at + d]);
            }
            return false;
        }
        d += 1;
    }
    proof {
        assert(s@.subrange(at as int, at + p@.len() as int) =~= p@);
    }
    true
}

/// Substring search, executably.
fn contains_chars(s: &Vec<char>, p: &Vec<char>) -> (r: bool)
    ensures
        r == contains_sub(s@, p@),
{
    let n = s.len();
    let m = p.len();
    if m > n {
        return false;
    }
    if m == 0 {
        proof {
            assert(s@.subrange(0, 0 + p@.len() as int) =~= p@);
        }
        return true;
    }
    let mut i: usize = 0;
    while n - i >= m
        invariant
            1 <= m <= n,
            n == s@.len(),
            m == p@.len(),
            i <= n,
            forall|k: int| 0 <= k < i ==> #[trigger] s@.subrange(k, k + p@.len() as int) != p@,
        decreases n - i,
    {
        if matches_at(s, p, i) {
            return true;
        }
        i += 1;
    }
    false
}

/// Suffix test, executably.
fn ends_with_chars(s: &Vec<char>, p: &Vec<char>) -> (r: bool)
    ensures
        r == ends_with(s@, p@),
{
    let n = s.len();
    let m = p.len();
    if m > n {
        return false;
    }
    matches_at(s, p, n - m)
}

/// Whether a path is relevant to the workspace, judged on its lower-cased
/// text: hidden entries and dependency or build directories are not; any
/// other directory is; a file is relevant when its lower-cased name ends
/// in `.http` or `.rest` or mentions `.env.json`.
pub open spec fn spec_relevant_path(lp: Seq<char>, is_dir: bool, lname: Seq<char>) -> bool {
    if contains_sub(lp, "/."@) || contains_sub(lp, "/node_modules/"@) || contains_sub(
        lp,
        "/target/"@,
    ) {
        false
    } else if is_dir {
        true
    } else {
        ends_with(lname, ".http"@) || ends_with(lname, ".rest"@) || contains_sub(
            lname,
            ".env.json"@,
        )
    }
}

/// Judges a path for the file watcher.  The caller reports whether the
/// path is a directory and what its file name is.
pub fn is_relevant_path(path: &str, is_dir: bool, file_name: &str) -> (r: bool)
    ensures
        r == spec_relevant_path(lower_of(path@), is_dir, lower_of(file_name@)),
{
    let low = lowercase_str(path);
    let lp = chars_of(low.as_str());
    let hidden = chars_of("/.");
    let deps = chars_of("/node_modules/");
    let target = chars_of("/target/");
    if contains_chars(&lp, &hidden) || contains_chars(&lp, &deps) || contains_chars(&lp, &target) {
        return false;
    }
    if is_dir {
        return true;
    }
    let lowname = lowercase_str(file_name);
    let ln = chars_of(lowname.as_str());
    let http_ext = chars_of(".http");
    let rest_ext = chars_of(".rest");
    let env_json = chars_of(".env.json");
    ends_with_chars(&ln, &http_ext) || ends_with_chars(&ln, &rest_ext) || contains_chars(
        &ln,
        &env_json,
    )
}

/// Whether a file name, as written, names a request file.
pub open spec fn spec_http_file_name(name: Seq<char>) -> bool {
    ends_with(name, ".http"@) || ends_with(name, ".rest"@)
}

/// Judges a file name for the directory lister.
pub fn is_http_file_name(name: &str) -> (r: bool)
    ensures
        r == spec_http_file_name(name@),
{
    let n = chars_of(name);
    let http_ext = chars_of(".http");
    let rest_ext = chars_of(".rest");
    ends_with_chars(&n, &http_ext) || ends_with_chars(&n, &rest_ext)
}

/// Whether the directory lister descends into a directory: hidden
/// directories and dependency or build directories are skipped.
pub open spec fn spec_skip_dir(name: Seq<char>) -> bool {
    (name.len() >= 1 && name[0] == '.') || name == "node_modules"@ || name == "target"@
}

/// Judges a directory name for the lister.
pub fn skip_dir_name(name: &str) -> (r: bool)
    ensures
        r == spec_skip_dir(name@),
{
    let n = chars_of(name);
    if n.len() >= 1 && n[0] == '.' {
        return true;
    }
    crate::text::str_eq(name, "node_modules") || crate::text::str_eq(name, "target")
}

} // verus!
