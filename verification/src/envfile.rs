//! Environment variable sources: the dotenv file format, and the
//! workspace environment configuration with its merge rule.

use crate::classify::{lemma_run_of_at, run_of};
use crate::strmap::{assoc_insert, StrMap};
use crate::text::{
    chars_of, lines_spec, seq_views, split_lines, string_of, str_eq, subrange_chars, trim_spec,
    trimmed,
};
use vstd::prelude::*;

verus! {

/// `s` with every leading repetition of `c` removed.
pub open spec fn strip_char_start(s: Seq<char>, c: char) -> Seq<char>
    decreases s.len(),
{
    if s.len() > 0 && s[0] == c {
        strip_char_start(s.drop_first(), c)
    } else {
        s
    }
}

/// `s` with every trailing repetition of `c` removed.
pub open spec fn strip_char_end(s: Seq<char>, c: char) -> Seq<char>
    decreases s.len(),
{
    if s.len() > 0 && s[s.len() - 1] == c {
        strip_char_end(s.drop_last(), c)
    } else {
        s
    }
}

/// A dotenv value with surrounding double quotes, then surrounding single
/// quotes, removed.
pub open spec fn unquote(v: Seq<char>) -> Seq<char> {
    strip_char_end(strip_char_start(strip_char_end(strip_char_start(v, '"'), '"'), '\''), '\'')
}

/// Index of the first `=` in `t`, or `t.len()` if there is none.
pub open spec fn eq_idx(t: Seq<char>) -> int
    decreases t.len(),
{
    if t.len() == 0 {
        0
    } else if t[0] == '=' {
        0
    } else {
        1 + eq_idx(t.drop_first())
    }
}

pub proof fn lemma_eq_idx_at(t: Seq<char>, m: int)
    requires
        0 <= m <= t.len(),
        forall|j: int| 0 <= j < m ==> t[j] != '=',
        m < t.len() ==> t[m] == '=',
    ensures
        eq_idx(t) == m,
    decreases t.len(),
{
    if t.len() > 0 && t[0] != '=' {
        assert(forall|j: int| 0 <= j < m - 1 ==> t.drop_first()[j] == t[j + 1]);
        lemma_eq_idx_at(t.drop_first(), m - 1);
    }
}

/// The binding a dotenv line defines, if any: the line is trimmed, comment
/// and blank lines bind nothing, and otherwise the first `=` splits the
/// line into a trimmed key and a trimmed, unquoted value.
pub open spec fn dotenv_line_kv(l: Seq<char>) -> Option<(Seq<char>, Seq<char>)> {
    let t = trim_spec(l);
    if t.len() == 0 || t[0] == '#' {
        None
    } else {
        let i = eq_idx(t);
        if i < t.len() {
            Some((trim_spec(t.take(i)), unquote(trim_spec(t.skip(i + 1)))))
        } else {
            None
        }
    }
}

/// The variable table a dotenv document defines, folding its lines in
/// order with last-write-wins insertion.
pub open spec fn dotenv_fold(
    ls: Seq<Seq<char>>,
    i: int,
    m: Seq<(Seq<char>, Seq<char>)>,
) -> Seq<(Seq<char>, Seq<char>)>
    decreases ls.len() - i,
{
    if i < 0 || i >= ls.len() {
        m
    } else {
        match dotenv_line_kv(ls[i]) {
            Some(kv) => dotenv_fold(ls, i + 1, assoc_insert(m, kv.0, kv.1)),
            None => dotenv_fold(ls, i + 1, m),
        }
    }
}

/// The variable table of a whole dotenv document.
pub open spec fn spec_parse_dotenv(content: Seq<char>) -> Seq<(Seq<char>, Seq<char>)> {
    dotenv_fold(lines_spec(content), 0, Seq::empty())
}

/// `v` with every leading repetition of `c` removed.
fn strip_start_exec(v: &Vec<char>, c: char) -> (r: Vec<char>)
    ensures
        r@ == strip_char_start(v@, c),
{
    let n = v.len();
    let mut lo: usize = 0;
    proof {
        assert(v@.skip(0) =~= v@);
    }
    while lo < n && v[lo] == c
        invariant
            lo <= n,
            n == v@.len(),
            strip_char_start(v@, c) == strip_char_start(v@.skip(lo as int), c),
        decreases n - lo,
    {
        proof {
            assert(v@.skip(lo as int).drop_first() =~= v@.skip(lo + 1));
        }
        lo += 1;
    }
    proof {
        if lo == n {
            assert(v@.skip(lo as int) =~= Seq::<char>::empty());
        }
        assert(strip_char_start(v@.skip(lo as int), c) == v@.skip(lo as int));
    }
    let r = subrange_chars(v, lo, n);
    proof {
        assert(r@ =~= v@.skip(lo as int));
    }
    r
}

/// `v` with every trailing repetition of `c` removed.
fn strip_end_exec(v: &Vec<char>, c: char) -> (r: Vec<char>)
    ensures
        r@ == strip_char_end(v@, c),
{
    let n = v.len();
    let mut hi: usize = n;
    proof {
        assert(v@.take(n as int) =~= v@);
    }
    while hi > 0 && v[hi - 1] == c
        invariant
            hi <= n,
            n == v@.len(),
            strip_char_end(v@, c) == strip_char_end(v@.take(hi as int), c),
        decreases hi,
    {
        proof {
            assert(v@.take(hi as int).drop_last() =~= v@.take(hi - 1));
        }
        hi -= 1;
    }
    proof {
        if hi == 0 {
            assert(v@.take(0) =~= Seq::<char>::empty());
        }
        assert(strip_char_end(v@.take(hi as int), c) == v@.take(hi as int));
    }
    let r = subrange_chars(v, 0, hi);
    proof {
        assert(r@ =~= v@.take(hi as int));
    }
    r
}

/// Parses a dotenv document into a variable table.  Blank lines and `#`
/// comments are skipped; each remaining line with an `=` binds the trimmed
/// text before the first `=` to the trimmed text after it, with any
/// surrounding double or single quotes removed.
pub fn parse_dotenv(content: &str) -> (r: StrMap)
    ensures
        r@ == spec_parse_dotenv(content@),
        r.wf(),
{
    let cvec = chars_of(content);
    let lines = split_lines(&cvec);
    let ghost ll = seq_views(lines@);
    let n = lines.len();
    let mut vars = StrMap::new();
    let mut i: usize = 0;
    while i < n
        invariant
            i <= n,
            n == ll.len(),
            ll == seq_views(lines@),
            vars.wf(),
            dotenv_fold(ll, 0, Seq::empty()) == dotenv_fold(ll, i as int, vars@),
        decreases n - i,
    {
        let ghost v0 = vars@;
        proof {
            assert(ll[i as int] == lines@[i as int]@);
        }
        let t = trimmed(&lines[i]);
        if t.len() == 0 || t[0] == '#' {
            proof {
                assert(dotenv_line_kv(ll[i as int]) is None);
            }
            i += 1;
            continue ;
        }
        let m = t.len();
        let mut j: usize = 0;
        while j < m && t[j] != '='
            invariant
                j <= m,
                m == t@.len(),
                forall|k: int| 0 <= k < j ==> t@[k] != '=',
            decreases m - j,
        {
            j += 1;
        }
        proof {
            lemma_eq_idx_at(t@, j as int);
        }
        if j < m {
            let rawkey = subrange_chars(&t, 0, j);
            let key = trimmed(&rawkey);
            let rawval = subrange_chars(&t, j + 1, m);
            let valt = trimmed(&rawval);
            let v1 = strip_start_exec(&valt, '"');
            let v2 = strip_end_exec(&v1, '"');
            let v3 = strip_start_exec(&v2, '\'');
            let v4 = strip_end_exec(&v3, '\'');
            proof {
                assert(rawkey@ =~= t@.take(j as int));
                assert(rawval@ =~= t@.skip(j + 1));
                assert(v4@ == unquote(trim_spec(t@.skip(j + 1))));
                assert(dotenv_line_kv(ll[i as int]) == Some((key@, v4@)));
            }
            vars.insert(string_of(&key), string_of(&v4));
            proof {
                assert(vars@ == assoc_insert(v0, key@, v4@));
            }
        } else {
            proof {
                assert(dotenv_line_kv(ll[i as int]) is None);
            }
        }
        i += 1;
    }
    vars
}

/// One named environment: a variable table and the file it came from.
#[derive(Debug, Clone)]
pub struct Environment {
    pub name: String,
    pub variables: StrMap,
    pub source_file: String,
}

/// The environments of a workspace, plus variables shared by all of them.
#[derive(Debug, Clone)]
pub struct EnvironmentConfig {
    pub environments: Vec<Environment>,
    pub shared: StrMap,
}

impl Environment {
    /// The variable table has distinct keys.
    pub open spec fn wf(&self) -> bool {
        self.variables.wf()
    }
}

impl EnvironmentConfig {
    /// All variable tables have distinct keys.
    pub open spec fn wf(&self) -> bool {
        &&& self.shared.wf()
        &&& forall|i: int| 0 <= i < self.environments@.len() ==> (#[trigger] self.environments@[i]).wf()
    }

    /// A configuration with no environments and nothing shared.
    pub fn empty() -> (r: EnvironmentConfig)
        ensures
            r.wf(),
            r.environments@.len() == 0,
            r.shared@.len() == 0,
    {
        EnvironmentConfig { environments: Vec::new(), shared: StrMap::new() }
    }
}

/// Copies every binding of `src` into `dst`, later bindings overriding
/// earlier ones key by key.
pub fn extend_vars(dst: &mut StrMap, src: &StrMap)
    requires
        old(dst).wf(),
    ensures
        final(dst).wf(),
        final(dst)@ == fold_insert(old(dst)@, src@, src@.len() as int),
{
    let n = src.len();
    let mut i: usize = 0;
    while i < n
        invariant
            i <= n,
            n == src@.len(),
            dst.wf(),
            dst@ == fold_insert(old(dst)@, src@, i as int),
        decreases n - i,
    {
        let kv = src.pair_at(i);
        let k = kv.0.clone();
        let v = kv.1.clone();
        dst.insert(k, v);
        i += 1;
    }
}

/// `base` after inserting the first `n` bindings of `add`, in order.
pub open spec fn fold_insert(
    base: Seq<(Seq<char>, Seq<char>)>,
    add: Seq<(Seq<char>, Seq<char>)>,
    n: int,
) -> Seq<(Seq<char>, Seq<char>)>
    decreases n,
{
    if n <= 0 {
        base
    } else {
        assoc_insert(fold_insert(base, add, n - 1), add[n - 1].0, add[n - 1].1)
    }
}

/// Merges a private environment configuration into a public one: private
/// variables override public ones within an environment of the same name,
/// unmatched private environments are appended, and shared variables are
/// merged the same way.
pub fn merge_environment_configs(base: &mut EnvironmentConfig, priv_cfg: EnvironmentConfig)
    requires
        old(base).wf(),
        priv_cfg.wf(),
    ensures
        final(base).wf(),
{
    let mut rest = priv_cfg.environments;
    let shared = priv_cfg.shared;
    while rest.len() > 0
        invariant
            base.wf(),
            forall|i: int| 0 <= i < rest@.len() ==> (#[trigger] rest@[i]).wf(),
        decreases rest@.len(),
    {
        let ghost rest0 = rest@;
        let pe = rest.remove(0);
        proof {
            assert(pe.wf());
            assert forall|j: int| 0 <= j < rest@.len() implies (#[trigger] rest@[j]).wf() by {
                assert(rest@[j] == rest0[j + 1]);
            }
        }
        let n = base.environments.len();
        let mut i: usize = 0;
        let mut found = false;
        while i < n && !found
            invariant
                i <= n,
                n == base.environments@.len(),
                base.wf(),
                pe.wf(),
                found ==> i < n,
            decreases n - i + if found {
                0int
            } else {
                1int
            },
        {
            if str_eq(base.environments[i].name.as_str(), pe.name.as_str()) {
                found = true;
            } else {
                i += 1;
            }
        }
        if found {
            let ghost bpre = base.environments@;
            let mut e = base.environments.remove(i);
            proof {
                assert(e.wf());
                assert forall|j: int|
                    0 <= j < base.environments@.len() implies (#[trigger] base.environments@[j]).wf()
                    by {
                    if j < i {
                        assert(base.environments@[j] == bpre[j]);
                    } else {
                        assert(base.environments@[j] == bpre[j + 1]);
                    }
                }
            }
            extend_vars(&mut e.variables, &pe.variables);
            let ghost b0 = base.environments@;
            base.environments.push(e);
            proof {
                assert forall|j: int|
                    0 <= j < base.environments@.len() implies (#[trigger] base.environments@[j]).wf()
                    by {
                    if j < b0.len() {
                        assert(base.environments@[j] == b0[j]);
                    }
                }
            }
        } else {
            let ghost b0 = base.environments@;
            base.environments.push(pe);
            proof {
                assert forall|j: int|
                    0 <= j < base.environments@.len() implies (#[trigger] base.environments@[j]).wf()
                    by {
                    if j < b0.len() {
                        assert(base.environments@[j] == b0[j]);
                    }
                }
            }
        }
    }
    extend_vars(&mut base.shared, &shared);
}

} // verus!
