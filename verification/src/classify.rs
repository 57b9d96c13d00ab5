//! Ordered line-classification rules of the request-file grammar.  Each rule
//! is a spec predicate or extractor over the trimmed line together with an
//! executable twin proved equal to it.

use crate::text::{
    is_key_char, is_space_char, key_char, space_char, subrange_chars, trim_spec, trim_start_spec,
};
use vstd::prelude::*;

verus! {

/// Length of the maximal run of characters satisfying `p` at the start of `s`.
pub open spec fn run_of(s: Seq<char>, p: spec_fn(char) -> bool) -> int
    decreases s.len(),
{
    if s.len() > 0 && p(s[0]) {
        1 + run_of(s.drop_first(), p)
    } else {
        0
    }
}

pub proof fn lemma_run_of(s: Seq<char>, p: spec_fn(char) -> bool)
    ensures
        0 <= run_of(s, p) <= s.len(),
        forall|j: int| 0 <= j < run_of(s, p) ==> p(s[j]),
        run_of(s, p) < s.len() ==> !p(s[run_of(s, p)]),
    decreases s.len(),
{
    if s.len() > 0 && p(s[0]) {
        lemma_run_of(s.drop_first(), p);
        assert forall|j: int| 0 <= j < run_of(s, p) implies p(s[j]) by {
            if j > 0 {
                assert(s.drop_first()[j - 1] == s[j]);
            }
        }
    }
}

/// `run_of` is determined by its characterization.
pub proof fn lemma_run_of_at(s: Seq<char>, p: spec_fn(char) -> bool, m: int)
    requires
        0 <= m <= s.len(),
        forall|j: int| 0 <= j < m ==> p(s[j]),
        m < s.len() ==> !p(s[m]),
    ensures
        run_of(s, p) == m,
    decreases s.len(),
{
    if s.len() > 0 && p(s[0]) {
        assert(forall|j: int| 0 <= j < m - 1 ==> s.drop_first()[j] == s[j + 1]);
        lemma_run_of_at(s.drop_first(), p, m - 1);
    }
}

/// Maximal run of whitespace at the start of `s`.
pub open spec fn space_run(s: Seq<char>) -> int {
    run_of(s, |c: char| is_space_char(c))
}

/// Maximal run of key characters (word characters or hyphen) at the start
/// of `s`.
pub open spec fn key_run(s: Seq<char>) -> int {
    run_of(s, |c: char| is_key_char(c))
}

/// Trimming from the left removes exactly the leading whitespace run.
pub proof fn lemma_trim_start_run(s: Seq<char>)
    ensures
        trim_start_spec(s) == s.skip(space_run(s)),
    decreases s.len(),
{
    if s.len() > 0 && is_space_char(s[0]) {
        lemma_trim_start_run(s.drop_first());
        assert((|c: char| is_space_char(c))(s[0]));
        assert(space_run(s) == 1 + space_run(s.drop_first()));
        lemma_run_of(s.drop_first(), |c: char| is_space_char(c));
        assert(s.drop_first().skip(space_run(s.drop_first())) =~= s.skip(space_run(s)));
    } else {
        if s.len() > 0 {
            assert(!(|c: char| is_space_char(c))(s[0]));
        }
        assert(space_run(s) == 0);
        assert(s.skip(0) =~= s);
    }
}

/// First index at or after `from` whose character is not whitespace, or the
/// end of the line.
pub fn scan_space(t: &Vec<char>, from: usize) -> (r: usize)
    requires
        from <= t@.len(),
    ensures
        from <= r <= t@.len(),
        r - from == space_run(t@.skip(from as int)),
{
    let n = t.len();
    let mut j = from;
    while j < n && space_char(t[j])
        invariant
            from <= j <= n,
            n == t@.len(),
            forall|k: int| from <= k < j ==> is_space_char(t@[k]),
        decreases n - j,
    {
        j += 1;
    }
    proof {
        let rest = t@.skip(from as int);
        assert forall|k: int| 0 <= k < j - from implies is_space_char(rest[k]) by {
            assert(rest[k] == t@[from + k]);
        }
        if j < n {
            assert(rest[j - from] == t@[j as int]);
        }
        lemma_run_of_at(rest, |c: char| is_space_char(c), j - from);
    }
    j
}

/// First index at or after `from` whose character is not a key character,
/// or the end of the line.
pub fn scan_key(t: &Vec<char>, from: usize) -> (r: usize)
    requires
        from <= t@.len(),
    ensures
        from <= r <= t@.len(),
        r - from == key_run(t@.skip(from as int)),
{
    let n = t.len();
    let mut j = from;
    while j < n && key_char(t[j])
        invariant
            from <= j <= n,
            n == t@.len(),
            forall|k: int| from <= k < j ==> is_key_char(t@[k]),
        decreases n - j,
    {
        j += 1;
    }
    proof {
        let rest = t@.skip(from as int);
        assert forall|k: int| 0 <= k < j - from implies is_key_char(rest[k]) by {
            assert(rest[k] == t@[from + k]);
        }
        if j < n {
            assert(rest[j - from] == t@[j as int]);
        }
        lemma_run_of_at(rest, |c: char| is_key_char(c), j - from);
    }
    j
}

/// The rest of the line from `from` with its leading whitespace skipped.
pub fn rest_after_spaces(t: &Vec<char>, from: usize) -> (r: Vec<char>)
    requires
        from <= t@.len(),
    ensures
        r@ == trim_start_spec(t@.skip(from as int)),
{
    let w = scan_space(t, from);
    let r = subrange_chars(t, w, t.len());
    proof {
        lemma_trim_start_run(t@.skip(from as int));
        assert(t@.skip(from as int).skip(w - from) =~= t@.subrange(w as int, t@.len() as int));
    }
    r
}

/// A separator line: the trimmed line starts with `###`.
pub open spec fn is_sep_line(t: Seq<char>) -> bool {
    t.len() >= 3 && t[0] == '#' && t[1] == '#' && t[2] == '#'
}

/// The request name carried by a separator line: the text after `###`,
/// trimmed.
pub open spec fn sep_name_of(t: Seq<char>) -> Seq<char> {
    trim_spec(t.skip(3))
}

/// Executable separator test.
pub fn sep_line(t: &Vec<char>) -> (r: bool)
    ensures
        r == is_sep_line(t@),
{
    t.len() >= 3 && t[0] == '#' && t[1] == '#' && t[2] == '#'
}

/// Executable separator-name extraction.
pub fn sep_name(t: &Vec<char>) -> (r: Vec<char>)
    requires
        is_sep_line(t@),
    ensures
        r@ == sep_name_of(t@),
{
    let rest = subrange_chars(t, 3, t.len());
    proof {
        assert(rest@ =~= t@.skip(3));
    }
    crate::text::trimmed(&rest)
}

/// A script-block opener: the given mark (`<` or `>`), optional whitespace,
/// then `{%`.
pub open spec fn is_script_open(t: Seq<char>, mark: char) -> bool {
    t.len() >= 1 && t[0] == mark && {
        let r = t.skip(1);
        let w = space_run(r);
        w + 2 <= r.len() && r[w] == '{' && r[w + 1] == '%'
    }
}

/// Executable script-opener test.
pub fn script_open(t: &Vec<char>, mark: char) -> (r: bool)
    ensures
        r == is_script_open(t@, mark),
{
    if t.len() >= 1 && t[0] == mark {
        let w = scan_space(t, 1);
        if t.len() - w > 1 {
            proof {
                assert(t@.skip(1)[w - 1] == t@[w as int]);
                assert(t@.skip(1)[w as int] == t@[w + 1]);
            }
            t[w] == '{' && t[w + 1] == '%'
        } else {
            false
        }
    } else {
        false
    }
}

/// A metadata annotation `# @key value`: hash, optional whitespace, `@`,
/// a non-empty key, at least one whitespace character, then the value.
pub open spec fn metadata_kv_of(t: Seq<char>) -> Option<(Seq<char>, Seq<char>)> {
    if t.len() >= 1 && t[0] == '#' {
        let r = t.skip(1);
        let w = space_run(r);
        if w < r.len() && r[w] == '@' {
            let r2 = r.skip(w + 1);
            let k = key_run(r2);
            if k >= 1 && k < r2.len() && is_space_char(r2[k]) {
                Some((r2.take(k), trim_start_spec(r2.skip(k))))
            } else {
                None
            }
        } else {
            None
        }
    } else {
        None
    }
}

/// Executable metadata extraction.
pub fn metadata_kv(t: &Vec<char>) -> (r: Option<(Vec<char>, Vec<char>)>)
    ensures
        match r {
            Some(kv) => metadata_kv_of(t@) == Some((kv.0@, kv.1@)),
            None => metadata_kv_of(t@) is None,
        },
{
    if t.len() >= 1 && t[0] == '#' {
        let w1 = scan_space(t, 1);
        proof {
            if w1 < t@.len() {
                assert(t@.skip(1)[w1 - 1] == t@[w1 as int]);
            }
        }
        if w1 < t.len() && t[w1] == '@' {
            let k_end = scan_key(t, w1 + 1);
            proof {
                assert(t@.skip(1).skip(w1 as int) =~= t@.skip(w1 + 1));
                if k_end < t@.len() {
                    assert(t@.skip(w1 + 1)[k_end - w1 - 1] == t@[k_end as int]);
                }
            }
            if k_end > w1 + 1 && k_end < t.len() && space_char(t[k_end]) {
                let key = subrange_chars(t, w1 + 1, k_end);
                let val = rest_after_spaces(t, k_end);
                proof {
                    let r2 = t@.skip(w1 + 1);
                    assert(key@ =~= r2.take(k_end - w1 - 1));
                    assert(r2.skip(k_end - w1 - 1) =~= t@.skip(k_end as int));
                }
                return Some((key, val));
            }
        }
    }
    proof {
        if t@.len() >= 1 && t@[0] == '#' {
            let r = t@.skip(1);
            let w = space_run(r);
            if w < r.len() && r[w] == '@' {
                assert(r[w] == t@[w + 1]);
                let r2 = r.skip(w + 1);
                assert(r2 =~= t@.skip(w + 2));
            }
        }
    }
    None
}

/// A comment line: starts with `#` or `//`.
pub open spec fn is_comment_line(t: Seq<char>) -> bool {
    (t.len() >= 1 && t[0] == '#') || (t.len() >= 2 && t[0] == '/' && t[1] == '/')
}

/// Executable comment test.
pub fn comment_line(t: &Vec<char>) -> (r: bool)
    ensures
        r == is_comment_line(t@),
{
    (t.len() >= 1 && t[0] == '#') || (t.len() >= 2 && t[0] == '/' && t[1] == '/')
}

/// A file-level variable definition `@name = value`: `@`, a non-empty key,
/// optional whitespace, `=`, then the value with leading whitespace skipped.
pub open spec fn vardef_kv_of(t: Seq<char>) -> Option<(Seq<char>, Seq<char>)> {
    if t.len() >= 1 && t[0] == '@' {
        let r = t.skip(1);
        let k = key_run(r);
        if k >= 1 {
            let r2 = r.skip(k);
            let w = space_run(r2);
            if w < r2.len() && r2[w] == '=' {
                Some((r.take(k), trim_start_spec(r2.skip(w + 1))))
            } else {
                None
            }
        } else {
            None
        }
    } else {
        None
    }
}

/// Executable variable-definition extraction.
pub fn vardef_kv(t: &Vec<char>) -> (r: Option<(Vec<char>, Vec<char>)>)
    ensures
        match r {
            Some(kv) => vardef_kv_of(t@) == Some((kv.0@, kv.1@)),
            None => vardef_kv_of(t@) is None,
        },
{
    if t.len() >= 1 && t[0] == '@' {
        let k_end = scan_key(t, 1);
        proof {
            assert(t@.skip(1) =~= t@.subrange(1, t@.len() as int));
        }
        if k_end > 1 {
            let w_end = scan_space(t, k_end);
            proof {
                assert(t@.skip(1).skip(k_end - 1) =~= t@.skip(k_end as int));
                if w_end < t@.len() {
                    assert(t@.skip(k_end as int)[w_end - k_end] == t@[w_end as int]);
                }
            }
            if w_end < t.len() && t[w_end] == '=' {
                let key = subrange_chars(t, 1, k_end);
                let val = rest_after_spaces(t, w_end + 1);
                proof {
                    let r = t@.skip(1);
                    assert(key@ =~= r.take(k_end - 1));
                    assert(r.skip(k_end - 1).skip(w_end - k_end + 1) =~= t@.skip(w_end + 1));
                }
                return Some((key, val));
            }
        }
    }
    None
}

/// A header line `Key: value`: a non-empty run of key characters followed
/// directly by a colon; the value is the rest with leading whitespace
/// skipped.
pub open spec fn header_kv_of(t: Seq<char>) -> Option<(Seq<char>, Seq<char>)> {
    let k = key_run(t);
    if k >= 1 && k < t.len() && t[k] == ':' {
        Some((t.take(k), trim_start_spec(t.skip(k + 1))))
    } else {
        None
    }
}

/// Executable header extraction.
pub fn header_kv(t: &Vec<char>) -> (r: Option<(Vec<char>, Vec<char>)>)
    ensures
        match r {
            Some(kv) => header_kv_of(t@) == Some((kv.0@, kv.1@)),
            None => header_kv_of(t@) is None,
        },
{
    let k_end = scan_key(t, 0);
    proof {
        assert(t@.skip(0) =~= t@);
    }
    if k_end > 0 && k_end < t.len() && t[k_end] == ':' {
        let key = subrange_chars(t, 0, k_end);
        let val = rest_after_spaces(t, k_end + 1);
        proof {
            assert(key@ =~= t@.take(k_end as int));
        }
        Some((key, val))
    } else {
        None
    }
}

/// A digit or dot, the characters allowed in an HTTP version number.
pub open spec fn is_digit_dot(c: char) -> bool {
    ('0' <= c && c <= '9') || c == '.'
}

/// Executable digit-or-dot test.
pub fn digit_dot(c: char) -> (r: bool)
    ensures
        r == is_digit_dot(c),
{
    ('0' <= c && c <= '9') || c == '.'
}

/// An HTTP version token `HTTP/` followed by one or more digits or dots,
/// reaching exactly to the end of `r`.
pub open spec fn is_version_token(r: Seq<char>) -> bool {
    r.len() >= 6 && r[0] == 'H' && r[1] == 'T' && r[2] == 'T' && r[3] == 'P' && r[4] == '/'
        && forall|k: int| 5 <= k < r.len() ==> is_digit_dot(r[k])
}

/// Whitespace then an HTTP version token reaching the end of `r`.
pub open spec fn is_version_suffix(r: Seq<char>) -> bool {
    let w = space_run(r);
    w >= 1 && is_version_token(r.skip(w))
}

/// Executable test of [`is_version_suffix`] on the suffix of `t` starting
/// at `p`.
pub fn version_suffix_at(t: &Vec<char>, p: usize) -> (r: bool)
    requires
        p <= t@.len(),
    ensures
        r == is_version_suffix(t@.skip(p as int)),
{
    let ghost rest = t@.skip(p as int);
    let n = t.len();
    let w = scan_space(t, p);
    if w == p || n - w < 6 {
        proof {
            if w < n {
                assert(rest.skip(w - p).len() == n - w);
            } else {
                assert(rest.skip(w - p).len() == 0);
            }
        }
        return false;
    }
    proof {
        assert forall|k: int| 0 <= k < n - w implies #[trigger] rest.skip(w - p)[k] == t@[w + k] by {
            assert(rest[w - p + k] == t@[w + k]);
        }
    }
    if !(t[w] == 'H' && t[w + 1] == 'T' && t[w + 2] == 'T' && t[w + 3] == 'P' && t[w + 4] == '/') {
        return false;
    }
    let mut j = w + 5;
    while j < n && digit_dot(t[j])
        invariant
            w + 5 <= j <= n,
            n == t@.len(),
            forall|k: int| w + 5 <= k < j ==> is_digit_dot(t@[k]),
        decreases n - j,
    {
        j += 1;
    }
    if j == n {
        proof {
            assert forall|k: int| 5 <= k < rest.skip(w - p).len() implies is_digit_dot(
                #[trigger] rest.skip(w - p)[k],
            ) by {
                assert(rest.skip(w - p)[k] == t@[w + k]);
            }
        }
        true
    } else {
        proof {
            assert(rest.skip(w - p)[j - w] == t@[j as int]);
        }
        false
    }
}

/// Earliest split position at or after `p` (at least 1) where the rest of
/// the line is a version suffix; the length of the line when there is none.
pub open spec fn vsplit_from(rest: Seq<char>, p: int) -> int
    decreases rest.len() - p,
{
    if p >= rest.len() {
        rest.len() as int
    } else if is_version_suffix(rest.skip(p)) {
        p
    } else {
        vsplit_from(rest, p + 1)
    }
}

/// The nine request verbs of the grammar.
pub open spec fn spec_verbs() -> Seq<Seq<char>> {
    seq![
        seq!['G', 'E', 'T'],
        seq!['P', 'O', 'S', 'T'],
        seq!['P', 'U', 'T'],
        seq!['D', 'E', 'L', 'E', 'T', 'E'],
        seq!['P', 'A', 'T', 'C', 'H'],
        seq!['H', 'E', 'A', 'D'],
        seq!['O', 'P', 'T', 'I', 'O', 'N', 'S'],
        seq!['T', 'R', 'A', 'C', 'E'],
        seq!['C', 'O', 'N', 'N', 'E', 'C', 'T'],
    ]
}

/// `t` starts with `p`.
pub open spec fn has_prefix(t: Seq<char>, p: Seq<char>) -> bool {
    t.len() >= p.len() && t.take(p.len() as int) == p
}

/// `t` begins with verb `v` followed by at least one whitespace character.
pub open spec fn has_verb(t: Seq<char>, v: Seq<char>) -> bool {
    has_prefix(t, v) && t.len() > v.len() && is_space_char(t[v.len() as int])
}

/// The verb that opens `t`, if any.
pub open spec fn verb_of(t: Seq<char>) -> Option<Seq<char>>
    decreases 9int,
{
    verb_of_from(t, 0)
}

/// The first verb at index `i` or later of [`spec_verbs`] that opens `t`.
pub open spec fn verb_of_from(t: Seq<char>, i: int) -> Option<Seq<char>>
    decreases 9 - i,
{
    if 0 <= i < 9 {
        if has_verb(t, spec_verbs()[i]) {
            Some(spec_verbs()[i])
        } else {
            verb_of_from(t, i + 1)
        }
    } else {
        None
    }
}

/// Executable prefix test.
pub fn starts_with_chars(t: &Vec<char>, p: &Vec<char>) -> (r: bool)
    ensures
        r == has_prefix(t@, p@),
{
    let m = p.len();
    if t.len() < m {
        return false;
    }
    let mut i: usize = 0;
    while i < m
        invariant
            i <= m,
            m == p@.len(),
            m <= t@.len(),
            forall|k: int| 0 <= k < i ==> t@[k] == p@[k],
        decreases m - i,
    {
        if t[i] != p[i] {
            proof {
                assert(t@.take(m as int)[i as int] == t@[i as int]);
            }
            return false;
        }
        i += 1;
    }
    proof {
        assert(t@.take(m as int) =~= p@);
    }
    true
}

/// Executable verb test.
pub fn verb_prefix(t: &Vec<char>, p: &Vec<char>) -> (r: bool)
    ensures
        r == has_verb(t@, p@),
{
    starts_with_chars(t, p) && t.len() > p.len() && space_char(t[p.len()])
}

/// The parts of a method line: the verb, the URL, and an optional explicit
/// HTTP version.  The URL is the shortest non-empty text after the verb
/// such that what follows it is whitespace plus an HTTP version token
/// ending the line; when no split of that shape exists the whole rest of
/// the line is the URL.
pub open spec fn method_parts_of(t: Seq<char>) -> Option<(Seq<char>, Seq<char>, Option<Seq<char>>)> {
    match verb_of(t) {
        None => None,
        Some(v) => {
            let rest = trim_start_spec(t.skip(v.len() as int));
            if rest.len() == 0 {
                None
            } else {
                let p = vsplit_from(rest, 1);
                if p < rest.len() {
                    let suf = rest.skip(p);
                    Some((v, rest.take(p), Some(suf.skip(space_run(suf)))))
                } else {
                    Some((v, rest, None))
                }
            }
        },
    }
}

/// The verb opening `t`, executably.
fn match_verb(t: &Vec<char>) -> (r: Option<Vec<char>>)
    ensures
        match r {
            Some(v) => verb_of(t@) == Some(v@),
            None => verb_of(t@) is None,
        },
{
    let names: [&str; 9] = [
        "GET",
        "POST",
        "PUT",
        "DELETE",
        "PATCH",
        "HEAD",
        "OPTIONS",
        "TRACE",
        "CONNECT",
    ];
    proof {
        reveal_strlit("GET");
        reveal_strlit("POST");
        reveal_strlit("PUT");
        reveal_strlit("DELETE");
        reveal_strlit("PATCH");
        reveal_strlit("HEAD");
        reveal_strlit("OPTIONS");
        reveal_strlit("TRACE");
        reveal_strlit("CONNECT");
        assert(names@[0]@ =~= spec_verbs()[0]);
        assert(names@[1]@ =~= spec_verbs()[1]);
        assert(names@[2]@ =~= spec_verbs()[2]);
        assert(names@[3]@ =~= spec_verbs()[3]);
        assert(names@[4]@ =~= spec_verbs()[4]);
        assert(names@[5]@ =~= spec_verbs()[5]);
        assert(names@[6]@ =~= spec_verbs()[6]);
        assert(names@[7]@ =~= spec_verbs()[7]);
        assert(names@[8]@ =~= spec_verbs()[8]);
    }
    let mut i: usize = 0;
    while i < 9
        invariant
            i <= 9,
            names@.len() == 9,
            forall|k: int| 0 <= k < 9 ==> names@[k]@ == spec_verbs()[k],
            verb_of(t@) == verb_of_from(t@, i as int),
        decreases 9 - i,
    {
        let v = crate::text::chars_of(names[i]);
        if verb_prefix(t, &v) {
            return Some(v);
        }
        i += 1;
    }
    None
}

/// The parts of a method line, executably.
pub fn method_parts(t: &Vec<char>) -> (r: Option<(Vec<char>, Vec<char>, Option<Vec<char>>)>)
    ensures
        match r {
            Some(muv) => method_parts_of(t@) == Some(
                (
                    muv.0@,
                    muv.1@,
                    match muv.2 {
                        Some(ver) => Some(ver@),
                        None => None,
                    },
                ),
            ),
            None => method_parts_of(t@) is None,
        },
{
    let v = match match_verb(t) {
        Some(v) => v,
        None => {
            return None;
        },
    };
    proof {
        lemma_verb_of_has(t@, 0);
    }
    let rest = rest_after_spaces(t, v.len());
    let m = rest.len();
    if m == 0 {
        return None;
    }
    let mut p: usize = 1;
    while p < m && !version_suffix_at(&rest, p)
        invariant
            1 <= p <= m,
            m == rest@.len(),
            forall|q: int| 1 <= q < p ==> !is_version_suffix(rest@.skip(q)),
        decreases m - p,
    {
        p += 1;
    }
    proof {
        lemma_vsplit(rest@, 1, p as int);
    }
    if p < m {
        let url = subrange_chars(&rest, 0, p);
        let w = scan_space(&rest, p);
        let ver = subrange_chars(&rest, w, m);
        proof {
            assert(url@ =~= rest@.take(p as int));
            let suf = rest@.skip(p as int);
            assert(ver@ =~= suf.skip(space_run(suf)));
        }
        Some((v, url, Some(ver)))
    } else {
        let url = subrange_chars(&rest, 0, m);
        proof {
            assert(url@ =~= rest@);
        }
        Some((v, url, None))
    }
}

/// A found verb opens the line.
pub proof fn lemma_verb_of_has(t: Seq<char>, i: int)
    requires
        verb_of_from(t, i) is Some,
    ensures
        has_verb(t, verb_of_from(t, i)->0),
    decreases 9 - i,
{
    if 0 <= i < 9 && !has_verb(t, spec_verbs()[i]) {
        lemma_verb_of_has(t, i + 1);
    }
}

/// `vsplit_from` is determined by a scan that found no earlier split.
pub proof fn lemma_vsplit(rest: Seq<char>, start: int, p: int)
    requires
        1 <= start <= p <= rest.len(),
        forall|q: int| start <= q < p ==> !is_version_suffix(rest.skip(q)),
        p < rest.len() ==> is_version_suffix(rest.skip(p)),
    ensures
        vsplit_from(rest, start) == p,
    decreases p - start,
{
    if start < p {
        lemma_vsplit(rest, start + 1, p);
    }
}

/// A bare URL line: starts with `http://`, `https://`, or `/`.
pub open spec fn is_bare_url_line(t: Seq<char>) -> bool {
    ||| (t.len() >= 7 && t[0] == 'h' && t[1] == 't' && t[2] == 't' && t[3] == 'p' && t[4] == ':'
        && t[5] == '/' && t[6] == '/')
    ||| (t.len() >= 8 && t[0] == 'h' && t[1] == 't' && t[2] == 't' && t[3] == 'p' && t[4] == 's'
        && t[5] == ':' && t[6] == '/' && t[7] == '/')
    ||| (t.len() >= 1 && t[0] == '/')
}

/// Executable bare-URL test.
pub fn bare_url_line(t: &Vec<char>) -> (r: bool)
    ensures
        r == is_bare_url_line(t@),
{
    if t.len() >= 1 && t[0] == '/' {
        return true;
    }
    if t.len() >= 7 && t[0] == 'h' && t[1] == 't' && t[2] == 't' && t[3] == 'p' && t[4] == ':'
        && t[5] == '/' && t[6] == '/' {
        return true;
    }
    if t.len() >= 8 && t[0] == 'h' && t[1] == 't' && t[2] == 't' && t[3] == 'p' && t[4] == 's'
        && t[5] == ':' && t[6] == '/' && t[7] == '/' {
        return true;
    }
    false
}

} // verus!
