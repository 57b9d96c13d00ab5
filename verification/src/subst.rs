//! Placeholder substitution: replaces each `{{name}}` occurrence whose name
//! is bound in the variable table by the bound value, in one left-to-right
//! pass.  Unresolved placeholders pass through unchanged, and replaced text
//! is never rescanned.

use crate::strmap::{assoc_get, StrMap};
use crate::text::{chars_of, extend_chars, ident_char, is_ident_char, string_of, subrange_chars};
use vstd::prelude::*;

verus! {

/// Length of the maximal run of identifier characters at the start of `s`.
pub open spec fn ident_run(s: Seq<char>) -> int
    decreases s.len(),
{
    if s.len() > 0 && is_ident_char(s[0]) {
        1 + ident_run(s.drop_first())
    } else {
        0
    }
}

pub proof fn lemma_ident_run(s: Seq<char>)
    ensures
        0 <= ident_run(s) <= s.len(),
        forall|j: int| 0 <= j < ident_run(s) ==> is_ident_char(s[j]),
        ident_run(s) < s.len() ==> !is_ident_char(s[ident_run(s)]),
    decreases s.len(),
{
    if s.len() > 0 && is_ident_char(s[0]) {
        lemma_ident_run(s.drop_first());
        assert forall|j: int| 0 <= j < ident_run(s) implies is_ident_char(s[j]) by {
            if j > 0 {
                assert(s.drop_first()[j - 1] == s[j]);
            }
        }
    }
}

/// `ident_run` is determined by its characterization.
pub proof fn lemma_ident_run_at(s: Seq<char>, m: int)
    requires
        0 <= m <= s.len(),
        forall|j: int| 0 <= j < m ==> is_ident_char(s[j]),
        m < s.len() ==> !is_ident_char(s[m]),
    ensures
        ident_run(s) == m,
    decreases s.len(),
{
    if s.len() > 0 && is_ident_char(s[0]) {
        assert(forall|j: int| 0 <= j < m - 1 ==> s.drop_first()[j] == s[j + 1]);
        lemma_ident_run_at(s.drop_first(), m - 1);
    }
}

/// Whether a placeholder token `{{name}}` starts at the first character of
/// `s`: two opening braces, a non-empty maximal run of identifier
/// characters, then two closing braces.
pub open spec fn ph_at(s: Seq<char>) -> bool {
    &&& s.len() >= 5
    &&& s[0] == '{'
    &&& s[1] == '{'
    &&& ident_run(s.skip(2)) >= 1
    &&& 4 + ident_run(s.skip(2)) <= s.len()
    &&& s[2 + ident_run(s.skip(2))] == '}'
    &&& s[3 + ident_run(s.skip(2))] == '}'
}

/// Length of the placeholder token starting at the first character of `s`.
pub open spec fn ph_len(s: Seq<char>) -> int {
    4 + ident_run(s.skip(2))
}

/// Name inside the placeholder token starting at the first character of `s`.
pub open spec fn ph_name(s: Seq<char>) -> Seq<char> {
    s.subrange(2, 2 + ident_run(s.skip(2)))
}

/// The result of one substitution pass over `s` with variable table `m`:
/// at each position, the leftmost placeholder is either replaced (when its
/// name is bound) or copied unchanged, and scanning resumes after it.
pub open spec fn subst_spec(s: Seq<char>, m: Seq<(Seq<char>, Seq<char>)>) -> Seq<char>
    decreases s.len(),
{
    if s.len() == 0 {
        Seq::empty()
    } else if ph_at(s) {
        let l = ph_len(s);
        let tail = subst_spec(s.skip(l), m);
        match assoc_get(m, ph_name(s)) {
            Some(v) => v + tail,
            None => s.take(l) + tail,
        }
    } else {
        s.take(1) + subst_spec(s.skip(1), m)
    }
}

/// Replaces every `{{name}}` placeholder in `input` whose name is bound in
/// `variables` by the bound value; placeholders with unbound names are kept
/// verbatim.  Replaced text is not rescanned.
#[verifier::rlimit(60)]
pub fn substitute_variables(input: &str, variables: &StrMap) -> (r: String)
    ensures
        r@ == subst_spec(input@, variables@),
{
    let s = chars_of(input);
    let n = s.len();
    let mut out: Vec<char> = Vec::new();
    let mut i: usize = 0;
    proof {
        assert(s@.skip(0) =~= s@);
        assert(out@ + subst_spec(s@, variables@) =~= subst_spec(s@, variables@));
    }
    while i < n
        invariant
            i <= n,
            n == s@.len(),
            s@ == input@,
            subst_spec(input@, variables@) == out@ + subst_spec(s@.skip(i as int), variables@),
        decreases n - i,
    {
        let ghost rest = s@.skip(i as int);
        let mut matched = false;
        if s[i] == '{' && i + 1 < n && s[i + 1] == '{' {
            let mut j: usize = i + 2;
            while j < n && ident_char(s[j])
                invariant
                    i + 2 <= j <= n,
                    n == s@.len(),
                    forall|k: int| i + 2 <= k < j ==> is_ident_char(s@[k]),
                decreases n - j,
            {
                j += 1;
            }
            proof {
                let tail2 = rest.skip(2);
                assert forall|k: int| 0 <= k < j - i - 2 implies is_ident_char(tail2[k]) by {
                    assert(tail2[k] == s@[i + 2 + k]);
                }
                if j < n {
                    assert(tail2[j - i - 2] == s@[j as int]);
                }
                lemma_ident_run_at(tail2, j - i - 2);
            }
            if j > i + 2 && n - j > 1 && s[j] == '}' && s[j + 1] == '}' {
                matched = true;
                proof {
                    assert(rest[0] == '{' && rest[1] == '{');
                    assert(rest[2 + ident_run(rest.skip(2))] == s@[j as int]);
                    assert(rest[3 + ident_run(rest.skip(2))] == s@[j + 1]);
                    assert(ph_at(rest));
                }
                let name = subrange_chars(&s, i + 2, j);
                proof {
                    assert(name@ =~= ph_name(rest));
                }
                let name_str = string_of(&name);
                let ghost out0 = out@;
                match variables.get(name_str.as_str()) {
                    Some(v) => {
                        let vc = chars_of(v.as_str());
                        extend_chars(&mut out, &vc);
                        proof {
                            assert(subst_spec(rest, variables@) == vc@ + subst_spec(
                                rest.skip(ph_len(rest)),
                                variables@,
                            ));
                        }
                    },
                    None => {
                        let token = subrange_chars(&s, i, j + 2);
                        extend_chars(&mut out, &token);
                        proof {
                            assert(token@ =~= rest.take(ph_len(rest)));
                            assert(subst_spec(rest, variables@) == rest.take(ph_len(rest))
                                + subst_spec(rest.skip(ph_len(rest)), variables@));
                        }
                    },
                }
                proof {
                    assert(rest.skip(ph_len(rest)) =~= s@.skip(j + 2));
                    assert(out0 + subst_spec(rest, variables@) =~= out@ + subst_spec(
                        s@.skip(j + 2),
                        variables@,
                    ));
                }
                i = j + 2;
            } else {
                proof {
                    if j > i + 2 && n - j > 1 && s@[j as int] == '}' {
                        assert(rest[3 + ident_run(rest.skip(2))] == s@[j + 1]);
                        assert(!ph_at(rest));
                    } else {
                        if ph_at(rest) {
                            assert(rest[2 + ident_run(rest.skip(2))] == s@[j as int]);
                        }
                    }
                }
            }
        } else {
            proof {
                if ph_at(rest) {
                    assert(rest[0] == s@[i as int] && rest[1] == s@[i + 1]);
                }
            }
        }
        if !matched {
            proof {
                assert(!ph_at(rest));
            }
            let ghost out0 = out@;
            out.push(s[i]);
            proof {
                assert(rest.take(1) =~= seq![s@[i as int]]);
                assert(rest.skip(1) =~= s@.skip(i + 1));
                assert(subst_spec(rest, variables@) == rest.take(1) + subst_spec(
                    s@.skip(i + 1),
                    variables@,
                ));
                assert(out0 + subst_spec(rest, variables@) =~= out@ + subst_spec(
                    s@.skip(i + 1),
                    variables@,
                ));
            }
            i += 1;
        }
    }
    proof {
        assert(s@.skip(n as int) =~= Seq::<char>::empty());
        assert(out@ + subst_spec(s@.skip(n as int), variables@) =~= out@);
    }
    string_of(&out)
}

/// No placeholder anywhere in `s` has a name bound in `m`.
pub open spec fn no_resolvable_placeholder(s: Seq<char>, m: Seq<(Seq<char>, Seq<char>)>) -> bool {
    forall|i: int|
        0 <= i <= s.len() ==> (ph_at(#[trigger] s.skip(i)) ==> assoc_get(m, ph_name(s.skip(i)))
            is None)
}

/// Substitution is the identity on a string none of whose placeholders
/// resolves: every placeholder is passed through verbatim.
pub proof fn lemma_subst_unresolved_identity(s: Seq<char>, m: Seq<(Seq<char>, Seq<char>)>)
    requires
        no_resolvable_placeholder(s, m),
    ensures
        subst_spec(s, m) == s,
    decreases s.len(),
{
    if s.len() == 0 {
        assert(subst_spec(s, m) =~= s);
    } else if ph_at(s) {
        assert(s.skip(0) =~= s);
        assert(assoc_get(m, ph_name(s.skip(0))) is None);
        let l = ph_len(s);
        lemma_ident_run(s.skip(2));
        assert forall|i: int|
            0 <= i <= s.skip(l).len() && ph_at(#[trigger] s.skip(l).skip(i)) implies assoc_get(
            m,
            ph_name(s.skip(l).skip(i)),
        ) is None by {
            assert(s.skip(l).skip(i) =~= s.skip(l + i));
        }
        lemma_subst_unresolved_identity(s.skip(l), m);
        assert(subst_spec(s, m) == s.take(l) + s.skip(l));
        assert(s.take(l) + s.skip(l) =~= s);
    } else {
        assert forall|i: int|
            0 <= i <= s.skip(1).len() && ph_at(#[trigger] s.skip(1).skip(i)) implies assoc_get(
            m,
            ph_name(s.skip(1).skip(i)),
        ) is None by {
            assert(s.skip(1).skip(i) =~= s.skip(1 + i));
        }
        lemma_subst_unresolved_identity(s.skip(1), m);
        assert(subst_spec(s, m) == s.take(1) + s.skip(1));
        assert(s.take(1) + s.skip(1) =~= s);
    }
}

/// Substitution is a fixed point on any input whose substitution result has
/// no resolvable placeholder left: running it again changes nothing.
pub proof fn lemma_subst_idempotent_when_resolved(s: Seq<char>, m: Seq<(Seq<char>, Seq<char>)>)
    requires
        no_resolvable_placeholder(subst_spec(s, m), m),
    ensures
        subst_spec(subst_spec(s, m), m) == subst_spec(s, m),
{
    lemma_subst_unresolved_identity(subst_spec(s, m), m);
}

} // verus!
