//! The VS Code-dialect parser: a restricted grammar with no script blocks
//! and no metadata annotations.  Variable definitions are recognized
//! everywhere, even inside a body section; comments are discarded in the
//! header section but become body content once body capture starts.

use crate::classify::{
    bare_url_line, comment_line, header_kv, header_kv_of, is_bare_url_line, is_comment_line,
    is_sep_line, method_parts, method_parts_of, sep_line, sep_name, vardef_kv, vardef_kv_of,
};
use crate::jetbrains::{close_body, finalize_done, jb_init, jb_step_sep, st_of, JbState};
use crate::strmap::{assoc_insert, StrMap};
use crate::text::{
    chars_of, join_lines, lines_spec, seq_views, split_lines, string_of, subrange_chars, trim_spec,
    trimmed,
};
use crate::types::{fresh_req, req_views, ParseError, ParsedRequest, ReqModel};
use vstd::prelude::*;

verus! {

/// Runs the VS Code line machine from line `i` in state `st` to the end of
/// the document.
pub open spec fn vs_run(ls: Seq<Seq<char>>, i: int, st: JbState) -> JbState
    decreases ls.len() - i,
{
    if i < 0 || i >= ls.len() {
        st
    } else {
        let t = trim_spec(ls[i]);
        let ln = i + 1;
        if vardef_kv_of(t) is Some {
            let kv = vardef_kv_of(t)->0;
            vs_run(ls, i + 1, JbState { vars: assoc_insert(st.vars, kv.0, kv.1), ..st })
        } else if is_sep_line(t) {
            vs_run(ls, i + 1, jb_step_sep(st, t, ln))
        } else if st.cur is None && t.len() == 0 {
            vs_run(ls, i + 1, st)
        } else if st.cur is None && is_comment_line(t) {
            vs_run(ls, i + 1, st)
        } else {
            let st1 = if st.cur is None {
                JbState { cur: Some(fresh_req(ln)), ..st }
            } else {
                st
            };
            let r = st1.cur->0;
            if st1.in_body {
                vs_run(ls, i + 1, JbState { body: st1.body.push(ls[i]), ..st1 })
            } else if is_comment_line(t) {
                vs_run(ls, i + 1, st1)
            } else if method_parts_of(t) is Some {
                let muv = method_parts_of(t)->0;
                vs_run(
                    ls,
                    i + 1,
                    JbState {
                        cur: Some(
                            ReqModel {
                                method: muv.0,
                                url: muv.1,
                                http_version: match muv.2 {
                                    Some(ver) => Some(ver),
                                    None => r.http_version,
                                },
                                ..r
                            },
                        ),
                        ..st1
                    },
                )
            } else if header_kv_of(t) is Some {
                let kv = header_kv_of(t)->0;
                vs_run(
                    ls,
                    i + 1,
                    JbState {
                        cur: Some(ReqModel { headers: assoc_insert(r.headers, kv.0, kv.1), ..r }),
                        ..st1
                    },
                )
            } else if t.len() == 0 && r.url.len() > 0 {
                vs_run(ls, i + 1, JbState { in_body: true, ..st1 })
            } else if is_bare_url_line(t) && r.url.len() == 0 {
                vs_run(ls, i + 1, JbState { cur: Some(ReqModel { url: t, ..r }), ..st1 })
            } else {
                vs_run(ls, i + 1, st1)
            }
        }
    }
}

/// The requests a VS Code-dialect document parses to.
pub open spec fn vs_parse(ls: Seq<Seq<char>>) -> Seq<ReqModel> {
    let st = vs_run(ls, 0, jb_init());
    let done = finalize_done(st);
    done.map_values(|r: ReqModel| ReqModel { variables: st.vars, ..r })
}

/// Parses a whole document in the VS Code dialect.  Always succeeds: the
/// grammar is total, and unrecognized lines are ignored.
#[verifier::rlimit(100)]
pub fn parse_vscode(content: &str) -> (r: Result<Vec<ParsedRequest>, ParseError>)
    ensures
        r matches Ok(reqs) && req_views(reqs@) == vs_parse(lines_spec(content@)),
{
    let cvec = chars_of(content);
    let lines = split_lines(&cvec);
    let ghost ll = seq_views(lines@);
    proof {
        assert(ll == lines_spec(content@));
    }
    let n = lines.len();
    let mut done: Vec<ParsedRequest> = Vec::new();
    let mut cur: ParsedRequest = ParsedRequest::new();
    let mut has_cur = false;
    let mut in_body = false;
    let mut body: Vec<Vec<char>> = Vec::new();
    let mut vars = StrMap::new();
    let mut idx: usize = 0;
    proof {
        assert(st_of(req_views(done@), cur@, false, false, seq_views(body@), vars@)
            =~= jb_init());
    }
    while idx < n
        invariant
            idx <= n,
            n == ll.len(),
            ll == seq_views(lines@),
            cur.wf(),
            vars.wf(),
            vs_run(ll, 0, jb_init()) == vs_run(
                ll,
                idx as int,
                st_of(req_views(done@), cur@, has_cur, in_body, seq_views(body@), vars@),
            ),
        decreases n - idx,
    {
        let ghost sv = st_of(req_views(done@), cur@, has_cur, in_body, seq_views(body@), vars@);
        let ghost i0 = idx as int;
        proof {
            assert(ll[i0] == lines@[i0]@);
        }
        let t = trimmed(&lines[idx]);
        let ghost tsp = trim_spec(ll[i0]);
        // Variable definitions are recognized everywhere, even inside a body.
        if let Some((k, v)) = vardef_kv(&t) {
            vars.insert(string_of(&k), string_of(&v));
            proof {
                let kv = vardef_kv_of(tsp)->0;
                let sv2 = st_of(req_views(done@), cur@, has_cur, in_body, seq_views(body@), vars@);
                assert(sv2 =~= JbState { vars: assoc_insert(sv.vars, kv.0, kv.1), ..sv });
                assert(vs_run(ll, i0, sv) == vs_run(ll, i0 + 1, sv2));
            }
            idx = idx + 1;
            continue ;
        }
        // Separator: finalize the current request and start a new one.
        if sep_line(&t) {
            if has_cur {
                if in_body && body.len() > 0 {
                    let joined = join_lines(&body);
                    let tr = trimmed(&joined);
                    cur.body = Some(string_of(&tr));
                }
                proof {
                    assert(cur@ =~= close_body(sv.cur->0, sv.in_body, sv.body));
                }
                if !cur.url.as_str().is_empty() {
                    let ghost d0 = req_views(done@);
                    done.push(cur);
                    proof {
                        assert(req_views(done@) =~= d0.push(
                            close_body(sv.cur->0, sv.in_body, sv.body),
                        ));
                    }
                    cur = ParsedRequest::new();
                } else {
                    cur = ParsedRequest::new();
                }
            }
            proof {
                assert(req_views(done@) =~= finalize_done(sv));
            }
            cur = ParsedRequest::new();
            cur.line_number = idx + 1;
            let name = sep_name(&t);
            if name.len() > 0 {
                cur.name = Some(string_of(&name));
            }
            has_cur = true;
            in_body = false;
            body = Vec::new();
            proof {
                let sv2 = st_of(req_views(done@), cur@, has_cur, in_body, seq_views(body@), vars@);
                assert(seq_views(body@) =~= Seq::<Seq<char>>::empty());
                assert(sv2 =~= jb_step_sep(sv, tsp, i0 + 1));
                assert(vs_run(ll, i0, sv) == vs_run(ll, i0 + 1, sv2));
            }
            idx = idx + 1;
            continue ;
        }
        // Leading blank lines and comments before any request are skipped.
        if !has_cur && t.len() == 0 {
            proof {
                assert(vs_run(ll, i0, sv) == vs_run(ll, i0 + 1, sv));
            }
            idx = idx + 1;
            continue ;
        }
        if !has_cur && comment_line(&t) {
            proof {
                assert(vs_run(ll, i0, sv) == vs_run(ll, i0 + 1, sv));
            }
            idx = idx + 1;
            continue ;
        }
        if !has_cur {
            cur = ParsedRequest::new();
            cur.line_number = idx + 1;
            has_cur = true;
            proof {
                assert(cur@ =~= fresh_req(i0 + 1));
            }
        }
        let ghost sv1 = st_of(req_views(done@), cur@, has_cur, in_body, seq_views(body@), vars@);
        proof {
            if sv.cur is None {
                assert(sv1 =~= JbState { cur: Some(fresh_req(i0 + 1)), ..sv });
            } else {
                assert(sv1 =~= sv);
            }
        }
        // Body capture swallows every raw line.
        if in_body {
            let raw = subrange_chars(&lines[idx], 0, lines[idx].len());
            proof {
                assert(raw@ =~= ll[i0]);
            }
            let ghost b0 = seq_views(body@);
            body.push(raw);
            proof {
                assert(seq_views(body@) =~= b0.push(ll[i0]));
                let sv2 = st_of(req_views(done@), cur@, has_cur, in_body, seq_views(body@), vars@);
                assert(sv2 =~= JbState { body: sv1.body.push(ll[i0]), ..sv1 });
                assert(vs_run(ll, i0, sv) == vs_run(ll, i0 + 1, sv2));
            }
            idx = idx + 1;
            continue ;
        }
        // Comments inside the header section are discarded.
        if comment_line(&t) {
            proof {
                assert(vs_run(ll, i0, sv) == vs_run(ll, i0 + 1, sv1));
            }
            idx = idx + 1;
            continue ;
        }
        // Method line.
        if let Some((m, u, ver)) = method_parts(&t) {
            cur.method = string_of(&m);
            cur.url = string_of(&u);
            if let Some(vv) = &ver {
                cur.http_version = Some(string_of(vv));
            }
            proof {
                let r = sv1.cur->0;
                let muv = method_parts_of(tsp)->0;
                assert(cur@ =~= ReqModel {
                    method: muv.0,
                    url: muv.1,
                    http_version: match muv.2 {
                        Some(x) => Some(x),
                        None => r.http_version,
                    },
                    ..r
                });
                let sv2 = st_of(req_views(done@), cur@, has_cur, in_body, seq_views(body@), vars@);
                assert(sv2 =~= JbState { cur: Some(cur@), ..sv1 });
                assert(vs_run(ll, i0, sv) == vs_run(ll, i0 + 1, sv2));
            }
            idx = idx + 1;
            continue ;
        }
        // Header line.
        if let Some((k, v)) = header_kv(&t) {
            cur.headers.insert(string_of(&k), string_of(&v));
            proof {
                let r = sv1.cur->0;
                let kv = header_kv_of(tsp)->0;
                assert(cur@ =~= ReqModel { headers: assoc_insert(r.headers, kv.0, kv.1), ..r });
                let sv2 = st_of(req_views(done@), cur@, has_cur, in_body, seq_views(body@), vars@);
                assert(sv2 =~= JbState { cur: Some(cur@), ..sv1 });
                assert(vs_run(ll, i0, sv) == vs_run(ll, i0 + 1, sv2));
            }
            idx = idx + 1;
            continue ;
        }
        // Blank line with a URL already set: start body capture.
        if t.len() == 0 && !cur.url.as_str().is_empty() {
            in_body = true;
            proof {
                let sv2 = st_of(req_views(done@), cur@, has_cur, in_body, seq_views(body@), vars@);
                assert(sv2 =~= JbState { in_body: true, ..sv1 });
                assert(vs_run(ll, i0, sv) == vs_run(ll, i0 + 1, sv2));
            }
            idx = idx + 1;
            continue ;
        }
        // Bare URL line when no URL is set yet: implicit GET.
        if cur.url.as_str().is_empty() && bare_url_line(&t) {
            cur.url = string_of(&t);
            proof {
                let r = sv1.cur->0;
                assert(cur@ =~= ReqModel { url: tsp, ..r });
                let sv2 = st_of(req_views(done@), cur@, has_cur, in_body, seq_views(body@), vars@);
                assert(sv2 =~= JbState { cur: Some(cur@), ..sv1 });
                assert(vs_run(ll, i0, sv) == vs_run(ll, i0 + 1, sv2));
            }
            idx = idx + 1;
            continue ;
        }
        // Anything else is ignored.
        proof {
            assert(vs_run(ll, i0, sv) == vs_run(ll, i0 + 1, sv1));
        }
        idx = idx + 1;
    }
    let ghost svf = st_of(req_views(done@), cur@, has_cur, in_body, seq_views(body@), vars@);
    proof {
        assert(vs_run(ll, 0, jb_init()) == svf);
    }
    // End of input: finalize the last request.
    if has_cur {
        if in_body && body.len() > 0 {
            let joined = join_lines(&body);
            let tr = trimmed(&joined);
            cur.body = Some(string_of(&tr));
        }
        proof {
            assert(cur@ =~= close_body(svf.cur->0, svf.in_body, svf.body));
        }
        if !cur.url.as_str().is_empty() {
            let ghost d0 = req_views(done@);
            done.push(cur);
            proof {
                assert(req_views(done@) =~= d0.push(close_body(svf.cur->0, svf.in_body, svf.body)));
            }
        }
    }
    proof {
        assert(req_views(done@) =~= finalize_done(svf));
    }
    // Copy the complete file-level variable table into every request.
    let ghost fin = finalize_done(svf);
    let ghost fvars = vars@;
    let mut out: Vec<ParsedRequest> = Vec::new();
    proof {
        assert(req_views(done@) =~= fin.skip(0));
    }
    while done.len() > 0
        invariant
            vars.wf(),
            vars@ == fvars,
            out@.len() + done@.len() == fin.len(),
            req_views(done@) == fin.skip(out@.len() as int),
            req_views(out@) == fin.map_values(|r: ReqModel| ReqModel { variables: fvars, ..r })
                .take(out@.len() as int),
        decreases done@.len(),
    {
        let ghost k = out@.len() as int;
        let ghost done0 = done@;
        let mut r = done.remove(0);
        proof {
            assert(req_views(done0)[0] == done0[0]@);
            assert(r@ == fin.skip(k)[0]);
            assert(fin.skip(k)[0] == fin[k]);
            assert forall|j: int| 0 <= j < done@.len() implies #[trigger] req_views(done@)[j]
                == fin.skip(k + 1)[j] by {
                assert(done@[j] == done0[j + 1]);
                assert(req_views(done0)[j + 1] == done0[j + 1]@);
                assert(fin.skip(k)[j + 1] == fin[k + 1 + j]);
            }
            assert(req_views(done@) =~= fin.skip(k + 1));
        }
        r.variables = vars.duplicate();
        proof {
            assert(r@ =~= ReqModel { variables: fvars, ..fin[k] });
        }
        let ghost o0 = req_views(out@);
        out.push(r);
        proof {
            let mapped = fin.map_values(|r: ReqModel| ReqModel { variables: fvars, ..r });
            assert(mapped[k] == ReqModel { variables: fvars, ..fin[k] });
            assert(req_views(out@) =~= o0.push(r@));
            assert(req_views(out@) =~= mapped.take(k + 1));
        }
    }
    proof {
        let mapped = fin.map_values(|r: ReqModel| ReqModel { variables: fvars, ..r });
        assert(mapped.take(out@.len() as int) =~= mapped);
        assert(req_views(out@) == vs_parse(ll));
    }
    Ok(out)
}

} // verus!
