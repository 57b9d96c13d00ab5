//! The JetBrains-dialect parser: a line-oriented state machine that
//! recognizes script blocks, separators, metadata annotations, comments,
//! file-level variable definitions, method lines, headers, body sections
//! and bare URL lines, in that priority order.

use crate::classify::{
    bare_url_line, comment_line, header_kv, header_kv_of, is_bare_url_line, is_comment_line,
    is_script_open, is_sep_line, metadata_kv, metadata_kv_of, method_parts, method_parts_of,
    script_open, sep_line, sep_name, sep_name_of, vardef_kv, vardef_kv_of,
};
use crate::strmap::{assoc_insert, StrMap};
use crate::text::{
    chars_of, join_lines, join_nl, lines_spec, seq_views, split_lines, string_of, subrange_chars,
    trim_spec, trimmed,
};
use crate::types::{fresh_req, req_views, ParseError, ParsedRequest, ReqModel};
use vstd::prelude::*;

verus! {

/// The trimmed line ends with `%}`, closing a script block.
pub open spec fn ends_pct(t: Seq<char>) -> bool {
    t.len() >= 2 && t[t.len() - 2] == '%' && t[t.len() - 1] == '}'
}

/// `s` with every trailing repetition of `%}` removed.
pub open spec fn strip_pct_suffix(s: Seq<char>) -> Seq<char>
    decreases s.len(),
{
    if s.len() >= 2 && s[s.len() - 2] == '%' && s[s.len() - 1] == '}' {
        strip_pct_suffix(s.take(s.len() - 2))
    } else {
        s
    }
}

/// Index of the line that closes a script block whose opener stands just
/// before line `j`: the first line at or after `j` whose trimmed text ends
/// with `%}`.  A separator line reached first leaves the block unclosed.
pub open spec fn script_end(ls: Seq<Seq<char>>, j: int) -> Option<int>
    decreases ls.len() - j,
{
    if j < 0 || j >= ls.len() {
        None
    } else if ends_pct(trim_spec(ls[j])) {
        Some(j)
    } else if is_sep_line(trim_spec(ls[j])) {
        None
    } else {
        script_end(ls, j + 1)
    }
}

/// The captured lines of a script block opened just before line `i+1` and
/// closed at line `e`: the raw lines strictly between, plus any text on the
/// closing line before its trailing `%}` marks.
pub open spec fn script_lines(ls: Seq<Seq<char>>, i: int, e: int) -> Seq<Seq<char>> {
    let mid = ls.subrange(i + 1, e);
    let c = trim_spec(strip_pct_suffix(trim_spec(ls[e])));
    if c.len() > 0 {
        mid.push(c)
    } else {
        mid
    }
}

/// The captured text of a script block: its lines joined with newlines.
pub open spec fn script_text(ls: Seq<Seq<char>>, i: int, e: int) -> Seq<char> {
    join_nl(script_lines(ls, i, e))
}

/// Scans for the end of a script block whose opener is line `start_idx` and
/// extracts the block's text.  Returns the text and the index of the
/// closing line, or nothing when a separator or the end of input comes
/// first.
pub fn extract_script_block(lines: &Vec<Vec<char>>, start_idx: usize) -> (r: Option<(String, usize)>)
    requires
        start_idx < lines@.len(),
    ensures
        match r {
            Some(se) => {
                &&& script_end(seq_views(lines@), start_idx + 1) == Some(se.1 as int)
                &&& se.0@ == script_text(seq_views(lines@), start_idx as int, se.1 as int)
                &&& start_idx < se.1 < lines@.len()
            },
            None => script_end(seq_views(lines@), start_idx + 1) is None,
        },
{
    let ghost ll = seq_views(lines@);
    let n = lines.len();
    let mut mid: Vec<Vec<char>> = Vec::new();
    let mut j = start_idx + 1;
    proof {
        assert(seq_views(mid@) =~= ll.subrange(start_idx + 1, start_idx + 1));
    }
    while j < n
        invariant
            start_idx + 1 <= j <= n,
            n == ll.len(),
            ll == seq_views(lines@),
            seq_views(mid@) == ll.subrange(start_idx + 1, j as int),
            script_end(ll, start_idx + 1) == script_end(ll, j as int),
        decreases n - j,
    {
        proof {
            assert(ll[j as int] == lines@[j as int]@);
        }
        let t = trimmed(&lines[j]);
        if t.len() >= 2 && t[t.len() - 2] == '%' && t[t.len() - 1] == '}' {
            proof {
                assert(ends_pct(trim_spec(ll[j as int])));
                assert(script_end(ll, j as int) == Some(j as int));
            }
            let mut c = t;
            while c.len() >= 2 && c[c.len() - 2] == '%' && c[c.len() - 1] == '}'
                invariant
                    strip_pct_suffix(trim_spec(ll[j as int])) == strip_pct_suffix(c@),
                decreases c@.len(),
            {
                let m = c.len();
                c.truncate(m - 2);
            }
            proof {
                assert(strip_pct_suffix(c@) == c@);
            }
            let c2 = trimmed(&c);
            let ghost content = trim_spec(strip_pct_suffix(trim_spec(ll[j as int])));
            proof {
                assert(c2@ == content);
            }
            if c2.len() > 0 {
                let ghost mid0 = seq_views(mid@);
                mid.push(c2);
                proof {
                    assert(seq_views(mid@) =~= mid0.push(content));
                    assert(seq_views(mid@) =~= script_lines(ll, start_idx as int, j as int));
                }
            } else {
                proof {
                    assert(seq_views(mid@) =~= script_lines(ll, start_idx as int, j as int));
                }
            }
            let text = join_lines(&mid);
            let s = string_of(&text);
            return Some((s, j));
        }
        if sep_line(&t) {
            proof {
                assert(script_end(ll, j as int) is None);
            }
            return None;
        }
        let raw = subrange_chars(&lines[j], 0, lines[j].len());
        proof {
            assert(raw@ =~= ll[j as int]);
        }
        let ghost mid0 = seq_views(mid@);
        mid.push(raw);
        proof {
            assert(seq_views(mid@) =~= mid0.push(ll[j as int]));
            assert(seq_views(mid@) =~= ll.subrange(start_idx + 1, j + 1));
        }
        j += 1;
    }
    proof {
        assert(script_end(ll, n as int) is None);
    }
    None
}

/// The running state of the JetBrains parser: finished requests, the
/// in-progress request if any, whether body capture is on, the buffered
/// body lines, and the file-level variable table.
#[verifier::ext_equal]
pub ghost struct JbState {
    pub done: Seq<ReqModel>,
    pub cur: Option<ReqModel>,
    pub in_body: bool,
    pub body: Seq<Seq<char>>,
    pub vars: Seq<(Seq<char>, Seq<char>)>,
}

/// The state before any line has been read.
pub open spec fn jb_init() -> JbState {
    JbState {
        done: Seq::empty(),
        cur: None,
        in_body: false,
        body: Seq::empty(),
        vars: Seq::empty(),
    }
}

/// A request completed: when body capture was on and lines were buffered,
/// they become the body, joined by newlines and trimmed.
pub open spec fn close_body(r: ReqModel, in_body: bool, body: Seq<Seq<char>>) -> ReqModel {
    if in_body && body.len() > 0 {
        ReqModel { body: Some(trim_spec(join_nl(body))), ..r }
    } else {
        r
    }
}

/// Finalizes the in-progress request: it joins the output unless its URL is
/// still empty, in which case it is dropped.
pub open spec fn finalize_done(st: JbState) -> Seq<ReqModel> {
    match st.cur {
        Some(r) => {
            let r2 = close_body(r, st.in_body, st.body);
            if r2.url.len() > 0 {
                st.done.push(r2)
            } else {
                st.done
            }
        },
        None => st.done,
    }
}

/// The effect of a separator line at one-based line `ln`: finalize the
/// current request and start a fresh one, named by the separator's trailing
/// text when that is non-empty.
pub open spec fn jb_step_sep(st: JbState, t: Seq<char>, ln: int) -> JbState {
    let name = sep_name_of(t);
    JbState {
        done: finalize_done(st),
        cur: Some(
            ReqModel {
                name: if name.len() > 0 {
                    Some(name)
                } else {
                    None
                },
                ..fresh_req(ln)
            },
        ),
        in_body: false,
        body: Seq::empty(),
        vars: st.vars,
    }
}

/// Runs the JetBrains line machine from line `i` in state `st` to the end
/// of the document, applying the classification rules in priority order.
pub open spec fn jb_run(ls: Seq<Seq<char>>, i: int, st: JbState) -> JbState
    decreases ls.len() - i,
{
    if i < 0 || i >= ls.len() {
        st
    } else {
        let t = trim_spec(ls[i]);
        let ln = i + 1;
        if is_script_open(t, '<') && script_end(ls, i + 1) is Some {
            let e = script_end(ls, i + 1)->0;
            if i < e < ls.len() {
                let script = script_text(ls, i, e);
                let cur2 = match st.cur {
                    Some(r) => ReqModel { pre_script: Some(script), ..r },
                    None => ReqModel { pre_script: Some(script), ..fresh_req(ln) },
                };
                jb_run(ls, e + 1, JbState { cur: Some(cur2), ..st })
            } else {
                st
            }
        } else if is_script_open(t, '>') && script_end(ls, i + 1) is Some {
            let e = script_end(ls, i + 1)->0;
            if i < e < ls.len() {
                let st2 = match st.cur {
                    Some(r) => JbState {
                        cur: Some(ReqModel { post_script: Some(script_text(ls, i, e)), ..r }),
                        in_body: false,
                        ..st
                    },
                    None => JbState { in_body: false, ..st },
                };
                jb_run(ls, e + 1, st2)
            } else {
                st
            }
        } else if is_sep_line(t) {
            jb_run(ls, i + 1, jb_step_sep(st, t, ln))
        } else if st.cur is None && t.len() == 0 {
            jb_run(ls, i + 1, st)
        } else {
            let st1 = if st.cur is None {
                JbState { cur: Some(fresh_req(ln)), ..st }
            } else {
                st
            };
            let r = st1.cur->0;
            if st1.in_body {
                jb_run(ls, i + 1, JbState { body: st1.body.push(ls[i]), ..st1 })
            } else if metadata_kv_of(t) is Some {
                let kv = metadata_kv_of(t)->0;
                jb_run(
                    ls,
                    i + 1,
                    JbState {
                        cur: Some(ReqModel { metadata: assoc_insert(r.metadata, kv.0, kv.1), ..r }),
                        ..st1
                    },
                )
            } else if is_comment_line(t) {
                jb_run(ls, i + 1, st1)
            } else if vardef_kv_of(t) is Some {
                let kv = vardef_kv_of(t)->0;
                jb_run(ls, i + 1, JbState { vars: assoc_insert(st1.vars, kv.0, kv.1), ..st1 })
            } else if method_parts_of(t) is Some {
                let muv = method_parts_of(t)->0;
                jb_run(
                    ls,
                    i + 1,
                    JbState {
                        cur: Some(
                            ReqModel {
                                method: muv.0,
                                url: muv.1,
                                http_version: match muv.2 {
                                    Some(ver) => Some(ver),
                                    None => r.http_version,
                                },
                                ..r
                            },
                        ),
                        ..st1
                    },
                )
            } else if header_kv_of(t) is Some {
                let kv = header_kv_of(t)->0;
                jb_run(
                    ls,
                    i + 1,
                    JbState {
                        cur: Some(ReqModel { headers: assoc_insert(r.headers, kv.0, kv.1), ..r }),
                        ..st1
                    },
                )
            } else if t.len() == 0 && r.url.len() > 0 {
                jb_run(ls, i + 1, JbState { in_body: true, ..st1 })
            } else if is_bare_url_line(t) && r.url.len() == 0 {
                jb_run(ls, i + 1, JbState { cur: Some(ReqModel { url: t, ..r }), ..st1 })
            } else {
                jb_run(ls, i + 1, st1)
            }
        }
    }
}

/// The requests a JetBrains-dialect document parses to: the finalized
/// requests in document order, each carrying the complete file-level
/// variable table.
pub open spec fn jb_parse(ls: Seq<Seq<char>>) -> Seq<ReqModel> {
    let st = jb_run(ls, 0, jb_init());
    let done = finalize_done(st);
    done.map_values(|r: ReqModel| ReqModel { variables: st.vars, ..r })
}

/// The model of the executable parser's locals.
pub open spec fn st_of(
    done: Seq<ReqModel>,
    cur: ReqModel,
    has_cur: bool,
    in_body: bool,
    body: Seq<Seq<char>>,
    vars: Seq<(Seq<char>, Seq<char>)>,
) -> JbState {
    JbState {
        done,
        cur: if has_cur {
            Some(cur)
        } else {
            None
        },
        in_body,
        body,
        vars,
    }
}

/// Parses a whole document in the JetBrains dialect.  Always succeeds: the
/// grammar is total, and unrecognized lines are ignored.
#[verifier::rlimit(100)]
pub fn parse_jetbrains(content: &str) -> (r: Result<Vec<ParsedRequest>, ParseError>)
    ensures
        r matches Ok(reqs) && req_views(reqs@) == jb_parse(lines_spec(content@)),
{
    let cvec = chars_of(content);
    let lines = split_lines(&cvec);
    let ghost ll = seq_views(lines@);
    proof {
        assert(ll == lines_spec(content@));
    }
    let n = lines.len();
    let mut done: Vec<ParsedRequest> = Vec::new();
    let mut cur: ParsedRequest = ParsedRequest::new();
    let mut has_cur = false;
    let mut in_body = false;
    let mut body: Vec<Vec<char>> = Vec::new();
    let mut vars = StrMap::new();
    let mut idx: usize = 0;
    proof {
        assert(st_of(req_views(done@), cur@, false, false, seq_views(body@), vars@)
            =~= jb_init());
    }
    while idx < n
        invariant
            idx <= n,
            n == ll.len(),
            ll == seq_views(lines@),
            cur.wf(),
            vars.wf(),
            jb_run(ll, 0, jb_init()) == jb_run(
                ll,
                idx as int,
                st_of(req_views(done@), cur@, has_cur, in_body, seq_views(body@), vars@),
            ),
        decreases n - idx,
    {
        let ghost sv = st_of(req_views(done@), cur@, has_cur, in_body, seq_views(body@), vars@);
        let ghost i0 = idx as int;
        proof {
            assert(ll[i0] == lines@[i0]@);
        }
        let t = trimmed(&lines[idx]);
        let ghost tsp = trim_spec(ll[i0]);
        // Script blocks, checked before everything else.
        if script_open(&t, '<') {
            if let Some((script, e)) = extract_script_block(&lines, idx) {
                if !has_cur {
                    cur = ParsedRequest::new();
                    cur.line_number = idx + 1;
                    has_cur = true;
                    proof {
                        assert(cur@ =~= fresh_req(i0 + 1));
                    }
                }
                cur.pre_script = Some(script);
                proof {
                    let sv2 = st_of(
                        req_views(done@),
                        cur@,
                        has_cur,
                        in_body,
                        seq_views(body@),
                        vars@,
                    );
                    assert(sv2 =~= JbState {
                        cur: Some(
                            match sv.cur {
                                Some(r) => ReqModel {
                                    pre_script: Some(script_text(ll, i0, e as int)),
                                    ..r
                                },
                                None => ReqModel {
                                    pre_script: Some(script_text(ll, i0, e as int)),
                                    ..fresh_req(i0 + 1)
                                },
                            },
                        ),
                        ..sv
                    });
                    assert(jb_run(ll, i0, sv) == jb_run(ll, e + 1, sv2));
                }
                idx = e + 1;
                continue ;
            }
        }
        if script_open(&t, '>') {
            if let Some((script, e)) = extract_script_block(&lines, idx) {
                if has_cur {
                    cur.post_script = Some(script);
                }
                in_body = false;
                proof {
                    let sv2 = st_of(
                        req_views(done@),
                        cur@,
                        has_cur,
                        in_body,
                        seq_views(body@),
                        vars@,
                    );
                    assert(sv2 =~= (match sv.cur {
                        Some(r) => JbState {
                            cur: Some(
                                ReqModel { post_script: Some(script_text(ll, i0, e as int)), ..r },
                            ),
                            in_body: false,
                            ..sv
                        },
                        None => JbState { in_body: false, ..sv },
                    }));
                    assert(jb_run(ll, i0, sv) == jb_run(ll, e + 1, sv2));
                }
                idx = e + 1;
                continue ;
            }
        }
        proof {
            if is_script_open(tsp, '<') || is_script_open(tsp, '>') {
                assert(script_end(ll, i0 + 1) is None);
            }
        }
        // Separator: finalize the current request and start a new one.
        if sep_line(&t) {
            if has_cur {
                if in_body && body.len() > 0 {
                    let joined = join_lines(&body);
                    let tr = trimmed(&joined);
                    cur.body = Some(string_of(&tr));
                }
                proof {
                    assert(cur@ =~= close_body(sv.cur->0, sv.in_body, sv.body));
                }
                if !cur.url.as_str().is_empty() {
                    let ghost d0 = req_views(done@);
                    done.push(cur);
                    proof {
                        assert(req_views(done@) =~= d0.push(
                            close_body(sv.cur->0, sv.in_body, sv.body),
                        ));
                    }
                    cur = ParsedRequest::new();
                } else {
                    cur = ParsedRequest::new();
                }
            }
            proof {
                assert(req_views(done@) =~= finalize_done(sv));
            }
            cur = ParsedRequest::new();
            cur.line_number = idx + 1;
            let name = sep_name(&t);
            if name.len() > 0 {
                cur.name = Some(string_of(&name));
            }
            has_cur = true;
            in_body = false;
            body = Vec::new();
            proof {
                let sv2 = st_of(req_views(done@), cur@, has_cur, in_body, seq_views(body@), vars@);
                assert(seq_views(body@) =~= Seq::<Seq<char>>::empty());
                assert(sv2 =~= jb_step_sep(sv, tsp, i0 + 1));
                assert(jb_run(ll, i0, sv) == jb_run(ll, i0 + 1, sv2));
            }
            idx = idx + 1;
            continue ;
        }
        // Leading blank lines before any request exists are skipped.
        if !has_cur && t.len() == 0 {
            proof {
                assert(jb_run(ll, i0, sv) == jb_run(ll, i0 + 1, sv));
            }
            idx = idx + 1;
            continue ;
        }
        if !has_cur {
            cur = ParsedRequest::new();
            cur.line_number = idx + 1;
            has_cur = true;
            proof {
                assert(cur@ =~= fresh_req(i0 + 1));
            }
        }
        let ghost sv1 = st_of(req_views(done@), cur@, has_cur, in_body, seq_views(body@), vars@);
        proof {
            if sv.cur is None {
                assert(sv1 =~= JbState { cur: Some(fresh_req(i0 + 1)), ..sv });
            } else {
                assert(sv1 =~= sv);
            }
        }
        // Body capture swallows every raw line.
        if in_body {
            let raw = subrange_chars(&lines[idx], 0, lines[idx].len());
            proof {
                assert(raw@ =~= ll[i0]);
            }
            let ghost b0 = seq_views(body@);
            body.push(raw);
            proof {
                assert(seq_views(body@) =~= b0.push(ll[i0]));
                let sv2 = st_of(req_views(done@), cur@, has_cur, in_body, seq_views(body@), vars@);
                assert(sv2 =~= JbState { body: sv1.body.push(ll[i0]), ..sv1 });
                assert(jb_run(ll, i0, sv) == jb_run(ll, i0 + 1, sv2));
            }
            idx = idx + 1;
            continue ;
        }
        // Metadata annotation.
        if let Some((k, v)) = metadata_kv(&t) {
            cur.metadata.insert(string_of(&k), string_of(&v));
            proof {
                let r = sv1.cur->0;
                let kv = metadata_kv_of(tsp)->0;
                assert(cur@ =~= ReqModel { metadata: assoc_insert(r.metadata, kv.0, kv.1), ..r });
                let sv2 = st_of(req_views(done@), cur@, has_cur, in_body, seq_views(body@), vars@);
                assert(sv2 =~= JbState { cur: Some(cur@), ..sv1 });
                assert(jb_run(ll, i0, sv) == jb_run(ll, i0 + 1, sv2));
            }
            idx = idx + 1;
            continue ;
        }
        // Comment.
        if comment_line(&t) {
            proof {
                assert(jb_run(ll, i0, sv) == jb_run(ll, i0 + 1, sv1));
            }
            idx = idx + 1;
            continue ;
        }
        // File-level variable definition.
        if let Some((k, v)) = vardef_kv(&t) {
            vars.insert(string_of(&k), string_of(&v));
            proof {
                let kv = vardef_kv_of(tsp)->0;
                let sv2 = st_of(req_views(done@), cur@, has_cur, in_body, seq_views(body@), vars@);
                assert(sv2 =~= JbState { vars: assoc_insert(sv1.vars, kv.0, kv.1), ..sv1 });
                assert(jb_run(ll, i0, sv) == jb_run(ll, i0 + 1, sv2));
            }
            idx = idx + 1;
            continue ;
        }
        // Method line.
        if let Some((m, u, ver)) = method_parts(&t) {
            cur.method = string_of(&m);
            cur.url = string_of(&u);
            if let Some(vv) = &ver {
                cur.http_version = Some(string_of(vv));
            }
            proof {
                let r = sv1.cur->0;
                let muv = method_parts_of(tsp)->0;
                assert(cur@ =~= ReqModel {
                    method: muv.0,
                    url: muv.1,
                    http_version: match muv.2 {
                        Some(x) => Some(x),
                        None => r.http_version,
                    },
                    ..r
                });
                let sv2 = st_of(req_views(done@), cur@, has_cur, in_body, seq_views(body@), vars@);
                assert(sv2 =~= JbState { cur: Some(cur@), ..sv1 });
                assert(jb_run(ll, i0, sv) == jb_run(ll, i0 + 1, sv2));
            }
            idx = idx + 1;
            continue ;
        }
        // Header line.
        if let Some((k, v)) = header_kv(&t) {
            cur.headers.insert(string_of(&k), string_of(&v));
            proof {
                let r = sv1.cur->0;
                let kv = header_kv_of(tsp)->0;
                assert(cur@ =~= ReqModel { headers: assoc_insert(r.headers, kv.0, kv.1), ..r });
                let sv2 = st_of(req_views(done@), cur@, has_cur, in_body, seq_views(body@), vars@);
                assert(sv2 =~= JbState { cur: Some(cur@), ..sv1 });
                assert(jb_run(ll, i0, sv) == jb_run(ll, i0 + 1, sv2));
            }
            idx = idx + 1;
            continue ;
        }
        // Blank line with a URL already set: start body capture.
        if t.len() == 0 && !cur.url.as_str().is_empty() {
            in_body = true;
            proof {
                let sv2 = st_of(req_views(done@), cur@, has_cur, in_body, seq_views(body@), vars@);
                assert(sv2 =~= JbState { in_body: true, ..sv1 });
                assert(jb_run(ll, i0, sv) == jb_run(ll, i0 + 1, sv2));
            }
            idx = idx + 1;
            continue ;
        }
        // Bare URL line when no URL is set yet: implicit GET.
        if cur.url.as_str().is_empty() && bare_url_line(&t) {
            cur.url = string_of(&t);
            proof {
                let r = sv1.cur->0;
                assert(cur@ =~= ReqModel { url: tsp, ..r });
                let sv2 = st_of(req_views(done@), cur@, has_cur, in_body, seq_views(body@), vars@);
                assert(sv2 =~= JbState { cur: Some(cur@), ..sv1 });
                assert(jb_run(ll, i0, sv) == jb_run(ll, i0 + 1, sv2));
            }
            idx = idx + 1;
            continue ;
        }
        // Anything else is ignored.
        proof {
            assert(jb_run(ll, i0, sv) == jb_run(ll, i0 + 1, sv1));
        }
        idx = idx + 1;
    }
    let ghost svf = st_of(req_views(done@), cur@, has_cur, in_body, seq_views(body@), vars@);
    proof {
        assert(jb_run(ll, 0, jb_init()) == svf);
    }
    // End of input: finalize the last request.
    if has_cur {
        if in_body && body.len() > 0 {
            let joined = join_lines(&body);
            let tr = trimmed(&joined);
            cur.body = Some(string_of(&tr));
        }
        proof {
            assert(cur@ =~= close_body(svf.cur->0, svf.in_body, svf.body));
        }
        if !cur.url.as_str().is_empty() {
            let ghost d0 = req_views(done@);
            done.push(cur);
            proof {
                assert(req_views(done@) =~= d0.push(close_body(svf.cur->0, svf.in_body, svf.body)));
            }
        }
    }
    proof {
        assert(req_views(done@) =~= finalize_done(svf));
    }
    // Copy the complete file-level variable table into every request.
    let ghost fin = finalize_done(svf);
    let ghost fvars = vars@;
    let mut out: Vec<ParsedRequest> = Vec::new();
    proof {
        assert(req_views(done@) =~= fin.skip(0));
    }
    while done.len() > 0
        invariant
            vars.wf(),
            vars@ == fvars,
            out@.len() + done@.len() == fin.len(),
            req_views(done@) == fin.skip(out@.len() as int),
            req_views(out@) == fin.map_values(|r: ReqModel| ReqModel { variables: fvars, ..r })
                .take(out@.len() as int),
        decreases done@.len(),
    {
        let ghost k = out@.len() as int;
        let ghost done0 = done@;
        let mut r = done.remove(0);
        proof {
            assert(req_views(done0)[0] == done0[0]@);
            assert(r@ == fin.skip(k)[0]);
            assert(fin.skip(k)[0] == fin[k]);
            assert forall|j: int| 0 <= j < done@.len() implies #[trigger] req_views(done@)[j]
                == fin.skip(k + 1)[j] by {
                assert(done@[j] == done0[j + 1]);
                assert(req_views(done0)[j + 1] == done0[j + 1]@);
                assert(fin.skip(k)[j + 1] == fin[k + 1 + j]);
            }
            assert(req_views(done@) =~= fin.skip(k + 1));
        }
        r.variables = vars.duplicate();
        proof {
            assert(r@ =~= ReqModel { variables: fvars, ..fin[k] });
        }
        let ghost o0 = req_views(out@);
        out.push(r);
        proof {
            let mapped = fin.map_values(|r: ReqModel| ReqModel { variables: fvars, ..r });
            assert(mapped[k] == ReqModel { variables: fvars, ..fin[k] });
            assert(req_views(out@) =~= o0.push(r@));
            assert(req_views(out@) =~= mapped.take(k + 1));
        }
    }
    proof {
        let mapped = fin.map_values(|r: ReqModel| ReqModel { variables: fvars, ..r });
        assert(mapped.take(out@.len() as int) =~= mapped);
        assert(req_views(out@) == jb_parse(ll));
    }
    Ok(out)
}

} // verus!
