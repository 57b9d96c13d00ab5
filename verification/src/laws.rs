//! Document-level laws of the parser, stated and proved against the spec
//! functions that the executable functions' contracts use.

use crate::classify::{
    has_verb, header_kv_of, is_comment_line, is_script_open, is_sep_line, is_version_suffix,
    metadata_kv_of, method_parts_of, sep_name_of, space_run, spec_verbs, vardef_kv_of, verb_of,
    verb_of_from,
};
use crate::detect::{
    has_script_line, has_vardef_line, spec_detect, spec_parse_http_content,
};
use crate::jetbrains::{finalize_done, jb_init, jb_parse, jb_run, JbState};
use crate::text::{
    is_key_char, is_space_char, lemma_line_break_at, lines_spec, strip_cr, trim_end_spec,
    trim_spec, trim_start_spec,
};
use crate::types::{fresh_req, HttpFileFormat, ReqModel};
use crate::vscode::{vs_parse, vs_run};
use vstd::prelude::*;

verus! {

/// Script presence decides the dialect: a document with any script-opener
/// line is classified JetBrains, even when variable-definition lines are
/// present as well.
pub proof fn law_detection_script_dominates(content: Seq<char>)
    requires
        has_script_line(lines_spec(content)),
    ensures
        spec_detect(content) == HttpFileFormat::JetBrains,
{
}

/// The file-level variable table of a document under the dialect the
/// detector picks for it.
pub open spec fn file_vars_of(content: Seq<char>) -> Seq<(Seq<char>, Seq<char>)> {
    if spec_detect(content) == HttpFileFormat::VsCode {
        vs_run(lines_spec(content), 0, jb_init()).vars
    } else {
        jb_run(lines_spec(content), 0, jb_init()).vars
    }
}

/// File-level variable definitions are global, not positionally scoped:
/// every request a document parses to carries the document's complete
/// variable table, including definitions that appear after the request.
pub proof fn law_variables_global(content: Seq<char>, k: int)
    requires
        0 <= k < spec_parse_http_content(content).len(),
    ensures
        spec_parse_http_content(content)[k].variables == file_vars_of(content),
{
}

/// Indexing facts for a line of the shape `left ++ [c] ++ right`.
pub proof fn lemma_cat3_index(m: Seq<char>, c: char, url: Seq<char>)
    ensures
        (m + seq![c] + url).len() == m.len() + 1 + url.len(),
        forall|k: int| 0 <= k < m.len() ==> #[trigger] (m + seq![c] + url)[k] == m[k],
        (m + seq![c] + url)[m.len() as int] == c,
        forall|k: int|
            0 <= k < url.len() ==> #[trigger] (m + seq![c] + url)[m.len() + 1 + k] == url[k],
{
}

/// A word whose character at `d` differs from the line's cannot be the
/// line's verb.
pub proof fn lemma_not_verb(t: Seq<char>, u: Seq<char>, d: int)
    requires
        0 <= d < u.len(),
        u.len() <= t.len() ==> d < t.len() && t[d] != u[d],
    ensures
        !has_verb(t, u),
{
    if has_verb(t, u) {
        assert(t.take(u.len() as int)[d] == t[d]);
        assert(t.take(u.len() as int)[d] == u[d]);
    }
}

/// Every character of every verb is an upper-case ASCII letter.
pub proof fn lemma_verbs_chars()
    ensures
        forall|vi: int, k: int|
            0 <= vi < 9 && 0 <= k < spec_verbs()[vi].len() ==> 'A' <= #[trigger] spec_verbs()[vi][k]
                <= 'Z',
{
    assert forall|vi: int, k: int|
        0 <= vi < 9 && 0 <= k < spec_verbs()[vi].len() implies 'A' <= #[trigger] spec_verbs()[vi][k]
        <= 'Z' by {
        if vi == 0 {
            assert(spec_verbs()[0] == seq!['G', 'E', 'T']);
        } else if vi == 1 {
            assert(spec_verbs()[1] == seq!['P', 'O', 'S', 'T']);
        } else if vi == 2 {
            assert(spec_verbs()[2] == seq!['P', 'U', 'T']);
        } else if vi == 3 {
            assert(spec_verbs()[3] == seq!['D', 'E', 'L', 'E', 'T', 'E']);
        } else if vi == 4 {
            assert(spec_verbs()[4] == seq!['P', 'A', 'T', 'C', 'H']);
        } else if vi == 5 {
            assert(spec_verbs()[5] == seq!['H', 'E', 'A', 'D']);
        } else if vi == 6 {
            assert(spec_verbs()[6] == seq!['O', 'P', 'T', 'I', 'O', 'N', 'S']);
        } else if vi == 7 {
            assert(spec_verbs()[7] == seq!['T', 'R', 'A', 'C', 'E']);
        } else {
            assert(spec_verbs()[8] == seq!['C', 'O', 'N', 'N', 'E', 'C', 'T']);
        }
    }
}

/// A found verb is an entry of the verb table.
pub proof fn lemma_verb_of_member(t: Seq<char>, i: int)
    requires
        verb_of_from(t, i) is Some,
    ensures
        exists|vi: int| 0 <= vi < 9 && verb_of_from(t, i)->0 == #[trigger] spec_verbs()[vi],
    decreases 9 - i,
{
    if 0 <= i < 9 {
        if has_verb(t, spec_verbs()[i]) {
            assert(verb_of_from(t, i)->0 == spec_verbs()[i]);
        } else {
            lemma_verb_of_member(t, i + 1);
        }
    }
}

/// On a line of the shape `verb ++ space ++ url` with a whitespace-free
/// URL, verb recognition finds exactly that verb.
pub proof fn lemma_verb_of_line(m: Seq<char>, url: Seq<char>)
    requires
        spec_verbs().contains(m),
        url.len() > 0,
        forall|k: int| 0 <= k < url.len() ==> !is_space_char(#[trigger] url[k]),
    ensures
        verb_of(m + seq![' '] + url) == Some(m),
{
    let t = m + seq![' '] + url;
    lemma_cat3_index(m, ' ', url);
    let vi = choose|vi: int| 0 <= vi < 9 && spec_verbs()[vi] == m;
    assert(t.take(m.len() as int) =~= m);
    assert(has_verb(t, m));
    if vi == 0 {
        assert(verb_of_from(t, 0) == Some(m));
    } else if vi == 1 {
        assert(t[0] == 'P');
        lemma_not_verb(t, spec_verbs()[0], 0);
        assert(verb_of_from(t, 1) == Some(m));
    } else if vi == 2 {
        assert(t[0] == 'P' && t[1] == 'U');
        lemma_not_verb(t, spec_verbs()[0], 0);
        lemma_not_verb(t, spec_verbs()[1], 1);
        assert(verb_of_from(t, 2) == Some(m));
    } else if vi == 3 {
        assert(t[0] == 'D');
        lemma_not_verb(t, spec_verbs()[0], 0);
        lemma_not_verb(t, spec_verbs()[1], 0);
        lemma_not_verb(t, spec_verbs()[2], 0);
        assert(verb_of_from(t, 3) == Some(m));
    } else if vi == 4 {
        assert(t[0] == 'P' && t[1] == 'A');
        lemma_not_verb(t, spec_verbs()[0], 0);
        lemma_not_verb(t, spec_verbs()[1], 1);
        lemma_not_verb(t, spec_verbs()[2], 1);
        lemma_not_verb(t, spec_verbs()[3], 0);
        assert(verb_of_from(t, 4) == Some(m));
    } else if vi == 5 {
        assert(t[0] == 'H');
        lemma_not_verb(t, spec_verbs()[0], 0);
        lemma_not_verb(t, spec_verbs()[1], 0);
        lemma_not_verb(t, spec_verbs()[2], 0);
        lemma_not_verb(t, spec_verbs()[3], 0);
        lemma_not_verb(t, spec_verbs()[4], 0);
        assert(verb_of_from(t, 5) == Some(m));
    } else if vi == 6 {
        assert(t[0] == 'O');
        lemma_not_verb(t, spec_verbs()[0], 0);
        lemma_not_verb(t, spec_verbs()[1], 0);
        lemma_not_verb(t, spec_verbs()[2], 0);
        lemma_not_verb(t, spec_verbs()[3], 0);
        lemma_not_verb(t, spec_verbs()[4], 0);
        lemma_not_verb(t, spec_verbs()[5], 0);
        assert(verb_of_from(t, 6) == Some(m));
    } else if vi == 7 {
        assert(t[0] == 'T');
        lemma_not_verb(t, spec_verbs()[0], 0);
        lemma_not_verb(t, spec_verbs()[1], 0);
        lemma_not_verb(t, spec_verbs()[2], 0);
        lemma_not_verb(t, spec_verbs()[3], 0);
        lemma_not_verb(t, spec_verbs()[4], 0);
        lemma_not_verb(t, spec_verbs()[5], 0);
        lemma_not_verb(t, spec_verbs()[6], 0);
        assert(verb_of_from(t, 7) == Some(m));
    } else {
        assert(t[0] == 'C');
        lemma_not_verb(t, spec_verbs()[0], 0);
        lemma_not_verb(t, spec_verbs()[1], 0);
        lemma_not_verb(t, spec_verbs()[2], 0);
        lemma_not_verb(t, spec_verbs()[3], 0);
        lemma_not_verb(t, spec_verbs()[4], 0);
        lemma_not_verb(t, spec_verbs()[5], 0);
        lemma_not_verb(t, spec_verbs()[6], 0);
        lemma_not_verb(t, spec_verbs()[7], 0);
        assert(verb_of_from(t, 8) == Some(m));
    }
}

/// A whole document without newlines is one logical line.
pub proof fn lemma_lines_single(a: Seq<char>)
    requires
        a.len() > 0,
        forall|k: int| 0 <= k < a.len() ==> #[trigger] a[k] != '\n',
    ensures
        lines_spec(a) == seq![strip_cr(a)],
{
    lemma_line_break_at(a, a.len() as int);
}

/// Splitting off the first line of a document built as line, newline, rest.
pub proof fn lemma_lines_cons(a: Seq<char>, rest: Seq<char>)
    requires
        forall|k: int| 0 <= k < a.len() ==> #[trigger] a[k] != '\n',
    ensures
        lines_spec(a + seq!['\n'] + rest) == seq![strip_cr(a)] + lines_spec(rest),
{
    let s = a + seq!['\n'] + rest;
    lemma_cat3_index(a, '\n', rest);
    lemma_line_break_at(s, a.len() as int);
    assert(s.take(a.len() as int) =~= a);
    assert(s.skip(a.len() as int + 1) =~= rest);
}

/// Classification facts for a line of the shape `verb ++ space ++ url`.
pub proof fn lemma_method_line_facts(m: Seq<char>, url: Seq<char>)
    requires
        spec_verbs().contains(m),
        url.len() > 0,
        forall|k: int| 0 <= k < url.len() ==> !is_space_char(#[trigger] url[k]),
    ensures
        ({
            let t = m + seq![' '] + url;
            &&& method_parts_of(t) == Some((m, url, Option::<Seq<char>>::None))
            &&& !is_script_open(t, '<')
            &&& !is_script_open(t, '>')
            &&& !is_sep_line(t)
            &&& metadata_kv_of(t) is None
            &&& !is_comment_line(t)
            &&& vardef_kv_of(t) is None
            &&& t.len() > 0
            &&& trim_spec(t) == t
            &&& strip_cr(t) == t
            &&& forall|k: int| 0 <= k < t.len() ==> #[trigger] t[k] != '\n'
            &&& !crate::detect::is_detect_script_line(t)
        }),
{
    let t = m + seq![' '] + url;
    lemma_cat3_index(m, ' ', url);
    lemma_verbs_chars();
    let vi = choose|vi: int| 0 <= vi < 9 && spec_verbs()[vi] == m;
    assert(m.len() >= 3) by {
        if vi == 0 {
        } else if vi == 1 {
        } else if vi == 2 {
        } else if vi == 3 {
        } else if vi == 4 {
        } else if vi == 5 {
        } else if vi == 6 {
        } else if vi == 7 {
        } else {
        }
    }
    assert(forall|k: int| 0 <= k < m.len() ==> 'A' <= #[trigger] m[k] <= 'Z');
    assert(t[0] == m[0]);
    assert(t[t.len() - 1] == url[url.len() - 1]);
    // The line is its own trimmed form.
    assert(!is_space_char(t[0]));
    assert(trim_start_spec(t) == t);
    assert(trim_end_spec(t) == t);
    // No newline and no trailing carriage return.
    assert forall|k: int| 0 <= k < t.len() implies #[trigger] t[k] != '\n' by {
        if k < m.len() {
            assert(t[k] == m[k]);
        } else if k == m.len() {
        } else {
            assert(t[k] == url[k - m.len() - 1]);
        }
    }
    // Verb recognition.
    lemma_verb_of_line(m, url);
    // The URL is the rest of the line, with no version split.
    let rest0 = t.skip(m.len() as int);
    assert forall|k: int| 0 <= k < rest0.len() implies #[trigger] rest0[k] == t[m.len() + k] by {}
    assert(rest0[0] == ' ');
    assert(rest0.len() > 1 && rest0[1] == url[0]);
    crate::classify::lemma_run_of_at(rest0, |c: char| is_space_char(c), 1);
    crate::classify::lemma_trim_start_run(rest0);
    assert(rest0.skip(1) =~= url);
    assert(trim_start_spec(rest0) == url);
    assert forall|p: int| 1 <= p < url.len() implies !is_version_suffix(url.skip(p)) by {
        let rp = url.skip(p);
        if space_run(rp) >= 1 {
            assert(rp[0] == url[p]);
        }
    }
    crate::classify::lemma_vsplit(url, 1, url.len() as int);
    assert(method_parts_of(t) == Some((m, url, Option::<Seq<char>>::None)));
}

/// Round trip of method and URL: a document consisting of one line
/// `METHOD URL`, with METHOD one of the nine known verbs and URL free of
/// whitespace, parses to exactly one request with that method and URL and
/// with no headers, no body, and no name.
pub proof fn law_single_method_line_round_trip(m: Seq<char>, url: Seq<char>)
    requires
        spec_verbs().contains(m),
        url.len() > 0,
        forall|k: int| 0 <= k < url.len() ==> !is_space_char(#[trigger] url[k]),
    ensures
        ({
            let doc = m + seq![' '] + url;
            let reqs = spec_parse_http_content(doc);
            &&& spec_detect(doc) == HttpFileFormat::JetBrains
            &&& reqs.len() == 1
            &&& reqs[0].method == m
            &&& reqs[0].url == url
            &&& reqs[0].headers.len() == 0
            &&& reqs[0].body is None
            &&& reqs[0].name is None
            &&& reqs[0].line_number == 1
        }),
{
    let doc = m + seq![' '] + url;
    lemma_method_line_facts(m, url);
    lemma_lines_single(doc);
    let ls = lines_spec(doc);
    assert(ls == seq![doc]);
    assert(ls[0] == doc);
    // Detection: no script-opener line and no variable-definition line.
    assert forall|i: int| 0 <= i < ls.len() implies !crate::detect::is_detect_script_line(
        #[trigger] trim_spec(ls[i]),
    ) by {
        assert(trim_spec(ls[i]) == doc);
    }
    assert forall|i: int| 0 <= i < ls.len() implies vardef_kv_of(#[trigger] trim_spec(ls[i]))
        is None by {
        assert(trim_spec(ls[i]) == doc);
    }
    assert(!has_script_line(ls));
    assert(!has_vardef_line(ls));
    assert(spec_detect(doc) == HttpFileFormat::JetBrains);
    // One step of the JetBrains machine: the method line.
    let st0 = jb_init();
    let r1 = ReqModel {
        method: m,
        url: url,
        http_version: None,
        ..fresh_req(1)
    };
    let st1 = JbState { cur: Some(r1), ..st0 };
    assert(jb_run(ls, 0, st0) == jb_run(ls, 1, st1)) by {
        assert(trim_spec(ls[0]) == doc);
        assert(method_parts_of(doc)->0 == (m, url, Option::<Seq<char>>::None));
        assert(ReqModel {
            method: m,
            url: url,
            http_version: match (method_parts_of(doc)->0).2 {
                Some(x) => Some(x),
                None => fresh_req(1).http_version,
            },
            ..fresh_req(1)
        } =~= r1);
    }
    assert(jb_run(ls, 1, st1) == st1);
    assert(finalize_done(st1) =~= seq![r1]);
    assert(jb_parse(ls)[0] =~= r1);
    assert(jb_parse(ls) =~= seq![r1]);
}

/// Classification facts for a plain `###` separator line.
proof fn lemma_plain_sep_facts()
    ensures
        ({
            let t = seq!['#', '#', '#'];
            &&& is_sep_line(t)
            &&& sep_name_of(t).len() == 0
            &&& !is_script_open(t, '<')
            &&& !is_script_open(t, '>')
            &&& vardef_kv_of(t) is None
            &&& trim_spec(t) == t
            &&& strip_cr(t) == t
            &&& forall|k: int| 0 <= k < t.len() ==> #[trigger] t[k] != '\n'
            &&& !crate::detect::is_detect_script_line(t)
        }),
{
    let t = seq!['#', '#', '#'];
    assert(trim_start_spec(t) == t);
    assert(trim_end_spec(t) == t);
    assert(t.skip(3) =~= Seq::<char>::empty());
    assert(trim_start_spec(t.skip(3)) == t.skip(3));
    assert(sep_name_of(t).len() == 0);
    assert forall|k: int| 0 <= k < t.len() implies #[trigger] t[k] != '\n' by {}
}

/// Separator isolation: a document of two `###`-delimited sections, each
/// holding one method line, parses to exactly two requests, in document
/// order.
pub proof fn law_separator_isolation(m1: Seq<char>, url1: Seq<char>, m2: Seq<char>, url2: Seq<char>)
    requires
        spec_verbs().contains(m1),
        spec_verbs().contains(m2),
        url1.len() > 0,
        url2.len() > 0,
        forall|k: int| 0 <= k < url1.len() ==> !is_space_char(#[trigger] url1[k]),
        forall|k: int| 0 <= k < url2.len() ==> !is_space_char(#[trigger] url2[k]),
    ensures
        ({
            let sep = seq!['#', '#', '#'];
            let nl = seq!['\n'];
            let l1 = m1 + seq![' '] + url1;
            let l2 = m2 + seq![' '] + url2;
            let doc = sep + nl + (l1 + nl + (sep + nl + l2));
            let reqs = spec_parse_http_content(doc);
            &&& reqs.len() == 2
            &&& reqs[0].method == m1
            &&& reqs[0].url == url1
            &&& reqs[1].method == m2
            &&& reqs[1].url == url2
            &&& reqs[0].line_number == 1
            &&& reqs[1].line_number == 3
        }),
{
    let sep = seq!['#', '#', '#'];
    let nl = seq!['\n'];
    let l1 = m1 + seq![' '] + url1;
    let l2 = m2 + seq![' '] + url2;
    let doc = sep + nl + (l1 + nl + (sep + nl + l2));
    lemma_plain_sep_facts();
    lemma_method_line_facts(m1, url1);
    lemma_method_line_facts(m2, url2);
    lemma_lines_cons(sep, l1 + nl + (sep + nl + l2));
    lemma_lines_cons(l1, sep + nl + l2);
    lemma_lines_cons(sep, l2);
    lemma_lines_single(l2);
    let ls = lines_spec(doc);
    assert(ls =~= seq![sep, l1, sep, l2]);
    assert(ls[0] == sep && ls[1] == l1 && ls[2] == sep && ls[3] == l2);
    // Detection.
    assert forall|i: int| 0 <= i < ls.len() implies !crate::detect::is_detect_script_line(
        #[trigger] trim_spec(ls[i]),
    ) by {
        if i == 0 || i == 2 {
            assert(trim_spec(ls[i]) == sep);
        } else if i == 1 {
            assert(trim_spec(ls[i]) == l1);
        } else {
            assert(trim_spec(ls[i]) == l2);
        }
    }
    assert forall|i: int| 0 <= i < ls.len() implies vardef_kv_of(#[trigger] trim_spec(ls[i]))
        is None by {
        if i == 0 || i == 2 {
            assert(trim_spec(ls[i]) == sep);
        } else if i == 1 {
            assert(trim_spec(ls[i]) == l1);
        } else {
            assert(trim_spec(ls[i]) == l2);
        }
    }
    assert(!has_script_line(ls));
    assert(!has_vardef_line(ls));
    assert(spec_detect(doc) == HttpFileFormat::JetBrains);
    // Four steps of the JetBrains machine.
    let st0 = jb_init();
    let st1 = JbState { cur: Some(fresh_req(1)), ..st0 };
    assert(jb_run(ls, 0, st0) == jb_run(ls, 1, st1)) by {
        assert(trim_spec(ls[0]) == sep);
        assert(crate::jetbrains::jb_step_sep(st0, sep, 1) =~= st1);
    }
    let r1 = ReqModel { method: m1, url: url1, http_version: None, ..fresh_req(1) };
    let st2 = JbState { cur: Some(r1), ..st1 };
    assert(jb_run(ls, 1, st1) == jb_run(ls, 2, st2)) by {
        assert(trim_spec(ls[1]) == l1);
        assert(method_parts_of(l1)->0 == (m1, url1, Option::<Seq<char>>::None));
        assert(ReqModel {
            method: m1,
            url: url1,
            http_version: match (method_parts_of(l1)->0).2 {
                Some(x) => Some(x),
                None => fresh_req(1).http_version,
            },
            ..fresh_req(1)
        } =~= r1);
    }
    let st3 = JbState { done: seq![r1], cur: Some(fresh_req(3)), ..st2 };
    assert(jb_run(ls, 2, st2) == jb_run(ls, 3, st3)) by {
        assert(trim_spec(ls[2]) == sep);
        assert(finalize_done(st2) =~= seq![r1]);
        assert(crate::jetbrains::jb_step_sep(st2, sep, 3) =~= st3);
    }
    let r2 = ReqModel { method: m2, url: url2, http_version: None, ..fresh_req(3) };
    let st4 = JbState { cur: Some(r2), ..st3 };
    assert(jb_run(ls, 3, st3) == jb_run(ls, 4, st4)) by {
        assert(trim_spec(ls[3]) == l2);
        assert(method_parts_of(l2)->0 == (m2, url2, Option::<Seq<char>>::None));
        assert(ReqModel {
            method: m2,
            url: url2,
            http_version: match (method_parts_of(l2)->0).2 {
                Some(x) => Some(x),
                None => fresh_req(3).http_version,
            },
            ..fresh_req(3)
        } =~= r2);
    }
    assert(jb_run(ls, 4, st4) == st4);
    assert(finalize_done(st4) =~= seq![r1, r2]);
    assert(jb_parse(ls)[0] =~= r1);
    assert(jb_parse(ls)[1] =~= r2);
}

/// Dropped incomplete request: a document holding only a header line and no
/// method or URL line parses to zero requests.
pub proof fn law_header_only_dropped(key: Seq<char>, value: Seq<char>)
    requires
        key.len() > 0,
        forall|k: int| 0 <= k < key.len() ==> is_key_char(#[trigger] key[k]),
        forall|k: int| 0 <= k < value.len() ==> #[trigger] value[k] != '\n' && value[k] != '\r',
    ensures
        ({
            let doc = key + seq![':'] + value;
            spec_parse_http_content(doc).len() == 0
        }),
{
    let doc = key + seq![':'] + value;
    lemma_cat3_index(key, ':', value);
    lemma_verbs_chars();
    assert forall|k: int| 0 <= k < doc.len() implies #[trigger] doc[k] != '\n' by {
        if k < key.len() {
            assert(doc[k] == key[k]);
        } else if k > key.len() {
            assert(doc[k] == value[k - key.len() - 1]);
        }
    }
    lemma_lines_single(doc);
    // The trimmed line keeps the key and colon and trims the value's tail.
    assert(!is_space_char(doc[0]));
    assert(trim_start_spec(doc) == doc);
    lemma_trim_end_concat(key + seq![':'], value);
    assert((key + seq![':']) + value =~= doc);
    let ve = trim_end_spec(value);
    let t = key + seq![':'] + ve;
    assert((key + seq![':']) + ve =~= t);
    assert(trim_spec(doc) == t);
    assert(strip_cr(doc) == doc) by {
        if value.len() == 0 {
            assert(doc[doc.len() - 1] == ':');
        } else {
            assert(doc[doc.len() - 1] == value[value.len() - 1]);
        }
    }
    lemma_cat3_index(key, ':', ve);
    // Classification of the trimmed line.
    assert(t[0] == key[0]);
    assert(!is_script_open(t, '<') && !is_script_open(t, '>'));
    assert(!is_sep_line(t));
    assert(metadata_kv_of(t) is None);
    assert(!is_comment_line(t));
    assert(vardef_kv_of(t) is None);
    assert(t.len() > 0);
    // Not a method line: any recognized verb would demand a whitespace
    // character or an upper-case letter where the line has none.
    assert(method_parts_of(t) is None) by {
        if method_parts_of(t) is Some {
            crate::classify::lemma_verb_of_has(t, 0);
            lemma_verb_of_member(t, 0);
            let v = verb_of(t)->0;
            let vi = choose|vi: int| 0 <= vi < 9 && verb_of_from(t, 0)->0 == spec_verbs()[vi];
            assert(has_verb(t, v));
            assert(t.take(v.len() as int)[v.len() - 1] == t[v.len() - 1]);
            if v.len() < key.len() {
                assert(t[v.len() as int] == key[v.len() as int]);
                assert(is_key_char(key[v.len() as int]));
                assert(is_space_char(t[v.len() as int]));
            } else if v.len() == key.len() {
                assert(t[v.len() as int] == ':');
                assert(is_space_char(t[v.len() as int]));
            } else {
                assert(t.take(v.len() as int)[key.len() as int] == t[key.len() as int]);
                assert(t.take(v.len() as int)[key.len() as int] == v[key.len() as int]);
                assert(t[key.len() as int] == ':');
                assert('A' <= v[key.len() as int] <= 'Z');
            }
        }
    }
    // The single step leaves a request with an empty URL, which is dropped.
    let ls = lines_spec(doc);
    assert(ls =~= seq![doc]);
    assert(ls[0] == doc);
    assert forall|i: int| 0 <= i < ls.len() implies !crate::detect::is_detect_script_line(
        #[trigger] trim_spec(ls[i]),
    ) by {
        assert(trim_spec(ls[i]) == t);
    }
    assert forall|i: int| 0 <= i < ls.len() implies vardef_kv_of(#[trigger] trim_spec(ls[i]))
        is None by {
        assert(trim_spec(ls[i]) == t);
    }
    assert(!has_script_line(ls));
    assert(!has_vardef_line(ls));
    assert(spec_detect(doc) == HttpFileFormat::JetBrains);
    // The line is a header: the key run reaches exactly the colon.
    assert(header_kv_of(t) is Some) by {
        assert forall|k: int| 0 <= k < key.len() implies is_key_char(#[trigger] t[k]) by {
            assert(t[k] == key[k]);
        }
        assert(t[key.len() as int] == ':');
        assert(!is_key_char(':'));
        crate::classify::lemma_run_of_at(t, |c: char| is_key_char(c), key.len() as int);
    }
    let st0 = jb_init();
    let kv = header_kv_of(t)->0;
    let r1 = ReqModel {
        headers: crate::strmap::assoc_insert(fresh_req(1).headers, kv.0, kv.1),
        ..fresh_req(1)
    };
    let st1 = JbState { cur: Some(r1), ..st0 };
    assert(jb_run(ls, 0, st0) == jb_run(ls, 1, st1)) by {
        assert(trim_spec(ls[0]) == t);
    }
    assert(jb_run(ls, 1, st1) == st1);
    assert(finalize_done(st1).len() == 0) by {
        assert(r1.url.len() == 0);
    }
    assert(jb_parse(ls).len() == 0);
}

/// Trimming from the right distributes over concatenation when the left
/// part ends in a non-whitespace character.
pub proof fn lemma_trim_end_concat(a: Seq<char>, b: Seq<char>)
    requires
        a.len() > 0,
        !is_space_char(a[a.len() - 1]),
    ensures
        trim_end_spec(a + b) == a + trim_end_spec(b),
    decreases b.len(),
{
    if b.len() == 0 {
        assert(a + b =~= a);
        assert(trim_end_spec(a) == a);
        assert(a + trim_end_spec(b) =~= a);
    } else if is_space_char(b[b.len() - 1]) {
        assert((a + b)[(a + b).len() - 1] == b[b.len() - 1]);
        assert((a + b).drop_last() =~= a + b.drop_last());
        lemma_trim_end_concat(a, b.drop_last());
    } else {
        assert((a + b)[(a + b).len() - 1] == b[b.len() - 1]);
        assert(trim_end_spec(a + b) == a + b);
        assert(trim_end_spec(b) == b);
    }
}

} // verus!
