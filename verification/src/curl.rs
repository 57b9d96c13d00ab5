//! Importer for cURL command lines: a quote-aware tokenizer, an option
//! walker that builds a structured command, and a renderer that writes the
//! command back out in the request-file grammar.

use crate::strmap::{assoc_has, assoc_insert, StrMap};
use crate::text::{
    chars_of, lines_spec, seq_views, split_lines, str_eq, string_of, subrange_chars, trim_spec,
    trimmed,
};
use crate::trusted::{b64_std_of, b64_standard, json_wf, lower_of, lowercase_str, parse_json_value,
    pretty_print_json, upper_of, uppercase_str, urlenc_of, urlencode_str};
use crate::types::opt_view;
use vstd::prelude::*;
use vstd::string::{StringExecFns, StrSliceExecFns};
use vstd::utf8::encode_utf8;

verus! {

/// Mathematical model of one structured cURL command.
#[verifier::ext_equal]
pub ghost struct CurlModel {
    pub method: Seq<char>,
    pub url: Seq<char>,
    pub headers: Seq<(Seq<char>, Seq<char>)>,
    pub body: Option<Seq<char>>,
    pub auth: Option<(Seq<char>, Seq<char>)>,
    pub flags: Seq<Seq<char>>,
}

/// One structured cURL command.
#[derive(Debug, Clone)]
pub struct CurlCommand {
    pub method: String,
    pub url: String,
    pub headers: StrMap,
    pub body: Option<String>,
    pub auth: Option<(String, String)>,
    pub flags: Vec<String>,
}

/// The views of a sequence of strings.
pub open spec fn strs_views(s: Seq<String>) -> Seq<Seq<char>> {
    s.map_values(|v: String| v@)
}

impl View for CurlCommand {
    type V = CurlModel;

    open spec fn view(&self) -> CurlModel {
        CurlModel {
            method: self.method@,
            url: self.url@,
            headers: self.headers@,
            body: opt_view(self.body),
            auth: match self.auth {
                Some(a) => Some((a.0@, a.1@)),
                None => None,
            },
            flags: strs_views(self.flags@),
        }
    }
}

/// The command before any option has been read: method `GET` and nothing
/// else.
pub open spec fn curl_init() -> CurlModel {
    CurlModel {
        method: "GET"@,
        url: Seq::empty(),
        headers: Seq::empty(),
        body: None,
        auth: None,
        flags: Seq::empty(),
    }
}

impl CurlCommand {
    /// The command's maps have distinct keys.
    pub open spec fn wf(&self) -> bool {
        self.headers.wf()
    }
}

impl Default for CurlCommand {
    /// A command with method `GET` and nothing else set.
    fn default() -> (r: CurlCommand)
        ensures
            r@ == curl_init(),
            r.wf(),
    {
        let r = CurlCommand {
            method: <String as StringExecFns>::from_str("GET"),
            url: String::new(),
            headers: StrMap::new(),
            body: None,
            auth: None,
            flags: Vec::new(),
        };
        proof {
            assert(strs_views(r.flags@) =~= Seq::<Seq<char>>::empty());
            assert(r@ =~= curl_init());
        }
        r
    }
}

/// Line continuations collapsed: a backslash followed by a line ending (or
/// anything else) becomes a single space.
pub open spec fn unslash(s: Seq<char>) -> Seq<char>
    decreases s.len(),
{
    if s.len() == 0 {
        Seq::empty()
    } else if s[0] == '\\' {
        if s.len() >= 3 && s[1] == '\r' && s[2] == '\n' {
            seq![' '] + unslash(s.skip(3))
        } else if s.len() >= 2 && s[1] == '\n' {
            seq![' '] + unslash(s.skip(2))
        } else {
            seq![' '] + unslash(s.skip(1))
        }
    } else {
        s.take(1) + unslash(s.skip(1))
    }
}

/// Lines joined with a single space between consecutive lines.
pub open spec fn join_sp(ls: Seq<Seq<char>>) -> Seq<char>
    decreases ls.len(),
{
    if ls.len() == 0 {
        Seq::empty()
    } else if ls.len() == 1 {
        ls[0]
    } else {
        ls[0] + seq![' '] + join_sp(ls.drop_first())
    }
}

pub proof fn lemma_join_sp_push_pub(ls: Seq<Seq<char>>, l: Seq<char>)
    ensures
        join_sp(ls.push(l)) == if ls.len() == 0 {
            l
        } else {
            join_sp(ls) + seq![' '] + l
        },
    decreases ls.len(),
{
    if ls.len() == 0 {
        assert(ls.push(l)[0] =~= l);
        assert(ls.push(l).len() == 1);
    } else if ls.len() == 1 {
        assert(ls.push(l).drop_first() =~= seq![l]);
        assert(join_sp(seq![l]) == l);
        assert(ls.push(l)[0] == ls[0]);
        assert(join_sp(ls.push(l)) == ls[0] + seq![' '] + l);
    } else {
        assert(ls.push(l).drop_first() =~= ls.drop_first().push(l));
        lemma_join_sp_push_pub(ls.drop_first(), l);
        assert(join_sp(ls) + seq![' '] + l =~= ls[0] + seq![' '] + (join_sp(ls.drop_first())
            + seq![' '] + l));
    }
}

/// A cURL invocation normalized to one logical line: continuations
/// collapsed, then every line trimmed, then the lines joined by spaces.
pub open spec fn spec_normalize(s: Seq<char>) -> Seq<char> {
    join_sp(lines_spec(unslash(s)).map_values(|l: Seq<char>| trim_spec(l)))
}

/// Normalizes a cURL invocation to one logical line.
pub fn normalize_curl_input(input: &str) -> (r: String)
    ensures
        r@ == spec_normalize(input@),
{
    let s = chars_of(input);
    let n = s.len();
    let mut u: Vec<char> = Vec::new();
    let mut i: usize = 0;
    proof {
        assert(s@.skip(0) =~= s@);
        assert(u@ + unslash(s@) =~= unslash(s@));
    }
    while i < n
        invariant
            i <= n,
            n == s@.len(),
            s@ == input@,
            unslash(input@) == u@ + unslash(s@.skip(i as int)),
        decreases n - i,
    {
        let ghost rest = s@.skip(i as int);
        let ghost u0 = u@;
        if s[i] == '\\' {
            u.push(' ');
            if n - i > 2 && s[i + 1] == '\r' && s[i + 2] == '\n' {
                proof {
                    assert(rest[1] == s@[i + 1] && rest[2] == s@[i + 2]);
                    assert(rest.skip(3) =~= s@.skip(i + 3));
                    assert(u0 + unslash(rest) =~= u@ + unslash(s@.skip(i + 3)));
                }
                i += 3;
            } else if i + 1 < n && s[i + 1] == '\n' {
                proof {
                    assert(rest[1] == s@[i + 1]);
                    if rest.len() >= 3 && rest[1] == '\r' && rest[2] == '\n' {
                        assert(false);
                    }
                    assert(rest.skip(2) =~= s@.skip(i + 2));
                    assert(u0 + unslash(rest) =~= u@ + unslash(s@.skip(i + 2)));
                }
                i += 2;
            } else {
                proof {
                    if rest.len() >= 3 && rest[1] == '\r' && rest[2] == '\n' {
                        assert(rest[1] == s@[i + 1] && rest[2] == s@[i + 2]);
                        assert(false);
                    }
                    if rest.len() >= 2 && rest[1] == '\n' {
                        assert(rest[1] == s@[i + 1]);
                        assert(false);
                    }
                    assert(rest.skip(1) =~= s@.skip(i + 1));
                    assert(u0 + unslash(rest) =~= u@ + unslash(s@.skip(i + 1)));
                }
                i += 1;
            }
        } else {
            u.push(s[i]);
            proof {
                assert(rest.take(1) =~= seq![s@[i as int]]);
                assert(rest.skip(1) =~= s@.skip(i + 1));
                assert(u0 + unslash(rest) =~= u@ + unslash(s@.skip(i + 1)));
            }
            i += 1;
        }
    }
    proof {
        assert(s@.skip(n as int) =~= Seq::<char>::empty());
        assert(u@ + unslash(s@.skip(n as int)) =~= u@);
    }
    let lines = split_lines(&u);
    let ghost ll = seq_views(lines@);
    let m = lines.len();
    let mut out: Vec<char> = Vec::new();
    let mut j: usize = 0;
    let ghost tls = ll.map_values(|l: Seq<char>| trim_spec(l));
    while j < m
        invariant
            j <= m,
            m == ll.len(),
            ll == seq_views(lines@),
            tls == ll.map_values(|l: Seq<char>| trim_spec(l)),
            out@ == join_sp(tls.take(j as int)),
        decreases m - j,
    {
        if j > 0 {
            out.push(' ');
        }
        let ghost before = tls.take(j as int);
        let t = trimmed(&lines[j]);
        proof {
            assert(ll[j as int] == lines@[j as int]@);
            assert(t@ == tls[j as int]);
        }
        crate::text::extend_chars(&mut out, &t);
        proof {
            assert(tls.take(j + 1) =~= before.push(tls[j as int]));
            lemma_join_sp_push_pub(before, tls[j as int]);
            if j > 0 {
                assert(out@ =~= join_sp(before) + seq![' '] + tls[j as int]);
            } else {
                assert(out@ =~= tls[j as int]);
            }
        }
        j += 1;
    }
    proof {
        assert(tls.take(m as int) =~= tls);
    }
    string_of(&out)
}

/// The tokenizer's running state: finished tokens, the token being built,
/// and the quoting state.
#[verifier::ext_equal]
pub ghost struct TokState {
    pub toks: Seq<Seq<char>>,
    pub cur: Seq<char>,
    pub in_q: bool,
    pub qc: char,
    pub esc: bool,
}

/// The tokenizer's state before any character has been read.
pub open spec fn tok_init() -> TokState {
    TokState { toks: Seq::empty(), cur: Seq::empty(), in_q: false, qc: ' ', esc: false }
}

/// One character of tokenization: backslash escapes inside quotes, quotes
/// toggle quoting, and unquoted spaces end the current token.
pub open spec fn tok_step(st: TokState, ch: char) -> TokState {
    if st.esc {
        TokState { cur: st.cur.push(ch), esc: false, ..st }
    } else if ch == '\\' && st.in_q {
        TokState { esc: true, ..st }
    } else if ch == '"' || ch == '\'' {
        if st.in_q && ch == st.qc {
            TokState { in_q: false, ..st }
        } else if !st.in_q {
            TokState { in_q: true, qc: ch, ..st }
        } else {
            TokState { cur: st.cur.push(ch), ..st }
        }
    } else if ch == ' ' && !st.in_q {
        if st.cur.len() > 0 {
            TokState { toks: st.toks.push(st.cur), cur: Seq::empty(), ..st }
        } else {
            st
        }
    } else {
        TokState { cur: st.cur.push(ch), ..st }
    }
}

/// Tokenization run over the characters of `s` from position `i`.
pub open spec fn tok_run(s: Seq<char>, i: int, st: TokState) -> TokState
    decreases s.len() - i,
{
    if i < 0 || i >= s.len() {
        st
    } else {
        tok_run(s, i + 1, tok_step(st, s[i]))
    }
}

/// The final tokenizer state of a whole input: a pending token is flushed.
pub open spec fn tok_final(s: Seq<char>) -> TokState {
    let st = tok_run(s, 0, tok_init());
    if st.cur.len() > 0 {
        TokState { toks: st.toks.push(st.cur), cur: Seq::empty(), ..st }
    } else {
        st
    }
}

/// Tokenization succeeds when no quote is left open.
pub open spec fn spec_tokenize_ok(s: Seq<char>) -> bool {
    !tok_final(s).in_q
}

/// The tokens of a whole input.
pub open spec fn spec_tokens(s: Seq<char>) -> Seq<Seq<char>> {
    tok_final(s).toks
}

/// Splits a command line into tokens, honoring single and double quotes
/// and backslash escapes inside quotes.  Fails exactly when a quote is
/// left unclosed.
pub fn tokenize(input: &str) -> (r: Result<Vec<String>, String>)
    ensures
        match r {
            Ok(toks) => spec_tokenize_ok(input@) && strs_views(toks@) == spec_tokens(input@),
            Err(e) => !spec_tokenize_ok(input@) && e@ == "Unclosed quote in cURL command"@,
        },
{
    let s = chars_of(input);
    let n = s.len();
    let mut toks: Vec<String> = Vec::new();
    let mut cur: Vec<char> = Vec::new();
    let mut in_q = false;
    let mut qc: char = ' ';
    let mut esc = false;
    let mut i: usize = 0;
    proof {
        assert(TokState { toks: strs_views(toks@), cur: cur@, in_q, qc, esc } =~= tok_init());
    }
    while i < n
        invariant
            i <= n,
            n == s@.len(),
            s@ == input@,
            tok_run(input@, 0, tok_init()) == tok_run(
                input@,
                i as int,
                TokState { toks: strs_views(toks@), cur: cur@, in_q, qc, esc },
            ),
        decreases n - i,
    {
        let ghost sv = TokState { toks: strs_views(toks@), cur: cur@, in_q, qc, esc };
        let ch = s[i];
        if esc {
            cur.push(ch);
            esc = false;
        } else if ch == '\\' && in_q {
            esc = true;
        } else if ch == '"' || ch == '\'' {
            if in_q && ch == qc {
                in_q = false;
            } else if !in_q {
                in_q = true;
                qc = ch;
            } else {
                cur.push(ch);
            }
        } else if ch == ' ' && !in_q {
            if cur.len() > 0 {
                let ghost t0 = strs_views(toks@);
                let tok = string_of(&cur);
                toks.push(tok);
                cur = Vec::new();
                proof {
                    assert(strs_views(toks@) =~= t0.push(sv.cur));
                }
            }
        } else {
            cur.push(ch);
        }
        proof {
            let sv2 = TokState { toks: strs_views(toks@), cur: cur@, in_q, qc, esc };
            assert(sv2 =~= tok_step(sv, input@[i as int]));
        }
        i += 1;
    }
    proof {
        assert(tok_run(input@, n as int, TokState { toks: strs_views(toks@), cur: cur@, in_q, qc, esc })
            =~= TokState { toks: strs_views(toks@), cur: cur@, in_q, qc, esc });
    }
    if cur.len() > 0 {
        let ghost t0 = strs_views(toks@);
        let tok = string_of(&cur);
        toks.push(tok);
        proof {
            assert(strs_views(toks@) =~= t0.push(cur@));
        }
    }
    proof {
        assert(strs_views(toks@) == tok_final(input@).toks);
        assert(in_q == tok_final(input@).in_q);
    }
    if in_q {
        let msg: String = <String as StringExecFns>::from_str("Unclosed quote in cURL command");
        return Err(msg);
    }
    Ok(toks)
}

/// Index of the first `:` in `s`, or `s.len()` if there is none.
pub open spec fn colon_idx(s: Seq<char>) -> int
    decreases s.len(),
{
    if s.len() == 0 {
        0
    } else if s[0] == ':' {
        0
    } else {
        1 + colon_idx(s.drop_first())
    }
}

proof fn lemma_colon_idx_at(s: Seq<char>, m: int)
    requires
        0 <= m <= s.len(),
        forall|j: int| 0 <= j < m ==> s[j] != ':',
        m < s.len() ==> s[m] == ':',
    ensures
        colon_idx(s) == m,
    decreases s.len(),
{
    if s.len() > 0 && s[0] != ':' {
        assert(forall|j: int| 0 <= j < m - 1 ==> s.drop_first()[j] == s[j + 1]);
        lemma_colon_idx_at(s.drop_first(), m - 1);
    }
}

/// The first colon of `v`, executably.
fn find_colon(v: &Vec<char>) -> (r: usize)
    ensures
        r == colon_idx(v@),
        r <= v@.len(),
{
    let n = v.len();
    let mut j: usize = 0;
    while j < n && v[j] != ':'
        invariant
            j <= n,
            n == v@.len(),
            forall|k: int| 0 <= k < j ==> v@[k] != ':',
        decreases n - j,
    {
        j += 1;
    }
    proof {
        lemma_colon_idx_at(v@, j as int);
    }
    j
}

/// The key and value a header argument splits into: the text before the
/// first colon and the text after it, both trimmed; no colon, no header.
pub open spec fn header_split(h: Seq<char>) -> Option<(Seq<char>, Seq<char>)> {
    let i = colon_idx(h);
    if i < h.len() {
        Some((trim_spec(h.take(i)), trim_spec(h.skip(i + 1))))
    } else {
        None
    }
}

/// Splits a header argument like `Content-Type: application/json` into a
/// trimmed key and value at its first colon.
pub fn parse_header(header: &str) -> (r: Option<(String, String)>)
    ensures
        match r {
            Some(kv) => header_split(header@) == Some((kv.0@, kv.1@)),
            None => header_split(header@) is None,
        },
{
    let h = chars_of(header);
    let i = find_colon(&h);
    if i < h.len() {
        let rawk = subrange_chars(&h, 0, i);
        let rawv = subrange_chars(&h, i + 1, h.len());
        let k = trimmed(&rawk);
        let v = trimmed(&rawv);
        proof {
            assert(rawk@ =~= h@.take(i as int));
            assert(rawv@ =~= h@.skip(i as int + 1));
        }
        Some((string_of(&k), string_of(&v)))
    } else {
        None
    }
}

/// A token that looks like an absolute HTTP or HTTPS URL.
pub open spec fn is_http_token(t: Seq<char>) -> bool {
    ||| (t.len() >= 7 && t.take(7) == "http://"@)
    ||| (t.len() >= 8 && t.take(8) == "https://"@)
}

/// `POST` when the method is still the default `GET`, else the method.
pub open spec fn posted(m: Seq<char>) -> Seq<char> {
    if m == "GET"@ {
        "POST"@
    } else {
        m
    }
}

/// One walk of the token list from position `i`, mirroring cURL's option
/// handling: each recognized option updates the command and consumes its
/// argument; an unrecognized bare word becomes the URL when none is set.
pub open spec fn curl_run(toks: Seq<Seq<char>>, i: int, c: CurlModel) -> CurlModel
    decreases 1 + toks.len() - i,
{
    if i < 0 || i >= toks.len() {
        c
    } else {
        let t = toks[i];
        if t == "-X"@ || t == "--request"@ {
            let c2 = if i + 1 < toks.len() {
                CurlModel { method: upper_of(toks[i + 1]), ..c }
            } else {
                c
            };
            curl_run(toks, i + 2, c2)
        } else if t == "-H"@ || t == "--header"@ {
            let c2 = if i + 1 < toks.len() {
                match header_split(toks[i + 1]) {
                    Some(kv) => CurlModel {
                        headers: assoc_insert(c.headers, kv.0, kv.1),
                        ..c
                    },
                    None => c,
                }
            } else {
                c
            };
            curl_run(toks, i + 2, c2)
        } else if t == "-d"@ || t == "--data"@ || t == "--data-raw"@ {
            let c2 = if i + 1 < toks.len() {
                CurlModel { body: Some(toks[i + 1]), method: posted(c.method), ..c }
            } else {
                c
            };
            curl_run(toks, i + 2, c2)
        } else if t == "--data-binary"@ {
            let c2 = if i + 1 < toks.len() {
                let d = toks[i + 1];
                let b = if d.len() >= 1 && d[0] == '@' {
                    "< "@ + d.skip(1)
                } else {
                    d
                };
                CurlModel { body: Some(b), method: posted(c.method), ..c }
            } else {
                c
            };
            curl_run(toks, i + 2, c2)
        } else if t == "--data-urlencode"@ {
            let c2 = if i + 1 < toks.len() {
                let enc = urlenc_of(toks[i + 1]);
                let b = match c.body {
                    Some(b0) => b0 + "&"@ + enc,
                    None => enc,
                };
                CurlModel { body: Some(b), method: posted(c.method), ..c }
            } else {
                c
            };
            curl_run(toks, i + 2, c2)
        } else if t == "-u"@ || t == "--user"@ {
            let c2 = if i + 1 < toks.len() {
                let a = toks[i + 1];
                let p = colon_idx(a);
                let auth = if p < a.len() {
                    (a.take(p), a.skip(p + 1))
                } else {
                    (a, Seq::empty())
                };
                CurlModel { auth: Some(auth), ..c }
            } else {
                c
            };
            curl_run(toks, i + 2, c2)
        } else if t == "-A"@ || t == "--user-agent"@ {
            let c2 = if i + 1 < toks.len() {
                CurlModel { headers: assoc_insert(c.headers, "User-Agent"@, toks[i + 1]), ..c }
            } else {
                c
            };
            curl_run(toks, i + 2, c2)
        } else if t == "-b"@ || t == "--cookie"@ {
            let c2 = if i + 1 < toks.len() {
                CurlModel { headers: assoc_insert(c.headers, "Cookie"@, toks[i + 1]), ..c }
            } else {
                c
            };
            curl_run(toks, i + 2, c2)
        } else if t == "-e"@ || t == "--referer"@ {
            let c2 = if i + 1 < toks.len() {
                CurlModel { headers: assoc_insert(c.headers, "Referer"@, toks[i + 1]), ..c }
            } else {
                c
            };
            curl_run(toks, i + 2, c2)
        } else if t == "-L"@ || t == "--location"@ {
            curl_run(toks, i + 1, CurlModel { flags: c.flags.push("follow-redirects"@), ..c })
        } else if t == "-k"@ || t == "--insecure"@ {
            curl_run(toks, i + 1, CurlModel { flags: c.flags.push("insecure"@), ..c })
        } else if t == "--compressed"@ {
            let h = if assoc_has(c.headers, "Accept-Encoding"@) {
                c.headers
            } else {
                assoc_insert(c.headers, "Accept-Encoding"@, "gzip, deflate"@)
            };
            curl_run(
                toks,
                i + 1,
                CurlModel { flags: c.flags.push("compressed"@), headers: h, ..c },
            )
        } else if t == "-v"@ || t == "--verbose"@ || t == "-s"@ || t == "--silent"@ || t
            == "curl"@ {
            curl_run(toks, i + 1, c)
        } else if t == "-o"@ || t == "--output"@ {
            curl_run(toks, i + 2, c)
        } else if !(t.len() >= 1 && t[0] == '-') && c.url.len() == 0 {
            curl_run(toks, i + 1, CurlModel { url: t, ..c })
        } else if is_http_token(t) {
            curl_run(toks, i + 1, CurlModel { url: t, ..c })
        } else {
            curl_run(toks, i + 1, c)
        }
    }
}

/// The command a normalized and tokenized cURL invocation denotes.
pub open spec fn spec_curl_of(norm: Seq<char>) -> CurlModel {
    curl_run(spec_tokens(norm), 0, curl_init())
}

/// Whether the token equals the given option literal, executably.
fn tok_is(t: &String, lit: &str) -> (r: bool)
    ensures
        r == (t@ == lit@),
{
    str_eq(t.as_str(), lit)
}

/// Parses a cURL command line into its structured form.  Fails exactly on
/// an unclosed quote, an empty command, or a command without a URL, each
/// with its own message.
#[verifier::rlimit(100)]
pub fn parse_curl(input: &str) -> (r: Result<CurlCommand, String>)
    ensures
        ({
            let norm = spec_normalize(input@);
            match r {
                Ok(cmd) => {
                    &&& spec_tokenize_ok(norm)
                    &&& spec_tokens(norm).len() > 0
                    &&& cmd@ == spec_curl_of(norm)
                    &&& cmd@.url.len() > 0
                    &&& cmd.wf()
                },
                Err(e) => {
                    ||| (!spec_tokenize_ok(norm) && e@ == "Unclosed quote in cURL command"@)
                    ||| (spec_tokenize_ok(norm) && spec_tokens(norm).len() == 0 && e@
                        == "Empty cURL command"@)
                    ||| (spec_tokenize_ok(norm) && spec_tokens(norm).len() > 0 && spec_curl_of(
                        norm,
                    ).url.len() == 0 && e@ == "No URL found in cURL command"@)
                },
            }
        }),
{
    let normalized = normalize_curl_input(input);
    let ghost norm = spec_normalize(input@);
    let tokens = match tokenize(normalized.as_str()) {
        Ok(t) => t,
        Err(e) => {
            return Err(e);
        },
    };
    let ghost tks = spec_tokens(norm);
    if tokens.len() == 0 {
        let msg: String = <String as StringExecFns>::from_str("Empty cURL command");
        return Err(msg);
    }
    let mut cmd = CurlCommand::default();
    let n = tokens.len();
    let mut i: usize = 0;
    while i < n
        invariant
            i <= n,
            n == tks.len(),
            strs_views(tokens@) == tks,
            cmd.wf(),
            curl_run(tks, 0, curl_init()) == curl_run(tks, i as int, cmd@),
        decreases n - i,
    {
        let ghost c0 = cmd@;
        proof {
            assert(tks[i as int] == tokens@[i as int]@);
        }
        if tok_is(&tokens[i], "-X") || tok_is(&tokens[i], "--request") {
            if i + 1 < n {
                proof {
                    assert(tks[i as int + 1] == tokens@[i as int + 1]@);
                }
                cmd.method = uppercase_str(tokens[i + 1].as_str());
                proof {
                    assert(cmd@ =~= (if i + 1 < tks.len() {
                        CurlModel { method: upper_of(tks[i as int + 1]), ..c0 }
                    } else {
                        c0
                    }));
                }
                i += 2;
            } else {
                proof {
                    assert(curl_run(tks, i + 2, cmd@) == cmd@);
                    assert(curl_run(tks, n as int, cmd@) == cmd@);
                }
                i = n;
            }
        } else if tok_is(&tokens[i], "-H") || tok_is(&tokens[i], "--header") {
            if i + 1 < n {
                proof {
                    assert(tks[i as int + 1] == tokens@[i as int + 1]@);
                }
                if let Some((k, v)) = parse_header(tokens[i + 1].as_str()) {
                    cmd.headers.insert(k, v);
                }
                proof {
                    assert(cmd@ =~= (if i + 1 < tks.len() {
                        match header_split(tks[i as int + 1]) {
                            Some(kv) => CurlModel {
                                headers: assoc_insert(c0.headers, kv.0, kv.1),
                                ..c0
                            },
                            None => c0,
                        }
                    } else {
                        c0
                    }));
                }
                i += 2;
            } else {
                proof {
                    assert(curl_run(tks, i + 2, cmd@) == cmd@);
                    assert(curl_run(tks, n as int, cmd@) == cmd@);
                }
                i = n;
            }
        } else if tok_is(&tokens[i], "-d") || tok_is(&tokens[i], "--data") || tok_is(
            &tokens[i],
            "--data-raw",
        ) {
            if i + 1 < n {
                proof {
                    assert(tks[i as int + 1] == tokens@[i as int + 1]@);
                }
                cmd.body = Some(tokens[i + 1].clone());
                if str_eq(cmd.method.as_str(), "GET") {
                    cmd.method = <String as StringExecFns>::from_str("POST");
                }
                proof {
                    assert(cmd@ =~= (if i + 1 < tks.len() {
                        CurlModel { body: Some(tks[i as int + 1]), method: posted(c0.method), ..c0 }
                    } else {
                        c0
                    }));
                }
                i += 2;
            } else {
                proof {
                    assert(curl_run(tks, i + 2, cmd@) == cmd@);
                    assert(curl_run(tks, n as int, cmd@) == cmd@);
                }
                i = n;
            }
        } else if tok_is(&tokens[i], "--data-binary") {
            if i + 1 < n {
                proof {
                    assert(tks[i as int + 1] == tokens@[i as int + 1]@);
                }
                let d = &tokens[i + 1];
                let dn = d.as_str().unicode_len();
                if dn >= 1 && d.as_str().get_char(0) == '@' {
                    let mut b: String = <String as StringExecFns>::from_str("< ");
                    let path = d.as_str().substring_char(1, dn);
                    b.append(path);
                    proof {
                        assert(b@ =~= "< "@ + d@.skip(1));
                    }
                    cmd.body = Some(b);
                } else {
                    cmd.body = Some(d.clone());
                }
                if str_eq(cmd.method.as_str(), "GET") {
                    cmd.method = <String as StringExecFns>::from_str("POST");
                }
                proof {
                    assert(cmd@ =~= (if i + 1 < tks.len() {
                        let d = tks[i as int + 1];
                        let b = if d.len() >= 1 && d[0] == '@' {
                            "< "@ + d.skip(1)
                        } else {
                            d
                        };
                        CurlModel { body: Some(b), method: posted(c0.method), ..c0 }
                    } else {
                        c0
                    }));
                }
                i += 2;
            } else {
                proof {
                    assert(curl_run(tks, i + 2, cmd@) == cmd@);
                    assert(curl_run(tks, n as int, cmd@) == cmd@);
                }
                i = n;
            }
        } else if tok_is(&tokens[i], "--data-urlencode") {
            if i + 1 < n {
                proof {
                    assert(tks[i as int + 1] == tokens@[i as int + 1]@);
                }
                let enc = urlencode_str(tokens[i + 1].as_str());
                match &cmd.body {
                    Some(b0) => {
                        let mut b = b0.clone();
                        b.append("&");
                        b.append(enc.as_str());
                        proof {
                            assert(b@ =~= c0.body->0 + "&"@ + urlenc_of(tks[i as int + 1]));
                        }
                        cmd.body = Some(b);
                    },
                    None => {
                        cmd.body = Some(enc);
                    },
                }
                if str_eq(cmd.method.as_str(), "GET") {
                    cmd.method = <String as StringExecFns>::from_str("POST");
                }
                proof {
                    assert(cmd@ =~= (if i + 1 < tks.len() {
                        let enc = urlenc_of(tks[i as int + 1]);
                        let b = match c0.body {
                            Some(b0) => b0 + "&"@ + enc,
                            None => enc,
                        };
                        CurlModel { body: Some(b), method: posted(c0.method), ..c0 }
                    } else {
                        c0
                    }));
                }
                i += 2;
            } else {
                proof {
                    assert(curl_run(tks, i + 2, cmd@) == cmd@);
                    assert(curl_run(tks, n as int, cmd@) == cmd@);
                }
                i = n;
            }
        } else if tok_is(&tokens[i], "-u") || tok_is(&tokens[i], "--user") {
            if i + 1 < n {
                proof {
                    assert(tks[i as int + 1] == tokens@[i as int + 1]@);
                }
                let a = chars_of(tokens[i + 1].as_str());
                let p = find_colon(&a);
                if p < a.len() {
                    let user = subrange_chars(&a, 0, p);
                    let pass = subrange_chars(&a, p + 1, a.len());
                    proof {
                        assert(user@ =~= a@.take(p as int));
                        assert(pass@ =~= a@.skip(p as int + 1));
                    }
                    cmd.auth = Some((string_of(&user), string_of(&pass)));
                } else {
                    cmd.auth = Some((tokens[i + 1].clone(), String::new()));
                }
                proof {
                    assert(cmd@ =~= (if i + 1 < tks.len() {
                        let a = tks[i as int + 1];
                        let p = colon_idx(a);
                        let auth = if p < a.len() {
                            (a.take(p), a.skip(p + 1))
                        } else {
                            (a, Seq::<char>::empty())
                        };
                        CurlModel { auth: Some(auth), ..c0 }
                    } else {
                        c0
                    }));
                }
                i += 2;
            } else {
                proof {
                    assert(curl_run(tks, i + 2, cmd@) == cmd@);
                    assert(curl_run(tks, n as int, cmd@) == cmd@);
                }
                i = n;
            }
        } else if tok_is(&tokens[i], "-A") || tok_is(&tokens[i], "--user-agent") {
            if i + 1 < n {
                proof {
                    assert(tks[i as int + 1] == tokens@[i as int + 1]@);
                }
                let k: String = <String as StringExecFns>::from_str("User-Agent");
                cmd.headers.insert(k, tokens[i + 1].clone());
                proof {
                    assert(cmd@ =~= (if i + 1 < tks.len() {
                        CurlModel {
                            headers: assoc_insert(c0.headers, "User-Agent"@, tks[i as int + 1]),
                            ..c0
                        }
                    } else {
                        c0
                    }));
                }
                i += 2;
            } else {
                proof {
                    assert(curl_run(tks, i + 2, cmd@) == cmd@);
                    assert(curl_run(tks, n as int, cmd@) == cmd@);
                }
                i = n;
            }
        } else if tok_is(&tokens[i], "-b") || tok_is(&tokens[i], "--cookie") {
            if i + 1 < n {
                proof {
                    assert(tks[i as int + 1] == tokens@[i as int + 1]@);
                }
                let k: String = <String as StringExecFns>::from_str("Cookie");
                cmd.headers.insert(k, tokens[i + 1].clone());
                proof {
                    assert(cmd@ =~= (if i + 1 < tks.len() {
                        CurlModel {
                            headers: assoc_insert(c0.headers, "Cookie"@, tks[i as int + 1]),
                            ..c0
                        }
                    } else {
                        c0
                    }));
                }
                i += 2;
            } else {
                proof {
                    assert(curl_run(tks, i + 2, cmd@) == cmd@);
                    assert(curl_run(tks, n as int, cmd@) == cmd@);
                }
                i = n;
            }
        } else if tok_is(&tokens[i], "-e") || tok_is(&tokens[i], "--referer") {
            if i + 1 < n {
                proof {
                    assert(tks[i as int + 1] == tokens@[i as int + 1]@);
                }
                let k: String = <String as StringExecFns>::from_str("Referer");
                cmd.headers.insert(k, tokens[i + 1].clone());
                proof {
                    assert(cmd@ =~= (if i + 1 < tks.len() {
                        CurlModel {
                            headers: assoc_insert(c0.headers, "Referer"@, tks[i as int + 1]),
                            ..c0
                        }
                    } else {
                        c0
                    }));
                }
                i += 2;
            } else {
                proof {
                    assert(curl_run(tks, i + 2, cmd@) == cmd@);
                    assert(curl_run(tks, n as int, cmd@) == cmd@);
                }
                i = n;
            }
        } else if tok_is(&tokens[i], "-L") || tok_is(&tokens[i], "--location") {
            let f: String = <String as StringExecFns>::from_str("follow-redirects");
            let ghost f0 = strs_views(cmd.flags@);
            cmd.flags.push(f);
            proof {
                assert(strs_views(cmd.flags@) =~= f0.push("follow-redirects"@));
                assert(cmd@ =~= CurlModel { flags: c0.flags.push("follow-redirects"@), ..c0 });
            }
            i += 1;
        } else if tok_is(&tokens[i], "-k") || tok_is(&tokens[i], "--insecure") {
            let f: String = <String as StringExecFns>::from_str("insecure");
            let ghost f0 = strs_views(cmd.flags@);
            cmd.flags.push(f);
            proof {
                assert(strs_views(cmd.flags@) =~= f0.push("insecure"@));
                assert(cmd@ =~= CurlModel { flags: c0.flags.push("insecure"@), ..c0 });
            }
            i += 1;
        } else if tok_is(&tokens[i], "--compressed") {
            let f: String = <String as StringExecFns>::from_str("compressed");
            let ghost f0 = strs_views(cmd.flags@);
            cmd.flags.push(f);
            proof {
                assert(strs_views(cmd.flags@) =~= f0.push("compressed"@));
            }
            if !cmd.headers.contains_key("Accept-Encoding") {
                let k: String = <String as StringExecFns>::from_str("Accept-Encoding");
                let v: String = <String as StringExecFns>::from_str("gzip, deflate");
                cmd.headers.insert(k, v);
            }
            proof {
                let h = if assoc_has(c0.headers, "Accept-Encoding"@) {
                    c0.headers
                } else {
                    assoc_insert(c0.headers, "Accept-Encoding"@, "gzip, deflate"@)
                };
                assert(cmd@ =~= CurlModel {
                    flags: c0.flags.push("compressed"@),
                    headers: h,
                    ..c0
                });
            }
            i += 1;
        } else if tok_is(&tokens[i], "-v") || tok_is(&tokens[i], "--verbose") || tok_is(
            &tokens[i],
            "-s",
        ) || tok_is(&tokens[i], "--silent") || tok_is(&tokens[i], "curl") {
            i += 1;
        } else if tok_is(&tokens[i], "-o") || tok_is(&tokens[i], "--output") {
            if i + 1 < n {
                i += 2;
            } else {
                proof {
                    assert(curl_run(tks, i + 2, cmd@) == cmd@);
                    assert(curl_run(tks, n as int, cmd@) == cmd@);
                }
                i = n;
            }
        } else {
            let t = &tokens[i];
            let tn = t.as_str().unicode_len();
            let dash = tn >= 1 && t.as_str().get_char(0) == '-';
            if !dash && cmd.url.as_str().is_empty() {
                cmd.url = t.clone();
                proof {
                    assert(cmd@ =~= CurlModel { url: tks[i as int], ..c0 });
                }
            } else {
                let tv = chars_of(t.as_str());
                let http7 = chars_of("http://");
                let https8 = chars_of("https://");
                proof {
                    reveal_strlit("http://");
                    reveal_strlit("https://");
                }
                let is_http = crate::classify::starts_with_chars(&tv, &http7) || crate::classify::starts_with_chars(
                    &tv,
                    &https8,
                );
                if is_http {
                    cmd.url = t.clone();
                    proof {
                        assert(cmd@ =~= CurlModel { url: tks[i as int], ..c0 });
                    }
                } else {
                    proof {
                        assert(!is_http_token(tks[i as int]));
                    }
                }
            }
            i += 1;
        }
    }
    proof {
        assert(curl_run(tks, i as int, cmd@) == cmd@);
        assert(cmd@ == spec_curl_of(norm));
    }
    if cmd.url.as_str().is_empty() {
        let msg: String = <String as StringExecFns>::from_str("No URL found in cURL command");
        return Err(msg);
    }
    Ok(cmd)
}

/// Lexicographic order on byte strings: `a` comes at or before `b`.
pub open spec fn bytes_le(a: Seq<u8>, b: Seq<u8>) -> bool
    decreases a.len(),
{
    if a.len() == 0 {
        true
    } else if b.len() == 0 {
        false
    } else if a[0] < b[0] {
        true
    } else if a[0] > b[0] {
        false
    } else {
        bytes_le(a.drop_first(), b.drop_first())
    }
}

/// Executable lexicographic comparison.
fn bytes_le_exec(a: &Vec<u8>, b: &Vec<u8>) -> (r: bool)
    ensures
        r == bytes_le(a@, b@),
{
    let na = a.len();
    let nb = b.len();
    let mut i: usize = 0;
    proof {
        assert(a@.skip(0) =~= a@);
        assert(b@.skip(0) =~= b@);
    }
    while i < na && i < nb && a[i] == b[i]
        invariant
            i <= na,
            i <= nb,
            na == a@.len(),
            nb == b@.len(),
            bytes_le(a@, b@) == bytes_le(a@.skip(i as int), b@.skip(i as int)),
        decreases na - i,
    {
        proof {
            assert(a@.skip(i as int).drop_first() =~= a@.skip(i + 1));
            assert(b@.skip(i as int).drop_first() =~= b@.skip(i + 1));
        }
        i += 1;
    }
    if i == na {
        true
    } else if i == nb {
        false
    } else {
        a[i] < b[i]
    }
}

/// A header with its sort key: the UTF-8 bytes of the lower-cased name.
pub open spec fn hitem_views(s: Seq<(Vec<u8>, String, String)>) -> Seq<(Seq<u8>, Seq<char>, Seq<char>)> {
    s.map_values(|p: (Vec<u8>, String, String)| (p.0@, p.1@, p.2@))
}

/// Stable ordered insertion: the new item goes after every item whose key
/// is at or before its own.
pub open spec fn insert_by_key(
    s: Seq<(Seq<u8>, Seq<char>, Seq<char>)>,
    x: (Seq<u8>, Seq<char>, Seq<char>),
) -> Seq<(Seq<u8>, Seq<char>, Seq<char>)>
    decreases s.len(),
{
    if s.len() == 0 {
        seq![x]
    } else if bytes_le(s[0].0, x.0) {
        seq![s[0]] + insert_by_key(s.drop_first(), x)
    } else {
        seq![x] + s
    }
}

proof fn lemma_insert_by_key_at(
    s: Seq<(Seq<u8>, Seq<char>, Seq<char>)>,
    x: (Seq<u8>, Seq<char>, Seq<char>),
    p: int,
)
    requires
        0 <= p <= s.len(),
        forall|j: int| 0 <= j < p ==> bytes_le((#[trigger] s[j]).0, x.0),
        p < s.len() ==> !bytes_le(s[p].0, x.0),
    ensures
        insert_by_key(s, x) == s.take(p) + seq![x] + s.skip(p),
    decreases s.len(),
{
    if s.len() == 0 {
        assert(insert_by_key(s, x) =~= s.take(p) + seq![x] + s.skip(p));
    } else if p == 0 {
        assert(insert_by_key(s, x) =~= s.take(0) + seq![x] + s.skip(0));
    } else {
        assert(bytes_le(s[0].0, x.0));
        assert(forall|j: int| 0 <= j < p - 1 ==> s.drop_first()[j] == s[j + 1]);
        lemma_insert_by_key_at(s.drop_first(), x, p - 1);
        assert(seq![s[0]] + (s.drop_first().take(p - 1) + seq![x] + s.drop_first().skip(p - 1))
            =~= s.take(p) + seq![x] + s.skip(p));
    }
}

/// The headers sorted by lower-cased name, folding an ordered insertion
/// over the header table in order.
pub open spec fn sort_fold(
    h: Seq<(Seq<char>, Seq<char>)>,
    i: int,
    acc: Seq<(Seq<u8>, Seq<char>, Seq<char>)>,
) -> Seq<(Seq<u8>, Seq<char>, Seq<char>)>
    decreases h.len() - i,
{
    if i < 0 || i >= h.len() {
        acc
    } else {
        sort_fold(h, i + 1, insert_by_key(acc, (encode_utf8(lower_of(h[i].0)), h[i].0, h[i].1)))
    }
}

/// The headers of a command in output order.
pub open spec fn spec_sorted_headers(h: Seq<(Seq<char>, Seq<char>)>) -> Seq<(Seq<u8>, Seq<char>, Seq<char>)> {
    sort_fold(h, 0, Seq::empty())
}

/// Sorts the headers by lower-cased name, keeping the table's order among
/// equal names.
fn sorted_header_items(h: &StrMap) -> (r: Vec<(Vec<u8>, String, String)>)
    ensures
        hitem_views(r@) == spec_sorted_headers(h@),
{
    let n = h.len();
    let mut out: Vec<(Vec<u8>, String, String)> = Vec::new();
    let mut i: usize = 0;
    proof {
        assert(hitem_views(out@) =~= Seq::<(Seq<u8>, Seq<char>, Seq<char>)>::empty());
    }
    while i < n
        invariant
            i <= n,
            n == h@.len(),
            sort_fold(h@, 0, Seq::empty()) == sort_fold(h@, i as int, hitem_views(out@)),
        decreases n - i,
    {
        let ghost acc0 = hitem_views(out@);
        let kv = h.pair_at(i);
        let k = kv.0.clone();
        let v = kv.1.clone();
        let low = lowercase_str(k.as_str());
        let lowb = low.as_str().as_bytes_vec();
        proof {
            assert(lowb@ == encode_utf8(lower_of(h@[i as int].0)));
        }
        let item = (lowb, k, v);
        let ghost xi = (item.0@, item.1@, item.2@);
        let mut p: usize = 0;
        let olen = out.len();
        while p < olen && bytes_le_exec(&out[p].0, &item.0)
            invariant
                p <= olen,
                olen == out@.len(),
                hitem_views(out@) == acc0,
                item.0@ == xi.0,
                forall|j: int| 0 <= j < p ==> bytes_le((#[trigger] acc0[j]).0, xi.0),
            decreases olen - p,
        {
            proof {
                assert(acc0[p as int] == (out@[p as int].0@, out@[p as int].1@, out@[p as int].2@));
            }
            p += 1;
        }
        proof {
            if p < olen {
                assert(acc0[p as int] == (out@[p as int].0@, out@[p as int].1@, out@[p as int].2@));
            }
            lemma_insert_by_key_at(acc0, xi, p as int);
        }
        out.insert(p, item);
        proof {
            assert(hitem_views(out@) =~= acc0.take(p as int) + seq![xi] + acc0.skip(p as int));
            assert(hitem_views(out@) == insert_by_key(acc0, xi));
            assert(xi == (encode_utf8(lower_of(h@[i as int].0)), h@[i as int].0, h@[i as int].1));
        }
        i += 1;
    }
    out
}

/// The header section of the output: one `Name: value` line per header.
pub open spec fn header_block(s: Seq<(Seq<u8>, Seq<char>, Seq<char>)>, i: int) -> Seq<char>
    decreases s.len() - i,
{
    if i < 0 || i >= s.len() {
        Seq::empty()
    } else {
        s[i].1 + ": "@ + s[i].2 + "\n"@ + header_block(s, i + 1)
    }
}

/// The trailing comment lines for cURL flags that have no request-file
/// equivalent.
pub open spec fn flags_block(fs: Seq<Seq<char>>, i: int) -> Seq<char>
    decreases fs.len() - i,
{
    if i < 0 || i >= fs.len() {
        Seq::empty()
    } else {
        "# Note: "@ + fs[i] + " flag was set in cURL\n"@ + flags_block(fs, i + 1)
    }
}

/// The request-file text a command renders to, given the pretty-printed
/// form of its body when one was obtained.
pub open spec fn spec_render(c: CurlModel, pb: Option<Seq<char>>) -> Seq<char> {
    let head = c.method + " "@ + c.url + "\n"@;
    let auth = match c.auth {
        Some(a) => "Authorization: Basic "@ + b64_std_of(encode_utf8(a.0 + ":"@ + a.1)) + "\n"@,
        None => Seq::<char>::empty(),
    };
    let hdrs = header_block(spec_sorted_headers(c.headers), 0);
    let body = match c.body {
        Some(b) => "\n"@ + (match pb {
            Some(pp) => pp,
            None => b,
        }) + "\n"@,
        None => Seq::<char>::empty(),
    };
    let flags = if c.flags.len() > 0 {
        (if c.body is None {
            "\n"@
        } else {
            Seq::<char>::empty()
        }) + "\n"@ + flags_block(c.flags, 0)
    } else {
        Seq::<char>::empty()
    };
    head + auth + hdrs + body + flags
}

/// Renders a structured command in the request-file grammar: the method
/// line, a basic-authorization header when credentials were given, the
/// headers sorted by lower-cased name, the body (pretty-printed when it is
/// well-formed JSON and pretty-printing succeeds, verbatim otherwise), and
/// one comment per remembered flag.
#[verifier::rlimit(100)]
pub fn curl_to_http(cmd: &CurlCommand) -> (r: String)
    ensures
        exists|pb: Option<Seq<char>>|
            {
                &&& r@ == spec_render(cmd@, pb)
                &&& (cmd@.body is None ==> pb is None)
                &&& (pb is Some ==> cmd@.body is Some && json_wf(cmd@.body->0))
            },
{
    let mut out: String = cmd.method.clone();
    out.append(" ");
    out.append(cmd.url.as_str());
    out.append("\n");
    let ghost head = cmd@.method + " "@ + cmd@.url + "\n"@;
    proof {
        assert(out@ =~= head);
    }
    if let Some((user, pass)) = &cmd.auth {
        let mut creds = user.clone();
        creds.append(":");
        creds.append(pass.as_str());
        proof {
            assert(creds@ =~= (cmd@.auth->0).0 + ":"@ + (cmd@.auth->0).1);
        }
        let credb = creds.as_str().as_bytes_vec();
        let enc = b64_standard(credb.as_slice());
        out.append("Authorization: Basic ");
        out.append(enc.as_str());
        out.append("\n");
    }
    let ghost auth = match cmd@.auth {
        Some(a) => "Authorization: Basic "@ + b64_std_of(encode_utf8(a.0 + ":"@ + a.1)) + "\n"@,
        None => Seq::<char>::empty(),
    };
    proof {
        assert(out@ =~= head + auth);
    }
    let hs = sorted_header_items(&cmd.headers);
    let ghost shs = spec_sorted_headers(cmd@.headers);
    let m = hs.len();
    let mut j: usize = 0;
    while j < m
        invariant
            j <= m,
            m == shs.len(),
            hitem_views(hs@) == shs,
            out@ + header_block(shs, j as int) == head + auth + header_block(shs, 0),
        decreases m - j,
    {
        proof {
            assert(shs[j as int] == (hs@[j as int].0@, hs@[j as int].1@, hs@[j as int].2@));
        }
        let ghost o0 = out@;
        out.append(hs[j].1.as_str());
        out.append(": ");
        out.append(hs[j].2.as_str());
        out.append("\n");
        proof {
            assert(out@ =~= o0 + (shs[j as int].1 + ": "@ + shs[j as int].2 + "\n"@));
            assert(o0 + header_block(shs, j as int) =~= out@ + header_block(shs, j + 1));
        }
        j += 1;
    }
    let ghost hdrs = header_block(shs, 0);
    proof {
        assert(header_block(shs, m as int) =~= Seq::<char>::empty());
        assert(out@ + Seq::<char>::empty() =~= out@);
        assert(out@ =~= head + auth + hdrs);
    }
    let mut pretty: Option<String> = None;
    if let Some(b) = &cmd.body {
        out.append("\n");
        pretty = match parse_json_value(b.as_str()) {
            Some(v) => pretty_print_json(&v),
            None => None,
        };
        match &pretty {
            Some(p) => out.append(p.as_str()),
            None => out.append(b.as_str()),
        }
        out.append("\n");
    }
    let ghost pb = opt_view(pretty);
    let ghost body = match cmd@.body {
        Some(b) => "\n"@ + (match pb {
            Some(pp) => pp,
            None => b,
        }) + "\n"@,
        None => Seq::<char>::empty(),
    };
    proof {
        assert(out@ =~= head + auth + hdrs + body);
    }
    if cmd.flags.len() > 0 {
        if matches!(&cmd.body, Option::None) {
            out.append("\n");
        }
        out.append("\n");
        let fl = cmd.flags.len();
        let ghost fbase = out@;
        let mut q: usize = 0;
        while q < fl
            invariant
                q <= fl,
                fl == cmd@.flags.len(),
                cmd@.flags == strs_views(cmd.flags@),
                out@ + flags_block(cmd@.flags, q as int) == fbase + flags_block(cmd@.flags, 0),
            decreases fl - q,
        {
            proof {
                assert(cmd@.flags[q as int] == cmd.flags@[q as int]@);
            }
            let ghost o0 = out@;
            out.append("# Note: ");
            out.append(cmd.flags[q].as_str());
            out.append(" flag was set in cURL\n");
            proof {
                assert(out@ =~= o0 + ("# Note: "@ + cmd@.flags[q as int]
                    + " flag was set in cURL\n"@));
                assert(o0 + flags_block(cmd@.flags, q as int) =~= out@ + flags_block(
                    cmd@.flags,
                    q + 1,
                ));
            }
            q += 1;
        }
        proof {
            assert(flags_block(cmd@.flags, fl as int) =~= Seq::<char>::empty());
            assert(out@ =~= fbase + flags_block(cmd@.flags, 0));
        }
    }
    proof {
        let flags = if cmd@.flags.len() > 0 {
            (if cmd@.body is None {
                "\n"@
            } else {
                Seq::<char>::empty()
            }) + "\n"@ + flags_block(cmd@.flags, 0)
        } else {
            Seq::<char>::empty()
        };
        assert(out@ =~= head + auth + hdrs + body + flags);
        assert(out@ == spec_render(cmd@, pb));
    }
    out
}

} // verus!
