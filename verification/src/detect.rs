//! Dialect detection and the top-level parsing entry point.

use crate::classify::vardef_kv_of;
use crate::jetbrains::{jb_parse, parse_jetbrains};
use crate::text::{chars_of, lines_spec, seq_views, split_lines, trim_spec, trimmed};
use crate::types::{req_views, HttpFileFormat, ParseError, ParsedRequest, ReqModel};
use crate::vscode::{parse_vscode, vs_parse};
use vstd::prelude::*;

verus! {

/// A line that opens a script block as the detector sees it: the trimmed
/// line starts with `< {%` or `> {%` literally.
pub open spec fn is_detect_script_line(t: Seq<char>) -> bool {
    ||| (t.len() >= 4 && t[0] == '<' && t[1] == ' ' && t[2] == '{' && t[3] == '%')
    ||| (t.len() >= 4 && t[0] == '>' && t[1] == ' ' && t[2] == '{' && t[3] == '%')
}

/// Some line of the document opens a script block.
pub open spec fn has_script_line(ls: Seq<Seq<char>>) -> bool {
    exists|i: int| 0 <= i < ls.len() && is_detect_script_line(#[trigger] trim_spec(ls[i]))
}

/// Some line of the document is a variable definition.
pub open spec fn has_vardef_line(ls: Seq<Seq<char>>) -> bool {
    exists|i: int| 0 <= i < ls.len() && vardef_kv_of(#[trigger] trim_spec(ls[i])) is Some
}

/// The dialect of a document.  Script blocks are a JetBrains-only feature
/// and decide the matter alone; otherwise a variable-definition line means
/// VS Code; otherwise JetBrains, the superset grammar, is the default.
pub open spec fn spec_detect(content: Seq<char>) -> HttpFileFormat {
    let ls = lines_spec(content);
    if has_script_line(ls) {
        HttpFileFormat::JetBrains
    } else if has_vardef_line(ls) {
        HttpFileFormat::VsCode
    } else {
        HttpFileFormat::JetBrains
    }
}

/// Detects the dialect of a request-file document.
pub fn detect_format(content: &str) -> (r: HttpFileFormat)
    ensures
        r == spec_detect(content@),
{
    let cvec = chars_of(content);
    let lines = split_lines(&cvec);
    let ghost ll = seq_views(lines@);
    let n = lines.len();
    let mut i: usize = 0;
    while i < n
        invariant
            i <= n,
            n == ll.len(),
            ll == seq_views(lines@),
            ll == lines_spec(content@),
            forall|j: int| 0 <= j < i ==> !is_detect_script_line(#[trigger] trim_spec(ll[j])),
        decreases n - i,
    {
        proof {
            assert(ll[i as int] == lines@[i as int]@);
        }
        let t = trimmed(&lines[i]);
        let hit = (t.len() >= 4 && t[0] == '<' && t[1] == ' ' && t[2] == '{' && t[3] == '%') || (
        t.len() >= 4 && t[0] == '>' && t[1] == ' ' && t[2] == '{' && t[3] == '%');
        if hit {
            proof {
                assert(is_detect_script_line(trim_spec(ll[i as int])));
            }
            return HttpFileFormat::JetBrains;
        }
        i += 1;
    }
    let mut i2: usize = 0;
    while i2 < n
        invariant
            i2 <= n,
            n == ll.len(),
            ll == seq_views(lines@),
            ll == lines_spec(content@),
            !has_script_line(ll),
            forall|j: int| 0 <= j < i2 ==> vardef_kv_of(#[trigger] trim_spec(ll[j])) is None,
        decreases n - i2,
    {
        proof {
            assert(ll[i2 as int] == lines@[i2 as int]@);
        }
        let t = trimmed(&lines[i2]);
        if let Some(_kv) = crate::classify::vardef_kv(&t) {
            proof {
                assert(vardef_kv_of(trim_spec(ll[i2 as int])) is Some);
            }
            return HttpFileFormat::VsCode;
        }
        i2 += 1;
    }
    HttpFileFormat::JetBrains
}

/// The requests a document parses to, under the dialect the detector picks
/// for it.
pub open spec fn spec_parse_http_content(content: Seq<char>) -> Seq<ReqModel> {
    if spec_detect(content) == HttpFileFormat::VsCode {
        vs_parse(lines_spec(content))
    } else {
        jb_parse(lines_spec(content))
    }
}

/// Parses a request-file document, detecting its dialect first.  Always
/// succeeds: both grammars are total.
pub fn parse_http_content(content: &str) -> (r: Result<Vec<ParsedRequest>, ParseError>)
    ensures
        r matches Ok(reqs) && req_views(reqs@) == spec_parse_http_content(content@),
{
    match detect_format(content) {
        HttpFileFormat::VsCode => parse_vscode(content),
        HttpFileFormat::JetBrains => parse_jetbrains(content),
        HttpFileFormat::Unknown => parse_jetbrains(content),
    }
}

} // verus!
