//! The data model: one parsed request, the detected file format, and the
//! parse-error record, together with their mathematical models.

use crate::strmap::StrMap;
use vstd::prelude::*;

verus! {

/// Mathematical model of one parsed request.
#[verifier::ext_equal]
pub ghost struct ReqModel {
    pub name: Option<Seq<char>>,
    pub method: Seq<char>,
    pub url: Seq<char>,
    pub http_version: Option<Seq<char>>,
    pub headers: Seq<(Seq<char>, Seq<char>)>,
    pub body: Option<Seq<char>>,
    pub line_number: int,
    pub variables: Seq<(Seq<char>, Seq<char>)>,
    pub metadata: Seq<(Seq<char>, Seq<char>)>,
    pub pre_script: Option<Seq<char>>,
    pub post_script: Option<Seq<char>>,
}

/// The view of an optional string.
pub open spec fn opt_view(o: Option<String>) -> Option<Seq<char>> {
    match o {
        Some(s) => Some(s@),
        None => None,
    }
}

/// One HTTP request extracted from a request-file document.
#[derive(Debug, Clone)]
pub struct ParsedRequest {
    /// Name of the request, from the text after a `###` separator.
    pub name: Option<String>,
    /// HTTP method; `GET` when no method line was seen.
    pub method: String,
    /// Request URL; may still contain `{{name}}` placeholders.  A request
    /// whose URL is empty at the end of parsing is dropped.
    pub url: String,
    /// Explicit HTTP version from the method line, if any.
    pub http_version: Option<String>,
    /// Header fields, keys as written; a repeated key keeps the last value.
    pub headers: StrMap,
    /// Request body, trimmed of surrounding whitespace, if one was captured.
    pub body: Option<String>,
    /// One-based line where this request began.
    pub line_number: usize,
    /// Every file-level variable definition of the document.
    pub variables: StrMap,
    /// `# @key value` annotations.
    pub metadata: StrMap,
    /// Verbatim source of a `< {% ... %}` block, never interpreted.
    pub pre_script: Option<String>,
    /// Verbatim source of a `> {% ... %}` block, never interpreted.
    pub post_script: Option<String>,
}

impl View for ParsedRequest {
    type V = ReqModel;

    open spec fn view(&self) -> ReqModel {
        ReqModel {
            name: opt_view(self.name),
            method: self.method@,
            url: self.url@,
            http_version: opt_view(self.http_version),
            headers: self.headers@,
            body: opt_view(self.body),
            line_number: self.line_number as int,
            variables: self.variables@,
            metadata: self.metadata@,
            pre_script: opt_view(self.pre_script),
            post_script: opt_view(self.post_script),
        }
    }
}

/// The model of a freshly started request at line `ln`.
pub open spec fn fresh_req(ln: int) -> ReqModel {
    ReqModel {
        name: None,
        method: seq!['G', 'E', 'T'],
        url: Seq::empty(),
        http_version: None,
        headers: Seq::empty(),
        body: None,
        line_number: ln,
        variables: Seq::empty(),
        metadata: Seq::empty(),
        pre_script: None,
        post_script: None,
    }
}

impl ParsedRequest {
    /// All three maps have distinct keys.
    pub open spec fn wf(&self) -> bool {
        self.headers.wf() && self.variables.wf() && self.metadata.wf()
    }

    /// A request with the default method `GET`, an empty URL, and nothing
    /// else set.
    pub fn new() -> (r: ParsedRequest)
        ensures
            r@ == fresh_req(0),
            r.wf(),
    {
        let r = ParsedRequest {
            name: None,
            method: gets(),
            url: String::new(),
            http_version: None,
            headers: StrMap::new(),
            body: None,
            line_number: 0,
            variables: StrMap::new(),
            metadata: StrMap::new(),
            pre_script: None,
            post_script: None,
        };
        proof {
            assert(r@ =~= fresh_req(0));
        }
        r
    }
}

/// The string `GET`.
fn gets() -> (r: String)
    ensures
        r@ == seq!['G', 'E', 'T'],
{
    let r: String = <String as vstd::string::StringExecFns>::from_str("GET");
    proof {
        reveal_strlit("GET");
        assert("GET"@ =~= seq!['G', 'E', 'T']);
    }
    r
}

/// The views of a sequence of parsed requests.
pub open spec fn req_views(s: Seq<ParsedRequest>) -> Seq<ReqModel> {
    s.map_values(|r: ParsedRequest| r@)
}

/// Detected dialect of a request-file document.
#[derive(Debug, Clone, Copy, PartialEq, Eq, Structural)]
pub enum HttpFileFormat {
    /// JetBrains HTTP Client dialect.
    JetBrains,
    /// VS Code REST Client dialect.
    VsCode,
    /// Mixed or unknown dialect.
    Unknown,
}

/// A document-level parse failure.  The grammar itself is total, so the
/// parsing functions never construct one; the type is part of the boundary
/// contract for callers.
#[derive(Debug, Clone)]
pub struct ParseError {
    pub message: String,
    pub line: Option<usize>,
}

} // verus!
