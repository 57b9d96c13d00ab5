//! The data carried to and from the collaborators that execute requests,
//! persist history, and list workspace files, together with the method
//! validation the executor applies.

use crate::classify::spec_verbs;
use crate::strmap::StrMap;
use crate::text::str_eq;
use crate::trusted::{upper_of, uppercase_str};
use vstd::prelude::*;

verus! {

/// A request ready to be issued.
#[derive(Debug, Clone)]
pub struct HttpRequest {
    pub method: String,
    pub url: String,
    pub headers: StrMap,
    pub body: Option<String>,
}

/// What issuing a request produced.
#[derive(Debug, Clone)]
pub struct HttpResponse {
    pub status: u16,
    pub status_text: String,
    pub headers: StrMap,
    pub body: String,
    pub time: u64,
    pub size: usize,
}

/// A request/response pair to be persisted, before it has an identifier.
#[derive(Debug, Clone)]
pub struct NewHistoryEntry {
    pub workspace: String,
    pub file_path: Option<String>,
    pub request_name: Option<String>,
    pub method: String,
    pub url: String,
    pub request_headers: String,
    pub request_body: Option<String>,
    pub status: i32,
    pub status_text: String,
    pub response_headers: String,
    pub response_body: String,
    pub duration_ms: i64,
    pub response_size: i64,
}

/// One entry of a workspace file listing.
#[derive(Debug, Clone)]
pub struct FileInfo {
    pub path: String,
    pub name: String,
    pub is_http_file: bool,
}

/// The canonical form of a method string: its upper-cased text, accepted
/// exactly when that text is one of the nine known verbs.
pub open spec fn spec_known_method(m: Seq<char>) -> Option<Seq<char>> {
    if spec_verbs().contains(upper_of(m)) {
        Some(upper_of(m))
    } else {
        None
    }
}

/// Validates a method string as the request executor does: upper-cases it
/// and accepts exactly the nine known verbs, returning the canonical form.
pub fn known_method(m: &str) -> (r: Option<String>)
    ensures
        match r {
            Some(c) => spec_known_method(m@) == Some(c@),
            None => spec_known_method(m@) is None,
        },
{
    let up = uppercase_str(m);
    let mut i: usize = 0;
    let names: [&str; 9] = [
        "GET",
        "POST",
        "PUT",
        "DELETE",
        "PATCH",
        "HEAD",
        "OPTIONS",
        "TRACE",
        "CONNECT",
    ];
    proof {
        reveal_strlit("GET");
        reveal_strlit("POST");
        reveal_strlit("PUT");
        reveal_strlit("DELETE");
        reveal_strlit("PATCH");
        reveal_strlit("HEAD");
        reveal_strlit("OPTIONS");
        reveal_strlit("TRACE");
        reveal_strlit("CONNECT");
        assert(names@[0]@ =~= spec_verbs()[0]);
        assert(names@[1]@ =~= spec_verbs()[1]);
        assert(names@[2]@ =~= spec_verbs()[2]);
        assert(names@[3]@ =~= spec_verbs()[3]);
        assert(names@[4]@ =~= spec_verbs()[4]);
        assert(names@[5]@ =~= spec_verbs()[5]);
        assert(names@[6]@ =~= spec_verbs()[6]);
        assert(names@[7]@ =~= spec_verbs()[7]);
        assert(names@[8]@ =~= spec_verbs()[8]);
    }
    while i < 9
        invariant
            i <= 9,
            names@.len() == 9,
            up@ == upper_of(m@),
            forall|k: int| 0 <= k < 9 ==> names@[k]@ == spec_verbs()[k],
            forall|k: int| 0 <= k < i ==> spec_verbs()[k] != up@,
        decreases 9 - i,
    {
        if str_eq(up.as_str(), names[i]) {
            proof {
                assert(spec_verbs().contains(up@));
            }
            return Some(up);
        }
        i += 1;
    }
    proof {
        if spec_verbs().contains(up@) {
            let k = choose|k: int| 0 <= k < 9 && spec_verbs()[k] == up@;
            assert(spec_verbs()[k] != up@);
        }
    }
    None
}

} // verus!
