//! OpenID Connect support: PKCE material, the authorization URL, and the
//! decisions of the login flow.  Network traffic and the local callback
//! socket live outside the library; this module computes what they need
//! and judges what they return.

use crate::classify::{run_of, scan_space, space_run};
use crate::strmap::StrMap;
use crate::text::{chars_of, is_space_char, space_char, string_of, str_eq, subrange_chars};
use crate::trusted::{b64_url_nopad, b64_url_of, normalize_url, sha256_digest, sha256_of,
    url_normalized};
use crate::types::opt_view;
use vstd::prelude::*;
use vstd::string::{StringExecFns, StrSliceExecFns};
use vstd::utf8::encode_utf8;

verus! {

/// An OpenID provider's discovery document.
#[derive(Debug, Clone)]
pub struct OidcDiscovery {
    pub issuer: String,
    pub authorization_endpoint: String,
    pub token_endpoint: String,
    pub userinfo_endpoint: Option<String>,
    pub jwks_uri: Option<String>,
    pub end_session_endpoint: Option<String>,
    pub scopes_supported: Vec<String>,
    pub response_types_supported: Vec<String>,
    pub grant_types_supported: Vec<String>,
}

/// The client-side configuration of one login flow.
#[derive(Debug, Clone)]
pub struct OidcConfig {
    pub issuer: Option<String>,
    pub authorization_endpoint: Option<String>,
    pub token_endpoint: Option<String>,
    pub client_id: String,
    pub client_secret: Option<String>,
    pub redirect_url: String,
    pub scopes: Vec<String>,
    pub extra_params: StrMap,
}

/// What the token endpoint returns.
#[derive(Debug, Clone)]
pub struct TokenResponse {
    pub access_token: String,
    pub token_type: Option<String>,
    pub expires_in: Option<u64>,
    pub refresh_token: Option<String>,
    pub id_token: Option<String>,
    pub scope: Option<String>,
}

/// Proof-key material for one authorization round.
#[derive(Debug, Clone)]
pub struct PkceParams {
    pub code_verifier: String,
    pub code_challenge: String,
    pub code_challenge_method: String,
}

/// Everything an in-flight login flow needs to finish.
#[derive(Debug, Clone)]
pub struct OidcAuthState {
    pub state: String,
    pub pkce: PkceParams,
    pub config: OidcConfig,
    pub discovery: Option<OidcDiscovery>,
}

/// What the authorization callback carried.
#[derive(Debug, Clone)]
pub struct CallbackResult {
    pub code: Option<String>,
    pub state: Option<String>,
    pub error: Option<String>,
    pub error_description: Option<String>,
}

/// What starting a login flow hands the caller.
#[derive(Debug, Clone)]
pub struct OidcAuthStartResult {
    pub auth_url: String,
    pub state: String,
    pub code_verifier: String,
}

/// `n` bytes drawn from the thread-local generator.  Nothing is known of
/// their values.
pub fn random_bytes(n: usize) -> (r: Vec<u8>)
    ensures
        r@.len() == n,
{
    let mut r: Vec<u8> = Vec::new();
    let mut i: usize = 0;
    while i < n
        invariant
            i <= n,
            r@.len() == i,
        decreases n - i,
    {
        let b: u8 = rand::random::<u8>();
        r.push(b);
        i += 1;
    }
    r
}

/// Fresh PKCE material: the verifier encodes 32 random bytes, and the
/// challenge is the URL-safe unpadded base64 of the verifier's SHA-256
/// digest, with method `S256`.
pub fn generate_pkce() -> (r: PkceParams)
    ensures
        r.code_verifier@.len() == 43,
        r.code_challenge@ == b64_url_of(sha256_of(encode_utf8(r.code_verifier@))),
        r.code_challenge@.len() == 43,
        r.code_challenge_method@ == "S256"@,
{
    let vb = random_bytes(32);
    let code_verifier = b64_url_nopad(vb.as_slice());
    let digest = sha256_digest(code_verifier.as_str().as_bytes_vec().as_slice());
    let code_challenge = b64_url_nopad(digest.as_slice());
    let method: String = <String as StringExecFns>::from_str("S256");
    PkceParams { code_verifier, code_challenge, code_challenge_method: method }
}

/// A fresh state parameter: the URL-safe unpadded base64 of 16 random
/// bytes, 22 characters long.
pub fn generate_state() -> (r: String)
    ensures
        r@.len() == 22,
{
    let sb = random_bytes(16);
    b64_url_nopad(sb.as_slice())
}

/// A byte kept verbatim by form-urlencoding: ASCII alphanumerics and
/// `*`, `-`, `.`, `_`.
pub open spec fn form_keep(b: u8) -> bool {
    ||| (48 <= b && b <= 57)
    ||| (65 <= b && b <= 90)
    ||| (97 <= b && b <= 122)
    ||| b == 42
    ||| b == 45
    ||| b == 46
    ||| b == 95
}

/// The upper-case hexadecimal digit for a value below sixteen.
pub open spec fn hex_digit(n: u8) -> char {
    "0123456789ABCDEF"@[n as int]
}

/// Form-urlencoding of a byte string: kept bytes verbatim, space as `+`,
/// anything else as `%` and two upper-case hexadecimal digits.
pub open spec fn form_enc(bs: Seq<u8>) -> Seq<char>
    decreases bs.len(),
{
    if bs.len() == 0 {
        Seq::empty()
    } else {
        let b = bs[0];
        (if form_keep(b) {
            seq![b as char]
        } else if b == 32 {
            seq!['+']
        } else {
            seq!['%', hex_digit(b / 16), hex_digit(b % 16)]
        }) + form_enc(bs.drop_first())
    }
}

/// Form-urlencodes the UTF-8 bytes of a string.
pub fn form_urlencode(s: &str) -> (r: Vec<char>)
    ensures
        r@ == form_enc(encode_utf8(s@)),
{
    let bs = s.as_bytes_vec();
    let hex = chars_of("0123456789ABCDEF");
    proof {
        reveal_strlit("0123456789ABCDEF");
        assert(hex@.len() == 16);
    }
    let n = bs.len();
    let mut out: Vec<char> = Vec::new();
    let mut i: usize = 0;
    proof {
        assert(bs@.skip(0) =~= bs@);
        assert(out@ + form_enc(bs@) =~= form_enc(bs@));
    }
    while i < n
        invariant
            i <= n,
            n == bs@.len(),
            bs@ == encode_utf8(s@),
            hex@ == "0123456789ABCDEF"@,
            hex@.len() == 16,
            form_enc(encode_utf8(s@)) == out@ + form_enc(bs@.skip(i as int)),
        decreases n - i,
    {
        let ghost rest = bs@.skip(i as int);
        let ghost o0 = out@;
        let b = bs[i];
        if (48 <= b && b <= 57) || (65 <= b && b <= 90) || (97 <= b && b <= 122) || b == 42 || b
            == 45 || b == 46 || b == 95 {
            out.push(b as char);
            proof {
                assert(o0 + (seq![rest[0] as char] + form_enc(rest.drop_first())) =~= out@
                    + form_enc(rest.drop_first()));
            }
        } else if b == 32 {
            out.push('+');
            proof {
                assert(o0 + (seq!['+'] + form_enc(rest.drop_first())) =~= out@ + form_enc(
                    rest.drop_first(),
                ));
            }
        } else {
            out.push('%');
            out.push(hex[(b / 16) as usize]);
            out.push(hex[(b % 16) as usize]);
            proof {
                assert(hex@[(b / 16) as int] == hex_digit(b / 16));
                assert(hex@[(b % 16) as int] == hex_digit(b % 16));
                assert(o0 + (seq!['%', hex_digit(b / 16), hex_digit(b % 16)] + form_enc(
                    rest.drop_first(),
                )) =~= out@ + form_enc(rest.drop_first()));
            }
        }
        proof {
            assert(rest.drop_first() =~= bs@.skip(i + 1));
        }
        i += 1;
    }
    proof {
        assert(bs@.skip(n as int) =~= Seq::<u8>::empty());
        assert(out@ + form_enc(bs@.skip(n as int)) =~= out@);
    }
    out
}

/// The query string of a parameter list: form-urlencoded pairs joined by
/// `&`.
pub open spec fn query_of(ps: Seq<(Seq<char>, Seq<char>)>, i: int) -> Seq<char>
    decreases ps.len() - i,
{
    if i < 0 || i >= ps.len() {
        Seq::empty()
    } else {
        form_enc(encode_utf8(ps[i].0)) + "="@ + form_enc(encode_utf8(ps[i].1)) + (if i + 1
            < ps.len() {
            "&"@
        } else {
            Seq::<char>::empty()
        }) + query_of(ps, i + 1)
    }
}

/// The views of a vector of string pairs.
pub open spec fn pair_views(s: Seq<(String, String)>) -> Seq<(Seq<char>, Seq<char>)> {
    s.map_values(|p: (String, String)| (p.0@, p.1@))
}

/// Builds the query string of a parameter list.
fn render_query(ps: &Vec<(String, String)>) -> (r: Vec<char>)
    ensures
        r@ == query_of(pair_views(ps@), 0),
{
    let n = ps.len();
    let mut out: Vec<char> = Vec::new();
    let mut i: usize = 0;
    let ghost pv = pair_views(ps@);
    proof {
        reveal_strlit("=");
        reveal_strlit("&");
        assert(out@ + query_of(pv, 0) =~= query_of(pv, 0));
    }
    while i < n
        invariant
            i <= n,
            n == pv.len(),
            pv == pair_views(ps@),
            out@ + query_of(pv, i as int) == query_of(pv, 0),
        decreases n - i,
    {
        proof {
            assert(pv[i as int] == (ps@[i as int].0@, ps@[i as int].1@));
        }
        proof {
            reveal_strlit("=");
            reveal_strlit("&");
        }
        let ghost o0 = out@;
        let ek = form_urlencode(ps[i].0.as_str());
        crate::text::extend_chars(&mut out, &ek);
        out.push('=');
        let ev = form_urlencode(ps[i].1.as_str());
        crate::text::extend_chars(&mut out, &ev);
        if i + 1 < n {
            out.push('&');
            proof {
                assert(out@ =~= o0 + (form_enc(encode_utf8(pv[i as int].0)) + "="@ + form_enc(
                    encode_utf8(pv[i as int].1),
                ) + "&"@));
                assert(o0 + query_of(pv, i as int) =~= out@ + query_of(pv, i + 1));
            }
        } else {
            proof {
                assert(out@ =~= o0 + (form_enc(encode_utf8(pv[i as int].0)) + "="@ + form_enc(
                    encode_utf8(pv[i as int].1),
                ) + Seq::<char>::empty()));
                assert(o0 + query_of(pv, i as int) =~= out@ + query_of(pv, i + 1));
            }
        }
        i += 1;
    }
    proof {
        assert(query_of(pv, n as int) =~= Seq::<char>::empty());
        assert(out@ + query_of(pv, n as int) =~= out@);
    }
    out
}

/// The authorization parameters of a flow, in the order they are sent:
/// the protocol parameters, then the configured extra parameters.
pub open spec fn spec_auth_params(
    client_id: Seq<char>,
    redirect_url: Seq<char>,
    scopes: Seq<Seq<char>>,
    extra: Seq<(Seq<char>, Seq<char>)>,
    state: Seq<char>,
    challenge: Seq<char>,
    method: Seq<char>,
) -> Seq<(Seq<char>, Seq<char>)> {
    seq![
        ("response_type"@, "code"@),
        ("client_id"@, client_id),
        ("redirect_uri"@, redirect_url),
        ("scope"@, crate::curl::join_sp(scopes)),
        ("state"@, state),
        ("code_challenge"@, challenge),
        ("code_challenge_method"@, method),
    ] + extra
}

/// A normalized base URL extended with a query string: after `?` when the
/// base has none, after `&` when it already carries one.
pub open spec fn spec_with_query(base: Seq<char>, q: Seq<char>) -> Seq<char> {
    if exists|i: int| 0 <= i < base.len() && base[i] == '?' {
        if base.len() > 0 && base[base.len() - 1] == '?' {
            base + q
        } else {
            base + "&"@ + q
        }
    } else {
        base + "?"@ + q
    }
}

/// The authorization URL of a flow over a given endpoint.
pub open spec fn spec_auth_url(
    endpoint: Seq<char>,
    client_id: Seq<char>,
    redirect_url: Seq<char>,
    scopes: Seq<Seq<char>>,
    extra: Seq<(Seq<char>, Seq<char>)>,
    state: Seq<char>,
    challenge: Seq<char>,
    method: Seq<char>,
) -> Option<Seq<char>> {
    match url_normalized(endpoint) {
        Some(base) => Some(
            spec_with_query(
                base,
                query_of(
                    spec_auth_params(
                        client_id,
                        redirect_url,
                        scopes,
                        extra,
                        state,
                        challenge,
                        method,
                    ),
                    0,
                ),
            ),
        ),
        None => None,
    }
}

/// Joins scope names with single spaces.
fn join_scopes(scopes: &Vec<String>) -> (r: String)
    ensures
        r@ == crate::curl::join_sp(crate::curl::strs_views(scopes@)),
{
    let ghost sv = crate::curl::strs_views(scopes@);
    let n = scopes.len();
    let mut out: Vec<char> = Vec::new();
    let mut i: usize = 0;
    while i < n
        invariant
            i <= n,
            n == sv.len(),
            sv == crate::curl::strs_views(scopes@),
            out@ == crate::curl::join_sp(sv.take(i as int)),
        decreases n - i,
    {
        if i > 0 {
            out.push(' ');
        }
        let ghost before = sv.take(i as int);
        proof {
            assert(sv[i as int] == scopes@[i as int]@);
        }
        let sc = chars_of(scopes[i].as_str());
        crate::text::extend_chars(&mut out, &sc);
        proof {
            assert(sv.take(i + 1) =~= before.push(sv[i as int]));
            crate::curl::lemma_join_sp_push_pub(before, sv[i as int]);
            if i > 0 {
                assert(out@ =~= crate::curl::join_sp(before) + seq![' '] + sv[i as int]);
            } else {
                assert(out@ =~= sv[i as int]);
            }
        }
        i += 1;
    }
    proof {
        assert(sv.take(n as int) =~= sv);
    }
    string_of(&out)
}

/// Builds the authorization URL from the configuration, the discovery
/// document when one was fetched, the state parameter, and the PKCE
/// material.  Fails when no authorization endpoint is configured or the
/// endpoint does not parse as a URL.
pub fn build_auth_url(
    config: &OidcConfig,
    discovery: Option<&OidcDiscovery>,
    state: &str,
    pkce: &PkceParams,
) -> (r: Result<String, String>)
    ensures
        ({
            let ep = match config.authorization_endpoint {
                Some(e) => Some(e@),
                None => match discovery {
                    Some(d) => Some(d.authorization_endpoint@),
                    None => None,
                },
            };
            match r {
                Ok(u) => {
                    &&& ep is Some
                    &&& url_normalized(ep->0) is Some
                    &&& Some(u@) == spec_auth_url(
                        ep->0,
                        config.client_id@,
                        config.redirect_url@,
                        crate::curl::strs_views(config.scopes@),
                        config.extra_params@,
                        state@,
                        pkce.code_challenge@,
                        pkce.code_challenge_method@,
                    )
                },
                Err(e) => {
                    ||| (ep is None && e@ == "No authorization endpoint configured"@)
                    ||| (ep is Some && url_normalized(ep->0) is None && e@
                        == "Invalid authorization endpoint"@)
                },
            }
        }),
{
    let endpoint: &String = match &config.authorization_endpoint {
        Some(e) => e,
        None => match discovery {
            Some(d) => &d.authorization_endpoint,
            None => {
                let msg: String = <String as StringExecFns>::from_str(
                    "No authorization endpoint configured",
                );
                return Err(msg);
            },
        },
    };
    let base = match normalize_url(endpoint.as_str()) {
        Some(b) => b,
        None => {
            let msg: String = <String as StringExecFns>::from_str("Invalid authorization endpoint");
            return Err(msg);
        },
    };
    let mut params: Vec<(String, String)> = Vec::new();
    params.push(
        (
            <String as StringExecFns>::from_str("response_type"),
            <String as StringExecFns>::from_str("code"),
        ),
    );
    params.push((<String as StringExecFns>::from_str("client_id"), config.client_id.clone()));
    params.push((<String as StringExecFns>::from_str("redirect_uri"), config.redirect_url.clone()));
    params.push((<String as StringExecFns>::from_str("scope"), join_scopes(&config.scopes)));
    params.push(
        (<String as StringExecFns>::from_str("state"), <String as StringExecFns>::from_str(state)),
    );
    params.push(
        (<String as StringExecFns>::from_str("code_challenge"), pkce.code_challenge.clone()),
    );
    params.push(
        (
            <String as StringExecFns>::from_str("code_challenge_method"),
            pkce.code_challenge_method.clone(),
        ),
    );
    let en = config.extra_params.len();
    let mut ei: usize = 0;
    let ghost protocol = spec_auth_params(
        config.client_id@,
        config.redirect_url@,
        crate::curl::strs_views(config.scopes@),
        Seq::empty(),
        state@,
        pkce.code_challenge@,
        pkce.code_challenge_method@,
    );
    proof {
        assert(pair_views(params@) =~= protocol);
    }
    while ei < en
        invariant
            ei <= en,
            en == config.extra_params@.len(),
            pair_views(params@) == protocol + config.extra_params@.take(ei as int),
        decreases en - ei,
    {
        let kv = config.extra_params.pair_at(ei);
        let ghost p0 = pair_views(params@);
        params.push((kv.0.clone(), kv.1.clone()));
        proof {
            assert(pair_views(params@) =~= p0.push(config.extra_params@[ei as int]));
            assert(pair_views(params@) =~= protocol + config.extra_params@.take(ei + 1));
        }
        ei += 1;
    }
    proof {
        assert(config.extra_params@.take(en as int) =~= config.extra_params@);
        assert(protocol + config.extra_params@ =~= spec_auth_params(
            config.client_id@,
            config.redirect_url@,
            crate::curl::strs_views(config.scopes@),
            config.extra_params@,
            state@,
            pkce.code_challenge@,
            pkce.code_challenge_method@,
        ));
    }
    let q = render_query(&params);
    let bv = chars_of(base.as_str());
    let mut has_q = false;
    let bn = bv.len();
    let mut bi: usize = 0;
    while bi < bn
        invariant
            bi <= bn,
            bn == bv@.len(),
            has_q == exists|k: int| 0 <= k < bi && bv@[k] == '?',
        decreases bn - bi,
    {
        if bv[bi] == '?' {
            has_q = true;
        }
        proof {
            if has_q && !(exists|k: int| 0 <= k < bi + 1 && bv@[k] == '?') {
                assert(false);
            }
        }
        bi += 1;
    }
    proof {
        reveal_strlit("&");
        reveal_strlit("?");
    }
    let mut out = bv;
    if has_q {
        if out.len() > 0 && out[out.len() - 1] == '?' {
        } else {
            out.push('&');
        }
    } else {
        out.push('?');
    }
    crate::text::extend_chars(&mut out, &q);
    proof {
        assert(out@ =~= spec_with_query(base@, q@));
    }
    Ok(string_of(&out))
}

/// The value of the last pair bound to `k`, mirroring how a map collected
/// from query pairs keeps the final occurrence of a repeated key.
pub open spec fn last_val(ps: Seq<(Seq<char>, Seq<char>)>, k: Seq<char>) -> Option<Seq<char>>
    decreases ps.len(),
{
    if ps.len() == 0 {
        None
    } else if ps[ps.len() - 1].0 == k {
        Some(ps[ps.len() - 1].1)
    } else {
        last_val(ps.drop_last(), k)
    }
}

/// The last value bound to `k` among the pairs, executably.
fn last_pair_value(ps: &Vec<(String, String)>, k: &str) -> (r: Option<String>)
    ensures
        opt_view(r) == last_val(pair_views(ps@), k@),
{
    let n = ps.len();
    let mut i: usize = n;
    proof {
        assert(pair_views(ps@).take(n as int) =~= pair_views(ps@));
    }
    while i > 0
        invariant
            i <= n,
            n == ps@.len(),
            last_val(pair_views(ps@), k@) == last_val(pair_views(ps@).take(i as int), k@),
        decreases i,
    {
        proof {
            assert(pair_views(ps@)[i - 1] == (ps@[i - 1].0@, ps@[i - 1].1@));
            assert(pair_views(ps@).take(i as int)[i - 1] == pair_views(ps@)[i - 1]);
        }
        if str_eq(ps[i - 1].0.as_str(), k) {
            proof {
                assert(last_val(pair_views(ps@).take(i as int), k@) == Some(ps@[i - 1].1@));
            }
            return Some(ps[i - 1].1.clone());
        }
        proof {
            assert(pair_views(ps@).take(i as int).drop_last() =~= pair_views(ps@).take(i - 1));
        }
        i -= 1;
    }
    proof {
        assert(pair_views(ps@).take(0) =~= Seq::<(Seq<char>, Seq<char>)>::empty());
    }
    None
}

/// The request path of an HTTP request line: its second whitespace-
/// separated token, when the line has at least two.
pub open spec fn second_token(s: Seq<char>) -> Option<Seq<char>> {
    let w0 = space_run(s);
    let t1 = run_of(s.skip(w0), |c: char| !is_space_char(c));
    let after1 = s.skip(w0 + t1);
    let w1 = space_run(after1);
    let t2 = run_of(after1.skip(w1), |c: char| !is_space_char(c));
    if t1 >= 1 && t2 >= 1 {
        Some(after1.skip(w1).take(t2))
    } else {
        None
    }
}

/// First index at or after `from` whose character is whitespace, or the
/// end.
fn scan_nonspace(t: &Vec<char>, from: usize) -> (r: usize)
    requires
        from <= t@.len(),
    ensures
        from <= r <= t@.len(),
        r - from == run_of(t@.skip(from as int), |c: char| !is_space_char(c)),
{
    let n = t.len();
    let mut j = from;
    while j < n && !space_char(t[j])
        invariant
            from <= j <= n,
            n == t@.len(),
            forall|k: int| from <= k < j ==> !is_space_char(t@[k]),
        decreases n - j,
    {
        j += 1;
    }
    proof {
        let rest = t@.skip(from as int);
        assert forall|k: int| 0 <= k < j - from implies !is_space_char(rest[k]) by {
            assert(rest[k] == t@[from + k]);
        }
        if j < n {
            assert(rest[j - from] == t@[j as int]);
        }
        crate::classify::lemma_run_of_at(rest, |c: char| !is_space_char(c), j - from);
    }
    j
}

/// Extracts the request path from an HTTP request line such as
/// `GET /callback?code=x HTTP/1.1`: the second whitespace-separated token.
pub fn request_path_of(line: &str) -> (r: Option<String>)
    ensures
        opt_view(r) == second_token(line@),
{
    let v = chars_of(line);
    proof {
        assert(v@.skip(0) =~= v@);
    }
    let w0 = scan_space(&v, 0);
    let e1 = scan_nonspace(&v, w0);
    proof {
        assert(v@.skip(0).skip(w0 as int) =~= v@.skip(w0 as int));
        assert(v@.skip(w0 as int).skip(e1 - w0) =~= v@.skip(e1 as int));
    }
    let w1 = scan_space(&v, e1);
    let e2 = scan_nonspace(&v, w1);
    proof {
        assert(v@.skip(e1 as int).skip(w1 - e1) =~= v@.skip(w1 as int));
    }
    if e1 > w0 && e2 > w1 {
        let tok = subrange_chars(&v, w1, e2);
        proof {
            assert(tok@ =~= v@.skip(w1 as int).take(e2 - w1));
        }
        Some(string_of(&tok))
    } else {
        None
    }
}

/// Judges the query pairs of an authorization callback: extracts the code,
/// state, error and error description (last occurrence of each), and
/// rejects a state that does not match the expected one.
pub fn callback_result_from_pairs(ps: &Vec<(String, String)>, expected_state: &str) -> (r: Result<
    CallbackResult,
    String,
>)
    ensures
        ({
            let pv = pair_views(ps@);
            let st = last_val(pv, "state"@);
            match r {
                Ok(cb) => {
                    &&& (st matches Some(s) ==> s == expected_state@)
                    &&& opt_view(cb.code) == last_val(pv, "code"@)
                    &&& opt_view(cb.state) == st
                    &&& opt_view(cb.error) == last_val(pv, "error"@)
                    &&& opt_view(cb.error_description) == last_val(pv, "error_description"@)
                },
                Err(e) => {
                    &&& st matches Some(s) && s != expected_state@
                    &&& e@ == "State mismatch - possible CSRF attack"@
                },
            }
        }),
{
    let code = last_pair_value(ps, "code");
    let state = last_pair_value(ps, "state");
    let error = last_pair_value(ps, "error");
    let error_description = last_pair_value(ps, "error_description");
    if let Some(s) = &state {
        if !str_eq(s.as_str(), expected_state) {
            let msg: String = <String as StringExecFns>::from_str(
                "State mismatch - possible CSRF attack",
            );
            return Err(msg);
        }
    }
    Ok(CallbackResult { code, state, error, error_description })
}

/// The token endpoint a flow uses: the configured one, else the one from
/// discovery.
pub fn token_endpoint_of(config: &OidcConfig, discovery: Option<&OidcDiscovery>) -> (r: Result<
    String,
    String,
>)
    ensures
        ({
            let ep = match config.token_endpoint {
                Some(e) => Some(e@),
                None => match discovery {
                    Some(d) => Some(d.token_endpoint@),
                    None => None,
                },
            };
            match r {
                Ok(u) => ep == Some(u@),
                Err(e) => ep is None && e@ == "No token endpoint configured"@,
            }
        }),
{
    match &config.token_endpoint {
        Some(e) => Ok(e.clone()),
        None => match discovery {
            Some(d) => Ok(d.token_endpoint.clone()),
            None => {
                let msg: String = <String as StringExecFns>::from_str(
                    "No token endpoint configured",
                );
                Err(msg)
            },
        },
    }
}

/// The form parameters of an authorization-code token request, with the
/// client secret appended for a confidential client.
pub fn token_request_params(config: &OidcConfig, code: &str, code_verifier: &str) -> (r: Vec<
    (String, String),
>)
    ensures
        pair_views(r@) == seq![
            ("grant_type"@, "authorization_code"@),
            ("code"@, code@),
            ("redirect_uri"@, config.redirect_url@),
            ("client_id"@, config.client_id@),
            ("code_verifier"@, code_verifier@),
        ] + (match config.client_secret {
            Some(s) => seq![("client_secret"@, s@)],
            None => Seq::<(Seq<char>, Seq<char>)>::empty(),
        }),
{
    let mut params: Vec<(String, String)> = Vec::new();
    params.push(
        (
            <String as StringExecFns>::from_str("grant_type"),
            <String as StringExecFns>::from_str("authorization_code"),
        ),
    );
    params.push(
        (<String as StringExecFns>::from_str("code"), <String as StringExecFns>::from_str(code)),
    );
    params.push((<String as StringExecFns>::from_str("redirect_uri"), config.redirect_url.clone()));
    params.push((<String as StringExecFns>::from_str("client_id"), config.client_id.clone()));
    params.push(
        (
            <String as StringExecFns>::from_str("code_verifier"),
            <String as StringExecFns>::from_str(code_verifier),
        ),
    );
    if let Some(secret) = &config.client_secret {
        params.push((<String as StringExecFns>::from_str("client_secret"), secret.clone()));
        proof {
            assert(pair_views(params@) =~= seq![
                ("grant_type"@, "authorization_code"@),
                ("code"@, code@),
                ("redirect_uri"@, config.redirect_url@),
                ("client_id"@, config.client_id@),
                ("code_verifier"@, code_verifier@),
            ] + seq![("client_secret"@, (config.client_secret->0)@)]);
        }
    } else {
        proof {
            assert(pair_views(params@) =~= seq![
                ("grant_type"@, "authorization_code"@),
                ("code"@, code@),
                ("redirect_uri"@, config.redirect_url@),
                ("client_id"@, config.client_id@),
                ("code_verifier"@, code_verifier@),
            ] + Seq::<(Seq<char>, Seq<char>)>::empty());
        }
    }
    params
}

/// The form parameters of a refresh-token request, with the client secret
/// appended for a confidential client.
pub fn refresh_request_params(config: &OidcConfig, refresh_token: &str) -> (r: Vec<
    (String, String),
>)
    ensures
        pair_views(r@) == seq![
            ("grant_type"@, "refresh_token"@),
            ("refresh_token"@, refresh_token@),
            ("client_id"@, config.client_id@),
        ] + (match config.client_secret {
            Some(s) => seq![("client_secret"@, s@)],
            None => Seq::<(Seq<char>, Seq<char>)>::empty(),
        }),
{
    let mut params: Vec<(String, String)> = Vec::new();
    params.push(
        (
            <String as StringExecFns>::from_str("grant_type"),
            <String as StringExecFns>::from_str("refresh_token"),
        ),
    );
    params.push(
        (
            <String as StringExecFns>::from_str("refresh_token"),
            <String as StringExecFns>::from_str(refresh_token),
        ),
    );
    params.push((<String as StringExecFns>::from_str("client_id"), config.client_id.clone()));
    if let Some(secret) = &config.client_secret {
        params.push((<String as StringExecFns>::from_str("client_secret"), secret.clone()));
        proof {
            assert(pair_views(params@) =~= seq![
                ("grant_type"@, "refresh_token"@),
                ("refresh_token"@, refresh_token@),
                ("client_id"@, config.client_id@),
            ] + seq![("client_secret"@, (config.client_secret->0)@)]);
        }
    } else {
        proof {
            assert(pair_views(params@) =~= seq![
                ("grant_type"@, "refresh_token"@),
                ("refresh_token"@, refresh_token@),
                ("client_id"@, config.client_id@),
            ] + Seq::<(Seq<char>, Seq<char>)>::empty());
        }
    }
    params
}

} // verus!
