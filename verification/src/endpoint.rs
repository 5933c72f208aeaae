//! Credential endpoints: the URLs that credentials may be sent to.

use vstd::prelude::*;
use vstd::string::*;
use crate::credential_path;
use crate::text;

verus! {

/// The parts of a URL that the credential rules read.
#[derive(Debug)]
pub struct UrlParts {
    pub scheme: String,
    pub host: Option<String>,
    /// The port that is written, or else the scheme's own.
    pub port: Option<u16>,
    pub path: String,
    /// The decoded query parameters, in their order.
    pub query_pairs: Vec<(String, String)>,
    pub fragment: Option<String>,
}

#[verifier::ext_equal]
pub ghost struct UrlPartsView {
    pub scheme: Seq<char>,
    pub host: Option<Seq<char>>,
    pub port: Option<u16>,
    pub path: Seq<char>,
    pub query_pairs: Seq<(Seq<char>, Seq<char>)>,
    pub fragment: Option<Seq<char>>,
}

impl View for UrlParts {
    type V = UrlPartsView;

    open spec fn view(&self) -> UrlPartsView {
        UrlPartsView {
            scheme: self.scheme@,
            host: text::option_view(self.host),
            port: self.port,
            path: self.path@,
            query_pairs: text::pair_texts(self.query_pairs@),
            fragment: text::option_view(self.fragment),
        }
    }
}

pub open spec fn parsed_view(u: Option<UrlParts>) -> Option<UrlPartsView> {
    match u {
        Some(p) => Some(p@),
        None => None,
    }
}

pub open spec fn endpoint_view(r: Result<UrlParts, &'static str>) -> Result<UrlPartsView, Seq<char>> {
    match r {
        Ok(p) => Ok(p@),
        Err(e) => Err(e@),
    }
}

/// What `url::Url::parse` reads out of a text, where it takes the text for a URL.
pub uninterp spec fn url_parts(s: Seq<char>) -> Option<UrlPartsView>;

/// Parses a URL with `url::Url::parse` and takes out the parts that the rules
/// read, each with the accessor of its name (the port with
/// `port_or_known_default`). The parts depend on the text alone; nothing else is
/// claimed of them.
#[verifier::external_body]
pub(crate) fn parse_url(s: &str) -> (r: Option<UrlParts>)
    ensures
        parsed_view(r) == url_parts(s@),
{
    let url = url::Url::parse(s).ok()?;
    Some(UrlParts {
        scheme: url.scheme().to_owned(),
        host: url.host_str().map(str::to_owned),
        port: url.port_or_known_default(),
        path: url.path().to_owned(),
        query_pairs: url.query_pairs().map(|(n, v)| (n.into_owned(), v.into_owned())).collect(),
        fragment: url.fragment().map(str::to_owned),
    })
}

/// The path of a URL as it is written, before any normalization: what stands
/// between the authority and the query or fragment.
pub open spec fn written_path(s: Seq<char>) -> Result<Seq<char>, Seq<char>> {
    match text::find_text(s, "://"@, 0) {
        None => Err("credential endpoint is not an absolute URL"@),
        Some(i) => {
            let rest = s.skip(i + 3);
            let tail = rest.skip(text::span(rest, seq!['/', '?', '#']));
            if tail.len() == 0 || tail[0] != '/' {
                Ok(seq!['/'])
            } else {
                Ok(tail.take(text::span(tail, seq!['?', '#'])))
            }
        },
    }
}

fn raw_endpoint_path(endpoint: &str) -> (r: Result<String, &'static str>)
    ensures
        credential_path::text_result(r) == written_path(endpoint@),
{
    let v = text::to_chars(endpoint);
    let mark = text::to_chars("://");
    proof {
        reveal_strlit("://");
    }
    match text::find(&v, &mark, 0) {
        None => Err("credential endpoint is not an absolute URL"),
        Some(i) => {
            assert(i + 3 <= v.len());
            let rest = text::slice(&v, i + 3, v.len());
            assert(rest@ =~= v@.skip(i + 3));
            let n = text::span_from(&rest, 0, &vec!['/', '?', '#']);
            assert(rest@.skip(0) =~= rest@);
            let tail = text::slice(&rest, n, rest.len());
            assert(tail@ =~= rest@.skip(n as int));
            if tail.len() == 0 || tail[0] != '/' {
                let root: Vec<char> = vec!['/'];
                assert(root@ =~= seq!['/']);
                Ok(text::from_chars(&root))
            } else {
                let m = text::span_from(&tail, 0, &vec!['?', '#']);
                assert(tail@.skip(0) =~= tail@);
                let path = text::slice(&tail, 0, m);
                assert(path@ =~= tail@.take(m as int));
                Ok(text::from_chars(&path))
            }
        },
    }
}

/// What is made of a credential endpoint, given what the URL parser made of it.
pub open spec fn checked_endpoint(s: Seq<char>, parsed: Option<UrlPartsView>) -> Result<
    UrlPartsView,
    Seq<char>,
> {
    if s.contains('\\') {
        Err("credential endpoint must not contain a backslash"@)
    } else if !credential_path::percent_encoding_ok(s) {
        Err("URL text contains malformed percent encoding"@)
    } else if written_path(s) is Err {
        Err(written_path(s)->Err_0)
    } else if credential_path::canonical_path(written_path(s)->Ok_0) is Err {
        Err(credential_path::canonical_path(written_path(s)->Ok_0)->Err_0)
    } else {
        match parsed {
            None => Err("credential endpoint is not a URL"@),
            Some(u) => if u.scheme != "http"@ && u.scheme != "https"@ {
                Err("credential endpoint must use http:// or https://"@)
            } else if u.host is None {
                Err("credential endpoint must include a host"@)
            } else if u.fragment is Some {
                Err("credential endpoint must not contain a fragment"@)
            } else if credential_path::canonical_path(u.path) is Err {
                Err(credential_path::canonical_path(u.path)->Err_0)
            } else {
                Ok(u)
            },
        }
    }
}

/// Check a credential endpoint against what the URL parser made of it.
pub fn check_credential_endpoint<'a>(endpoint: &str, parsed: &'a Option<UrlParts>) -> (r: Result<
    &'a UrlParts,
    &'static str,
>)
    ensures
        match r {
            Ok(u) => checked_endpoint(endpoint@, parsed_view(*parsed)) == Ok::<_, Seq<char>>(u@)
                && *parsed == Some(*u),
            Err(e) => checked_endpoint(endpoint@, parsed_view(*parsed)) == Err::<UrlPartsView, _>(
                e@,
            ),
        },
{
    if text::member(&text::to_chars(endpoint), '\\') {
        return Err("credential endpoint must not contain a backslash");
    }
    match credential_path::validate_url_percent_encoding(endpoint) {
        Err(e) => {
            return Err(e);
        },
        Ok(()) => {},
    }
    match raw_endpoint_path(endpoint) {
        Err(e) => {
            return Err(e);
        },
        Ok(path) => match credential_path::canonicalize_credential_path(path.as_str()) {
            Err(e) => {
                return Err(e);
            },
            Ok(_) => {},
        },
    }
    match parsed {
        None => Err("credential endpoint is not a URL"),
        Some(u) => {
            if !text::same(u.scheme.as_str(), "http") && !text::same(u.scheme.as_str(), "https") {
                return Err("credential endpoint must use http:// or https://");
            }
            if u.host.is_none() {
                return Err("credential endpoint must include a host");
            }
            if u.fragment.is_some() {
                return Err("credential endpoint must not contain a fragment");
            }
            match credential_path::canonicalize_credential_path(u.path.as_str()) {
                Err(e) => Err(e),
                Ok(_) => Ok(u),
            }
        },
    }
}

/// Parse and validate the URL syntax shared by credential policy and runtime.
pub fn parse_credential_endpoint(endpoint: &str) -> (r: Result<UrlParts, &'static str>)
    ensures
        endpoint_view(r) == checked_endpoint(endpoint@, url_parts(endpoint@)),
{
    let parsed = parse_url(endpoint);
    match check_credential_endpoint(endpoint, &parsed) {
        Err(e) => {
            return Err(e);
        },
        Ok(_) => {},
    }
    match parsed {
        Some(u) => Ok(u),
        None => Err("credential endpoint is not a URL"),
    }
}

/// Whether a query parameter's value asks for a credential.
pub open spec fn is_placeholder(value: Seq<char>) -> bool {
    text::starts_with(value, "axis:resolve:"@)
}

/// Whether an endpoint asks for a credential: somewhere in its text, or in the
/// decoded value of a query parameter.
pub open spec fn has_placeholder(s: Seq<char>, parsed: Option<UrlPartsView>) -> bool {
    ||| text::contains_text(s, "axis:resolve:"@)
    ||| parsed matches Some(u) && exists|i: int|
        0 <= i < u.query_pairs.len() && is_placeholder((#[trigger] u.query_pairs[i]).1)
}

/// Detect credential placeholders, given what the URL parser made of the endpoint.
pub fn endpoint_has_placeholder(endpoint: &str, parsed: &Option<UrlParts>) -> (r: bool)
    ensures
        r == has_placeholder(endpoint@, parsed_view(*parsed)),
{
    if text::contains(endpoint, "axis:resolve:") {
        return true;
    }
    match parsed {
        None => false,
        Some(u) => {
            for i in 0..u.query_pairs.len()
                invariant
                    parsed_view(*parsed) == Some(u@),
                    forall|j: int|
                        0 <= j < i ==> !is_placeholder((#[trigger] u@.query_pairs[j]).1),
            {
                if text::has_prefix(u.query_pairs[i].1.as_str(), "axis:resolve:") {
                    assert(is_placeholder(u@.query_pairs[i as int].1));
                    return true;
                }
            }
            false
        },
    }
}

/// Detect credential placeholders in structured query data or rejected URL parts.
pub fn credential_endpoint_has_placeholder(endpoint: &str) -> (r: bool)
    ensures
        r == has_placeholder(endpoint@, url_parts(endpoint@)),
{
    endpoint_has_placeholder(endpoint, &parse_url(endpoint))
}

/// The path of a URL is what stands between its authority and its query or
/// fragment, as it is written; where nothing stands there it is the root. A text
/// without a scheme has none.
pub proof fn law_path_as_it_is_written(
    scheme: Seq<char>,
    authority: Seq<char>,
    path: Seq<char>,
    rest: Seq<char>,
)
    requires
        !scheme.contains(':'),
        !authority.contains('/') && !authority.contains('?') && !authority.contains('#'),
        path.len() > 0 ==> path[0] == '/',
        !path.contains('?') && !path.contains('#'),
        rest.len() > 0 ==> rest[0] == '?' || rest[0] == '#',
    ensures
        written_path(scheme + "://"@ + authority + path + rest) == Ok::<_, Seq<char>>(
            if path.len() == 0 {
                seq!['/']
            } else {
                path
            },
        ),
        written_path(scheme) is Err,
{
    reveal_strlit("://");
    let mark = "://"@;
    let s = scheme + mark + authority + path + rest;
    let n = scheme.len() as int;
    assert(s.subrange(n, n + 3) =~= mark);
    assert(text::occurs_at(s, mark, n));
    text::lemma_find_text(s, mark, 0);
    let i = text::find_text(s, mark, 0)->0;
    assert(i == n) by {
        if i < n {
            assert(s.subrange(i, i + 3)[0] == s[i]);
            assert(s[i] == scheme[i]);
            assert(scheme.contains(scheme[i]));
        }
    }
    let tail = path + rest;
    let all = s.skip(n + 3);
    assert(all =~= authority + tail);
    let stops = seq!['/', '?', '#'];
    assert(stops[0] == '/' && stops[1] == '?' && stops[2] == '#');
    let m = authority.len() as int;
    assert forall|j: int| 0 <= j < m implies !stops.contains(#[trigger] all[j]) by {
        assert(all[j] == authority[j]);
        assert(authority.contains(authority[j]));
    }
    if m < all.len() {
        assert(all[m] == tail[0]);
        assert(tail[0] == if path.len() > 0 { path[0] } else { rest[0] });
        assert(stops.contains(all[m]));
    }
    text::lemma_span(all, stops, m);
    assert(all.skip(m) =~= tail);
    if path.len() > 0 {
        let ends = seq!['?', '#'];
        assert(ends[0] == '?' && ends[1] == '#');
        let k = path.len() as int;
        assert forall|j: int| 0 <= j < k implies !ends.contains(#[trigger] tail[j]) by {
            assert(tail[j] == path[j]);
            assert(path.contains(path[j]));
        }
        if k < tail.len() {
            assert(tail[k] == rest[0]);
        }
        text::lemma_span(tail, ends, k);
        assert(tail.take(k) =~= path);
    }
    text::lemma_find_text(scheme, mark, 0);
    if let Some(j) = text::find_text(scheme, mark, 0) {
        assert(scheme.subrange(j, j + 3)[0] == scheme[j]);
        assert(scheme.contains(scheme[j]));
    }
}

/// A credential endpoint is taken as the URL parser has read it exactly when it
/// holds no backslash, is well encoded, has a path with a canonical form both as
/// it is written and as it was read, and is an HTTP or HTTPS URL with a host and
/// without a fragment.
pub proof fn law_which_endpoints_are_taken(s: Seq<char>, parsed: Option<UrlPartsView>)
    ensures
        checked_endpoint(s, parsed) is Ok <==> {
            &&& !s.contains('\\')
            &&& credential_path::percent_encoding_ok(s)
            &&& written_path(s) is Ok
            &&& credential_path::canonical_path(written_path(s)->Ok_0) is Ok
            &&& parsed is Some
            &&& parsed->0.scheme == "http"@ || parsed->0.scheme == "https"@
            &&& parsed->0.host is Some
            &&& parsed->0.fragment is None
            &&& credential_path::canonical_path(parsed->0.path) is Ok
        },
        checked_endpoint(s, parsed) matches Ok(u) ==> parsed == Some(u),
{
}

/// An endpoint asks for a credential exactly when `axis:resolve:` stands anywhere
/// in its text, or at the front of the value of a query parameter.
pub proof fn law_which_endpoints_ask_for_a_credential(
    s: Seq<char>,
    parsed: Option<UrlPartsView>,
    front: Seq<char>,
    back: Seq<char>,
)
    ensures
        has_placeholder(front + "axis:resolve:"@ + back, parsed),
        parsed matches Some(u) ==> forall|i: int|
            0 <= i < u.query_pairs.len() && "axis:resolve:"@.is_prefix_of(
                (#[trigger] u.query_pairs[i]).1,
            ) ==> has_placeholder(s, parsed),
        has_placeholder(s, parsed) ==> (exists|i: int|
            0 <= i <= s.len() - 13 && #[trigger] s.subrange(i, i + 13) == "axis:resolve:"@) || (
        parsed is Some && exists|i: int|
            0 <= i < parsed->0.query_pairs.len() && "axis:resolve:"@.is_prefix_of(
                (#[trigger] parsed->0.query_pairs[i]).1,
            )),
{
    reveal_strlit("axis:resolve:");
    let mark = "axis:resolve:"@;
    let t = front + mark + back;
    let n = front.len() as int;
    assert(t.subrange(n, n + 13) =~= mark);
    assert(text::occurs_at(t, mark, n));
    if let Some(u) = parsed {
        assert forall|i: int|
            0 <= i < u.query_pairs.len() && mark.is_prefix_of((#[trigger] u.query_pairs[i]).1)
            implies has_placeholder(s, parsed) by {
            let v = u.query_pairs[i].1;
            assert(v.subrange(0, 13) =~= mark);
            assert(is_placeholder(v));
        }
    }
    if has_placeholder(s, parsed) && !text::contains_text(s, mark) {
        let u = parsed->0;
        let i = choose|i: int|
            0 <= i < u.query_pairs.len() && is_placeholder((#[trigger] u.query_pairs[i]).1);
        assert(mark.is_prefix_of(u.query_pairs[i].1));
    }
    if text::contains_text(s, mark) {
        let i = choose|i: int| text::occurs_at(s, mark, i);
        assert(s.subrange(i, i + 13) == mark);
    }
}

/// Why a credential endpoint is refused is said in this order: a backslash, a bad
/// encoding, no scheme, and then whatever is wrong with the URL as it was read.
pub proof fn law_why_an_endpoint_is_refused(s: Seq<char>, parsed: Option<UrlPartsView>)
    ensures
        s.contains('\\') ==> checked_endpoint(s, parsed) == Err::<UrlPartsView, _>(
            "credential endpoint must not contain a backslash"@,
        ),
        !s.contains('\\') && !credential_path::percent_encoding_ok(s) ==> checked_endpoint(
            s,
            parsed,
        ) == Err::<UrlPartsView, _>("URL text contains malformed percent encoding"@),
        !s.contains('\\') && credential_path::percent_encoding_ok(s) && !text::contains_text(
            s,
            "://"@,
        ) ==> checked_endpoint(s, parsed) == Err::<UrlPartsView, _>(
            "credential endpoint is not an absolute URL"@,
        ),
        !s.contains('\\') && credential_path::percent_encoding_ok(s) && written_path(s) is Ok
            && credential_path::canonical_path(written_path(s)->Ok_0) is Err ==> checked_endpoint(
            s,
            parsed,
        ) == Err::<UrlPartsView, _>(
            credential_path::canonical_path(written_path(s)->Ok_0)->Err_0,
        ),
        !s.contains('\\') && credential_path::percent_encoding_ok(s) && written_path(s) is Ok
            && credential_path::canonical_path(written_path(s)->Ok_0) is Ok ==> {
            &&& parsed is None ==> checked_endpoint(s, parsed) == Err::<UrlPartsView, _>(
                "credential endpoint is not a URL"@,
            )
            &&& parsed matches Some(u) ==> {
                let known = u.scheme == "http"@ || u.scheme == "https"@;
                &&& !known ==> checked_endpoint(s, parsed) == Err::<UrlPartsView, _>(
                    "credential endpoint must use http:// or https://"@,
                )
                &&& known && u.host is None ==> checked_endpoint(s, parsed) == Err::<
                    UrlPartsView,
                    _,
                >("credential endpoint must include a host"@)
                &&& known && u.host is Some && u.fragment is Some ==> checked_endpoint(s, parsed)
                    == Err::<UrlPartsView, _>("credential endpoint must not contain a fragment"@)
                &&& known && u.host is Some && u.fragment is None
                    && credential_path::canonical_path(u.path) is Err ==> checked_endpoint(
                    s,
                    parsed,
                ) == Err::<UrlPartsView, _>(credential_path::canonical_path(u.path)->Err_0)
            }
        },
{
    text::lemma_find_text(s, "://"@, 0);
    if text::find_text(s, "://"@, 0) is Some {
        assert(text::occurs_at(s, "://"@, text::find_text(s, "://"@, 0)->0));
    }
}

} // verus!
