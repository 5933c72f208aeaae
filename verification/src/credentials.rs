//! Host-boundary credentials: which inference routes may carry them, and where
//! each of them is sent.

use vstd::prelude::*;
use vstd::string::*;
use crate::credential_path;
use crate::endpoint;
use crate::endpoint::UrlParts;
use crate::host;
use crate::policy::{InferenceRoute, NetworkMode, PolicyError};
use crate::policy;
use crate::text;
use crate::verdict;

verus! {

/// The refusal of a policy for the reason `m`.
pub open spec fn refused<T>(m: Seq<char>) -> Result<T, policy::PolicyErrorView> {
    Err(policy::PolicyErrorView::ValidationError(m))
}

pub open spec fn verdict_view(r: Result<(), PolicyError>) -> Result<(), policy::PolicyErrorView> {
    match r {
        Ok(()) => Ok(()),
        Err(e) => Err(e@),
    }
}

/// Where a route's credential may be sent.
#[derive(Debug)]
pub struct CredentialScope {
    pub route: String,
    pub host: String,
    pub port: u16,
    pub path: String,
}

#[verifier::ext_equal]
pub ghost struct CredentialScopeView {
    pub route: Seq<char>,
    pub host: Seq<char>,
    pub port: u16,
    pub path: Seq<char>,
}

impl View for CredentialScope {
    type V = CredentialScopeView;

    open spec fn view(&self) -> CredentialScopeView {
        CredentialScopeView {
            route: self.route@,
            host: self.host@,
            port: self.port,
            path: self.path@,
        }
    }
}

pub open spec fn scope_view(s: Option<CredentialScope>) -> Option<CredentialScopeView> {
    match s {
        Some(s) => Some(s@),
        None => None,
    }
}

pub open spec fn scope_result(r: Result<Option<CredentialScope>, PolicyError>) -> Result<
    Option<CredentialScopeView>,
    policy::PolicyErrorView,
> {
    match r {
        Ok(s) => Ok(scope_view(s)),
        Err(e) => Err(e@),
    }
}

/// An environment variable that may hold a credential: capitals, digits and `_`.
pub open spec fn is_credential_env_name(s: Seq<char>) -> bool {
    &&& s.len() > 0
    &&& forall|i: int|
        0 <= i < s.len() ==> text::is_upper(#[trigger] s[i]) || text::is_digit(s[i]) || s[i] == '_'
}

pub open spec fn env_name_verdict(route: Seq<char>, env_name: Seq<char>) -> Result<
    (),
    policy::PolicyErrorView,
> {
    if is_credential_env_name(env_name) {
        Ok(())
    } else {
        refused(
            "inference route '"@ + route
                + "' api_key_env must be a non-empty uppercase environment variable name: "@
                + env_name,
        )
    }
}

pub fn validate_credential_env_name(route: &str, env_name: &str) -> (r: Result<(), PolicyError>)
    ensures
        verdict_view(r) == env_name_verdict(route@, env_name@),
{
    let v = text::to_chars(env_name);
    let mut valid = v.len() > 0;
    for i in 0..v.len()
        invariant
            v@ == env_name@,
            valid == (v@.len() > 0 && forall|j: int|
                0 <= j < i ==> text::is_upper(#[trigger] v@[j]) || text::is_digit(v@[j]) || v@[j]
                    == '_'),
    {
        let c = v[i];
        if !('A' <= c && c <= 'Z') && !text::digit(c) && c != '_' {
            assert(!text::is_upper(v@[i as int]) && !text::is_digit(v@[i as int]) && v@[i as int]
                != '_');
            valid = false;
        }
    }
    if valid {
        Ok(())
    } else {
        Err(
            PolicyError::ValidationError(
                "inference route '".to_owned().concat(route).concat(
                    "' api_key_env must be a non-empty uppercase environment variable name: ",
                ).concat(env_name),
            ),
        )
    }
}

/// Whether no other query parameter has the name of parameter `i`, in any case.
pub open spec fn is_sole_definition(pairs: Seq<(Seq<char>, Seq<char>)>, i: int) -> bool {
    forall|j: int|
        0 <= j < pairs.len() && j != i ==> !text::same_ignoring_case(
            (#[trigger] pairs[j]).0,
            pairs[i].0,
        )
}

/// The verdict on query parameter `i` of a route's endpoint.
pub open spec fn query_verdict(
    route: Seq<char>,
    pairs: Seq<(Seq<char>, Seq<char>)>,
    i: int,
) -> Result<(), policy::PolicyErrorView> {
    let name = pairs[i].0;
    let value = pairs[i].1;
    let mark = "axis:resolve:env:"@;
    if !endpoint::is_placeholder(value) {
        Ok(())
    } else if name.len() == 0 {
        refused(
            "inference route '"@ + route + "' credential query placeholder must have a name"@,
        )
    } else if !text::starts_with(value, mark) {
        refused(
            "inference route '"@ + route + "' contains unsupported credential placeholder '"@
                + value + "'"@,
        )
    } else if env_name_verdict(route, value.skip(mark.len() as int)) is Err {
        env_name_verdict(route, value.skip(mark.len() as int))
    } else if !is_sole_definition(pairs, i) {
        refused(
            "inference route '"@ + route + "' credential query parameter '"@ + name
                + "' must have one unambiguous definition"@,
        )
    } else {
        Ok(())
    }
}

fn sole_definition(pairs: &Vec<(String, String)>, i: usize) -> (r: bool)
    requires
        i < pairs@.len(),
    ensures
        r == is_sole_definition(text::pair_texts(pairs@), i as int),
{
    let ghost all = text::pair_texts(pairs@);
    for j in 0..pairs.len()
        invariant
            i < pairs@.len(),
            all == text::pair_texts(pairs@),
            forall|k: int|
                0 <= k < j && k != i ==> !text::same_ignoring_case(
                    (#[trigger] all[k]).0,
                    all[i as int].0,
                ),
    {
        if j != i && text::eq_ignore_case(pairs[j].0.as_str(), pairs[i].0.as_str()) {
            assert(text::same_ignoring_case(all[j as int].0, all[i as int].0));
            return false;
        }
    }
    true
}

fn check_query_pair(route: &str, pairs: &Vec<(String, String)>, i: usize) -> (r: Result<
    (),
    PolicyError,
>)
    requires
        i < pairs@.len(),
    ensures
        verdict_view(r) == query_verdict(route@, text::pair_texts(pairs@), i as int),
{
    let name = &pairs[i].0;
    let value = &pairs[i].1;
    let ghost all = text::pair_texts(pairs@);
    assert(all[i as int] == (name@, value@));
    if !text::has_prefix(value.as_str(), "axis:resolve:") {
        return Ok(());
    }
    let name_chars = text::to_chars(name.as_str());
    if name_chars.len() == 0 {
        return Err(
            PolicyError::ValidationError(
                "inference route '".to_owned().concat(route).concat(
                    "' credential query placeholder must have a name",
                ),
            ),
        );
    }
    let mark = text::to_chars("axis:resolve:env:");
    let chars = text::to_chars(value.as_str());
    if !text::occurs(&chars, &mark, 0) {
        return Err(
            PolicyError::ValidationError(
                "inference route '".to_owned().concat(route).concat(
                    "' contains unsupported credential placeholder '",
                ).concat(value.as_str()).concat("'"),
            ),
        );
    }
    let env_name = text::from_chars(&text::slice(&chars, mark.len(), chars.len()));
    assert(env_name@ =~= value@.skip(mark@.len() as int));
    match validate_credential_env_name(route, env_name.as_str()) {
        Err(e) => {
            return Err(e);
        },
        Ok(()) => {},
    }
    if !sole_definition(pairs, i) {
        return Err(
            PolicyError::ValidationError(
                "inference route '".to_owned().concat(route).concat(
                    "' credential query parameter '",
                ).concat(name.as_str()).concat("' must have one unambiguous definition"),
            ),
        );
    }
    Ok(())
}

pub open spec fn queries_verdict(route: Seq<char>, pairs: Seq<(Seq<char>, Seq<char>)>) -> Result<
    (),
    policy::PolicyErrorView,
> {
    verdict::first_error(pairs.len() as int, |i: int| query_verdict(route, pairs, i))
}

fn check_query_pairs(route: &str, pairs: &Vec<(String, String)>) -> (r: Result<(), PolicyError>)
    ensures
        verdict_view(r) == queries_verdict(route@, text::pair_texts(pairs@)),
{
    let ghost all = text::pair_texts(pairs@);
    let ghost check = |i: int| query_verdict(route@, all, i);
    for i in 0..pairs.len()
        invariant
            all == text::pair_texts(pairs@),
            check == (|i: int| query_verdict(route@, all, i)),
            verdict::first_error(i as int, check) is Ok,
    {
        match check_query_pair(route, pairs, i) {
            Err(e) => {
                proof {
                    verdict::lemma_first_error_stays(i + 1, pairs@.len() as int, check);
                }
                return Err(e);
            },
            Ok(()) => {},
        }
    }
    Ok(())
}

/// Whether a route carries credentials over the host boundary: it names a key,
/// or its endpoint asks for one.
pub open spec fn has_credentials(
    route: InferenceRoute,
    parsed: Option<endpoint::UrlPartsView>,
) -> bool {
    ||| route.api_key_env is Some
    ||| route.endpoint matches Some(e) && endpoint::has_placeholder(e@, parsed)
}

/// Whether a route carries credentials to anywhere but a plain HTTP endpoint.
pub open spec fn has_https_credentials(
    route: InferenceRoute,
    parsed: Option<endpoint::UrlPartsView>,
) -> bool {
    has_credentials(route, parsed) && !(parsed matches Some(u) && u.scheme == "http"@)
}

/// What the URL parser makes of a route's endpoint.
pub open spec fn route_url(route: InferenceRoute) -> Option<endpoint::UrlPartsView> {
    match route.endpoint {
        Some(e) => endpoint::url_parts(e@),
        None => None,
    }
}

/// The endpoint of a route with credentials, or why it cannot be used.
pub open spec fn endpoint_verdict(
    route: InferenceRoute,
    parsed: Option<endpoint::UrlPartsView>,
) -> Result<endpoint::UrlPartsView, policy::PolicyErrorView> {
    match route.endpoint {
        None => refused(
            "inference route '"@ + route.name@
                + "' with host-boundary credentials requires an explicit http:// endpoint"@,
        ),
        Some(e) => match endpoint::checked_endpoint(e@, parsed) {
            Err(reason) => refused(
                "inference route '"@ + route.name@ + "' has an invalid credential endpoint: "@
                    + reason,
            ),
            Ok(u) => Ok(u),
        },
    }
}

/// Where the credential of the route `name` goes with the endpoint `u`, or why
/// it may not go there.
pub open spec fn destination(name: Seq<char>, u: endpoint::UrlPartsView) -> Result<
    CredentialScopeView,
    policy::PolicyErrorView,
> {
    if u.scheme != "http"@ {
        refused(
            "inference route '"@ + name
                + "' requests unsupported HTTPS credential injection; a per-sandbox CA trust path is not available"@,
        )
    } else if u.host is None {
        refused("inference route '"@ + name + "' credential endpoint must include a host"@)
    } else {
        match host::canonical_host(u.host->0) {
            Err(reason) => refused(
                "inference route '"@ + name + "' has an invalid credential endpoint host: "@
                    + reason,
            ),
            Ok(host) => if host != "inference.local"@ {
                refused(
                    "inference route '"@ + name
                        + "' may inject credentials only through inference.local; localhost and loopback origins are denied by runtime SSRF controls"@,
                )
            } else if u.port is None {
                refused(
                    "inference route '"@ + name + "' credential endpoint has no effective port"@,
                )
            } else {
                match credential_path::canonical_path(u.path) {
                    Err(reason) => refused(
                        "inference route '"@ + name
                            + "' has an invalid credential endpoint path: "@ + reason,
                    ),
                    Ok(path) => Ok(
                        CredentialScopeView { route: name, host, port: u.port->0, path },
                    ),
                }
            },
        }
    }
}

/// The scope of a route's credential; none where the route carries none.
pub open spec fn route_scope(
    route: InferenceRoute,
    mode: NetworkMode,
    parsed: Option<endpoint::UrlPartsView>,
) -> Result<Option<CredentialScopeView>, policy::PolicyErrorView> {
    if !has_credentials(route, parsed) {
        Ok(None)
    } else if route.api_key_env is Some && env_name_verdict(
        route.name@,
        route.api_key_env->0@,
    ) is Err {
        Err(env_name_verdict(route.name@, route.api_key_env->0@)->Err_0)
    } else if mode != NetworkMode::Proxy {
        refused(
            "inference route '"@ + route.name@
                + "' requires network.mode: proxy for host-boundary credential injection"@,
        )
    } else {
        match endpoint_verdict(route, parsed) {
            Err(e) => Err(e),
            Ok(u) => if queries_verdict(route.name@, u.query_pairs) is Err {
                Err(queries_verdict(route.name@, u.query_pairs)->Err_0)
            } else {
                match destination(route.name@, u) {
                    Err(e) => Err(e),
                    Ok(s) => Ok(Some(s)),
                }
            },
        }
    }
}

fn check_destination(name: &str, u: &UrlParts) -> (r: Result<CredentialScope, PolicyError>)
    ensures
        match r {
            Ok(s) => destination(name@, u@) == Ok::<_, policy::PolicyErrorView>(s@),
            Err(e) => destination(name@, u@) == Err::<CredentialScopeView, _>(e@),
        },
{
    if !text::same(u.scheme.as_str(), "http") {
        return Err(
            PolicyError::ValidationError(
                "inference route '".to_owned().concat(name).concat(
                    "' requests unsupported HTTPS credential injection; a per-sandbox CA trust path is not available",
                ),
            ),
        );
    }
    let written = match &u.host {
        Some(h) => h,
        None => {
            return Err(
                PolicyError::ValidationError(
                    "inference route '".to_owned().concat(name).concat(
                        "' credential endpoint must include a host",
                    ),
                ),
            );
        },
    };
    let host = match host::canonicalize_network_host(written.as_str()) {
        Ok(h) => h,
        Err(reason) => {
            return Err(
                PolicyError::ValidationError(
                    "inference route '".to_owned().concat(name).concat(
                        "' has an invalid credential endpoint host: ",
                    ).concat(reason),
                ),
            );
        },
    };
    if !text::same(host.as_str(), "inference.local") {
        return Err(
            PolicyError::ValidationError(
                "inference route '".to_owned().concat(name).concat(
                    "' may inject credentials only through inference.local; localhost and loopback origins are denied by runtime SSRF controls",
                ),
            ),
        );
    }
    let port = match u.port {
        Some(p) => p,
        None => {
            return Err(
                PolicyError::ValidationError(
                    "inference route '".to_owned().concat(name).concat(
                        "' credential endpoint has no effective port",
                    ),
                ),
            );
        },
    };
    match credential_path::canonicalize_credential_path(u.path.as_str()) {
        Ok(path) => Ok(CredentialScope { route: name.to_owned(), host, port, path }),
        Err(reason) => Err(
            PolicyError::ValidationError(
                "inference route '".to_owned().concat(name).concat(
                    "' has an invalid credential endpoint path: ",
                ).concat(reason),
            ),
        ),
    }
}

impl InferenceRoute {
    /// Whether the route carries credentials, given its parsed endpoint.
    pub fn carries_credentials(&self, parsed: &Option<UrlParts>) -> (r: bool)
        ensures
            r == has_credentials(*self, endpoint::parsed_view(*parsed)),
    {
        if self.api_key_env.is_some() {
            return true;
        }
        match &self.endpoint {
            Some(e) => endpoint::endpoint_has_placeholder(e.as_str(), parsed),
            None => false,
        }
    }

    /// What the URL parser makes of the route's endpoint.
    pub fn parsed_endpoint(&self) -> (r: Option<UrlParts>)
        ensures
            endpoint::parsed_view(r) == route_url(*self),
    {
        match &self.endpoint {
            Some(e) => endpoint::parse_url(e.as_str()),
            None => None,
        }
    }

    pub fn has_host_boundary_credentials(&self) -> (r: bool)
        ensures
            r == has_credentials(*self, route_url(*self)),
    {
        self.carries_credentials(&self.parsed_endpoint())
    }

    /// Whether the route carries credentials to anywhere but a plain HTTP
    /// endpoint, given its parsed endpoint.
    pub fn carries_https_credentials(&self, parsed: &Option<UrlParts>) -> (r: bool)
        ensures
            r == has_https_credentials(*self, endpoint::parsed_view(*parsed)),
    {
        if !self.carries_credentials(parsed) {
            return false;
        }
        match parsed {
            Some(u) => !text::same(u.scheme.as_str(), "http"),
            None => true,
        }
    }

    pub fn uses_https_credentials(&self) -> (r: bool)
        ensures
            r == has_https_credentials(*self, route_url(*self)),
    {
        self.carries_https_credentials(&self.parsed_endpoint())
    }

    /// The route's endpoint for credentials, given what the URL parser made of it.
    pub fn credential_endpoint<'a>(&self, parsed: &'a Option<UrlParts>) -> (r: Result<
        &'a UrlParts,
        PolicyError,
    >)
        ensures
            match r {
                Ok(u) => endpoint_verdict(*self, endpoint::parsed_view(*parsed)) == Ok::<
                    _,
                    policy::PolicyErrorView,
                >(u@),
                Err(e) => endpoint_verdict(*self, endpoint::parsed_view(*parsed)) == Err::<
                    endpoint::UrlPartsView,
                    _,
                >(e@),
            },
    {
        match &self.endpoint {
            None => Err(
                PolicyError::ValidationError(
                    "inference route '".to_owned().concat(self.name.as_str()).concat(
                        "' with host-boundary credentials requires an explicit http:// endpoint",
                    ),
                ),
            ),
            Some(e) => match endpoint::check_credential_endpoint(e.as_str(), parsed) {
                Ok(u) => Ok(u),
                Err(reason) => Err(
                    PolicyError::ValidationError(
                        "inference route '".to_owned().concat(self.name.as_str()).concat(
                            "' has an invalid credential endpoint: ",
                        ).concat(reason),
                    ),
                ),
            },
        }
    }

    /// The scope of the route's credential under the network mode `mode`.
    pub fn credential_scope(&self, mode: NetworkMode, parsed: &Option<UrlParts>) -> (r: Result<
        Option<CredentialScope>,
        PolicyError,
    >)
        ensures
            scope_result(r) == route_scope(*self, mode, endpoint::parsed_view(*parsed)),
    {
        if !self.carries_credentials(parsed) {
            return Ok(None);
        }
        match &self.api_key_env {
            Some(env_name) => match validate_credential_env_name(
                self.name.as_str(),
                env_name.as_str(),
            ) {
                Err(e) => {
                    return Err(e);
                },
                Ok(()) => {},
            },
            None => {},
        }
        if mode != NetworkMode::Proxy {
            return Err(
                PolicyError::ValidationError(
                    "inference route '".to_owned().concat(self.name.as_str()).concat(
                        "' requires network.mode: proxy for host-boundary credential injection",
                    ),
                ),
            );
        }
        let url = match self.credential_endpoint(parsed) {
            Ok(u) => u,
            Err(e) => {
                return Err(e);
            },
        };
        match check_query_pairs(self.name.as_str(), &url.query_pairs) {
            Err(e) => {
                return Err(e);
            },
            Ok(()) => {},
        }
        match check_destination(self.name.as_str(), url) {
            Ok(s) => Ok(Some(s)),
            Err(e) => Err(e),
        }
    }
}

/// Whether a request could belong to both of two scopes.
pub open spec fn ambiguous(a: CredentialScopeView, b: CredentialScopeView) -> bool {
    &&& a.host == b.host
    &&& a.port == b.port
    &&& credential_path::scopes_overlap(a.path, b.path)
}

pub open spec fn pair_verdict(
    a: Option<CredentialScopeView>,
    b: Option<CredentialScopeView>,
) -> Result<(), policy::PolicyErrorView> {
    match (a, b) {
        (Some(a), Some(b)) => if ambiguous(a, b) {
            refused(
                "inference credential routes '"@ + a.route + "' and '"@ + b.route
                    + "' have ambiguous overlapping scopes on http://"@ + a.host + ":"@
                    + text::decimal(a.port as nat) + " ('"@ + a.path + "' and '"@ + b.path + "')"@,
            )
        } else {
            Ok(())
        },
        _ => Ok(()),
    }
}

fn check_pair(a: &CredentialScope, b: &CredentialScope) -> (r: Result<(), PolicyError>)
    ensures
        verdict_view(r) == pair_verdict(Some(a@), Some(b@)),
{
    if text::same(a.host.as_str(), b.host.as_str()) && a.port == b.port
        && credential_path::credential_paths_overlap(a.path.as_str(), b.path.as_str()) {
        Err(
            PolicyError::ValidationError(
                "inference credential routes '".to_owned().concat(a.route.as_str()).concat(
                    "' and '",
                ).concat(b.route.as_str()).concat(
                    "' have ambiguous overlapping scopes on http://",
                ).concat(a.host.as_str()).concat(":").concat(
                    text::decimal_text(a.port as u64).as_str(),
                ).concat(" ('").concat(a.path.as_str()).concat("' and '").concat(
                    b.path.as_str(),
                ).concat("')"),
            ),
        )
    } else {
        Ok(())
    }
}

/// The verdict on scope `i` against the scopes after it.
pub open spec fn later_verdict(scopes: Seq<Option<CredentialScopeView>>, i: int) -> Result<
    (),
    policy::PolicyErrorView,
> {
    verdict::first_error(
        scopes.len() - i - 1,
        |j: int| pair_verdict(scopes[i], scopes[i + 1 + j]),
    )
}

/// The verdict on all scopes together: each against those after it.
pub open spec fn scopes_verdict(scopes: Seq<Option<CredentialScopeView>>) -> Result<
    (),
    policy::PolicyErrorView,
> {
    verdict::first_error(scopes.len() as int, |i: int| later_verdict(scopes, i))
}

pub open spec fn scope_views(scopes: Seq<Option<CredentialScope>>) -> Seq<
    Option<CredentialScopeView>,
> {
    scopes.map_values(|s: Option<CredentialScope>| scope_view(s))
}

fn check_later(scopes: &Vec<Option<CredentialScope>>, i: usize) -> (r: Result<(), PolicyError>)
    requires
        i < scopes@.len(),
    ensures
        verdict_view(r) == later_verdict(scope_views(scopes@), i as int),
{
    let ghost all = scope_views(scopes@);
    let ghost check = |j: int| pair_verdict(all[i as int], all[i + 1 + j]);
    for j in i + 1..scopes.len()
        invariant
            i < scopes@.len(),
            all == scope_views(scopes@),
            check == (|j: int| pair_verdict(all[i as int], all[i + 1 + j])),
            verdict::first_error(j - i - 1, check) is Ok,
    {
        assert(check(j - i - 1) == pair_verdict(all[i as int], all[j as int]));
        assert(all[i as int] == scope_view(scopes@[i as int]));
        assert(all[j as int] == scope_view(scopes@[j as int]));
        match (&scopes[i], &scopes[j]) {
            (Some(a), Some(b)) => match check_pair(a, b) {
                Err(e) => {
                    proof {
                        verdict::lemma_first_error_stays(j - i, scopes@.len() - i - 1, check);
                    }
                    return Err(e);
                },
                Ok(()) => {},
            },
            _ => {},
        }
    }
    Ok(())
}

fn check_scopes(scopes: &Vec<Option<CredentialScope>>) -> (r: Result<(), PolicyError>)
    ensures
        verdict_view(r) == scopes_verdict(scope_views(scopes@)),
{
    let ghost all = scope_views(scopes@);
    let ghost check = |i: int| later_verdict(all, i);
    for i in 0..scopes.len()
        invariant
            all == scope_views(scopes@),
            check == (|i: int| later_verdict(all, i)),
            verdict::first_error(i as int, check) is Ok,
    {
        match check_later(scopes, i) {
            Err(e) => {
                proof {
                    verdict::lemma_first_error_stays(i + 1, scopes@.len() as int, check);
                }
                return Err(e);
            },
            Ok(()) => {},
        }
    }
    Ok(())
}

pub open spec fn parsed_views(parsed: Seq<Option<UrlParts>>) -> Seq<
    Option<endpoint::UrlPartsView>,
> {
    parsed.map_values(|p: Option<UrlParts>| endpoint::parsed_view(p))
}

/// What the URL parser makes of each route's endpoint.
pub open spec fn route_urls(routes: Seq<InferenceRoute>) -> Seq<Option<endpoint::UrlPartsView>> {
    routes.map_values(|r: InferenceRoute| route_url(r))
}

/// The verdict on route `i` alone.
pub open spec fn route_verdict(
    routes: Seq<InferenceRoute>,
    mode: NetworkMode,
    parsed: Seq<Option<endpoint::UrlPartsView>>,
    i: int,
) -> Result<(), policy::PolicyErrorView> {
    match route_scope(routes[i], mode, parsed[i]) {
        Ok(_) => Ok(()),
        Err(e) => Err(e),
    }
}

/// The scope of each route's credential, where all routes are in order.
pub open spec fn route_scopes(
    routes: Seq<InferenceRoute>,
    mode: NetworkMode,
    parsed: Seq<Option<endpoint::UrlPartsView>>,
) -> Seq<Option<CredentialScopeView>> {
    Seq::new(routes.len(), |i: int| route_scope(routes[i], mode, parsed[i])->Ok_0)
}

/// The verdict on the credentials of all routes: each route in its order, then
/// the scopes of all of them against each other.
pub open spec fn credentials_verdict(
    routes: Seq<InferenceRoute>,
    mode: NetworkMode,
    parsed: Seq<Option<endpoint::UrlPartsView>>,
) -> Result<(), policy::PolicyErrorView> {
    let each = verdict::first_error(
        routes.len() as int,
        |i: int| route_verdict(routes, mode, parsed, i),
    );
    if each is Err {
        each
    } else {
        scopes_verdict(route_scopes(routes, mode, parsed))
    }
}

/// Check the credentials of all routes, given what the URL parser made of each
/// route's endpoint.
pub fn check_credential_routes(
    routes: &Vec<InferenceRoute>,
    mode: NetworkMode,
    parsed: &Vec<Option<UrlParts>>,
) -> (r: Result<(), PolicyError>)
    requires
        parsed@.len() == routes@.len(),
    ensures
        verdict_view(r) == credentials_verdict(routes@, mode, parsed_views(parsed@)),
{
    let ghost urls = parsed_views(parsed@);
    let ghost check = |i: int| route_verdict(routes@, mode, urls, i);
    let mut scopes: Vec<Option<CredentialScope>> = Vec::new();
    for i in 0..routes.len()
        invariant
            parsed@.len() == routes@.len(),
            urls == parsed_views(parsed@),
            check == (|i: int| route_verdict(routes@, mode, urls, i)),
            verdict::first_error(i as int, check) is Ok,
            scopes@.len() == i,
            forall|j: int|
                0 <= j < i ==> scope_view(#[trigger] scopes@[j]) == route_scope(
                    routes@[j],
                    mode,
                    urls[j],
                )->Ok_0,
    {
        assert(urls[i as int] == endpoint::parsed_view(parsed@[i as int]));
        match routes[i].credential_scope(mode, &parsed[i]) {
            Err(e) => {
                proof {
                    verdict::lemma_first_error_stays(i + 1, routes@.len() as int, check);
                }
                return Err(e);
            },
            Ok(s) => {
                scopes.push(s);
            },
        }
    }
    assert(scope_views(scopes@) =~= route_scopes(routes@, mode, urls));
    check_scopes(&scopes)
}

/// A name is taken for that of a variable with a credential exactly when it is
/// made of capitals, digits and `_`.
pub proof fn law_which_variables_may_hold_a_credential(route: Seq<char>, name: Seq<char>)
    ensures
        env_name_verdict(route, name) is Ok <==> name.len() > 0 && forall|i: int|
            0 <= i < name.len() ==> 'A' <= #[trigger] name[i] <= 'Z' || '0' <= name[i] <= '9'
                || name[i] == '_',
{
    if env_name_verdict(route, name) is Ok {
        assert forall|i: int| 0 <= i < name.len() implies 'A' <= #[trigger] name[i] <= 'Z' || '0'
            <= name[i] <= '9' || name[i] == '_' by {
            assert(text::is_upper(name[i]) || text::is_digit(name[i]) || name[i] == '_');
        }
    }
    if name.len() > 0 && forall|i: int|
        0 <= i < name.len() ==> 'A' <= #[trigger] name[i] <= 'Z' || '0' <= name[i] <= '9' || name[i]
            == '_' {
        assert forall|i: int| 0 <= i < name.len() implies text::is_upper(#[trigger] name[i])
            || text::is_digit(name[i]) || name[i] == '_' by {
            assert('A' <= name[i] <= 'Z' || '0' <= name[i] <= '9' || name[i] == '_');
        }
    }
}

/// The query parameters of an endpoint are accepted exactly when each one whose
/// value starts with `axis:resolve:` has a name, goes on with `env:` and the name
/// of a variable in capitals, and shares its own name with no other parameter, in
/// any case.
pub proof fn law_which_query_parameters_are_accepted(
    route: Seq<char>,
    pairs: Seq<(Seq<char>, Seq<char>)>,
)
    ensures
        queries_verdict(route, pairs) is Ok <==> forall|i: int|
            0 <= i < pairs.len() && "axis:resolve:"@.is_prefix_of((#[trigger] pairs[i]).1) ==> {
                &&& pairs[i].0.len() > 0
                &&& "axis:resolve:env:"@.is_prefix_of(pairs[i].1)
                &&& pairs[i].1.len() > 17
                &&& forall|k: int|
                    17 <= k < pairs[i].1.len() ==> 'A' <= #[trigger] pairs[i].1[k] <= 'Z' || '0'
                        <= pairs[i].1[k] <= '9' || pairs[i].1[k] == '_'
                &&& forall|j: int|
                    0 <= j < pairs.len() && j != i ==> !text::same_ignoring_case(
                        (#[trigger] pairs[j]).0,
                        pairs[i].0,
                    )
            },
{
    let n = pairs.len() as int;
    let check = |i: int| query_verdict(route, pairs, i);
    verdict::lemma_first_error_ok(n, check);
    if queries_verdict(route, pairs) is Ok {
        assert forall|i: int|
            0 <= i < n && "axis:resolve:"@.is_prefix_of((#[trigger] pairs[i]).1) implies {
            &&& pairs[i].0.len() > 0
            &&& "axis:resolve:env:"@.is_prefix_of(pairs[i].1)
            &&& pairs[i].1.len() > 17
            &&& forall|k: int|
                17 <= k < pairs[i].1.len() ==> 'A' <= #[trigger] pairs[i].1[k] <= 'Z' || '0'
                    <= pairs[i].1[k] <= '9' || pairs[i].1[k] == '_'
            &&& forall|j: int|
                0 <= j < pairs.len() && j != i ==> !text::same_ignoring_case(
                    (#[trigger] pairs[j]).0,
                    pairs[i].0,
                )
        } by {
            assert(check(i) is Ok);
            lemma_placeholder_in_order(route, pairs, i);
        }
    } else {
        let i = choose|i: int| 0 <= i < n && !(#[trigger] check(i) is Ok);
        lemma_placeholder_in_order(route, pairs, i);
        assert("axis:resolve:"@.is_prefix_of(pairs[i].1)) by {
            assert(endpoint::is_placeholder(pairs[i].1));
            reveal_strlit("axis:resolve:");
        }
        assert(pairs[i] == pairs[i]);
    }
}

proof fn lemma_placeholder_in_order(
    route: Seq<char>,
    pairs: Seq<(Seq<char>, Seq<char>)>,
    i: int,
)
    requires
        0 <= i < pairs.len(),
    ensures
        "axis:resolve:"@.is_prefix_of(pairs[i].1) ==> (query_verdict(route, pairs, i) is Ok <==> {
            &&& pairs[i].0.len() > 0
            &&& "axis:resolve:env:"@.is_prefix_of(pairs[i].1)
            &&& pairs[i].1.len() > 17
            &&& forall|k: int|
                17 <= k < pairs[i].1.len() ==> 'A' <= #[trigger] pairs[i].1[k] <= 'Z' || '0'
                    <= pairs[i].1[k] <= '9' || pairs[i].1[k] == '_'
            &&& forall|j: int|
                0 <= j < pairs.len() && j != i ==> !text::same_ignoring_case(
                    (#[trigger] pairs[j]).0,
                    pairs[i].0,
                )
        }),
        !"axis:resolve:"@.is_prefix_of(pairs[i].1) ==> query_verdict(route, pairs, i) is Ok,
{
    reveal_strlit("axis:resolve:");
    reveal_strlit("axis:resolve:env:");
    let v = pairs[i].1;
    let mark = "axis:resolve:env:"@;
    assert("axis:resolve:"@.is_prefix_of(v) <==> endpoint::is_placeholder(v)) by {
        if "axis:resolve:"@.is_prefix_of(v) {
            assert(v.subrange(0, 13) =~= "axis:resolve:"@);
        }
    }
    assert(mark.is_prefix_of(v) <==> text::starts_with(v, mark)) by {
        if mark.is_prefix_of(v) {
            assert(v.subrange(0, 17) =~= mark);
        }
    }
    if mark.is_prefix_of(v) {
        let name = v.skip(17);
        law_which_variables_may_hold_a_credential(route, name);
        if env_name_verdict(route, name) is Ok {
            assert forall|k: int| 17 <= k < v.len() implies 'A' <= #[trigger] v[k] <= 'Z' || '0'
                <= v[k] <= '9' || v[k] == '_' by {
                assert(name[k - 17] == v[k]);
            }
        }
        if v.len() > 17 && forall|k: int|
            17 <= k < v.len() ==> 'A' <= #[trigger] v[k] <= 'Z' || '0' <= v[k] <= '9' || v[k]
                == '_' {
            assert forall|k: int| 0 <= k < name.len() implies 'A' <= #[trigger] name[k] <= 'Z'
                || '0' <= name[k] <= '9' || name[k] == '_' by {
                assert(name[k] == v[k + 17]);
            }
        }
    }
}

/// A query parameter that asks for no credential and has a name of its own, put
/// anywhere among the others, changes nothing: neither the verdict nor the error.
pub proof fn law_plain_query_parameter_changes_nothing(
    route: Seq<char>,
    pairs: Seq<(Seq<char>, Seq<char>)>,
    at: int,
    name: Seq<char>,
    value: Seq<char>,
)
    requires
        0 <= at <= pairs.len(),
        !"axis:resolve:"@.is_prefix_of(value),
        forall|i: int|
            0 <= i < pairs.len() ==> !text::same_ignoring_case((#[trigger] pairs[i]).0, name),
    ensures
        queries_verdict(route, pairs.insert(at, (name, value))) == queries_verdict(route, pairs),
{
    let n = pairs.len() as int;
    let more = pairs.insert(at, (name, value));
    let without = |i: int| query_verdict(route, pairs, i);
    let with = |i: int| query_verdict(route, more, i);
    assert(more[at] == (name, value));
    lemma_placeholder_in_order(route, more, at);
    assert forall|i: int| 0 <= i < at implies #[trigger] with(i) == without(i) by {
        assert(more[i] == pairs[i]);
        lemma_sole_definition_stays(pairs, at, name, value, i, i);
    }
    assert forall|i: int| at < i <= n implies #[trigger] with(i) == without(i - 1) by {
        assert(more[i] == pairs[i - 1]);
        lemma_sole_definition_stays(pairs, at, name, value, i, i - 1);
    }
    verdict::lemma_passing_check_changes_nothing(n, at, without, with);
}

proof fn lemma_sole_definition_stays(
    pairs: Seq<(Seq<char>, Seq<char>)>,
    at: int,
    name: Seq<char>,
    value: Seq<char>,
    i: int,
    k: int,
)
    requires
        0 <= at <= pairs.len(),
        0 <= k < pairs.len(),
        i == if k < at { k } else { k + 1 },
        !text::same_ignoring_case(pairs[k].0, name),
    ensures
        is_sole_definition(pairs.insert(at, (name, value)), i) == is_sole_definition(pairs, k),
{
    let more = pairs.insert(at, (name, value));
    assert(more[i] == pairs[k]);
    if is_sole_definition(pairs, k) {
        assert forall|j: int| 0 <= j < more.len() && j != i implies !text::same_ignoring_case(
            (#[trigger] more[j]).0,
            more[i].0,
        ) by {
            if j < at {
                assert(more[j] == pairs[j]);
            } else if j > at {
                assert(more[j] == pairs[j - 1]);
            } else {
                assert(more[j] == (name, value));
            }
        }
    }
    if is_sole_definition(more, i) {
        assert forall|j: int| 0 <= j < pairs.len() && j != k implies !text::same_ignoring_case(
            (#[trigger] pairs[j]).0,
            pairs[k].0,
        ) by {
            if j < at {
                assert(more[j] == pairs[j]);
            } else {
                assert(more[j + 1] == pairs[j]);
            }
        }
    }
}

/// Whether a route asks for a credential: it names a variable, or its endpoint
/// holds a placeholder. A route that asks for none has no scope and is accepted.
pub proof fn law_routes_without_credentials_are_accepted(
    route: InferenceRoute,
    mode: NetworkMode,
    parsed: Option<endpoint::UrlPartsView>,
)
    ensures
        has_credentials(route, parsed) <==> route.api_key_env is Some || (route.endpoint is Some
            && endpoint::has_placeholder(route.endpoint->0@, parsed)),
        !has_credentials(route, parsed) ==> route_scope(route, mode, parsed) == Ok::<
            Option<CredentialScopeView>,
            policy::PolicyErrorView,
        >(None),
{
}

/// A route that asks for a credential is accepted exactly when nothing speaks
/// against it: the variable that it names is in capitals, the network goes
/// through the proxy, and it has an endpoint that can be taken, over plain HTTP,
/// with query parameters in order, to `inference.local` and a port. The credential
/// then goes to that host and port, and to the canonical path of the endpoint.
pub proof fn law_which_credentials_are_accepted(
    route: InferenceRoute,
    mode: NetworkMode,
    parsed: Option<endpoint::UrlPartsView>,
)
    requires
        has_credentials(route, parsed),
    ensures
        route_scope(route, mode, parsed) is Ok <==> {
            &&& route.api_key_env is Some ==> env_name_verdict(
                route.name@,
                route.api_key_env->0@,
            ) is Ok
            &&& mode == NetworkMode::Proxy
            &&& route.endpoint is Some
            &&& endpoint::checked_endpoint(route.endpoint->0@, parsed) is Ok
            &&& queries_verdict(route.name@, parsed->0.query_pairs) is Ok
            &&& parsed->0.scheme == "http"@
            &&& host::canonical_host(parsed->0.host->0) == Ok::<_, Seq<char>>("inference.local"@)
            &&& parsed->0.port is Some
        },
        route_scope(route, mode, parsed) matches Ok(scope) ==> scope == Some(
            CredentialScopeView {
                route: route.name@,
                host: "inference.local"@,
                port: parsed->0.port->0,
                path: credential_path::canonical_path(parsed->0.path)->Ok_0,
            },
        ),
{
}

/// Two scopes clash exactly when they have the same host and the same port and
/// the path of one owns that of the other. Routes are accepted together exactly
/// when each is accepted by itself and no two of them clash.
pub proof fn law_which_routes_go_together(
    routes: Seq<InferenceRoute>,
    mode: NetworkMode,
    parsed: Seq<Option<endpoint::UrlPartsView>>,
)
    requires
        parsed.len() == routes.len(),
    ensures
        credentials_verdict(routes, mode, parsed) is Ok <==> {
            &&& forall|i: int|
                0 <= i < routes.len() ==> route_scope(#[trigger] routes[i], mode, parsed[i]) is Ok
            &&& forall|i: int, j: int|
                0 <= i < j < routes.len() ==> {
                    let a = route_scope(#[trigger] routes[i], mode, parsed[i])->Ok_0;
                    let b = route_scope(#[trigger] routes[j], mode, parsed[j])->Ok_0;
                    a is Some && b is Some && a->0.host == b->0.host && a->0.port == b->0.port ==> {
                        &&& !credential_path::path_contains(a->0.path, b->0.path)
                        &&& !credential_path::path_contains(b->0.path, a->0.path)
                    }
                }
        },
{
    law_accepted_credentials(routes, mode, parsed);
    if credentials_verdict(routes, mode, parsed) is Ok {
        assert forall|i: int, j: int| 0 <= i < j < routes.len() implies {
            let a = route_scope(#[trigger] routes[i], mode, parsed[i])->Ok_0;
            let b = route_scope(#[trigger] routes[j], mode, parsed[j])->Ok_0;
            a is Some && b is Some && a->0.host == b->0.host && a->0.port == b->0.port ==> {
                &&& !credential_path::path_contains(a->0.path, b->0.path)
                &&& !credential_path::path_contains(b->0.path, a->0.path)
            }
        } by {
            let a = route_scope(routes[i], mode, parsed[i])->Ok_0;
            let b = route_scope(routes[j], mode, parsed[j])->Ok_0;
            assert(!clash(a, b));
        }
    }
}

/// A credential leaves the sandbox only in proxy mode, only over plain HTTP and
/// only to `inference.local`, under a canonical path.
pub proof fn law_credentials_go_to_the_inference_host(
    route: InferenceRoute,
    mode: NetworkMode,
    parsed: Option<endpoint::UrlPartsView>,
    scope: CredentialScopeView,
)
    requires
        route_scope(route, mode, parsed) == Ok::<_, policy::PolicyErrorView>(Some(scope)),
    ensures
        mode == NetworkMode::Proxy,
        parsed matches Some(u) && u.scheme == "http"@ && u.fragment is None && u.port == Some(
            scope.port,
        ),
        scope.route == route.name@,
        scope.host == "inference.local"@,
        credential_path::canonical_path(scope.path) == Ok::<_, Seq<char>>(scope.path),
{
    credential_path::law_canonical_path_is_a_fixed_point(parsed->0.path);
}

/// A route that carries credentials and is accepted has a scope.
pub proof fn law_accepted_credentials_have_a_scope(
    route: InferenceRoute,
    mode: NetworkMode,
    parsed: Option<endpoint::UrlPartsView>,
)
    requires
        route_scope(route, mode, parsed) is Ok,
    ensures
        has_credentials(route, parsed) <==> route_scope(route, mode, parsed)->Ok_0 is Some,
{
}

/// Whether two routes both carry credentials that one request could be given.
pub open spec fn clash(
    a: Option<CredentialScopeView>,
    b: Option<CredentialScopeView>,
) -> bool {
    a is Some && b is Some && ambiguous(a->0, b->0)
}

/// The credentials of a list of routes are accepted exactly when each route is,
/// and no two routes could both claim one request.
pub proof fn law_accepted_credentials(
    routes: Seq<InferenceRoute>,
    mode: NetworkMode,
    parsed: Seq<Option<endpoint::UrlPartsView>>,
)
    requires
        parsed.len() == routes.len(),
    ensures
        credentials_verdict(routes, mode, parsed) is Ok <==> {
            &&& forall|i: int|
                0 <= i < routes.len() ==> route_scope(#[trigger] routes[i], mode, parsed[i]) is Ok
            &&& forall|i: int, j: int|
                0 <= i < j < routes.len() ==> !clash(
                    route_scope(#[trigger] routes[i], mode, parsed[i])->Ok_0,
                    route_scope(#[trigger] routes[j], mode, parsed[j])->Ok_0,
                )
        },
{
    let n = routes.len() as int;
    let each = |i: int| route_verdict(routes, mode, parsed, i);
    let scopes = route_scopes(routes, mode, parsed);
    let later = |i: int| later_verdict(scopes, i);
    verdict::lemma_first_error_ok(n, each);
    verdict::lemma_first_error_ok(n, later);
    if credentials_verdict(routes, mode, parsed) is Ok {
        assert forall|i: int| 0 <= i < n implies route_scope(
            #[trigger] routes[i],
            mode,
            parsed[i],
        ) is Ok by {
            assert(each(i) is Ok);
        }
        assert forall|i: int, j: int| 0 <= i < j < n implies !clash(
            route_scope(#[trigger] routes[i], mode, parsed[i])->Ok_0,
            route_scope(#[trigger] routes[j], mode, parsed[j])->Ok_0,
        ) by {
            assert(later(i) is Ok);
            let pair = |k: int| pair_verdict(scopes[i], scopes[i + 1 + k]);
            verdict::lemma_first_error_ok(n - i - 1, pair);
            assert(pair(j - i - 1) is Ok);
        }
    }
    if (forall|i: int|
        0 <= i < n ==> route_scope(#[trigger] routes[i], mode, parsed[i]) is Ok) && (forall|
        i: int,
        j: int,
    |
        0 <= i < j < n ==> !clash(
            route_scope(#[trigger] routes[i], mode, parsed[i])->Ok_0,
            route_scope(#[trigger] routes[j], mode, parsed[j])->Ok_0,
        )) {
        assert forall|i: int| 0 <= i < n implies #[trigger] each(i) is Ok by {
            assert(route_scope(routes[i], mode, parsed[i]) is Ok);
        }
        assert forall|i: int| 0 <= i < n implies #[trigger] later(i) is Ok by {
            let pair = |k: int| pair_verdict(scopes[i], scopes[i + 1 + k]);
            verdict::lemma_first_error_ok(n - i - 1, pair);
            assert forall|k: int| 0 <= k < n - i - 1 implies #[trigger] pair(k) is Ok by {
                let j = i + 1 + k;
                assert(scopes[i] == route_scope(routes[i], mode, parsed[i])->Ok_0);
                assert(scopes[j] == route_scope(routes[j], mode, parsed[j])->Ok_0);
                assert(!clash(scopes[i], scopes[j]));
            }
        }
    }
}

/// A route without credentials, put anywhere among the routes, changes nothing:
/// neither the verdict nor the error.
pub proof fn law_plain_route_changes_nothing(
    routes: Seq<InferenceRoute>,
    mode: NetworkMode,
    parsed: Seq<Option<endpoint::UrlPartsView>>,
    at: int,
    route: InferenceRoute,
    url: Option<endpoint::UrlPartsView>,
)
    requires
        parsed.len() == routes.len(),
        0 <= at <= routes.len(),
        !has_credentials(route, url),
    ensures
        credentials_verdict(routes.insert(at, route), mode, parsed.insert(at, url))
            == credentials_verdict(routes, mode, parsed),
{
    let n = routes.len() as int;
    let more = routes.insert(at, route);
    let urls = parsed.insert(at, url);
    let without = |i: int| route_verdict(routes, mode, parsed, i);
    let with = |i: int| route_verdict(more, mode, urls, i);
    assert forall|i: int| 0 <= i < at implies #[trigger] with(i) == without(i) by {
        assert(more[i] == routes[i] && urls[i] == parsed[i]);
    }
    assert forall|i: int| at < i <= n implies #[trigger] with(i) == without(i - 1) by {
        assert(more[i] == routes[i - 1] && urls[i] == parsed[i - 1]);
    }
    assert(more[at] == route && urls[at] == url);
    verdict::lemma_passing_check_changes_nothing(n, at, without, with);
    let scopes = route_scopes(routes, mode, parsed);
    let all = route_scopes(more, mode, urls);
    assert(all =~= scopes.insert(at, None));
    lemma_no_scope_changes_nothing(scopes, at);
}

proof fn lemma_no_scope_changes_nothing(scopes: Seq<Option<CredentialScopeView>>, at: int)
    requires
        0 <= at <= scopes.len(),
    ensures
        scopes_verdict(scopes.insert(at, None)) == scopes_verdict(scopes),
{
    let n = scopes.len() as int;
    let all = scopes.insert(at, None);
    let without = |i: int| later_verdict(scopes, i);
    let with = |i: int| later_verdict(all, i);
    assert forall|i: int| 0 <= i < at implies #[trigger] with(i) == without(i) by {
        let one = |j: int| pair_verdict(scopes[i], scopes[i + 1 + j]);
        let two = |j: int| pair_verdict(all[i], all[i + 1 + j]);
        assert(all[i] == scopes[i]);
        assert forall|j: int| 0 <= j < at - i - 1 implies #[trigger] two(j) == one(j) by {
            assert(all[i + 1 + j] == scopes[i + 1 + j]);
        }
        assert forall|j: int| at - i - 1 < j <= n - i - 1 implies #[trigger] two(j) == one(j - 1) by {
            assert(all[i + 1 + j] == scopes[i + j]);
        }
        verdict::lemma_passing_check_changes_nothing(n - i - 1, at - i - 1, one, two);
    }
    assert forall|i: int| at < i <= n implies #[trigger] with(i) == without(i - 1) by {
        let one = |j: int| pair_verdict(scopes[i - 1], scopes[i - 1 + 1 + j]);
        let two = |j: int| pair_verdict(all[i], all[i + 1 + j]);
        assert(all[i] == scopes[i - 1]);
        assert forall|j: int| 0 <= j < n - i implies #[trigger] two(j) == one(j) by {
            assert(all[i + 1 + j] == scopes[i + j]);
        }
        verdict::lemma_same_checks(n - i, one, two);
    }
    let own = |j: int| pair_verdict(all[at], all[at + 1 + j]);
    verdict::lemma_first_error_ok(n - at, own);
    assert(with(at) is Ok);
    verdict::lemma_passing_check_changes_nothing(n, at, without, with);
}

/// Whether `order` lists each of `0, 1, .. n - 1` once.
pub open spec fn is_reordering(order: Seq<int>, n: nat) -> bool {
    &&& order.len() == n
    &&& order.no_duplicates()
    &&& forall|i: int| 0 <= i < n ==> 0 <= #[trigger] order[i] < n
}

/// Whether routes are accepted does not depend on the order they stand in.
pub proof fn law_route_order_does_not_matter(
    routes: Seq<InferenceRoute>,
    mode: NetworkMode,
    parsed: Seq<Option<endpoint::UrlPartsView>>,
    order: Seq<int>,
)
    requires
        parsed.len() == routes.len(),
        is_reordering(order, routes.len()),
    ensures
        credentials_verdict(routes, mode, parsed) is Ok <==> credentials_verdict(
            order.map_values(|i: int| routes[i]),
            mode,
            order.map_values(|i: int| parsed[i]),
        ) is Ok,
{
    let n = routes.len() as int;
    let moved = order.map_values(|i: int| routes[i]);
    let moved_parsed = order.map_values(|i: int| parsed[i]);
    law_accepted_credentials(routes, mode, parsed);
    law_accepted_credentials(moved, mode, moved_parsed);
    assert forall|i: int| 0 <= i < n implies order.contains(i) by {
        lemma_reordering_reaches(order, routes.len(), i);
    }
    if credentials_verdict(routes, mode, parsed) is Ok {
        assert forall|i: int| 0 <= i < n implies route_scope(
            #[trigger] moved[i],
            mode,
            moved_parsed[i],
        ) is Ok by {
            assert(routes[order[i]] == moved[i]);
        }
        assert forall|i: int, j: int| 0 <= i < j < n implies !clash(
            route_scope(#[trigger] moved[i], mode, moved_parsed[i])->Ok_0,
            route_scope(#[trigger] moved[j], mode, moved_parsed[j])->Ok_0,
        ) by {
            let a = order[i];
            let b = order[j];
            assert(moved[i] == routes[a] && moved[j] == routes[b]);
            assert(a != b);
            assert(a < b || b < a);
        }
    }
    if credentials_verdict(moved, mode, moved_parsed) is Ok {
        assert forall|a: int| 0 <= a < n implies route_scope(
            #[trigger] routes[a],
            mode,
            parsed[a],
        ) is Ok by {
            assert(order.contains(a));
            let i = order.index_of(a);
            assert(moved[i] == routes[a]);
        }
        assert forall|a: int, b: int| 0 <= a < b < n implies !clash(
            route_scope(#[trigger] routes[a], mode, parsed[a])->Ok_0,
            route_scope(#[trigger] routes[b], mode, parsed[b])->Ok_0,
        ) by {
            assert(order.contains(a) && order.contains(b));
            let i = order.index_of(a);
            let j = order.index_of(b);
            assert(moved[i] == routes[a] && moved[j] == routes[b]);
            assert(i != j);
            assert(i < j || j < i);
        }
    }
}

/// A reordering of `0, 1, .. n - 1` leaves none of them out.
proof fn lemma_reordering_reaches(order: Seq<int>, n: nat, i: int)
    requires
        is_reordering(order, n),
        0 <= i < n,
    ensures
        order.contains(i),
{
    let range = vstd::set_lib::set_int_range(0, n as int);
    vstd::set_lib::lemma_int_range(0, n as int);
    order.unique_seq_to_set();
    assert(order.to_set().subset_of(range)) by {
        assert forall|x: int| order.to_set().contains(x) implies range.contains(x) by {
            assert(order.contains(x));
            let k = order.index_of(x);
            assert(order[k] == x);
        }
    }
    vstd::set_lib::lemma_subset_equality(order.to_set(), range);
    assert(range.contains(i));
}

/// Why a route with credentials is refused before anything is known of where it
/// leads: the variable that it names, the mode of the network, no endpoint, or an
/// endpoint that cannot be taken.
pub proof fn law_why_a_route_is_refused(
    route: InferenceRoute,
    mode: NetworkMode,
    parsed: Option<endpoint::UrlPartsView>,
)
    requires
        has_credentials(route, parsed),
    ensures
        ({
            let scope = route_scope(route, mode, parsed);
            let named = route.api_key_env is Some ==> is_credential_env_name(
                route.api_key_env->0@,
            );
            let taken = endpoint::checked_endpoint(route.endpoint->0@, parsed);
            &&& !named ==> scope == refused::<Option<CredentialScopeView>>(
                "inference route '"@ + route.name@
                    + "' api_key_env must be a non-empty uppercase environment variable name: "@
                    + route.api_key_env->0@,
            )
            &&& named && !(mode is Proxy) ==> scope == refused::<Option<CredentialScopeView>>(
                "inference route '"@ + route.name@
                    + "' requires network.mode: proxy for host-boundary credential injection"@,
            )
            &&& named && mode is Proxy && route.endpoint is None ==> scope == refused::<
                Option<CredentialScopeView>,
            >(
                "inference route '"@ + route.name@
                    + "' with host-boundary credentials requires an explicit http:// endpoint"@,
            )
            &&& named && mode is Proxy && route.endpoint is Some && taken is Err ==> scope
                == refused::<Option<CredentialScopeView>>(
                "inference route '"@ + route.name@ + "' has an invalid credential endpoint: "@
                    + taken->Err_0,
            )
        }),
{
}

/// Why a route is refused whose endpoint was taken: its query parameters, then the
/// scheme, the host and the port of the endpoint.
pub proof fn law_why_a_destination_is_refused(
    route: InferenceRoute,
    u: endpoint::UrlPartsView,
)
    requires
        has_credentials(route, Some(u)),
        route.api_key_env is Some ==> is_credential_env_name(route.api_key_env->0@),
        route.endpoint is Some,
        endpoint::checked_endpoint(route.endpoint->0@, Some(u)) is Ok,
    ensures
        ({
            let scope = route_scope(route, NetworkMode::Proxy, Some(u));
            let queries = queries_verdict(route.name@, u.query_pairs);
            let host = host::canonical_host(u.host->0);
            &&& queries is Err ==> scope == Err::<Option<CredentialScopeView>, _>(queries->Err_0)
            &&& queries is Ok && u.scheme != "http"@ ==> scope == refused::<
                Option<CredentialScopeView>,
            >(
                "inference route '"@ + route.name@
                    + "' requests unsupported HTTPS credential injection; a per-sandbox CA trust path is not available"@,
            )
            &&& queries is Ok && u.scheme == "http"@ && host is Err ==> scope == refused::<
                Option<CredentialScopeView>,
            >(
                "inference route '"@ + route.name@
                    + "' has an invalid credential endpoint host: "@ + host->Err_0,
            )
            &&& queries is Ok && u.scheme == "http"@ && host is Ok && host->Ok_0
                != "inference.local"@ ==> scope == refused::<Option<CredentialScopeView>>(
                "inference route '"@ + route.name@
                    + "' may inject credentials only through inference.local; localhost and loopback origins are denied by runtime SSRF controls"@,
            )
            &&& queries is Ok && u.scheme == "http"@ && host is Ok && host->Ok_0
                == "inference.local"@ && u.port is None ==> scope == refused::<
                Option<CredentialScopeView>,
            >(
                "inference route '"@ + route.name@
                    + "' credential endpoint has no effective port"@,
            )
        }),
{
}

/// The first query parameter that is wrong is the reason, in words: it has no
/// name; it goes on otherwise than with `env:`; the variable is not in capitals;
/// or another parameter has its name.
pub proof fn law_why_a_query_parameter_is_refused(
    route: Seq<char>,
    pairs: Seq<(Seq<char>, Seq<char>)>,
    i: int,
)
    requires
        0 <= i < pairs.len(),
        "axis:resolve:"@.is_prefix_of(pairs[i].1),
        forall|k: int| 0 <= k < i ==> #[trigger] query_verdict(route, pairs, k) is Ok,
    ensures
        ({
            let verdict = queries_verdict(route, pairs);
            let name = pairs[i].0;
            let value = pairs[i].1;
            let env = "axis:resolve:env:"@.is_prefix_of(value);
            let variable = value.skip(17);
            &&& name.len() == 0 ==> verdict == refused::<()>(
                "inference route '"@ + route
                    + "' credential query placeholder must have a name"@,
            )
            &&& name.len() > 0 && !env ==> verdict == refused::<()>(
                "inference route '"@ + route + "' contains unsupported credential placeholder '"@
                    + value + "'"@,
            )
            &&& name.len() > 0 && env && !is_credential_env_name(variable) ==> verdict
                == refused::<()>(
                "inference route '"@ + route
                    + "' api_key_env must be a non-empty uppercase environment variable name: "@
                    + variable,
            )
            &&& name.len() > 0 && env && is_credential_env_name(variable) && (exists|j: int|
                0 <= j < pairs.len() && j != i && text::same_ignoring_case(
                    (#[trigger] pairs[j]).0,
                    name,
                )) ==> verdict == refused::<()>(
                "inference route '"@ + route + "' credential query parameter '"@ + name
                    + "' must have one unambiguous definition"@,
            )
        }),
{
    reveal_strlit("axis:resolve:");
    reveal_strlit("axis:resolve:env:");
    let n = pairs.len() as int;
    let check = |k: int| query_verdict(route, pairs, k);
    let value = pairs[i].1;
    let mark = "axis:resolve:env:"@;
    assert(value.subrange(0, 13) =~= "axis:resolve:"@);
    assert(endpoint::is_placeholder(value));
    assert(mark.is_prefix_of(value) <==> text::starts_with(value, mark)) by {
        if mark.is_prefix_of(value) {
            assert(value.subrange(0, 17) =~= mark);
        }
    }
    verdict::lemma_first_error_ok(i, check);
    assert forall|k: int| 0 <= k < i implies #[trigger] check(k) is Ok by {
        assert(query_verdict(route, pairs, k) is Ok);
    }
    if check(i) is Err {
        verdict::lemma_passed(i, n, check);
    }
}

/// Routes are looked at in their order, and the first one that is refused is the
/// reason. Where none is, it is the first pair of routes that clash, in the order
/// of the earlier and then of the later of the two, and the words name both.
pub proof fn law_first_refused_route_counts(
    routes: Seq<InferenceRoute>,
    mode: NetworkMode,
    parsed: Seq<Option<endpoint::UrlPartsView>>,
    i: int,
    j: int,
)
    requires
        parsed.len() == routes.len(),
        0 <= i < routes.len(),
    ensures
        (forall|k: int|
            0 <= k < i ==> route_scope(#[trigger] routes[k], mode, parsed[k]) is Ok)
            && route_scope(routes[i], mode, parsed[i]) is Err ==> credentials_verdict(
            routes,
            mode,
            parsed,
        ) == Err::<(), _>(route_scope(routes[i], mode, parsed[i])->Err_0),
        (forall|k: int|
            0 <= k < routes.len() ==> route_scope(#[trigger] routes[k], mode, parsed[k]) is Ok)
            && i < j < routes.len() && (forall|k: int, l: int|
            0 <= k < l < routes.len() && (k < i || k == i && l < j) ==> !clash(
                route_scope(#[trigger] routes[k], mode, parsed[k])->Ok_0,
                route_scope(#[trigger] routes[l], mode, parsed[l])->Ok_0,
            )) && clash(
            route_scope(routes[i], mode, parsed[i])->Ok_0,
            route_scope(routes[j], mode, parsed[j])->Ok_0,
        ) ==> ({
            let a = route_scope(routes[i], mode, parsed[i])->Ok_0->0;
            let b = route_scope(routes[j], mode, parsed[j])->Ok_0->0;
            credentials_verdict(routes, mode, parsed) == refused::<()>(
                "inference credential routes '"@ + routes[i].name@ + "' and '"@ + routes[j].name@
                    + "' have ambiguous overlapping scopes on http://"@ + "inference.local"@ + ":"@
                    + text::decimal(a.port as nat) + " ('"@ + a.path + "' and '"@ + b.path
                    + "')"@,
            )
        }),
{
    let n = routes.len() as int;
    let each = |k: int| route_verdict(routes, mode, parsed, k);
    verdict::lemma_first_error_ok(i, each);
    verdict::lemma_first_error_ok(n, each);
    if (forall|k: int| 0 <= k < i ==> route_scope(#[trigger] routes[k], mode, parsed[k]) is Ok)
        && route_scope(routes[i], mode, parsed[i]) is Err {
        assert forall|k: int| 0 <= k < i implies #[trigger] each(k) is Ok by {
            assert(route_scope(routes[k], mode, parsed[k]) is Ok);
        }
        assert(each(i) is Err);
        verdict::lemma_passed(i, n, each);
    }
    if (forall|k: int| 0 <= k < n ==> route_scope(#[trigger] routes[k], mode, parsed[k]) is Ok) && i
        < j < n && (forall|k: int, l: int|
        0 <= k < l < n && (k < i || k == i && l < j) ==> !clash(
            route_scope(#[trigger] routes[k], mode, parsed[k])->Ok_0,
            route_scope(#[trigger] routes[l], mode, parsed[l])->Ok_0,
        )) && clash(
        route_scope(routes[i], mode, parsed[i])->Ok_0,
        route_scope(routes[j], mode, parsed[j])->Ok_0,
    ) {
        assert forall|k: int| 0 <= k < n implies #[trigger] each(k) is Ok by {
            assert(route_scope(routes[k], mode, parsed[k]) is Ok);
        }
        let scopes = route_scopes(routes, mode, parsed);
        let later = |k: int| later_verdict(scopes, k);
        verdict::lemma_first_error_ok(i, later);
        assert forall|k: int| 0 <= k < i implies #[trigger] later(k) is Ok by {
            let pair = |l: int| pair_verdict(scopes[k], scopes[k + 1 + l]);
            verdict::lemma_first_error_ok(n - k - 1, pair);
            assert forall|l: int| 0 <= l < n - k - 1 implies #[trigger] pair(l) is Ok by {
                let m = k + 1 + l;
                assert(!clash(
                    route_scope(routes[k], mode, parsed[k])->Ok_0,
                    route_scope(routes[m], mode, parsed[m])->Ok_0,
                ));
            }
        }
        let pair = |l: int| pair_verdict(scopes[i], scopes[i + 1 + l]);
        let at = j - i - 1;
        verdict::lemma_first_error_ok(at, pair);
        assert forall|l: int| 0 <= l < at implies #[trigger] pair(l) is Ok by {
            let m = i + 1 + l;
            assert(!clash(
                route_scope(routes[i], mode, parsed[i])->Ok_0,
                route_scope(routes[m], mode, parsed[m])->Ok_0,
            ));
        }
        assert(pair(at) == pair_verdict(scopes[i], scopes[j]));
        verdict::lemma_passed(at, n - i - 1, pair);
        assert(later(i) is Err);
        verdict::lemma_passed(i, n, later);
    }
}

/// A route that carries credentials goes to plain HTTP or counts as one that does
/// not, and then it is never accepted.
pub proof fn law_credentials_over_https_are_refused(
    route: InferenceRoute,
    mode: NetworkMode,
    u: endpoint::UrlPartsView,
)
    ensures
        has_https_credentials(route, None) <==> has_credentials(route, None),
        u.scheme == "http"@ ==> !has_https_credentials(route, Some(u)),
        u.scheme != "http"@ ==> (has_https_credentials(route, Some(u)) <==> has_credentials(
            route,
            Some(u),
        )),
        has_https_credentials(route, Some(u)) ==> route_scope(route, mode, Some(u)) is Err,
        has_https_credentials(route, None) ==> route_scope(route, mode, None) is Err,
{
}

} // verus!
