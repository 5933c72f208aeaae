//! What a valid policy is.

use vstd::prelude::*;
use vstd::string::*;
use crate::credentials;
use crate::endpoint;
use crate::endpoint::UrlParts;
use crate::host;
use crate::policy::{
    Access, Endpoint, EndpointPolicy, NetworkMode, NetworkPolicy, Policy, PolicyError, ProcessPolicy,
    RuntimeContainment, RuntimePolicy,
};
use crate::policy;
use crate::text;
use crate::verdict;

verus! {

/// A name that is one ordinary component of a path.
pub open spec fn is_policy_name(name: Seq<char>) -> bool {
    &&& name.len() > 0
    &&& name != seq!['.']
    &&& name != seq!['.', '.']
    &&& has_only_name_chars(name)
}

pub open spec fn is_name_char(c: char) -> bool {
    text::is_alnum(c) || c == '.' || c == '_' || c == '-'
}

pub open spec fn has_only_name_chars(name: Seq<char>) -> bool {
    forall|i: int| 0 <= i < name.len() ==> is_name_char(#[trigger] name[i])
}

pub open spec fn name_verdict(name: Seq<char>) -> Result<(), policy::PolicyErrorView> {
    if name.len() == 0 {
        credentials::refused("policy name must not be empty"@)
    } else if name == seq!['.'] || name == seq!['.', '.'] {
        credentials::refused("policy name must be a safe path component"@)
    } else if !has_only_name_chars(name) {
        credentials::refused(
            "policy name must contain only ASCII letters, digits, '.', '_' and '-'"@,
        )
    } else {
        Ok(())
    }
}

/// Validate a policy name before it is used as a filesystem path component.
pub fn validate_policy_name_component(name: &str) -> (r: Result<(), PolicyError>)
    ensures
        credentials::verdict_view(r) == name_verdict(name@),
        r is Ok <==> is_policy_name(name@),
{
    let v = text::to_chars(name);
    if v.len() == 0 {
        return Err(PolicyError::ValidationError("policy name must not be empty".to_owned()));
    }
    assert(v@ =~= seq!['.'] <==> v@.len() == 1 && v@[0] == '.');
    assert(v@ =~= seq!['.', '.'] <==> v@.len() == 2 && v@[0] == '.' && v@[1] == '.');
    if (v.len() == 1 && v[0] == '.') || (v.len() == 2 && v[0] == '.' && v[1] == '.') {
        return Err(
            PolicyError::ValidationError("policy name must be a safe path component".to_owned()),
        );
    }
    for i in 0..v.len()
        invariant
            v@ == name@,
            v@.len() > 0,
            v@ != seq!['.'],
            v@ != seq!['.', '.'],
            forall|j: int| 0 <= j < i ==> is_name_char(#[trigger] v@[j]),
    {
        let c = v[i];
        if !text::alnum(c) && c != '.' && c != '_' && c != '-' {
            assert(!is_name_char(v@[i as int]));
            return Err(
                PolicyError::ValidationError(
                    "policy name must contain only ASCII letters, digits, '.', '_' and '-'".to_owned(),
                ),
            );
        }
    }
    Ok(())
}

impl RuntimePolicy {
    pub fn validate(&self) -> (r: Result<(), PolicyError>)
        ensures
            r is Ok,
    {
        match self.containment {
            RuntimeContainment::Process => Ok(()),
        }
    }
}

pub open spec fn process_verdict(p: ProcessPolicy) -> Result<(), policy::PolicyErrorView> {
    if p.cpu_rate_percent > 100 {
        credentials::refused(
            "cpu_rate_percent must be 0..=100, got "@ + text::decimal(p.cpu_rate_percent as nat),
        )
    } else {
        Ok(())
    }
}

impl ProcessPolicy {
    pub fn validate(&self) -> (r: Result<(), PolicyError>)
        ensures
            credentials::verdict_view(r) == process_verdict(*self),
    {
        if self.cpu_rate_percent > 100 {
            return Err(
                PolicyError::ValidationError(
                    "cpu_rate_percent must be 0..=100, got ".to_owned().concat(
                        text::decimal_text(self.cpu_rate_percent as u64).as_str(),
                    ),
                ),
            );
        }
        Ok(())
    }
}

/// The verdict on the host of one endpoint of the group `group`.
pub open spec fn host_verdict(group: Seq<char>, host: Seq<char>) -> Result<
    (),
    policy::PolicyErrorView,
> {
    match host::canonical_host(host) {
        Ok(_) => Ok(()),
        Err(reason) => credentials::refused(
            "network policy '"@ + group + "' has an invalid endpoint host '"@ + host + "': "@
                + reason,
        ),
    }
}

pub open spec fn group_verdict(g: EndpointPolicy) -> Result<(), policy::PolicyErrorView> {
    if g.name@.len() == 0 {
        credentials::refused("network policy entries must have a name"@)
    } else if g.endpoints@.len() == 0 {
        credentials::refused("network policy '"@ + g.name@ + "' has no endpoints"@)
    } else {
        verdict::first_error(
            g.endpoints@.len() as int,
            |j: int| host_verdict(g.name@, g.endpoints@[j].host@),
        )
    }
}

pub open spec fn network_verdict(n: NetworkPolicy) -> Result<(), policy::PolicyErrorView> {
    if n.policies@.len() > 0 && n.mode != NetworkMode::Proxy {
        credentials::refused("network endpoint policies require network.mode: proxy"@)
    } else {
        verdict::first_error(n.policies@.len() as int, |i: int| group_verdict(n.policies@[i]))
    }
}

fn check_group(g: &EndpointPolicy) -> (r: Result<(), PolicyError>)
    ensures
        credentials::verdict_view(r) == group_verdict(*g),
{
    let name = text::to_chars(g.name.as_str());
    if name.len() == 0 {
        return Err(
            PolicyError::ValidationError("network policy entries must have a name".to_owned()),
        );
    }
    if g.endpoints.len() == 0 {
        return Err(
            PolicyError::ValidationError(
                "network policy '".to_owned().concat(g.name.as_str()).concat("' has no endpoints"),
            ),
        );
    }
    let ghost check = |j: int| host_verdict(g.name@, g.endpoints@[j].host@);
    for j in 0..g.endpoints.len()
        invariant
            check == (|j: int| host_verdict(g.name@, g.endpoints@[j].host@)),
            g.name@.len() > 0,
            g.endpoints@.len() > 0,
            verdict::first_error(j as int, check) is Ok,
    {
        let host = g.endpoints[j].host.as_str();
        match host::canonicalize_network_host(host) {
            Ok(_) => {},
            Err(reason) => {
                proof {
                    verdict::lemma_first_error_stays(j + 1, g.endpoints@.len() as int, check);
                }
                return Err(
                    PolicyError::ValidationError(
                        "network policy '".to_owned().concat(g.name.as_str()).concat(
                            "' has an invalid endpoint host '",
                        ).concat(host).concat("': ").concat(reason),
                    ),
                );
            },
        }
    }
    Ok(())
}

impl NetworkPolicy {
    pub fn validate(&self) -> (r: Result<(), PolicyError>)
        ensures
            credentials::verdict_view(r) == network_verdict(*self),
    {
        if self.policies.len() > 0 && self.mode != NetworkMode::Proxy {
            return Err(
                PolicyError::ValidationError(
                    "network endpoint policies require network.mode: proxy".to_owned(),
                ),
            );
        }
        let ghost check = |i: int| group_verdict(self.policies@[i]);
        for i in 0..self.policies.len()
            invariant
                check == (|i: int| group_verdict(self.policies@[i])),
                self.policies@.len() == 0 || self.mode == NetworkMode::Proxy,
                verdict::first_error(i as int, check) is Ok,
        {
            match check_group(&self.policies[i]) {
                Err(e) => {
                    proof {
                        verdict::lemma_first_error_stays(
                            i + 1,
                            self.policies@.len() as int,
                            check,
                        );
                    }
                    return Err(e);
                },
                Ok(()) => {},
            }
        }
        Ok(())
    }
}

/// The verdict on what one endpoint asks for beyond its host and port.
pub open spec fn refinement_verdict(group: Seq<char>, e: Endpoint) -> Result<
    (),
    policy::PolicyErrorView,
> {
    if e.access == Access::ReadOnly {
        credentials::refused(
            "network policy '"@ + group
                + "' requests unsupported read-only endpoint access for "@ + e.host@ + ":"@
                + text::decimal(e.port as nat)
                + "; endpoint policies currently authorize the full host and port"@,
        )
    } else if e.protocol is Some {
        credentials::refused(
            "network policy '"@ + group
                + "' requests unsupported endpoint protocol filtering for "@ + e.host@ + ":"@
                + text::decimal(e.port as nat),
        )
    } else if e.rules@.len() > 0 {
        credentials::refused(
            "network policy '"@ + group + "' requests unsupported L7 method/path filtering for "@
                + e.host@ + ":"@ + text::decimal(e.port as nat),
        )
    } else {
        Ok(())
    }
}

pub open spec fn refinements_verdict(groups: Seq<EndpointPolicy>) -> Result<
    (),
    policy::PolicyErrorView,
> {
    verdict::first_error(groups.len() as int, |i: int| group_refinements(groups[i]))
}

pub open spec fn group_refinements(g: EndpointPolicy) -> Result<(), policy::PolicyErrorView> {
    verdict::first_error(
        g.endpoints@.len() as int,
        |j: int| refinement_verdict(g.name@, g.endpoints@[j]),
    )
}

fn check_refinement(group: &str, e: &Endpoint) -> (r: Result<(), PolicyError>)
    ensures
        credentials::verdict_view(r) == refinement_verdict(group@, *e),
{
    let port = text::decimal_text(e.port as u64);
    if e.access == Access::ReadOnly {
        return Err(
            PolicyError::ValidationError(
                "network policy '".to_owned().concat(group).concat(
                    "' requests unsupported read-only endpoint access for ",
                ).concat(e.host.as_str()).concat(":").concat(port.as_str()).concat(
                    "; endpoint policies currently authorize the full host and port",
                ),
            ),
        );
    }
    if e.protocol.is_some() {
        return Err(
            PolicyError::ValidationError(
                "network policy '".to_owned().concat(group).concat(
                    "' requests unsupported endpoint protocol filtering for ",
                ).concat(e.host.as_str()).concat(":").concat(port.as_str()),
            ),
        );
    }
    if e.rules.len() > 0 {
        return Err(
            PolicyError::ValidationError(
                "network policy '".to_owned().concat(group).concat(
                    "' requests unsupported L7 method/path filtering for ",
                ).concat(e.host.as_str()).concat(":").concat(port.as_str()),
            ),
        );
    }
    Ok(())
}

fn check_group_refinements(g: &EndpointPolicy) -> (r: Result<(), PolicyError>)
    ensures
        credentials::verdict_view(r) == group_refinements(*g),
{
    let ghost check = |j: int| refinement_verdict(g.name@, g.endpoints@[j]);
    for j in 0..g.endpoints.len()
        invariant
            check == (|j: int| refinement_verdict(g.name@, g.endpoints@[j])),
            verdict::first_error(j as int, check) is Ok,
    {
        match check_refinement(g.name.as_str(), &g.endpoints[j]) {
            Err(e) => {
                proof {
                    verdict::lemma_first_error_stays(j + 1, g.endpoints@.len() as int, check);
                }
                return Err(e);
            },
            Ok(()) => {},
        }
    }
    Ok(())
}

/// The verdict on the features that the proxy has to enforce, given what the
/// URL parser made of each route's endpoint.
pub open spec fn proxy_verdict(p: Policy, parsed: Seq<Option<endpoint::UrlPartsView>>) -> Result<
    (),
    policy::PolicyErrorView,
> {
    let refinements = refinements_verdict(p.network.policies@);
    if refinements is Err {
        refinements
    } else {
        credentials::credentials_verdict(p.inference.routes@, p.network.mode, parsed)
    }
}

/// The verdict on a policy, given what the URL parser made of each route's
/// endpoint: the first thing that is wrong with it.
pub open spec fn policy_verdict(p: Policy, parsed: Seq<Option<endpoint::UrlPartsView>>) -> Result<
    (),
    policy::PolicyErrorView,
> {
    if p.version != 1 {
        Err(policy::PolicyErrorView::UnsupportedVersion(p.version))
    } else if name_verdict(p.name@) is Err {
        name_verdict(p.name@)
    } else if process_verdict(p.process) is Err {
        process_verdict(p.process)
    } else if network_verdict(p.network) is Err {
        network_verdict(p.network)
    } else {
        proxy_verdict(p, parsed)
    }
}

/// The verdict on a policy.
pub open spec fn verdict_on(p: Policy) -> Result<(), policy::PolicyErrorView> {
    policy_verdict(p, credentials::route_urls(p.inference.routes@))
}

pub open spec fn document_view(r: Result<Policy, PolicyError>) -> Result<
    Policy,
    policy::PolicyErrorView,
> {
    match r {
        Ok(p) => Ok(p),
        Err(e) => Err(e@),
    }
}

impl Policy {
    fn validate_proxy_features(&self, parsed: &Vec<Option<UrlParts>>) -> (r: Result<
        (),
        PolicyError,
    >)
        requires
            parsed@.len() == self.inference.routes@.len(),
        ensures
            credentials::verdict_view(r) == proxy_verdict(
                *self,
                credentials::parsed_views(parsed@),
            ),
    {
        let groups = &self.network.policies;
        let ghost check = |i: int| group_refinements(groups@[i]);
        for i in 0..groups.len()
            invariant
                *groups == self.network.policies,
                check == (|i: int| group_refinements(groups@[i])),
                verdict::first_error(i as int, check) is Ok,
        {
            match check_group_refinements(&groups[i]) {
                Err(e) => {
                    proof {
                        verdict::lemma_first_error_stays(i + 1, groups@.len() as int, check);
                    }
                    return Err(e);
                },
                Ok(()) => {},
            }
        }
        credentials::check_credential_routes(&self.inference.routes, self.network.mode, parsed)
    }

    /// Validate policy constraints, given what the URL parser made of each
    /// route's endpoint.
    pub fn validate_parsed(&self, parsed: &Vec<Option<UrlParts>>) -> (r: Result<(), PolicyError>)
        requires
            parsed@.len() == self.inference.routes@.len(),
        ensures
            credentials::verdict_view(r) == policy_verdict(
                *self,
                credentials::parsed_views(parsed@),
            ),
    {
        if self.version != 1 {
            return Err(PolicyError::UnsupportedVersion(self.version));
        }
        match validate_policy_name_component(self.name.as_str()) {
            Err(e) => {
                return Err(e);
            },
            Ok(()) => {},
        }
        match self.runtime.validate() {
            Err(e) => {
                return Err(e);
            },
            Ok(()) => {},
        }
        match self.process.validate() {
            Err(e) => {
                return Err(e);
            },
            Ok(()) => {},
        }
        match self.network.validate() {
            Err(e) => {
                return Err(e);
            },
            Ok(()) => {},
        }
        self.validate_proxy_features(parsed)
    }

    /// Validate policy constraints.
    pub fn validate(&self) -> (r: Result<(), PolicyError>)
        ensures
            credentials::verdict_view(r) == verdict_on(*self),
    {
        let routes = &self.inference.routes;
        let mut parsed: Vec<Option<UrlParts>> = Vec::new();
        for i in 0..routes.len()
            invariant
                *routes == self.inference.routes,
                parsed@.len() == i,
                forall|j: int|
                    0 <= j < i ==> endpoint::parsed_view(#[trigger] parsed@[j])
                        == credentials::route_url(routes@[j]),
        {
            parsed.push(routes[i].parsed_endpoint());
        }
        assert(credentials::parsed_views(parsed@) =~= credentials::route_urls(routes@));
        self.validate_parsed(&parsed)
    }

    /// A policy out of a parsed document: the document's own error, or the
    /// policy with canonical hosts where it is valid.
    pub fn from_document(document: Result<Policy, String>) -> (r: Result<Policy, PolicyError>)
        ensures
            match document {
                Err(reason) => document_view(r) == Err::<Policy, _>(
                    policy::PolicyErrorView::ParseError(reason@),
                ),
                Ok(p) => match hosts_verdict(p.network.policies@) {
                    Err(reason) => document_view(r) == Err::<Policy, _>(
                        policy::PolicyErrorView::ParseError(reason),
                    ),
                    Ok(()) => exists|q: Policy| #[trigger]
                        has_canonical_hosts(q, p) && document_view(r) == match verdict_on(q) {
                            Err(e) => Err(e),
                            Ok(()) => Ok(q),
                        },
                },
            },
            r matches Ok(q) ==> verdict_on(q) is Ok && hosts_are_canonical(q),
    {
        let p = match document {
            Err(reason) => {
                return Err(PolicyError::ParseError(reason));
            },
            Ok(p) => p,
        };
        let q = match canonicalize_hosts(p) {
            Err(reason) => {
                return Err(PolicyError::ParseError(reason.to_owned()));
            },
            Ok(q) => q,
        };
        proof {
            lemma_canonical_hosts(q, p);
        }
        match q.validate() {
            Ok(()) => Ok(q),
            Err(e) => Err(e),
        }
    }
}

/// The fault of a host that has no canonical spelling.
pub open spec fn host_fault(host: Seq<char>) -> Result<(), Seq<char>> {
    match host::canonical_host(host) {
        Ok(_) => Ok(()),
        Err(reason) => Err(reason),
    }
}

pub open spec fn group_hosts_verdict(g: EndpointPolicy) -> Result<(), Seq<char>> {
    verdict::first_error(g.endpoints@.len() as int, |j: int| host_fault(g.endpoints@[j].host@))
}

/// The fault of the first host in a document that has no canonical spelling.
pub open spec fn hosts_verdict(groups: Seq<EndpointPolicy>) -> Result<(), Seq<char>> {
    verdict::first_error(groups.len() as int, |i: int| group_hosts_verdict(groups[i]))
}

/// Whether `e` is the endpoint `d` with its host in canonical spelling.
pub open spec fn is_canonical_endpoint(e: Endpoint, d: Endpoint) -> bool {
    &&& e == Endpoint { host: e.host, ..d }
    &&& host::canonical_host(d.host@) == Ok::<_, Seq<char>>(e.host@)
}

pub open spec fn is_canonical_group(h: EndpointPolicy, g: EndpointPolicy) -> bool {
    &&& h == EndpointPolicy { endpoints: h.endpoints, ..g }
    &&& h.endpoints@.len() == g.endpoints@.len()
    &&& forall|j: int|
        0 <= j < g.endpoints@.len() ==> is_canonical_endpoint(
            #[trigger] h.endpoints@[j],
            g.endpoints@[j],
        )
}

/// Whether `q` is the policy `p` with all its hosts in canonical spelling.
pub open spec fn has_canonical_hosts(q: Policy, p: Policy) -> bool {
    &&& q == Policy {
        network: NetworkPolicy { policies: q.network.policies, ..p.network },
        ..p
    }
    &&& q.network.policies@.len() == p.network.policies@.len()
    &&& forall|i: int|
        0 <= i < p.network.policies@.len() ==> is_canonical_group(
            #[trigger] q.network.policies@[i],
            p.network.policies@[i],
        )
}

/// Whether each host of a policy is its own canonical spelling.
pub open spec fn hosts_are_canonical(p: Policy) -> bool {
    forall|i: int, j: int|
        0 <= i < p.network.policies@.len() && 0 <= j < p.network.policies@[i].endpoints@.len()
            ==> host::canonical_host(#[trigger] p.network.policies@[i].endpoints@[j].host@) == Ok::<
            _,
            Seq<char>,
        >(p.network.policies@[i].endpoints@[j].host@)
}

proof fn lemma_canonical_hosts(q: Policy, p: Policy)
    requires
        has_canonical_hosts(q, p),
    ensures
        hosts_are_canonical(q),
{
    assert forall|i: int, j: int|
        0 <= i < q.network.policies@.len() && 0 <= j < q.network.policies@[i].endpoints@.len()
        implies host::canonical_host(#[trigger] q.network.policies@[i].endpoints@[j].host@) == Ok::<
        _,
        Seq<char>,
    >(q.network.policies@[i].endpoints@[j].host@) by {
        assert(is_canonical_group(q.network.policies@[i], p.network.policies@[i]));
        let d = p.network.policies@[i].endpoints@[j];
        assert(is_canonical_endpoint(q.network.policies@[i].endpoints@[j], d));
        host::law_canonical_host_is_a_fixed_point(d.host@);
    }
}

/// Bring the hosts of a group into canonical spelling, up to the first that has
/// none.
fn canonicalize_group(g: &mut EndpointPolicy) -> (r: Result<(), &'static str>)
    ensures
        match r {
            Ok(()) => group_hosts_verdict(*old(g)) is Ok && is_canonical_group(*final(g), *old(g)),
            Err(e) => group_hosts_verdict(*old(g)) == Err::<(), _>(e@),
        },
{
    let ghost before = *g;
    let ghost check = |j: int| host_fault(before.endpoints@[j].host@);
    let n = g.endpoints.len();
    let mut j: usize = 0;
    while j < n
        invariant
            n == before.endpoints@.len(),
            j <= n,
            *old(g) == before,
            check == (|j: int| host_fault(before.endpoints@[j].host@)),
            verdict::first_error(j as int, check) is Ok,
            *g == (EndpointPolicy { endpoints: g.endpoints, ..before }),
            g.endpoints@.len() == n,
            forall|k: int|
                0 <= k < j ==> is_canonical_endpoint(
                    #[trigger] g.endpoints@[k],
                    before.endpoints@[k],
                ),
            forall|k: int| j <= k < n ==> #[trigger] g.endpoints@[k] == before.endpoints@[k],
        decreases n - j,
    {
        assert(g.endpoints@[j as int] == before.endpoints@[j as int]);
        match host::canonicalize_network_host(g.endpoints[j].host.as_str()) {
            Ok(host) => {
                g.endpoints[j].host = host;
            },
            Err(e) => {
                proof {
                    assert(check(j as int) == Err::<(), _>(e@));
                    assert(verdict::first_error(j + 1, check) == check(j as int));
                    verdict::lemma_first_error_stays(j + 1, n as int, check);
                }
                return Err(e);
            },
        }
        assert(check(j as int) is Ok);
        j += 1;
    }
    Ok(())
}

/// Bring the hosts of a policy into canonical spelling.
fn canonicalize_hosts(policy: Policy) -> (r: Result<Policy, &'static str>)
    ensures
        match r {
            Ok(q) => hosts_verdict(policy.network.policies@) is Ok && has_canonical_hosts(q, policy),
            Err(e) => hosts_verdict(policy.network.policies@) == Err::<(), _>(e@),
        },
{
    let ghost before = policy.network.policies@;
    let ghost check = |i: int| group_hosts_verdict(before[i]);
    let mut q = policy;
    let n = q.network.policies.len();
    let mut i: usize = 0;
    while i < n
        invariant
            n == before.len(),
            i <= n,
            before == policy.network.policies@,
            check == (|i: int| group_hosts_verdict(before[i])),
            verdict::first_error(i as int, check) is Ok,
            q == (Policy {
                network: NetworkPolicy { policies: q.network.policies, ..policy.network },
                ..policy
            }),
            q.network.policies@.len() == n,
            forall|k: int|
                0 <= k < i ==> is_canonical_group(#[trigger] q.network.policies@[k], before[k]),
            forall|k: int| i <= k < n ==> #[trigger] q.network.policies@[k] == before[k],
        decreases n - i,
    {
        assert(q.network.policies@[i as int] == before[i as int]);
        if let Err(e) = canonicalize_group(&mut q.network.policies[i]) {
            proof {
                assert(check(i as int) == Err::<(), _>(e@));
                assert(verdict::first_error(i + 1, check) == check(i as int));
                verdict::lemma_first_error_stays(i + 1, n as int, check);
            }
            return Err(e);
        }
        assert(check(i as int) is Ok);
        i += 1;
    }
    Ok(q)
}

/// What is said of a policy with canonical hosts depends on the document alone:
/// any two such policies have the same verdict.
pub proof fn law_canonical_hosts_have_one_verdict(p: Policy, q: Policy, document: Policy)
    requires
        has_canonical_hosts(p, document),
        has_canonical_hosts(q, document),
    ensures
        verdict_on(p) == verdict_on(q),
{
    let a = p.network.policies@;
    let b = q.network.policies@;
    assert forall|i: int| 0 <= i < a.len() implies group_verdict(#[trigger] a[i]) == group_verdict(
        b[i],
    ) && group_refinements(a[i]) == group_refinements(b[i]) by {
        let d = document.network.policies@[i];
        assert(is_canonical_group(a[i], d) && is_canonical_group(b[i], d));
        assert forall|j: int| 0 <= j < d.endpoints@.len() implies a[i].endpoints@[j].host@
            == b[i].endpoints@[j].host@ && refinement_verdict(a[i].name@, #[trigger] a[i].endpoints@[j])
            == refinement_verdict(b[i].name@, b[i].endpoints@[j]) by {
            assert(is_canonical_endpoint(a[i].endpoints@[j], d.endpoints@[j]));
            assert(is_canonical_endpoint(b[i].endpoints@[j], d.endpoints@[j]));
        }
        verdict::lemma_same_checks(
            d.endpoints@.len() as int,
            |j: int| host_verdict(a[i].name@, a[i].endpoints@[j].host@),
            |j: int| host_verdict(b[i].name@, b[i].endpoints@[j].host@),
        );
        verdict::lemma_same_checks(
            d.endpoints@.len() as int,
            |j: int| refinement_verdict(a[i].name@, a[i].endpoints@[j]),
            |j: int| refinement_verdict(b[i].name@, b[i].endpoints@[j]),
        );
    }
    verdict::lemma_same_checks(
        a.len() as int,
        |i: int| group_verdict(a[i]),
        |i: int| group_verdict(b[i]),
    );
    verdict::lemma_same_checks(
        a.len() as int,
        |i: int| group_refinements(a[i]),
        |i: int| group_refinements(b[i]),
    );
}

/// A policy is valid exactly when its version is 1, its name is a plain path
/// component, its CPU rate is a percentage, and its network and credential
/// rules are all in order.
pub proof fn law_valid_policy(p: Policy, parsed: Seq<Option<endpoint::UrlPartsView>>)
    ensures
        policy_verdict(p, parsed) is Ok <==> {
            &&& p.version == 1
            &&& is_policy_name(p.name@)
            &&& p.process.cpu_rate_percent <= 100
            &&& network_in_order(p.network)
            &&& credentials::credentials_verdict(p.inference.routes@, p.network.mode, parsed) is Ok
        },
{
    let n = p.network;
    let groups = n.policies@;
    verdict::lemma_first_error_ok(groups.len() as int, |i: int| group_verdict(groups[i]));
    verdict::lemma_first_error_ok(groups.len() as int, |i: int| group_refinements(groups[i]));
    let a = |i: int| group_verdict(groups[i]);
    let b = |i: int| group_refinements(groups[i]);
    assert forall|i: int| 0 <= i < groups.len() implies (a(i) is Ok && b(i) is Ok
        <==> group_in_order(#[trigger] groups[i])) by {
        lemma_group(groups[i]);
    }
    if network_verdict(n) is Ok && refinements_verdict(groups) is Ok {
        assert forall|i: int| 0 <= i < groups.len() implies group_in_order(#[trigger] groups[i]) by {
            assert(a(i) is Ok);
            assert(b(i) is Ok);
        }
    }
    if network_in_order(n) {
        assert forall|i: int| 0 <= i < groups.len() implies #[trigger] a(i) is Ok by {
            assert(group_in_order(groups[i]));
        }
        assert forall|i: int| 0 <= i < groups.len() implies #[trigger] b(i) is Ok by {
            assert(group_in_order(groups[i]));
        }
    }
}

/// A policy that names nothing but itself is valid: version 1, a plain name, a
/// CPU rate that is a percentage, no endpoint groups and no inference routes.
pub proof fn law_bare_policy_is_valid(p: Policy)
    requires
        p.version == 1,
        is_policy_name(p.name@),
        p.process.cpu_rate_percent <= 100,
        p.network.policies@.len() == 0,
        p.inference.routes@.len() == 0,
    ensures
        verdict_on(p) is Ok,
{
    let parsed = credentials::route_urls(p.inference.routes@);
    law_valid_policy(p, parsed);
    credentials::law_accepted_credentials(p.inference.routes@, p.network.mode, parsed);
}

/// A policy may have any number of inference routes without credentials beside
/// the others: they change neither what the proxy rules say of it nor the error.
pub proof fn law_plain_route_is_no_matter_for_the_proxy(
    p: Policy,
    q: Policy,
    parsed: Seq<Option<endpoint::UrlPartsView>>,
    at: int,
    route: policy::InferenceRoute,
    url: Option<endpoint::UrlPartsView>,
)
    requires
        parsed.len() == p.inference.routes@.len(),
        0 <= at <= p.inference.routes@.len(),
        !credentials::has_credentials(route, url),
        q.network == p.network,
        q.inference.routes@ == p.inference.routes@.insert(at, route),
    ensures
        proxy_verdict(q, parsed.insert(at, url)) == proxy_verdict(p, parsed),
{
    credentials::law_plain_route_changes_nothing(
        p.inference.routes@,
        p.network.mode,
        parsed,
        at,
        route,
        url,
    );
}

/// A named group of at least one endpoint, each with a host that has a
/// canonical spelling and each authorized for its full host and port.
pub open spec fn group_in_order(g: EndpointPolicy) -> bool {
    &&& g.name@.len() > 0
    &&& g.endpoints@.len() > 0
    &&& forall|j: int| 0 <= j < g.endpoints@.len() ==> endpoint_in_order(#[trigger] g.endpoints@[j])
}

pub open spec fn endpoint_in_order(e: Endpoint) -> bool {
    &&& host::canonical_host(e.host@) is Ok
    &&& e.access == Access::ReadWrite
    &&& e.protocol is None
    &&& e.rules@.len() == 0
}

/// Endpoint groups stand only in proxy mode, and each of them is in order.
pub open spec fn network_in_order(n: NetworkPolicy) -> bool {
    &&& n.policies@.len() > 0 ==> n.mode == NetworkMode::Proxy
    &&& forall|i: int| 0 <= i < n.policies@.len() ==> group_in_order(#[trigger] n.policies@[i])
}

proof fn lemma_group(g: EndpointPolicy)
    ensures
        group_verdict(g) is Ok && group_refinements(g) is Ok <==> group_in_order(g),
{
    let n = g.endpoints@.len() as int;
    let a = |j: int| host_verdict(g.name@, g.endpoints@[j].host@);
    let b = |j: int| refinement_verdict(g.name@, g.endpoints@[j]);
    verdict::lemma_first_error_ok(n, a);
    verdict::lemma_first_error_ok(n, b);
    if group_verdict(g) is Ok && group_refinements(g) is Ok {
        assert forall|j: int| 0 <= j < n implies endpoint_in_order(#[trigger] g.endpoints@[j]) by {
            assert(a(j) is Ok);
            assert(b(j) is Ok);
        }
    }
    if group_in_order(g) {
        assert forall|j: int| 0 <= j < n implies #[trigger] a(j) is Ok by {
            assert(endpoint_in_order(g.endpoints@[j]));
        }
        assert forall|j: int| 0 <= j < n implies #[trigger] b(j) is Ok by {
            assert(endpoint_in_order(g.endpoints@[j]));
        }
    }
}

/// Whether a policy is valid, by what it says: version 1; a name of letters,
/// digits, `.`, `_` and `-` that is no path of its own; a CPU rate of at most 100;
/// endpoint groups in proxy mode only, each with a name and with endpoints that
/// have a host with a canonical spelling and ask for nothing but that host and its
/// port; and routes whose credentials are accepted.
#[verifier::rlimit(40)]
#[verifier::spinoff_prover]
pub proof fn law_which_policies_are_valid(p: Policy, parsed: Seq<Option<endpoint::UrlPartsView>>)
    ensures
        policy_verdict(p, parsed) is Ok <==> {
            &&& p.version == 1
            &&& p.name@.len() > 0
            &&& p.name@ != seq!['.']
            &&& p.name@ != seq!['.', '.']
            &&& forall|i: int|
                0 <= i < p.name@.len() ==> 'a' <= #[trigger] p.name@[i] <= 'z' || 'A' <= p.name@[i]
                    <= 'Z' || '0' <= p.name@[i] <= '9' || p.name@[i] == '.' || p.name@[i] == '_'
                    || p.name@[i] == '-'
            &&& p.process.cpu_rate_percent <= 100
            &&& p.network.policies@.len() > 0 ==> p.network.mode is Proxy
            &&& forall|i: int|
                0 <= i < p.network.policies@.len() ==> (#[trigger] p.network.policies@[i]).name@.len()
                    > 0 && p.network.policies@[i].endpoints@.len() > 0
            &&& forall|i: int, j: int|
                0 <= i < p.network.policies@.len() && 0 <= j
                    < p.network.policies@[i].endpoints@.len() ==> {
                    let e = #[trigger] p.network.policies@[i].endpoints@[j];
                    &&& host::canonical_host(e.host@) is Ok
                    &&& e.access is ReadWrite
                    &&& e.protocol is None
                    &&& e.rules@.len() == 0
                }
            &&& credentials::credentials_verdict(p.inference.routes@, p.network.mode, parsed) is Ok
        },
{
    law_valid_policy(p, parsed);
    let name = p.name@;
    let groups = p.network.policies@;
    if policy_verdict(p, parsed) is Ok {
        lemma_policy_name(name);
        assert forall|i: int| 0 <= i < groups.len() implies (#[trigger] groups[i]).name@.len() > 0
            && groups[i].endpoints@.len() > 0 by {
            assert(group_in_order(groups[i]));
        }
        assert forall|i: int, j: int|
            0 <= i < groups.len() && 0 <= j < groups[i].endpoints@.len() implies {
            let e = #[trigger] groups[i].endpoints@[j];
            &&& host::canonical_host(e.host@) is Ok
            &&& e.access is ReadWrite
            &&& e.protocol is None
            &&& e.rules@.len() == 0
        } by {
            assert(group_in_order(groups[i]));
            assert(endpoint_in_order(groups[i].endpoints@[j]));
        }
    } else {
        lemma_policy_name(name);
        if !network_in_order(p.network) && (groups.len() > 0 ==> p.network.mode is Proxy) {
            let i = choose|i: int| 0 <= i < groups.len() && !group_in_order(#[trigger] groups[i]);
            let g = groups[i];
            if g.name@.len() > 0 && g.endpoints@.len() > 0 {
                let j = choose|j: int|
                    0 <= j < g.endpoints@.len() && !endpoint_in_order(#[trigger] g.endpoints@[j]);
                assert(groups[i].endpoints@[j] == g.endpoints@[j]);
            }
        }
    }
}

spec fn is_spelled_like_a_policy_name(name: Seq<char>) -> bool {
    &&& name.len() > 0
    &&& name != seq!['.']
    &&& name != seq!['.', '.']
    &&& forall|i: int|
        0 <= i < name.len() ==> 'a' <= #[trigger] name[i] <= 'z' || 'A' <= name[i] <= 'Z' || '0'
            <= name[i] <= '9' || name[i] == '.' || name[i] == '_' || name[i] == '-'
}

proof fn lemma_policy_name(name: Seq<char>)
    ensures
        is_policy_name(name) <==> is_spelled_like_a_policy_name(name),
{
    if is_policy_name(name) {
        assert forall|i: int| 0 <= i < name.len() implies 'a' <= #[trigger] name[i] <= 'z' || 'A'
            <= name[i] <= 'Z' || '0' <= name[i] <= '9' || name[i] == '.' || name[i] == '_'
            || name[i] == '-' by {
            assert(is_name_char(name[i]));
        }
    }
    if is_spelled_like_a_policy_name(name) {
        assert forall|i: int| 0 <= i < name.len() implies is_name_char(#[trigger] name[i]) by {}
    }
}

/// What is wrong with a policy is said in order: its version, its name, its CPU
/// rate, its network, the endpoints that ask for too much, its credentials.
pub proof fn law_first_fault_is_reported(p: Policy, parsed: Seq<Option<endpoint::UrlPartsView>>)
    ensures
        p.version != 1 ==> policy_verdict(p, parsed) == Err::<(), _>(
            policy::PolicyErrorView::UnsupportedVersion(p.version),
        ),
        p.version == 1 ==> ({
            let name = name_verdict(p.name@);
            let process = process_verdict(p.process);
            let network = network_verdict(p.network);
            let refinements = refinements_verdict(p.network.policies@);
            let credentials = credentials::credentials_verdict(
                p.inference.routes@,
                p.network.mode,
                parsed,
            );
            policy_verdict(p, parsed) == if name is Err {
                name
            } else if process is Err {
                process
            } else if network is Err {
                network
            } else if refinements is Err {
                refinements
            } else {
                credentials
            }
        }),
{
}

/// The words for a bad name, a bad CPU rate and endpoint groups outside proxy
/// mode.
pub proof fn law_faults_in_words(name: Seq<char>, process: ProcessPolicy, network: NetworkPolicy)
    ensures
        name.len() == 0 ==> name_verdict(name) == Err::<(), _>(
            policy::PolicyErrorView::ValidationError("policy name must not be empty"@),
        ),
        name == seq!['.'] || name == seq!['.', '.'] ==> name_verdict(name) == Err::<(), _>(
            policy::PolicyErrorView::ValidationError("policy name must be a safe path component"@),
        ),
        (exists|i: int|
            0 <= i < name.len() && !('a' <= #[trigger] name[i] <= 'z' || 'A' <= name[i] <= 'Z'
                || '0' <= name[i] <= '9' || name[i] == '.' || name[i] == '_' || name[i] == '-'))
            ==> name_verdict(name) == Err::<(), _>(
            policy::PolicyErrorView::ValidationError(
                "policy name must contain only ASCII letters, digits, '.', '_' and '-'"@,
            ),
        ),
        process.cpu_rate_percent > 100 ==> process_verdict(process) == Err::<(), _>(
            policy::PolicyErrorView::ValidationError(
                "cpu_rate_percent must be 0..=100, got "@ + text::decimal(
                    process.cpu_rate_percent as nat,
                ),
            ),
        ),
        network.policies@.len() > 0 && !(network.mode is Proxy) ==> network_verdict(network)
            == Err::<(), _>(
            policy::PolicyErrorView::ValidationError(
                "network endpoint policies require network.mode: proxy"@,
            ),
        ),
{
    if exists|i: int|
        0 <= i < name.len() && !('a' <= #[trigger] name[i] <= 'z' || 'A' <= name[i] <= 'Z' || '0'
            <= name[i] <= '9' || name[i] == '.' || name[i] == '_' || name[i] == '-') {
        let i = choose|i: int|
            0 <= i < name.len() && !('a' <= #[trigger] name[i] <= 'z' || 'A' <= name[i] <= 'Z'
                || '0' <= name[i] <= '9' || name[i] == '.' || name[i] == '_' || name[i] == '-');
        assert(!is_name_char(name[i]));
    }
}

/// The hosts of a document are taken exactly when each has a canonical spelling.
pub proof fn law_hosts_of_a_document(groups: Seq<EndpointPolicy>)
    ensures
        hosts_verdict(groups) is Ok <==> forall|i: int, j: int|
            0 <= i < groups.len() && 0 <= j < groups[i].endpoints@.len() ==> host::canonical_host(
                (#[trigger] groups[i].endpoints@[j]).host@,
            ) is Ok,
{
    let n = groups.len() as int;
    let check = |i: int| group_hosts_verdict(groups[i]);
    verdict::lemma_first_error_ok(n, check);
    if hosts_verdict(groups) is Ok {
        assert forall|i: int, j: int|
            0 <= i < n && 0 <= j < groups[i].endpoints@.len() implies host::canonical_host(
            (#[trigger] groups[i].endpoints@[j]).host@,
        ) is Ok by {
            assert(check(i) is Ok);
            lemma_group_hosts(groups[i]);
        }
    } else {
        let i = choose|i: int| 0 <= i < n && !(#[trigger] check(i) is Ok);
        lemma_group_hosts(groups[i]);
        let j = choose|j: int|
            0 <= j < groups[i].endpoints@.len() && !(host::canonical_host(
                (#[trigger] groups[i].endpoints@[j]).host@,
            ) is Ok);
        assert(!(host::canonical_host(groups[i].endpoints@[j].host@) is Ok));
    }
}

/// The first host of a document that has no canonical spelling is the fault, with
/// the words for it.
pub proof fn law_first_bad_host_of_a_document_counts(groups: Seq<EndpointPolicy>, i: int, j: int)
    requires
        0 <= i < groups.len(),
        0 <= j < groups[i].endpoints@.len(),
        forall|k: int, l: int|
            0 <= k < i && 0 <= l < groups[k].endpoints@.len() ==> host::canonical_host(
                (#[trigger] groups[k].endpoints@[l]).host@,
            ) is Ok,
        forall|l: int|
            0 <= l < j ==> host::canonical_host((#[trigger] groups[i].endpoints@[l]).host@) is Ok,
        host::canonical_host(groups[i].endpoints@[j].host@) is Err,
    ensures
        hosts_verdict(groups) == Err::<(), Seq<char>>(
            host::canonical_host(groups[i].endpoints@[j].host@)->Err_0,
        ),
{
    let g = groups[i];
    let check = |k: int| group_hosts_verdict(groups[k]);
    let inner = |l: int| host_fault(g.endpoints@[l].host@);
    verdict::lemma_first_error_ok(j, inner);
    assert forall|l: int| 0 <= l < j implies #[trigger] inner(l) is Ok by {
        assert(host::canonical_host(groups[i].endpoints@[l].host@) is Ok);
    }
    verdict::lemma_passed(j, g.endpoints@.len() as int, inner);
    verdict::lemma_first_error_ok(i, check);
    assert forall|k: int| 0 <= k < i implies #[trigger] check(k) is Ok by {
        lemma_group_hosts(groups[k]);
    }
    verdict::lemma_passed(i, groups.len() as int, check);
}

proof fn lemma_group_hosts(g: EndpointPolicy)
    ensures
        group_hosts_verdict(g) is Ok <==> forall|j: int|
            0 <= j < g.endpoints@.len() ==> host::canonical_host(
                (#[trigger] g.endpoints@[j]).host@,
            ) is Ok,
{
    let check = |j: int| host_fault(g.endpoints@[j].host@);
    verdict::lemma_first_error_ok(g.endpoints@.len() as int, check);
    if group_hosts_verdict(g) is Ok {
        assert forall|j: int| 0 <= j < g.endpoints@.len() implies host::canonical_host(
            (#[trigger] g.endpoints@[j]).host@,
        ) is Ok by {
            assert(check(j) is Ok);
        }
    } else {
        let j = choose|j: int| 0 <= j < g.endpoints@.len() && !(#[trigger] check(j) is Ok);
        assert(!(host::canonical_host(g.endpoints@[j].host@) is Ok));
    }
}

/// Bringing the hosts of a policy into canonical spelling changes its hosts, each
/// into its own canonical spelling, and nothing else.
pub proof fn law_only_hosts_are_respelled(q: Policy, p: Policy)
    requires
        has_canonical_hosts(q, p),
    ensures
        q.version == p.version && q.name == p.name && q.runtime == p.runtime && q.filesystem
            == p.filesystem && q.process == p.process && q.inference == p.inference && q.gpu
            == p.gpu && q.ssh == p.ssh && q.amd == p.amd,
        q.network.mode == p.network.mode,
        q.network.policies@.len() == p.network.policies@.len(),
        forall|i: int|
            0 <= i < p.network.policies@.len() ==> (#[trigger] q.network.policies@[i]).name
                == p.network.policies@[i].name && q.network.policies@[i].binaries
                == p.network.policies@[i].binaries && q.network.policies@[i].endpoints@.len()
                == p.network.policies@[i].endpoints@.len(),
        forall|i: int, j: int|
            0 <= i < p.network.policies@.len() && 0 <= j < p.network.policies@[i].endpoints@.len()
                ==> {
                let e = #[trigger] q.network.policies@[i].endpoints@[j];
                let d = p.network.policies@[i].endpoints@[j];
                &&& host::canonical_host(d.host@) == Ok::<_, Seq<char>>(e.host@)
                &&& e.port == d.port
                &&& e.access == d.access
                &&& e.protocol == d.protocol
                &&& e.rules == d.rules
            },
{
    let a = q.network.policies@;
    let b = p.network.policies@;
    assert forall|i: int| 0 <= i < b.len() implies (#[trigger] a[i]).name == b[i].name
        && a[i].binaries == b[i].binaries && a[i].endpoints@.len() == b[i].endpoints@.len() by {
        assert(is_canonical_group(a[i], b[i]));
    }
    assert forall|i: int, j: int| 0 <= i < b.len() && 0 <= j < b[i].endpoints@.len() implies {
        let e = #[trigger] a[i].endpoints@[j];
        let d = b[i].endpoints@[j];
        &&& host::canonical_host(d.host@) == Ok::<_, Seq<char>>(e.host@)
        &&& e.port == d.port
        &&& e.access == d.access
        &&& e.protocol == d.protocol
        &&& e.rules == d.rules
    } by {
        assert(is_canonical_group(a[i], b[i]));
        assert(is_canonical_endpoint(a[i].endpoints@[j], b[i].endpoints@[j]));
    }
}

/// Endpoint groups are looked at in their order, and the first that is not in
/// order is the reason, in words: it has no name, it has no endpoints, or one of
/// its hosts has no canonical spelling, and then the first such host.
pub proof fn law_first_bad_group_is_reported(n: NetworkPolicy, i: int, j: int)
    requires
        n.mode is Proxy,
        0 <= i < n.policies@.len(),
        forall|k: int|
            0 <= k < i ==> (#[trigger] n.policies@[k]).name@.len() > 0
                && n.policies@[k].endpoints@.len() > 0,
        forall|k: int, l: int|
            0 <= k < i && 0 <= l < n.policies@[k].endpoints@.len() ==> host::canonical_host(
                (#[trigger] n.policies@[k].endpoints@[l]).host@,
            ) is Ok,
    ensures
        ({
            let g = n.policies@[i];
            let host = g.endpoints@[j].host@;
            &&& g.name@.len() == 0 ==> network_verdict(n) == credentials::refused::<()>(
                "network policy entries must have a name"@,
            )
            &&& g.name@.len() > 0 && g.endpoints@.len() == 0 ==> network_verdict(n)
                == credentials::refused::<()>(
                "network policy '"@ + g.name@ + "' has no endpoints"@,
            )
            &&& g.name@.len() > 0 && 0 <= j < g.endpoints@.len() && (forall|l: int|
                0 <= l < j ==> host::canonical_host((#[trigger] g.endpoints@[l]).host@) is Ok)
                && host::canonical_host(host) is Err ==> network_verdict(n)
                == credentials::refused::<()>(
                "network policy '"@ + g.name@ + "' has an invalid endpoint host '"@ + host
                    + "': "@ + host::canonical_host(host)->Err_0,
            )
        }),
{
    let groups = n.policies@;
    let g = groups[i];
    let check = |k: int| group_verdict(groups[k]);
    verdict::lemma_first_error_ok(i, check);
    assert forall|k: int| 0 <= k < i implies #[trigger] check(k) is Ok by {
        let inner = |l: int| host_verdict(groups[k].name@, groups[k].endpoints@[l].host@);
        verdict::lemma_first_error_ok(groups[k].endpoints@.len() as int, inner);
        assert forall|l: int| 0 <= l < groups[k].endpoints@.len() implies #[trigger] inner(
            l,
        ) is Ok by {
            assert(host::canonical_host(groups[k].endpoints@[l].host@) is Ok);
        }
    }
    if check(i) is Err {
        verdict::lemma_passed(i, groups.len() as int, check);
    }
    if g.name@.len() > 0 && 0 <= j < g.endpoints@.len() && (forall|l: int|
        0 <= l < j ==> host::canonical_host((#[trigger] g.endpoints@[l]).host@) is Ok)
        && host::canonical_host(g.endpoints@[j].host@) is Err {
        let inner = |l: int| host_verdict(g.name@, g.endpoints@[l].host@);
        verdict::lemma_first_error_ok(j, inner);
        assert forall|l: int| 0 <= l < j implies #[trigger] inner(l) is Ok by {
            assert(host::canonical_host(g.endpoints@[l].host@) is Ok);
        }
        verdict::lemma_passed(j, g.endpoints@.len() as int, inner);
        assert(check(i) == inner(j));
    }
}

/// The first endpoint that asks for more than its host and port is the reason, in
/// words: read-only access before a protocol, and a protocol before rules.
pub proof fn law_first_excess_is_reported(groups: Seq<EndpointPolicy>, i: int, j: int)
    requires
        0 <= i < groups.len(),
        0 <= j < groups[i].endpoints@.len(),
        forall|k: int, l: int|
            0 <= k < groups.len() && 0 <= l < groups[k].endpoints@.len() && (k < i || k == i && l
                < j) ==> {
                let e = #[trigger] groups[k].endpoints@[l];
                e.access is ReadWrite && e.protocol is None && e.rules@.len() == 0
            },
    ensures
        ({
            let e = groups[i].endpoints@[j];
            let place = e.host@ + ":"@ + text::decimal(e.port as nat);
            let front = "network policy '"@ + groups[i].name@;
            &&& e.access is ReadOnly ==> refinements_verdict(groups) == credentials::refused::<()>(
                front + "' requests unsupported read-only endpoint access for "@ + place
                    + "; endpoint policies currently authorize the full host and port"@,
            )
            &&& e.access is ReadWrite && e.protocol is Some ==> refinements_verdict(groups)
                == credentials::refused::<()>(
                front + "' requests unsupported endpoint protocol filtering for "@ + place,
            )
            &&& e.access is ReadWrite && e.protocol is None && e.rules@.len() > 0
                ==> refinements_verdict(groups) == credentials::refused::<()>(
                front + "' requests unsupported L7 method/path filtering for "@ + place,
            )
        }),
{
    let g = groups[i];
    let e = g.endpoints@[j];
    let check = |k: int| group_refinements(groups[k]);
    let inner = |l: int| refinement_verdict(g.name@, g.endpoints@[l]);
    verdict::lemma_first_error_ok(i, check);
    assert forall|k: int| 0 <= k < i implies #[trigger] check(k) is Ok by {
        let each = |l: int| refinement_verdict(groups[k].name@, groups[k].endpoints@[l]);
        verdict::lemma_first_error_ok(groups[k].endpoints@.len() as int, each);
        assert forall|l: int| 0 <= l < groups[k].endpoints@.len() implies #[trigger] each(
            l,
        ) is Ok by {
            assert(groups[k].endpoints@[l].access is ReadWrite);
        }
    }
    verdict::lemma_first_error_ok(j, inner);
    assert forall|l: int| 0 <= l < j implies #[trigger] inner(l) is Ok by {
        assert(groups[i].endpoints@[l].access is ReadWrite);
    }
    if inner(j) is Err {
        verdict::lemma_passed(j, g.endpoints@.len() as int, inner);
        assert(check(i) == inner(j));
        verdict::lemma_passed(i, groups.len() as int, check);
    }
    let place = e.host@ + ":"@ + text::decimal(e.port as nat);
    let front = "network policy '"@ + g.name@;
    let readonly = "' requests unsupported read-only endpoint access for "@;
    let protocol = "' requests unsupported endpoint protocol filtering for "@;
    let rules = "' requests unsupported L7 method/path filtering for "@;
    assert(front + readonly + place =~= front + readonly + e.host@ + ":"@ + text::decimal(
        e.port as nat,
    ));
    assert(front + protocol + place =~= front + protocol + e.host@ + ":"@ + text::decimal(
        e.port as nat,
    ));
    assert(front + rules + place =~= front + rules + e.host@ + ":"@ + text::decimal(
        e.port as nat,
    ));
}

} // verus!
