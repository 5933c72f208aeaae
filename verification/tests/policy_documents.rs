//! Policies read from YAML documents.

use axis::host::canonicalize_network_host;
use axis::policy::{
    default_access, default_exhaust_action, default_max_tokens_per_request, Access, AmdPolicy,
    ApexMemoryPolicy, BinaryMatch, ChildProcessPolicy, Compatibility, Endpoint, EndpointPolicy,
    ExhaustAction, FilesystemPolicy, GpuPolicy, InferencePolicy, InferenceRoute, L7Allow, L7Rule,
    NetworkMode, NetworkPolicy, Policy, PolicyError, ProcessIdentity, ProcessPolicy,
    RuntimeContainment, RuntimePolicy, RuntimeProvider, SshKeySpec, SshPolicy, TokenBudget,
};
use serde_yaml::Value;

type Read<T> = Result<T, String>;

fn text(v: &Value) -> Read<String> {
    v.as_str().map(str::to_owned).ok_or_else(|| "expected a string".to_owned())
}

fn number(v: &Value) -> Read<u64> {
    v.as_u64().ok_or_else(|| "expected a number".to_owned())
}

fn optional(v: Option<&Value>) -> Read<Option<String>> {
    match v {
        None => Ok(None),
        Some(v) if v.is_null() => Ok(None),
        Some(v) => text(v).map(Some),
    }
}

fn texts(v: Option<&Value>) -> Read<Vec<String>> {
    items(v)?.iter().map(text).collect()
}

fn items(v: Option<&Value>) -> Read<Vec<Value>> {
    match v {
        None => Ok(Vec::new()),
        Some(v) => v.as_sequence().cloned().ok_or_else(|| "expected a list".to_owned()),
    }
}

/// A mapping with these fields only; none stands for one that is left out.
fn known(v: Option<&Value>, fields: &[&str]) -> Read<()> {
    let Some(mapping) = v.and_then(Value::as_mapping) else { return Ok(()) };
    for key in mapping.keys() {
        let key = text(key)?;
        if !fields.contains(&key.as_str()) {
            return Err(format!("unknown field `{key}`, expected one of {fields:?}"));
        }
    }
    Ok(())
}

fn flag(v: Option<&Value>) -> bool {
    v.and_then(Value::as_bool).unwrap_or(false)
}

fn read_runtime(v: Option<&Value>) -> Read<RuntimePolicy> {
    known(v, &["containment", "provider"])?;
    let mut r = RuntimePolicy::default();
    let Some(v) = v else { return Ok(r) };
    if let Some(c) = v.get("containment") {
        r.containment = match text(c)?.as_str() {
            "process" => RuntimeContainment::Process,
            other => return Err(format!("unknown containment {other}")),
        };
    }
    if let Some(p) = v.get("provider") {
        let name = text(p)?;
        r.provider = RuntimeProvider::from_name(&name)
            .ok_or_else(|| format!("unknown variant `{name}`"))?;
    }
    Ok(r)
}

fn read_filesystem(v: Option<&Value>) -> Read<FilesystemPolicy> {
    known(v, &["read_only", "read_write", "deny", "compatibility"])?;
    let mut r = FilesystemPolicy::default();
    let Some(v) = v else { return Ok(r) };
    r.read_only = texts(v.get("read_only"))?;
    r.read_write = texts(v.get("read_write"))?;
    r.deny = texts(v.get("deny"))?;
    if let Some(c) = v.get("compatibility") {
        r.compatibility = match text(c)?.as_str() {
            "best_effort" => Compatibility::BestEffort,
            "hard_requirement" => Compatibility::HardRequirement,
            other => return Err(format!("unknown compatibility {other}")),
        };
    }
    Ok(r)
}

fn read_process(v: Option<&Value>) -> Read<ProcessPolicy> {
    known(
        v,
        &[
            "max_processes", "max_memory_mb", "cpu_rate_percent", "run_as_user",
            "blocked_syscalls", "identity", "child_processes", "timeout_sec",
        ],
    )?;
    let mut r = ProcessPolicy::default();
    let Some(v) = v else { return Ok(r) };
    if let Some(n) = v.get("max_processes") {
        r.max_processes = number(n)? as u32;
    }
    if let Some(n) = v.get("max_memory_mb") {
        r.max_memory_mb = number(n)?;
    }
    if let Some(n) = v.get("cpu_rate_percent") {
        r.cpu_rate_percent = number(n)? as u32;
    }
    r.blocked_syscalls = texts(v.get("blocked_syscalls"))?;
    if let Some(i) = v.get("identity") {
        r.identity = match text(i)?.as_str() {
            "backend_default" => ProcessIdentity::BackendDefault,
            "isolated" => ProcessIdentity::Isolated,
            other => return Err(format!("unknown identity {other}")),
        };
    }
    if let Some(c) = v.get("child_processes") {
        r.child_processes = match text(c)?.as_str() {
            "allow" => ChildProcessPolicy::Allow,
            "deny" => ChildProcessPolicy::Deny,
            other => return Err(format!("unknown child process policy {other}")),
        };
    }
    Ok(r)
}

fn read_endpoint(v: &Value) -> Read<Endpoint> {
    known(Some(v), &["host", "port", "access", "protocol", "rules"])?;
    let mut rules = Vec::new();
    for rule in items(v.get("rules"))? {
        known(Some(&rule), &["allow"])?;
        known(rule.get("allow"), &["method", "path"])?;
        let allow = match rule.get("allow") {
            None => None,
            Some(a) => Some(L7Allow {
                method: text(&a["method"])?,
                path: text(&a["path"])?,
            }),
        };
        rules.push(L7Rule { allow });
    }
    Ok(Endpoint {
        host: text(&v["host"])?,
        port: number(&v["port"])? as u16,
        access: match v.get("access") {
            None => default_access(),
            Some(a) => match text(a)?.as_str() {
                "read-write" => Access::ReadWrite,
                "read-only" => Access::ReadOnly,
                other => return Err(format!("unknown access {other}")),
            },
        },
        protocol: optional(v.get("protocol"))?,
        rules,
    })
}

fn read_network(v: Option<&Value>) -> Read<NetworkPolicy> {
    known(v, &["mode", "policies"])?;
    let mut r = NetworkPolicy::default();
    let Some(v) = v else { return Ok(r) };
    if let Some(m) = v.get("mode") {
        r.mode = match text(m)?.as_str() {
            "proxy" => NetworkMode::Proxy,
            "block" => NetworkMode::Block,
            "allow" => NetworkMode::Allow,
            other => return Err(format!("unknown mode {other}")),
        };
    }
    for group in items(v.get("policies"))? {
        known(Some(&group), &["name", "endpoints", "binaries"])?;
        let endpoints: Read<Vec<Endpoint>> =
            items(group.get("endpoints"))?.iter().map(read_endpoint).collect();
        let binaries: Read<Vec<BinaryMatch>> = items(group.get("binaries"))?
            .iter()
            .map(|b| {
                known(Some(b), &["path"])?;
                Ok(BinaryMatch { path: text(&b["path"])? })
            })
            .collect();
        r.policies.push(EndpointPolicy {
            name: text(&group["name"])?,
            endpoints: endpoints?,
            binaries: binaries?,
        });
    }
    Ok(r)
}

fn read_inference(v: Option<&Value>) -> Read<InferencePolicy> {
    known(v, &["default_provider", "routes", "scheduling", "token_budget"])?;
    let mut r = InferencePolicy::default();
    let Some(v) = v else { return Ok(r) };
    r.default_provider = optional(v.get("default_provider"))?;
    known(v.get("scheduling"), &["weight", "priority", "max_concurrent_requests"])?;
    known(
        v.get("token_budget"),
        &["max_tokens_per_hour", "max_tokens_per_request", "action_on_exhaust", "fallback_route"],
    )?;
    for route in items(v.get("routes"))? {
        known(
            Some(&route),
            &["name", "endpoint", "provider", "model", "api_key_env", "protocols"],
        )?;
        r.routes.push(InferenceRoute {
            name: text(&route["name"])?,
            endpoint: optional(route.get("endpoint"))?,
            provider: optional(route.get("provider"))?,
            model: optional(route.get("model"))?,
            api_key_env: optional(route.get("api_key_env"))?,
            protocols: texts(route.get("protocols"))?,
        });
    }
    if let Some(b) = v.get("token_budget") {
        r.token_budget = Some(TokenBudget {
            max_tokens_per_hour: number(&b["max_tokens_per_hour"])?,
            max_tokens_per_request: match b.get("max_tokens_per_request") {
                None => default_max_tokens_per_request(),
                Some(n) => number(n)?,
            },
            action_on_exhaust: match b.get("action_on_exhaust") {
                None => default_exhaust_action(),
                Some(a) => match text(a)?.as_str() {
                    "queue" => ExhaustAction::Queue,
                    "reject" => ExhaustAction::Reject,
                    "fallback_cloud" => ExhaustAction::FallbackCloud,
                    other => return Err(format!("unknown action {other}")),
                },
            },
            fallback_route: optional(b.get("fallback_route"))?,
        });
    }
    Ok(r)
}

fn read_amd(v: Option<&Value>) -> Read<Option<AmdPolicy>> {
    let Some(v) = v else { return Ok(None) };
    known(Some(v), &["gpu_passthrough", "npu_policy_offload", "apex_memory_policy"])?;
    known(v.get("apex_memory_policy"), &["allow_overcommit", "max_vram_mb"])?;
    Ok(Some(AmdPolicy {
        gpu_passthrough: flag(v.get("gpu_passthrough")),
        npu_policy_offload: flag(v.get("npu_policy_offload")),
        apex_memory_policy: v.get("apex_memory_policy").map(|a| ApexMemoryPolicy {
            allow_overcommit: flag(a.get("allow_overcommit")),
            max_vram_mb: a.get("max_vram_mb").and_then(Value::as_u64),
        }),
    }))
}

fn read_gpu(v: Option<&Value>) -> Read<GpuPolicy> {
    known(
        v,
        &[
            "enabled", "device", "transport", "vram_limit_mb", "compute_timeout_sec",
            "allowed_apis", "denied_apis",
        ],
    )?;
    let mut r = GpuPolicy::default();
    let Some(v) = v else { return Ok(r) };
    r.enabled = flag(v.get("enabled"));
    r.allowed_apis = texts(v.get("allowed_apis"))?;
    r.denied_apis = texts(v.get("denied_apis"))?;
    Ok(r)
}

fn read_ssh(v: Option<&Value>) -> Read<SshPolicy> {
    known(v, &["allowed_keys", "generate_known_hosts", "generate_config"])?;
    let mut r = SshPolicy::default();
    let Some(v) = v else { return Ok(r) };
    r.generate_known_hosts = flag(v.get("generate_known_hosts"));
    r.generate_config = flag(v.get("generate_config"));
    for key in items(v.get("allowed_keys"))? {
        known(Some(&key), &["name", "private_key", "allowed_hosts"])?;
        r.allowed_keys.push(SshKeySpec {
            name: text(&key["name"])?,
            private_key: text(&key["private_key"])?,
            allowed_hosts: texts(key.get("allowed_hosts"))?,
        });
    }
    Ok(r)
}

fn read_policy(v: &Value) -> Read<Policy> {
    known(
        Some(v),
        &[
            "version", "name", "runtime", "filesystem", "process", "network", "inference", "gpu",
            "ssh", "amd",
        ],
    )?;
    Ok(Policy {
        version: number(&v["version"])? as u32,
        name: text(&v["name"])?,
        runtime: read_runtime(v.get("runtime"))?,
        filesystem: read_filesystem(v.get("filesystem"))?,
        process: read_process(v.get("process"))?,
        network: read_network(v.get("network"))?,
        inference: read_inference(v.get("inference"))?,
        gpu: read_gpu(v.get("gpu"))?,
        ssh: read_ssh(v.get("ssh"))?,
        amd: read_amd(v.get("amd"))?,
    })
}

fn from_yaml(yaml: &str) -> Result<Policy, PolicyError> {
    let document: Result<Value, String> = serde_yaml::from_str(yaml).map_err(|e| e.to_string());
    Policy::from_document(document.and_then(|v| read_policy(&v)))
}

const MINIMAL_POLICY: &str = r#"
version: 1
name: test-sandbox
"#;

const FULL_POLICY: &str = r#"
version: 1
name: coding-agent-sandbox

runtime:
  containment: process
  provider: auto

filesystem:
  read_only:
    - /usr
    - /lib
    - /etc/ssl/certs
  read_write:
    - "{workspace}"
    - "{tmpdir}"
  deny:
    - "~/.ssh"
    - "~/.gnupg"

process:
  max_processes: 32
  max_memory_mb: 8192
  cpu_rate_percent: 80
  blocked_syscalls:
    - ptrace
    - mount
    - bpf

network:
  mode: proxy
  policies:
    - name: github-api
      endpoints:
        - host: "api.github.com"
          port: 443
          access: read-write
      binaries:
        - path: "/usr/bin/git"
        - path: "/usr/bin/curl"

inference:
  default_provider: local-rocm
  routes:
    - name: local-rocm
      endpoint: "http://localhost:8080"
      protocols: [openai_chat_completions]
      model: "llama-4-scout-109b"
    - name: cloud-fallback
      endpoint: "http://inference.local:8081"
      model: "cloud-sonnet-4-20250514"
      api_key_env: ANTHROPIC_API_KEY
  token_budget:
    max_tokens_per_hour: 500000
    max_tokens_per_request: 32768
    action_on_exhaust: fallback_cloud
    fallback_route: cloud-fallback

amd:
  gpu_passthrough: true
  npu_policy_offload: false
  apex_memory_policy:
    allow_overcommit: true
    max_vram_mb: 16384
"#;

#[test]
fn parse_minimal_policy() {
    let policy = from_yaml(MINIMAL_POLICY).unwrap();
    assert_eq!(policy.version, 1);
    assert_eq!(policy.name, "test-sandbox");
    assert_eq!(policy.runtime.containment, RuntimeContainment::Process);
    assert_eq!(policy.runtime.provider, RuntimeProvider::Auto);
    assert_eq!(policy.process.max_processes, 32);
    assert_eq!(policy.process.cpu_rate_percent, 80);
}

#[test]
fn parse_full_policy() {
    let policy = from_yaml(FULL_POLICY).unwrap();
    assert_eq!(policy.name, "coding-agent-sandbox");
    assert_eq!(policy.runtime.containment, RuntimeContainment::Process);
    assert_eq!(policy.runtime.provider, RuntimeProvider::Auto);
    assert_eq!(policy.filesystem.read_only.len(), 3);
    assert_eq!(policy.filesystem.deny.len(), 2);
    assert_eq!(policy.network.policies.len(), 1);
    assert_eq!(policy.network.policies[0].name, "github-api");
    assert_eq!(policy.inference.routes.len(), 2);

    let budget = policy.inference.token_budget.as_ref().unwrap();
    assert_eq!(budget.max_tokens_per_hour, 500_000);
    assert!(matches!(budget.action_on_exhaust, ExhaustAction::FallbackCloud));

    let amd = policy.amd.as_ref().unwrap();
    assert!(amd.gpu_passthrough);
    assert!(!amd.npu_policy_offload);
    assert_eq!(amd.apex_memory_policy.as_ref().unwrap().max_vram_mb, Some(16384));
}

#[test]
fn reject_invalid_version() {
    let yaml = "version: 99\nname: bad\n";
    let err = from_yaml(yaml).unwrap_err();
    assert!(matches!(err, PolicyError::UnsupportedVersion(99)));
    assert_eq!(err.message(), "unsupported policy version: 99");
}

#[test]
fn reject_empty_name() {
    let yaml = "version: 1\nname: \"\"\n";
    let err = from_yaml(yaml).unwrap_err();
    assert!(matches!(err, PolicyError::ValidationError(_)));
}

#[test]
fn reject_policy_name_that_is_not_safe_path_component() {
    for name in [
        ".",
        "..",
        "../escape",
        "/absolute",
        "nested/name",
        "nested\\name",
        "bad name",
    ] {
        let yaml = format!("version: 1\nname: {name:?}\n");
        let err = from_yaml(&yaml).unwrap_err();
        assert!(
            matches!(err, PolicyError::ValidationError(_)),
            "expected invalid policy name {name:?} to be rejected"
        );
    }
}

#[test]
fn allow_policy_name_safe_path_component() {
    let yaml = "version: 1\nname: agent.codex_1-test\n";
    let policy = from_yaml(yaml).unwrap();
    assert_eq!(policy.name, "agent.codex_1-test");
}

#[test]
fn parse_runtime_provider_override() {
    let yaml = "\
version: 1
name: test
runtime:
  containment: process
  provider: mxc
";
    let policy = from_yaml(yaml).unwrap();
    assert_eq!(policy.runtime.containment, RuntimeContainment::Process);
    assert_eq!(policy.runtime.provider, RuntimeProvider::Mxc);
    assert_eq!(policy.runtime.containment.as_str(), "process");
    assert_eq!(policy.runtime.provider.as_str(), "mxc");
}

#[test]
fn parse_runtime_axis_native_alias() {
    let yaml = "\
version: 1
name: test
runtime:
  provider: axis-native
";
    let policy = from_yaml(yaml).unwrap();
    assert_eq!(policy.runtime.provider, RuntimeProvider::AxisNative);
    assert_eq!(policy.runtime.provider.as_str(), "axis_native");
}

#[test]
fn allow_zero_cpu_rate_to_disable_cpu_quota() {
    let yaml = "version: 1\nname: test\nprocess:\n  cpu_rate_percent: 0\n";
    let policy = from_yaml(yaml).unwrap();
    assert_eq!(policy.process.cpu_rate_percent, 0);
}

#[test]
fn allow_zero_process_and_memory_limits_to_disable_resource_limits() {
    let yaml = "version: 1\nname: test\nprocess:\n  max_processes: 0\n  max_memory_mb: 0\n  cpu_rate_percent: 0\n";
    let policy = from_yaml(yaml).unwrap();
    assert_eq!(policy.process.max_processes, 0);
    assert_eq!(policy.process.max_memory_mb, 0);
    assert_eq!(policy.process.cpu_rate_percent, 0);
}

#[test]
fn portable_process_intents_parse_and_derive_effective_limit() {
    let policy = from_yaml(
        "version: 1\nname: portable-process\nprocess:\n  identity: isolated\n  child_processes: deny\n",
    )
    .unwrap();
    assert_eq!(policy.process.identity, ProcessIdentity::Isolated);
    assert_eq!(policy.process.child_processes, ChildProcessPolicy::Deny);
    assert_eq!(policy.process.effective_max_processes(), 1);
}

#[test]
fn reject_invalid_cpu_rate() {
    let yaml = "version: 1\nname: test\nprocess:\n  cpu_rate_percent: 101\n";
    let err = from_yaml(yaml).unwrap_err();
    assert!(matches!(err, PolicyError::ValidationError(_)));
    assert_eq!(
        err.message(),
        "policy validation failed: cpu_rate_percent must be 0..=100, got 101"
    );
}

#[test]
fn endpoint_access_defaults_to_full_host_port_authorization() {
    let policy = from_yaml(
        r#"
version: 1
name: endpoint-default
network:
  mode: proxy
  policies:
    - name: example
      endpoints:
        - host: example.com
          port: 443
"#,
    )
    .unwrap();

    assert!(matches!(
        policy.network.policies[0].endpoints[0].access,
        Access::ReadWrite
    ));
}

#[test]
fn reject_endpoint_policies_outside_proxy_mode() {
    for mode in ["allow", "block"] {
        let yaml = format!(
            r#"
version: 1
name: endpoint-mode
network:
  mode: {mode}
  policies:
    - name: example
      endpoints:
        - host: example.com
          port: 443
"#
        );
        let err = from_yaml(&yaml).unwrap_err();
        assert!(err.message().contains("require network.mode: proxy"), "{}", err.message());
    }
}

#[test]
fn reject_unenforced_endpoint_refinements() {
    let cases = [
        ("access: read-only", "read-only endpoint access"),
        ("protocol: rest", "protocol filtering"),
        (
            "rules:\n            - allow:\n                method: GET\n                path: /v1/models",
            "L7 method/path filtering",
        ),
    ];

    for (refinement, expected) in cases {
        let yaml = format!(
            r#"
version: 1
name: unsupported-endpoint-refinement
network:
  mode: proxy
  policies:
    - name: example
      endpoints:
        - host: example.com
          port: 443
          {refinement}
"#
        );
        let err = from_yaml(&yaml).unwrap_err();
        assert!(err.message().contains(expected), "{}", err.message());
    }
}

#[test]
fn reject_l7_rules_independent_of_transport_hint() {
    for (port, protocol) in [(80, ""), (443, "          protocol: rest\n")] {
        let yaml = format!(
            r#"
version: 1
name: unsupported-l7
network:
  mode: proxy
  policies:
    - name: example
      endpoints:
        - host: example.com
          port: {port}
{protocol}          rules:
            - allow:
                method: GET
                path: /allowed
"#
        );
        let err = from_yaml(&yaml).unwrap_err();
        let message = err.message();
        assert!(
            message.contains("L7 method/path filtering") || message.contains("protocol filtering"),
            "{message}"
        );
    }
}

#[test]
fn allow_inference_virtual_host_credentials_in_proxy_mode() {
    for endpoint in [
        "http://inference.local:8080/v1",
        "http://INFERENCE.LOCAL.:8080/v1?key=axis:resolve:env:LOCAL_KEY",
    ] {
        let yaml = format!(
            r#"
version: 1
name: local-http-credentials
network:
  mode: proxy
inference:
  routes:
    - name: local
      endpoint: "{endpoint}"
      api_key_env: LOCAL_KEY
"#
        );
        from_yaml(&yaml).unwrap();
    }
}

#[test]
fn reject_credentials_without_proxy_mode() {
    for mode in ["allow", "block"] {
        let yaml = format!(
            r#"
version: 1
name: wrong-credential-mode
network:
  mode: {mode}
inference:
  routes:
    - name: local
      endpoint: http://inference.local:8080
      api_key_env: LOCAL_KEY
"#
        );
        let err = from_yaml(&yaml).unwrap_err();
        assert!(err.message().contains("network.mode: proxy"), "{}", err.message());
    }
}

#[test]
fn reject_https_host_boundary_credentials() {
    let cases = [
        "endpoint: https://example.com/v1\n      api_key_env: EXTERNAL_KEY",
        "provider: openai\n      api_key_env: EXTERNAL_KEY",
        "provider: anthropic\n      api_key_env: EXTERNAL_KEY",
        "endpoint: https://example.com/v1?key=axis:resolve:env:EXTERNAL_KEY",
    ];

    for route in cases {
        let yaml = format!(
            r#"
version: 1
name: unsupported-https-credentials
network:
  mode: proxy
inference:
  routes:
    - name: external
      {route}
"#
        );
        let err = from_yaml(&yaml).unwrap_err();
        let message = err.message();
        assert!(
            message.contains("HTTPS credential injection")
                || message.contains("explicit http:// endpoint"),
            "{message}"
        );
    }
}

#[test]
fn reject_plaintext_credentials_to_remote_endpoint() {
    let yaml = r#"
version: 1
name: remote-http-credentials
network:
  mode: proxy
inference:
  routes:
    - name: external
      endpoint: http://example.com/v1
      api_key_env: EXTERNAL_KEY
"#;

    let err = from_yaml(yaml).unwrap_err();
    assert!(err.message().contains("only through inference.local"), "{}", err.message());
}

#[test]
fn reject_loopback_credential_origins_rejected_by_runtime_ssrf_controls() {
    for endpoint in [
        "http://localhost:8080/v1",
        "http://LOCALHOST.:8080/v1",
        "http://127.0.0.1:8080/v1",
        "http://127.1:8080/v1",
        "http://[::1]:8080/v1",
        "http://[0:0:0:0:0:0:0:1]:8080/v1",
    ] {
        let yaml = format!(
            r#"
version: 1
name: loopback-credential-origin
network:
  mode: proxy
inference:
  routes:
    - name: local
      endpoint: "{endpoint}"
      api_key_env: LOCAL_KEY
"#
        );
        let error = from_yaml(&yaml).unwrap_err();
        assert!(
            error.message().contains("runtime SSRF controls"),
            "{endpoint}: {}",
            error.message()
        );
    }
}

#[test]
fn reject_overlapping_credential_scopes_independent_of_route_order() {
    for routes in [
        r#"
    - name: broad
      endpoint: http://INFERENCE.LOCAL.:8080/v1
      api_key_env: BROAD_KEY
    - name: narrow
      endpoint: http://inference.local:8080/v1/chat
      api_key_env: NARROW_KEY
"#,
        r#"
    - name: narrow
      endpoint: http://inference.local:8080/v1/chat
      api_key_env: NARROW_KEY
    - name: broad
      endpoint: http://INFERENCE.LOCAL.:8080/v1
      api_key_env: BROAD_KEY
"#,
        r#"
    - name: first
      endpoint: http://inference.local:80/v1
      api_key_env: FIRST_KEY
    - name: duplicate
      endpoint: http://INFERENCE.LOCAL./v1
      api_key_env: SECOND_KEY
"#,
        r#"
    - name: encoded
      endpoint: http://inference.local/%76%31
      api_key_env: ENCODED_KEY
    - name: plain
      endpoint: http://inference.local/v1/chat
      api_key_env: PLAIN_KEY
"#,
        r#"
    - name: plain
      endpoint: http://inference.local/v1/chat
      api_key_env: PLAIN_KEY
    - name: encoded
      endpoint: http://inference.local/%76%31
      api_key_env: ENCODED_KEY
"#,
        r#"
    - name: lowercase-encoding
      endpoint: http://inference.local/v1%2fchat
      api_key_env: LOWER_KEY
    - name: uppercase-encoding
      endpoint: http://inference.local/v1%2Fchat
      api_key_env: UPPER_KEY
"#,
        r#"
    - name: lowercase-unreserved
      endpoint: http://inference.local/v1/%7euser
      api_key_env: LOWER_KEY
    - name: uppercase-unreserved
      endpoint: http://inference.local/v1/%7Euser
      api_key_env: UPPER_KEY
"#,
    ] {
        let yaml = format!(
            "version: 1\nname: ambiguous-scopes\nnetwork:\n  mode: proxy\ninference:\n  routes:{routes}"
        );
        let error = from_yaml(&yaml).unwrap_err();
        assert!(
            error.message().contains("ambiguous overlapping scopes"),
            "{}",
            error.message()
        );
    }
}

#[test]
fn allow_disjoint_credential_paths_and_ports() {
    let yaml = r#"
version: 1
name: disjoint-scopes
network:
  mode: proxy
inference:
  routes:
    - name: chat
      endpoint: http://inference.local:8080/v1/chat
      api_key_env: CHAT_KEY
    - name: models
      endpoint: http://inference.local:8080/v1/models
      api_key_env: MODELS_KEY
    - name: alternate-port
      endpoint: http://inference.local:8081/v1/chat
      api_key_env: ALT_KEY
"#;
    from_yaml(yaml).unwrap();
}

#[test]
fn preserve_encoded_reserved_separator_scope_boundaries() {
    let yaml = r#"
version: 1
name: reserved-path-boundaries
network:
  mode: proxy
inference:
  routes:
    - name: encoded-separator
      endpoint: http://inference.local/v1%2Fchat
      api_key_env: ENCODED_KEY
    - name: path-separator
      endpoint: http://inference.local/v1/chat
      api_key_env: PATH_KEY
"#;
    from_yaml(yaml).unwrap();
}

#[test]
fn reject_credential_endpoint_fragments_and_malformed_percent_encoding() {
    for endpoint in [
        "http://inference.local/v1#fragment?key=axis:resolve:env:LOCAL_KEY",
        "http://inference.local/v1?key=axis:resolve:env:LOCAL_KEY#fragment",
        "http://inference.local/v%7?key=axis:resolve:env:LOCAL_KEY",
        "http://inference.local/v1?key=axis%ZZresolve%3Aenv%3ALOCAL_KEY&other=axis:resolve:env:OTHER_KEY",
    ] {
        let yaml = format!(
            r#"
version: 1
name: invalid-credential-endpoint
network:
  mode: proxy
inference:
  routes:
    - name: local
      endpoint: "{endpoint}"
      api_key_env: LOCAL_KEY
"#
        );
        let error = from_yaml(&yaml).unwrap_err();
        assert!(
            error.message().contains("invalid credential endpoint"),
            "{endpoint}: {}",
            error.message()
        );
    }
}

#[test]
fn detect_percent_encoded_query_credential_placeholders_during_validation() {
    let yaml = r#"
version: 1
name: encoded-query-placeholder
network:
  mode: proxy
inference:
  routes:
    - name: remote
      endpoint: "http://example.com/v1?key=axis%3Aresolve%3Aenv%3AREMOTE_KEY"
"#;
    let error = from_yaml(yaml).unwrap_err();
    assert!(error.message().contains("only through inference.local"));
}

#[test]
fn canonicalize_network_policy_dns_and_ip_hosts_before_serialization() {
    let policy = from_yaml(
        r#"
version: 1
name: canonical-hosts
network:
  mode: proxy
  policies:
    - name: endpoints
      endpoints:
        - host: API.EXAMPLE.COM.
          port: 443
        - host: 2001:0db8:0:0::1
          port: 443
"#,
    )
    .unwrap();

    let endpoints = &policy.network.policies[0].endpoints;
    assert_eq!(endpoints[0].host, "api.example.com");
    assert_eq!(endpoints[1].host, "2001:db8::1");
    // What is written out is the canonical form once more.
    assert_eq!(canonicalize_network_host(&endpoints[0].host), Ok("api.example.com".to_owned()));
    assert_eq!(canonicalize_network_host(&endpoints[1].host), Ok("2001:db8::1".to_owned()));
}

#[test]
fn loaded_hosts_are_canonical_and_the_first_bad_one_is_reported() {
    let yaml = |first: &str, second: &str| {
        format!(
            "version: 1\nname: hosts\nnetwork:\n  policies:\n    - name: a\n      endpoints:\n        - host: \"{first}\"\n          port: 1\n    - name: b\n      endpoints:\n        - host: \"{second}\"\n          port: 2\n"
        )
    };
    let policy = from_yaml(&yaml("Example.COM.", "[::FFFF]")).unwrap();
    assert_eq!(policy.network.policies[0].endpoints[0].host, "example.com");
    assert_eq!(policy.network.policies[0].endpoints[0].port, 1);
    assert_eq!(policy.network.policies[1].endpoints[0].host, "::ffff");
    assert_eq!(policy.network.policies[1].name, "b");
    let error = from_yaml(&yaml("a", "-b")).unwrap_err();
    assert!(matches!(error, PolicyError::ParseError(_)));
    assert_eq!(
        error.message(),
        "failed to parse policy YAML: network endpoint host is not a valid DNS name"
    );
    let error = from_yaml(&yaml("", "-b")).unwrap_err();
    assert!(error.message().contains("must not be empty"));
}

#[test]
fn providers_are_read_back_from_their_names() {
    for provider in [
        RuntimeProvider::Auto,
        RuntimeProvider::Mxc,
        RuntimeProvider::AxisNative,
        RuntimeProvider::Vxn,
    ] {
        let yaml =
            format!("version: 1\nname: t\nruntime:\n  provider: {}\n", provider.as_str());
        assert_eq!(from_yaml(&yaml).unwrap().runtime.provider, provider);
    }
    assert_eq!(RuntimeProvider::from_name("docker"), None);
}

#[test]
fn reject_malformed_network_policy_hosts() {
    for host in ["", ".", "example.com..", "-bad.example", "bad-.example", "bad_host"] {
        let yaml = format!(
            "version: 1\nname: invalid-host\nnetwork:\n  mode: proxy\n  policies:\n    - name: bad\n      endpoints:\n        - host: \"{host}\"\n          port: 443\n"
        );
        let error = from_yaml(&yaml).unwrap_err();
        assert!(
            error.message().contains("network endpoint host"),
            "{host}: {}",
            error.message()
        );
    }
}

#[test]
fn reject_invalid_credential_environment_names_and_placeholders() {
    let cases = [
        (
            "http://localhost:8080/v1",
            "api_key_env: lower_case",
            "uppercase environment variable",
        ),
        (
            "http://localhost:8080/v1",
            "api_key_env: ''",
            "uppercase environment variable",
        ),
        (
            "http://localhost:8080/v1?key=axis:resolve:file:secret",
            "",
            "unsupported credential placeholder",
        ),
        (
            "http://localhost:8080/v1?key=axis:resolve:env:lower_case",
            "",
            "uppercase environment variable",
        ),
        (
            "http://localhost:8080/v1?=axis:resolve:env:LOCAL_KEY",
            "",
            "placeholder must have a name",
        ),
        (
            "http://localhost:8080/v1?api_key=axis:resolve:env:LOCAL_KEY&api%5Fkey=shadow",
            "",
            "one unambiguous definition",
        ),
    ];

    for (endpoint, route, expected) in cases {
        let yaml = format!(
            r#"
version: 1
name: invalid-credential-reference
network:
  mode: proxy
inference:
  routes:
    - name: local
      endpoint: {endpoint}
      {route}
"#
        );
        let err = from_yaml(&yaml).unwrap_err();
        assert!(err.message().contains(expected), "{}", err.message());
    }
}

#[test]
fn broken_yaml_is_a_parse_error() {
    let err = from_yaml("version: [1\n").unwrap_err();
    assert!(matches!(err, PolicyError::ParseError(_)));
    assert!(err.message().starts_with("failed to parse policy YAML: "));
    let err = PolicyError::unreadable("/etc/p.yaml", "permission denied");
    assert_eq!(
        err.message(),
        "policy validation failed: cannot read /etc/p.yaml: permission denied"
    );
}

fn assert_unknown_field_rejected(family: &str, yaml: &str, field: &str) {
    let err = from_yaml(yaml).unwrap_err();
    assert!(
        matches!(err, PolicyError::ParseError(_)),
        "{family} unknown field must fail during deserialization: {}",
        err.message()
    );
    assert!(
        err.message()
            .contains(&format!("unknown field `{field}`")),
        "{family} rejected for an unexpected reason: {}",
        err.message()
    );
}

#[test]
fn reject_unknown_fields_across_policy_mapping_families() {
    let cases = [
        ("policy", "unexpected: true\n", "unexpected"),
        (
            "runtime",
            "runtime:\n  containment: process\n  providre: auto\n",
            "providre",
        ),
        (
            "filesystem",
            "filesystem:\n  read_only: [/usr]\n  compatiblity: best_effort\n",
            "compatiblity",
        ),
        (
            "process",
            "process:\n  max_processes: 4\n  blocked_syscall: [ptrace]\n",
            "blocked_syscall",
        ),
        (
            "network",
            "network:\n  mode: proxy\n  endpoint_policies: []\n",
            "endpoint_policies",
        ),
        (
            "endpoint",
            "network:\n  mode: proxy\n  policies:\n    - name: web\n      endpoints:\n        - host: example.com\n          port: 443\n          protcol: tcp\n",
            "protcol",
        ),
        (
            "L7 rule",
            "network:\n  mode: proxy\n  policies:\n    - name: web\n      endpoints:\n        - host: example.com\n          port: 443\n          rules:\n            - allow: { method: GET, path: / }\n              audit: true\n",
            "audit",
        ),
        (
            "L7 allow",
            "network:\n  mode: proxy\n  policies:\n    - name: web\n      endpoints:\n        - host: example.com\n          port: 443\n          rules:\n            - allow: { method: GET, path: /, query: safe=true }\n",
            "query",
        ),
        (
            "binary match",
            "network:\n  mode: proxy\n  policies:\n    - name: web\n      endpoints: [{ host: example.com, port: 443 }]\n      binaries:\n        - path: /usr/bin/curl\n          sha256: deadbeef\n",
            "sha256",
        ),
        (
            "inference",
            "inference:\n  default_providr: local\n",
            "default_providr",
        ),
        (
            "inference route",
            "inference:\n  routes:\n    - name: local\n      endpoint: http://localhost:8080\n      protcols: [openai]\n",
            "protcols",
        ),
        (
            "scheduling",
            "inference:\n  scheduling:\n    weight: 1\n    max_concurent_requests: 2\n",
            "max_concurent_requests",
        ),
        (
            "token budget",
            "inference:\n  token_budget:\n    max_tokens_per_hour: 1000\n    max_tokens_per_requst: 100\n",
            "max_tokens_per_requst",
        ),
        ("AMD", "amd:\n  gpu_passthrouh: true\n", "gpu_passthrouh"),
        (
            "APEX memory",
            "amd:\n  apex_memory_policy:\n    allow_overcommit: false\n    max_vram_mib: 1024\n",
            "max_vram_mib",
        ),
        (
            "GPU",
            "gpu:\n  enabled: true\n  denied_api: [ipc]\n",
            "denied_api",
        ),
        (
            "SSH",
            "ssh:\n  generate_known_hosts: true\n  generate_confg: true\n",
            "generate_confg",
        ),
        (
            "SSH key",
            "ssh:\n  allowed_keys:\n    - name: deploy\n      private_key: ~/.ssh/id_ed25519\n      allowed_host: [github.com]\n",
            "allowed_host",
        ),
    ];

    for (family, body, field) in cases {
        let yaml = format!("version: 1\nname: unknown-field\n{body}");
        assert_unknown_field_rejected(family, &yaml, field);
    }
}

#[test]
fn endpoint_binary_typo_cannot_broaden_authorization() {
    let yaml = r#"
version: 1
name: endpoint-binary-typo
network:
  mode: proxy
  policies:
    - name: github
      endpoints:
        - host: api.github.com
          port: 443
      binaires:
        - path: /usr/bin/git
"#;

    assert_unknown_field_rejected("endpoint policy", yaml, "binaires");
}
