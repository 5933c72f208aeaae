//! The policy document.
//!
//! A policy governs filesystem access, process limits, network connectivity,
//! inference routing and hardware features of one sandbox.

use vstd::prelude::*;
use vstd::string::*;
use crate::text;

verus! {

#[derive(Debug)]
pub enum PolicyError {
    ParseError(String),
    ValidationError(String),
    UnsupportedVersion(u32),
}

#[verifier::ext_equal]
pub ghost enum PolicyErrorView {
    ParseError(Seq<char>),
    ValidationError(Seq<char>),
    UnsupportedVersion(u32),
}

impl View for PolicyError {
    type V = PolicyErrorView;

    open spec fn view(&self) -> PolicyErrorView {
        match self {
            PolicyError::ParseError(s) => PolicyErrorView::ParseError(s@),
            PolicyError::ValidationError(s) => PolicyErrorView::ValidationError(s@),
            PolicyError::UnsupportedVersion(v) => PolicyErrorView::UnsupportedVersion(*v),
        }
    }
}

impl PolicyErrorView {
    /// The error in words.
    pub open spec fn message(self) -> Seq<char> {
        match self {
            PolicyErrorView::ParseError(s) => "failed to parse policy YAML: "@ + s,
            PolicyErrorView::ValidationError(s) => "policy validation failed: "@ + s,
            PolicyErrorView::UnsupportedVersion(v) => "unsupported policy version: "@
                + text::decimal(v as nat),
        }
    }
}

impl PolicyError {
    /// The error in words.
    pub fn message(&self) -> (s: String)
        ensures
            s@ == self@.message(),
    {
        match self {
            PolicyError::ParseError(s) => "failed to parse policy YAML: ".to_owned().concat(
                s.as_str(),
            ),
            PolicyError::ValidationError(s) => "policy validation failed: ".to_owned().concat(
                s.as_str(),
            ),
            PolicyError::UnsupportedVersion(v) => "unsupported policy version: ".to_owned().concat(
                text::decimal_text(*v as u64).as_str(),
            ),
        }
    }

    /// The error for a policy file that cannot be read.
    pub fn unreadable(path: &str, reason: &str) -> (e: PolicyError)
        ensures
            e@ == PolicyErrorView::ValidationError("cannot read "@ + path@ + ": "@ + reason@),
    {
        PolicyError::ValidationError(
            "cannot read ".to_owned().concat(path).concat(": ").concat(reason),
        )
    }
}

/// Top-level AXIS policy document.
#[derive(Debug, Clone)]
pub struct Policy {
    pub version: u32,
    pub name: String,
    pub runtime: RuntimePolicy,
    pub filesystem: FilesystemPolicy,
    pub process: ProcessPolicy,
    pub network: NetworkPolicy,
    pub inference: InferencePolicy,
    pub gpu: GpuPolicy,
    pub ssh: SshPolicy,
    pub amd: Option<AmdPolicy>,
}

/// Runtime launch metadata. This selects a sandbox implementation without
/// changing the security policy semantics.
#[derive(Debug, Clone, Copy)]
pub struct RuntimePolicy {
    pub containment: RuntimeContainment,
    pub provider: RuntimeProvider,
}

impl Default for RuntimePolicy {
    fn default() -> (r: Self)
        ensures
            r.containment == RuntimeContainment::Process,
            r.provider == RuntimeProvider::Auto,
    {
        RuntimePolicy {
            containment: default_runtime_containment(),
            provider: default_runtime_provider(),
        }
    }
}

pub fn default_runtime_containment() -> (r: RuntimeContainment)
    ensures
        r == RuntimeContainment::Process,
{
    RuntimeContainment::Process
}

#[derive(Debug, Clone, Copy, PartialEq, Eq, Structural)]
pub enum RuntimeContainment {
    Process,
}

impl Default for RuntimeContainment {
    fn default() -> (r: Self)
        ensures
            r == RuntimeContainment::Process,
    {
        RuntimeContainment::Process
    }
}

impl RuntimeContainment {
    pub fn as_str(self) -> (s: &'static str)
        ensures
            s@ == "process"@,
    {
        match self {
            RuntimeContainment::Process => "process",
        }
    }
}

pub fn default_runtime_provider() -> (r: RuntimeProvider)
    ensures
        r == RuntimeProvider::Auto,
{
    RuntimeProvider::Auto
}

#[derive(Debug, Clone, Copy, PartialEq, Eq, Structural)]
pub enum RuntimeProvider {
    Auto,
    Mxc,
    AxisNative,
    /// Each sandbox is a Xen DomU (a VM) driven through the vxn CLI /
    /// vxn-oci-runtime. VM-strength isolation tier; Linux/Xen only.
    Vxn,
}

impl Default for RuntimeProvider {
    fn default() -> (r: Self)
        ensures
            r == RuntimeProvider::Auto,
    {
        RuntimeProvider::Auto
    }
}

/// The name of a provider in policy documents.
pub open spec fn provider_text(p: RuntimeProvider) -> Seq<char> {
    match p {
        RuntimeProvider::Auto => "auto"@,
        RuntimeProvider::Mxc => "mxc"@,
        RuntimeProvider::AxisNative => "axis_native"@,
        RuntimeProvider::Vxn => "vxn"@,
    }
}

impl RuntimeProvider {
    pub fn as_str(self) -> (s: &'static str)
        ensures
            s@ == provider_text(self),
    {
        match self {
            RuntimeProvider::Auto => "auto",
            RuntimeProvider::Mxc => "mxc",
            RuntimeProvider::AxisNative => "axis_native",
            RuntimeProvider::Vxn => "vxn",
        }
    }
}

/// The provider that a name in a policy document stands for. Native isolation may
/// be written with a hyphen as well.
pub open spec fn provider_named(name: Seq<char>) -> Option<RuntimeProvider> {
    if name == "auto"@ {
        Some(RuntimeProvider::Auto)
    } else if name == "mxc"@ {
        Some(RuntimeProvider::Mxc)
    } else if name == "axis_native"@ || name == "axis-native"@ {
        Some(RuntimeProvider::AxisNative)
    } else if name == "vxn"@ {
        Some(RuntimeProvider::Vxn)
    } else {
        None
    }
}

impl RuntimeProvider {
    /// The provider that a name in a policy document stands for.
    pub fn from_name(name: &str) -> (r: Option<RuntimeProvider>)
        ensures
            r == provider_named(name@),
    {
        if text::same(name, "auto") {
            Some(RuntimeProvider::Auto)
        } else if text::same(name, "mxc") {
            Some(RuntimeProvider::Mxc)
        } else if text::same(name, "axis_native") || text::same(name, "axis-native") {
            Some(RuntimeProvider::AxisNative)
        } else if text::same(name, "vxn") {
            Some(RuntimeProvider::Vxn)
        } else {
            None
        }
    }
}

/// A provider is read back from its name, so no two providers share one.
pub proof fn law_provider_is_read_back_from_its_name(p: RuntimeProvider, q: RuntimeProvider)
    ensures
        provider_named(provider_text(p)) == Some(p),
        provider_text(p) == provider_text(q) ==> p == q,
{
    reveal_strlit("auto");
    reveal_strlit("mxc");
    reveal_strlit("axis_native");
    reveal_strlit("axis-native");
    reveal_strlit("vxn");
    assert("auto"@.len() == 4);
    assert("axis_native"@.len() == 11);
    assert("axis-native"@.len() == 11);
    assert("mxc"@[0] == 'm');
    assert("vxn"@[0] == 'v');
    assert("mxc"@.len() == 3 && "vxn"@.len() == 3);
}

/// Filesystem access policy: which paths the sandboxed process can read and write.
#[derive(Debug, Clone)]
pub struct FilesystemPolicy {
    pub read_only: Vec<String>,
    pub read_write: Vec<String>,
    pub deny: Vec<String>,
    pub compatibility: Compatibility,
}

impl Default for FilesystemPolicy {
    fn default() -> (r: Self)
        ensures
            r.read_only@.len() == 0,
            r.read_write@.len() == 0,
            r.deny@.len() == 0,
            r.compatibility == Compatibility::BestEffort,
    {
        FilesystemPolicy {
            read_only: Vec::new(),
            read_write: Vec::new(),
            deny: Vec::new(),
            compatibility: default_compatibility(),
        }
    }
}

pub fn default_compatibility() -> (r: Compatibility)
    ensures
        r == Compatibility::BestEffort,
{
    Compatibility::BestEffort
}

#[derive(Debug, Clone, Copy, PartialEq, Eq, Structural)]
pub enum Compatibility {
    BestEffort,
    HardRequirement,
}

impl Default for Compatibility {
    fn default() -> (r: Self)
        ensures
            r == Compatibility::BestEffort,
    {
        Compatibility::BestEffort
    }
}

/// Process containment policy: limits on the sandboxed process tree.
#[derive(Debug, Clone)]
pub struct ProcessPolicy {
    /// Maximum process count. 0 disables process-count enforcement.
    pub max_processes: u32,
    /// Maximum memory in MiB. 0 disables memory enforcement.
    pub max_memory_mb: u64,
    /// CPU quota percentage. 0 disables CPU quota enforcement; 1..=100
    /// requests the platform CPU quota mechanism.
    pub cpu_rate_percent: u32,
    pub run_as_user: Option<String>,
    pub blocked_syscalls: Vec<String>,
    /// Portable identity intent. Unlike `run_as_user`, this does not name a
    /// host account and can map to a BaseContainer/AppContainer identity.
    pub identity: ProcessIdentity,
    /// Portable descendant-process intent. `deny` maps to a child-tree process
    /// limit of one rather than to platform-specific syscall names.
    pub child_processes: ChildProcessPolicy,
    /// Maximum wall-clock time in seconds before auto-destroy. None = no timeout.
    pub timeout_sec: Option<u64>,
}

impl Default for ProcessPolicy {
    fn default() -> (r: Self)
        ensures
            r.max_processes == 32,
            r.max_memory_mb == 8192,
            r.cpu_rate_percent == 80,
            r.run_as_user is None,
            r.blocked_syscalls@.len() == 0,
            r.identity == ProcessIdentity::BackendDefault,
            r.child_processes == ChildProcessPolicy::Allow,
            r.timeout_sec is None,
    {
        ProcessPolicy {
            max_processes: default_max_processes(),
            max_memory_mb: default_max_memory_mb(),
            cpu_rate_percent: default_cpu_rate(),
            run_as_user: None,
            blocked_syscalls: Vec::new(),
            identity: ProcessIdentity::default(),
            child_processes: ChildProcessPolicy::default(),
            timeout_sec: None,
        }
    }
}

impl ProcessPolicy {
    /// The process limit in force: descendants are denied by a limit of one.
    pub open spec fn process_limit(&self) -> u32 {
        if self.child_processes == ChildProcessPolicy::Deny {
            1
        } else {
            self.max_processes
        }
    }

    pub fn effective_max_processes(&self) -> (n: u32)
        ensures
            n == self.process_limit(),
    {
        match self.child_processes {
            ChildProcessPolicy::Deny => 1,
            ChildProcessPolicy::Allow => self.max_processes,
        }
    }
}

#[derive(Debug, Clone, Copy, PartialEq, Eq, Structural)]
pub enum ProcessIdentity {
    BackendDefault,
    Isolated,
}

impl Default for ProcessIdentity {
    fn default() -> (r: Self)
        ensures
            r == ProcessIdentity::BackendDefault,
    {
        ProcessIdentity::BackendDefault
    }
}

#[derive(Debug, Clone, Copy, PartialEq, Eq, Structural)]
pub enum ChildProcessPolicy {
    Allow,
    Deny,
}

impl Default for ChildProcessPolicy {
    fn default() -> (r: Self)
        ensures
            r == ChildProcessPolicy::Allow,
    {
        ChildProcessPolicy::Allow
    }
}

pub fn default_max_processes() -> (n: u32)
    ensures
        n == 32,
{
    32
}

pub fn default_max_memory_mb() -> (n: u64)
    ensures
        n == 8192,
{
    8192
}

pub fn default_cpu_rate() -> (n: u32)
    ensures
        n == 80,
{
    80
}

/// Network connectivity policy: how the sandbox reaches the network.
#[derive(Debug, Clone)]
pub struct NetworkPolicy {
    pub mode: NetworkMode,
    pub policies: Vec<EndpointPolicy>,
}

impl Default for NetworkPolicy {
    fn default() -> (r: Self)
        ensures
            r.mode == NetworkMode::Proxy,
            r.policies@.len() == 0,
    {
        NetworkPolicy { mode: default_network_mode(), policies: Vec::new() }
    }
}

pub fn default_network_mode() -> (r: NetworkMode)
    ensures
        r == NetworkMode::Proxy,
{
    NetworkMode::Proxy
}

#[derive(Debug, Clone, Copy, PartialEq, Eq, Structural)]
pub enum NetworkMode {
    Proxy,
    Block,
    Allow,
}

impl Default for NetworkMode {
    fn default() -> (r: Self)
        ensures
            r == NetworkMode::Proxy,
    {
        NetworkMode::Proxy
    }
}

/// A named group of endpoint rules with optional binary restrictions.
#[derive(Debug, Clone)]
pub struct EndpointPolicy {
    pub name: String,
    pub endpoints: Vec<Endpoint>,
    pub binaries: Vec<BinaryMatch>,
}

#[derive(Debug, Clone)]
pub struct Endpoint {
    pub host: String,
    pub port: u16,
    pub access: Access,
    pub protocol: Option<String>,
    pub rules: Vec<L7Rule>,
}

pub fn default_access() -> (r: Access)
    ensures
        r == Access::ReadWrite,
{
    Access::ReadWrite
}

#[derive(Debug, Clone, Copy, PartialEq, Eq, Structural)]
pub enum Access {
    ReadWrite,
    ReadOnly,
}

impl Default for Access {
    fn default() -> (r: Self)
        ensures
            r == Access::ReadWrite,
    {
        Access::ReadWrite
    }
}

#[derive(Debug, Clone)]
pub struct L7Rule {
    pub allow: Option<L7Allow>,
}

#[derive(Debug, Clone)]
pub struct L7Allow {
    pub method: String,
    pub path: String,
}

#[derive(Debug, Clone)]
pub struct BinaryMatch {
    pub path: String,
}

/// Inference routing policy.
#[derive(Debug, Clone)]
pub struct InferencePolicy {
    pub default_provider: Option<String>,
    pub routes: Vec<InferenceRoute>,
    pub scheduling: Option<SchedulingPolicy>,
    pub token_budget: Option<TokenBudget>,
}

impl Default for InferencePolicy {
    fn default() -> (r: Self)
        ensures
            r.default_provider is None,
            r.routes@.len() == 0,
            r.scheduling is None,
            r.token_budget is None,
    {
        InferencePolicy {
            default_provider: None,
            routes: Vec::new(),
            scheduling: None,
            token_budget: None,
        }
    }
}

#[derive(Debug, Clone)]
pub struct InferenceRoute {
    pub name: String,
    pub endpoint: Option<String>,
    pub provider: Option<String>,
    pub model: Option<String>,
    pub api_key_env: Option<String>,
    pub protocols: Vec<String>,
}

#[derive(Debug, Clone, Copy)]
pub struct SchedulingPolicy {
    pub weight: u32,
    pub priority: Priority,
    pub max_concurrent_requests: Option<u32>,
}

pub fn default_weight() -> (n: u32)
    ensures
        n == 1,
{
    1
}

pub fn default_priority() -> (r: Priority)
    ensures
        r == Priority::Background,
{
    Priority::Background
}

#[derive(Debug, Clone, Copy, PartialEq, Eq, Structural)]
pub enum Priority {
    Interactive,
    Background,
    Batch,
}

impl Default for Priority {
    fn default() -> (r: Self)
        ensures
            r == Priority::Background,
    {
        Priority::Background
    }
}

#[derive(Debug, Clone)]
pub struct TokenBudget {
    pub max_tokens_per_hour: u64,
    pub max_tokens_per_request: u64,
    pub action_on_exhaust: ExhaustAction,
    pub fallback_route: Option<String>,
}

pub fn default_max_tokens_per_request() -> (n: u64)
    ensures
        n == 32768,
{
    32768
}

pub fn default_exhaust_action() -> (r: ExhaustAction)
    ensures
        r == ExhaustAction::Reject,
{
    ExhaustAction::Reject
}

#[derive(Debug, Clone, Copy, PartialEq, Eq, Structural)]
pub enum ExhaustAction {
    Queue,
    Reject,
    FallbackCloud,
}

impl Default for ExhaustAction {
    fn default() -> (r: Self)
        ensures
            r == ExhaustAction::Reject,
    {
        ExhaustAction::Reject
    }
}

/// AMD hardware-specific policy extensions.
#[derive(Debug, Clone, Copy)]
pub struct AmdPolicy {
    pub gpu_passthrough: bool,
    pub npu_policy_offload: bool,
    pub apex_memory_policy: Option<ApexMemoryPolicy>,
}

#[derive(Debug, Clone, Copy)]
pub struct ApexMemoryPolicy {
    pub allow_overcommit: bool,
    pub max_vram_mb: Option<u64>,
}

/// GPU isolation policy: HIP Remote para-virtual GPU access.
#[derive(Debug, Clone)]
pub struct GpuPolicy {
    /// Enable GPU access for this sandbox.
    pub enabled: bool,
    /// Physical GPU device ordinal (default: 0).
    pub device: u32,
    /// Transport for HIP Remote: a Unix domain socket or TCP.
    pub transport: GpuTransport,
    /// Maximum GPU memory allocation in MB. None = unlimited.
    pub vram_limit_mb: Option<u64>,
    /// Maximum wall-clock time per kernel launch in seconds. None = unlimited.
    pub compute_timeout_sec: Option<u64>,
    /// Allowed API categories. Empty = default set (all except IPC/context).
    pub allowed_apis: Vec<String>,
    /// Denied API categories. Explicit denials override allowed.
    pub denied_apis: Vec<String>,
}

impl Default for GpuPolicy {
    fn default() -> (r: Self)
        ensures
            !r.enabled,
            r.device == 0,
            r.transport == GpuTransport::Uds,
            r.vram_limit_mb is None,
            r.compute_timeout_sec is None,
            r.allowed_apis@.len() == 0,
            r.denied_apis@.len() == 0,
    {
        GpuPolicy {
            enabled: false,
            device: 0,
            transport: default_gpu_transport(),
            vram_limit_mb: None,
            compute_timeout_sec: None,
            allowed_apis: Vec::new(),
            denied_apis: Vec::new(),
        }
    }
}

pub fn default_gpu_transport() -> (r: GpuTransport)
    ensures
        r == GpuTransport::Uds,
{
    GpuTransport::Uds
}

#[derive(Debug, Clone, Copy, PartialEq, Eq, Structural)]
pub enum GpuTransport {
    Uds,
    Tcp,
}

impl Default for GpuTransport {
    fn default() -> (r: Self)
        ensures
            r == GpuTransport::Uds,
    {
        GpuTransport::Uds
    }
}

/// SSH key policy: which SSH keys and hosts agents can access.
#[derive(Debug, Clone)]
pub struct SshPolicy {
    /// SSH keys the agent is allowed to use.
    pub allowed_keys: Vec<SshKeySpec>,
    /// Auto-generate a scoped known_hosts file for the sandbox.
    pub generate_known_hosts: bool,
    /// Auto-generate a restrictive SSH config for the sandbox.
    pub generate_config: bool,
}

impl Default for SshPolicy {
    fn default() -> (r: Self)
        ensures
            r.allowed_keys@.len() == 0,
            !r.generate_known_hosts,
            !r.generate_config,
    {
        SshPolicy { allowed_keys: Vec::new(), generate_known_hosts: false, generate_config: false }
    }
}

/// A specific SSH key with host restrictions.
#[derive(Debug, Clone)]
pub struct SshKeySpec {
    /// Display name for the key.
    pub name: String,
    /// Path to the private key file (expanded from ~/).
    pub private_key: String,
    /// Hosts this key is allowed to connect to. Empty = all hosts.
    pub allowed_hosts: Vec<String>,
}

/// Each error says what kind it is and why.
pub proof fn law_policy_errors_in_words(reason: Seq<char>, version: u32)
    ensures
        PolicyErrorView::ParseError(reason).message() == "failed to parse policy YAML: "@ + reason,
        PolicyErrorView::ValidationError(reason).message() == "policy validation failed: "@
            + reason,
        PolicyErrorView::UnsupportedVersion(version).message() == "unsupported policy version: "@
            + text::decimal(version as nat),
{
}

/// No name but its own leads to a provider, save that native isolation may be
/// written with a hyphen.
pub proof fn law_only_names_of_providers_lead_to_one(name: Seq<char>)
    requires
        provider_named(name) is Some,
    ensures
        name == provider_text(provider_named(name)->0) || name == "axis-native"@
            && provider_named(name)->0 is AxisNative,
{
}

/// Where children are denied there is one process, whatever the limit; where they
/// are allowed the limit is taken as it is, and nothing else matters.
pub proof fn law_denied_children_leave_one_process(p: ProcessPolicy, limit: u32)
    ensures
        (ProcessPolicy {
            child_processes: ChildProcessPolicy::Deny,
            max_processes: limit,
            ..p
        }).process_limit() == 1,
        (ProcessPolicy {
            child_processes: ChildProcessPolicy::Allow,
            max_processes: limit,
            ..p
        }).process_limit() == limit,
{
}

/// What the providers are called in a policy.
pub proof fn law_providers_have_names()
    ensures
        provider_text(RuntimeProvider::Auto) == "auto"@,
        provider_text(RuntimeProvider::Mxc) == "mxc"@,
        provider_text(RuntimeProvider::AxisNative) == "axis_native"@,
        provider_text(RuntimeProvider::Vxn) == "vxn"@,
        provider_named("axis-native"@) == Some(RuntimeProvider::AxisNative),
{
    reveal_strlit("axis-native");
    reveal_strlit("auto");
    reveal_strlit("mxc");
    reveal_strlit("vxn");
    reveal_strlit("axis_native");
    assert("axis-native"@.len() == 11 && "auto"@.len() == 4 && "mxc"@.len() == 3);
    assert("axis-native"@[4] == '-' && "axis_native"@[4] == '_');
}

} // verus!
