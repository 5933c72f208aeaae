//! What a new sandbox is made from.

use vstd::prelude::*;
use crate::policy::Policy;
use crate::sandbox_error::SandboxId;
use crate::trace::StartupTrace;

verus! {

/// A store in which the host notes which process has made a connection. The host
/// keeps the store; this is the number that it goes by, the same for the proxy of
/// a sandbox and for the sandbox itself.
#[derive(Debug, Clone, Copy, PartialEq, Eq, Structural)]
pub struct ConnectAttributionStore {
    pub number: u64,
}

/// Configuration for creating a new sandbox. Paths and addresses are in text form.
#[derive(Debug)]
pub struct SandboxConfig {
    pub id: SandboxId,
    pub policy: Policy,
    pub command: String,
    pub args: Vec<String>,
    pub working_dir: Option<String>,
    pub workspace_dir: String,
    pub env: Vec<(String, String)>,
    pub proxy_port: u16,
    pub proxy_addr: Option<String>,
    pub connect_attribution: Option<ConnectAttributionStore>,
    /// Capture stdout/stderr to files in workspace (for daemon mode).
    /// When false, child inherits parent's stdio (for standalone/run mode).
    pub capture_output: bool,
    /// Attach an interactive terminal to the sandboxed command when the
    /// selected backend needs an explicit PTY transport.
    pub interactive_terminal: bool,
    /// Optional executable that serves the hidden PTY bridge subcommand.
    /// When unset, backends that need a bridge use the current executable.
    pub pty_bridge_helper: Option<String>,
    /// Maximum wall-clock time before auto-destroy (seconds). None = no timeout.
    pub timeout_sec: Option<u64>,
    /// Optional backend-executor validation before start(). Normal launches
    /// rely on AXIS in-process validation and leave this as the default.
    pub backend_preflight: BackendPreflight,
    /// Optional phase recorder for benchmark instrumentation. Normal runtime
    /// paths leave this unset so launch behavior is unchanged.
    pub startup_trace: Option<StartupTrace>,
}

/// Backend validation mode for sandbox construction.
#[derive(Debug, Clone, Copy, PartialEq, Eq, Structural)]
pub enum BackendPreflight {
    /// Validate policies and translated launch state in AXIS without spawning
    /// the selected backend executor.
    InProcess,
    /// Ask the selected backend executor to validate its serialized launch
    /// state before start(). Backends that support this may spawn a helper.
    DryRun,
}

impl Default for BackendPreflight {
    fn default() -> (r: Self)
        ensures
            r == BackendPreflight::InProcess,
    {
        BackendPreflight::InProcess
    }
}

} // verus!
