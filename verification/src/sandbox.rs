//! The life of a sandbox.
//!
//! The host does the work: it makes the workspace, prepares the backend, runs
//! the process. What is done next, and what is reported, is decided here.

use std::time::Duration;
use vstd::prelude::*;
use vstd::string::*;
use crate::backend;
use crate::backend::{Platform, PlatformBackendSelection};
use crate::config::SandboxConfig;
use crate::policy::Policy;
use crate::sandbox_error;
use crate::sandbox_error::{SandboxError, SandboxId};
use crate::trace;
use crate::validation;
use crate::workspace;
use crate::workspace::{AgentLink, SetupFailure, WorkspaceKind};

verus! {

/// Where a sandbox stands in its life.
#[derive(Debug, Clone, Copy, PartialEq, Eq, Structural)]
pub enum SandboxStatus {
    Creating,
    Running,
    Stopped,
}

/// Platform-independent sandbox handle.
#[derive(Debug)]
pub struct Sandbox {
    pub id: SandboxId,
    pub status: SandboxStatus,
    pub pid: Option<u32>,
    pub workspace_dir: String,
    /// Links created for agent state containment (cleaned up on destroy).
    pub agent_symlinks: Vec<AgentLink>,
}

pub open spec fn policy_refusal(e: crate::policy::PolicyErrorView) -> sandbox_error::SandboxErrorView {
    sandbox_error::SandboxErrorView::CreationFailed("invalid sandbox policy: "@ + e.message())
}

/// What comes of a new sandbox before anything is set up on the host: the policy
/// has to lead to a backend, it has to be valid, and the platform has to have the
/// backend.
pub open spec fn front_door(policy: Policy, p: backend::PlatformView) -> Result<
    PlatformBackendSelection,
    sandbox_error::SandboxErrorView,
> {
    match backend::provider_backend(p, policy.runtime.provider) {
        Err(e) => Err(e),
        Ok(selection) => match admission_verdict(policy, p, selection) {
            Err(e) => Err(e),
            Ok(()) => Ok(selection),
        },
    }
}

/// What the two gates say to a policy that leads to the backend `selection`.
pub open spec fn admission_verdict(
    policy: Policy,
    p: backend::PlatformView,
    selection: PlatformBackendSelection,
) -> Result<(), sandbox_error::SandboxErrorView> {
    if policy_verdict(policy) is Err {
        policy_verdict(policy)
    } else {
        backend::availability(p, selection)
    }
}

/// What the first gate says to a policy.
pub open spec fn policy_verdict(policy: Policy) -> Result<(), sandbox_error::SandboxErrorView> {
    match validation::verdict_on(policy) {
        Err(e) => Err(policy_refusal(e)),
        Ok(()) => Ok(()),
    }
}

/// The phases that the two gates record: a gate is not reached where the one
/// before it has refused.
pub open spec fn gate_phases(policy: Policy) -> Seq<Seq<char>> {
    if validation::verdict_on(policy) is Err {
        seq!["front_door.policy_validation"@]
    } else {
        seq!["front_door.policy_validation"@, "front_door.platform_availability"@]
    }
}

/// The phases that are recorded before anything is set up on the host.
pub open spec fn front_door_phases(policy: Policy, p: backend::PlatformView) -> Seq<Seq<char>> {
    if backend::provider_backend(p, policy.runtime.provider) is Err {
        seq![]
    } else {
        gate_phases(policy)
    }
}

/// Whether a configuration is as it was but for the phases `names` that were
/// recorded.
pub open spec fn only_recorded(
    before: SandboxConfig,
    after: SandboxConfig,
    names: Seq<Seq<char>>,
) -> bool {
    &&& after == SandboxConfig { startup_trace: after.startup_trace, ..before }
    &&& trace::has_recorded(before.startup_trace, after.startup_trace, names)
}

/// A sandbox whose policy is valid, on a platform that has its backend. Only now
/// is anything set up on the host.
#[derive(Debug)]
pub struct Admission {
    pub backend: PlatformBackendSelection,
    /// Whether the sandbox makes its own workspace.
    pub manage_agent_workspace: bool,
}

impl Sandbox {
    /// Begin to create a new sandbox with platform-specific isolation.
    pub fn create(config: &mut SandboxConfig, platform: &Platform) -> (r: Result<
        Admission,
        SandboxError,
    >)
        ensures
            match r {
                Ok(a) => {
                    &&& front_door(old(config).policy, platform@) == Ok::<
                        _,
                        sandbox_error::SandboxErrorView,
                    >(a.backend)
                    &&& a.manage_agent_workspace
                },
                Err(e) => front_door(old(config).policy, platform@) == Err::<
                    PlatformBackendSelection,
                    _,
                >(e@),
            },
            only_recorded(
                *old(config),
                *final(config),
                front_door_phases(old(config).policy, platform@),
            ),
    {
        match backend::platform_backend_for_policy(platform, &config.policy) {
            Ok(backend) => Self::create_inner_with_backend(config, true, backend, platform),
            Err(e) => {
                proof {
                    lemma_nothing_recorded(*config);
                }
                Err(e)
            },
        }
    }

    /// Begin to create an isolated process for an already prepared managed
    /// workspace.
    ///
    /// This skips the setup and cleanup of agent workspace links, so that
    /// short-lived commands do not disturb links owned by the primary sandbox.
    pub fn create_for_exec(config: &mut SandboxConfig, platform: &Platform) -> (r: Result<
        Admission,
        SandboxError,
    >)
        ensures
            match r {
                Ok(a) => {
                    &&& front_door(old(config).policy, platform@) == Ok::<
                        _,
                        sandbox_error::SandboxErrorView,
                    >(a.backend)
                    &&& !a.manage_agent_workspace
                },
                Err(e) => front_door(old(config).policy, platform@) == Err::<
                    PlatformBackendSelection,
                    _,
                >(e@),
            },
            only_recorded(
                *old(config),
                *final(config),
                front_door_phases(old(config).policy, platform@),
            ),
    {
        match backend::platform_backend_for_policy(platform, &config.policy) {
            Ok(backend) => Self::create_inner_with_backend(config, false, backend, platform),
            Err(e) => {
                proof {
                    lemma_nothing_recorded(*config);
                }
                Err(e)
            },
        }
    }

    fn create_inner_with_backend(
        config: &mut SandboxConfig,
        manage_agent_workspace: bool,
        backend: PlatformBackendSelection,
        platform: &Platform,
    ) -> (r: Result<Admission, SandboxError>)
        ensures
            match admission_verdict(old(config).policy, platform@, backend) {
                Ok(()) => r == Ok::<_, SandboxError>(Admission { backend, manage_agent_workspace }),
                Err(e) => r matches Err(x) && x@ == e,
            },
            only_recorded(*old(config), *final(config), gate_phases(old(config).policy)),
    {
        let policy = &config.policy;
        let validate = || -> (r: Result<(), SandboxError>)
            ensures
                sandbox_error::outcome_view(r) == policy_verdict(*policy),
        {
            check_policy(policy)
        };
        let valid = trace::record_startup_result(
            &mut config.startup_trace,
            "front_door.policy_validation",
            validate,
        );
        if let Err(e) = valid {
            return Err(e);
        }
        let ghost between = config.startup_trace;
        let check = || -> (r: Result<(), SandboxError>)
            ensures
                sandbox_error::outcome_view(r) == backend::availability(platform@, backend),
        {
            backend::ensure_platform_backend_available(platform, backend)
        };
        let available = trace::record_startup_result(
            &mut config.startup_trace,
            "front_door.platform_availability",
            check,
        );
        proof {
            trace::lemma_recorded_in_order(
                old(config).startup_trace,
                between,
                config.startup_trace,
                seq!["front_door.policy_validation"@],
                seq!["front_door.platform_availability"@],
            );
            assert(seq!["front_door.policy_validation"@]
                + seq!["front_door.platform_availability"@] =~= gate_phases(old(config).policy));
        }
        match available {
            Ok(()) => Ok(Admission { backend, manage_agent_workspace }),
            Err(e) => Err(e),
        }
    }
}

proof fn lemma_nothing_recorded(config: SandboxConfig)
    ensures
        only_recorded(config, config, seq![]),
{
    if let Some(t) = config.startup_trace {
        assert(t@.take(t@.len() as int) =~= t@);
        assert(trace::phase_names(t@.skip(t@.len() as int)) =~= seq![]);
    }
}

fn check_policy(policy: &Policy) -> (r: Result<(), SandboxError>)
    ensures
        sandbox_error::outcome_view(r) == policy_verdict(*policy),
{
    match policy.validate() {
        Ok(()) => Ok(()),
        Err(e) => Err(
            SandboxError::CreationFailed(
                "invalid sandbox policy: ".to_owned().concat(e.message().as_str()),
            ),
        ),
    }
}

/// A policy that is refused leaves no trace of anything but its validation: no
/// workspace and no backend was begun.
pub proof fn law_refused_policy_is_only_validated(policy: Policy, p: backend::PlatformView)
    requires
        validation::verdict_on(policy) is Err,
        backend::provider_backend(p, policy.runtime.provider) is Ok,
    ensures
        front_door(policy, p) is Err,
        front_door_phases(policy, p) == seq!["front_door.policy_validation"@],
{
}

impl Admission {
    /// How the workspace is to be made.
    pub fn workspace_kind(&self, policy: &Policy, platform: &Platform) -> (r: WorkspaceKind)
        requires
            backend::belongs_to(self.backend, platform@),
        ensures
            r == workspace::kind_of_workspace(
                platform@,
                self.backend,
                policy.ssh.allowed_keys@.len() > 0,
                self.manage_agent_workspace,
            ),
    {
        workspace::workspace_kind(platform, self.backend, policy, self.manage_agent_workspace)
    }

    /// The workspace was made, or could not be. The links that were made are
    /// handed on.
    pub fn workspace_made(
        &self,
        config: &mut SandboxConfig,
        took: Duration,
        made: Result<Vec<AgentLink>, SandboxError>,
    ) -> (r: Result<Vec<AgentLink>, SandboxError>)
        ensures
            r == made,
            only_recorded(*old(config), *final(config), seq!["support_files.agent_workspace"@]),
    {
        trace::record_phase(&mut config.startup_trace, "support_files.agent_workspace", took);
        made
    }

    /// The end of the creation: a sandbox, or where the backend could not be
    /// prepared the error and the links to take away again.
    pub fn finish(
        self,
        config: &mut SandboxConfig,
        links: Vec<AgentLink>,
        took: Duration,
        prepared: Result<(), SandboxError>,
    ) -> (r: Result<Sandbox, SetupFailure>)
        ensures
            match prepared {
                Ok(()) => {
                    &&& r matches Ok(s)
                    &&& s.id.0@ == old(config).id.0@
                    &&& s.status == SandboxStatus::Creating
                    &&& s.pid is None
                    &&& s.workspace_dir@ == old(config).workspace_dir@
                    &&& s.agent_symlinks == links
                },
                Err(e) => r == Err::<Sandbox, _>(SetupFailure { error: e, cleanup: links }),
            },
            only_recorded(*old(config), *final(config), seq!["backend.prepare"@]),
    {
        trace::record_phase(&mut config.startup_trace, "backend.prepare", took);
        match prepared {
            Ok(()) => Ok(
                Sandbox {
                    id: SandboxId(config.id.0.as_str().to_owned()),
                    status: SandboxStatus::Creating,
                    pid: None,
                    workspace_dir: config.workspace_dir.as_str().to_owned(),
                    agent_symlinks: links,
                },
            ),
            Err(e) => Err(SetupFailure { error: e, cleanup: links }),
        }
    }
}

/// What a look at the process is reported as.
pub open spec fn poll_report(s: Sandbox, polled: Result<Option<i32>, SandboxError>) -> Result<
    Option<i32>,
    SandboxError,
> {
    if s.status == SandboxStatus::Running {
        polled
    } else {
        Ok(None)
    }
}

/// The sandbox after a look at the process.
pub open spec fn polled_sandbox(s: Sandbox, polled: Result<Option<i32>, SandboxError>) -> Sandbox {
    if s.status == SandboxStatus::Running && polled matches Ok(Some(_)) {
        Sandbox { status: SandboxStatus::Stopped, ..s }
    } else {
        s
    }
}

/// The exit of a process is reported once: after it was, every further look
/// reports nothing and changes nothing.
pub proof fn law_exit_is_reported_once(
    s: Sandbox,
    first: Result<Option<i32>, SandboxError>,
    second: Result<Option<i32>, SandboxError>,
)
    requires
        poll_report(s, first) matches Ok(Some(_)),
    ensures
        poll_report(polled_sandbox(s, first), second) == Ok::<Option<i32>, SandboxError>(None),
        polled_sandbox(polled_sandbox(s, first), second) == polled_sandbox(s, first),
{
}

/// The sandbox after its process was started, or could not be.
pub open spec fn started_sandbox(s: Sandbox, started: Result<u32, SandboxError>) -> Sandbox {
    match started {
        Ok(pid) => Sandbox { pid: Some(pid), status: SandboxStatus::Running, ..s },
        Err(_) => s,
    }
}

/// The sandbox after its process was waited for, or ended.
pub open spec fn stopped_sandbox<T>(s: Sandbox, done: Result<T, SandboxError>) -> Sandbox {
    if done is Ok {
        Sandbox { status: SandboxStatus::Stopped, ..s }
    } else {
        s
    }
}

/// A sandbox runs once its process was started, under the id of that process, and
/// is stopped once the process was waited for or ended. What fails changes
/// nothing, and nothing else about the sandbox ever changes: its id, its workspace
/// and the links to take away at the end.
pub proof fn law_life_of_a_sandbox(
    s: Sandbox,
    started: Result<u32, SandboxError>,
    waited: Result<i32, SandboxError>,
)
    ensures
        started matches Ok(pid) ==> started_sandbox(s, started).status is Running
            && started_sandbox(s, started).pid == Some(pid),
        started is Err ==> started_sandbox(s, started) == s,
        waited is Ok ==> stopped_sandbox(s, waited).status is Stopped,
        waited is Err ==> stopped_sandbox(s, waited) == s,
        stopped_sandbox(s, waited).pid == s.pid,
        started_sandbox(s, started).id == s.id && stopped_sandbox(s, waited).id == s.id,
        started_sandbox(s, started).workspace_dir == s.workspace_dir && stopped_sandbox(
            s,
            waited,
        ).workspace_dir == s.workspace_dir,
        started_sandbox(s, started).agent_symlinks == s.agent_symlinks && stopped_sandbox(
            s,
            waited,
        ).agent_symlinks == s.agent_symlinks,
{
}

impl Sandbox {
    /// The process was started, or could not be.
    pub fn start(&mut self, started: Result<u32, SandboxError>) -> (r: Result<(), SandboxError>)
        ensures
            match started {
                Ok(_) => r is Ok,
                Err(e) => r == Err::<(), _>(e),
            },
            *final(self) == started_sandbox(*old(self), started),
    {
        match started {
            Ok(pid) => {
                self.pid = Some(pid);
                self.status = SandboxStatus::Running;
                Ok(())
            },
            Err(e) => Err(e),
        }
    }

    /// The process was waited for. Returns the exit code.
    pub fn wait(&mut self, waited: Result<i32, SandboxError>) -> (r: Result<i32, SandboxError>)
        ensures
            r == waited,
            *final(self) == stopped_sandbox(*old(self), waited),
    {
        match waited {
            Ok(code) => {
                self.status = SandboxStatus::Stopped;
                Ok(code)
            },
            Err(e) => Err(e),
        }
    }

    /// Whether the backend has to be asked if the process has exited.
    pub fn is_running(&self) -> (r: bool)
        ensures
            r == (self.status == SandboxStatus::Running),
    {
        self.status == SandboxStatus::Running
    }

    /// Reap the sandboxed process if it has already exited. What the backend
    /// says counts only while the sandbox is running.
    pub fn try_wait(&mut self, polled: Result<Option<i32>, SandboxError>) -> (r: Result<
        Option<i32>,
        SandboxError,
    >)
        ensures
            r == poll_report(*old(self), polled),
            *final(self) == polled_sandbox(*old(self), polled),
    {
        if self.status != SandboxStatus::Running {
            return Ok(None);
        }
        match polled {
            Ok(Some(code)) => {
                self.status = SandboxStatus::Stopped;
                Ok(Some(code))
            },
            Ok(None) => Ok(None),
            Err(e) => Err(e),
        }
    }

    /// The process was terminated, or could not be. Where it was, the result
    /// says which links have to be taken away to restore the original
    /// directories.
    pub fn destroy(&mut self, destroyed: Result<(), SandboxError>) -> (r: Result<
        &Vec<AgentLink>,
        SandboxError,
    >)
        ensures
            match destroyed {
                Ok(()) => r == Ok::<_, SandboxError>(&old(self).agent_symlinks),
                Err(e) => r == Err::<&Vec<AgentLink>, _>(e),
            },
            *final(self) == stopped_sandbox(*old(self), destroyed),
    {
        match destroyed {
            Ok(()) => {
                self.status = SandboxStatus::Stopped;
                Ok(&self.agent_symlinks)
            },
            Err(e) => Err(e),
        }
    }
}

/// A sandbox is admitted exactly when its policy leads to a backend, is valid,
/// and the platform has the backend; and it is admitted to that backend.
pub proof fn law_who_is_admitted(policy: Policy, p: backend::PlatformView)
    ensures
        front_door(policy, p) is Ok <==> {
            &&& backend::provider_backend(p, policy.runtime.provider) is Ok
            &&& validation::verdict_on(policy) is Ok
            &&& backend::availability(
                p,
                backend::provider_backend(p, policy.runtime.provider)->Ok_0,
            ) is Ok
        },
        front_door(policy, p) is Ok ==> front_door(policy, p) == backend::provider_backend(
            p,
            policy.runtime.provider,
        ),
{
}

/// Every valid policy that leaves the choice of the provider open is admitted on
/// Linux, macOS and Windows.
pub proof fn law_default_policies_are_admitted(policy: Policy, p: backend::PlatformView)
    requires
        validation::verdict_on(policy) is Ok,
        policy.runtime.provider is Auto,
        p is Linux || p is Macos || p is Windows,
    ensures
        front_door(policy, p) is Ok,
        backend::implementation(p, front_door(policy, p)->Ok_0) is Ok,
{
    backend::law_default_provider_works_everywhere(p);
}

/// What speaks against a sandbox is said in order: that its provider cannot be
/// had, then what is wrong with its policy, then that its platform has no such
/// backend.
pub proof fn law_first_refusal_counts(policy: Policy, p: backend::PlatformView)
    ensures
        backend::provider_backend(p, policy.runtime.provider) matches Err(e) ==> front_door(
            policy,
            p,
        ) == Err::<PlatformBackendSelection, _>(e),
        backend::provider_backend(p, policy.runtime.provider) matches Ok(b) ==> {
            &&& validation::verdict_on(policy) matches Err(e) ==> front_door(policy, p) == Err::<
                PlatformBackendSelection,
                _,
            >(
                sandbox_error::SandboxErrorView::CreationFailed(
                    "invalid sandbox policy: "@ + e.message(),
                ),
            )
            &&& validation::verdict_on(policy) is Ok && backend::availability(p, b) is Err
                ==> front_door(policy, p) == Err::<PlatformBackendSelection, _>(
                backend::availability(p, b)->Err_0,
            )
        },
{
}

/// The validation of a policy is recorded for every policy that leads to a
/// backend, and the look at the platform for those that are valid; nothing else
/// is.
pub proof fn law_what_is_recorded_at_the_front_door(policy: Policy, p: backend::PlatformView)
    ensures
        backend::provider_backend(p, policy.runtime.provider) is Err ==> front_door_phases(
            policy,
            p,
        ).len() == 0,
        backend::provider_backend(p, policy.runtime.provider) is Ok ==> front_door_phases(policy, p)
            == if validation::verdict_on(policy) is Ok {
            seq!["front_door.policy_validation"@, "front_door.platform_availability"@]
        } else {
            seq!["front_door.policy_validation"@]
        },
{
}

/// While a sandbox runs, a look at its process is reported as it is, and an exit
/// stops it and changes nothing else. A sandbox that does not run reports nothing
/// and stays as it is.
pub proof fn law_what_a_look_at_the_process_does(
    s: Sandbox,
    polled: Result<Option<i32>, SandboxError>,
)
    ensures
        s.status is Running ==> poll_report(s, polled) == polled,
        !(s.status is Running) ==> poll_report(s, polled) == Ok::<_, SandboxError>(None::<i32>)
            && polled_sandbox(s, polled) == s,
        s.status is Running && polled is Ok && polled->Ok_0 is Some ==> polled_sandbox(s, polled)
            == (Sandbox { status: SandboxStatus::Stopped, ..s }),
        polled is Err || polled->Ok_0 is None ==> polled_sandbox(s, polled) == s,
{
}

/// Where phases are recorded nothing else of a configuration changes.
pub proof fn law_recording_leaves_the_configuration(
    before: SandboxConfig,
    after: SandboxConfig,
    names: Seq<Seq<char>>,
)
    requires
        only_recorded(before, after, names),
    ensures
        after.id == before.id && after.policy == before.policy,
        after.command == before.command && after.args == before.args,
        after.working_dir == before.working_dir && after.workspace_dir == before.workspace_dir,
        after.env == before.env,
        after.proxy_port == before.proxy_port && after.proxy_addr == before.proxy_addr,
        after.connect_attribution == before.connect_attribution,
        after.capture_output == before.capture_output,
        after.interactive_terminal == before.interactive_terminal,
        after.pty_bridge_helper == before.pty_bridge_helper,
        after.timeout_sec == before.timeout_sec,
        after.backend_preflight == before.backend_preflight,
        before.startup_trace is None <==> after.startup_trace is None,
        before.startup_trace is Some ==> after.startup_trace->0@.len()
            == before.startup_trace->0@.len() + names.len(),
{
}

/// A sandbox that is refused for its policy says what is wrong with it.
pub proof fn law_refused_policy_in_words(reason: Seq<char>)
    ensures
        policy_refusal(crate::policy::PolicyErrorView::ValidationError(reason))
            == sandbox_error::SandboxErrorView::CreationFailed(
            "invalid sandbox policy: "@ + ("policy validation failed: "@ + reason),
        ),
{
}

} // verus!
