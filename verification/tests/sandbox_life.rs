//! Creating sandboxes, choosing backends, and the life of a sandbox.

use axis::backend::{
    create_platform_sandbox_with_backend, effective_linux_backend,
    ensure_platform_backend_available, platform_backend_for_policy, uses_mxc_managed_home,
    Implementation, Platform, PlatformBackendSelection,
};
use axis::config::{BackendPreflight, SandboxConfig};
use axis::paths::unix_path;
use axis::policy::{
    FilesystemPolicy, GpuPolicy, InferencePolicy, NetworkMode, NetworkPolicy, Policy,
    ProcessPolicy, RuntimePolicy, RuntimeProvider, SshKeySpec, SshPolicy,
};
use axis::sandbox::{Sandbox, SandboxStatus};
use axis::sandbox_error::{SandboxError, SandboxId};
use axis::trace::{record_phase, record_startup_result, StartupTrace};
use axis::workspace::{AgentLink, WorkspaceKind};
use std::time::Duration;

fn test_config() -> SandboxConfig {
    SandboxConfig {
        id: SandboxId("sandbox-1".to_owned()),
        policy: Policy {
            version: 1,
            name: "test".into(),
            runtime: RuntimePolicy::default(),
            filesystem: FilesystemPolicy::default(),
            process: ProcessPolicy::default(),
            network: NetworkPolicy { mode: NetworkMode::Allow, policies: Vec::new() },
            inference: InferencePolicy::default(),
            gpu: GpuPolicy::default(),
            ssh: SshPolicy::default(),
            amd: None,
        },
        command: "true".into(),
        args: Vec::new(),
        working_dir: None,
        workspace_dir: "/tmp/axis-sandbox-validation-test".into(),
        env: Vec::new(),
        proxy_port: 0,
        proxy_addr: None,
        connect_attribution: None,
        capture_output: false,
        interactive_terminal: false,
        pty_bridge_helper: None,
        timeout_sec: None,
        backend_preflight: BackendPreflight::default(),
        startup_trace: None,
    }
}

fn with_key(mut config: SandboxConfig) -> SandboxConfig {
    config.policy.ssh.allowed_keys.push(SshKeySpec {
        name: "github".into(),
        private_key: "~/.ssh/id_ed25519".into(),
        allowed_hosts: vec!["github.com".into()],
    });
    config
}

fn link() -> AgentLink {
    AgentLink {
        link: unix_path("/home/u/.codex"),
        target: unix_path("/home/u/.axis/agents/a/codex"),
    }
}

fn phases(config: &SandboxConfig) -> Vec<&'static str> {
    config.startup_trace.as_ref().unwrap().phases().iter().map(|p| p.phase).collect()
}

#[test]
fn create_rejects_invalid_manual_resource_policy_before_platform_setup() {
    let mut config = test_config();
    config.policy.process.cpu_rate_percent = 101;
    config.startup_trace = Some(StartupTrace::new());

    let err = match Sandbox::create(&mut config, &Platform::Linux) {
        Ok(_) => panic!("invalid resource policy should be rejected"),
        Err(err) => err,
    };

    assert!(matches!(err, SandboxError::CreationFailed(_)));
    assert!(err.message().contains("cpu_rate_percent"));
    assert_eq!(
        err.message(),
        "sandbox creation failed: invalid sandbox policy: policy validation failed: cpu_rate_percent must be 0..=100, got 101"
    );
    assert_eq!(phases(&config), vec!["front_door.policy_validation"]);
}

#[test]
fn create_for_exec_rejects_invalid_manual_resource_policy_before_platform_setup() {
    let mut config = test_config();
    config.policy.process.cpu_rate_percent = 101;

    let err = match Sandbox::create_for_exec(&mut config, &Platform::Linux) {
        Ok(_) => panic!("invalid resource policy should be rejected"),
        Err(err) => err,
    };

    assert!(matches!(err, SandboxError::CreationFailed(_)));
    assert!(err.message().contains("cpu_rate_percent"));
    assert!(config.startup_trace.is_none());
}

#[test]
fn each_step_of_a_creation_is_recorded() {
    let took = Duration::from_millis(3);
    let traced = || {
        let mut config = test_config();
        config.startup_trace = Some(StartupTrace::new());
        config
    };
    let mut config = traced();
    let admission = Sandbox::create(&mut config, &Platform::Linux).unwrap();
    let links = admission.workspace_made(&mut config, took, Ok(vec![link()])).unwrap();
    admission.finish(&mut config, links, took, Ok(())).unwrap();
    assert_eq!(
        phases(&config),
        vec![
            "front_door.policy_validation",
            "front_door.platform_availability",
            "support_files.agent_workspace",
            "backend.prepare",
        ]
    );
    assert_eq!(config.startup_trace.unwrap().phases()[3].duration, took);

    let mut config = traced();
    assert!(Sandbox::create(&mut config, &Platform::Other("plan9".to_owned())).is_err());
    assert_eq!(
        phases(&config),
        vec!["front_door.policy_validation", "front_door.platform_availability"]
    );
    let mut config = traced();
    config.policy.runtime.provider = RuntimeProvider::Vxn;
    assert!(Sandbox::create(&mut config, &Platform::Windows).is_err());
    assert!(phases(&config).is_empty());
    let mut config = traced();
    let admission = Sandbox::create(&mut config, &Platform::Linux).unwrap();
    let failed = Err(SandboxError::CreationFailed("x".to_owned()));
    assert!(admission.workspace_made(&mut config, took, failed).is_err());
    assert_eq!(phases(&config)[2], "support_files.agent_workspace");
}

#[test]
fn bare_policy_is_valid() {
    let mut policy = test_config().policy;
    assert!(policy.validate().is_ok());
    policy.process.cpu_rate_percent = 100;
    policy.network.mode = NetworkMode::Block;
    assert!(policy.validate().is_ok());
    policy.version = 2;
    assert!(policy.validate().is_err());
}

#[test]
fn process_runtime_provider_selects_linux_backend() {
    let mut policy = test_config().policy;
    assert_eq!(
        platform_backend_for_policy(&Platform::Linux, &policy).unwrap(),
        PlatformBackendSelection::LinuxMxc
    );

    policy.runtime.provider = RuntimeProvider::Mxc;
    assert_eq!(
        platform_backend_for_policy(&Platform::Linux, &policy).unwrap(),
        PlatformBackendSelection::LinuxMxc
    );

    policy.runtime.provider = RuntimeProvider::AxisNative;
    assert_eq!(
        platform_backend_for_policy(&Platform::Linux, &policy).unwrap(),
        PlatformBackendSelection::LinuxNative
    );

    policy.runtime.provider = RuntimeProvider::Vxn;
    assert_eq!(
        platform_backend_for_policy(&Platform::Linux, &policy).unwrap(),
        PlatformBackendSelection::LinuxVxn
    );
}

#[test]
fn process_runtime_provider_selects_windows_backend() {
    let mut policy = test_config().policy;
    assert_eq!(
        platform_backend_for_policy(&Platform::Windows, &policy).unwrap(),
        PlatformBackendSelection::WindowsMxc
    );

    policy.runtime.provider = RuntimeProvider::Mxc;
    assert_eq!(
        platform_backend_for_policy(&Platform::Windows, &policy).unwrap(),
        PlatformBackendSelection::WindowsMxc
    );

    policy.runtime.provider = RuntimeProvider::AxisNative;
    let error = platform_backend_for_policy(&Platform::Windows, &policy).unwrap_err();
    assert!(error.message().contains("disabled on Windows"));

    policy.runtime.provider = RuntimeProvider::Vxn;
    let error = platform_backend_for_policy(&Platform::Windows, &policy).unwrap_err();
    assert_eq!(
        error.message(),
        "platform not supported: runtime provider 'vxn' requires Linux/Xen (dom0); it is not available on Windows"
    );
}

#[test]
fn legacy_windows_default_cannot_spawn_directly() {
    let error = create_platform_sandbox_with_backend(
        &Platform::Windows,
        PlatformBackendSelection::Default,
    )
    .err()
    .expect("legacy Windows host execution must reject");
    assert!(error.message().contains("host execution is disabled"));
}

#[test]
fn mxc_runtime_provider_is_rejected_without_platform_backend() {
    let mut policy = test_config().policy;
    policy.runtime.provider = RuntimeProvider::Mxc;

    let err = platform_backend_for_policy(&Platform::Macos, &policy).unwrap_err();

    assert!(matches!(err, SandboxError::Unsupported(_)));
    assert!(err.message().contains("provider 'mxc'"));

    let other = Platform::Other("haiku".to_owned());
    policy.runtime.provider = RuntimeProvider::Vxn;
    assert_eq!(
        platform_backend_for_policy(&other, &policy).unwrap_err().message(),
        "platform not supported: runtime provider 'vxn' requires Linux/Xen (dom0); it is not available on haiku"
    );
}

#[test]
fn backends_are_available_where_they_belong() {
    let any = PlatformBackendSelection::Default;
    assert!(ensure_platform_backend_available(&Platform::Linux, any).is_ok());
    assert!(ensure_platform_backend_available(&Platform::Macos, any).is_ok());
    assert!(ensure_platform_backend_available(
        &Platform::Windows,
        PlatformBackendSelection::WindowsMxc
    )
    .is_ok());
    assert_eq!(
        ensure_platform_backend_available(&Platform::Windows, any).unwrap_err().message(),
        "platform not supported: native Windows containment is unavailable; select the MXC process backend"
    );
    assert_eq!(
        ensure_platform_backend_available(&Platform::Other("haiku".to_owned()), any)
            .unwrap_err()
            .message(),
        "platform not supported: platform 'haiku' is not yet supported"
    );
}

#[test]
fn selections_have_implementations() {
    for (backend, implementation) in [
        (PlatformBackendSelection::Default, Implementation::LinuxMxc),
        (PlatformBackendSelection::LinuxMxc, Implementation::LinuxMxc),
        (PlatformBackendSelection::LinuxNative, Implementation::LinuxNative),
        (PlatformBackendSelection::LinuxVxn, Implementation::LinuxVxn),
    ] {
        assert_eq!(
            create_platform_sandbox_with_backend(&Platform::Linux, backend).unwrap(),
            implementation
        );
        assert_ne!(effective_linux_backend(backend), PlatformBackendSelection::Default);
    }
    let default = PlatformBackendSelection::Default;
    assert_eq!(
        create_platform_sandbox_with_backend(&Platform::Macos, default).unwrap(),
        Implementation::Macos
    );
    assert!(create_platform_sandbox_with_backend(&Platform::Other("x".to_owned()), default).is_err());
}

#[test]
fn managed_homes_are_for_mxc() {
    let plain = test_config().policy;
    let keyed = with_key(test_config()).policy;
    let mxc = PlatformBackendSelection::LinuxMxc;
    let native = PlatformBackendSelection::LinuxNative;
    assert!(!uses_mxc_managed_home(&Platform::Linux, mxc, &plain));
    assert!(uses_mxc_managed_home(&Platform::Linux, mxc, &keyed));
    assert!(!uses_mxc_managed_home(&Platform::Linux, native, &keyed));
    assert!(uses_mxc_managed_home(
        &Platform::Windows,
        PlatformBackendSelection::WindowsMxc,
        &plain
    ));
    assert!(!uses_mxc_managed_home(&Platform::Macos, PlatformBackendSelection::Default, &keyed));
}

#[test]
fn creation_passes_both_gates_and_cleans_up_after_a_failed_backend() {
    let took = Duration::ZERO;
    let mut config = test_config();
    let mut keyed = with_key(test_config());
    let admitted = |config: &mut SandboxConfig| Sandbox::create(config, &Platform::Linux).unwrap();
    assert_eq!(
        admitted(&mut config).workspace_kind(&config.policy, &Platform::Linux),
        WorkspaceKind::Linked
    );
    assert_eq!(
        admitted(&mut keyed).workspace_kind(&keyed.policy, &Platform::Linux),
        WorkspaceKind::ManagedHome
    );
    let exec = Sandbox::create_for_exec(&mut config, &Platform::Linux).unwrap();
    assert_eq!(exec.workspace_kind(&config.policy, &Platform::Linux), WorkspaceKind::Existing);

    let failed = admitted(&mut config)
        .finish(
            &mut config,
            vec![link()],
            took,
            Err(SandboxError::IsolationFailed("MXC Linux backend unsupported".to_owned())),
        )
        .unwrap_err();
    assert_eq!(
        failed.error.message(),
        "isolation setup failed: MXC Linux backend unsupported"
    );
    assert_eq!(failed.cleanup.len(), 1);
    assert_eq!(failed.cleanup[0].link.shown, "/home/u/.codex");

    let sandbox = admitted(&mut config).finish(&mut config, vec![link()], took, Ok(())).unwrap();
    assert_eq!(sandbox.id.0, "sandbox-1");
    assert_eq!(sandbox.status, SandboxStatus::Creating);
    assert_eq!(sandbox.pid, None);
    assert_eq!(sandbox.workspace_dir, "/tmp/axis-sandbox-validation-test");
    assert_eq!(sandbox.agent_symlinks.len(), 1);
}

fn sandbox() -> Sandbox {
    Sandbox {
        id: SandboxId("s".to_owned()),
        status: SandboxStatus::Creating,
        pid: None,
        workspace_dir: "/w".to_owned(),
        agent_symlinks: vec![link()],
    }
}

#[test]
fn sandbox_runs_and_stops() {
    let failed = || SandboxError::Io("x".to_owned());
    let mut s = sandbox();
    assert!(!s.is_running());
    assert_eq!(s.try_wait(Ok(Some(3))).unwrap(), None);
    assert!(s.start(Err(failed())).is_err());
    assert_eq!(s.status, SandboxStatus::Creating);
    s.start(Ok(42)).unwrap();
    assert_eq!(s.pid, Some(42));
    assert!(s.is_running());
    assert_eq!(s.try_wait(Ok(None)).unwrap(), None);
    assert!(s.try_wait(Err(failed())).is_err());
    assert_eq!(s.status, SandboxStatus::Running);
    assert_eq!(s.try_wait(Ok(Some(3))).unwrap(), Some(3));
    assert_eq!(s.status, SandboxStatus::Stopped);
    assert_eq!(s.try_wait(Ok(Some(4))).unwrap(), None);
}

#[test]
fn sandbox_is_waited_for_and_destroyed() {
    let failed = || SandboxError::Io("x".to_owned());
    let mut s = sandbox();
    s.start(Ok(1)).unwrap();
    assert!(s.wait(Err(failed())).is_err());
    assert_eq!(s.status, SandboxStatus::Running);
    assert_eq!(s.wait(Ok(7)).unwrap(), 7);
    assert_eq!(s.status, SandboxStatus::Stopped);

    let mut s = sandbox();
    s.start(Ok(1)).unwrap();
    assert!(s.destroy(Err(failed())).is_err());
    assert_eq!(s.status, SandboxStatus::Running);
    assert_eq!(s.destroy(Ok(())).unwrap().len(), 1);
    assert_eq!(s.status, SandboxStatus::Stopped);
}

#[test]
fn errors_read_well() {
    for (error, message) in [
        (SandboxError::CreationFailed("x".to_owned()), "sandbox creation failed: x"),
        (SandboxError::NotFound(SandboxId("id".to_owned())), "sandbox not found: id"),
        (SandboxError::IsolationFailed("x".to_owned()), "isolation setup failed: x"),
        (SandboxError::SpawnFailed("x".to_owned()), "process spawn failed: x"),
        (SandboxError::Io("x".to_owned()), "io error: x"),
        (SandboxError::Unsupported("x".to_owned()), "platform not supported: x"),
    ] {
        assert_eq!(error.message(), message);
    }
}

#[test]
fn startup_phases_are_recorded_in_order() {
    let mut trace = StartupTrace::new();
    assert!(trace.phases().is_empty());
    trace.record("a", Duration::from_millis(1));
    let mut kept = Some(trace);
    let r: Result<u8, &str> = record_startup_result(&mut kept, "b", || Err("bad"));
    assert_eq!(r, Err("bad"));
    let phases = kept.as_ref().unwrap().phases();
    assert_eq!(phases.len(), 2);
    assert_eq!((phases[0].phase, phases[0].duration), ("a", Duration::from_millis(1)));
    assert_eq!(phases[1].phase, "b");
    record_phase(&mut kept, "d", Duration::from_millis(2));
    let phases = kept.as_ref().unwrap().phases();
    assert_eq!((phases[2].phase, phases[2].duration), ("d", Duration::from_millis(2)));
    let r: Result<u8, &str> = record_startup_result(&mut kept, "e", || {
        let start = std::time::Instant::now();
        while start.elapsed() < Duration::from_millis(5) {}
        Ok(1)
    });
    assert_eq!(r, Ok(1));
    assert!(kept.as_ref().unwrap().phases()[3].duration >= Duration::from_millis(5));

    let mut none: Option<StartupTrace> = None;
    let r: Result<u8, &str> = record_startup_result(&mut none, "c", || Ok(5));
    assert_eq!(r, Ok(5));
    assert!(none.is_none());
    assert_eq!(BackendPreflight::default(), BackendPreflight::InProcess);
}
