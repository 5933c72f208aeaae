//! Workspaces and managed homes as a whole, on a host that has no links of its own.

use axis::backend::{Platform, PlatformBackendSelection};
use axis::config::{BackendPreflight, SandboxConfig};
use axis::grants::{
    expand_managed_home_guard_path, home_suffix, sandbox_tmpdir_path, ManagedHomeGrantGuard,
};
use axis::managed_home::{enter_managed_home, CheckedHome};
use axis::paths::{begin_search, finish_search, unix_path, HostPath, PathPart};
use axis::policy::{
    FilesystemPolicy, GpuPolicy, InferencePolicy, NetworkMode, NetworkPolicy, Policy,
    ProcessPolicy, RuntimePolicy, SshKeySpec, SshPolicy,
};
use axis::sandbox::Sandbox;
use axis::sandbox_env::set_windows_profile_env;
use axis::sandbox_error::{SandboxError, SandboxId};
use axis::workspace::{
    agent_workspace_ready, grant_agent_targets, prepare_existing_scoped_ssh_for_exec,
    rewrite_read_write_paths_for_agent_targets, ssh_linked, ssh_prepared, workspace_kind,
    AgentLink, PathLookup, WorkspaceKind,
};

const HOME: &str = "/home/u";

fn path(shown: &str) -> HostPath {
    unix_path(shown)
}

fn show(parts: &[PathPart]) -> String {
    let mut s = String::new();
    for p in parts {
        if let PathPart::Normal(b) = p {
            s.push('/');
            s.push_str(&String::from_utf8_lossy(b));
        }
    }
    s
}

/// What a path resolves to where everything exists. A path below `link` is found
/// below `target`.
fn resolve(text: &str, link: &str, target: &str) -> Result<HostPath, String> {
    let search = begin_search(&path(text))?;
    let normal = show(&search.existing);
    let real = match normal.strip_prefix(link) {
        Some(rest) if rest.is_empty() || rest.starts_with('/') => format!("{target}{rest}"),
        _ => normal,
    };
    Ok(path(&show(&finish_search(search, path(&real)))))
}

fn config(name: &str, workspace: &str) -> SandboxConfig {
    SandboxConfig {
        id: SandboxId("sandbox-1".to_owned()),
        policy: Policy {
            version: 1,
            name: name.into(),
            runtime: RuntimePolicy::default(),
            filesystem: FilesystemPolicy::default(),
            process: ProcessPolicy::default(),
            network: NetworkPolicy { mode: NetworkMode::Allow, policies: Vec::new() },
            inference: InferencePolicy::default(),
            gpu: GpuPolicy::default(),
            ssh: SshPolicy::default(),
            amd: None,
        },
        command: "true".into(),
        args: Vec::new(),
        working_dir: None,
        workspace_dir: workspace.into(),
        env: Vec::new(),
        proxy_port: 0,
        proxy_addr: None,
        connect_attribution: None,
        capture_output: false,
        interactive_terminal: false,
        pty_bridge_helper: None,
        timeout_sec: None,
        backend_preflight: BackendPreflight::default(),
        startup_trace: None,
    }
}

fn github_key(private_key: &str) -> SshPolicy {
    SshPolicy {
        allowed_keys: vec![SshKeySpec {
            name: "github".into(),
            private_key: private_key.into(),
            allowed_hosts: vec!["github.com".into()],
        }],
        generate_config: true,
        generate_known_hosts: false,
    }
}

/// The home of a sandbox up to the point where it may have its keys. `home` is
/// the user's home as it is written, `real` what it resolves to.
fn checked_home(
    config: &mut SandboxConfig,
    platform: &Platform,
    selection: PlatformBackendSelection,
    home: &str,
    real: &str,
) -> Result<CheckedHome, SandboxError> {
    for manage in [true, false] {
        assert_eq!(
            workspace_kind(platform, selection, &config.policy, manage),
            WorkspaceKind::ManagedHome
        );
    }
    let root = format!("{home}/.axis/agents/{}", config.policy.name);
    let managed = format!("{root}/home");
    let fs = &mut config.policy.filesystem;
    let windows = matches!(platform, Platform::Windows);
    let mapping = |p: &String| {
        let name = match p.as_str() {
            "~/.codex" if windows => "home/.codex",
            "~/.codex" => "codex",
            "~/.config" => "config",
            "~/.axis" => "axis",
            "~/.axis/agents/agent-ssh" => "axis",
            "~/.agent" => "agent",
            "~/.local/share/agent" => "agent-share",
            _ => return Ok(None),
        };
        Ok(Some(path(&format!("{root}/{name}"))))
    };
    let entered = enter_managed_home(fs, Ok(path(&managed)))?;
    let mapped: Vec<_> = fs.read_write.iter().map(mapping).collect();
    let redirected = entered.redirect(fs, &mapped)?;

    let workspace = config.workspace_dir.clone();
    let tmpdir = sandbox_tmpdir_path(&workspace, false);
    let grant = |p: &String| {
        let text = expand_managed_home_guard_path(p, home, &workspace, false)?;
        resolve(&text, home, real)
    };
    let resolved = |p: &str| resolve(p, home, real).unwrap().parts;
    let guard = ManagedHomeGrantGuard {
        home: resolved(home),
        agent_root: resolved(&root),
        private_setup: resolved(&format!("{root}/ssh-staging")),
        generated_ssh: resolved(&format!("{managed}/.ssh")),
        workspace: resolved(&workspace),
        tmpdir: resolved(&tmpdir),
        host_temp: resolved("/tmp"),
    };
    let read_only: Vec<_> = fs.read_only.iter().map(grant).collect();
    let read_write: Vec<_> = fs.read_write.iter().map(grant).collect();
    redirected.check_grants(fs, &read_only, &read_write, &guard, false)
}

fn linux_mxc(config: &mut SandboxConfig) -> Result<CheckedHome, SandboxError> {
    checked_home(config, &Platform::Linux, PlatformBackendSelection::LinuxMxc, HOME, HOME)
}

fn env_value(config: &SandboxConfig, name: &str) -> Option<String> {
    config.env.iter().find(|(key, _)| key == name).map(|(_, value)| value.clone())
}

/// The home of a sandbox with its keys in it.
fn keyed_home(config: &mut SandboxConfig) -> String {
    let home = linux_mxc(config).unwrap();
    home.grant_ssh(&mut config.policy.filesystem, Ok(()), false).unwrap();
    home.set_env(&mut config.env, false).unwrap();
    home.path().shown.clone()
}

#[test]
fn mxc_scoped_ssh_uses_managed_home_without_replacing_real_ssh() {
    let mut config = config("agent-ssh", "/tmp/w/workspace");
    config.policy.filesystem.read_write = vec![
        "{workspace}".into(),
        "~/.agent".into(),
        "~/.local/share/agent".into(),
        "~/.config".into(),
        "~/.axis".into(),
        "~/.codex".into(),
    ];
    config.policy.filesystem.deny = vec!["~/.ssh".into()];
    config.policy.ssh = github_key("~/.ssh/id_ed25519");

    let managed_home = keyed_home(&mut config);

    assert_eq!(managed_home, format!("{HOME}/.axis/agents/agent-ssh/home"));
    let managed_ssh = format!("{managed_home}/.ssh");
    assert_eq!(env_value(&config, "HOME"), Some(managed_home.clone()));
    assert_eq!(env_value(&config, "XDG_CONFIG_HOME"), Some(format!("{managed_home}/.config")));
    assert_eq!(env_value(&config, "XDG_DATA_HOME"), Some(format!("{managed_home}/.local/share")));
    assert_eq!(env_value(&config, "XDG_CACHE_HOME"), Some(format!("{managed_home}/.cache")));
    let fs = &config.policy.filesystem;
    assert!(
        fs.read_write.contains(&managed_home),
        "MXC backend policy should grant the managed HOME"
    );
    for (name, why) in [
        ("axis", "known ~/.axis state must be rewritten to a policy-owned target"),
        ("agent-share", "known share state must be rewritten to a policy-owned target"),
        ("codex", "known agent state target should remain mounted separately"),
        ("agent", "known agent state must be rewritten to a policy-owned target"),
        ("config", "known ~/.config state must be rewritten to a policy-owned target"),
    ] {
        let target = format!("{HOME}/.axis/agents/agent-ssh/{name}");
        assert!(fs.read_write.contains(&target), "{why}");
    }
    assert!(
        fs.read_only.contains(&managed_ssh),
        "generated managed SSH state must be readonly in the sandbox"
    );
    assert!(
        !fs.read_write.contains(&managed_ssh),
        "generated managed SSH state must not be directly writable"
    );
    assert!(
        !fs.read_write.iter().any(|path| {
            path == "~/.axis"
                || path == "~/.local/share/agent"
                || path == "~/.agent"
                || path == "~/.config"
                || path == "~/.codex"
                || path == &format!("{HOME}/.axis")
                || path == &format!("{HOME}/.local/share/agent")
        }),
        "MXC backend policy must not retain real home agent-state grants"
    );
    assert!(fs.deny.contains(&"~/.ssh".into()), "real user ~/.ssh should remain denied");
}

#[test]
fn mxc_exec_scoped_ssh_reuses_managed_home_without_real_home_symlink() {
    let mut config = config("agent-ssh", "/tmp/w/workspace");
    config.policy.filesystem.deny = vec!["~/.ssh".into()];
    config.policy.ssh = github_key("~/.ssh/id_ed25519");
    let admission = Sandbox::create_for_exec(&mut config, &Platform::Linux).unwrap();
    assert_eq!(
        admission.workspace_kind(&config.policy, &Platform::Linux),
        WorkspaceKind::ManagedHome
    );

    let managed_home = keyed_home(&mut config);

    assert_eq!(managed_home, format!("{HOME}/.axis/agents/agent-ssh/home"));
    assert_eq!(env_value(&config, "HOME"), Some(managed_home.clone()));
    assert!(config.policy.filesystem.read_only.contains(&format!("{managed_home}/.ssh")));
}

#[test]
fn mxc_scoped_ssh_leaves_existing_real_ssh_symlink_untouched() {
    let mut config = config("agent-ssh", "/tmp/w/workspace");
    config.policy.filesystem.deny = vec!["~/.ssh".into()];
    config.policy.ssh = github_key("~/.ssh/id_ed25519");

    keyed_home(&mut config);

    assert!(
        config.policy.filesystem.deny.contains(&"~/.ssh".into()),
        "real user ~/.ssh symlink should remain denied"
    );
}

#[test]
fn mxc_scoped_ssh_missing_key_uses_managed_home_without_real_home_grants() {
    let mut config = config("agent-ssh", "/tmp/w/workspace");
    config.policy.filesystem.read_write = vec!["~/.axis/agents/agent-ssh".into()];
    config.policy.filesystem.deny = vec!["~/.ssh".into()];
    config.policy.ssh = github_key("~/.ssh/id_ed25519");

    let managed_home = keyed_home(&mut config);

    assert_eq!(managed_home, format!("{HOME}/.axis/agents/agent-ssh/home"));
    let fs = &config.policy.filesystem;
    assert!(fs.read_write.contains(&format!("{HOME}/.axis/agents/agent-ssh/axis")));
    assert!(
        !fs.read_write.iter().any(|path| {
            path == "~/.axis/agents/agent-ssh"
                || path == &format!("{HOME}/.axis/agents/agent-ssh")
        }),
        "missing SSH keys must not leave the real policy state root mounted"
    );
    assert!(
        fs.deny.contains(&"~/.ssh".into()),
        "real user ~/.ssh should remain denied even when configured keys are missing"
    );
}

#[test]
fn mxc_scoped_ssh_rejects_unmanaged_real_home_grants_before_copying_keys() {
    for grant in ["~/.ssh", "~/.axis/cache", "~/.local", "~/Documents"] {
        let name = format!("agent-{}", grant.replace(['~', '/', '.'], "_"));
        let mut config = config(&name, "/tmp/w/workspace");
        config.policy.filesystem.read_write = vec![grant.into()];
        config.policy.ssh = github_key("~/.ssh/id_ed25519");

        let err = linux_mxc(&mut config).unwrap_err();

        assert!(matches!(err, SandboxError::CreationFailed(_)));
        assert!(
            err.message().contains("cannot grant real home read_write path"),
            "unexpected error for {grant}: {}",
            err.message()
        );
    }
}

#[test]
fn mxc_scoped_ssh_rejects_unmanaged_real_home_read_only_grants() {
    let mut config = config("agent-ssh", "/tmp/w/workspace");
    config.policy.filesystem.read_only = vec!["~/Documents".into()];
    config.policy.ssh = github_key("~/.ssh/id_ed25519");

    let err = linux_mxc(&mut config).unwrap_err();

    assert!(matches!(err, SandboxError::CreationFailed(_)));
    assert!(err.message().contains("cannot grant real home read_only path"));
}

#[test]
fn mxc_scoped_ssh_rejects_private_setup_grants_before_copying_keys() {
    let private_setup = format!("{HOME}/.axis/agents/agent-ssh/ssh-staging");
    let grants = [
        ("read_write", "~/.axis/agents/agent-ssh/ssh-staging".to_string(), "private setup root"),
        ("read_only", format!("{private_setup}/nested"), "private setup child"),
        (
            "read_write",
            "{workspace}/../.axis/agents/agent-ssh/ssh-staging".to_string(),
            "token-expanded private setup root",
        ),
    ];

    for (index, (section, grant, label)) in grants.into_iter().enumerate() {
        let mut config = config("agent-ssh", &format!("{HOME}/workspace-{index}"));
        match section {
            "read_write" => config.policy.filesystem.read_write = vec![grant.clone()],
            "read_only" => config.policy.filesystem.read_only = vec![grant.clone()],
            _ => unreachable!(),
        }
        config.policy.ssh = github_key("~/.ssh/id_ed25519");

        let err = linux_mxc(&mut config).unwrap_err();

        assert!(matches!(err, SandboxError::CreationFailed(_)));
        assert!(
            err.message().contains(&format!("cannot grant private agent setup {section} path")),
            "unexpected error for {label} grant {grant}: {}",
            err.message()
        );
    }
}

#[test]
fn mxc_scoped_ssh_rejects_generated_ssh_readwrite_grants_before_copying_keys() {
    let generated_ssh = format!("{HOME}/.axis/agents/agent-ssh/home/.ssh");
    let grants = [
        (generated_ssh.clone(), "generated SSH root"),
        (format!("{generated_ssh}/id_ed25519"), "generated SSH child"),
        (
            "{workspace}/../.axis/agents/agent-ssh/home/.ssh/config".to_string(),
            "token-expanded generated SSH child",
        ),
    ];

    for (index, (grant, label)) in grants.into_iter().enumerate() {
        let mut config = config("agent-ssh", &format!("{HOME}/workspace-ssh-{index}"));
        config.policy.filesystem.read_write = vec![grant.clone()];
        config.policy.ssh = github_key("~/.ssh/id_ed25519");

        let err = linux_mxc(&mut config).unwrap_err();

        assert!(matches!(err, SandboxError::CreationFailed(_)));
        assert!(
            err.message().contains("cannot grant generated SSH read_write path"),
            "unexpected error for {label} grant {grant}: {}",
            err.message()
        );
    }
}

#[test]
fn mxc_scoped_ssh_rejects_token_expanded_real_home_escape_before_copying_keys() {
    for grant in [
        "{workspace}/../.axis/cache",
        "{workspace}/../.axis/cache/nested",
        "{workspace}/../.local",
        "{workspace}/../Documents",
    ] {
        let name = format!("agent-{}", grant.replace(['{', '}', '/', '.'], "_"));
        let mut config = config(&name, &format!("{HOME}/workspace"));
        config.policy.filesystem.read_write = vec![grant.into()];
        config.policy.ssh = github_key("~/.ssh/id_ed25519");

        let err = linux_mxc(&mut config).unwrap_err();

        assert!(
            err.message().contains("cannot grant real home read_write path"),
            "unexpected error for {grant}: {}",
            err.message()
        );
    }
}

#[test]
fn mxc_scoped_ssh_allows_workspace_and_tmpdir_token_grants() {
    let mut config = config("agent-ssh", &format!("{HOME}/workspace"));
    config.policy.filesystem.read_write = vec![
        "{workspace}".into(),
        "{workspace}/state".into(),
        "{tmpdir}".into(),
        "{tmpdir}/cache".into(),
    ];
    config.policy.ssh = github_key("~/.ssh/id_ed25519");

    let home = linux_mxc(&mut config).unwrap();

    assert_eq!(home.path().shown, format!("{HOME}/.axis/agents/agent-ssh/home"));
    assert!(
        config.policy.filesystem.read_write.contains(&"{workspace}".into())
            && config.policy.filesystem.read_write.contains(&"{tmpdir}".into())
    );
}

#[test]
fn mxc_scoped_ssh_rejects_symlinked_home_real_home_grants() {
    for grant in ["~/Documents", "~/.ssh"] {
        let name = format!("agent-{}", grant.replace(['~', '/', '.'], "_"));
        let mut config = config(&name, "/tmp/w/workspace");
        config.policy.filesystem.read_write = vec![grant.into()];
        config.policy.ssh = github_key("~/.ssh/id_ed25519");

        let err = checked_home(
            &mut config,
            &Platform::Linux,
            PlatformBackendSelection::LinuxMxc,
            "/tmp/home-link",
            "/tmp/home",
        )
        .unwrap_err();

        assert!(
            err.message().contains("cannot grant real home read_write path"),
            "unexpected error for {grant}: {}",
            err.message()
        );
    }
}

#[test]
fn windows_mxc_uses_physical_managed_home_and_profile_directories() {
    let mut config = config("windows-managed-home-test", "/work");
    config.policy.filesystem.read_write = vec!["{workspace}".into(), "~/.codex".into()];

    let home = checked_home(
        &mut config,
        &Platform::Windows,
        PlatformBackendSelection::WindowsMxc,
        HOME,
        HOME,
    )
    .unwrap();
    let managed_home = format!("{HOME}/.axis/agents/windows-managed-home-test/home");
    let managed_codex = format!("{managed_home}/.codex");
    home.set_env(&mut config.env, false).unwrap();
    set_windows_profile_env(&mut config.env, &managed_home);

    let read_write = &config.policy.filesystem.read_write;
    assert!(
        read_write.contains(&managed_home),
        "read_write={:?}, expected={}",
        read_write,
        managed_home
    );
    assert!(read_write.contains(&managed_codex));

    let env_value = |name: &str| env_value(&config, name);
    assert_eq!(env_value("HOME"), Some(managed_home.clone()));
    assert_eq!(env_value("USERPROFILE"), Some(managed_home.clone()));
    assert_eq!(env_value("APPDATA"), Some(format!("{managed_home}\\AppData\\Roaming")));
    assert_eq!(env_value("LOCALAPPDATA"), Some(format!("{managed_home}\\AppData\\Local")));
}

fn codex_link() -> AgentLink {
    AgentLink {
        link: path(&format!("{HOME}/.codex")),
        target: path(&format!("{HOME}/.axis/agents/agent-codex/codex")),
    }
}

/// What the host says about a path of the policy `agent-codex`.
fn lookup(p: &String) -> PathLookup {
    PathLookup {
        expanded: Ok(home_suffix(p).map(|rest| path(&format!("{HOME}/{rest}")))),
        mapped: Ok((p.as_str() == "~/.codex").then(|| codex_link().target)),
    }
}

fn redirect(list: &mut Vec<String>, links: Vec<AgentLink>) -> Vec<AgentLink> {
    let lookups: Vec<PathLookup> = list.iter().map(lookup).collect();
    let links = rewrite_read_write_paths_for_agent_targets(list, links, &lookups).unwrap();
    let mapped: Vec<_> = list.iter().map(|p| lookup(p).mapped).collect();
    grant_agent_targets(list, links, &mapped).unwrap()
}

fn kind(config: &SandboxConfig, manage: bool) -> WorkspaceKind {
    workspace_kind(
        &Platform::Linux,
        PlatformBackendSelection::LinuxNative,
        &config.policy,
        manage,
    )
}

#[test]
fn agent_workspace_preparation_rewrites_known_paths_and_ignores_unknown_home_paths() {
    let mut config = config("agent-codex", "/tmp/w/workspace");
    config.policy.filesystem.read_write = vec![
        "~/.codex".into(),
        "~/Documents".into(),
        "~/.unknown-agent".into(),
        "{workspace}".into(),
    ];
    assert_eq!(kind(&config, true), WorkspaceKind::Linked);

    let links = agent_workspace_ready(Ok(vec![codex_link()])).unwrap();
    let links = redirect(&mut config.policy.filesystem.read_write, links);

    let codex_target = codex_link().target.shown;
    assert_eq!(links.len(), 1);
    assert_eq!(links[0].link.shown, format!("{HOME}/.codex"));
    assert_eq!(links[0].target.shown, codex_target);
    let read_write = &config.policy.filesystem.read_write;
    assert!(
        read_write.contains(&codex_target),
        "backend policy should grant the contained target, not only the symlink alias"
    );
    assert!(
        !read_write.contains(&"~/.codex".into()),
        "backend policy should not rely on MXC representing symlink aliases"
    );
    assert!(
        read_write.contains(&"~/Documents".into()),
        "broad user directories must not be redirected"
    );
    assert!(
        read_write.contains(&"~/.unknown-agent".into()),
        "unknown agent state paths must not be redirected"
    );
}

#[test]
fn exec_workspace_preparation_rewrites_known_paths_without_creating_symlinks() {
    let mut config = config("agent-codex", "/tmp/w/workspace");
    config.policy.filesystem.read_write = vec!["~/.codex".into()];
    assert_eq!(kind(&config, false), WorkspaceKind::Existing);

    let exec_symlinks = redirect(&mut config.policy.filesystem.read_write, Vec::new());

    assert!(exec_symlinks.is_empty());
    assert_eq!(config.policy.filesystem.read_write, vec![codex_link().target.shown]);
}

fn ssh_link() -> AgentLink {
    AgentLink {
        link: path(&format!("{HOME}/.ssh")),
        target: path(&format!("{HOME}/.axis/agents/agent-ssh/ssh")),
    }
}

fn denied(list: &[String]) -> Vec<Result<Option<HostPath>, String>> {
    list.iter().map(|p| lookup(p).expanded).collect()
}

#[test]
fn scoped_ssh_preparation_uses_generated_ssh_dir_and_removes_real_home_deny() {
    let mut config = config("agent-ssh", "/tmp/w/workspace");
    config.policy.filesystem.deny = vec!["~/.ssh".into(), "~/.aws".into()];
    config.policy.ssh = github_key("/tmp/keys/id_ed25519");
    assert_eq!(kind(&config, true), WorkspaceKind::Linked);

    let fs = &mut config.policy.filesystem;
    let links = redirect(&mut fs.read_write, Vec::new());
    let links = ssh_linked(links, Ok(ssh_link())).unwrap();
    let lookups = denied(&fs.deny);
    let links = ssh_prepared(fs, links, Ok(Some(ssh_link().target)), &lookups).unwrap();

    assert_eq!(links.len(), 1);
    assert!(
        fs.read_write.contains(&ssh_link().target.shown),
        "scoped SSH target must be writable inside the backend sandbox"
    );
    assert!(
        !fs.deny.contains(&"~/.ssh".into()),
        "the backend policy must not deny the generated ~/.ssh symlink target"
    );
    assert!(fs.deny.contains(&"~/.aws".into()));
}

#[test]
fn scoped_ssh_preparation_refuses_to_replace_real_user_ssh() {
    let mut config = config("agent-ssh", "/tmp/w/workspace");
    config.policy.ssh = github_key("~/.ssh/id_ed25519");
    assert_eq!(kind(&config, true), WorkspaceKind::Linked);

    let links = redirect(&mut config.policy.filesystem.read_write, Vec::new());
    let failure =
        ssh_linked(links, Err("refusing to replace existing ~/.ssh".to_owned())).unwrap_err();

    assert!(matches!(failure.error, SandboxError::CreationFailed(_)));
    assert!(failure.error.message().contains("refusing to replace existing ~/.ssh"));
    assert!(failure.cleanup.is_empty());
}

#[test]
fn exec_scoped_ssh_reuses_existing_generated_link_without_replacing_home_ssh() {
    let mut config = config("agent-ssh", "/tmp/w/workspace");
    config.policy.filesystem.deny = vec!["~/.ssh".into()];
    config.policy.ssh = github_key("/tmp/nonexistent-key-for-exec");
    assert_eq!(kind(&config, false), WorkspaceKind::Existing);

    let exec_symlinks = redirect(&mut config.policy.filesystem.read_write, Vec::new());
    let lookups = denied(&config.policy.filesystem.deny);
    prepare_existing_scoped_ssh_for_exec(
        &mut config.policy.filesystem,
        &config.policy.ssh,
        Ok(true),
        Ok(ssh_link().link),
        &ssh_link().target,
        &lookups,
    )
    .unwrap();

    assert!(exec_symlinks.is_empty());
    assert!(config.policy.filesystem.read_write.contains(&ssh_link().target.shown));
    assert!(!config.policy.filesystem.deny.contains(&"~/.ssh".into()));
}

#[test]
fn create_cleans_agent_symlink_when_mxc_backend_setup_fails() {
    let mut config = config("agent-codex", "/tmp/w/workspace");
    config.policy.network.mode = NetworkMode::Proxy;
    config.policy.filesystem.read_write = vec!["~/.codex".into()];

    let admission = Sandbox::create(&mut config, &Platform::Linux).unwrap();
    assert_eq!(admission.backend, PlatformBackendSelection::LinuxMxc);
    let links = redirect(&mut config.policy.filesystem.read_write, vec![codex_link()]);
    let failure = admission
        .finish(
            &mut config,
            links,
            std::time::Duration::ZERO,
            Err(SandboxError::IsolationFailed("MXC Linux backend".to_owned())),
        )
        .unwrap_err();

    assert!(matches!(failure.error, SandboxError::IsolationFailed(_)));
    assert!(failure.error.message().contains("MXC Linux"));
    assert_eq!(
        failure.cleanup.iter().map(|l| l.link.shown.clone()).collect::<Vec<_>>(),
        vec![format!("{HOME}/.codex")],
        "agent symlink should be cleaned when backend setup fails"
    );
}
