//! The vxn backend: its command line and the life of its child.

use axis::base64::b64;
use axis::config::{BackendPreflight, SandboxConfig};
use axis::policy::{
    FilesystemPolicy, GpuPolicy, InferencePolicy, NetworkMode, NetworkPolicy, Policy,
    ProcessPolicy, RuntimePolicy, SshPolicy,
};
use axis::sandbox_error::{SandboxError, SandboxId};
use axis::vxn::{
    after_poll, escalate, forwarded_names, Escalation, KillStep, PollOutcome, Signal, VxnHost,
    VxnSandbox, WaitOutcome, WaitPhase, WaitStart, KILL_GRACE_POLLS, KILL_GRACE_SEC, KILL_POLL_MS,
};

fn config(mode: NetworkMode, command: &str, args: &[&str]) -> SandboxConfig {
    SandboxConfig {
        id: SandboxId("sandbox-1".to_owned()),
        policy: Policy {
            version: 1,
            name: "test".into(),
            runtime: RuntimePolicy::default(),
            filesystem: FilesystemPolicy::default(),
            process: ProcessPolicy::default(),
            network: NetworkPolicy { mode, policies: Vec::new() },
            inference: InferencePolicy::default(),
            gpu: GpuPolicy::default(),
            ssh: SshPolicy::default(),
            amd: None,
        },
        command: command.to_owned(),
        args: args.iter().map(|a| (*a).to_owned()).collect(),
        working_dir: None,
        workspace_dir: "/w".to_owned(),
        env: Vec::new(),
        proxy_port: 0,
        proxy_addr: None,
        connect_attribution: None,
        capture_output: false,
        interactive_terminal: false,
        pty_bridge_helper: None,
        timeout_sec: None,
        backend_preflight: BackendPreflight::default(),
        startup_trace: None,
    }
}

fn plain_host() -> VxnHost {
    VxnHost { bin: None, base_image: None, forwarded: Vec::new() }
}

#[test]
fn base64_vectors() {
    for (plain, coded) in [
        ("", ""),
        ("f", "Zg=="),
        ("fo", "Zm8="),
        ("foo", "Zm9v"),
        ("foob", "Zm9vYg=="),
        ("fooba", "Zm9vYmE="),
        ("foobar", "Zm9vYmFy"),
    ] {
        assert_eq!(b64(plain.as_bytes()), coded);
    }
    assert_eq!(b64(&[0xff, 0xff, 0xff, 0xfb, 0xef, 0xbe]), "////++++");
}

#[test]
fn blocked_network_command_line() {
    let s = VxnSandbox::new(&config(NetworkMode::Block, "/usr/bin/python", &["-c", "print('hi')"]), &plain_host())
        .unwrap();
    assert_eq!(
        s.argv,
        vec![
            "vxn",
            "run",
            "--rm",
            "--no-network",
            "python",
            "__VXNARGV__L3Vzci9iaW4vcHl0aG9u,LWM=,cHJpbnQoJ2hpJyk=",
        ]
    );
    assert_eq!(s.id.0, "sandbox-1");
    assert!(s.child.is_none());
    assert!(s.exit_code.is_none());
}

#[test]
fn open_network_command_line_with_terminal_environment_and_host_settings() {
    let mut c = config(NetworkMode::Allow, "echo", &["hi"]);
    c.interactive_terminal = true;
    c.env = vec![("A".to_owned(), "1".to_owned())];
    c.timeout_sec = Some(9);
    c.capture_output = true;
    let host = VxnHost {
        bin: Some("/opt/vxn".to_owned()),
        base_image: Some("alpine".to_owned()),
        forwarded: vec![("B".to_owned(), "2".to_owned())],
    };
    let s = VxnSandbox::new(&c, &host).unwrap();
    assert_eq!(
        s.argv,
        vec!["/opt/vxn", "run", "--rm", "-it", "--env-b64=QT0xCkI9Mgo=", "alpine", "__VXNARGV__ZWNobw==,aGk="]
    );
    assert_eq!(s.timeout_sec, Some(9));
    assert!(s.capture_output);
}

#[test]
fn image_is_named_like_the_command() {
    for (command, image) in [
        ("tool", "tool"),
        ("/usr/bin/tool", "tool"),
        ("./tool/", "tool"),
        ("a/b/.", "b"),
        ("/", "docker.io/library/alpine:latest"),
        ("a/..", "docker.io/library/alpine:latest"),
        (".", "docker.io/library/alpine:latest"),
    ] {
        let s = VxnSandbox::new(&config(NetworkMode::Allow, command, &[]), &plain_host()).unwrap();
        assert_eq!(s.argv[3], image, "{command}");
    }
}

#[test]
fn proxy_mode_fails_closed() {
    let err = VxnSandbox::new(&config(NetworkMode::Proxy, "echo", &[]), &plain_host()).unwrap_err();
    assert!(matches!(err, SandboxError::Unsupported(_)));
    assert!(err.message().contains("vxn backend does not yet enforce 'proxy' network mode"));
    let err = VxnSandbox::new(&config(NetworkMode::Proxy, "", &[]), &plain_host()).unwrap_err();
    assert!(matches!(err, SandboxError::CreationFailed(_)));
    assert_eq!(err.message(), "sandbox creation failed: vxn backend: command must not be empty");
}

#[test]
fn only_named_variables_are_forwarded() {
    assert_eq!(forwarded_names(" A , ,B,\tC\u{a0},"), vec!["A", "B", "C"]);
    assert!(forwarded_names("").is_empty());
    assert!(forwarded_names(" , ").is_empty());
}

#[test]
fn child_is_started_once() {
    let mut s = VxnSandbox::new(&config(NetworkMode::Allow, "echo", &[]), &plain_host()).unwrap();
    assert!(s.check_start().is_ok());
    let err = s.start(Err("no such file".to_owned())).unwrap_err();
    assert_eq!(err.message(), "process spawn failed: vxn run spawn failed: no such file");
    assert_eq!(s.start(Ok(7)).unwrap(), 7);
    assert!(s.check_start().is_err());
    let err = s.start(Ok(8)).unwrap_err();
    assert_eq!(err.message(), "process spawn failed: vxn sandbox already running");
    assert_eq!(s.child, Some(7));
}

#[test]
fn waiting_takes_the_child_over_and_keeps_the_exit_code() {
    let mut c = config(NetworkMode::Allow, "echo", &[]);
    c.timeout_sec = Some(3);
    let mut s = VxnSandbox::new(&c, &plain_host()).unwrap();
    let err = s.begin_wait().unwrap_err();
    assert_eq!(err.message(), "process spawn failed: no vxn child process");
    s.start(Ok(7)).unwrap();
    assert_eq!(s.begin_wait().unwrap(), WaitStart::Await { pid: 7, limit: Some(3) });
    assert_eq!(s.child, None);
    assert_eq!(s.finish_wait(WaitOutcome::Exited(Some(4))).unwrap(), 4);
    assert_eq!(s.begin_wait().unwrap(), WaitStart::Exited(4));
    assert_eq!(s.try_wait(PollOutcome::Failed("gone".to_owned())).unwrap(), Some(4));
    assert_eq!(s.destroy(), None);
    assert_eq!(s.exit_code, Some(4));
}

#[test]
fn failed_waits_are_reported() {
    let mut s = VxnSandbox::new(&config(NetworkMode::Allow, "echo", &[]), &plain_host()).unwrap();
    let err = s.finish_wait(WaitOutcome::JoinFailed("panicked".to_owned())).unwrap_err();
    assert_eq!(err.message(), "isolation setup failed: vxn wait join: panicked");
    let err = s.finish_wait(WaitOutcome::WaitFailed("no child".to_owned())).unwrap_err();
    assert_eq!(err.message(), "io error: no child");
    assert_eq!(s.exit_code, None);
    assert_eq!(s.finish_wait(WaitOutcome::Exited(None)).unwrap(), -1);
}

#[test]
fn polling_reaps_the_child() {
    let mut s = VxnSandbox::new(&config(NetworkMode::Allow, "echo", &[]), &plain_host()).unwrap();
    assert_eq!(s.poll_target(), None);
    assert!(s.try_wait(PollOutcome::Running).is_err());
    s.start(Ok(7)).unwrap();
    assert_eq!(s.poll_target(), Some(7));
    assert_eq!(s.try_wait(PollOutcome::Running).unwrap(), None);
    assert_eq!(
        s.try_wait(PollOutcome::Failed("bad".to_owned())).unwrap_err().message(),
        "io error: bad"
    );
    assert_eq!(s.child, Some(7));
    assert_eq!(s.try_wait(PollOutcome::Exited(None)).unwrap(), Some(-1));
    assert_eq!(s.child, None);
    assert_eq!(s.poll_target(), None);
}

#[test]
fn destroying_twice_kills_once() {
    let mut s = VxnSandbox::new(&config(NetworkMode::Allow, "echo", &[]), &plain_host()).unwrap();
    s.start(Ok(7)).unwrap();
    assert_eq!(s.destroy(), Some(7));
    assert_eq!(s.exit_code, Some(-1));
    assert_eq!(s.destroy(), None);
    assert_eq!(s.exit_code, Some(-1));
    assert_eq!(s.child, None);
}

#[test]
fn timeouts_escalate_from_term_to_kill() {
    let first = escalate(WaitPhase::Running);
    assert_eq!(
        first,
        Escalation { signal: Signal::Terminate, limit: Some(5), next: Some(WaitPhase::Terminating) }
    );
    assert_eq!(
        escalate(first.next.unwrap()),
        Escalation { signal: Signal::Kill, limit: None, next: None }
    );
}

#[test]
fn terminated_child_has_its_grace_period() {
    let mut polls: u64 = 1;
    let mut slept: u64 = 0;
    loop {
        let step = after_poll(polls, false);
        slept += KILL_POLL_MS;
        match step {
            KillStep::SleepThenPoll => polls += 1,
            KillStep::SleepThenKill => break,
            KillStep::Done => panic!("the child has not exited"),
        }
    }
    assert_eq!(polls, KILL_GRACE_POLLS);
    assert_eq!(slept, KILL_GRACE_SEC * 1000);
    assert_eq!(after_poll(1, true), KillStep::Done);
    assert_eq!(after_poll(KILL_GRACE_POLLS, true), KillStep::Done);
}
