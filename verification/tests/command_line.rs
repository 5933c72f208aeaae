//! Agents, the daemon, and what is shown to the user.

use axis::agents::{
    after_install, agent_step, agent_subcommand, axis_root, backup_path, bundled_agents,
    child_exit, install_arguments, install_prompt, install_step, installed_name, known_agent,
    known_agents, leads_into_axis, powershell_command, removal, wrapper_name, AfterInstall, AgentStep, ChildEnd,
    InstallStep, KnownAgent,
};
use axis::ipc::{
    connect_error, daemon_address, exec_exit_code, find_workspace, read_reply, receive_reply,
    reply_of, reply_outcome, request_line, sandboxes_dir, socket_path, ListedSandbox, Reply, Request,
};
use axis::json::{parse_json, Json};
use axis::policy::{
    default_priority, default_weight, FilesystemPolicy, GpuPolicy, GpuTransport, InferencePolicy,
    NetworkMode, NetworkPolicy, Policy, Priority, ProcessPolicy, RuntimePolicy, RuntimeProvider,
    SshPolicy,
};
use axis::report::{policy_summary, tail_lines};
use axis::vxn::forwarded_variables;
use serde_json::Value;

fn strings(list: &[&str]) -> Vec<String> {
    list.iter().map(|s| (*s).to_owned()).collect()
}

#[test]
fn agents_are_known_by_their_binaries() {
    let mut agents = bundled_agents();
    for (binary, install) in [
        ("codex", Some("codex")),
        ("openclaw", Some("openclaw")),
        ("ironclaw", Some("ironclaw")),
        ("aider", Some("aider")),
        ("goose", Some("goose")),
        ("gemini", Some("gemini-cli")),
        ("opencode", Some("opencode")),
        ("nobody", None),
    ] {
        assert_eq!(known_agent(&agents, binary), install, "{binary}");
    }
    agents.push(KnownAgent { binary: "nobody".to_owned(), install: "somebody".to_owned() });
    agents.push(KnownAgent { binary: "codex".to_owned(), install: "other".to_owned() });
    assert_eq!(known_agent(&agents, "nobody"), Some("somebody"));
    assert_eq!(known_agent(&agents, "codex"), Some("codex"));
}

#[test]
fn first_words_name_agents() {
    assert_eq!(agent_subcommand(&strings(&["axis"])), None);
    assert_eq!(agent_subcommand(&strings(&["axis", "--help"])), None);
    for builtin in [
        "create", "exec", "destroy", "list", "logs", "run", "install", "uninstall", "policy",
        "model", "inference", "__axis-pty-bridge", "help",
    ] {
        assert_eq!(agent_subcommand(&strings(&["axis", builtin])), None, "{builtin}");
    }
    assert_eq!(agent_subcommand(&strings(&["axis", "codex", "-p"])), Some("codex".to_owned()));
    assert_eq!(wrapper_name("codex", false), "codex");
    assert_eq!(wrapper_name("codex", true), "codex.cmd");
    let agents = bundled_agents();
    assert_eq!(agent_step(&agents, "codex", true), AgentStep::RunWrapper);
    assert_eq!(agent_step(&agents, "codex", false), AgentStep::OfferInstall);
    assert_eq!(agent_step(&agents, "nobody", false), AgentStep::NotAnAgent);
    assert_eq!(agent_step(&agents, "nobody", true), AgentStep::RunWrapper);
}

#[test]
fn installation_is_offered() {
    assert_eq!(
        install_prompt("gemini", "gemini-cli"),
        "'gemini' is not installed. Install it with AXIS sandbox protection?\n\n  This will:\n    - Install gemini to ~/.axis/tools/gemini-cli/\n    - Create a sandboxed wrapper at ~/.axis/bin/gemini\n    - Apply default-deny network + filesystem policy\n\nInstall gemini? [Y/n] "
    );
    for yes in ["", "\n", " y\r\n", "Y", "yes", "YeS\n"] {
        assert_eq!(install_step(Some(yes)), InstallStep::Install, "{yes}");
    }
    for no in ["n", "no", "yess", "y y", "\u{3b3}"] {
        assert_eq!(install_step(Some(no)), InstallStep::Decline, "{no}");
    }
    assert_eq!(install_step(None), InstallStep::Exit(1));

    let ended = |success, code| ChildEnd::Ended { success, code };
    assert_eq!(after_install(ChildEnd::NotStarted, true), AfterInstall::FallThrough);
    assert_eq!(after_install(ended(false, Some(3)), true), AfterInstall::Exit(3));
    assert_eq!(after_install(ended(false, None), true), AfterInstall::Exit(1));
    assert_eq!(after_install(ended(true, Some(0)), true), AfterInstall::RunWrapper);
    assert_eq!(after_install(ended(true, Some(0)), false), AfterInstall::WrapperMissing);
    assert_eq!(child_exit(ChildEnd::NotStarted), None);
    assert_eq!(child_exit(ended(true, Some(0))), Some(0));
    assert_eq!(child_exit(ended(false, None)), Some(1));
}

#[test]
fn install_scripts_get_their_arguments() {
    let two = strings(&["codex", "aider"]);
    let none: Vec<String> = Vec::new();
    assert_eq!(install_arguments(false, true, true, &two), strings(&["--list"]));
    assert_eq!(install_arguments(true, false, true, &two), strings(&["--use-system", "--all"]));
    assert_eq!(install_arguments(false, false, false, &none), strings(&["--help"]));
    assert_eq!(
        install_arguments(true, false, false, &two),
        strings(&["--use-system", "codex", "aider"])
    );
    assert_eq!(powershell_command("s.ps1", true, true, &two), "& 's.ps1' -List");
    assert_eq!(powershell_command("s.ps1", false, true, &two), "& 's.ps1' -All");
    assert_eq!(powershell_command("s.ps1", false, false, &none), "& 's.ps1'");
    assert_eq!(
        powershell_command("s.ps1", false, false, &two),
        "& 's.ps1' -Agents @('codex','aider')"
    );
}

#[test]
fn axis_keeps_its_files_below_the_user() {
    let root = |windows, home, local, profile| {
        let r = axis_root(windows, home, local, profile);
        (r.base, r.name)
    };
    assert_eq!(root(false, Some("/home/u"), None, None), ("/home/u".to_owned(), ".axis"));
    assert_eq!(root(false, None, Some("x"), None), ("/tmp".to_owned(), ".axis"));
    assert_eq!(root(true, Some("h"), Some("L"), Some("P")), ("L".to_owned(), "axis"));
    assert_eq!(root(true, Some("h"), None, Some("P")), ("P".to_owned(), "axis"));
    assert_eq!(root(true, None, None, None), ("C:\\Users\\Public".to_owned(), "axis"));
}

#[test]
fn agents_are_removed_with_everything_they_left() {
    let agents = bundled_agents();
    let r = removal(&agents, "gemini");
    assert_eq!(r.wrappers, strings(&["gemini", "gemini.cmd", "gemini.ps1"]));
    assert_eq!(r.tool, "gemini-cli");
    assert_eq!(r.state, "agent-gemini-cli");
    assert_eq!(removal(&agents, "mine").state, "agent-mine");
    for (file, name) in [
        ("codex", "codex"),
        ("codex.cmd", "codex"),
        ("codex.ps1", "codex"),
        (".cmd", ""),
        ("codex.cmd.ps1", "codex.cmd"),
        ("cmd", "cmd"),
    ] {
        assert_eq!(installed_name(file), name);
    }
    assert_eq!(backup_path("/home/u/.codex"), "/home/u/.codex.axis-backup");
    assert!(leads_into_axis("/home/u/.axis/agents/a"));
    assert!(!leads_into_axis("/home/u/axis"));
}

#[test]
fn daemon_is_found() {
    assert_eq!(socket_path(Some("/s"), Some("/run")), "/s");
    assert_eq!(socket_path(None, Some("/run/user/1000")), "/run/user/1000/axis/axisd.sock");
    assert_eq!(socket_path(None, Some("/run/")), "/run/axis/axisd.sock");
    assert_eq!(socket_path(None, None), "/tmp/axis-axisd.sock");
    assert_eq!(daemon_address(None), "127.0.0.1:18516");
    assert_eq!(daemon_address(Some("h:1")), "h:1");
    assert_eq!(
        connect_error("/s", "refused"),
        "cannot connect to axisd at /s: refused\nIs the daemon running? Start it with: axisd"
    );
}

#[test]
fn daemon_replies_are_read() {
    let reply = |success: Option<bool>, error: Option<&str>| Reply {
        success,
        error: error.map(str::to_owned),
        sandbox_id: Some("s".to_owned()),
        exit_code: None,
        sandboxes: None,
    };
    let granted = reply_outcome(reply(Some(true), Some("x")), "unknown error").unwrap();
    assert_eq!(granted.sandbox_id.as_deref(), Some("s"));
    assert_eq!(reply_outcome(reply(Some(false), Some("x")), "unknown error").unwrap_err(), "x");
    assert_eq!(reply_outcome(reply(None, None), "unknown error").unwrap_err(), "unknown error");
    assert_eq!(exec_exit_code(None), 0);
    assert_eq!(exec_exit_code(Some(7)), 7);
    assert_eq!(exec_exit_code(Some(-1)), -1);
    assert_eq!(exec_exit_code(Some((1 << 32) + 5)), 5);
}

#[test]
fn requests_are_lines_of_json() {
    let text = |s: &str| Value::from(s);
    let list = |items: &[&str]| Value::from(strings(items));
    let object = |fields: Vec<(&str, Value)>| {
        Value::Object(fields.into_iter().map(|(k, v)| (k.to_owned(), v)).collect())
    };
    let yaml = "version: 1\nname: \"t\"\n";
    let odd = ["", "a b", "\"q\"\\", "\n\r\t\u{1}", "\u{e4}\u{1f600}"];
    for args in [&odd[..0], &odd[..1], &odd[..]] {
        for (request, value) in [
            (
                Request::Create {
                    policy_yaml: yaml.to_owned(),
                    command: "run\n".to_owned(),
                    args: strings(args),
                },
                object(vec![
                    ("type", text("create")),
                    ("policy_yaml", text(yaml)),
                    ("command", text("run\n")),
                    ("args", list(args)),
                    ("env", list(&[])),
                ]),
            ),
            (
                Request::Exec {
                    sandbox_id: "s".to_owned(),
                    command: "c".to_owned(),
                    args: strings(args),
                },
                object(vec![
                    ("type", text("exec")),
                    ("sandbox_id", text("s")),
                    ("command", text("c")),
                    ("args", list(args)),
                ]),
            ),
            (
                Request::Destroy { sandbox_id: "s\"".to_owned() },
                object(vec![("type", text("destroy")), ("sandbox_id", text("s\""))]),
            ),
            (Request::List, object(vec![("type", text("list"))])),
        ] {
            let line = request_line(&request);
            assert_eq!(line, format!("{}\n", serde_json::to_string(&value).unwrap()));
            assert_eq!(line.matches('\n').count(), 1);
            let read = parse_json(&line).unwrap();
            for (name, field) in value.as_object().unwrap() {
                match read.member(name).unwrap() {
                    Json::Text(s) => assert_eq!(field.as_str(), Some(s.as_str())),
                    Json::List(items) => {
                        let items: Vec<_> = items.iter().map(|i| i.as_text().unwrap()).collect();
                        assert_eq!(*field, Value::from(items));
                    }
                    other => panic!("{other:?}"),
                }
            }
            assert!(read.member("other").is_none());
        }
    }
}

#[test]
fn json_is_taken_apart() {
    let line = r#"{"n":null,"b":true,"w":7,"s":-7,"f":1.5,"big":18446744073709551615,"t":"x","l":[[],{"k":"v"}]}"#;
    let v = parse_json(line).unwrap();
    assert!(matches!(v.member("n"), Some(Json::Null)));
    let of = |name: &str| v.member(name).unwrap();
    assert_eq!(of("b").as_bool(), Some(true));
    assert_eq!((of("w").as_whole(), of("w").as_signed()), (Some(7), Some(7)));
    assert_eq!((of("s").as_whole(), of("s").as_signed()), (None, Some(-7)));
    assert_eq!((of("f").as_whole(), of("f").as_signed()), (None, None));
    assert_eq!((of("big").as_whole(), of("big").as_signed()), (Some(u64::MAX), None));
    assert_eq!(of("t").as_text().as_deref(), Some("x"));
    assert_eq!(of("t").as_bool(), None);
    assert_eq!(of("b").as_text(), None);
    assert!(of("l").member("k").is_none());
    match of("l") {
        Json::List(items) => {
            assert_eq!(items.len(), 2);
            assert_eq!(items[1].member("k").and_then(Json::as_text).as_deref(), Some("v"));
        }
        other => panic!("{other:?}"),
    }
}

#[test]
fn replies_are_read_out_of_values() {
    let text = |s: &str| Json::Text(s.to_owned());
    let object = |members: Vec<(&str, Json)>| {
        Json::Object(members.into_iter().map(|(k, v)| (k.to_owned(), v)).collect())
    };
    let number = |n: i64| Json::Number { whole: u64::try_from(n).ok(), signed: Some(n) };
    let reply = reply_of(&object(vec![
        ("success", Json::Bool(true)),
        ("error", text("e")),
        ("data", object(vec![("sandbox_id", text("s-1")), ("exit_code", number(-3))])),
    ]));
    assert_eq!(reply.success, Some(true));
    assert_eq!(reply.error.as_deref(), Some("e"));
    assert_eq!(reply.sandbox_id.as_deref(), Some("s-1"));
    assert_eq!(reply.exit_code, Some(-3));
    assert!(reply.sandboxes.is_none());

    let reply = reply_of(&object(vec![
        ("sandbox_id", text("outside")),
        ("data", Json::List(vec![object(vec![("id", text("a")), ("pid", number(7))]), Json::Null])),
    ]));
    assert!(reply.success.is_none() && reply.sandbox_id.is_none() && reply.exit_code.is_none());
    let all = reply.sandboxes.unwrap();
    assert_eq!(all.len(), 2);
    assert_eq!((all[0].id.as_deref(), all[0].pid), (Some("a"), Some(7)));
    assert!(all[0].status.is_none() && all[0].workspace.is_none());
    assert!(all[1].id.is_none());

    let bare = reply_of(&Json::Null);
    assert!(bare.success.is_none() && bare.error.is_none() && bare.sandboxes.is_none());
}

#[test]
fn reply_lines_are_json() {
    let line = r#"{"success":true,"data":{"sandbox_id":"s-1","exit_code":-3}}"#;
    let reply = read_reply(line, "unknown error").unwrap();
    assert_eq!(reply.sandbox_id.as_deref(), Some("s-1"));
    assert_eq!(exec_exit_code(reply.exit_code), -3);
    assert!(reply.sandboxes.is_none());

    let line = r#"{"success":true,"data":[{"id":"a","status":"Running","pid":7,"workspace":"/w"},{}]}"#;
    let all = receive_reply(line).unwrap().sandboxes.unwrap();
    assert_eq!(all.len(), 2);
    assert_eq!(all[0].id.as_deref(), Some("a"));
    assert_eq!(all[0].status.as_deref(), Some("Running"));
    assert_eq!(all[0].pid, Some(7));
    assert_eq!(all[0].workspace.as_deref(), Some("/w"));
    assert!(all[1].id.is_none() && all[1].pid.is_none());

    let refused = r#"{"success":false,"error":"no such sandbox"}"#;
    assert_eq!(read_reply(refused, "unknown error").unwrap_err(), "no such sandbox");
    assert_eq!(receive_reply(refused).unwrap().success, Some(false));
    assert_eq!(read_reply("{}", "unknown error").unwrap_err(), "unknown error");
    assert_eq!(read_reply("[true]", "unknown").unwrap_err(), "unknown");
    assert_eq!(read_reply(r#"{"success":"true"}"#, "unknown").unwrap_err(), "unknown");
    for broken in ["", "{", "not json"] {
        let expected = serde_json::from_str::<serde_json::Value>(broken).unwrap_err().to_string();
        assert_eq!(read_reply(broken, "unknown").unwrap_err(), expected, "{broken}");
        assert_eq!(receive_reply(broken).unwrap_err(), expected, "{broken}");
    }
}

#[test]
fn further_agents_are_registered() {
    let agents = known_agents("# comment\n  mine = my-agent \n\nbroken\n= x\ncodex=other\na=b=c\n");
    assert_eq!(agents.len(), bundled_agents().len() + 2);
    assert_eq!(known_agent(&agents, "mine"), Some("my-agent"));
    assert_eq!(known_agent(&agents, "codex"), Some("codex"));
    assert_eq!(known_agent(&agents, "broken"), None);
    assert_eq!(agent_step(&agents, "mine", false), AgentStep::OfferInstall);
    assert_eq!(removal(&agents, "mine").state, "agent-my-agent");
}

#[test]
fn logs_are_found_by_the_start_of_an_id() {
    let entry = |id: Option<&str>, ws: Option<&str>| ListedSandbox {
        id: id.map(str::to_owned),
        status: None,
        pid: None,
        workspace: ws.map(str::to_owned),
    };
    let list = vec![
        entry(None, Some("/0")),
        entry(Some("abc"), None),
        entry(Some("abd"), Some("/2")),
        entry(Some("abde"), Some("/3")),
    ];
    assert_eq!(find_workspace(&list, "abd"), Some("/2".to_owned()));
    assert_eq!(find_workspace(&list, "ab"), None);
    assert_eq!(find_workspace(&list, "abde"), Some("/3".to_owned()));
    assert_eq!(find_workspace(&list, "x"), None);
    assert_eq!(sandboxes_dir(Some("/home/u"), false), "/home/u/.local/share/axis/sandboxes");
    assert_eq!(sandboxes_dir(None, false), "/tmp/axis/sandboxes");
}

#[test]
fn logs_show_their_last_lines() {
    for content in ["", "a", "a\n", "a\r\nb\r\n\r\nc\r", "\n\n", "a\nb\nc\nd"] {
        let all: Vec<&str> = content.lines().collect();
        for tail in 0..6 {
            let start = all.len().saturating_sub(tail);
            assert_eq!(tail_lines(content, tail), strings(&all[start..]), "{content:?} {tail}");
        }
    }
}

#[test]
fn policies_are_summarized() {
    let mut policy = Policy {
        version: 1,
        name: "p".into(),
        runtime: RuntimePolicy { provider: RuntimeProvider::Vxn, ..RuntimePolicy::default() },
        filesystem: FilesystemPolicy {
            read_only: strings(&["/usr", "/lib"]),
            ..FilesystemPolicy::default()
        },
        process: ProcessPolicy::default(),
        network: NetworkPolicy { mode: NetworkMode::Block, policies: Vec::new() },
        inference: InferencePolicy::default(),
        gpu: GpuPolicy::default(),
        ssh: SshPolicy::default(),
        amd: None,
    };
    assert_eq!(
        policy_summary(&policy),
        strings(&[
            "Policy 'p' is valid.",
            "  Runtime: process via vxn",
            "  Filesystem: 2 read-only, 0 read-write, 0 deny paths",
            "  Process: max 32 processes, 8192MB memory, 80% CPU",
            "  Network: Block mode, 0 endpoint policies",
            "  Inference: 0 routes",
        ])
    );
    policy.gpu.enabled = true;
    policy.gpu.device = 1;
    policy.gpu.transport = GpuTransport::Tcp;
    assert_eq!(
        policy_summary(&policy)[6],
        "  GPU: device=1, transport=Tcp, vram_limit=unlimited"
    );
    policy.gpu.vram_limit_mb = Some(1024);
    assert_eq!(
        policy_summary(&policy)[6],
        "  GPU: device=1, transport=Tcp, vram_limit=1024MB"
    );
    assert_eq!(default_weight(), 1);
    assert_eq!(default_priority(), Priority::Background);
}

#[test]
fn forwarded_variables_are_those_that_are_set() {
    assert_eq!(
        forwarded_variables(
            &strings(&["A", "B", "C"]),
            &vec![Some("1".to_owned()), None, Some(String::new())]
        ),
        vec![("A".to_owned(), "1".to_owned()), ("C".to_owned(), String::new())]
    );
}
