//! Paths, grants and the workspaces of agents.

use axis::grants::{
    expand_managed_home_guard_path, home_suffix, is_allowed_host_temp_grant,
    reject_unmanaged_home_grants, reject_unmanaged_home_grants_for_mxc_managed_home,
    sandbox_tmpdir_path, ManagedHomeGrantGuard,
};
use axis::managed_home::{enter_managed_home, managed_home_error, ssh_dir};
use axis::paths::{
    begin_search, child, finish_search, join_text, normalize_absolute_path,
    path_contains_or_equal, paths_overlap, policy_path_string, push_text, same_path, step_up, unix_path,
    HostPath, PathPart,
};
use axis::policy::{FilesystemPolicy, SshKeySpec, SshPolicy};
use axis::sandbox_env::{
    profile_directories, profile_directory_error, set_managed_home_env, set_windows_profile_env,
    upsert_env,
};
use axis::workspace::{
    agent_workspace_ready, grant_agent_targets, grant_targets, needs_scoped_ssh, next_linked_step,
    prepare_existing_scoped_ssh_for_exec, push_unique_policy_path, remove_policy_path,
    rewrite_read_write_paths_for_agent_targets,
    rewrite_read_write_paths_for_mxc_managed_home_targets, ssh_linked, ssh_prepared, AgentLink,
    LinkedStep, PathLookup,
};

fn parts(path: &str) -> Vec<PathPart> {
    unix_path(path).parts
}

fn path(shown: &str) -> HostPath {
    unix_path(shown)
}

fn odd(shown: &str) -> HostPath {
    HostPath { utf8: false, ..path(shown) }
}

fn show(parts: &[PathPart]) -> String {
    let mut s = String::new();
    for p in parts {
        match p {
            PathPart::Prefix(b) => s.push_str(&String::from_utf8_lossy(b)),
            PathPart::RootDir => s.push('/'),
            PathPart::CurDir => s.push_str("./"),
            PathPart::ParentDir => s.push_str("../"),
            PathPart::Normal(b) => {
                if !s.is_empty() && !s.ends_with('/') {
                    s.push('/');
                }
                s.push_str(&String::from_utf8_lossy(b));
            }
        }
    }
    s
}

fn strings(list: &[&str]) -> Vec<String> {
    list.iter().map(|s| (*s).to_owned()).collect()
}

fn guard() -> ManagedHomeGrantGuard {
    ManagedHomeGrantGuard {
        home: parts("/home/u"),
        agent_root: parts("/home/u/.axis/agents/a"),
        private_setup: parts("/home/u/.axis/agents/a/setup"),
        generated_ssh: parts("/home/u/.axis/agents/a/home/.ssh"),
        workspace: parts("/home/u/work"),
        tmpdir: parts("/home/u/work/.axis-tmp"),
        host_temp: parts("/home/u/tmp"),
    }
}

#[test]
fn paths_are_normalized() {
    for (given, normal) in [
        ("/a/./b/../c", "/a/c"),
        ("/../..", "/"),
        ("/a/../../b", "/b"),
        ("/", "/"),
        ("/a/b", "/a/b"),
    ] {
        let once = normalize_absolute_path(&path(given)).unwrap();
        assert_eq!(show(&once), normal, "{given}");
        let again = normalize_absolute_path(&HostPath { parts: once, ..path(normal) }).unwrap();
        assert_eq!(show(&again), normal, "{given}");
    }
    assert_eq!(
        normalize_absolute_path(&path("a/b")).unwrap_err(),
        "policy path 'a/b' must be absolute after expansion"
    );
    let drive = HostPath {
        parts: vec![
            PathPart::Prefix(b"C:".to_vec()),
            PathPart::RootDir,
            PathPart::ParentDir,
            PathPart::Normal(b"x".to_vec()),
        ],
        ..path("/C")
    };
    assert_eq!(show(&normalize_absolute_path(&drive).unwrap()), "C:/x");
}

#[test]
fn paths_are_compared_by_component() {
    assert!(path_contains_or_equal(&parts("/a/b"), &parts("/a/b")));
    assert!(path_contains_or_equal(&parts("/a"), &parts("/a/b")));
    assert!(!path_contains_or_equal(&parts("/a"), &parts("/ab")));
    assert!(!path_contains_or_equal(&parts("/a/b"), &parts("/a")));
    assert!(paths_overlap(&parts("/a/b"), &parts("/a")));
    assert!(!paths_overlap(&parts("/a/b"), &parts("/a/c")));
    assert!(same_path(&parts("/a//b"), &parts("/a/b/")));
    assert!(!same_path(&parts("/a"), &parts("/a/b")));
}

#[test]
fn missing_paths_are_found_through_their_ancestors() {
    let search = begin_search(&path("/a/x/../b/c")).unwrap();
    assert_eq!(show(&search.existing), "/a/b/c");
    let search = step_up(search).unwrap();
    assert_eq!(show(&search.existing), "/a/b");
    let search = step_up(search).unwrap();
    assert_eq!(show(&search.existing), "/a");
    let found = finish_search(search, path("/real"));
    assert_eq!(show(&found), "/real/b/c");

    let search = step_up(begin_search(&path("/a/./b")).unwrap()).unwrap();
    assert_eq!(show(&finish_search(search, path("/a"))), "/a/b");

    let root = step_up(begin_search(&path("/a")).unwrap()).unwrap();
    assert_eq!(
        step_up(root).unwrap_err(),
        "policy path '/a' has no resolvable ancestor"
    );
    assert!(begin_search(&path("a")).is_err());
}

#[test]
fn policy_paths_are_text() {
    assert_eq!(policy_path_string(&path("/a")), Ok("/a".to_owned()));
    assert_eq!(
        policy_path_string(&odd("/a\u{fffd}")),
        Err("policy path '/a\u{fffd}' is not valid UTF-8".to_owned())
    );
}

#[test]
fn grants_are_expanded() {
    let expand = |p: &str| expand_managed_home_guard_path(p, "/home/u", "/w", false);
    assert_eq!(expand("~"), Ok("/home/u".to_owned()));
    assert_eq!(home_suffix("~/x/y"), Some("x/y".to_owned()));
    assert_eq!(home_suffix("~"), None);
    assert_eq!(expand("~/x"), Ok("/home/u/x".to_owned()));
    assert_eq!(expand("~/"), Ok("/home/u/".to_owned()));
    assert_eq!(expand("~//etc"), Ok("/etc".to_owned()));
    assert_eq!(expand("~/{workspace}"), Ok("/home/u//w".to_owned()));
    assert_eq!(expand("{workspace}/../{tmpdir}"), Ok("/w/..//w/.axis-tmp".to_owned()));
    assert_eq!(expand("/plain"), Ok("/plain".to_owned()));
    assert_eq!(sandbox_tmpdir_path("/w/", false), "/w/.axis-tmp");
    assert_eq!(sandbox_tmpdir_path("C:\\w", true), "C:\\w\\.axis-tmp");
    assert_eq!(
        expand("~root/x"),
        Err("unsupported home path '~root/x': only '~' and '~/' are supported".to_owned())
    );
    assert_eq!(
        expand_managed_home_guard_path("~/x", "C:\\Users\\u", "C:\\w", true),
        Ok("C:\\Users\\u\\x".to_owned())
    );
}

#[test]
fn unix_paths_are_read() {
    for text in [
        "", "/", "//", "a", "a/b", "/a/b", "/a//b/", "./a", "a/./b", ".", "..", "/.", "/..",
        "/./a", "a/../b", "~/x", ".ssh", "/a/...", "/\u{e9}/b", "a\\b",
    ] {
        let read = unix_path(text);
        let std_path = std::path::Path::new(text);
        let expected: Vec<String> = std_path
            .components()
            .map(|c| match c {
                std::path::Component::RootDir => "RootDir".to_owned(),
                std::path::Component::CurDir => "CurDir".to_owned(),
                std::path::Component::ParentDir => "ParentDir".to_owned(),
                std::path::Component::Normal(name) => name.to_str().unwrap().to_owned(),
                std::path::Component::Prefix(_) => unreachable!(),
            })
            .collect();
        let got: Vec<String> = read
            .parts
            .iter()
            .map(|p| match p {
                PathPart::Normal(name) => String::from_utf8(name.clone()).unwrap(),
                other => format!("{other:?}"),
            })
            .collect();
        assert_eq!(got, expected, "{text}");
        assert_eq!(read.absolute, std_path.is_absolute(), "{text}");
        assert_eq!(read.shown, text);
        assert!(read.utf8);
        let named = child(&read, "name", false);
        let again = unix_path(&named.shown);
        assert!(same_path(&named.parts, &again.parts), "{text}");
        assert_eq!(named.absolute, again.absolute);
    }
}

#[test]
fn linked_workspaces_are_made_in_order() {
    let mut ssh = SshPolicy::default();
    for (keys, expected) in [
        (0, vec![LinkedStep::MakeLinks, LinkedStep::Redirect, LinkedStep::GrantTargets]),
        (
            1,
            vec![
                LinkedStep::MakeLinks,
                LinkedStep::Redirect,
                LinkedStep::GrantTargets,
                LinkedStep::LinkSsh,
                LinkedStep::OpenSsh,
            ],
        ),
    ] {
        if keys > 0 {
            ssh.allowed_keys.push(SshKeySpec {
                name: "github".into(),
                private_key: "~/.ssh/id_ed25519".into(),
                allowed_hosts: vec!["github.com".into()],
            });
        }
        let mut done = Vec::new();
        while let Some(step) = next_linked_step(&done, &ssh) {
            done.push(step);
        }
        assert_eq!(done, expected);
    }
}

#[test]
fn paths_are_put_behind_others() {
    for path in ["x/y", "", "/etc", "../x", "C:/x", "./x"] {
        for dir in ["/home/u", "/", "", "/home/u/"] {
            let expected = std::path::Path::new(dir).join(path);
            assert_eq!(push_text(dir, path, false), expected.to_str().unwrap());
        }
    }
    for (dir, path, expected) in [
        ("C:\\Users\\u", "x", "C:\\Users\\u\\x"),
        ("C:\\Users\\u", "D:\\x", "D:\\x"),
        ("C:\\Users\\u", "D:x", "D:x"),
        ("C:\\Users\\u", "\\x", "C:\\x"),
        ("C:\\Users\\u", "/x", "C:/x"),
        ("C:\\Users\\u", "\\\\host\\share\\x", "\\\\host\\share\\x"),
        ("\\\\host\\share\\u", "\\x", "\\\\host\\share\\x"),
        ("\\\\host\\share", "x", "\\\\host\\share\\x"),
        ("u", "\\x", "\\x"),
    ] {
        assert_eq!(push_text(dir, path, true), expected);
    }
}

#[test]
fn grants_into_the_real_home_are_rejected() {
    for (section, granted, expected) in [
        ("read_write", "/home/u/.ssh", Some("real home")),
        ("read_write", "/home/u/.axis/cache", Some("real home")),
        ("read_only", "/home/u/Documents", Some("real home")),
        ("read_write", "/home/u", Some("private agent setup")),
        ("read_only", "/home/u/.axis/agents/a/setup/keys", Some("private agent setup")),
        ("read_write", "/home/u/.axis/agents/a/home/.ssh/id", Some("generated SSH")),
        ("read_only", "/home/u/.axis/agents/a/home/.ssh/id", None),
        ("read_write", "/home/u/.axis/agents/a/codex", None),
        ("read_write", "/home/u/work/x", None),
        ("read_write", "/home/u/work/.axis-tmp", None),
        ("read_write", "/opt", None),
        ("read_write", "/home/u/tmp/x", Some("real home")),
    ] {
        let r = reject_unmanaged_home_grants(
            section,
            &strings(&["~/g"]),
            &vec![Ok(path(granted))],
            &guard(),
            false,
        );
        match expected {
            None => assert_eq!(r, Ok(()), "{granted}"),
            Some(what) => assert_eq!(
                r,
                Err(format!(
                    "MXC managed HOME cannot grant {what} {section} path '~/g' (expanded '{granted}')"
                ))
            ),
        }
    }
    assert!(reject_unmanaged_home_grants(
        "read_write",
        &strings(&["~/g"]),
        &vec![Ok(path("/home/u/tmp/x"))],
        &guard(),
        true
    )
    .is_ok());
    assert!(is_allowed_host_temp_grant(&parts("/home/u/tmp/x"), &guard(), true));
    assert!(!is_allowed_host_temp_grant(&parts("/home/u/tmp/x"), &guard(), false));
    assert_eq!(
        reject_unmanaged_home_grants_for_mxc_managed_home(
            &strings(&["a"]),
            &vec![Err("unreadable".to_owned())],
            &strings(&["b"]),
            &vec![Ok(path("/home/u/.ssh"))],
            &guard(),
            false
        ),
        Err("unreadable".to_owned())
    );
}

#[test]
fn policy_lists_are_changed_in_place() {
    let mut list = strings(&["/a"]);
    push_unique_policy_path(&mut list, &path("/b")).unwrap();
    push_unique_policy_path(&mut list, &path("/b")).unwrap();
    assert_eq!(list, strings(&["/a", "/b"]));
    assert!(push_unique_policy_path(&mut list, &odd("/c")).is_err());
    assert_eq!(list, strings(&["/a", "/b"]));

    let mut deny = strings(&["~/.ssh", "~/.aws", "{workspace}"]);
    let lookups = vec![
        Ok(Some(path("/home/u/.ssh"))),
        Ok(Some(path("/home/u/.aws"))),
        Ok(None),
    ];
    remove_policy_path(&mut deny, &lookups, &path("/home/u//.ssh")).unwrap();
    assert_eq!(deny, strings(&["~/.aws", "{workspace}"]));
    let broken = vec![Ok(None), Err("bad path".to_owned())];
    assert_eq!(remove_policy_path(&mut deny, &broken, &path("/x")), Err("bad path".to_owned()));
    assert!(deny.is_empty());
}

fn lookup(expanded: Option<&str>, mapped: Option<&str>) -> PathLookup {
    PathLookup { expanded: Ok(expanded.map(path)), mapped: Ok(mapped.map(path)) }
}

fn codex_link() -> AgentLink {
    AgentLink { link: path("/home/u/.codex"), target: path("/home/u/.axis/agents/a/codex") }
}

#[test]
fn known_state_is_redirected_and_other_paths_stay() {
    let mut list = strings(&["~/.codex", "~/Documents", "~/.agent", "{workspace}"]);
    let lookups = vec![
        lookup(Some("/home/u/.codex"), None),
        lookup(Some("/home/u/Documents"), None),
        lookup(Some("/home/u/.agent"), Some("/home/u/.axis/agents/a/agent")),
        lookup(None, None),
    ];
    let links =
        rewrite_read_write_paths_for_agent_targets(&mut list, vec![codex_link()], &lookups).unwrap();
    assert_eq!(links.len(), 1);
    assert_eq!(
        list,
        strings(&[
            "/home/u/.axis/agents/a/codex",
            "~/Documents",
            "/home/u/.axis/agents/a/agent",
            "{workspace}",
        ])
    );
    let mapped = vec![
        Ok(Some(path("/home/u/.axis/agents/a/codex"))),
        Ok(None),
        Ok(None),
        Ok(Some(path("/new"))),
    ];
    let links = grant_agent_targets(&mut list, links, &mapped).unwrap();
    assert_eq!(links.len(), 1);
    assert_eq!(list.len(), 5);
    assert_eq!(list[4], "/new");
}

#[test]
fn failed_redirection_hands_the_links_back() {
    let mut list = strings(&["~/.codex", "~/b", "~/.codex"]);
    let lookups = vec![
        lookup(Some("/home/u/.codex"), None),
        PathLookup { expanded: Ok(None), mapped: Err("no home".to_owned()) },
        lookup(Some("/home/u/.codex"), None),
    ];
    let failure =
        rewrite_read_write_paths_for_agent_targets(&mut list, vec![codex_link()], &lookups)
            .unwrap_err();
    assert_eq!(
        failure.error.message(),
        "sandbox creation failed: agent workspace preparation: no home"
    );
    assert_eq!(failure.cleanup.len(), 1);
    assert_eq!(list, strings(&["/home/u/.axis/agents/a/codex", "~/b", "~/.codex"]));

    let failure = grant_agent_targets(
        &mut list,
        vec![codex_link()],
        &vec![Ok(Some(path("/n"))), Ok(Some(odd("/o"))), Ok(Some(path("/p")))],
    )
    .unwrap_err();
    assert_eq!(failure.cleanup.len(), 1);
    assert_eq!(list[3], "/n");
    assert_eq!(list.len(), 4);
    assert!(grant_targets(&mut list, &vec![Err("x".to_owned())]).is_err());

    let failure = agent_workspace_ready(Err("disk full".to_owned())).unwrap_err();
    assert_eq!(
        failure.error.message(),
        "sandbox creation failed: agent workspace preparation: disk full"
    );
    assert!(failure.cleanup.is_empty());
    assert_eq!(agent_workspace_ready(Ok(vec![codex_link()])).unwrap().len(), 1);
}

fn filesystem(read_write: &[&str], deny: &[&str]) -> FilesystemPolicy {
    FilesystemPolicy {
        read_write: strings(read_write),
        deny: strings(deny),
        ..FilesystemPolicy::default()
    }
}

fn ssh_link() -> AgentLink {
    AgentLink { link: path("/home/u/.ssh"), target: path("/home/u/.axis/agents/a/ssh") }
}

#[test]
fn scoped_ssh_is_opened_behind_its_link() {
    let links = ssh_linked(vec![codex_link()], Ok(ssh_link())).unwrap();
    assert_eq!(links.len(), 2);
    let mut fs = filesystem(&[], &["~/.ssh", "~/.aws"]);
    let denied = vec![Ok(Some(path("/home/u/.ssh"))), Ok(Some(path("/home/u/.aws")))];
    let links =
        ssh_prepared(&mut fs, links, Ok(Some(path("/home/u/.axis/agents/a/ssh"))), &denied).unwrap();
    assert_eq!(links.len(), 2);
    assert_eq!(fs.read_write, strings(&["/home/u/.axis/agents/a/ssh"]));
    assert_eq!(fs.deny, strings(&["~/.aws"]));

    let mut same = filesystem(&["/x"], &[]);
    let links = ssh_prepared(&mut same, links, Ok(None), &vec![]).unwrap();
    assert_eq!(same.read_write, strings(&["/x"]));
    let failure =
        ssh_prepared(&mut same, links, Err("no key".to_owned()), &vec![]).unwrap_err();
    assert_eq!(
        failure.error.message(),
        "sandbox creation failed: scoped SSH workspace: no key"
    );
    assert_eq!(failure.cleanup.len(), 2);

    let failure = ssh_linked(
        vec![codex_link()],
        Err("refusing to replace existing ~/.ssh".to_owned()),
    )
    .unwrap_err();
    assert!(failure.error.message().contains("refusing to replace existing ~/.ssh"));
    assert_eq!(failure.cleanup.len(), 1);
}

fn keys() -> SshPolicy {
    SshPolicy {
        allowed_keys: vec![SshKeySpec {
            name: "github".into(),
            private_key: "~/.ssh/id_ed25519".into(),
            allowed_hosts: vec![],
        }],
        ..SshPolicy::default()
    }
}

#[test]
fn joining_a_sandbox_needs_its_ssh_link() {
    let dir = path("/home/u/.axis/agents/a/ssh");
    let denied = vec![Ok(Some(path("/home/u/.ssh")))];
    assert!(needs_scoped_ssh(&keys()));
    assert!(!needs_scoped_ssh(&SshPolicy::default()));

    let mut fs = filesystem(&[], &["~/.ssh"]);
    let link = || Ok(path("/home/u/.ssh"));
    prepare_existing_scoped_ssh_for_exec(&mut fs, &keys(), Ok(true), link(), &dir, &denied).unwrap();
    assert_eq!(fs.read_write, strings(&["/home/u/.axis/agents/a/ssh"]));
    assert!(fs.deny.is_empty());

    let mut fs = filesystem(&[], &["~/.ssh"]);
    let err = prepare_existing_scoped_ssh_for_exec(
        &mut fs, &keys(), Ok(false), link(), &dir, &denied,
    )
    .unwrap_err();
    assert_eq!(
        err.message(),
        "sandbox creation failed: scoped SSH workspace is not prepared for exec"
    );
    let err = prepare_existing_scoped_ssh_for_exec(
        &mut fs, &keys(), Err("io".to_owned()), link(), &dir, &denied,
    )
    .unwrap_err();
    assert_eq!(err.message(), "sandbox creation failed: scoped SSH workspace: io");
    let err = prepare_existing_scoped_ssh_for_exec(
        &mut fs, &keys(), Ok(true), Err("no home".to_owned()), &dir, &denied,
    )
    .unwrap_err();
    assert_eq!(err.message(), "sandbox creation failed: scoped SSH workspace: no home");
    assert_eq!(fs.deny, strings(&["~/.ssh"]));
    prepare_existing_scoped_ssh_for_exec(
        &mut fs, &SshPolicy::default(), Ok(false), link(), &dir, &denied,
    )
    .unwrap();
    assert_eq!(fs.deny, strings(&["~/.ssh"]));
}

#[test]
fn managed_home_is_entered_step_by_step() {
    let mut fs = filesystem(&["~/.codex"], &["~/.ssh"]);
    let home = enter_managed_home(&mut fs, Ok(path("/home/u/.axis/agents/a/home"))).unwrap();
    assert_eq!(fs.read_write, strings(&["~/.codex", "/home/u/.axis/agents/a/home"]));
    let home = home
        .redirect(&mut fs, &vec![Ok(Some(path("/home/u/.axis/agents/a/codex"))), Ok(None)])
        .unwrap();
    assert_eq!(
        fs.read_write,
        strings(&["/home/u/.axis/agents/a/codex", "/home/u/.axis/agents/a/home"])
    );
    let resolved: Vec<Result<HostPath, String>> =
        fs.read_write.iter().map(|p| Ok(path(p))).collect();
    let home = home.check_grants(&fs, &vec![], &resolved, &guard(), false).unwrap();
    assert_eq!(home.path().shown, "/home/u/.axis/agents/a/home");
    let err = home.grant_ssh(&mut fs, Err("no key".to_owned()), false).unwrap_err();
    assert_eq!(
        err.message(),
        "sandbox creation failed: managed home workspace: scoped SSH workspace: no key"
    );
    home.grant_ssh(&mut fs, Ok(()), false).unwrap();
    assert_eq!(fs.read_only, strings(&["/home/u/.axis/agents/a/home/.ssh"]));
    assert_eq!(fs.deny, strings(&["~/.ssh"]));
    let mut env = Vec::new();
    home.set_env(&mut env, false).unwrap();
    assert_eq!(env.len(), 4);
    assert_eq!(env[1].1, "/home/u/.axis/agents/a/home/.config");
    let dir = ssh_dir(&path("/m"), false);
    assert_eq!(dir.shown, "/m/.ssh");
    assert_eq!(show(&dir.parts), "/m/.ssh");
}

#[test]
fn managed_home_with_a_forbidden_grant_never_gets_its_keys() {
    let mut fs = filesystem(&["~/Documents"], &[]);
    let home = enter_managed_home(&mut fs, Ok(path("/home/u/.axis/agents/a/home"))).unwrap();
    let home = home.redirect(&mut fs, &vec![Ok(None), Ok(None)]).unwrap();
    let err = home
        .check_grants(
            &fs,
            &vec![],
            &vec![
                Ok(path("/home/u/Documents")),
                Ok(path("/home/u/.axis/agents/a/home")),
            ],
            &guard(),
            false,
        )
        .unwrap_err();
    assert!(err.message().contains("cannot grant real home read_write path"));

    let err = enter_managed_home(&mut fs, Err("locked".to_owned())).unwrap_err();
    assert_eq!(err.message(), managed_home_error("locked").message());
    assert!(enter_managed_home(&mut fs, Ok(odd("/o"))).is_err());
    let home = enter_managed_home(&mut fs, Ok(path("/h"))).unwrap();
    let err = home
        .redirect(&mut fs, &vec![Ok(None), Ok(None), Err("bad".to_owned())])
        .unwrap_err();
    assert_eq!(err.message(), "sandbox creation failed: managed home workspace: bad");
    let mut list = strings(&["a", "b"]);
    rewrite_read_write_paths_for_mxc_managed_home_targets(
        &mut list,
        &vec![Ok(Some(path("/t"))), Ok(None)],
    )
    .unwrap();
    assert_eq!(list, strings(&["/t", "b"]));
}

fn pair(k: &str, v: &str) -> (String, String) {
    (k.to_owned(), v.to_owned())
}

#[test]
fn variables_are_set_once() {
    let mut env = vec![pair("A", "1"), pair("HOME", "/old"), pair("HOME", "/second")];
    upsert_env(&mut env, "HOME", "/new".to_owned());
    assert_eq!(env, vec![pair("A", "1"), pair("HOME", "/new"), pair("HOME", "/second")]);
    upsert_env(&mut env, "B", "2".to_owned());
    assert_eq!(env[3], pair("B", "2"));

    let mut env = vec![pair("PATH", "/bin"), pair("HOME", "/root"), pair("LANG", "C")];
    set_managed_home_env(&mut env, &path("/h"), false).unwrap();
    assert_eq!(
        env,
        vec![
            pair("PATH", "/bin"),
            pair("HOME", "/h"),
            pair("LANG", "C"),
            pair("XDG_CONFIG_HOME", "/h/.config"),
            pair("XDG_DATA_HOME", "/h/.local/share"),
            pair("XDG_CACHE_HOME", "/h/.cache"),
        ]
    );
    let mut env = Vec::new();
    assert_eq!(
        set_managed_home_env(&mut env, &odd("/m/\u{fffd}"), false),
        Err("policy path '/m/\u{fffd}' is not valid UTF-8".to_owned())
    );
    assert!(env.is_empty());
}

#[test]
fn names_are_joined_to_paths() {
    for (dir, name, windows, whole) in [
        ("/h", ".ssh", false, "/h/.ssh"),
        ("/h/", ".ssh", false, "/h/.ssh"),
        ("", "x", false, "x"),
        ("C:\\h", ".local/share", true, "C:\\h\\.local/share"),
        ("C:\\", "x", true, "C:\\x"),
        ("C:", "x", true, "C:x"),
        ("C:", "x", false, "C:/x"),
        ("/h\\", "x", false, "/h\\/x"),
    ] {
        assert_eq!(join_text(dir, name, windows), whole);
    }
    let below = child(&path("/h"), ".axis-tmp", false);
    assert_eq!((below.shown.as_str(), below.absolute, below.utf8), ("/h/.axis-tmp", true, true));
    assert!(!child(&odd("/h"), "x", false).utf8);
}

#[test]
fn windows_profiles_have_a_drive_and_a_path() {
    let mut env = Vec::new();
    set_windows_profile_env(&mut env, "C:\\m");
    assert_eq!(
        env,
        vec![
            pair("USERPROFILE", "C:\\m"),
            pair("APPDATA", "C:\\m\\AppData\\Roaming"),
            pair("LOCALAPPDATA", "C:\\m\\AppData\\Local"),
            pair("HOMEDRIVE", "C:"),
            pair("HOMEPATH", "\\m"),
        ]
    );
    let mut env = Vec::new();
    set_windows_profile_env(&mut env, "\u{e9}:\\m");
    assert_eq!(env.len(), 3);
    assert_eq!(
        profile_directories("C:\\m"),
        strings(&[
            "C:\\m\\.config",
            "C:\\m\\.local\\share",
            "C:\\m\\.cache",
            "C:\\m\\AppData\\Roaming",
            "C:\\m\\AppData\\Local",
        ])
    );
    assert_eq!(
        profile_directory_error("/d", "denied"),
        "create managed Windows home directory '/d': denied"
    );
}
