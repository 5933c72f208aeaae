//! Running a sandbox without the daemon.

use axis::backend::Platform;
use axis::config::ConnectAttributionStore;
use axis::policy::{
    FilesystemPolicy, GpuPolicy, InferencePolicy, NetworkMode, NetworkPolicy, Policy,
    ProcessPolicy, RuntimePolicy, RuntimeProvider, SshPolicy,
};
use axis::sandbox_error::SandboxId;
use axis::socket_address::parse;
use axis::standalone::{
    append_dir, collect_standalone_sandbox_env_from, configured_standalone_inference_endpoint,
    discover_runtime_dirs, extend_path, interactive_exit_code, is_collected_sandbox_env_key, is_quiet,
    proxy_bind_addr_for_sandbox, resolve_builtin_policy, standalone_proxy_config_for_sandbox,
    BuiltinPolicy, EndpointSetting, InteractiveEnd, RuntimeFinds, RuntimeHints,
};

fn id() -> SandboxId {
    SandboxId("00000000-0000-4000-8000-000000000001".to_owned())
}

fn test_policy(runtime_provider: RuntimeProvider, network_mode: NetworkMode) -> Policy {
    let runtime = RuntimePolicy { provider: runtime_provider, ..Default::default() };
    Policy {
        version: 1,
        name: "test-policy".into(),
        runtime,
        filesystem: FilesystemPolicy::default(),
        process: ProcessPolicy::default(),
        network: NetworkPolicy { mode: network_mode, policies: Vec::new() },
        inference: InferencePolicy::default(),
        gpu: GpuPolicy::default(),
        ssh: SshPolicy::default(),
        amd: None,
    }
}

#[test]
fn policy_resolver_supports_builtins_files_and_missing_names() {
    for (name, policy) in [
        ("minimal", BuiltinPolicy::Minimal),
        ("coding-agent", BuiltinPolicy::CodingAgent),
        ("gpu-agent", BuiltinPolicy::GpuAgent),
        ("vxn", BuiltinPolicy::Vxn),
    ] {
        assert_eq!(resolve_builtin_policy(Some(name), name), Ok(policy));
    }

    let error = resolve_builtin_policy(Some("missing-policy"), "missing-policy").unwrap_err();
    assert!(error.contains("policy 'missing-policy' not found"));
    assert_eq!(
        error,
        "policy 'missing-policy' not found; use a file path or one of: minimal, coding-agent, gpu-agent, vxn"
    );
    assert_eq!(
        resolve_builtin_policy(None, "odd\u{fffd}"),
        Err("policy path is not valid UTF-8: odd\u{fffd}".to_owned())
    );
}

#[test]
fn standalone_proxy_planning_covers_backend_and_network_mode_matrix() {
    let loopback = "127.0.0.1:0";
    let isolated = "10.200.0.1:0";

    for provider in [RuntimeProvider::Auto, RuntimeProvider::Mxc, RuntimeProvider::AxisNative] {
        for mode in [NetworkMode::Block, NetworkMode::Allow, NetworkMode::Proxy] {
            for platform in [Platform::Linux, Platform::Macos, Platform::Windows] {
                let policy = test_policy(provider, mode);
                let bind_addr = proxy_bind_addr_for_sandbox(&platform, &policy, 0, isolated);
                let proxy_config =
                    standalone_proxy_config_for_sandbox(
                        &platform, id(), policy, None, None, isolated,
                    );

                if matches!(mode, NetworkMode::Proxy) {
                    if matches!(platform, Platform::Linux) {
                        assert_eq!(
                            bind_addr, isolated,
                            "provider {provider:?} must use strict Linux proxy addressing"
                        );
                        assert_ne!(
                            bind_addr, loopback,
                            "provider {provider:?} must not weaken Linux proxy isolation"
                        );
                    } else {
                        assert_eq!(
                            bind_addr, loopback,
                            "provider {provider:?} must keep the native platform proxy address"
                        );
                    }

                    let config = proxy_config.expect("proxy mode should plan an inline proxy");
                    assert_eq!(config.sandbox_id.0, id().0);
                    assert_eq!(config.bind_addr, bind_addr);
                    assert!(config.enable_leak_detection);
                    assert!(!config.enable_identity_diagnostics);
                    assert!(config.inference_endpoint.is_none());
                } else {
                    assert_eq!(
                        bind_addr, loopback,
                        "provider {provider:?} mode {mode:?} must keep loopback"
                    );
                    assert!(
                        proxy_config.is_none(),
                        "provider {provider:?} mode {mode:?} must not plan a proxy"
                    );
                }
            }
        }
    }
}

#[test]
fn standalone_proxy_keeps_host_inference_endpoint_out_of_policy_data() {
    let policy = test_policy(RuntimeProvider::Mxc, NetworkMode::Proxy);
    let endpoint = "127.0.0.1:8080".to_owned();

    let config = standalone_proxy_config_for_sandbox(
        &Platform::Linux,
        id(),
        policy,
        Some(endpoint.clone()),
        None,
        "10.200.0.1:0",
    )
    .unwrap();

    assert_eq!(config.inference_endpoint, Some(endpoint));
    assert!(config.policy.inference.routes.is_empty());
}

#[test]
fn standalone_env_collection_omits_provider_secrets_and_proxy_vars() {
    let env = collect_standalone_sandbox_env_from(
        vec![
            ("PATH".into(), "/bin".into()),
            ("ANTHROPIC_API_KEY".into(), "secret".into()),
            ("OPENAI_API_KEY".into(), "secret".into()),
            ("ANTHROPIC_BASE_URL".into(), "https://api.example".into()),
            ("AXIS_INFERENCE_ENDPOINT".into(), "127.0.0.1:8080".into()),
            ("All_Proxy".into(), "http://proxy-with-creds".into()),
            ("UNRELATED".into(), "value".into()),
        ],
        |key: &String| is_collected_sandbox_env_key(key),
    );

    assert_eq!(
        env,
        vec![
            ("PATH".into(), "/bin".into()),
            ("ANTHROPIC_BASE_URL".into(), "https://api.example".into()),
        ]
    );
}

#[test]
fn collection_goes_by_the_names_alone() {
    assert!(is_collected_sandbox_env_key("Path"));
    assert!(!is_collected_sandbox_env_key("anthropic_base_url"));
    assert!(!is_collected_sandbox_env_key("PATHEXT"));
    let all = collect_standalone_sandbox_env_from(
        vec![("A".to_owned(), "1".to_owned()), ("B".to_owned(), "2".to_owned())],
        |key: &String| key == "B",
    );
    assert_eq!(all, vec![("B".to_owned(), "2".to_owned())]);
}

#[test]
fn search_path_is_extended_once_and_without_regard_to_case() {
    let dirs = vec![
        "C:\\Program Files\\nodejs".to_owned(),
        "C:\\Users\\\u{c4}nne\\bin".to_owned(),
        "C:\\Program Files\\Git\\bin".to_owned(),
    ];
    let mut env = vec![
        ("HOME".to_owned(), "x".to_owned()),
        ("Path".to_owned(), "c:\\program files\\NODEJS;c:\\users\\\u{e4}NNE\\BIN".to_owned()),
        ("PATH".to_owned(), "other".to_owned()),
    ];
    extend_path(&mut env, &dirs);
    assert_eq!(
        env[1].1,
        "c:\\program files\\NODEJS;c:\\users\\\u{e4}NNE\\BIN;C:\\Program Files\\Git\\bin"
    );
    assert_eq!(env[0].1, "x");
    assert_eq!(env[2].1, "other");

    let mut none = vec![("HOME".to_owned(), "x".to_owned())];
    extend_path(&mut none, &dirs);
    assert_eq!(none, vec![("HOME".to_owned(), "x".to_owned())]);

    assert_eq!(append_dir("a".to_owned(), "B", "a", "b"), "a;B");
    assert_eq!(append_dir("a;B".to_owned(), "b", "a;b", "b"), "a;B");
}

#[test]
fn runtime_directories_are_found_in_order() {
    let hints = RuntimeHints {
        nvm_home: Some("N:\\nvm".to_owned()),
        nvm_symlink: None,
        local_appdata: Some("L".to_owned()),
    };
    let all = RuntimeFinds {
        program_files_node: true,
        nvm_symlink_node: true,
        nvm_home_node: true,
        volta_node: true,
        store_python: false,
        store_python3: true,
        program_files_git: true,
    };
    assert_eq!(
        discover_runtime_dirs(true, &hints, &all),
        vec![
            "C:\\Program Files\\nodejs",
            "N:\\nvm",
            "L\\Volta\\bin",
            "L\\Microsoft\\WindowsApps",
            "C:\\Program Files\\Git\\bin",
        ]
    );
    assert!(discover_runtime_dirs(false, &hints, &all).is_empty());

    let linked = RuntimeHints { nvm_symlink: Some("S".to_owned()), ..hints };
    let only_home = RuntimeFinds {
        program_files_node: false,
        nvm_symlink_node: false,
        volta_node: false,
        store_python3: false,
        program_files_git: false,
        ..all
    };
    assert!(discover_runtime_dirs(true, &linked, &only_home).is_empty());
}

#[test]
fn inference_endpoint_setting_is_checked() {
    assert_eq!(configured_standalone_inference_endpoint(EndpointSetting::Unset), Ok(None));
    assert_eq!(
        configured_standalone_inference_endpoint(EndpointSetting::NotUnicode),
        Err("AXIS_INFERENCE_ENDPOINT must be valid Unicode".to_owned())
    );
    let set = |value: &str| {
        configured_standalone_inference_endpoint(EndpointSetting::Text(value.to_owned()))
    };
    assert_eq!(set("127.0.0.1:8080"), Ok(Some("127.0.0.1:8080".to_owned())));
    assert_eq!(
        set("here"),
        Err("invalid AXIS_INFERENCE_ENDPOINT 'here': invalid socket address syntax".to_owned())
    );
}

#[test]
fn proxy_gets_the_store_of_its_sandbox() {
    let store = ConnectAttributionStore { number: 7 };
    for given in [None, Some(store)] {
        let policy = test_policy(RuntimeProvider::Mxc, NetworkMode::Proxy);
        let config = standalone_proxy_config_for_sandbox(
            &Platform::Linux, id(), policy, None, given, "10.200.0.1:0",
        )
        .unwrap();
        assert_eq!(config.connect_attribution, given);
    }
}

#[test]
fn socket_addresses_are_read() {
    for (text, canonical) in [
        ("127.0.0.1:8080", "127.0.0.1:8080"),
        ("127.0.0.1:0008080", "127.0.0.1:8080"),
        ("0.0.0.0:0", "0.0.0.0:0"),
        ("[::1]:65535", "[::1]:65535"),
        ("[0:0:0:0:0:0:0:1]:80", "[::1]:80"),
        ("[FE80::1%07]:80", "[fe80::1%7]:80"),
        ("[fe80::1%0]:80", "[fe80::1]:80"),
        ("[::%4294967295]:1", "[::%4294967295]:1"),
        ("[::ffff:1.2.3.4]:1", "[::ffff:1.2.3.4]:1"),
    ] {
        assert_eq!(parse(text), Some(canonical.to_owned()), "{text}");
        assert_eq!(parse(canonical), Some(canonical.to_owned()), "{canonical}");
    }
    for text in [
        "",
        "here",
        "127.0.0.1",
        "127.0.0.1:",
        "127.0.0.1:65536",
        "127.0.0.1:99999999999999999999",
        "127.0.0.1:+1",
        "127.0.0.1:1 ",
        " 127.0.0.1:1",
        "127.0.0.01:1",
        "127.0.1:1",
        "localhost:80",
        "::1:80",
        "[::1]",
        "[::1]80",
        "[::1:80",
        "[::1]:",
        "[127.0.0.1]:80",
        "[::1%]:80",
        "[::1%4294967296]:80",
        "[::1%lo]:80",
        "[]:80",
        "[",
    ] {
        assert_eq!(parse(text), None, "{text}");
    }
}

#[test]
fn logging_is_held_back_for_terminal_agents() {
    assert!(is_quiet(true, Some("run"), false));
    assert!(!is_quiet(true, Some("run"), true));
    assert!(!is_quiet(false, Some("run"), false));
    assert!(is_quiet(false, Some("__axis-pty-bridge"), true));
    assert!(!is_quiet(true, Some("list"), false));
    assert!(!is_quiet(true, None, false));
}

#[test]
fn interactive_exit_codes() {
    assert_eq!(interactive_exit_code(InteractiveEnd::Exited(3)), 3);
    assert_eq!(interactive_exit_code(InteractiveEnd::Signalled(15)), 143);
}
