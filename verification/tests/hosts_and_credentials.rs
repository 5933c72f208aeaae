//! Hosts, credential paths and credential endpoints.

use axis::credential_path::{
    canonicalize_credential_path, credential_path_contains, credential_paths_overlap,
    validate_url_percent_encoding,
};
use axis::credentials::{check_credential_routes, validate_credential_env_name};
use axis::endpoint::{
    check_credential_endpoint, credential_endpoint_has_placeholder, endpoint_has_placeholder,
    parse_credential_endpoint, UrlParts,
};
use axis::host::canonicalize_network_host;
use axis::ipv6;
use axis::policy::{InferenceRoute, NetworkMode};
use axis::text;
use axis::validation::validate_policy_name_component;

fn route(name: &str, endpoint: Option<&str>, key: Option<&str>) -> InferenceRoute {
    InferenceRoute {
        name: name.to_owned(),
        endpoint: endpoint.map(str::to_owned),
        provider: None,
        model: None,
        api_key_env: key.map(str::to_owned),
        protocols: Vec::new(),
    }
}

fn parts(scheme: &str, host: Option<&str>, port: Option<u16>, path: &str) -> UrlParts {
    UrlParts {
        scheme: scheme.to_owned(),
        host: host.map(str::to_owned),
        port,
        path: path.to_owned(),
        query_pairs: Vec::new(),
        fragment: None,
    }
}

#[test]
fn hosts_have_one_spelling() {
    for (host, canonical) in [
        ("Example.COM", "example.com"),
        ("example.com.", "example.com"),
        ("127.0.0.1", "127.0.0.1"),
        ("[::1]", "::1"),
        ("[::1].", "::1"),
        ("2001:0DB8:0:0::1", "2001:db8::1"),
        ("1:0:0:2:0:0:0:3", "1:0:0:2::3"),
        ("::ffff:192.0.2.1", "::ffff:192.0.2.1"),
        ("1:2:3:4:5:6:1.2.3.4", "1:2:3:4:5:6:102:304"),
        ("300.1.1.1", "300.1.1.1"),
        ("01.2.3.4", "01.2.3.4"),
    ] {
        assert_eq!(canonicalize_network_host(host), Ok(canonical.to_owned()), "{host}");
        assert_eq!(canonicalize_network_host(canonical), Ok(canonical.to_owned()), "{host}");
    }
}

#[test]
fn case_and_one_trailing_dot_do_not_matter_to_a_host() {
    for host in ["Example.COM", "2001:DB8::ABCD", "[FE80::1]", "127.0.0.1", "-Bad", "[]"] {
        let canonical = canonicalize_network_host(host);
        assert_eq!(canonicalize_network_host(&host.to_ascii_lowercase()), canonical, "{host}");
        assert_eq!(canonicalize_network_host(&format!("{host}.")), canonical, "{host}");
    }
    assert!(canonicalize_network_host("example.com..").is_err());
}

#[test]
fn bad_hosts_are_refused() {
    let empty = "network endpoint host must not be empty";
    let long = "network endpoint host must be an ASCII DNS name of at most 253 bytes";
    let name = "network endpoint host is not a valid DNS name";
    let label63 = "a".repeat(63);
    let label64 = "a".repeat(64);
    let fits = [label63.as_str(), &label63, &label63, &"a".repeat(61)].join(".");
    assert_eq!(fits.len(), 253);
    assert!(canonicalize_network_host(&fits).is_ok());
    let too_long = format!("{fits}a");
    for (host, reason) in [
        ("", empty),
        (".", empty),
        ("[]", empty),
        ("b\u{fc}cher.example", long),
        (too_long.as_str(), long),
        (label64.as_str(), name),
        ("a..b", name),
        ("-a", name),
        ("a-", name),
        ("a_b", name),
        ("[a", name),
        (":::1", name),
        ("1:2:3:4:5:6:7", name),
        ("12345::", name),
    ] {
        assert_eq!(canonicalize_network_host(host), Err(reason), "{host}");
    }
}

#[test]
fn addresses_read_back_as_they_are_written() {
    for (groups, shown) in [
        ([0u16, 0, 0, 0, 0, 0, 0, 0], "::"),
        ([0, 0, 0, 0, 0, 0xffff, 0xc000, 0x0201], "::ffff:192.0.2.1"),
        ([1, 0, 0, 2, 3, 0, 0, 4], "1::2:3:0:0:4"),
        ([0x2001, 0xdb8, 0, 1, 0, 0, 0, 0xabcd], "2001:db8:0:1::abcd"),
        ([1, 2, 3, 4, 5, 6, 7, 8], "1:2:3:4:5:6:7:8"),
        ([1, 0, 3, 0, 5, 0, 7, 0], "1:0:3:0:5:0:7:0"),
        ([0, 0, 0, 0, 0, 0, 0xc000, 0x0201], "::c000:201"),
    ] {
        assert_eq!(ipv6::format_address(&groups.to_vec()), shown);
        assert_eq!(ipv6::parse(&text::to_chars(shown)), Some(groups.to_vec()));
    }
}

#[test]
fn address_texts_are_read() {
    for (s, groups) in [
        ("::1", [0u16, 0, 0, 0, 0, 0, 0, 1]),
        ("1::", [1, 0, 0, 0, 0, 0, 0, 0]),
        ("1::8", [1, 0, 0, 0, 0, 0, 0, 8]),
        ("1:2:3:4:5:6:7::", [1, 2, 3, 4, 5, 6, 7, 0]),
        ("::2:3:4:5:6:7:8", [0, 2, 3, 4, 5, 6, 7, 8]),
        ("::FFFF", [0, 0, 0, 0, 0, 0, 0, 0xffff]),
        ("::1.2.3.4", [0, 0, 0, 0, 0, 0, 0x102, 0x304]),
        ("1:2:3:4:5:6:1.2.3.4", [1, 2, 3, 4, 5, 6, 0x102, 0x304]),
    ] {
        assert_eq!(ipv6::parse(&text::to_chars(s)), Some(groups.to_vec()), "{s}");
    }
    for s in [
        "", ":", ":1", "1:", "1:::2", "::1::2", "g::", "00001::", "1:2:3:4::5:6:7:8",
        "1:2:3:4:5:6:7:8:9", "1:2:3:4:5:6:7:8::", "::1:2:3:4:5:6:7:8", "::1.2.3", "::1.2.3.4.5",
        "::256.1.1.1", "::01.1.1.1", "1.2.3.4", "1.2.3.4::", "::ffff:1.2.3.4:5",
        "1:2:3:4:5:6:7:1.2.3.4", "fe80::1%eth0",
    ] {
        assert_eq!(ipv6::parse(&text::to_chars(s)), None, "{s}");
    }
}

#[test]
fn credential_paths_are_brought_into_one_form() {
    for (path, canonical) in [
        ("/", "/"),
        ("/v1/%7euser", "/v1/~user"),
        ("/%76%31", "/v1"),
        ("/v1%2fchat", "/v1%2Fchat"),
        ("/a%2d%2E%5f%7E", "/a-._~"),
        ("/...", "/..."),
        ("/\u{e9}%c3%a9", "/\u{e9}%C3%A9"),
    ] {
        assert_eq!(canonicalize_credential_path(path), Ok(canonical.to_owned()), "{path}");
        assert_eq!(canonicalize_credential_path(canonical), Ok(canonical.to_owned()), "{path}");
    }
    for (path, reason) in [
        ("v1", "credential path must be absolute"),
        ("", "credential path must be absolute"),
        ("/a\\b", "credential path contains a backslash"),
        ("/%", "credential path contains malformed percent encoding"),
        ("/%4", "credential path contains malformed percent encoding"),
        ("/%4g", "credential path contains malformed percent encoding"),
        ("/%g4", "credential path contains malformed percent encoding"),
        ("/%0a", "credential path contains an encoded control byte"),
        ("/%7f", "credential path contains an encoded control byte"),
        ("/%5c", "credential path contains an encoded backslash or nested percent encoding"),
        ("/%25", "credential path contains an encoded backslash or nested percent encoding"),
        ("/a/../b", "credential path contains a dot segment"),
        ("/%2e%2E/b", "credential path contains a dot segment"),
        ("/a/.", "credential path contains a dot segment"),
    ] {
        assert_eq!(canonicalize_credential_path(path), Err(reason), "{path}");
    }
}

#[test]
fn scopes_contain_what_lies_below_them() {
    for (prefix, path, inside) in [
        ("/", "/anything", true),
        ("/v1", "/v1", true),
        ("/v1", "/v1/chat", true),
        ("/v1", "/v10", false),
        ("/v1/", "/v1/chat", true),
        ("/v1/", "/v1", false),
        ("/v1/chat", "/v1", false),
    ] {
        assert_eq!(credential_path_contains(prefix, path), inside, "{prefix} {path}");
    }
    assert!(credential_paths_overlap("/v1/chat", "/v1"));
    assert!(credential_paths_overlap("/v1", "/v1/chat"));
    assert!(!credential_paths_overlap("/v1/chat", "/v1/models"));
}

#[test]
fn percent_triplets_are_checked() {
    assert!(validate_url_percent_encoding("a%20b%fF").is_ok());
    for bad in ["%", "%4", "%4z", "%%41", "a%2"] {
        assert_eq!(
            validate_url_percent_encoding(bad),
            Err("URL text contains malformed percent encoding"),
            "{bad}"
        );
    }
}

#[test]
fn endpoints_are_parsed() {
    let url = parse_credential_endpoint("HTTP://Inference.Local/v1?a=b%20c&d").unwrap();
    assert_eq!(url.scheme, "http");
    assert_eq!(url.host.as_deref(), Some("inference.local"));
    assert_eq!(url.port, Some(80));
    assert_eq!(url.path, "/v1");
    assert_eq!(
        url.query_pairs,
        vec![("a".to_owned(), "b c".to_owned()), ("d".to_owned(), String::new())]
    );
    assert_eq!(url.fragment, None);

    for (endpoint, reason) in [
        ("http:\\\\x", "credential endpoint must not contain a backslash"),
        ("http://x/%zz", "URL text contains malformed percent encoding"),
        ("mailto:x", "credential endpoint is not an absolute URL"),
        ("http://x/a/../b", "credential path contains a dot segment"),
        ("http://x:99999/", "credential endpoint is not a URL"),
        ("ftp://x/", "credential endpoint must use http:// or https://"),
        ("http://x/#f", "credential endpoint must not contain a fragment"),
    ] {
        assert_eq!(parse_credential_endpoint(endpoint).unwrap_err(), reason, "{endpoint}");
    }
}

#[test]
fn parsed_endpoints_are_checked() {
    let none = None;
    assert_eq!(
        check_credential_endpoint("http://x/", &none).unwrap_err(),
        "credential endpoint is not a URL"
    );
    let no_host = Some(parts("http", None, Some(80), "/"));
    assert_eq!(
        check_credential_endpoint("http://x/", &no_host).unwrap_err(),
        "credential endpoint must include a host"
    );
    let dots = Some(parts("https", Some("x"), Some(443), "/.."));
    assert_eq!(
        check_credential_endpoint("https://x", &dots).unwrap_err(),
        "credential path contains a dot segment"
    );
    let fine = Some(parts("https", Some("x"), Some(443), "/"));
    assert_eq!(check_credential_endpoint("https://x?y", &fine).unwrap().path, "/");
}

#[test]
fn placeholders_are_detected() {
    assert!(credential_endpoint_has_placeholder("not a url axis:resolve:env:X"));
    assert!(credential_endpoint_has_placeholder("http://h/?k=axis%3Aresolve%3Aenv%3AX"));
    assert!(!credential_endpoint_has_placeholder("http://h/?k=resolve"));
    let mut url = parts("http", Some("h"), Some(80), "/");
    url.query_pairs.push(("k".to_owned(), "axis:resolve:x".to_owned()));
    assert!(endpoint_has_placeholder("http://h/", &Some(url)));
    assert!(!endpoint_has_placeholder("http://h/", &None));
}

#[test]
fn routes_know_their_credentials() {
    let plain = route("r", Some("http://h/"), None);
    assert!(!plain.has_host_boundary_credentials());
    assert!(!plain.uses_https_credentials());
    let keyed = route("r", Some("http://h/"), Some("K"));
    assert!(keyed.has_host_boundary_credentials());
    assert!(!keyed.uses_https_credentials());
    assert!(route("r", Some("https://h/"), Some("K")).uses_https_credentials());
    assert!(route("r", None, Some("K")).uses_https_credentials());
    assert!(route("r", Some("nonsense"), Some("K")).uses_https_credentials());
    assert!(!keyed.carries_https_credentials(&Some(parts("http", Some("h"), Some(80), "/"))));
    let err = route("r", None, Some("K")).credential_endpoint(&None).unwrap_err();
    assert_eq!(
        err.message(),
        "policy validation failed: inference route 'r' with host-boundary credentials requires an explicit http:// endpoint"
    );
}

#[test]
fn destinations_are_checked_for_any_parsed_url() {
    let r = route("r", Some("http://inference.local/v1"), Some("K"));
    let check = |u: UrlParts| {
        r.credential_scope(NetworkMode::Proxy, &Some(u))
            .map_err(|e| e.message())
            .map(|s| s.map(|s| (s.host, s.port, s.path)))
    };
    assert_eq!(
        check(parts("http", Some("INFERENCE.local."), Some(8080), "/%76")),
        Ok(Some(("inference.local".to_owned(), 8080, "/v".to_owned())))
    );
    assert_eq!(
        check(parts("http", Some("inference.local"), None, "/v1")),
        Err("policy validation failed: inference route 'r' credential endpoint has no effective port".to_owned())
    );
    assert_eq!(
        check(parts("http", Some("bad_host"), Some(1), "/v1")),
        Err("policy validation failed: inference route 'r' has an invalid credential endpoint host: network endpoint host is not a valid DNS name".to_owned())
    );
    let none = route("r", Some("http://inference.local/v1"), None);
    assert!(none.credential_scope(NetworkMode::Block, &None).unwrap().is_none());
}

#[test]
fn overlapping_routes_are_named_in_both_orders() {
    let broad = || route("broad", Some("http://inference.local:8080/v1"), Some("A"));
    let narrow = || route("narrow", Some("http://inference.local:8080/v1/chat"), Some("B"));
    let broad_url = || Some(parts("http", Some("inference.local"), Some(8080), "/v1"));
    let narrow_url = || Some(parts("http", Some("inference.local"), Some(8080), "/v1/chat"));
    let err = check_credential_routes(
        &vec![broad(), narrow()],
        NetworkMode::Proxy,
        &vec![broad_url(), narrow_url()],
    )
    .unwrap_err();
    assert_eq!(
        err.message(),
        "policy validation failed: inference credential routes 'broad' and 'narrow' have ambiguous overlapping scopes on http://inference.local:8080 ('/v1' and '/v1/chat')"
    );
    let err = check_credential_routes(
        &vec![narrow(), broad()],
        NetworkMode::Proxy,
        &vec![narrow_url(), broad_url()],
    )
    .unwrap_err();
    assert_eq!(
        err.message(),
        "policy validation failed: inference credential routes 'narrow' and 'broad' have ambiguous overlapping scopes on http://inference.local:8080 ('/v1/chat' and '/v1')"
    );
}

#[test]
fn credential_variables_are_capitals() {
    assert!(validate_credential_env_name("r", "KEY_2").is_ok());
    for bad in ["", "key", "K-Y", "K\u{c4}"] {
        assert_eq!(
            validate_credential_env_name("r", bad).unwrap_err().message(),
            format!("policy validation failed: inference route 'r' api_key_env must be a non-empty uppercase environment variable name: {bad}")
        );
    }
}

#[test]
fn policy_names_are_path_components() {
    assert!(validate_policy_name_component("a.b_c-1").is_ok());
    assert!(validate_policy_name_component("...").is_ok());
    for (name, reason) in [
        ("", "policy name must not be empty"),
        (".", "policy name must be a safe path component"),
        ("..", "policy name must be a safe path component"),
        ("a/b", "policy name must contain only ASCII letters, digits, '.', '_' and '-'"),
        ("\u{e9}", "policy name must contain only ASCII letters, digits, '.', '_' and '-'"),
    ] {
        assert_eq!(
            validate_policy_name_component(name).unwrap_err().message(),
            format!("policy validation failed: {reason}")
        );
    }
}

#[test]
fn one_path_has_one_canonical_form_and_an_encoded_slash_is_no_slash() {
    let canonical = canonicalize_credential_path("/v1/a-b%2Fc%c3").unwrap();
    assert_eq!(canonical, "/v1/a-b%2Fc%C3");
    for spelling in ["/v1/a-b%2fc%C3", "/%761/%61-%62%2Fc%c3", "/v1/a%2Db%2f%63%C3"] {
        assert_eq!(canonicalize_credential_path(spelling), Ok(canonical.clone()), "{spelling}");
    }
    assert_ne!(canonicalize_credential_path("/v1/a-b/c%c3"), Ok(canonical));
}

#[test]
fn routes_without_credentials_change_nothing() {
    let keyed = |name: &str, path: &str| {
        route(name, Some(&format!("http://inference.local{path}")), Some("KEY"))
    };
    let plain = || route("plain", Some("https://api.example/v1"), None);
    let verdict = |routes: Vec<InferenceRoute>| {
        let parsed = routes.iter().map(|r| r.parsed_endpoint()).collect();
        check_credential_routes(&routes, NetworkMode::Proxy, &parsed).map_err(|e| e.message())
    };
    for (first, second) in [("/a", "/b"), ("/a", "/a/b")] {
        let expected = verdict(vec![keyed("x", first), keyed("y", second)]);
        assert_eq!(expected.is_ok(), second == "/b");
        assert_eq!(verdict(vec![plain(), keyed("x", first), keyed("y", second)]), expected);
        assert_eq!(verdict(vec![keyed("x", first), plain(), keyed("y", second)]), expected);
        assert_eq!(verdict(vec![keyed("x", first), keyed("y", second), plain()]), expected);
    }
}
