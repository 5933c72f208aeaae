//! Running a sandbox without the daemon: its policy, its environment, its proxy.

use vstd::prelude::*;
use vstd::string::*;
use crate::backend;
use crate::backend::Platform;
use crate::config::ConnectAttributionStore;
use crate::policy::{NetworkMode, Policy};
use crate::sandbox_env;
use crate::sandbox_error::SandboxId;
use crate::socket_address;
use crate::text;

verus! {

/// A choice of host variables for a sandbox that needs little: the search path,
/// and where the provider is reached. `collect_standalone_sandbox_env_from` takes
/// the choice from its caller, and a host may hand it a wider one.
pub open spec fn is_collected_key(key: Seq<char>) -> bool {
    text::same_ignoring_case(key, "PATH"@) || key == "ANTHROPIC_BASE_URL"@
}

pub fn is_collected_sandbox_env_key(key: &str) -> (r: bool)
    ensures
        r == is_collected_key(key@),
{
    text::eq_ignore_case(key, "PATH") || text::same(key, "ANTHROPIC_BASE_URL")
}

/// The variables that are kept, in their order.
pub open spec fn selected(vars: Seq<(Seq<char>, Seq<char>)>, keep: Seq<bool>) -> Seq<
    (Seq<char>, Seq<char>),
>
    decreases vars.len(),
{
    if vars.len() == 0 {
        seq![]
    } else if keep[vars.len() - 1] {
        selected(vars.drop_last(), keep).push(vars.last())
    } else {
        selected(vars.drop_last(), keep)
    }
}

/// The variables of the host that a sandbox is given: those whose name
/// `is_collected` accepts.
pub fn collect_standalone_sandbox_env_from<F: Fn(&String) -> bool>(
    vars: Vec<(String, String)>,
    is_collected: F,
) -> (r: Vec<(String, String)>)
    requires
        forall|i: int|
            0 <= i < vars@.len() ==> call_requires(is_collected, (&(#[trigger] vars@[i]).0,)),
    ensures
        exists|keep: Seq<bool>|
            {
                &&& keep.len() == vars@.len()
                &&& forall|i: int|
                    0 <= i < vars@.len() ==> call_ensures(
                        is_collected,
                        (&vars@[i].0,),
                        #[trigger] keep[i],
                    )
                &&& text::pair_texts(r@) == #[trigger] selected(text::pair_texts(vars@), keep)
            },
{
    let ghost all = text::pair_texts(vars@);
    let ghost mut keep: Seq<bool> = seq![];
    let mut r: Vec<(String, String)> = Vec::new();
    assert(text::pair_texts(r@) =~= selected(all.take(0), keep));
    for i in 0..vars.len()
        invariant
            all == text::pair_texts(vars@),
            forall|j: int|
                0 <= j < vars@.len() ==> call_requires(is_collected, (&(#[trigger] vars@[j]).0,)),
            keep.len() == i,
            forall|j: int|
                0 <= j < i ==> call_ensures(is_collected, (&vars@[j].0,), #[trigger] keep[j]),
            text::pair_texts(r@) == selected(all.take(i as int), keep),
    {
        let ghost before = text::pair_texts(r@);
        let ghost kept = keep;
        assert(call_requires(is_collected, (&vars@[i as int].0,)));
        let wanted = is_collected(&vars[i].0);
        proof {
            keep = keep.push(wanted);
            assert(all.take(i + 1).drop_last() =~= all.take(i as int));
            lemma_selected_prefix(all.take(i as int), kept, keep);
        }
        if wanted {
            r.push((vars[i].0.as_str().to_owned(), vars[i].1.as_str().to_owned()));
            assert(text::pair_texts(r@) =~= before.push(all[i as int]));
        }
    }
    assert(all.take(all.len() as int) =~= all);
    r
}

proof fn lemma_selected_prefix(
    vars: Seq<(Seq<char>, Seq<char>)>,
    a: Seq<bool>,
    b: Seq<bool>,
)
    requires
        forall|i: int| 0 <= i < vars.len() ==> a[i] == b[i],
    ensures
        selected(vars, a) == selected(vars, b),
    decreases vars.len(),
{
    if vars.len() > 0 {
        lemma_selected_prefix(vars.drop_last(), a, b);
    }
}

/// A variable that is not collected does not reach the sandbox, whatever else
/// is collected; nothing is added and nothing is renamed.
pub proof fn law_uncollected_variables_stay_outside(
    vars: Seq<(Seq<char>, Seq<char>)>,
    keep: Seq<bool>,
    key: Seq<char>,
)
    requires
        keep.len() == vars.len(),
        forall|i: int| 0 <= i < vars.len() && (#[trigger] vars[i]).0 == key ==> !keep[i],
    ensures
        sandbox_env::lookup(selected(vars, keep), key) is None,
{
    lemma_selected_from(vars, keep, key);
    sandbox_env::lemma_position_bounds(selected(vars, keep), key);
    let s = selected(vars, keep);
    let k = sandbox_env::position(s, key);
    if k < s.len() {
        assert(s[k].0 == key);
    }
}

proof fn lemma_selected_from(
    vars: Seq<(Seq<char>, Seq<char>)>,
    keep: Seq<bool>,
    key: Seq<char>,
)
    requires
        keep.len() >= vars.len(),
        forall|i: int| 0 <= i < vars.len() && (#[trigger] vars[i]).0 == key ==> !keep[i],
    ensures
        forall|k: int|
            0 <= k < selected(vars, keep).len() ==> (#[trigger] selected(vars, keep)[k]).0 != key,
    decreases vars.len(),
{
    if vars.len() > 0 {
        let front = vars.drop_last();
        assert forall|i: int| 0 <= i < front.len() && (#[trigger] front[i]).0 == key implies !keep[i] by {
            assert(front[i] == vars[i]);
        }
        lemma_selected_from(front, keep, key);
        assert(vars[vars.len() - 1] == vars.last());
        let s = selected(vars, keep);
        let t = selected(front, keep);
        assert forall|k: int| 0 <= k < s.len() implies (#[trigger] s[k]).0 != key by {
            if k < t.len() {
                assert(s[k] == t[k]);
            }
        }
    }
}

/// What `str::to_lowercase` makes of a text.
pub uninterp spec fn unicode_lowercase(s: Seq<char>) -> Seq<char>;

/// Brings a text into small letters with `str::to_lowercase`, by the rules of
/// Unicode. The result depends on the text alone.
#[verifier::external_body]
fn lowercase_text(s: &str) -> (r: String)
    ensures
        r@ == unicode_lowercase(s@),
{
    s.to_lowercase()
}

/// A search path with `dir` at its end, unless it is there. Both are compared
/// in small letters.
pub open spec fn with_dir(
    path: Seq<char>,
    dir: Seq<char>,
    path_lower: Seq<char>,
    dir_lower: Seq<char>,
) -> Seq<char> {
    if text::contains_text(path_lower, dir_lower) {
        path
    } else {
        path.push(';') + dir
    }
}

pub fn append_dir(path: String, dir: &str, path_lower: &str, dir_lower: &str) -> (r: String)
    ensures
        r@ == with_dir(path@, dir@, path_lower@, dir_lower@),
{
    if text::contains(path_lower, dir_lower) {
        path
    } else {
        let mut r = path;
        r.push(';');
        r.append(dir);
        r
    }
}

/// A search path with the directories `dirs` at its end, each where it is
/// not there yet.
pub open spec fn extended_path(path: Seq<char>, dirs: Seq<Seq<char>>) -> Seq<char>
    decreases dirs.len(),
{
    if dirs.len() == 0 {
        path
    } else {
        let p = extended_path(path, dirs.drop_last());
        with_dir(p, dirs.last(), unicode_lowercase(p), unicode_lowercase(dirs.last()))
    }
}

/// Extending a search path never takes anything away from it.
pub proof fn law_extended_path_begins_with_the_path(path: Seq<char>, dirs: Seq<Seq<char>>)
    ensures
        text::starts_with(extended_path(path, dirs), path),
    decreases dirs.len(),
{
    let now = extended_path(path, dirs);
    if dirs.len() == 0 {
        assert(path.subrange(0, path.len() as int) =~= path);
    } else {
        law_extended_path_begins_with_the_path(path, dirs.drop_last());
        let before = extended_path(path, dirs.drop_last());
        assert(now.subrange(0, path.len() as int) =~= before.subrange(0, path.len() as int));
    }
}

/// The position of the variable that holds the search path, in any case.
pub open spec fn path_position(env: Seq<(Seq<char>, Seq<char>)>) -> int
    decreases env.len(),
{
    if env.len() == 0 || text::same_ignoring_case(env[0].0, "PATH"@) {
        0
    } else {
        1 + path_position(env.skip(1))
    }
}

/// The variables with the search path extended, where there is one.
pub open spec fn path_extended(env: Seq<(Seq<char>, Seq<char>)>, dirs: Seq<Seq<char>>) -> Seq<
    (Seq<char>, Seq<char>),
> {
    let i = path_position(env);
    if i < env.len() {
        env.update(i, (env[i].0, extended_path(env[i].1, dirs)))
    } else {
        env
    }
}

proof fn lemma_path_position(env: Seq<(Seq<char>, Seq<char>)>, n: int)
    requires
        0 <= n <= env.len(),
        forall|j: int|
            0 <= j < n ==> !text::same_ignoring_case((#[trigger] env[j]).0, "PATH"@),
        n < env.len() ==> text::same_ignoring_case(env[n].0, "PATH"@),
    ensures
        path_position(env) == n,
    decreases env.len(),
{
    if n > 0 {
        assert(!text::same_ignoring_case(env[0].0, "PATH"@));
        let rest = env.skip(1);
        assert forall|j: int| 0 <= j < n - 1 implies !text::same_ignoring_case(
            (#[trigger] rest[j]).0,
            "PATH"@,
        ) by {
            assert(rest[j] == env[j + 1]);
        }
        lemma_path_position(rest, n - 1);
    }
}

/// Append directories to the search path of a sandbox.
pub fn extend_path(env: &mut Vec<(String, String)>, dirs: &Vec<String>)
    ensures
        text::pair_texts(final(env)@) == path_extended(
            text::pair_texts(old(env)@),
            text::texts(dirs@),
        ),
{
    let ghost all = text::pair_texts(env@);
    let ghost names = text::texts(dirs@);
    let mut i: usize = 0;
    while i < env.len() && !text::eq_ignore_case(env[i].0.as_str(), "PATH")
        invariant
            i <= env.len(),
            all == text::pair_texts(env@),
            forall|j: int|
                0 <= j < i ==> !text::same_ignoring_case((#[trigger] all[j]).0, "PATH"@),
        decreases env.len() - i,
    {
        assert(all[i as int].0 == env@[i as int].0@);
        i += 1;
    }
    proof {
        assert(i < env.len() ==> all[i as int] == (env@[i as int].0@, env@[i as int].1@));
        lemma_path_position(all, i as int);
    }
    if i < env.len() {
        let key = env[i].0.as_str().to_owned();
        let mut path = env[i].1.as_str().to_owned();
        for k in 0..dirs.len()
            invariant
                names == text::texts(dirs@),
                path@ == extended_path(all[i as int].1, names.take(k as int)),
        {
            let path_lower = lowercase_text(path.as_str());
            let dir_lower = lowercase_text(dirs[k].as_str());
            assert(names.take(k + 1).drop_last() =~= names.take(k as int));
            assert(names.take(k + 1).last() == dirs@[k as int]@);
            path = append_dir(path, dirs[k].as_str(), path_lower.as_str(), dir_lower.as_str());
        }
        assert(names.take(names.len() as int) =~= names);
        env.set(i, (key, path));
        assert(text::pair_texts(env@) =~= path_extended(all, names));
    }
}

/// Where common runtimes are installed, as far as the host says.
#[derive(Debug)]
pub struct RuntimeHints {
    pub nvm_home: Option<String>,
    pub nvm_symlink: Option<String>,
    pub local_appdata: Option<String>,
}

/// In which of the places a runtime was found.
#[derive(Debug, Clone, Copy, PartialEq, Eq, Structural)]
pub struct RuntimeFinds {
    pub program_files_node: bool,
    pub nvm_symlink_node: bool,
    pub nvm_home_node: bool,
    pub volta_node: bool,
    pub store_python: bool,
    pub store_python3: bool,
    pub program_files_git: bool,
}

pub fn volta_dir(local_appdata: &str) -> (s: String)
    ensures
        s@ == local_appdata@ + "\\Volta\\bin"@,
{
    local_appdata.to_owned().concat("\\Volta\\bin")
}

pub fn store_dir(local_appdata: &str) -> (s: String)
    ensures
        s@ == local_appdata@ + "\\Microsoft\\WindowsApps"@,
{
    local_appdata.to_owned().concat("\\Microsoft\\WindowsApps")
}

pub open spec fn one_if(b: bool, s: Seq<char>) -> Seq<Seq<char>> {
    if b {
        seq![s]
    } else {
        seq![]
    }
}

/// The directory of the Node.js version manager that is used, if one is.
pub open spec fn nvm_dirs(hints: RuntimeHints, finds: RuntimeFinds) -> Seq<Seq<char>> {
    match (hints.nvm_home, hints.nvm_symlink) {
        (Some(_), Some(link)) => one_if(finds.nvm_symlink_node, link@),
        (Some(home), None) => one_if(finds.nvm_home_node, home@),
        (None, _) => seq![],
    }
}

pub open spec fn appdata_dirs(hints: RuntimeHints, finds: RuntimeFinds) -> Seq<Seq<char>> {
    match hints.local_appdata {
        Some(local) => one_if(finds.volta_node, local@ + "\\Volta\\bin"@) + one_if(
            finds.store_python || finds.store_python3,
            local@ + "\\Microsoft\\WindowsApps"@,
        ),
        None => seq![],
    }
}

/// The directories of runtimes that may not be in the search path. Only Windows
/// has such.
pub open spec fn runtime_dirs(windows: bool, hints: RuntimeHints, finds: RuntimeFinds) -> Seq<
    Seq<char>,
> {
    if windows {
        one_if(finds.program_files_node, "C:\\Program Files\\nodejs"@) + nvm_dirs(hints, finds)
            + appdata_dirs(hints, finds) + one_if(
            finds.program_files_git,
            "C:\\Program Files\\Git\\bin"@,
        )
    } else {
        seq![]
    }
}

pub fn discover_runtime_dirs(windows: bool, hints: &RuntimeHints, finds: &RuntimeFinds) -> (r: Vec<
    String,
>)
    ensures
        text::texts(r@) == runtime_dirs(windows, *hints, *finds),
{
    let mut r: Vec<String> = Vec::new();
    if windows {
        if finds.program_files_node {
            r.push("C:\\Program Files\\nodejs".to_owned());
        }
        match (&hints.nvm_home, &hints.nvm_symlink) {
            (Some(_), Some(link)) => {
                if finds.nvm_symlink_node {
                    r.push(link.as_str().to_owned());
                }
            },
            (Some(home), None) => {
                if finds.nvm_home_node {
                    r.push(home.as_str().to_owned());
                }
            },
            (None, _) => {},
        }
        if let Some(local) = &hints.local_appdata {
            if finds.volta_node {
                r.push(volta_dir(local.as_str()));
            }
            if finds.store_python || finds.store_python3 {
                r.push(store_dir(local.as_str()));
            }
        }
        if finds.program_files_git {
            r.push("C:\\Program Files\\Git\\bin".to_owned());
        }
    }
    assert(text::texts(r@) =~= runtime_dirs(windows, *hints, *finds));
    r
}

/// The policies that come with AXIS.
#[derive(Debug, Clone, Copy, PartialEq, Eq, Structural)]
pub enum BuiltinPolicy {
    Minimal,
    CodingAgent,
    GpuAgent,
    Vxn,
}

pub open spec fn policy_named(name: Seq<char>) -> Option<BuiltinPolicy> {
    if name == "minimal"@ {
        Some(BuiltinPolicy::Minimal)
    } else if name == "coding-agent"@ {
        Some(BuiltinPolicy::CodingAgent)
    } else if name == "gpu-agent"@ {
        Some(BuiltinPolicy::GpuAgent)
    } else if name == "vxn"@ {
        Some(BuiltinPolicy::Vxn)
    } else {
        None
    }
}

/// The policy that comes with AXIS under a name that is no file. Names are text;
/// `shown` is how one reads that is not.
pub fn resolve_builtin_policy(name: Option<&str>, shown: &str) -> (r: Result<BuiltinPolicy, String>)
    ensures
        match name {
            None => r matches Err(e) && e@ == "policy path is not valid UTF-8: "@ + shown@,
            Some(n) => match policy_named(n@) {
                Some(p) => r == Ok::<_, String>(p),
                None => r matches Err(e) && e@ == "policy '"@ + n@
                    + "' not found; use a file path or one of: minimal, coding-agent, gpu-agent, vxn"@,
            },
        },
{
    match name {
        None => Err("policy path is not valid UTF-8: ".to_owned().concat(shown)),
        Some(n) => {
            if text::same(n, "minimal") {
                Ok(BuiltinPolicy::Minimal)
            } else if text::same(n, "coding-agent") {
                Ok(BuiltinPolicy::CodingAgent)
            } else if text::same(n, "gpu-agent") {
                Ok(BuiltinPolicy::GpuAgent)
            } else if text::same(n, "vxn") {
                Ok(BuiltinPolicy::Vxn)
            } else {
                Err(
                    "policy '".to_owned().concat(n).concat(
                        "' not found; use a file path or one of: minimal, coding-agent, gpu-agent, vxn",
                    ),
                )
            }
        },
    }
}

/// What the inline proxy of a sandbox is run with. Addresses are in text form.
#[derive(Debug)]
pub struct ProxyConfig {
    pub sandbox_id: SandboxId,
    pub bind_addr: String,
    pub policy: Policy,
    pub enable_leak_detection: bool,
    pub inference_endpoint: Option<String>,
    pub connect_attribution: Option<ConnectAttributionStore>,
    pub enable_identity_diagnostics: bool,
}

/// Where the proxy of a sandbox listens. On Linux a sandbox in proxy mode has a
/// network of its own, and the proxy listens there, at `isolated`.
pub open spec fn proxy_address(
    p: backend::PlatformView,
    mode: NetworkMode,
    port: u16,
    isolated: Seq<char>,
) -> Seq<char> {
    if p == backend::PlatformView::Linux && mode == NetworkMode::Proxy {
        isolated
    } else {
        "127.0.0.1:"@ + text::decimal(port as nat)
    }
}

pub fn proxy_bind_addr_for_sandbox(
    platform: &Platform,
    policy: &Policy,
    proxy_port: u16,
    isolated: &str,
) -> (s: String)
    ensures
        s@ == proxy_address(platform@, policy.network.mode, proxy_port, isolated@),
{
    let linux = matches!(platform, Platform::Linux);
    if linux && policy.network.mode == NetworkMode::Proxy {
        isolated.to_owned()
    } else {
        "127.0.0.1:".to_owned().concat(text::decimal_text(proxy_port as u64).as_str())
    }
}

/// The inline proxy that a policy asks for; none outside proxy mode. `isolated`
/// is where a proxy on any free port of the sandbox's own network listens.
pub fn standalone_proxy_config_for_sandbox(
    platform: &Platform,
    id: SandboxId,
    policy: Policy,
    inference_endpoint: Option<String>,
    connect_attribution: Option<ConnectAttributionStore>,
    isolated: &str,
) -> (r: Option<ProxyConfig>)
    ensures
        match r {
            None => policy.network.mode != NetworkMode::Proxy,
            Some(c) => {
                &&& policy.network.mode == NetworkMode::Proxy
                &&& c.sandbox_id == id
                &&& c.bind_addr@ == proxy_address(platform@, policy.network.mode, 0, isolated@)
                &&& c.policy == policy
                &&& c.enable_leak_detection
                &&& c.inference_endpoint == inference_endpoint
                &&& c.connect_attribution == connect_attribution
                &&& !c.enable_identity_diagnostics
            },
        },
{
    if policy.network.mode != NetworkMode::Proxy {
        return None;
    }
    let bind_addr = proxy_bind_addr_for_sandbox(platform, &policy, 0, isolated);
    Some(
        ProxyConfig {
            sandbox_id: id,
            bind_addr,
            policy,
            enable_leak_detection: true,
            inference_endpoint,
            connect_attribution,
            enable_identity_diagnostics: false,
        },
    )
}

/// What the host sets as the inference endpoint.
#[derive(Debug)]
pub enum EndpointSetting {
    Unset,
    NotUnicode,
    Text(String),
}

/// What a setting of the inference endpoint comes to: the socket address that it
/// spells, or why there is none.
pub open spec fn endpoint_of(setting: EndpointSetting) -> Result<Option<Seq<char>>, Seq<char>> {
    match setting {
        EndpointSetting::Unset => Ok(None),
        EndpointSetting::NotUnicode => Err("AXIS_INFERENCE_ENDPOINT must be valid Unicode"@),
        EndpointSetting::Text(value) => match socket_address::socket_address(value@) {
            Some(address) => Ok(Some(address)),
            None => Err(
                "invalid AXIS_INFERENCE_ENDPOINT '"@ + value@
                    + "': invalid socket address syntax"@,
            ),
        },
    }
}

pub open spec fn endpoint_view(r: Result<Option<String>, String>) -> Result<
    Option<Seq<char>>,
    Seq<char>,
> {
    match r {
        Ok(a) => Ok(text::option_view(a)),
        Err(e) => Err(e@),
    }
}

/// The inference endpoint of a run without a daemon: none where nothing is set,
/// and the socket address that is set, in canonical spelling.
pub fn configured_standalone_inference_endpoint(setting: EndpointSetting) -> (r: Result<
    Option<String>,
    String,
>)
    ensures
        endpoint_view(r) == endpoint_of(setting),
{
    match setting {
        EndpointSetting::Unset => Ok(None),
        EndpointSetting::NotUnicode => Err(
            "AXIS_INFERENCE_ENDPOINT must be valid Unicode".to_owned(),
        ),
        EndpointSetting::Text(value) => match socket_address::parse(value.as_str()) {
            Some(a) => Ok(Some(a)),
            None => Err(
                "invalid AXIS_INFERENCE_ENDPOINT '".to_owned().concat(value.as_str()).concat(
                    "': invalid socket address syntax",
                ),
            ),
        },
    }
}

/// Whether log lines are held back: for an agent on a terminal, where nobody
/// asks for them, and for the terminal bridge.
pub open spec fn logs_held_back(
    interactive: bool,
    first_arg: Option<Seq<char>>,
    log_requested: bool,
) -> bool {
    match first_arg {
        Some(a) => (interactive && a == "run"@ && !log_requested) || a == "__axis-pty-bridge"@,
        None => false,
    }
}

pub fn is_quiet(interactive: bool, first_arg: Option<&str>, log_requested: bool) -> (r: bool)
    ensures
        r == logs_held_back(interactive, text::str_view(first_arg), log_requested),
{
    match first_arg {
        Some(a) => (interactive && text::same(a, "run") && !log_requested) || text::same(
            a,
            "__axis-pty-bridge",
        ),
        None => false,
    }
}

/// How an interactive sandbox ends.
#[derive(Debug, Clone, Copy, PartialEq, Eq, Structural)]
pub enum InteractiveEnd {
    Exited(i32),
    /// The signal with this number asked for the end.
    Signalled(i32),
}

/// The exit code of an interactive sandbox: that of its process, or 128 and the
/// number of the signal that ended it.
pub open spec fn interactive_code(end: InteractiveEnd) -> int {
    match end {
        InteractiveEnd::Exited(c) => c as int,
        InteractiveEnd::Signalled(n) => 128 + n,
    }
}

pub fn interactive_exit_code(end: InteractiveEnd) -> (code: i32)
    requires
        end matches InteractiveEnd::Signalled(n) ==> n <= i32::MAX - 128,
    ensures
        code == interactive_code(end),
{
    match end {
        InteractiveEnd::Exited(c) => c,
        InteractiveEnd::Signalled(n) => 128 + n,
    }
}

/// One variable after the other is kept or left out, and what is kept stays as it
/// is and in its order.
pub proof fn law_collecting_goes_variable_by_variable(
    vars: Seq<(Seq<char>, Seq<char>)>,
    keep: Seq<bool>,
    var: (Seq<char>, Seq<char>),
    wanted: bool,
)
    requires
        keep.len() == vars.len(),
    ensures
        selected(Seq::empty(), keep).len() == 0,
        selected(vars.push(var), keep.push(wanted)) == if wanted {
            selected(vars, keep).push(var)
        } else {
            selected(vars, keep)
        },
{
    assert(vars.push(var).drop_last() =~= vars);
    lemma_selected_prefix(vars, keep, keep.push(wanted));
}

/// The search path is collected under its name in any case, and the address of
/// the provider under its own; nothing else is, no key among them.
pub proof fn law_what_is_collected(key: Seq<char>)
    ensures
        is_collected_key(key) <==> text::same_ignoring_case(key, seq!['P', 'A', 'T', 'H']) || key
            == "ANTHROPIC_BASE_URL"@,
        !is_collected_key("ANTHROPIC_API_KEY"@),
{
    reveal_strlit("PATH");
    reveal_strlit("ANTHROPIC_BASE_URL");
    reveal_strlit("ANTHROPIC_API_KEY");
    assert("PATH"@ =~= seq!['P', 'A', 'T', 'H']);
    assert("ANTHROPIC_API_KEY"@.len() == 17);
    assert("ANTHROPIC_BASE_URL"@.len() == 18);
    text::law_same_but_for_the_case("ANTHROPIC_API_KEY"@, "PATH"@);
}

/// A directory goes behind the search path and a semicolon, unless its small
/// letters stand in those of the path.
pub proof fn law_directories_are_appended_once(
    path: Seq<char>,
    dirs: Seq<Seq<char>>,
    dir: Seq<char>,
)
    ensures
        extended_path(path, Seq::empty()) == path,
        ({
            let before = extended_path(path, dirs);
            extended_path(path, dirs.push(dir)) == if exists|i: int|
                0 <= i <= unicode_lowercase(before).len() - unicode_lowercase(dir).len()
                    && #[trigger] unicode_lowercase(before).subrange(
                    i,
                    i + unicode_lowercase(dir).len(),
                ) == unicode_lowercase(dir) {
                before
            } else {
                before + seq![';'] + dir
            }
        }),
{
    let before = extended_path(path, dirs);
    let p = unicode_lowercase(before);
    let d = unicode_lowercase(dir);
    assert(dirs.push(dir).drop_last() =~= dirs);
    assert(before.push(';') + dir =~= before + seq![';'] + dir);
    if text::contains_text(p, d) {
        let i = choose|i: int| text::occurs_at(p, d, i);
        assert(p.subrange(i, i + d.len()) == d);
    }
    if exists|i: int| 0 <= i <= p.len() - d.len() && #[trigger] p.subrange(i, i + d.len()) == d {
        let i = choose|i: int|
            0 <= i <= p.len() - d.len() && #[trigger] p.subrange(i, i + d.len()) == d;
        assert(text::occurs_at(p, d, i));
    }
}

/// Only the first variable that is called like the search path, in any case, is
/// extended, and it keeps its name; without one nothing changes.
pub proof fn law_only_the_search_path_is_extended(
    env: Seq<(Seq<char>, Seq<char>)>,
    dirs: Seq<Seq<char>>,
    i: int,
)
    requires
        0 <= i <= env.len(),
        forall|k: int|
            0 <= k < i ==> !text::same_ignoring_case((#[trigger] env[k]).0, seq!['P', 'A', 'T', 'H']),
        i < env.len() ==> text::same_ignoring_case(env[i].0, seq!['P', 'A', 'T', 'H']),
    ensures
        path_extended(env, dirs) == if i < env.len() {
            env.update(i, (env[i].0, extended_path(env[i].1, dirs)))
        } else {
            env
        },
{
    reveal_strlit("PATH");
    assert("PATH"@ =~= seq!['P', 'A', 'T', 'H']);
    lemma_path_position(env, i);
}

/// Which directories of runtimes are looked for: none away from Windows; there
/// those in which something was found, the fixed ones first and last.
pub proof fn law_which_runtimes_are_added(hints: RuntimeHints, finds: RuntimeFinds)
    ensures
        runtime_dirs(false, hints, finds).len() == 0,
        ({
            let dirs = runtime_dirs(true, hints, finds);
            &&& finds.program_files_node ==> dirs.len() > 0 && dirs[0]
                == "C:\\Program Files\\nodejs"@
            &&& finds.program_files_git ==> dirs.len() > 0 && dirs.last()
                == "C:\\Program Files\\Git\\bin"@
            &&& hints.nvm_home is Some && hints.nvm_symlink is Some && finds.nvm_symlink_node
                ==> dirs.contains(hints.nvm_symlink->0@)
            &&& hints.nvm_home is Some && hints.nvm_symlink is None && finds.nvm_home_node
                ==> dirs.contains(hints.nvm_home->0@)
            &&& hints.local_appdata is Some && finds.volta_node ==> dirs.contains(
                hints.local_appdata->0@ + "\\Volta\\bin"@,
            )
            &&& hints.local_appdata is Some && (finds.store_python || finds.store_python3)
                ==> dirs.contains(hints.local_appdata->0@ + "\\Microsoft\\WindowsApps"@)
            &&& dirs.len() == (if finds.program_files_node { 1int } else { 0 }) + (
            if hints.nvm_home is Some && (hints.nvm_symlink is Some && finds.nvm_symlink_node
                || hints.nvm_symlink is None && finds.nvm_home_node) { 1int } else { 0 }) + (
            if hints.local_appdata is Some && finds.volta_node { 1int } else { 0 }) + (
            if hints.local_appdata is Some && (finds.store_python || finds.store_python3) {
                1int
            } else {
                0
            }) + (if finds.program_files_git { 1int } else { 0 })
        }),
{
    let a = one_if(finds.program_files_node, "C:\\Program Files\\nodejs"@);
    let b = nvm_dirs(hints, finds);
    let c = appdata_dirs(hints, finds);
    let d = one_if(finds.program_files_git, "C:\\Program Files\\Git\\bin"@);
    let dirs = runtime_dirs(true, hints, finds);
    assert(dirs == a + b + c + d);
    if b.len() > 0 {
        assert(dirs[a.len() as int] == b[0]);
    }
    if c.len() > 0 {
        assert(dirs[(a.len() + b.len()) as int] == c[0]);
        assert(dirs[a.len() + b.len() + c.len() - 1] == c.last());
    }
    if a.len() > 0 {
        assert(dirs[0] == a[0]);
    }
    if d.len() > 0 {
        assert(dirs.last() == d[0]);
    }
}

/// Each policy that comes with AXIS has its own name, and no other name leads to
/// one.
pub proof fn law_bundled_policies_have_names(name: Seq<char>)
    ensures
        policy_named("minimal"@) == Some(BuiltinPolicy::Minimal),
        policy_named("coding-agent"@) == Some(BuiltinPolicy::CodingAgent),
        policy_named("gpu-agent"@) == Some(BuiltinPolicy::GpuAgent),
        policy_named("vxn"@) == Some(BuiltinPolicy::Vxn),
        policy_named(name) is Some ==> name == "minimal"@ || name == "coding-agent"@ || name
            == "gpu-agent"@ || name == "vxn"@,
{
    reveal_strlit("minimal");
    reveal_strlit("coding-agent");
    reveal_strlit("gpu-agent");
    reveal_strlit("vxn");
    assert("minimal"@.len() == 7 && "coding-agent"@.len() == 12 && "gpu-agent"@.len() == 9
        && "vxn"@.len() == 3);
}

/// The proxy of a sandbox listens in the sandbox's own network exactly when it
/// has one, on Linux in proxy mode, and on the loopback address and the given port
/// otherwise.
pub proof fn law_where_the_proxy_listens(
    p: backend::PlatformView,
    mode: NetworkMode,
    port: u16,
    isolated: Seq<char>,
)
    ensures
        p is Linux && mode is Proxy ==> proxy_address(p, mode, port, isolated) == isolated,
        !(p is Linux && mode is Proxy) ==> proxy_address(p, mode, port, isolated)
            == "127.0.0.1:"@ + text::decimal(port as nat),
{
}

/// The inference endpoint is the socket address that is set, in canonical
/// spelling; what is set and is none is named in the refusal.
pub proof fn law_what_the_inference_endpoint_is(value: String)
    ensures
        endpoint_of(EndpointSetting::Unset) == Ok::<_, Seq<char>>(None::<Seq<char>>),
        endpoint_of(EndpointSetting::NotUnicode) is Err,
        socket_address::socket_address(value@) is Some ==> endpoint_of(
            EndpointSetting::Text(value),
        ) == Ok::<_, Seq<char>>(socket_address::socket_address(value@)),
        socket_address::socket_address(value@) is None ==> endpoint_of(
            EndpointSetting::Text(value),
        ) == Err::<Option<Seq<char>>, _>(
            "invalid AXIS_INFERENCE_ENDPOINT '"@ + value@ + "': invalid socket address syntax"@,
        ),
{
}

/// The terminal bridge never logs; `run` does so where it is not interactive or
/// where logs are asked for, and every other command always.
pub proof fn law_who_holds_logs_back(
    command: Seq<char>,
    interactive: bool,
    log_requested: bool,
)
    ensures
        !logs_held_back(interactive, None, log_requested),
        logs_held_back(interactive, Some("__axis-pty-bridge"@), log_requested),
        logs_held_back(interactive, Some("run"@), log_requested) <==> interactive
            && !log_requested,
        command != "run"@ && command != "__axis-pty-bridge"@ ==> !logs_held_back(
            interactive,
            Some(command),
            log_requested,
        ),
{
    reveal_strlit("run");
    reveal_strlit("__axis-pty-bridge");
    assert("run"@.len() != "__axis-pty-bridge"@.len());
}

/// The code of a process is handed on as it is; signals keep their order and are
/// told apart from every code below 128.
pub proof fn law_signals_are_told_apart(code: i32, signal: i32, other: i32)
    ensures
        interactive_code(InteractiveEnd::Exited(code)) == code,
        interactive_code(InteractiveEnd::Signalled(signal)) - 128 == signal,
        interactive_code(InteractiveEnd::Signalled(signal)) == interactive_code(
            InteractiveEnd::Signalled(other),
        ) <==> signal == other,
{
}

} // verus!
