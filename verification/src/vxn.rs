//! The vxn backend: each sandbox is a Xen DomU (a VM), driven through the vxn
//! CLI.
//!
//! The host `vxn` CLI dispatches the container DomU, so a sandbox is one
//! `vxn run ...` child process. This module holds the command line of that
//! child and the child's life. The VM boundary is the outer guarantee: policy
//! inside the guest is enforced by the guest.

use vstd::prelude::*;
use vstd::string::*;
use crate::base64;
use crate::config::SandboxConfig;
use crate::policy::NetworkMode;
use crate::sandbox_error;
use crate::sandbox_error::{SandboxError, SandboxId};
use crate::text;

verus! {

/// What the host says about running vxn.
#[derive(Debug)]
pub struct VxnHost {
    /// The vxn binary, where `VXN_BIN` names one.
    pub bin: Option<String>,
    /// The image to boot, where `VXN_BASE_IMAGE` names one.
    pub base_image: Option<String>,
    /// The host variables that the operator forwards, with their values.
    pub forwarded: Vec<(String, String)>,
}

/// The name of a command: the last component of its path, where that is a
/// plain name.
pub open spec fn command_name(command: Seq<char>) -> Option<Seq<char>> {
    let parts = text::split(command, '/').filter(|p: Seq<char>| is_path_name(p));
    if parts.len() == 0 || parts.last() == seq!['.', '.'] {
        None
    } else {
        Some(parts.last())
    }
}

/// A component that is there: neither empty nor a single dot.
pub open spec fn is_path_name(p: Seq<char>) -> bool {
    p.len() > 0 && p != seq!['.']
}

/// The text of a piece of a split text.
pub open spec fn piece_texts(parts: Seq<Vec<char>>) -> Seq<Seq<char>> {
    parts.map_values(|p: Vec<char>| p@)
}

fn last_component(command: &str) -> (r: Option<String>)
    ensures
        text::option_view(r) == command_name(command@),
{
    let parts = text::split_text(&text::to_chars(command), '/');
    let ghost pieces = text::split(command@, '/');
    let ghost keep = |p: Seq<char>| is_path_name(p);
    let mut last: Option<usize> = None;
    for i in 0..parts.len()
        invariant
            pieces == piece_texts(parts@),
            keep == (|p: Seq<char>| is_path_name(p)),
            match last {
                None => pieces.take(i as int).filter(keep).len() == 0,
                Some(k) => k < i && pieces.take(i as int).filter(keep).len() > 0
                    && pieces.take(i as int).filter(keep).last() == pieces[k as int],
            },
    {
        let ghost upto = pieces.take(i + 1);
        assert(upto.drop_last() =~= pieces.take(i as int));
        assert(pieces[i as int] == parts@[i as int]@);
        proof {
            reveal(Seq::filter);
        }
        let p = &parts[i];
        assert(p@ =~= seq!['.'] <==> p@.len() == 1 && p@[0] == '.');
        if p.len() > 0 && !(p.len() == 1 && p[0] == '.') {
            last = Some(i);
        }
    }
    assert(pieces.take(pieces.len() as int) =~= pieces);
    match last {
        None => None,
        Some(k) => {
            let p = &parts[k];
            assert(pieces[k as int] == p@);
            assert(p@ =~= seq!['.', '.'] <==> p@.len() == 2 && p@[0] == '.' && p@[1] == '.');
            if p.len() == 2 && p[0] == '.' && p[1] == '.' {
                None
            } else {
                Some(text::from_chars(p))
            }
        },
    }
}

/// The names in a comma-separated list, without the space around them.
pub open spec fn listed_names(list: Seq<char>) -> Seq<Seq<char>> {
    text::split(list, ',').map_values(|p: Seq<char>| text::trim(p)).filter(
        |p: Seq<char>| p.len() > 0,
    )
}

/// The variables that `VXN_FORWARD_ENV` names. Nothing is forwarded that the
/// operator does not name there.
pub fn forwarded_names(list: &str) -> (r: Vec<String>)
    ensures
        text::texts(r@) == listed_names(list@),
{
    let parts = text::split_text(&text::to_chars(list), ',');
    let ghost pieces = text::split(list@, ',');
    let ghost names = pieces.map_values(|p: Seq<char>| text::trim(p));
    let ghost keep = |p: Seq<char>| p.len() > 0;
    let mut r: Vec<String> = Vec::new();
    assert(names.take(0) =~= Seq::<Seq<char>>::empty());
    proof {
        reveal(Seq::filter);
    }
    assert(text::texts(r@) =~= names.take(0).filter(keep));
    for i in 0..parts.len()
        invariant
            pieces == piece_texts(parts@),
            names == pieces.map_values(|p: Seq<char>| text::trim(p)),
            keep == (|p: Seq<char>| p.len() > 0),
            text::texts(r@) == names.take(i as int).filter(keep),
    {
        let ghost before = r@;
        let ghost upto = names.take(i + 1);
        assert(upto.drop_last() =~= names.take(i as int));
        assert(pieces[i as int] == parts@[i as int]@);
        proof {
            reveal(Seq::filter);
        }
        let name = text::trimmed(&parts[i]);
        assert(upto.last() == name@);
        if name.len() > 0 {
            let s = text::from_chars(&name);
            r.push(s);
            assert(text::texts(r@) =~= text::texts(before).push(s@));
        }
    }
    assert(names.take(names.len() as int) =~= names);
    r
}

/// The variables out of `names` that the host has, with their values.
pub open spec fn set_variables(names: Seq<Seq<char>>, values: Seq<Option<Seq<char>>>) -> Seq<
    (Seq<char>, Seq<char>),
>
    decreases names.len(),
{
    if names.len() == 0 {
        seq![]
    } else {
        let front = set_variables(names.drop_last(), values);
        match values[names.len() - 1] {
            Some(v) => front.push((names.last(), v)),
            None => front,
        }
    }
}

pub open spec fn value_texts(values: Seq<Option<String>>) -> Seq<Option<Seq<char>>> {
    values.map_values(|v: Option<String>| text::option_view(v))
}

/// The variables that are forwarded, given what the host has for each name.
pub fn forwarded_variables(names: &Vec<String>, values: &Vec<Option<String>>) -> (r: Vec<
    (String, String),
>)
    requires
        values@.len() == names@.len(),
    ensures
        text::pair_texts(r@) == set_variables(text::texts(names@), value_texts(values@)),
{
    let ghost all = text::texts(names@);
    let ghost found = value_texts(values@);
    let mut r: Vec<(String, String)> = Vec::new();
    assert(text::pair_texts(r@) =~= set_variables(all.take(0), found));
    for i in 0..names.len()
        invariant
            values@.len() == names@.len(),
            all == text::texts(names@),
            found == value_texts(values@),
            text::pair_texts(r@) == set_variables(all.take(i as int), found),
    {
        let ghost before = text::pair_texts(r@);
        assert(all.take(i + 1).drop_last() =~= all.take(i as int));
        assert(all.take(i + 1).last() == names@[i as int]@);
        assert(found[i as int] == text::option_view(values@[i as int]));
        if let Some(v) = &values[i] {
            r.push((names[i].as_str().to_owned(), v.as_str().to_owned()));
            assert(text::pair_texts(r@) =~= before.push((all[i as int], v@)));
        }
    }
    assert(all.take(all.len() as int) =~= all);
    r
}

/// Nothing is forwarded that the operator has not named.
pub proof fn law_only_named_variables_are_forwarded(
    names: Seq<Seq<char>>,
    values: Seq<Option<Seq<char>>>,
    i: int,
)
    requires
        values.len() >= names.len(),
        0 <= i < set_variables(names, values).len(),
    ensures
        names.contains(set_variables(names, values)[i].0),
    decreases names.len(),
{
    if names.len() > 0 {
        let front = set_variables(names.drop_last(), values);
        if i < front.len() {
            law_only_named_variables_are_forwarded(names.drop_last(), values, i);
            let k = names.drop_last().index_of(front[i].0);
            assert(names[k] == front[i].0);
        } else {
            assert(names[names.len() - 1] == names.last());
        }
    }
}

/// One line `name=value` for each variable.
pub open spec fn env_lines(env: Seq<(Seq<char>, Seq<char>)>) -> Seq<char>
    decreases env.len(),
{
    if env.len() == 0 {
        seq![]
    } else {
        env_lines(env.drop_last()) + env.last().0 + "="@ + env.last().1 + "\n"@
    }
}

fn append_env_lines(lines: &mut String, env: &Vec<(String, String)>)
    ensures
        final(lines)@ == old(lines)@ + env_lines(text::pair_texts(env@)),
{
    let ghost all = text::pair_texts(env@);
    let ghost start = lines@;
    assert(start =~= start + env_lines(all.take(0)));
    for i in 0..env.len()
        invariant
            all == text::pair_texts(env@),
            lines@ == start + env_lines(all.take(i as int)),
    {
        lines.append(env[i].0.as_str());
        lines.append("=");
        lines.append(env[i].1.as_str());
        lines.append("\n");
        let ghost more = all.take(i + 1);
        assert(more.drop_last() =~= all.take(i as int));
        assert(more.last() == (env@[i as int].0@, env@[i as int].1@));
        assert(lines@ =~= start + env_lines(more));
    }
    assert(all.take(all.len() as int) =~= all);
}

proof fn lemma_env_lines_concat(
    a: Seq<(Seq<char>, Seq<char>)>,
    b: Seq<(Seq<char>, Seq<char>)>,
)
    ensures
        env_lines(a + b) == env_lines(a) + env_lines(b),
    decreases b.len(),
{
    if b.len() == 0 {
        assert(a + b =~= a);
        assert(env_lines(a) =~= env_lines(a) + env_lines(b));
    } else {
        lemma_env_lines_concat(a, b.drop_last());
        assert((a + b).drop_last() =~= a + b.drop_last());
        assert(env_lines(a + b) =~= env_lines(a) + env_lines(b));
    }
}

/// The variables of the DomU: those of the sandbox, then the forwarded ones.
pub open spec fn guest_env(config: SandboxConfig, host: VxnHost) -> Seq<(Seq<char>, Seq<char>)> {
    text::pair_texts(config.env@) + text::pair_texts(host.forwarded@)
}

/// The command and its arguments.
pub open spec fn command_words(config: SandboxConfig) -> Seq<Seq<char>> {
    seq![config.command@] + text::texts(config.args@)
}

/// A text as base64 of its UTF-8 bytes.
pub open spec fn opaque_word(s: Seq<char>) -> Seq<char> {
    base64::base64_text(vstd::utf8::encode_utf8(s))
}

/// The one word that carries a whole command line to the guest.
pub open spec fn argv_token(words: Seq<Seq<char>>) -> Seq<char> {
    "__VXNARGV__"@ + text::join(words.map_values(|w: Seq<char>| opaque_word(w)), ',')
}

/// The command line that the guest reads out of the word.
pub open spec fn token_words(token: Seq<char>) -> Option<Seq<Seq<char>>> {
    let mark = "__VXNARGV__"@;
    if !text::starts_with(token, mark) {
        None
    } else {
        let parts = text::split(token.skip(mark.len() as int), ',');
        if forall|i: int| 0 <= i < parts.len() ==> base64::base64_bytes(#[trigger] parts[i]) is Some {
            Some(
                parts.map_values(
                    |p: Seq<char>| vstd::utf8::decode_utf8(base64::base64_bytes(p)->0),
                ),
            )
        } else {
            None
        }
    }
}

/// The options of `vxn run`, before the image.
pub open spec fn run_options(config: SandboxConfig, host: VxnHost) -> Seq<Seq<char>> {
    let lines = env_lines(guest_env(config, host));
    let interactive: Seq<Seq<char>> = if config.interactive_terminal {
        seq!["-it"@]
    } else {
        seq![]
    };
    let network: Seq<Seq<char>> = if config.policy.network.mode == NetworkMode::Block {
        seq!["--no-network"@]
    } else {
        seq![]
    };
    let env: Seq<Seq<char>> = if lines.len() > 0 {
        seq!["--env-b64="@ + opaque_word(lines)]
    } else {
        seq![]
    };
    seq!["run"@, "--rm"@] + interactive + network + env
}

/// The image to boot: the one that the host names, or else the one named like
/// the command.
pub open spec fn image(config: SandboxConfig, host: VxnHost) -> Seq<char> {
    match host.base_image {
        Some(s) => s@,
        None => match command_name(config.command@) {
            Some(s) => s,
            None => "docker.io/library/alpine:latest"@,
        },
    }
}

pub open spec fn binary(host: VxnHost) -> Seq<char> {
    match host.bin {
        Some(s) => s@,
        None => "vxn"@,
    }
}

/// The command line of the vxn child, or why there is none.
pub open spec fn launch_line(config: SandboxConfig, host: VxnHost) -> Result<
    Seq<Seq<char>>,
    sandbox_error::SandboxErrorView,
> {
    if config.command@.len() == 0 {
        Err(
            sandbox_error::SandboxErrorView::CreationFailed(
                "vxn backend: command must not be empty"@,
            ),
        )
    } else if config.policy.network.mode == NetworkMode::Proxy {
        Err(
            sandbox_error::SandboxErrorView::Unsupported(
                "vxn backend does not yet enforce 'proxy' network mode; set network.mode to 'block' or 'allow' (managed-inference/proxy support is a TODO -- see axis-integration.md)"@,
            ),
        )
    } else {
        Ok(
            seq![binary(host)] + run_options(config, host) + seq![
                image(config, host),
                argv_token(command_words(config)),
            ],
        )
    }
}

fn encode_word(s: &str) -> (r: String)
    ensures
        r@ == opaque_word(s@),
{
    base64::b64(s.as_bytes())
}

fn build_token(config: &SandboxConfig) -> (r: String)
    ensures
        r@ == argv_token(command_words(*config)),
{
    let ghost words = command_words(*config);
    let ghost coded = words.map_values(|w: Seq<char>| opaque_word(w));
    let ghost mark = "__VXNARGV__"@;
    let mut r = "__VXNARGV__".to_owned().concat(encode_word(config.command.as_str()).as_str());
    assert(coded.take(1) =~= seq![opaque_word(config.command@)]);
    for i in 0..config.args.len()
        invariant
            words == command_words(*config),
            coded == words.map_values(|w: Seq<char>| opaque_word(w)),
            mark == "__VXNARGV__"@,
            r@ == mark + text::join(coded.take(i + 1), ','),
    {
        let ghost before = r@;
        let word = encode_word(config.args[i].as_str());
        r.push(',');
        r.append(word.as_str());
        assert(words[i + 1] == config.args@[i as int]@);
        assert(coded.take(i + 2) =~= coded.take(i + 1).push(word@));
        proof {
            text::lemma_join_push(coded.take(i + 1), word@, ',');
        }
        assert(r@ =~= mark + text::join(coded.take(i + 2), ','));
    }
    assert(coded.take(coded.len() as int) =~= coded);
    r
}

/// One sandbox of the vxn backend.
#[derive(Debug)]
pub struct VxnSandbox {
    pub id: SandboxId,
    /// Fully-built argv: [vxn_bin, "run", "--rm", options.., image, argv token].
    pub argv: Vec<String>,
    pub capture_output: bool,
    pub timeout_sec: Option<u64>,
    /// The process id of the child, while there is one to wait for.
    pub child: Option<u32>,
    pub exit_code: Option<i32>,
}

impl VxnSandbox {
    pub fn new(config: &SandboxConfig, host: &VxnHost) -> (r: Result<VxnSandbox, SandboxError>)
        ensures
            match r {
                Ok(s) => {
                    &&& launch_line(*config, *host) == Ok::<_, sandbox_error::SandboxErrorView>(
                        text::texts(s.argv@),
                    )
                    &&& s.id.0@ == config.id.0@
                    &&& s.capture_output == config.capture_output
                    &&& s.timeout_sec == config.timeout_sec
                    &&& s.child is None
                    &&& s.exit_code is None
                },
                Err(e) => launch_line(*config, *host) == Err::<Seq<Seq<char>>, _>(e@),
            },
    {
        if config.command.as_str().is_empty() {
            return Err(
                SandboxError::CreationFailed("vxn backend: command must not be empty".to_owned()),
            );
        }
        let bin = match &host.bin {
            Some(s) => s.as_str().to_owned(),
            None => "vxn".to_owned(),
        };
        let image_name = match &host.base_image {
            Some(s) => s.as_str().to_owned(),
            None => match last_component(config.command.as_str()) {
                Some(s) => s,
                None => "docker.io/library/alpine:latest".to_owned(),
            },
        };
        let mut argv: Vec<String> = Vec::new();
        argv.push(bin);
        argv.push("run".to_owned());
        argv.push("--rm".to_owned());
        if config.interactive_terminal {
            argv.push("-it".to_owned());
        }
        match config.policy.network.mode {
            NetworkMode::Block => {
                argv.push("--no-network".to_owned());
            },
            NetworkMode::Allow => {},
            NetworkMode::Proxy => {
                return Err(
                    SandboxError::Unsupported(
                        "vxn backend does not yet enforce 'proxy' network mode; set network.mode to 'block' or 'allow' (managed-inference/proxy support is a TODO -- see axis-integration.md)".to_owned(),
                    ),
                );
            },
        }
        let mut lines = String::new();
        append_env_lines(&mut lines, &config.env);
        append_env_lines(&mut lines, &host.forwarded);
        proof {
            lemma_env_lines_concat(
                text::pair_texts(config.env@),
                text::pair_texts(host.forwarded@),
            );
        }
        assert(lines@ =~= env_lines(guest_env(*config, *host)));
        if !lines.as_str().is_empty() {
            argv.push("--env-b64=".to_owned().concat(encode_word(lines.as_str()).as_str()));
        }
        argv.push(image_name);
        argv.push(build_token(config));
        assert(text::texts(argv@) =~= launch_line(*config, *host)->Ok_0);
        Ok(
            VxnSandbox {
                id: SandboxId(config.id.0.as_str().to_owned()),
                argv,
                capture_output: config.capture_output,
                timeout_sec: config.timeout_sec,
                child: None,
                exit_code: None,
            },
        )
    }
}

/// Grace period after SIGTERM before a hard SIGKILL (timeout / destroy), in seconds.
pub const KILL_GRACE_SEC: u64 = 5;

/// How often a terminated child is looked at within the grace period.
pub const KILL_GRACE_POLLS: u64 = 50;

/// The pause between two looks, in milliseconds.
pub const KILL_POLL_MS: u64 = 100;

/// A signal for the child.
#[derive(Debug, Clone, Copy, PartialEq, Eq, Structural)]
pub enum Signal {
    Terminate,
    Kill,
}

/// What waiting for the child comes to at first.
#[derive(Debug, Clone, Copy, PartialEq, Eq, Structural)]
pub enum WaitStart {
    /// The child has exited before, with this code.
    Exited(i32),
    /// The child is to be waited for, up to a limit in seconds where there is one.
    Await { pid: u32, limit: Option<u64> },
}

/// How far a wait with a limit has come.
#[derive(Debug, Clone, Copy, PartialEq, Eq, Structural)]
pub enum WaitPhase {
    Running,
    Terminating,
}

/// What follows where a wait has run into its limit: a signal, and a new wait.
#[derive(Debug, Clone, Copy, PartialEq, Eq, Structural)]
pub struct Escalation {
    pub signal: Signal,
    /// The limit of the new wait in seconds; none for a wait to the end.
    pub limit: Option<u64>,
    /// The phase of the new wait, where it has a limit.
    pub next: Option<WaitPhase>,
}

/// The end of a wait.
#[derive(Debug)]
pub enum WaitOutcome {
    /// The waiting task was lost.
    JoinFailed(String),
    /// The system could not wait for the child.
    WaitFailed(String),
    /// The child has exited, with a code unless a signal ended it.
    Exited(Option<i32>),
}

/// What a look at the child shows.
#[derive(Debug)]
pub enum PollOutcome {
    Failed(String),
    Running,
    Exited(Option<i32>),
}

/// What to do after a look at a terminated child.
#[derive(Debug, Clone, Copy, PartialEq, Eq, Structural)]
pub enum KillStep {
    Done,
    SleepThenPoll,
    SleepThenKill,
}

/// The exit code that is reported; a child ended by a signal has -1.
pub open spec fn reported_code(code: Option<i32>) -> i32 {
    match code {
        Some(c) => c,
        None => -1i32,
    }
}

fn code_or_minus_one(code: Option<i32>) -> (c: i32)
    ensures
        c == reported_code(code),
{
    match code {
        Some(c) => c,
        None => -1,
    }
}

pub open spec fn spawn_failed<T>(m: Seq<char>) -> Result<T, sandbox_error::SandboxErrorView> {
    Err(sandbox_error::SandboxErrorView::SpawnFailed(m))
}

pub open spec fn start_result(s: VxnSandbox, spawned: Result<u32, String>) -> Result<
    u32,
    sandbox_error::SandboxErrorView,
> {
    if s.child is Some {
        spawn_failed("vxn sandbox already running"@)
    } else {
        match spawned {
            Ok(pid) => Ok(pid),
            Err(e) => spawn_failed("vxn run spawn failed: "@ + e@),
        }
    }
}

/// The sandbox with its child gone and its exit code known.
pub open spec fn exited(s: VxnSandbox, code: i32) -> VxnSandbox {
    VxnSandbox { child: None, exit_code: Some(code), ..s }
}

pub open spec fn begin_wait_result(s: VxnSandbox) -> Result<
    WaitStart,
    sandbox_error::SandboxErrorView,
> {
    match (s.exit_code, s.child) {
        (Some(code), _) => Ok(WaitStart::Exited(code)),
        (None, None) => spawn_failed("no vxn child process"@),
        (None, Some(pid)) => Ok(WaitStart::Await { pid, limit: s.timeout_sec }),
    }
}

/// The sandbox while it is being waited for: the wait has taken the child over.
pub open spec fn waiting(s: VxnSandbox) -> VxnSandbox {
    if s.exit_code is Some {
        s
    } else {
        VxnSandbox { child: None, ..s }
    }
}

pub open spec fn poll_result(s: VxnSandbox, polled: PollOutcome) -> Result<
    Option<i32>,
    sandbox_error::SandboxErrorView,
> {
    if s.exit_code is Some {
        Ok(s.exit_code)
    } else if s.child is None {
        spawn_failed("no vxn child process"@)
    } else {
        match polled {
            PollOutcome::Failed(e) => Err(sandbox_error::SandboxErrorView::Io(e@)),
            PollOutcome::Running => Ok(None),
            PollOutcome::Exited(code) => Ok(Some(reported_code(code))),
        }
    }
}

pub open spec fn polled_state(s: VxnSandbox, polled: PollOutcome) -> VxnSandbox {
    match polled {
        PollOutcome::Exited(code) if s.exit_code is None && s.child is Some => exited(
            s,
            reported_code(code),
        ),
        _ => s,
    }
}

/// The sandbox after its end: no child is left, and an exit code stands for a
/// child that was still there.
pub open spec fn destroyed(s: VxnSandbox) -> VxnSandbox {
    if s.child is None {
        s
    } else {
        exited(
            s,
            match s.exit_code {
                Some(code) => code,
                None => -1i32,
            },
        )
    }
}

impl VxnSandbox {
    /// Whether a child may be spawned: only one at a time.
    pub fn check_start(&self) -> (r: Result<(), SandboxError>)
        ensures
            r is Ok <==> self.child is None,
            r matches Err(e) ==> e@ == sandbox_error::SandboxErrorView::SpawnFailed(
                "vxn sandbox already running"@,
            ),
    {
        if self.child.is_some() {
            Err(SandboxError::SpawnFailed("vxn sandbox already running".to_owned()))
        } else {
            Ok(())
        }
    }

    /// Take over the child that was spawned.
    pub fn start(&mut self, spawned: Result<u32, String>) -> (r: Result<u32, SandboxError>)
        ensures
            match r {
                Ok(pid) => start_result(*old(self), spawned) == Ok::<
                    _,
                    sandbox_error::SandboxErrorView,
                >(pid) && *final(self) == (VxnSandbox { child: Some(pid), ..*old(self) }),
                Err(e) => start_result(*old(self), spawned) == Err::<u32, _>(e@) && *final(self)
                    == *old(self),
            },
    {
        if self.child.is_some() {
            return Err(SandboxError::SpawnFailed("vxn sandbox already running".to_owned()));
        }
        match spawned {
            Ok(pid) => {
                self.child = Some(pid);
                Ok(pid)
            },
            Err(e) => Err(
                SandboxError::SpawnFailed(
                    "vxn run spawn failed: ".to_owned().concat(e.as_str()),
                ),
            ),
        }
    }

    /// Begin to wait for the child. The wait takes the child over.
    pub fn begin_wait(&mut self) -> (r: Result<WaitStart, SandboxError>)
        ensures
            match r {
                Ok(w) => begin_wait_result(*old(self)) == Ok::<_, sandbox_error::SandboxErrorView>(
                    w,
                ),
                Err(e) => begin_wait_result(*old(self)) == Err::<WaitStart, _>(e@),
            },
            *final(self) == waiting(*old(self)),
    {
        if let Some(code) = self.exit_code {
            return Ok(WaitStart::Exited(code));
        }
        match self.child {
            None => Err(SandboxError::SpawnFailed("no vxn child process".to_owned())),
            Some(pid) => {
                self.child = None;
                Ok(WaitStart::Await { pid, limit: self.timeout_sec })
            },
        }
    }

    /// End a wait that has begun.
    pub fn finish_wait(&mut self, outcome: WaitOutcome) -> (r: Result<i32, SandboxError>)
        ensures
            match outcome {
                WaitOutcome::JoinFailed(e) => r matches Err(x) && x@
                    == sandbox_error::SandboxErrorView::IsolationFailed("vxn wait join: "@ + e@)
                    && *final(self) == *old(self),
                WaitOutcome::WaitFailed(e) => r matches Err(x) && x@
                    == sandbox_error::SandboxErrorView::Io(e@) && *final(self) == *old(self),
                WaitOutcome::Exited(code) => r == Ok::<_, SandboxError>(reported_code(code))
                    && *final(self) == (VxnSandbox {
                    exit_code: Some(reported_code(code)),
                    ..*old(self)
                }),
            },
    {
        match outcome {
            WaitOutcome::JoinFailed(e) => Err(
                SandboxError::IsolationFailed("vxn wait join: ".to_owned().concat(e.as_str())),
            ),
            WaitOutcome::WaitFailed(e) => Err(SandboxError::Io(e)),
            WaitOutcome::Exited(code) => {
                let code = code_or_minus_one(code);
                self.exit_code = Some(code);
                Ok(code)
            },
        }
    }

    /// The child that has to be looked at to answer `try_wait`, where one has.
    pub fn poll_target(&self) -> (r: Option<u32>)
        ensures
            r == if self.exit_code is Some {
                None
            } else {
                self.child
            },
    {
        if self.exit_code.is_some() {
            None
        } else {
            self.child
        }
    }

    /// Reap the child if it has already exited. Where there is no child to look
    /// at, what the look showed does not matter.
    pub fn try_wait(&mut self, polled: PollOutcome) -> (r: Result<Option<i32>, SandboxError>)
        ensures
            match r {
                Ok(c) => poll_result(*old(self), polled) == Ok::<
                    _,
                    sandbox_error::SandboxErrorView,
                >(c),
                Err(e) => poll_result(*old(self), polled) == Err::<Option<i32>, _>(e@),
            },
            *final(self) == polled_state(*old(self), polled),
    {
        if let Some(code) = self.exit_code {
            return Ok(Some(code));
        }
        if self.child.is_none() {
            return Err(SandboxError::SpawnFailed("no vxn child process".to_owned()));
        }
        match polled {
            PollOutcome::Failed(e) => Err(SandboxError::Io(e)),
            PollOutcome::Running => Ok(None),
            PollOutcome::Exited(code) => {
                let code = code_or_minus_one(code);
                self.child = None;
                self.exit_code = Some(code);
                Ok(Some(code))
            },
        }
    }

    /// End the sandbox. The result is the child that has to be killed, if any.
    pub fn destroy(&mut self) -> (r: Option<u32>)
        ensures
            r == old(self).child,
            *final(self) == destroyed(*old(self)),
    {
        let child = self.child;
        if child.is_some() {
            self.child = None;
            if self.exit_code.is_none() {
                self.exit_code = Some(-1);
            }
        }
        child
    }
}

/// What follows where a wait has run into its limit.
pub open spec fn escalation(phase: WaitPhase) -> Escalation {
    match phase {
        WaitPhase::Running => Escalation {
            signal: Signal::Terminate,
            limit: Some(KILL_GRACE_SEC),
            next: Some(WaitPhase::Terminating),
        },
        WaitPhase::Terminating => Escalation { signal: Signal::Kill, limit: None, next: None },
    }
}

/// A child that overstays is asked to end first and killed afterwards: a new wait
/// has a limit exactly when something is left to do, and that is only after the
/// first signal, for the grace period.
pub proof fn law_escalation_comes_to_an_end(phase: WaitPhase)
    ensures
        escalation(WaitPhase::Running).signal is Terminate,
        escalation(WaitPhase::Running).limit == Some(5u64),
        escalation(WaitPhase::Running).next == Some(WaitPhase::Terminating),
        escalation(WaitPhase::Terminating).signal is Kill,
        escalation(phase).limit is Some <==> escalation(phase).next is Some,
        escalation(phase).next matches Some(next) ==> escalation(next).next is None,
{
}

/// What follows where a wait has run into its limit: SIGTERM and a grace
/// period, then SIGKILL and a wait to the end.
pub fn escalate(phase: WaitPhase) -> (r: Escalation)
    ensures
        r == escalation(phase),
{
    match phase {
        WaitPhase::Running => Escalation {
            signal: Signal::Terminate,
            limit: Some(KILL_GRACE_SEC),
            next: Some(WaitPhase::Terminating),
        },
        WaitPhase::Terminating => Escalation { signal: Signal::Kill, limit: None, next: None },
    }
}

/// What to do after the `polls`th look at a child that was sent SIGTERM.
pub open spec fn kill_step(polls: u64, exited: bool) -> KillStep {
    if exited {
        KillStep::Done
    } else if polls < KILL_GRACE_POLLS {
        KillStep::SleepThenPoll
    } else {
        KillStep::SleepThenKill
    }
}

/// A child that has exited is left alone. Another one is killed exactly when the
/// pauses between the looks at it have taken up five seconds, and looked at again
/// before that.
pub proof fn law_a_child_is_killed_after_the_grace_period(polls: u64, exited: bool)
    ensures
        kill_step(polls, exited) is Done <==> exited,
        kill_step(polls, exited) is SleepThenKill <==> !exited && polls * KILL_POLL_MS >= 5000,
{
}

/// What to do after the `polls`th look at a child that was sent SIGTERM.
pub fn after_poll(polls: u64, exited: bool) -> (r: KillStep)
    ensures
        r == kill_step(polls, exited),
{
    if exited {
        KillStep::Done
    } else if polls < KILL_GRACE_POLLS {
        KillStep::SleepThenPoll
    } else {
        KillStep::SleepThenKill
    }
}

/// The looks at a terminated child take up the whole grace period and no more.
pub proof fn law_polls_fill_the_grace_period()
    ensures
        KILL_GRACE_POLLS * KILL_POLL_MS == KILL_GRACE_SEC * 1000,
{
}

/// Ending a sandbox twice is the same as ending it once, and kills nothing the
/// second time.
pub proof fn law_destroy_is_idempotent(s: VxnSandbox)
    ensures
        destroyed(s).child is None,
        destroyed(destroyed(s)) == destroyed(s),
{
}

/// An exit code that is known stays: waiting, looking and ending the sandbox
/// report it and do not change it.
pub proof fn law_exit_code_is_final(s: VxnSandbox, polled: PollOutcome, code: i32)
    requires
        s.exit_code == Some(code),
    ensures
        begin_wait_result(s) == Ok::<_, sandbox_error::SandboxErrorView>(WaitStart::Exited(code)),
        waiting(s).exit_code == Some(code),
        poll_result(s, polled) == Ok::<_, sandbox_error::SandboxErrorView>(Some(code)),
        polled_state(s, polled).exit_code == Some(code),
        destroyed(s).exit_code == Some(code),
{
}

/// A sandbox that was ended while its child ran has an exit code.
pub proof fn law_ended_child_has_an_exit_code(s: VxnSandbox)
    requires
        s.child is Some,
    ensures
        destroyed(s).exit_code is Some,
{
}

/// The proxy mode is never weakened: there is no command line for it. A command
/// line stands for blocked or open network only.
pub proof fn law_proxy_mode_fails_closed(config: SandboxConfig, host: VxnHost)
    ensures
        config.policy.network.mode == NetworkMode::Proxy ==> launch_line(config, host) is Err,
        launch_line(config, host) is Ok <==> config.command@.len() > 0
            && config.policy.network.mode != NetworkMode::Proxy,
{
}

/// The DomU has no network exactly where the policy blocks it.
pub proof fn law_blocked_network_has_no_interface(config: SandboxConfig, host: VxnHost)
    ensures
        run_options(config, host).contains("--no-network"@) <==> config.policy.network.mode
            == NetworkMode::Block,
{
    reveal_strlit("run");
    reveal_strlit("--rm");
    reveal_strlit("-it");
    reveal_strlit("--no-network");
    reveal_strlit("--env-b64=");
    let options = run_options(config, host);
    let flag = "--no-network"@;
    let lines = env_lines(guest_env(config, host));
    let env_flag = "--env-b64="@ + opaque_word(lines);
    assert(env_flag[2] == 'e');
    assert(flag[0] == '-' && flag[1] == '-' && flag[2] == 'n');
    let at: int = if config.interactive_terminal {
        3
    } else {
        2
    };
    if config.policy.network.mode == NetworkMode::Block {
        assert(options[at] == flag);
    } else {
        assert forall|i: int| 0 <= i < options.len() implies options[i] != flag by {
            if i == 0 {
                assert(options[i] == "run"@);
                assert(options[i][0] == 'r');
            } else if i == 1 {
                assert(options[i] == "--rm"@);
                assert(options[i][2] == 'r');
            } else if i == 2 && config.interactive_terminal {
                assert(options[i] == "-it"@);
                assert(options[i][1] == 'i');
            } else {
                assert(options[i] == env_flag);
            }
        }
    }
}

/// The guest reads the variables out of one option, byte for byte.
pub proof fn law_guest_reads_the_env_back(config: SandboxConfig, host: VxnHost)
    requires
        env_lines(guest_env(config, host)).len() > 0,
    ensures
        ({
            let lines = env_lines(guest_env(config, host));
            &&& run_options(config, host).last() == "--env-b64="@ + opaque_word(lines)
            &&& base64::base64_bytes(opaque_word(lines)) == Some(vstd::utf8::encode_utf8(lines))
        }),
{
    base64::law_decode_undoes_encode(
        vstd::utf8::encode_utf8(env_lines(guest_env(config, host))),
    );
}

/// The guest reads exactly the command line that the sandbox was given.
pub proof fn law_guest_reads_the_command_back(words: Seq<Seq<char>>)
    requires
        words.len() > 0,
    ensures
        token_words(argv_token(words)) == Some(words),
{
    let mark = "__VXNARGV__"@;
    let coded = words.map_values(|w: Seq<char>| opaque_word(w));
    let token = argv_token(words);
    let rest = token.skip(mark.len() as int);
    assert(token.subrange(0, mark.len() as int) =~= mark);
    assert(rest =~= text::join(coded, ','));
    assert forall|i: int| 0 <= i < coded.len() implies !(#[trigger] coded[i]).contains(',') by {
        base64::law_base64_alphabet(vstd::utf8::encode_utf8(words[i]));
        if coded[i].contains(',') {
            let k = coded[i].index_of(',');
            assert(base64::is_base64_char(coded[i][k]));
        }
    }
    text::lemma_split_join(coded, ',');
    let parts = text::split(rest, ',');
    assert forall|i: int| 0 <= i < parts.len() implies base64::base64_bytes(#[trigger] parts[i])
        == Some(vstd::utf8::encode_utf8(words[i])) by {
        assert(parts[i] == opaque_word(words[i]));
        base64::law_decode_undoes_encode(vstd::utf8::encode_utf8(words[i]));
    }
    let read = parts.map_values(
        |p: Seq<char>| vstd::utf8::decode_utf8(base64::base64_bytes(p)->0),
    );
    assert forall|i: int| 0 <= i < words.len() implies read[i] == words[i] by {
        assert(base64::base64_bytes(parts[i]) == Some(vstd::utf8::encode_utf8(words[i])));
        vstd::utf8::encode_utf8_decode_utf8(words[i]);
    }
    assert(read =~= words);
}

/// A character that no shell and no option parser takes for anything else.
pub open spec fn is_inert(c: char) -> bool {
    base64::is_base64_char(c) || c == ',' || c == '_'
}

/// The word that carries the command line starts with `_` and holds no
/// character that a shell or an option parser could act on.
pub proof fn law_token_is_one_inert_word(words: Seq<Seq<char>>)
    requires
        words.len() > 0,
    ensures
        argv_token(words).len() > 0,
        argv_token(words)[0] == '_',
        forall|i: int|
            0 <= i < argv_token(words).len() ==> is_inert(#[trigger] argv_token(words)[i]),
{
    reveal_strlit("__VXNARGV__");
    let mark = "__VXNARGV__"@;
    let coded = words.map_values(|w: Seq<char>| opaque_word(w));
    let token = argv_token(words);
    assert forall|k: int, i: int| 0 <= k < coded.len() && 0 <= i < coded[k].len() implies is_inert(
        #[trigger] coded[k][i],
    ) by {
        base64::law_base64_alphabet(vstd::utf8::encode_utf8(words[k]));
        assert(base64::is_base64_char(base64::base64_text(vstd::utf8::encode_utf8(words[k]))[i]));
    }
    lemma_joined_inert(coded);
    assert forall|i: int| 0 <= i < token.len() implies is_inert(#[trigger] token[i]) by {
        if i < mark.len() {
            assert(token[i] == mark[i]);
        } else {
            assert(token[i] == text::join(coded, ',')[i - mark.len()]);
        }
    }
}

proof fn lemma_joined_inert(parts: Seq<Seq<char>>)
    requires
        forall|k: int, i: int|
            0 <= k < parts.len() && 0 <= i < parts[k].len() ==> is_inert(#[trigger] parts[k][i]),
    ensures
        forall|i: int|
            0 <= i < text::join(parts, ',').len() ==> is_inert(
                #[trigger] text::join(parts, ',')[i],
            ),
    decreases parts.len(),
{
    let s = text::join(parts, ',');
    if parts.len() > 1 {
        let rest = parts.skip(1);
        assert forall|k: int, i: int| 0 <= k < rest.len() && 0 <= i < rest[k].len() implies is_inert(
            #[trigger] rest[k][i],
        ) by {
            assert(rest[k] == parts[k + 1]);
            assert(is_inert(parts[k + 1][i]));
        }
        lemma_joined_inert(rest);
        let n = parts[0].len() as int;
        assert(s == parts[0] + seq![','] + text::join(rest, ','));
        assert forall|i: int| 0 <= i < s.len() implies is_inert(#[trigger] s[i]) by {
            if i < n {
                assert(s[i] == parts[0][i]);
            } else if i > n {
                assert(s[i] == text::join(rest, ',')[i - n - 1]);
            }
        }
    } else if parts.len() == 1 {
        assert forall|i: int| 0 <= i < s.len() implies is_inert(#[trigger] s[i]) by {
            assert(s[i] == parts[0][i]);
        }
    }
}

/// A command is called like the last component of its path, without a slash at
/// the end; one that ends in `..` has no name.
pub proof fn law_command_is_called_like_its_file(dir: Seq<char>, name: Seq<char>)
    requires
        name.len() > 0,
        !name.contains('/'),
        name != seq!['.'],
    ensures
        ({
            let called = if name == seq!['.', '.'] {
                None
            } else {
                Some(name)
            };
            &&& command_name(name) == called
            &&& command_name(dir.push('/') + name) == called
            &&& command_name((dir.push('/') + name).push('/')) == called
        }),
{
    reveal(Seq::filter);
    let keep = |p: Seq<char>| is_path_name(p);
    let none = Seq::<char>::empty();
    let one = seq![name];
    assert(text::join(one, '/') =~= name);
    text::lemma_split_join(one, '/');
    assert(one.drop_last() =~= Seq::<Seq<char>>::empty());
    assert(one.filter(keep) =~= seq![name]);
    let pieces = text::split(dir, '/');
    text::lemma_join_split(dir, '/');
    let all = pieces.push(name);
    text::lemma_join_push(pieces, name, '/');
    assert(dir.push('/') + name =~= text::join(all, '/'));
    text::lemma_split_join(all, '/');
    assert(all.drop_last() =~= pieces);
    assert(all.filter(keep) == pieces.filter(keep).push(name));
    let more = all.push(none);
    text::lemma_join_push(all, none, '/');
    assert((dir.push('/') + name).push('/') =~= text::join(more, '/'));
    text::lemma_split_join(more, '/');
    assert(more.drop_last() =~= all);
    assert(more.filter(keep) == all.filter(keep));
}

/// A list of names is read name by name, without the space round each, and what
/// is empty is left out.
pub proof fn law_names_are_read_one_by_one(list: Seq<char>, item: Seq<char>)
    requires
        !item.contains(','),
    ensures
        listed_names(item) == if text::trim(item).len() > 0 {
            seq![text::trim(item)]
        } else {
            seq![]
        },
        listed_names(list.push(',') + item) == if text::trim(item).len() > 0 {
            listed_names(list).push(text::trim(item))
        } else {
            listed_names(list)
        },
{
    reveal(Seq::filter);
    let keep = |p: Seq<char>| p.len() > 0;
    let trim = |p: Seq<char>| text::trim(p);
    let one = seq![item];
    assert(text::join(one, ',') =~= item);
    text::lemma_split_join(one, ',');
    assert(one.map_values(trim) =~= seq![text::trim(item)]);
    assert(seq![text::trim(item)].drop_last() =~= Seq::<Seq<char>>::empty());
    assert(Seq::<Seq<char>>::empty().filter(keep) =~= Seq::<Seq<char>>::empty());
    assert(listed_names(item) == one.map_values(trim).filter(keep));
    assert(listed_names(item) =~= if text::trim(item).len() > 0 {
        seq![text::trim(item)]
    } else {
        seq![]
    });
    let pieces = text::split(list, ',');
    text::lemma_join_split(list, ',');
    let all = pieces.push(item);
    text::lemma_join_push(pieces, item, ',');
    assert(list.push(',') + item =~= text::join(all, ','));
    text::lemma_split_join(all, ',');
    assert(all.map_values(trim) =~= pieces.map_values(trim).push(text::trim(item)));
    assert(all.map_values(trim).drop_last() =~= pieces.map_values(trim));
}

/// Of the names that the operator gives, those that the host has are forwarded
/// with their values, in their order, and the others are left out.
pub proof fn law_named_variables_are_forwarded(
    names: Seq<Seq<char>>,
    values: Seq<Option<Seq<char>>>,
    name: Seq<char>,
    value: Option<Seq<char>>,
)
    requires
        names.len() == values.len(),
    ensures
        set_variables(Seq::empty(), values).len() == 0,
        set_variables(names.push(name), values.push(value)) == match value {
            Some(v) => set_variables(names, values).push((name, v)),
            None => set_variables(names, values),
        },
{
    assert(names.push(name).drop_last() =~= names);
    lemma_set_variables_prefix(names, values, values.push(value));
}

proof fn lemma_set_variables_prefix(
    names: Seq<Seq<char>>,
    a: Seq<Option<Seq<char>>>,
    b: Seq<Option<Seq<char>>>,
)
    requires
        forall|i: int| 0 <= i < names.len() ==> a[i] == b[i],
    ensures
        set_variables(names, a) == set_variables(names, b),
    decreases names.len(),
{
    if names.len() > 0 {
        lemma_set_variables_prefix(names.drop_last(), a, b);
    }
}

/// The guest gets one line for each variable, its name, an equals sign and its
/// value: those of the sandbox first, then the forwarded ones.
pub proof fn law_one_line_for_each_variable(
    env: Seq<(Seq<char>, Seq<char>)>,
    name: Seq<char>,
    value: Seq<char>,
    config: SandboxConfig,
    host: VxnHost,
)
    ensures
        env_lines(Seq::empty()).len() == 0,
        env_lines(env.push((name, value))) == env_lines(env) + name + seq!['='] + value + seq![
            '\n',
        ],
        env_lines(guest_env(config, host)) == env_lines(text::pair_texts(config.env@)) + env_lines(
            text::pair_texts(host.forwarded@),
        ),
{
    reveal_strlit("=");
    reveal_strlit("\n");
    assert("="@ =~= seq!['=']);
    assert("\n"@ =~= seq!['\n']);
    assert(env.push((name, value)).drop_last() =~= env);
    lemma_env_lines_concat(
        text::pair_texts(config.env@),
        text::pair_texts(host.forwarded@),
    );
}

/// The word for the guest is its mark and the words of the command in base64,
/// with commas between them.
pub proof fn law_words_are_encoded_one_by_one(words: Seq<Seq<char>>, word: Seq<char>)
    ensures
        argv_token(seq![word]) == "__VXNARGV__"@ + base64::base64_text(
            vstd::utf8::encode_utf8(word),
        ),
        words.len() > 0 ==> argv_token(words.push(word)) == argv_token(words) + seq![',']
            + base64::base64_text(vstd::utf8::encode_utf8(word)),
{
    let code = |w: Seq<char>| opaque_word(w);
    assert(seq![word].map_values(code) =~= seq![opaque_word(word)]);
    if words.len() > 0 {
        let coded = words.map_values(code);
        assert(words.push(word).map_values(code) =~= coded.push(opaque_word(word)));
        text::lemma_join_push(coded, opaque_word(word), ',');
        assert(argv_token(words.push(word)) =~= argv_token(words) + seq![','] + opaque_word(word));
    }
}

/// The command line of the child: the binary that the host names or `vxn`, `run`
/// and `--rm`; `-it` exactly for a terminal and `--no-network` exactly where the
/// network is blocked, then the variables where there are any; and at the end the
/// image and the word with the whole command.
pub proof fn law_command_line_of_the_child(config: SandboxConfig, host: VxnHost)
    requires
        launch_line(config, host) is Ok,
    ensures
        ({
            let line = launch_line(config, host)->Ok_0;
            let n = line.len() as int;
            let it: int = if config.interactive_terminal {
                1
            } else {
                0
            };
            let block: int = if config.policy.network.mode is Block {
                1
            } else {
                0
            };
            let vars = env_lines(text::pair_texts(config.env@) + text::pair_texts(host.forwarded@));
            let env: int = if vars.len() > 0 {
                1
            } else {
                0
            };
            &&& n == 5 + it + block + env
            &&& line[0] == if host.bin is Some {
                host.bin->0@
            } else {
                "vxn"@
            }
            &&& line[1] == "run"@
            &&& line[2] == "--rm"@
            &&& it == 1 ==> line[3] == "-it"@
            &&& block == 1 ==> line[3 + it] == "--no-network"@
            &&& env == 1 ==> line[3 + it + block] == "--env-b64="@ + base64::base64_text(
                vstd::utf8::encode_utf8(vars),
            )
            &&& line[n - 2] == if host.base_image is Some {
                host.base_image->0@
            } else if command_name(config.command@) is Some {
                command_name(config.command@)->0
            } else {
                "docker.io/library/alpine:latest"@
            }
            &&& line[n - 1] == argv_token(seq![config.command@] + text::texts(config.args@))
        }),
{
    let line = launch_line(config, host)->Ok_0;
    let options = run_options(config, host);
    let n = line.len() as int;
    assert(line[0] == binary(host));
    assert forall|i: int| 0 <= i < options.len() implies line[i + 1] == #[trigger] options[i] by {}
    assert(options[0] == "run"@);
    assert(options[1] == "--rm"@);
    assert(line[n - 2] == image(config, host));
    assert(line[n - 1] == argv_token(command_words(config)));
    let it: int = if config.interactive_terminal {
        1
    } else {
        0
    };
    let block: int = if config.policy.network.mode is Block {
        1
    } else {
        0
    };
    if it == 1 {
        assert(options[2] == "-it"@);
    }
    if block == 1 {
        assert(options[2 + it] == "--no-network"@);
    }
    if env_lines(guest_env(config, host)).len() > 0 {
        assert(options[2 + it + block] == "--env-b64="@ + opaque_word(
            env_lines(guest_env(config, host)),
        ));
    }
}

/// Why there is no command line: a command that is empty, or else the proxy mode.
pub proof fn law_why_there_is_no_command_line(config: SandboxConfig, host: VxnHost)
    ensures
        config.command@.len() == 0 ==> launch_line(config, host) == Err::<Seq<Seq<char>>, _>(
            sandbox_error::SandboxErrorView::CreationFailed(
                "vxn backend: command must not be empty"@,
            ),
        ),
        config.command@.len() > 0 && config.policy.network.mode is Proxy ==> launch_line(
            config,
            host,
        ) is Err && launch_line(config, host)->Err_0 is Unsupported,
{
}

/// A child that is looked at and has exited is gone, and its code is known: its
/// own, or -1 where a signal ended it. One that still runs, or cannot be looked
/// at, stays; and where there is neither a child nor a code there is nothing to
/// look at.
pub proof fn law_what_a_look_at_the_child_does(s: VxnSandbox, polled: PollOutcome)
    requires
        s.exit_code is None,
    ensures
        s.child is None ==> poll_result(s, polled) == Err::<Option<i32>, _>(
            sandbox_error::SandboxErrorView::SpawnFailed("no vxn child process"@),
        ) && polled_state(s, polled) == s,
        s.child is Some ==> {
            &&& polled matches PollOutcome::Exited(code) ==> {
                let known = if code is Some {
                    code->0
                } else {
                    -1i32
                };
                &&& poll_result(s, polled) == Ok::<_, sandbox_error::SandboxErrorView>(Some(known))
                &&& polled_state(s, polled) == (VxnSandbox {
                    child: None,
                    exit_code: Some(known),
                    ..s
                })
            }
            &&& polled is Running ==> poll_result(s, polled) == Ok::<
                _,
                sandbox_error::SandboxErrorView,
            >(None::<i32>) && polled_state(s, polled) == s
            &&& polled matches PollOutcome::Failed(e) ==> poll_result(s, polled) == Err::<
                Option<i32>,
                _,
            >(sandbox_error::SandboxErrorView::Io(e@)) && polled_state(s, polled) == s
        },
{
}

/// One child at a time: a second start is refused, and a start that failed says
/// why.
pub proof fn law_one_child_at_a_time(s: VxnSandbox, spawned: Result<u32, String>)
    ensures
        s.child is Some ==> start_result(s, spawned) == Err::<u32, _>(
            sandbox_error::SandboxErrorView::SpawnFailed("vxn sandbox already running"@),
        ),
        s.child is None ==> match spawned {
            Ok(pid) => start_result(s, spawned) == Ok::<_, sandbox_error::SandboxErrorView>(pid),
            Err(e) => start_result(s, spawned) == Err::<u32, _>(
                sandbox_error::SandboxErrorView::SpawnFailed("vxn run spawn failed: "@ + e@),
            ),
        },
{
}

/// A wait takes the child over with the time limit of the sandbox; without a
/// child and without a code there is nothing to wait for.
pub proof fn law_what_a_wait_begins_with(s: VxnSandbox)
    requires
        s.exit_code is None,
    ensures
        s.child matches Some(pid) ==> begin_wait_result(s) == Ok::<
            _,
            sandbox_error::SandboxErrorView,
        >(WaitStart::Await { pid, limit: s.timeout_sec }),
        s.child is None ==> begin_wait_result(s) == Err::<WaitStart, _>(
            sandbox_error::SandboxErrorView::SpawnFailed("no vxn child process"@),
        ),
        waiting(s) == (VxnSandbox { child: None, ..s }),
{
}

/// A sandbox that is ended while its child runs and that has no code yet gets -1;
/// without a child nothing changes.
pub proof fn law_what_ending_a_sandbox_does(s: VxnSandbox)
    ensures
        s.child is None ==> destroyed(s) == s,
        s.child is Some && s.exit_code is None ==> destroyed(s) == (VxnSandbox {
            child: None,
            exit_code: Some(-1i32),
            ..s
        }),
        s.child is Some && s.exit_code is Some ==> destroyed(s) == (VxnSandbox {
            child: None,
            ..s
        }),
{
}

} // verus!
