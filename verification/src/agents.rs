//! Agents on the command line: `axis <agent> ..`, installing and uninstalling.

use vstd::prelude::*;
use vstd::string::*;
use crate::text;

verus! {

/// An agent that can be installed: the name of its binary and the name that it
/// is installed under.
#[derive(Debug)]
pub struct KnownAgent {
    pub binary: String,
    pub install: String,
}

/// The name that a binary is installed under: that of the first agent with it.
pub open spec fn install_name(agents: Seq<KnownAgent>, binary: Seq<char>) -> Option<Seq<char>>
    decreases agents.len(),
{
    if agents.len() == 0 {
        None
    } else if agents[0].binary@ == binary {
        Some(agents[0].install@)
    } else {
        install_name(agents.skip(1), binary)
    }
}

/// Known agent binary names and their install names.
pub fn known_agent<'a>(agents: &'a Vec<KnownAgent>, binary_name: &str) -> (r: Option<&'a str>)
    ensures
        text::str_view(r) == install_name(agents@, binary_name@),
{
    assert(agents@.skip(0) =~= agents@);
    for i in 0..agents.len()
        invariant
            install_name(agents@, binary_name@) == install_name(
                agents@.skip(i as int),
                binary_name@,
            ),
    {
        let ghost rest = agents@.skip(i as int);
        assert(rest[0] == agents@[i as int]);
        assert(rest.skip(1) =~= agents@.skip(i + 1));
        if text::same(agents[i].binary.as_str(), binary_name) {
            return Some(agents[i].install.as_str());
        }
    }
    None
}

fn agent(binary: &str, install: &str) -> (r: KnownAgent)
    ensures
        r.binary@ == binary@,
        r.install@ == install@,
{
    KnownAgent { binary: binary.to_owned(), install: install.to_owned() }
}

pub open spec fn agent_names(agents: Seq<KnownAgent>) -> Seq<(Seq<char>, Seq<char>)> {
    agents.map_values(|a: KnownAgent| (a.binary@, a.install@))
}

/// The names of the agents that are known without further registration.
pub open spec fn bundled_names() -> Seq<(Seq<char>, Seq<char>)> {
    seq![
        ("codex"@, "codex"@),
        ("openclaw"@, "openclaw"@),
        ("ironclaw"@, "ironclaw"@),
        ("aider"@, "aider"@),
        ("goose"@, "goose"@),
        ("gemini"@, "gemini-cli"@),
        ("opencode"@, "opencode"@),
    ]
}

/// The agents that are known without further registration.
pub fn bundled_agents() -> (r: Vec<KnownAgent>)
    ensures
        agent_names(r@) == bundled_names(),
{
    let r: Vec<KnownAgent> = vec![
        agent("codex", "codex"),
        agent("openclaw", "openclaw"),
        agent("ironclaw", "ironclaw"),
        agent("aider", "aider"),
        agent("goose", "goose"),
        agent("gemini", "gemini-cli"),
        agent("opencode", "opencode"),
    ];
    assert(agent_names(r@) =~= bundled_names());
    r
}

/// The agent that a line `binary = install name` registers; any other line
/// registers none.
pub open spec fn registration(line: Seq<char>) -> Option<(Seq<char>, Seq<char>)> {
    let sides = text::split(line, '=');
    if sides.len() == 2 && text::trim(sides[0]).len() > 0 && text::trim(sides[1]).len() > 0 {
        Some((text::trim(sides[0]), text::trim(sides[1])))
    } else {
        None
    }
}

/// The agents that some lines register, in their order.
pub open spec fn registrations(lines: Seq<Seq<char>>) -> Seq<(Seq<char>, Seq<char>)>
    decreases lines.len(),
{
    if lines.len() == 0 {
        seq![]
    } else {
        match registration(lines.last()) {
            Some(a) => registrations(lines.drop_last()).push(a),
            None => registrations(lines.drop_last()),
        }
    }
}

fn read_registration(line: &Vec<char>) -> (r: Option<KnownAgent>)
    ensures
        match r {
            Some(a) => registration(line@) == Some((a.binary@, a.install@)),
            None => registration(line@) is None,
        },
{
    let sides = text::split_text(line, '=');
    let ghost pieces = text::split(line@, '=');
    if sides.len() != 2 {
        return None;
    }
    assert(pieces[0] == sides@[0]@ && pieces[1] == sides@[1]@);
    let binary = text::trimmed(&sides[0]);
    let install = text::trimmed(&sides[1]);
    if binary.len() == 0 || install.len() == 0 {
        return None;
    }
    Some(KnownAgent { binary: text::from_chars(&binary), install: text::from_chars(&install) })
}

/// The agents that are known: the bundled ones, then those that the lines of
/// `registered` add.
pub fn known_agents(registered: &str) -> (r: Vec<KnownAgent>)
    ensures
        agent_names(r@) == bundled_names() + registrations(text::split(registered@, '\n')),
{
    let lines = text::split_text(&text::to_chars(registered), '\n');
    let ghost all = text::split(registered@, '\n');
    let mut r = bundled_agents();
    assert(all.take(0) =~= Seq::<Seq<char>>::empty());
    assert(agent_names(r@) =~= bundled_names() + registrations(all.take(0)));
    for i in 0..lines.len()
        invariant
            all == lines@.map_values(|p: Vec<char>| p@),
            agent_names(r@) == bundled_names() + registrations(all.take(i as int)),
    {
        assert(all.take(i + 1).drop_last() =~= all.take(i as int));
        assert(all.take(i + 1).last() == lines@[i as int]@);
        if let Some(a) = read_registration(&lines[i]) {
            let ghost before = r@;
            r.push(a);
            assert(agent_names(r@) =~= agent_names(before).push((a.binary@, a.install@)));
            assert(agent_names(r@) =~= bundled_names() + registrations(all.take(i + 1)));
        }
    }
    assert(all.take(all.len() as int) =~= all);
    r
}

/// The words that `axis` keeps for itself.
pub open spec fn is_builtin(word: Seq<char>) -> bool {
    ||| word == "create"@
    ||| word == "exec"@
    ||| word == "destroy"@
    ||| word == "list"@
    ||| word == "logs"@
    ||| word == "run"@
    ||| word == "install"@
    ||| word == "uninstall"@
    ||| word == "policy"@
    ||| word == "model"@
    ||| word == "inference"@
    ||| word == "__axis-pty-bridge"@
    ||| word == "help"@
}

fn builtin(word: &str) -> (r: bool)
    ensures
        r == is_builtin(word@),
{
    text::same(word, "create") || text::same(word, "exec") || text::same(word, "destroy")
        || text::same(word, "list") || text::same(word, "logs") || text::same(word, "run")
        || text::same(word, "install") || text::same(word, "uninstall") || text::same(word, "policy")
        || text::same(word, "model") || text::same(word, "inference") || text::same(
        word,
        "__axis-pty-bridge",
    ) || text::same(word, "help")
}

/// The agent that a command line names: its first word, where that is neither an
/// option nor a word of `axis` itself.
pub open spec fn named_agent(args: Seq<Seq<char>>) -> Option<Seq<char>> {
    if args.len() < 2 || (args[1].len() > 0 && args[1][0] == '-') || is_builtin(args[1]) {
        None
    } else {
        Some(args[1])
    }
}

pub fn agent_subcommand(args: &Vec<String>) -> (r: Option<String>)
    ensures
        text::option_view(r) == named_agent(text::texts(args@)),
{
    if args.len() < 2 {
        return None;
    }
    let word = args[1].as_str();
    assert(text::texts(args@)[1] == word@);
    let v = text::to_chars(word);
    if (v.len() > 0 && v[0] == '-') || builtin(word) {
        None
    } else {
        Some(word.to_owned())
    }
}

/// The file that runs an agent, in the AXIS bin directory.
pub open spec fn wrapper_of(agent: Seq<char>, windows: bool) -> Seq<char> {
    if windows {
        agent + ".cmd"@
    } else {
        agent
    }
}

pub fn wrapper_name(agent: &str, windows: bool) -> (s: String)
    ensures
        s@ == wrapper_of(agent@, windows),
{
    if windows {
        agent.to_owned().concat(".cmd")
    } else {
        agent.to_owned()
    }
}

/// How a child process ended.
#[derive(Debug, Clone, Copy, PartialEq, Eq, Structural)]
pub enum ChildEnd {
    NotStarted,
    Ended { success: bool, code: Option<i32> },
}

/// What to do about a word that names an agent.
#[derive(Debug, Clone, Copy, PartialEq, Eq, Structural)]
pub enum AgentStep {
    /// The word is left to the ordinary commands.
    NotAnAgent,
    RunWrapper,
    /// Offer to install the agent first.
    OfferInstall,
}

/// What to do about the agent `agent`: run it where it is installed, offer to
/// install it where it is known.
pub open spec fn step_for(
    agents: Seq<KnownAgent>,
    agent: Seq<char>,
    wrapper_exists: bool,
) -> AgentStep {
    if wrapper_exists {
        AgentStep::RunWrapper
    } else if install_name(agents, agent) is Some {
        AgentStep::OfferInstall
    } else {
        AgentStep::NotAnAgent
    }
}

pub fn agent_step(agents: &Vec<KnownAgent>, agent: &str, wrapper_exists: bool) -> (r: AgentStep)
    ensures
        r == step_for(agents@, agent@, wrapper_exists),
{
    if wrapper_exists {
        AgentStep::RunWrapper
    } else if known_agent(agents, agent).is_some() {
        AgentStep::OfferInstall
    } else {
        AgentStep::NotAnAgent
    }
}

/// The exit code that a child hands on; none where it could not be started.
pub open spec fn exit_of(end: ChildEnd) -> Option<i32> {
    match end {
        ChildEnd::NotStarted => None,
        ChildEnd::Ended { success: _, code: Some(c) } => Some(c),
        ChildEnd::Ended { success: _, code: None } => Some(1i32),
    }
}

pub fn child_exit(end: ChildEnd) -> (r: Option<i32>)
    ensures
        r == exit_of(end),
{
    match end {
        ChildEnd::NotStarted => None,
        ChildEnd::Ended { success: _, code } => match code {
            Some(c) => Some(c),
            None => Some(1),
        },
    }
}

/// The question whether an agent is to be installed.
pub fn install_prompt(agent: &str, install: &str) -> (s: String)
    ensures
        s@ == "'"@ + agent@
            + "' is not installed. Install it with AXIS sandbox protection?\n\n  This will:\n    - Install "@
            + agent@ + " to ~/.axis/tools/"@ + install@
            + "/\n    - Create a sandboxed wrapper at ~/.axis/bin/"@ + agent@
            + "\n    - Apply default-deny network + filesystem policy\n\nInstall "@ + agent@
            + "? [Y/n] "@,
{
    "'".to_owned().concat(agent).concat(
        "' is not installed. Install it with AXIS sandbox protection?\n\n  This will:\n    - Install ",
    ).concat(agent).concat(" to ~/.axis/tools/").concat(install).concat(
        "/\n    - Create a sandboxed wrapper at ~/.axis/bin/",
    ).concat(agent).concat(
        "\n    - Apply default-deny network + filesystem policy\n\nInstall ",
    ).concat(agent).concat("? [Y/n] ")
}

/// Whether an answer is a yes: `y` or `yes` in any case, or nothing at all.
pub open spec fn is_yes(answer: Seq<char>) -> bool {
    let t = text::trim(answer);
    t.len() == 0 || text::same_ignoring_case(t, "y"@) || text::same_ignoring_case(t, "yes"@)
}

/// What to do after the question was put.
#[derive(Debug, Clone, Copy, PartialEq, Eq, Structural)]
pub enum InstallStep {
    Exit(i32),
    Install,
    Decline,
}

/// What follows from the answer; none stands for input that cannot be read.
pub open spec fn step_on_answer(answer: Option<Seq<char>>) -> InstallStep {
    match answer {
        None => InstallStep::Exit(1),
        Some(s) => if is_yes(s) {
            InstallStep::Install
        } else {
            InstallStep::Decline
        },
    }
}

pub fn install_step(answer: Option<&str>) -> (r: InstallStep)
    ensures
        r == step_on_answer(text::str_view(answer)),
{
    match answer {
        None => InstallStep::Exit(1),
        Some(s) => {
            let t = text::from_chars(&text::trimmed(&text::to_chars(s)));
            if t.as_str().is_empty() || text::eq_ignore_case(t.as_str(), "y")
                || text::eq_ignore_case(t.as_str(), "yes") {
                InstallStep::Install
            } else {
                InstallStep::Decline
            }
        },
    }
}

/// What to do after an installation.
#[derive(Debug, Clone, Copy, PartialEq, Eq, Structural)]
pub enum AfterInstall {
    /// The installer could not be started: go on as if nothing was asked.
    FallThrough,
    Exit(i32),
    RunWrapper,
    /// The installer succeeded and left no wrapper: an error.
    WrapperMissing,
}

/// What follows from how the installer ended.
pub open spec fn step_after_install(end: ChildEnd, wrapper_exists: bool) -> AfterInstall {
    match end {
        ChildEnd::NotStarted => AfterInstall::FallThrough,
        ChildEnd::Ended { success, code } => if !success {
            AfterInstall::Exit(
                match code {
                    Some(c) => c,
                    None => 1i32,
                },
            )
        } else if wrapper_exists {
            AfterInstall::RunWrapper
        } else {
            AfterInstall::WrapperMissing
        },
    }
}

pub fn after_install(end: ChildEnd, wrapper_exists: bool) -> (r: AfterInstall)
    ensures
        r == step_after_install(end, wrapper_exists),
{
    match end {
        ChildEnd::NotStarted => AfterInstall::FallThrough,
        ChildEnd::Ended { success, code } => if !success {
            AfterInstall::Exit(
                match code {
                    Some(c) => c,
                    None => 1,
                },
            )
        } else if wrapper_exists {
            AfterInstall::RunWrapper
        } else {
            AfterInstall::WrapperMissing
        },
    }
}

/// The arguments of the install script.
pub open spec fn script_arguments(
    use_system: bool,
    list: bool,
    all: bool,
    agents: Seq<Seq<char>>,
) -> Seq<Seq<char>> {
    let system: Seq<Seq<char>> = if use_system {
        seq!["--use-system"@]
    } else {
        seq![]
    };
    system + if list {
        seq!["--list"@]
    } else if all {
        seq!["--all"@]
    } else if agents.len() == 0 {
        seq!["--help"@]
    } else {
        agents
    }
}

pub fn install_arguments(use_system: bool, list: bool, all: bool, agents: &Vec<String>) -> (r: Vec<
    String,
>)
    ensures
        text::texts(r@) == script_arguments(use_system, list, all, text::texts(agents@)),
{
    let mut r: Vec<String> = Vec::new();
    if use_system {
        r.push("--use-system".to_owned());
    }
    let ghost system = text::texts(r@);
    let ghost names = text::texts(agents@);
    if list {
        r.push("--list".to_owned());
    } else if all {
        r.push("--all".to_owned());
    } else if agents.len() == 0 {
        r.push("--help".to_owned());
    } else {
        assert(system + names.take(0) =~= system);
        for i in 0..agents.len()
            invariant
                names == text::texts(agents@),
                text::texts(r@) == system + names.take(i as int),
        {
            let ghost before = r@;
            let s = agents[i].as_str().to_owned();
            r.push(s);
            assert(text::texts(r@) =~= text::texts(before).push(s@));
            assert(names.take(i + 1) =~= names.take(i as int).push(names[i as int]));
        }
        assert(names.take(names.len() as int) =~= names);
    }
    assert(text::texts(r@) =~= script_arguments(use_system, list, all, names));
    r
}

/// The names with `','` between them.
pub open spec fn quoted_list(agents: Seq<Seq<char>>) -> Seq<char>
    decreases agents.len(),
{
    if agents.len() == 0 {
        seq![]
    } else if agents.len() == 1 {
        agents[0]
    } else {
        quoted_list(agents.drop_last()) + "','"@ + agents.last()
    }
}

/// The PowerShell command that runs the install script.
pub open spec fn powershell_line(
    script: Seq<char>,
    list: bool,
    all: bool,
    agents: Seq<Seq<char>>,
) -> Seq<char> {
    "& '"@ + script + "'"@ + if list {
        " -List"@
    } else if all {
        " -All"@
    } else if agents.len() > 0 {
        " -Agents @('"@ + quoted_list(agents) + "')"@
    } else {
        Seq::<char>::empty()
    }
}

pub fn powershell_command(script: &str, list: bool, all: bool, agents: &Vec<String>) -> (s: String)
    ensures
        s@ == powershell_line(script@, list, all, text::texts(agents@)),
{
    let base = "& '".to_owned().concat(script).concat("'");
    if list {
        base.concat(" -List")
    } else if all {
        base.concat(" -All")
    } else if agents.len() > 0 {
        let ghost names = text::texts(agents@);
        let mut joined = agents[0].as_str().to_owned();
        assert(names.take(1) =~= seq![names[0]]);
        for i in 1..agents.len()
            invariant
                names == text::texts(agents@),
                names.len() > 0,
                joined@ == quoted_list(names.take(i as int)),
        {
            joined.append("','");
            joined.append(agents[i].as_str());
            assert(names.take(i + 1).drop_last() =~= names.take(i as int));
            assert(names.take(i + 1).last() == names[i as int]);
        }
        assert(names.take(names.len() as int) =~= names);
        let tail = " -Agents @('".to_owned().concat(joined.as_str()).concat("')");
        base.concat(tail.as_str())
    } else {
        assert(base@ + Seq::<char>::empty() =~= base@);
        base
    }
}

/// The directory that AXIS keeps its files in: a directory, and a name in it.
#[derive(Debug)]
pub struct AxisRoot {
    pub base: String,
    pub name: &'static str,
}

/// Where AXIS keeps its files: below the home directory, or on Windows below
/// the local application data.
pub open spec fn root_base(
    windows: bool,
    home: Option<Seq<char>>,
    local_appdata: Option<Seq<char>>,
    user_profile: Option<Seq<char>>,
) -> Seq<char> {
    if windows {
        match (local_appdata, user_profile) {
            (Some(s), _) => s,
            (None, Some(s)) => s,
            (None, None) => "C:\\Users\\Public"@,
        }
    } else {
        match home {
            Some(s) => s,
            None => "/tmp"@,
        }
    }
}

pub fn axis_root(
    windows: bool,
    home: Option<&str>,
    local_appdata: Option<&str>,
    user_profile: Option<&str>,
) -> (r: AxisRoot)
    ensures
        r.base@ == root_base(
            windows,
            text::str_view(home),
            text::str_view(local_appdata),
            text::str_view(user_profile),
        ),
        r.name@ == if windows {
            "axis"@
        } else {
            ".axis"@
        },
{
    if windows {
        let base = match (local_appdata, user_profile) {
            (Some(s), _) => s.to_owned(),
            (None, Some(s)) => s.to_owned(),
            (None, None) => "C:\\Users\\Public".to_owned(),
        };
        AxisRoot { base, name: "axis" }
    } else {
        let base = match home {
            Some(s) => s.to_owned(),
            None => "/tmp".to_owned(),
        };
        AxisRoot { base, name: ".axis" }
    }
}

/// The name of an installed agent, out of the name of its wrapper.
pub open spec fn installed_agent(file: Seq<char>) -> Seq<char> {
    if text::ends_with(file, ".cmd"@) || text::ends_with(file, ".ps1"@) {
        file.take(file.len() - 4)
    } else {
        file
    }
}

pub fn installed_name(file: &str) -> (s: String)
    ensures
        s@ == installed_agent(file@),
{
    proof {
        reveal_strlit(".cmd");
        reveal_strlit(".ps1");
    }
    let v = text::to_chars(file);
    if text::has_suffix(file, ".cmd") || text::has_suffix(file, ".ps1") {
        let name = text::slice(&v, 0, v.len() - 4);
        assert(name@ =~= file@.take(file@.len() - 4));
        text::from_chars(&name)
    } else {
        file.to_owned()
    }
}

/// What uninstalling one agent removes.
#[derive(Debug)]
pub struct Removal {
    /// Files in the bin directory.
    pub wrappers: Vec<String>,
    /// A directory among the tools.
    pub tool: String,
    /// A directory among the agents' states.
    pub state: String,
}

/// The name that an agent is installed under; unknown agents have their own.
pub open spec fn removal_name(agents: Seq<KnownAgent>, agent: Seq<char>) -> Seq<char> {
    match install_name(agents, agent) {
        Some(s) => s,
        None => agent,
    }
}

pub fn removal(agents: &Vec<KnownAgent>, agent: &str) -> (r: Removal)
    ensures
        text::texts(r.wrappers@) == seq![agent@, agent@ + ".cmd"@, agent@ + ".ps1"@],
        r.tool@ == removal_name(agents@, agent@),
        r.state@ == "agent-"@ + removal_name(agents@, agent@),
{
    let name = match known_agent(agents, agent) {
        Some(s) => s,
        None => agent,
    };
    let wrappers: Vec<String> = vec![
        agent.to_owned(),
        agent.to_owned().concat(".cmd"),
        agent.to_owned().concat(".ps1"),
    ];
    assert(text::texts(wrappers@) =~= seq![agent@, agent@ + ".cmd"@, agent@ + ".ps1"@]);
    Removal {
        wrappers,
        tool: name.to_owned(),
        state: "agent-".to_owned().concat(name),
    }
}

/// Where a file was put aside when a link took its place.
pub fn backup_path(shown: &str) -> (s: String)
    ensures
        s@ == shown@ + ".axis-backup"@,
{
    shown.to_owned().concat(".axis-backup")
}

/// Whether a link leads into the AXIS directories.
pub fn leads_into_axis(target: &str) -> (r: bool)
    ensures
        r == text::contains_text(target@, ".axis"@),
{
    text::contains(target, ".axis")
}

/// Whoever is registered first under a name keeps it.
pub proof fn law_first_registration_counts(
    agents: Seq<KnownAgent>,
    more: Seq<KnownAgent>,
    binary: Seq<char>,
)
    ensures
        install_name(agents, binary) is Some ==> install_name(agents + more, binary)
            == install_name(agents, binary),
        install_name(agents, binary) is None ==> install_name(agents + more, binary)
            == install_name(more, binary),
    decreases agents.len(),
{
    if agents.len() == 0 {
        assert(agents + more =~= more);
    } else {
        law_first_registration_counts(agents.skip(1), more, binary);
        assert((agents + more).skip(1) =~= agents.skip(1) + more);
    }
}

/// The first word of a command line names an agent exactly when it is no option
/// and no word of `axis` itself.
pub proof fn law_which_words_name_an_agent(args: Seq<Seq<char>>)
    ensures
        args.len() < 2 ==> named_agent(args) is None,
        args.len() >= 2 && args[1].len() > 0 && args[1][0] == '-' ==> named_agent(args) is None,
        args.len() >= 2 && (args[1] == "create"@ || args[1] == "exec"@ || args[1] == "destroy"@
            || args[1] == "list"@ || args[1] == "logs"@ || args[1] == "run"@ || args[1]
            == "install"@ || args[1] == "uninstall"@ || args[1] == "policy"@ || args[1] == "model"@
            || args[1] == "inference"@ || args[1] == "__axis-pty-bridge"@ || args[1] == "help"@)
            ==> named_agent(args) is None,
        args.len() >= 2 && !(args[1].len() > 0 && args[1][0] == '-') && args[1] != "create"@
            && args[1] != "exec"@ && args[1] != "destroy"@ && args[1] != "list"@ && args[1]
            != "logs"@ && args[1] != "run"@ && args[1] != "install"@ && args[1] != "uninstall"@
            && args[1] != "policy"@ && args[1] != "model"@ && args[1] != "inference"@ && args[1]
            != "__axis-pty-bridge"@ && args[1] != "help"@ ==> named_agent(args) == Some(args[1]),
{
}

/// A binary is installed under the name that its agent has, and a binary of no
/// agent under none; what is removed for such a one has its own name.
pub proof fn law_binaries_are_installed_under_their_agent(
    agents: Seq<KnownAgent>,
    binary: Seq<char>,
    i: int,
)
    requires
        0 <= i <= agents.len(),
        forall|k: int| 0 <= k < i ==> (#[trigger] agents[k]).binary@ != binary,
        i < agents.len() ==> agents[i].binary@ == binary,
    ensures
        install_name(agents, binary) == if i < agents.len() {
            Some(agents[i].install@)
        } else {
            None
        },
        removal_name(agents, binary) == if i < agents.len() {
            agents[i].install@
        } else {
            binary
        },
    decreases agents.len(),
{
    if i > 0 {
        let rest = agents.skip(1);
        assert(agents[0].binary@ != binary);
        assert forall|k: int| 0 <= k < i - 1 implies (#[trigger] rest[k]).binary@ != binary by {
            assert(rest[k] == agents[k + 1]);
        }
        law_binaries_are_installed_under_their_agent(rest, binary, i - 1);
    }
}

/// A line registers the names on both sides of its equals sign, without the space
/// round them; a line with no such sign, with two, or with nothing on one side
/// registers none.
pub proof fn law_what_a_line_registers(left: Seq<char>, right: Seq<char>, line: Seq<char>)
    requires
        !left.contains('='),
        !right.contains('='),
    ensures
        text::trim(left).len() > 0 && text::trim(right).len() > 0 ==> registration(
            left + seq!['='] + right,
        ) == Some((text::trim(left), text::trim(right))),
        text::trim(left).len() == 0 || text::trim(right).len() == 0 ==> registration(
            left + seq!['='] + right,
        ) is None,
        registration(left) is None,
        registration(left + seq!['='] + right + seq!['='] + line) is None,
{
    reveal_with_fuel(text::join, 3);
    let two = seq![left, right];
    assert(two.skip(1) =~= seq![right]);
    assert(text::join(two, '=') =~= left + seq!['='] + right);
    text::lemma_split_join(two, '=');
    assert(text::join(seq![left], '=') =~= left);
    text::lemma_split_join(seq![left], '=');
    let more = text::split(line, '=');
    text::lemma_join_split(line, '=');
    let all = two + more;
    assert(all.skip(1) =~= seq![right] + more);
    assert(all.skip(1).skip(1) =~= more);
    assert forall|i: int| 0 <= i < all.len() implies !#[trigger] all[i].contains('=') by {
        if i >= 2 {
            assert(all[i] == more[i - 2]);
        }
    }
    assert(text::join(all, '=') =~= left + seq!['='] + right + seq!['='] + line);
    text::lemma_split_join(all, '=');
}

/// An answer is a yes exactly when it is nothing, `y` or `yes`, in any case and
/// with space round it.
pub proof fn law_what_is_a_yes(front: Seq<char>, answer: Seq<char>, back: Seq<char>)
    requires
        forall|i: int| 0 <= i < front.len() ==> text::is_space(#[trigger] front[i]),
        forall|i: int| 0 <= i < back.len() ==> text::is_space(#[trigger] back[i]),
        answer.len() > 0 ==> !text::is_space(answer[0]) && !text::is_space(answer.last()),
    ensures
        is_yes(front + answer + back) <==> answer.len() == 0 || answer == seq!['y'] || answer
            == seq!['Y'] || text::same_ignoring_case(answer, seq!['y', 'e', 's']),
{
    text::law_trimming_takes_white_space_away(front, answer, back);
    reveal_strlit("y");
    reveal_strlit("yes");
    assert("y"@ =~= seq!['y']);
    assert("yes"@ =~= seq!['y', 'e', 's']);
    text::law_same_but_for_the_case(answer, "y"@);
    assert(answer =~= seq!['y'] <==> answer.len() == 1 && answer[0] == 'y');
    assert(answer =~= seq!['Y'] <==> answer.len() == 1 && answer[0] == 'Y');
}

/// The install script is told to list, else to install all, else what to install,
/// and asked for help where nothing is named; that the system is used comes first.
pub proof fn law_what_the_install_script_is_told(
    use_system: bool,
    list: bool,
    all: bool,
    agents: Seq<Seq<char>>,
)
    ensures
        ({
            let args = script_arguments(use_system, list, all, agents);
            let what = if use_system {
                args.skip(1)
            } else {
                args
            };
            &&& use_system ==> args.len() > 0 && args[0] == "--use-system"@
            &&& list ==> what == seq!["--list"@]
            &&& !list && all ==> what == seq!["--all"@]
            &&& !list && !all && agents.len() == 0 ==> what == seq!["--help"@]
            &&& !list && !all && agents.len() > 0 ==> what == agents
        }),
{
    let args = script_arguments(use_system, list, all, agents);
    let what = if list {
        seq!["--list"@]
    } else if all {
        seq!["--all"@]
    } else if agents.len() == 0 {
        seq!["--help"@]
    } else {
        agents
    };
    if use_system {
        assert(args.skip(1) =~= what);
    } else {
        assert(args =~= what);
    }
}

/// Names in a PowerShell list stand between quotes and commas.
pub proof fn law_names_are_quoted(agents: Seq<Seq<char>>, name: Seq<char>)
    ensures
        quoted_list(seq![name]) == name,
        agents.len() > 0 ==> quoted_list(agents.push(name)) == quoted_list(agents) + seq![
            '\'',
            ',',
            '\'',
        ] + name,
{
    reveal_strlit("','");
    assert("','"@ =~= seq!['\'', ',', '\'']);
    if agents.len() > 0 {
        assert(agents.push(name).drop_last() =~= agents);
    }
}

/// A wrapper is called like its agent, with or without the ending that Windows
/// wants.
pub proof fn law_wrappers_are_called_like_their_agent(name: Seq<char>)
    ensures
        installed_agent(name + ".cmd"@) == name,
        installed_agent(name + ".ps1"@) == name,
        name.len() == 0 || name.last() != 'd' && name.last() != '1' ==> installed_agent(name)
            == name,
{
    reveal_strlit(".cmd");
    reveal_strlit(".ps1");
    let a = name + ".cmd"@;
    let b = name + ".ps1"@;
    assert(a.subrange(a.len() - 4, a.len() as int) =~= ".cmd"@);
    assert(b.subrange(b.len() - 4, b.len() as int) =~= ".ps1"@);
    assert(a.take(a.len() - 4) =~= name);
    assert(b.take(b.len() - 4) =~= name);
    if text::ends_with(name, ".cmd"@) || text::ends_with(name, ".ps1"@) {
        let end = name.subrange(name.len() - 4, name.len() as int);
        assert(end[3] == name.last());
    }
}

/// Lines register one agent after the other, and a line that registers none is
/// passed over.
pub proof fn law_lines_register_one_by_one(lines: Seq<Seq<char>>, line: Seq<char>)
    ensures
        registrations(Seq::empty()).len() == 0,
        registrations(lines.push(line)) == match registration(line) {
            Some(agent) => registrations(lines).push(agent),
            None => registrations(lines),
        },
{
    assert(lines.push(line).drop_last() =~= lines);
}

/// A wrapper carries the name of its agent, and on Windows the name reads back
/// out of it.
pub proof fn law_wrapper_names_lead_back(agent: Seq<char>)
    ensures
        wrapper_of(agent, false) == agent,
        wrapper_of(agent, true) == agent + ".cmd"@,
        installed_agent(wrapper_of(agent, true)) == agent,
{
    law_wrappers_are_called_like_their_agent(agent);
}

/// An installed agent is run whether it is known or not; one that is not installed
/// is offered exactly when it is known.
pub proof fn law_installed_agents_are_run(agents: Seq<KnownAgent>, agent: Seq<char>)
    ensures
        step_for(agents, agent, true) is RunWrapper,
        step_for(agents, agent, false) is OfferInstall <==> exists|i: int|
            0 <= i < agents.len() && (#[trigger] agents[i]).binary@ == agent,
        step_for(agents, agent, false) is NotAnAgent <==> forall|i: int|
            0 <= i < agents.len() ==> (#[trigger] agents[i]).binary@ != agent,
{
    lemma_known(agents, agent);
}

proof fn lemma_known(agents: Seq<KnownAgent>, agent: Seq<char>)
    ensures
        install_name(agents, agent) is Some <==> exists|i: int|
            0 <= i < agents.len() && (#[trigger] agents[i]).binary@ == agent,
    decreases agents.len(),
{
    if agents.len() > 0 {
        let rest = agents.skip(1);
        lemma_known(rest, agent);
        if exists|i: int| 0 <= i < rest.len() && (#[trigger] rest[i]).binary@ == agent {
            let i = choose|i: int| 0 <= i < rest.len() && (#[trigger] rest[i]).binary@ == agent;
            assert(agents[i + 1] == rest[i]);
        }
        if exists|i: int| 1 <= i < agents.len() && (#[trigger] agents[i]).binary@ == agent {
            let i = choose|i: int| 1 <= i < agents.len() && (#[trigger] agents[i]).binary@ == agent;
            assert(rest[i - 1] == agents[i]);
        }
        if agents[0].binary@ == agent {
            assert(agents[0].binary@ == agent);
        }
    }
}

/// The exit code of a child is handed on as it is, of the installer too where it
/// failed; a child without one counts as failed with 1.
pub proof fn law_exit_codes_are_handed_on(success: bool, code: i32, wrapper_exists: bool)
    ensures
        exit_of(ChildEnd::NotStarted) is None,
        exit_of(ChildEnd::Ended { success, code: Some(code) }) == Some(code),
        exit_of(ChildEnd::Ended { success, code: None }) == Some(1i32),
        step_after_install(ChildEnd::NotStarted, wrapper_exists) is FallThrough,
        step_after_install(ChildEnd::Ended { success: false, code: Some(code) }, wrapper_exists)
            == AfterInstall::Exit(code),
        step_after_install(ChildEnd::Ended { success: false, code: None }, wrapper_exists)
            == AfterInstall::Exit(1),
        step_after_install(ChildEnd::Ended { success: true, code: Some(code) }, true) is RunWrapper,
        step_after_install(ChildEnd::Ended { success: true, code: None }, true) is RunWrapper,
        step_after_install(
            ChildEnd::Ended { success: true, code: Some(code) },
            false,
        ) is WrapperMissing,
        step_after_install(ChildEnd::Ended { success: true, code: None }, false) is WrapperMissing,
{
}

/// Nothing is installed without a yes, and no answer is an error.
pub proof fn law_nothing_is_installed_without_a_yes(answer: Seq<char>)
    ensures
        step_on_answer(None) == InstallStep::Exit(1),
        step_on_answer(Some(answer)) is Install <==> is_yes(answer),
        step_on_answer(Some(answer)) is Decline <==> !is_yes(answer),
{
}

/// The PowerShell command runs the script with one switch at most: listing before
/// all agents, and all agents before some.
pub proof fn law_what_powershell_is_told(
    script: Seq<char>,
    list: bool,
    all: bool,
    agents: Seq<Seq<char>>,
    name: Seq<char>,
)
    ensures
        powershell_line(script, true, all, agents) == "& '"@ + script + "' -List"@,
        powershell_line(script, false, true, agents) == "& '"@ + script + "' -All"@,
        powershell_line(script, false, false, seq![name]) == "& '"@ + script + "' -Agents @('"@
            + name + "')"@,
        agents.len() > 0 ==> powershell_line(script, false, false, agents) == "& '"@ + script
            + "' -Agents @('"@ + quoted_list(agents) + "')"@,
        powershell_line(script, false, false, seq![]) == "& '"@ + script + "'"@,
{
    reveal_strlit("' -List");
    reveal_strlit("' -All");
    reveal_strlit("' -Agents @('");
    reveal_strlit("'");
    reveal_strlit(" -List");
    reveal_strlit(" -All");
    reveal_strlit(" -Agents @('");
    let front = "& '"@ + script;
    assert(front + "'"@ + " -List"@ =~= front + "' -List"@);
    assert(front + "'"@ + " -All"@ =~= front + "' -All"@);
    let names = quoted_list(agents);
    assert(front + "'"@ + (" -Agents @('"@ + names + "')"@) =~= front + "' -Agents @('"@ + names
        + "')"@);
    assert(quoted_list(seq![name]) == name);
    assert(front + "'"@ + (" -Agents @('"@ + name + "')"@) =~= front + "' -Agents @('"@ + name
        + "')"@);
    assert(front + "'"@ + Seq::<char>::empty() =~= front + "'"@);
}

/// What the system says of its directories is taken as it is, the local
/// application data before the user's profile; a fixed directory stands in where
/// it says nothing.
pub proof fn law_where_axis_keeps_its_files(
    given: Seq<char>,
    other: Option<Seq<char>>,
    more: Option<Seq<char>>,
)
    ensures
        root_base(false, Some(given), other, more) == given,
        root_base(false, None, other, more) == "/tmp"@,
        root_base(true, other, Some(given), more) == given,
        root_base(true, other, None, Some(given)) == given,
        root_base(true, other, None, None) == "C:\\Users\\Public"@,
{
}

} // verus!
