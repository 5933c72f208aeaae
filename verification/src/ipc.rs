//! Talking to the daemon.

use vstd::prelude::*;
use vstd::string::*;
use crate::json;
use crate::json::Json;
use crate::paths;
use crate::text;

verus! {

/// Where the daemon listens on Unix: where the user says, or else below the
/// runtime directory, or else in a fixed place.
pub open spec fn daemon_socket(given: Option<Seq<char>>, runtime_dir: Option<Seq<char>>) -> Seq<
    char,
> {
    match (given, runtime_dir) {
        (Some(s), _) => s,
        (None, Some(d)) => paths::joined(paths::joined(d, "axis"@, false), "axisd.sock"@, false),
        (None, None) => "/tmp/axis-axisd.sock"@,
    }
}

/// The path of the daemon's socket.
pub fn socket_path(given: Option<&str>, runtime_dir: Option<&str>) -> (s: String)
    ensures
        s@ == daemon_socket(text::str_view(given), text::str_view(runtime_dir)),
{
    match (given, runtime_dir) {
        (Some(s), _) => s.to_owned(),
        (None, Some(d)) => paths::join_text(
            paths::join_text(d, "axis", false).as_str(),
            "axisd.sock",
            false,
        ),
        (None, None) => "/tmp/axis-axisd.sock".to_owned(),
    }
}

/// A socket that nobody names lies at `axis/axisd.sock` below a runtime directory
/// that does not end in a slash itself.
pub proof fn law_socket_lies_below_the_runtime_directory(dir: Seq<char>)
    requires
        dir.len() > 0,
        dir.last() != '/',
    ensures
        daemon_socket(None, Some(dir)) == dir + "/axis/axisd.sock"@,
{
    reveal_strlit("axis");
    reveal_strlit("axisd.sock");
    reveal_strlit("/axis/axisd.sock");
    assert(daemon_socket(None, Some(dir)) =~= dir + "/axis/axisd.sock"@);
}

/// The TCP address of the daemon on Windows.
pub fn daemon_address(given: Option<&str>) -> (s: String)
    ensures
        s@ == match given {
            Some(a) => a@,
            None => "127.0.0.1:18516"@,
        },
{
    match given {
        Some(a) => a.to_owned(),
        None => "127.0.0.1:18516".to_owned(),
    }
}

/// The error for a daemon that cannot be reached.
pub fn connect_error(address: &str, reason: &str) -> (s: String)
    ensures
        s@ == "cannot connect to axisd at "@ + address@ + ": "@ + reason@
            + "\nIs the daemon running? Start it with: axisd"@,
{
    "cannot connect to axisd at ".to_owned().concat(address).concat(": ").concat(reason).concat(
        "\nIs the daemon running? Start it with: axisd",
    )
}

/// What the daemon is asked for.
#[derive(Debug)]
pub enum Request {
    /// A new sandbox that runs a command.
    Create { policy_yaml: String, command: String, args: Vec<String> },
    /// A command in a sandbox that is running.
    Exec { sandbox_id: String, command: String, args: Vec<String> },
    /// The end of a sandbox.
    Destroy { sandbox_id: String },
    /// The sandboxes that are running.
    List,
}

/// The fields of a request that are texts.
pub open spec fn request_texts(r: Request) -> Seq<(Seq<char>, Seq<char>)> {
    match r {
        Request::Create { policy_yaml, command, args } => seq![
            ("type"@, "create"@),
            ("policy_yaml"@, policy_yaml@),
            ("command"@, command@),
        ],
        Request::Exec { sandbox_id, command, args } => seq![
            ("type"@, "exec"@),
            ("sandbox_id"@, sandbox_id@),
            ("command"@, command@),
        ],
        Request::Destroy { sandbox_id } => seq![
            ("type"@, "destroy"@),
            ("sandbox_id"@, sandbox_id@),
        ],
        Request::List => seq![("type"@, "list"@)],
    }
}

/// The fields of a request that are lists of texts.
pub open spec fn request_lists(r: Request) -> Seq<(Seq<char>, Seq<Seq<char>>)> {
    match r {
        Request::Create { policy_yaml, command, args } => seq![
            ("args"@, text::texts(args@)),
            ("env"@, seq![]),
        ],
        Request::Exec { sandbox_id, command, args } => seq![("args"@, text::texts(args@))],
        _ => seq![],
    }
}

fn field(name: &str, value: &str) -> (r: (String, String))
    ensures
        r.0@ == name@,
        r.1@ == value@,
{
    (name.to_owned(), value.to_owned())
}

fn list_field(name: &str, list: &Vec<String>) -> (r: (String, Vec<String>))
    ensures
        r.0@ == name@,
        text::texts(r.1@) == text::texts(list@),
{
    let mut copy: Vec<String> = Vec::new();
    for i in 0..list.len()
        invariant
            text::texts(copy@) == text::texts(list@).take(i as int),
    {
        let ghost before = copy@;
        copy.push(list[i].as_str().to_owned());
        assert(text::texts(copy@) =~= text::texts(before).push(list@[i as int]@));
        assert(text::texts(list@).take(i as int).push(list@[i as int]@) =~= text::texts(
            list@,
        ).take(i + 1));
    }
    assert(text::texts(list@).take(list@.len() as int) =~= text::texts(list@));
    (name.to_owned(), copy)
}

/// The JSON text of a request.
pub open spec fn request_json(r: Request) -> Seq<char> {
    json::json_object(request_texts(r), request_lists(r))
}

/// The fields of a request have names of their own.
proof fn lemma_field_names(r: Request)
    ensures
        json::field_names(request_texts(r), request_lists(r)).no_duplicates(),
{
    reveal_strlit("type");
    reveal_strlit("policy_yaml");
    reveal_strlit("command");
    reveal_strlit("sandbox_id");
    reveal_strlit("args");
    reveal_strlit("env");
    let names = json::field_names(request_texts(r), request_lists(r));
    match r {
        Request::Create { policy_yaml, command, args } => {
            assert(names =~= seq!["type"@, "policy_yaml"@, "command"@, "args"@, "env"@]);
            assert(names[0].len() == 4 && names[1].len() == 11 && names[2].len() == 7);
            assert(names[3].len() == 4 && names[4].len() == 3);
            assert(names[0][0] == 't' && names[3][0] == 'a');
        },
        Request::Exec { sandbox_id, command, args } => {
            assert(names =~= seq!["type"@, "sandbox_id"@, "command"@, "args"@]);
            assert(names[0].len() == 4 && names[1].len() == 10 && names[2].len() == 7);
            assert(names[0][0] == 't' && names[3][0] == 'a');
        },
        Request::Destroy { sandbox_id } => {
            assert(names =~= seq!["type"@, "sandbox_id"@]);
            assert(names[0].len() == 4 && names[1].len() == 10);
        },
        Request::List => {
            assert(names =~= seq!["type"@]);
        },
    }
}

/// A request as it is sent: its JSON text on one line, and the end of the line.
/// The text reads back as an object with the fields of the request.
pub fn request_line(request: &Request) -> (s: String)
    ensures
        s@ == request_json(*request).push('\n'),
        !request_json(*request).contains('\n'),
        json::json_value(request_json(*request)) matches Ok(v) && json::has_fields(
            v,
            request_texts(*request),
            request_lists(*request),
        ),
{
    let texts: Vec<(String, String)> = match request {
        Request::Create { policy_yaml, command, args } => vec![
            field("type", "create"),
            field("policy_yaml", policy_yaml.as_str()),
            field("command", command.as_str()),
        ],
        Request::Exec { sandbox_id, command, args } => vec![
            field("type", "exec"),
            field("sandbox_id", sandbox_id.as_str()),
            field("command", command.as_str()),
        ],
        Request::Destroy { sandbox_id } => vec![
            field("type", "destroy"),
            field("sandbox_id", sandbox_id.as_str()),
        ],
        Request::List => vec![field("type", "list")],
    };
    let none: Vec<String> = Vec::new();
    let lists: Vec<(String, Vec<String>)> = match request {
        Request::Create { policy_yaml, command, args } => vec![
            list_field("args", args),
            list_field("env", &none),
        ],
        Request::Exec { sandbox_id, command, args } => vec![list_field("args", args)],
        _ => Vec::new(),
    };
    assert(text::texts(none@) =~= Seq::<Seq<char>>::empty());
    assert(text::pair_texts(texts@) =~= request_texts(*request));
    assert(json::list_texts(lists@) =~= request_lists(*request));
    proof {
        lemma_field_names(*request);
    }
    let mut s = json::write_object(&texts, &lists);
    s.push('\n');
    s
}

/// A sandbox that the daemon reports.
#[derive(Debug)]
pub struct ListedSandbox {
    pub id: Option<String>,
    pub status: Option<String>,
    pub pid: Option<u64>,
    pub workspace: Option<String>,
}

#[verifier::ext_equal]
pub ghost struct ListedSandboxView {
    pub id: Option<Seq<char>>,
    pub status: Option<Seq<char>>,
    pub pid: Option<u64>,
    pub workspace: Option<Seq<char>>,
}

impl View for ListedSandbox {
    type V = ListedSandboxView;

    open spec fn view(&self) -> ListedSandboxView {
        ListedSandboxView {
            id: text::option_view(self.id),
            status: text::option_view(self.status),
            pid: self.pid,
            workspace: text::option_view(self.workspace),
        }
    }
}

/// A reply of the daemon: what is read of it.
#[derive(Debug)]
pub struct Reply {
    pub success: Option<bool>,
    pub error: Option<String>,
    /// The sandbox that was created.
    pub sandbox_id: Option<String>,
    /// The exit code of the command that was run.
    pub exit_code: Option<i64>,
    /// The sandboxes that are running, where the reply lists them.
    pub sandboxes: Option<Vec<ListedSandbox>>,
}

#[verifier::ext_equal]
pub ghost struct ReplyView {
    pub success: Option<bool>,
    pub error: Option<Seq<char>>,
    pub sandbox_id: Option<Seq<char>>,
    pub exit_code: Option<i64>,
    pub sandboxes: Option<Seq<ListedSandboxView>>,
}

pub open spec fn list_view(list: Option<Vec<ListedSandbox>>) -> Option<Seq<ListedSandboxView>> {
    match list {
        Some(v) => Some(v@.map_values(|s: ListedSandbox| s@)),
        None => None,
    }
}

impl View for Reply {
    type V = ReplyView;

    open spec fn view(&self) -> ReplyView {
        ReplyView {
            success: self.success,
            error: text::option_view(self.error),
            sandbox_id: text::option_view(self.sandbox_id),
            exit_code: self.exit_code,
            sandboxes: list_view(self.sandboxes),
        }
    }
}

pub open spec fn reply_view(r: Result<Reply, String>) -> Result<ReplyView, Seq<char>> {
    match r {
        Ok(v) => Ok(v@),
        Err(e) => Err(e@),
    }
}

/// What is read of one sandbox in a list.
pub open spec fn listed_fields(v: json::JsonView) -> ListedSandboxView {
    ListedSandboxView {
        id: json::text_in(json::member(v, "id"@)),
        status: json::text_in(json::member(v, "status"@)),
        pid: json::whole_in(json::member(v, "pid"@)),
        workspace: json::text_in(json::member(v, "workspace"@)),
    }
}

/// A member of the data that a reply carries.
pub open spec fn data_member(v: json::JsonView, name: Seq<char>) -> Option<json::JsonView> {
    match json::member(v, "data"@) {
        Some(data) => json::member(data, name),
        None => None,
    }
}

/// What is read of a reply, and where it stands. The data are an object, or the
/// list of the sandboxes that are running.
pub open spec fn reply_fields(v: json::JsonView) -> ReplyView {
    ReplyView {
        success: json::bool_in(json::member(v, "success"@)),
        error: json::text_in(json::member(v, "error"@)),
        sandbox_id: json::text_in(data_member(v, "sandbox_id"@)),
        exit_code: json::signed_in(data_member(v, "exit_code"@)),
        sandboxes: match json::list_in(json::member(v, "data"@)) {
            Some(items) => Some(items.map_values(|s: json::JsonView| listed_fields(s))),
            None => None,
        },
    }
}

fn text_member(v: &Json, name: &str) -> (r: Option<String>)
    ensures
        text::option_view(r) == json::text_in(json::member(v.model(), name@)),
{
    match v.member(name) {
        Some(m) => m.as_text(),
        None => None,
    }
}

fn listed_of(v: &Json) -> (r: ListedSandbox)
    ensures
        r@ == listed_fields(v.model()),
{
    ListedSandbox {
        id: text_member(v, "id"),
        status: text_member(v, "status"),
        pid: match v.member("pid") {
            Some(m) => m.as_whole(),
            None => None,
        },
        workspace: text_member(v, "workspace"),
    }
}

fn sandboxes_of(data: &Json) -> (r: Option<Vec<ListedSandbox>>)
    ensures
        list_view(r) == match json::list_in(Some(data.model())) {
            Some(items) => Some(items.map_values(|s: json::JsonView| listed_fields(s))),
            None => None,
        },
{
    match data {
        Json::List(items) => {
            let ghost all = data.model()->List_0;
            let mut r: Vec<ListedSandbox> = Vec::new();
            for i in 0..items.len()
                invariant
                    all == data.model()->List_0,
                    *data == Json::List(*items),
                    all.len() == items@.len(),
                    r@.len() == i,
                    forall|j: int| 0 <= j < i ==> (#[trigger] r@[j])@ == listed_fields(all[j]),
            {
                assert(all[i as int] == items@[i as int].model());
                r.push(listed_of(&items[i]));
            }
            assert(r@.map_values(|s: ListedSandbox| s@) =~= all.map_values(
                |s: json::JsonView| listed_fields(s),
            ));
            Some(r)
        },
        _ => None,
    }
}

/// Read a reply out of a JSON value.
pub fn reply_of(v: &Json) -> (r: Reply)
    ensures
        r@ == reply_fields(v.model()),
{
    let success = match v.member("success") {
        Some(m) => m.as_bool(),
        None => None,
    };
    let error = text_member(v, "error");
    match v.member("data") {
        Some(data) => Reply {
            success,
            error,
            sandbox_id: text_member(data, "sandbox_id"),
            exit_code: match data.member("exit_code") {
                Some(m) => m.as_signed(),
                None => None,
            },
            sandboxes: sandboxes_of(data),
        },
        None => Reply { success, error, sandbox_id: None, exit_code: None, sandboxes: None },
    }
}

/// Read the line that the daemon has replied with.
pub fn receive_reply(line: &str) -> (r: Result<Reply, String>)
    ensures
        reply_view(r) == match json::json_value(line@) {
            Ok(v) => Ok(reply_fields(v)),
            Err(e) => Err(e),
        },
{
    match json::parse_json(line) {
        Ok(v) => Ok(reply_of(&v)),
        Err(e) => Err(e),
    }
}

/// What the daemon says came of a request; `fallback` stands for an error that
/// it gives no words for.
pub open spec fn judged(v: ReplyView, fallback: Seq<char>) -> Result<ReplyView, Seq<char>> {
    if v.success == Some(true) {
        Ok(v)
    } else {
        match v.error {
            Some(e) => Err(e),
            None => Err(fallback),
        }
    }
}

/// Tell a reply that grants the request from one that refuses it.
pub fn reply_outcome(reply: Reply, fallback: &str) -> (r: Result<Reply, String>)
    ensures
        reply_view(r) == judged(reply@, fallback@),
        r matches Ok(v) ==> v == reply,
{
    match reply.success {
        Some(true) => Ok(reply),
        _ => match reply.error {
            Some(e) => Err(e),
            None => Err(fallback.to_owned()),
        },
    }
}

/// Read the line that the daemon has replied with. The error is why the line is
/// no reply, or else what the daemon says against the request.
pub fn read_reply(line: &str, fallback: &str) -> (r: Result<Reply, String>)
    ensures
        reply_view(r) == match json::json_value(line@) {
            Err(e) => Err(e),
            Ok(v) => judged(reply_fields(v), fallback@),
        },
{
    match receive_reply(line) {
        Err(e) => Err(e),
        Ok(reply) => reply_outcome(reply, fallback),
    }
}

/// The code to exit with for the code that the daemon reports.
pub open spec fn exit_code_of(code: Option<i64>) -> i32 {
    match code {
        Some(c) => c as i32,
        None => 0i32,
    }
}

/// A code that fits is handed on as it is, any other by its low 32 bits, and
/// where there is none the command has succeeded.
pub proof fn law_exit_code_is_handed_on(code: i64)
    ensures
        exit_code_of(None) == 0,
        i32::MIN <= code <= i32::MAX ==> exit_code_of(Some(code)) == code,
        (code - exit_code_of(Some(code))) % 0x1_0000_0000 == 0,
{
    let r = code as i32;
    assert((code - r) % 0x1_0000_0000 == 0) by (bit_vector)
        requires
            r == code as i32,
    ;
    assert(i32::MIN <= code <= i32::MAX ==> r == code);
}

/// The code to exit with after a command ran in a sandbox: the low 32 bits of
/// the code that the daemon reports, 0 where it reports none.
pub fn exec_exit_code(code: Option<i64>) -> (r: i32)
    ensures
        r == exit_code_of(code),
        code matches Some(c) ==> (i32::MIN <= c <= i32::MAX ==> r == c),
{
    match code {
        Some(c) => {
            #[verifier::truncate]
            let r = c as i32;
            r
        },
        None => 0,
    }
}

pub open spec fn is_match(s: ListedSandbox, prefix: Seq<char>) -> bool {
    s.id matches Some(id) && text::starts_with(id@, prefix)
}

/// The workspace of the first sandbox whose id starts with `prefix`.
pub open spec fn workspace_of(list: Seq<ListedSandbox>, prefix: Seq<char>) -> Option<Seq<char>>
    decreases list.len(),
{
    if list.len() == 0 {
        None
    } else if is_match(list[0], prefix) {
        text::option_view(list[0].workspace)
    } else {
        workspace_of(list.skip(1), prefix)
    }
}

pub fn find_workspace(list: &Vec<ListedSandbox>, prefix: &str) -> (r: Option<String>)
    ensures
        text::option_view(r) == workspace_of(list@, prefix@),
{
    assert(list@.skip(0) =~= list@);
    for i in 0..list.len()
        invariant
            workspace_of(list@, prefix@) == workspace_of(list@.skip(i as int), prefix@),
    {
        let ghost rest = list@.skip(i as int);
        assert(rest[0] == list@[i as int]);
        assert(rest.skip(1) =~= list@.skip(i + 1));
        if let Some(id) = &list[i].id {
            if text::has_prefix(id.as_str(), prefix) {
                return match &list[i].workspace {
                    Some(s) => Some(s.as_str().to_owned()),
                    None => None,
                };
            }
        }
    }
    None
}

/// The directory of all sandboxes, where the daemon does not say where one is.
pub fn sandboxes_dir(home: Option<&str>, windows: bool) -> (s: String)
    ensures
        s@ == match home {
            Some(h) => paths::joined(h@, ".local/share/axis/sandboxes"@, windows),
            None => "/tmp/axis/sandboxes"@,
        },
{
    match home {
        Some(h) => paths::join_text(h, ".local/share/axis/sandboxes", windows),
        None => "/tmp/axis/sandboxes".to_owned(),
    }
}

/// What is asked of the daemon goes out under the names that the daemon reads:
/// its kind, and the words of the request, each under its own.
pub proof fn law_requests_say_what_is_asked(r: Request)
    ensures
        request_texts(r)[0] == ("type"@, match r {
            Request::Create { .. } => "create"@,
            Request::Exec { .. } => "exec"@,
            Request::Destroy { .. } => "destroy"@,
            Request::List => "list"@,
        }),
        r matches Request::Create { policy_yaml, command, args } ==> request_texts(r).contains(
            ("policy_yaml"@, policy_yaml@),
        ) && request_texts(r).contains(("command"@, command@)) && request_lists(r).contains(
            ("args"@, text::texts(args@)),
        ) && request_lists(r).contains(("env"@, Seq::<Seq<char>>::empty())),
        r matches Request::Exec { sandbox_id, command, args } ==> request_texts(r).contains(
            ("sandbox_id"@, sandbox_id@),
        ) && request_texts(r).contains(("command"@, command@)) && request_lists(r).contains(
            ("args"@, text::texts(args@)),
        ),
        r matches Request::Destroy { sandbox_id } ==> request_texts(r).contains(
            ("sandbox_id"@, sandbox_id@),
        ) && request_lists(r).len() == 0,
        r is List ==> request_texts(r).len() == 1 && request_lists(r).len() == 0,
{
    let t = request_texts(r);
    let l = request_lists(r);
    match r {
        Request::Create { policy_yaml, command, args } => {
            assert(t[1] == ("policy_yaml"@, policy_yaml@) && t[2] == ("command"@, command@));
            assert(l[0] == ("args"@, text::texts(args@)));
            assert(l[1] == ("env"@, Seq::<Seq<char>>::empty()));
        },
        Request::Exec { sandbox_id, command, args } => {
            assert(t[1] == ("sandbox_id"@, sandbox_id@) && t[2] == ("command"@, command@));
            assert(l[0] == ("args"@, text::texts(args@)));
        },
        Request::Destroy { sandbox_id } => {
            assert(t[1] == ("sandbox_id"@, sandbox_id@));
        },
        Request::List => {},
    }
}

/// What is read of a reply: whether it succeeded and why not at the top, and the
/// sandbox, the exit code or the list in its data.
pub proof fn law_where_a_reply_is_read(v: json::JsonView, data: json::JsonView, i: int)
    requires
        json::member(v, "data"@) == Some(data),
    ensures
        reply_fields(v).success == json::bool_in(json::member(v, "success"@)),
        reply_fields(v).error == json::text_in(json::member(v, "error"@)),
        reply_fields(v).sandbox_id == json::text_in(json::member(data, "sandbox_id"@)),
        reply_fields(v).exit_code == json::signed_in(json::member(data, "exit_code"@)),
        reply_fields(v).sandboxes is Some <==> data is List,
        data matches json::JsonView::List(items) ==> {
            let all = reply_fields(v).sandboxes->0;
            &&& all.len() == items.len()
            &&& 0 <= i < items.len() ==> all[i].id == json::text_in(json::member(items[i], "id"@))
                && all[i].status == json::text_in(json::member(items[i], "status"@)) && all[i].pid
                == json::whole_in(json::member(items[i], "pid"@)) && all[i].workspace
                == json::text_in(json::member(items[i], "workspace"@))
        },
{
}

/// A request was granted exactly when the reply says so; any other reply is a
/// refusal, in the daemon's words or, where it has none, in the given ones.
pub proof fn law_what_a_reply_says(v: ReplyView, fallback: Seq<char>)
    ensures
        judged(v, fallback) is Ok <==> v.success == Some(true),
        judged(v, fallback) matches Ok(w) ==> w == v,
        v.success != Some(true) ==> judged(v, fallback) == Err::<ReplyView, _>(
            if v.error is Some {
                v.error->0
            } else {
                fallback
            },
        ),
{
}

/// The workspace that is found is that of the first sandbox whose id starts with
/// the prefix.
pub proof fn law_first_matching_sandbox_counts(
    list: Seq<ListedSandbox>,
    prefix: Seq<char>,
    i: int,
)
    requires
        0 <= i <= list.len(),
        forall|k: int|
            0 <= k < i ==> (#[trigger] list[k]).id is None || !prefix.is_prefix_of(list[k].id->0@),
        i < list.len() ==> list[i].id is Some && prefix.is_prefix_of(list[i].id->0@),
    ensures
        workspace_of(list, prefix) == if i < list.len() {
            text::option_view(list[i].workspace)
        } else {
            None
        },
    decreases list.len(),
{
    if list.len() > 0 {
        let id = list[0].id;
        assert(is_match(list[0], prefix) <==> id is Some && prefix.is_prefix_of(id->0@)) by {
            if id is Some && prefix.is_prefix_of(id->0@) {
                assert(id->0@.subrange(0, prefix.len() as int) =~= prefix);
            }
        }
        if i > 0 {
            let rest = list.skip(1);
            assert(list[0].id is None || !prefix.is_prefix_of(list[0].id->0@));
            assert forall|k: int| 0 <= k < i - 1 implies (#[trigger] rest[k]).id is None
                || !prefix.is_prefix_of(rest[k].id->0@) by {
                assert(rest[k] == list[k + 1]);
            }
            law_first_matching_sandbox_counts(rest, prefix, i - 1);
        }
    }
}

/// A socket that the user names is taken, before any other; without one and
/// without a runtime directory it lies in a fixed place.
pub proof fn law_named_socket_is_taken(given: Seq<char>, runtime_dir: Option<Seq<char>>)
    ensures
        daemon_socket(Some(given), runtime_dir) == given,
        daemon_socket(None, None) == "/tmp/axis-axisd.sock"@,
{
}

} // verus!
