//! What is shown to the user: logs, and what a policy comes to.

use vstd::prelude::*;
use vstd::string::*;
use crate::policy::{GpuTransport, NetworkMode, Policy};
use crate::policy;
use crate::text;

verus! {

/// A line without the carriage return that may end it.
pub open spec fn chomped(line: Seq<char>) -> Seq<char> {
    if line.len() > 0 && line.last() == '\r' {
        line.drop_last()
    } else {
        line
    }
}

/// The lines of a text. A line end is a newline, or a carriage return and a
/// newline; the last line may go without.
pub open spec fn lines(s: Seq<char>) -> Seq<Seq<char>>
    decreases s.len(),
{
    let n = text::span(s, seq!['\n']);
    if s.len() == 0 {
        seq![]
    } else if n < 0 || n >= s.len() {
        seq![s]
    } else {
        seq![chomped(s.take(n))] + lines(s.skip(n + 1))
    }
}

/// The last `n` of a list of lines.
pub open spec fn last_lines(all: Seq<Seq<char>>, n: nat) -> Seq<Seq<char>> {
    if n >= all.len() {
        all
    } else {
        all.skip(all.len() - n)
    }
}

fn split_lines(v: &Vec<char>) -> (r: Vec<String>)
    ensures
        text::texts(r@) == lines(v@),
{
    let stops: Vec<char> = vec!['\n'];
    assert(stops@ =~= seq!['\n']);
    let mut r: Vec<String> = Vec::new();
    let mut i: usize = 0;
    assert(v@.skip(0) =~= v@);
    assert(text::texts(r@) + lines(v@) =~= lines(v@));
    while i < v.len()
        invariant
            i <= v.len(),
            stops@ == seq!['\n'],
            text::texts(r@) + lines(v@.skip(i as int)) == lines(v@),
        decreases v.len() - i,
    {
        let ghost rest = v@.skip(i as int);
        let ghost before = text::texts(r@);
        let end = text::span_from(v, i, &stops);
        proof {
            text::lemma_span_bounds(rest, seq!['\n']);
        }
        if end >= v.len() {
            let line = text::slice(v, i, v.len());
            assert(line@ =~= rest);
            let s = text::from_chars(&line);
            r.push(s);
            assert(text::texts(r@) =~= before.push(s@));
            assert(v@.skip(v@.len() as int) =~= Seq::<char>::empty());
            assert(text::texts(r@) + lines(Seq::<char>::empty()) =~= before + lines(rest));
            i = v.len();
        } else {
            let ghost n = end - i;
            let stop = if end > i && v[end - 1] == '\r' {
                end - 1
            } else {
                end
            };
            let line = text::slice(v, i, stop);
            assert(rest.take(n).len() > 0 ==> rest.take(n).last() == v@[end - 1]);
            assert(line@ =~= chomped(rest.take(n)));
            let s = text::from_chars(&line);
            r.push(s);
            assert(text::texts(r@) =~= before.push(s@));
            assert(rest.skip(n + 1) =~= v@.skip(end + 1));
            assert(text::texts(r@) + lines(v@.skip(end + 1)) =~= before + lines(rest));
            i = end + 1;
        }
    }
    assert(v@.skip(i as int) =~= Seq::<char>::empty());
    assert(text::texts(r@) + lines(Seq::<char>::empty()) =~= text::texts(r@));
    r
}

/// The last lines of a log.
pub fn tail_lines(content: &str, tail: usize) -> (r: Vec<String>)
    ensures
        text::texts(r@) == last_lines(lines(content@), tail as nat),
{
    let all = split_lines(&text::to_chars(content));
    let ghost every = lines(content@);
    let start = if all.len() > tail {
        all.len() - tail
    } else {
        0
    };
    let mut r: Vec<String> = Vec::new();
    assert(text::texts(r@) =~= every.subrange(start as int, start as int));
    for i in start..all.len()
        invariant
            start <= all@.len(),
            text::texts(all@) == every,
            text::texts(r@) == every.subrange(start as int, i as int),
    {
        let ghost before = text::texts(r@);
        let s = all[i].as_str().to_owned();
        r.push(s);
        assert(text::texts(r@) =~= before.push(s@));
        assert(every[i as int] == all@[i as int]@);
        assert(every.subrange(start as int, i + 1) =~= every.subrange(
            start as int,
            i as int,
        ).push(every[i as int]));
    }
    assert(text::texts(r@) =~= last_lines(every, tail as nat));
    r
}

/// A log shows no more lines than asked for, and those are its last ones.
pub proof fn law_tail_is_the_end_of_the_log(content: Seq<char>, n: nat)
    ensures
        last_lines(lines(content), n).len() == if n < lines(content).len() {
            n
        } else {
            lines(content).len()
        },
        lines(content).take(lines(content).len() - last_lines(lines(content), n).len())
            + last_lines(lines(content), n) == lines(content),
{
    let all = lines(content);
    assert(all.take(all.len() - last_lines(all, n).len()) + last_lines(all, n) =~= all);
}

pub open spec fn mode_name(mode: NetworkMode) -> Seq<char> {
    match mode {
        NetworkMode::Proxy => "Proxy"@,
        NetworkMode::Block => "Block"@,
        NetworkMode::Allow => "Allow"@,
    }
}

pub open spec fn transport_name(t: GpuTransport) -> Seq<char> {
    match t {
        GpuTransport::Uds => "Uds"@,
        GpuTransport::Tcp => "Tcp"@,
    }
}

pub open spec fn vram_text(limit: Option<u64>) -> Seq<char> {
    match limit {
        Some(m) => text::decimal(m as nat) + "MB"@,
        None => "unlimited"@,
    }
}

/// What a valid policy comes to, line by line.
pub open spec fn summary(p: Policy) -> Seq<Seq<char>> {
    let gpu: Seq<Seq<char>> = if p.gpu.enabled {
        seq![
            "  GPU: device="@ + text::decimal(p.gpu.device as nat) + ", transport="@
                + transport_name(p.gpu.transport) + ", vram_limit="@ + vram_text(
                p.gpu.vram_limit_mb,
            ),
        ]
    } else {
        seq![]
    };
    seq![
        "Policy '"@ + p.name@ + "' is valid."@,
        "  Runtime: "@ + "process"@ + " via "@ + policy::provider_text(p.runtime.provider),
        "  Filesystem: "@ + text::decimal(p.filesystem.read_only@.len()) + " read-only, "@
            + text::decimal(p.filesystem.read_write@.len()) + " read-write, "@ + text::decimal(
            p.filesystem.deny@.len(),
        ) + " deny paths"@,
        "  Process: max "@ + text::decimal(p.process.max_processes as nat) + " processes, "@
            + text::decimal(p.process.max_memory_mb as nat) + "MB memory, "@ + text::decimal(
            p.process.cpu_rate_percent as nat,
        ) + "% CPU"@,
        "  Network: "@ + mode_name(p.network.mode) + " mode, "@ + text::decimal(
            p.network.policies@.len(),
        ) + " endpoint policies"@,
        "  Inference: "@ + text::decimal(p.inference.routes@.len()) + " routes"@,
    ] + gpu
}

fn count(n: usize) -> (s: String)
    ensures
        s@ == text::decimal(n as nat),
{
    text::decimal_text(n as u64)
}

/// What a valid policy comes to, line by line.
pub fn policy_summary(p: &Policy) -> (r: Vec<String>)
    ensures
        text::texts(r@) == summary(*p),
{
    let mode = match p.network.mode {
        NetworkMode::Proxy => "Proxy",
        NetworkMode::Block => "Block",
        NetworkMode::Allow => "Allow",
    };
    let mut r: Vec<String> = Vec::new();
    r.push("Policy '".to_owned().concat(p.name.as_str()).concat("' is valid."));
    r.push(
        "  Runtime: ".to_owned().concat(p.runtime.containment.as_str()).concat(" via ").concat(
            p.runtime.provider.as_str(),
        ),
    );
    r.push(
        "  Filesystem: ".to_owned().concat(count(p.filesystem.read_only.len()).as_str()).concat(
            " read-only, ",
        ).concat(count(p.filesystem.read_write.len()).as_str()).concat(" read-write, ").concat(
            count(p.filesystem.deny.len()).as_str(),
        ).concat(" deny paths"),
    );
    r.push(
        "  Process: max ".to_owned().concat(
            text::decimal_text(p.process.max_processes as u64).as_str(),
        ).concat(" processes, ").concat(
            text::decimal_text(p.process.max_memory_mb).as_str(),
        ).concat("MB memory, ").concat(
            text::decimal_text(p.process.cpu_rate_percent as u64).as_str(),
        ).concat("% CPU"),
    );
    r.push(
        "  Network: ".to_owned().concat(mode).concat(" mode, ").concat(
            count(p.network.policies.len()).as_str(),
        ).concat(" endpoint policies"),
    );
    r.push(
        "  Inference: ".to_owned().concat(count(p.inference.routes.len()).as_str()).concat(
            " routes",
        ),
    );
    if p.gpu.enabled {
        let transport = match p.gpu.transport {
            GpuTransport::Uds => "Uds",
            GpuTransport::Tcp => "Tcp",
        };
        let limit = match p.gpu.vram_limit_mb {
            Some(m) => text::decimal_text(m).concat("MB"),
            None => "unlimited".to_owned(),
        };
        r.push(
            "  GPU: device=".to_owned().concat(
                text::decimal_text(p.gpu.device as u64).as_str(),
            ).concat(", transport=").concat(transport).concat(", vram_limit=").concat(
                limit.as_str(),
            ),
        );
    }
    assert(text::texts(r@) =~= summary(*p));
    r
}

/// A text has one line for each line end, without that end, and one for what is
/// left behind the last.
pub proof fn law_text_is_read_line_by_line(line: Seq<char>, rest: Seq<char>)
    requires
        !line.contains('\n'),
    ensures
        lines(Seq::empty()).len() == 0,
        line.len() > 0 ==> lines(line) == seq![line],
        lines(line.push('\n') + rest) == seq![
            if line.len() > 0 && line.last() == '\r' {
                line.take(line.len() - 1)
            } else {
                line
            },
        ] + lines(rest),
{
    let stops = seq!['\n'];
    assert(stops[0] == '\n');
    let n = line.len() as int;
    assert forall|j: int| 0 <= j < n implies !stops.contains(#[trigger] line[j]) by {
        assert(line.contains(line[j]));
    }
    text::lemma_span(line, stops, n);
    let s = line.push('\n') + rest;
    assert forall|j: int| 0 <= j < n implies !stops.contains(#[trigger] s[j]) by {
        assert(s[j] == line[j]);
    }
    assert(s[n] == '\n');
    text::lemma_span(s, stops, n);
    assert(s.take(n) =~= line);
    assert(s.skip(n + 1) =~= rest);
    if line.len() > 0 {
        assert(line.drop_last() =~= line.take(line.len() - 1));
    }
}

/// A summary names the policy, its provider, and how much of everything it has;
/// it has a line for the GPU exactly when the policy gives one out.
pub proof fn law_summary_counts_what_a_policy_has(p: Policy)
    ensures
        ({
            let s = summary(p);
            &&& s.len() == if p.gpu.enabled { 7int } else { 6 }
            &&& s[0] == "Policy '"@ + p.name@ + "' is valid."@
            &&& s[1] == "  Runtime: "@ + "process"@ + " via "@ + policy::provider_text(
                p.runtime.provider,
            )
            &&& s[2] == "  Filesystem: "@ + text::decimal(p.filesystem.read_only@.len())
                + " read-only, "@ + text::decimal(p.filesystem.read_write@.len())
                + " read-write, "@ + text::decimal(p.filesystem.deny@.len()) + " deny paths"@
            &&& s[3] == "  Process: max "@ + text::decimal(p.process.max_processes as nat)
                + " processes, "@ + text::decimal(p.process.max_memory_mb as nat)
                + "MB memory, "@ + text::decimal(p.process.cpu_rate_percent as nat) + "% CPU"@
            &&& s[4] == "  Network: "@ + (match p.network.mode {
                NetworkMode::Proxy => "Proxy"@,
                NetworkMode::Block => "Block"@,
                NetworkMode::Allow => "Allow"@,
            }) + " mode, "@ + text::decimal(p.network.policies@.len()) + " endpoint policies"@
            &&& s[5] == "  Inference: "@ + text::decimal(p.inference.routes@.len()) + " routes"@
            &&& p.gpu.enabled ==> s[6] == "  GPU: device="@ + text::decimal(p.gpu.device as nat)
                + ", transport="@ + (match p.gpu.transport {
                GpuTransport::Uds => "Uds"@,
                GpuTransport::Tcp => "Tcp"@,
            }) + ", vram_limit="@ + (match p.gpu.vram_limit_mb {
                Some(m) => text::decimal(m as nat) + "MB"@,
                None => "unlimited"@,
            })
        }),
{
}

} // verus!
