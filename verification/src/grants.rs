//! Which paths a policy may grant to a sandbox that has a managed home.

use vstd::prelude::*;
use vstd::string::*;
use crate::paths;
use crate::paths::{HostPath, PathPart};
use crate::text;
use crate::verdict;

verus! {

/// What follows `~/` in a path, where it starts so.
pub open spec fn below_home(path: Seq<char>) -> Option<Seq<char>> {
    if text::starts_with(path, "~/"@) {
        Some(path.skip(2))
    } else {
        None
    }
}

pub fn home_suffix(path: &str) -> (r: Option<String>)
    ensures
        text::option_view(r) == below_home(path@),
{
    let v = text::to_chars(path);
    let mark = text::to_chars("~/");
    proof {
        reveal_strlit("~/");
    }
    if text::occurs(&v, &mark, 0) {
        let rest = text::slice(&v, 2, v.len());
        assert(rest@ =~= path@.skip(2));
        Some(text::from_chars(&rest))
    } else {
        None
    }
}

/// The temporary directory of a sandbox, in its workspace.
pub open spec fn tmpdir_text(workspace: Seq<char>, windows: bool) -> Seq<char> {
    paths::joined(workspace, ".axis-tmp"@, windows)
}

pub fn sandbox_tmpdir_path(workspace: &str, windows: bool) -> (s: String)
    ensures
        s@ == tmpdir_text(workspace@, windows),
{
    paths::join_text(workspace, ".axis-tmp", windows)
}

/// The text of a granted path with its placeholders filled in: `~` stands for
/// the home directory, and what follows `~/` is put behind it; then come the
/// workspace and the temporary directory.
pub open spec fn expanded_grant(
    path: Seq<char>,
    home: Seq<char>,
    workspace: Seq<char>,
    windows: bool,
) -> Result<Seq<char>, Seq<char>> {
    if path.len() > 0 && path[0] == '~' && path != seq!['~'] && below_home(path) is None {
        Err("unsupported home path '"@ + path + "': only '~' and '~/' are supported"@)
    } else {
        let base = if path == seq!['~'] {
            home
        } else if below_home(path) is Some {
            paths::pushed(home, below_home(path)->0, windows)
        } else {
            path
        };
        Ok(
            text::replace_all(
                text::replace_all(base, "{workspace}"@, workspace),
                "{tmpdir}"@,
                tmpdir_text(workspace, windows),
            ),
        )
    }
}

pub fn expand_managed_home_guard_path(
    path: &str,
    home: &str,
    workspace: &str,
    windows: bool,
) -> (r: Result<String, String>)
    ensures
        paths::text_view(r) == expanded_grant(path@, home@, workspace@, windows),
{
    let v = text::to_chars(path);
    proof {
        reveal_strlit("~/");
        reveal_strlit("{workspace}");
        reveal_strlit("{tmpdir}");
    }
    assert(v@ =~= seq!['~'] <==> v@.len() == 1 && v@[0] == '~');
    let base = if v.len() == 1 && v[0] == '~' {
        assert("~/"@.len() == 2);
        text::to_chars(home)
    } else if let Some(rest) = home_suffix(path) {
        text::to_chars(paths::push_text(home, rest.as_str(), windows).as_str())
    } else if v.len() > 0 && v[0] == '~' {
        return Err(
            "unsupported home path '".to_owned().concat(path).concat(
                "': only '~' and '~/' are supported",
            ),
        );
    } else {
        v
    };
    let one = text::replaced(&base, &text::to_chars("{workspace}"), &text::to_chars(workspace));
    let tmpdir = sandbox_tmpdir_path(workspace, windows);
    let two = text::replaced(&one, &text::to_chars("{tmpdir}"), &text::to_chars(tmpdir.as_str()));
    Ok(text::from_chars(&two))
}

/// A path below `~/` comes to the home directory with the rest put behind it, or
/// to the rest alone where that is absolute, as long as no placeholder stands in
/// either.
pub proof fn law_home_stands_before_what_lies_in_it(
    rest: Seq<char>,
    home: Seq<char>,
    workspace: Seq<char>,
    windows: bool,
)
    requires
        !home.contains('{'),
        !rest.contains('{'),
    ensures
        expanded_grant("~/"@ + rest, home, workspace, windows) == Ok::<_, Seq<char>>(
            paths::pushed(home, rest, windows),
        ),
        !windows && rest.len() > 0 && rest[0] == '/' ==> paths::pushed(home, rest, windows) == rest,
        !windows && (rest.len() == 0 || rest[0] != '/') && home.len() > 0 && home.last() != '/'
            ==> paths::pushed(home, rest, windows) == home.push('/') + rest,
{
    reveal_strlit("~/");
    reveal_strlit("{workspace}");
    reveal_strlit("{tmpdir}");
    let path = "~/"@ + rest;
    let base = paths::pushed(home, rest, windows);
    assert(path.subrange(0, 2) =~= "~/"@);
    assert(path.skip(2) =~= rest);
    assert(path != seq!['~']);
    assert(!base.contains('{')) by {
        paths::lemma_pushed_holds_no(home, rest, windows, '{');
    }
    text::lemma_nothing_replaced(base, "{workspace}"@, workspace);
    text::lemma_nothing_replaced(base, "{tmpdir}"@, tmpdir_text(workspace, windows));
}

/// `~` alone is the home directory; no other text that starts with `~` is taken
/// but one that goes on with a slash; and a path without `~` and placeholders
/// stays as it is.
pub proof fn law_plain_grants_are_kept(
    path: Seq<char>,
    home: Seq<char>,
    workspace: Seq<char>,
    windows: bool,
)
    ensures
        path == seq!['~'] && !home.contains('{') ==> expanded_grant(path, home, workspace, windows)
            == Ok::<_, Seq<char>>(home),
        path.len() > 1 && path[0] == '~' && path[1] != '/' ==> expanded_grant(
            path,
            home,
            workspace,
            windows,
        ) == Err::<Seq<char>, _>(
            "unsupported home path '"@ + path + "': only '~' and '~/' are supported"@,
        ),
        (path.len() == 0 || path[0] != '~') && !path.contains('{') ==> expanded_grant(
            path,
            home,
            workspace,
            windows,
        ) == Ok::<_, Seq<char>>(path),
{
    reveal_strlit("~/");
    reveal_strlit("{workspace}");
    reveal_strlit("{tmpdir}");
    if text::starts_with(path, "~/"@) {
        assert(path.subrange(0, 2)[0] == path[0]);
        assert(path.subrange(0, 2)[1] == path[1]);
    }
    let tmp = tmpdir_text(workspace, windows);
    if path == seq!['~'] && !home.contains('{') {
        text::lemma_nothing_replaced(home, "{workspace}"@, workspace);
        text::lemma_nothing_replaced(home, "{tmpdir}"@, tmp);
    }
    if (path.len() == 0 || path[0] != '~') && !path.contains('{') {
        text::lemma_nothing_replaced(path, "{workspace}"@, workspace);
        text::lemma_nothing_replaced(path, "{tmpdir}"@, tmp);
    }
}

/// `{workspace}` stands for the workspace, and `{tmpdir}` for `.axis-tmp` in it.
pub proof fn law_placeholders_are_filled_in(
    front: Seq<char>,
    back: Seq<char>,
    home: Seq<char>,
    workspace: Seq<char>,
    windows: bool,
)
    requires
        front.len() == 0 || front[0] != '~',
        !front.contains('{'),
        !back.contains('{'),
        !workspace.contains('{'),
    ensures
        expanded_grant(front + "{workspace}"@ + back, home, workspace, windows) == Ok::<
            _,
            Seq<char>,
        >(front + workspace + back),
        expanded_grant(front + "{tmpdir}"@ + back, home, workspace, windows) == Ok::<_, Seq<char>>(
            front + paths::joined(workspace, ".axis-tmp"@, windows) + back,
        ),
{
    reveal_strlit("~/");
    reveal_strlit("{workspace}");
    reveal_strlit("{tmpdir}");
    let tmp = tmpdir_text(workspace, windows);
    let one = front + "{workspace}"@ + back;
    let two = front + "{tmpdir}"@ + back;
    assert(one[0] != '~' && two[0] != '~') by {
        if front.len() > 0 {
            assert(one[0] == front[0] && two[0] == front[0]);
        } else {
            assert(one[0] == '{' && two[0] == '{');
        }
    }
    if text::starts_with(one, "~/"@) {
        assert(one.subrange(0, 2)[0] == one[0]);
    }
    if text::starts_with(two, "~/"@) {
        assert(two.subrange(0, 2)[0] == two[0]);
    }
    text::lemma_one_replaced(front, "{workspace}"@, back, workspace);
    let filled = front + workspace + back;
    assert(!filled.contains('{')) by {
        assert forall|i: int| 0 <= i < filled.len() implies #[trigger] filled[i] != '{' by {
            if i < front.len() {
                assert(front.contains(front[i]));
            } else if i < front.len() + workspace.len() {
                assert(workspace.contains(workspace[i - front.len()]));
            } else {
                assert(back.contains(back[i - front.len() - workspace.len()]));
            }
        }
    }
    text::lemma_nothing_replaced(filled, "{tmpdir}"@, tmp);
    assert(text::replace_all(two, "{workspace}"@, workspace) == two) by {
        let pat = "{workspace}"@;
        text::lemma_find_text(two, pat, 0);
        if let Some(i) = text::find_text(two, pat, 0) {
            assert(two.subrange(i, i + pat.len())[0] == two[i]);
            assert(two.subrange(i, i + pat.len())[1] == two[i + 1]);
            let n = front.len() as int;
            if i < n {
                assert(front.contains(front[i]));
            } else if i >= n + 8 {
                assert(back.contains(back[i - n - 8]));
            } else {
                assert(two[i] == "{tmpdir}"@[i - n]);
                assert(i == n);
                assert(two[i + 1] == "{tmpdir}"@[1]);
            }
        }
    }
    text::lemma_one_replaced(front, "{tmpdir}"@, back, tmp);
}

/// The directories that decide what may be granted, all of them resolved.
#[derive(Debug)]
pub struct ManagedHomeGrantGuard {
    pub home: Vec<PathPart>,
    pub agent_root: Vec<PathPart>,
    pub private_setup: Vec<PathPart>,
    pub generated_ssh: Vec<PathPart>,
    pub workspace: Vec<PathPart>,
    pub tmpdir: Vec<PathPart>,
    pub host_temp: Vec<PathPart>,
}

/// Whether a path below the real home is open because the host keeps its
/// temporary files there.
pub open spec fn is_host_temp_grant(
    p: Seq<paths::PathPartView>,
    guard: ManagedHomeGrantGuard,
    windows: bool,
) -> bool {
    &&& windows
    &&& paths::within(paths::part_views(guard.home@), paths::part_views(guard.host_temp@))
    &&& paths::within(paths::part_views(guard.host_temp@), p)
}

pub fn is_allowed_host_temp_grant(
    expanded: &Vec<PathPart>,
    guard: &ManagedHomeGrantGuard,
    windows: bool,
) -> (r: bool)
    ensures
        r == is_host_temp_grant(paths::part_views(expanded@), *guard, windows),
{
    windows && paths::path_contains_or_equal(&guard.home, &guard.host_temp)
        && paths::path_contains_or_equal(&guard.host_temp, expanded)
}

/// Whether a path below the real home is still open to the sandbox.
pub open spec fn is_open_below_home(
    p: Seq<paths::PathPartView>,
    guard: ManagedHomeGrantGuard,
    windows: bool,
) -> bool {
    ||| paths::within(paths::part_views(guard.agent_root@), p)
    ||| paths::within(paths::part_views(guard.workspace@), p)
    ||| paths::within(paths::part_views(guard.tmpdir@), p)
    ||| is_host_temp_grant(p, guard, windows)
}

pub open spec fn grant_refusal(
    what: Seq<char>,
    section: Seq<char>,
    path: Seq<char>,
    shown: Seq<char>,
) -> Seq<char> {
    "MXC managed HOME cannot grant "@ + what + " "@ + section + " path '"@ + path
        + "' (expanded '"@ + shown + "')"@
}

fn refuse_grant(what: &str, section: &str, path: &str, shown: &str) -> (s: String)
    ensures
        s@ == grant_refusal(what@, section@, path@, shown@),
{
    "MXC managed HOME cannot grant ".to_owned().concat(what).concat(" ").concat(section).concat(
        " path '",
    ).concat(path).concat("' (expanded '").concat(shown).concat("')")
}

/// The verdict on one granted path, given what it resolves to.
pub open spec fn grant_verdict(
    section: Seq<char>,
    path: Seq<char>,
    expanded: Result<HostPath, String>,
    guard: ManagedHomeGrantGuard,
    windows: bool,
) -> Result<(), Seq<char>> {
    match expanded {
        Err(e) => Err(e@),
        Ok(h) => {
            let p = h.components();
            if paths::overlap(p, paths::part_views(guard.private_setup@)) {
                Err(grant_refusal("private agent setup"@, section, path, h.shown@))
            } else if section == "read_write"@ && paths::within(
                paths::part_views(guard.generated_ssh@),
                p,
            ) {
                Err(grant_refusal("generated SSH"@, section, path, h.shown@))
            } else if paths::within(paths::part_views(guard.home@), p) && !is_open_below_home(
                p,
                guard,
                windows,
            ) {
                Err(grant_refusal("real home"@, section, path, h.shown@))
            } else {
                Ok(())
            }
        },
    }
}

pub open spec fn grants_verdict(
    section: Seq<char>,
    granted: Seq<String>,
    expanded: Seq<Result<HostPath, String>>,
    guard: ManagedHomeGrantGuard,
    windows: bool,
) -> Result<(), Seq<char>> {
    verdict::first_error(
        granted.len() as int,
        |i: int| grant_verdict(section, granted[i]@, expanded[i], guard, windows),
    )
}

pub open spec fn fault_view(r: Result<(), String>) -> Result<(), Seq<char>> {
    match r {
        Ok(()) => Ok(()),
        Err(e) => Err(e@),
    }
}

fn check_grant(
    section: &str,
    path: &str,
    expanded: &Result<HostPath, String>,
    guard: &ManagedHomeGrantGuard,
    windows: bool,
) -> (r: Result<(), String>)
    ensures
        fault_view(r) == grant_verdict(section@, path@, *expanded, *guard, windows),
{
    match expanded {
        Err(e) => Err(e.as_str().to_owned()),
        Ok(h) => {
            if paths::paths_overlap(&h.parts, &guard.private_setup) {
                return Err(refuse_grant("private agent setup", section, path, h.shown.as_str()));
            }
            if text::same(section, "read_write") && paths::path_contains_or_equal(
                &guard.generated_ssh,
                &h.parts,
            ) {
                return Err(refuse_grant("generated SSH", section, path, h.shown.as_str()));
            }
            if paths::path_contains_or_equal(&guard.home, &h.parts)
                && !paths::path_contains_or_equal(&guard.agent_root, &h.parts)
                && !paths::path_contains_or_equal(&guard.workspace, &h.parts)
                && !paths::path_contains_or_equal(&guard.tmpdir, &h.parts)
                && !is_allowed_host_temp_grant(&h.parts, guard, windows) {
                return Err(refuse_grant("real home", section, path, h.shown.as_str()));
            }
            Ok(())
        },
    }
}

/// Check the granted paths of one section, given what each of them resolves to.
pub fn reject_unmanaged_home_grants(
    section: &str,
    granted: &Vec<String>,
    expanded: &Vec<Result<HostPath, String>>,
    guard: &ManagedHomeGrantGuard,
    windows: bool,
) -> (r: Result<(), String>)
    requires
        expanded@.len() == granted@.len(),
    ensures
        fault_view(r) == grants_verdict(section@, granted@, expanded@, *guard, windows),
{
    let ghost check = |i: int|
        grant_verdict(section@, granted@[i]@, expanded@[i], *guard, windows);
    for i in 0..granted.len()
        invariant
            expanded@.len() == granted@.len(),
            check == (|i: int|
                grant_verdict(section@, granted@[i]@, expanded@[i], *guard, windows)),
            verdict::first_error(i as int, check) is Ok,
    {
        match check_grant(section, granted[i].as_str(), &expanded[i], guard, windows) {
            Err(e) => {
                proof {
                    verdict::lemma_first_error_stays(i + 1, granted@.len() as int, check);
                }
                return Err(e);
            },
            Ok(()) => {},
        }
    }
    Ok(())
}

/// Check everything that a policy grants to a sandbox with a managed home: what
/// it may read, then what it may write.
pub fn reject_unmanaged_home_grants_for_mxc_managed_home(
    read_only: &Vec<String>,
    read_only_expanded: &Vec<Result<HostPath, String>>,
    read_write: &Vec<String>,
    read_write_expanded: &Vec<Result<HostPath, String>>,
    guard: &ManagedHomeGrantGuard,
    windows: bool,
) -> (r: Result<(), String>)
    requires
        read_only_expanded@.len() == read_only@.len(),
        read_write_expanded@.len() == read_write@.len(),
    ensures
        fault_view(r) == {
            let first = grants_verdict(
                "read_only"@,
                read_only@,
                read_only_expanded@,
                *guard,
                windows,
            );
            if first is Err {
                first
            } else {
                grants_verdict("read_write"@, read_write@, read_write_expanded@, *guard, windows)
            }
        },
{
    match reject_unmanaged_home_grants("read_only", read_only, read_only_expanded, guard, windows) {
        Err(e) => Err(e),
        Ok(()) => reject_unmanaged_home_grants(
            "read_write",
            read_write,
            read_write_expanded,
            guard,
            windows,
        ),
    }
}

/// Grants that pass leave the private agent setup alone, give out no generated
/// SSH key for writing, and reach nothing of the real home but what is open.
pub proof fn law_accepted_grants_stay_outside_the_real_home(
    section: Seq<char>,
    granted: Seq<String>,
    expanded: Seq<Result<HostPath, String>>,
    guard: ManagedHomeGrantGuard,
    windows: bool,
    i: int,
)
    requires
        expanded.len() == granted.len(),
        grants_verdict(section, granted, expanded, guard, windows) is Ok,
        0 <= i < granted.len(),
    ensures
        expanded[i] is Ok,
        ({
            let p = expanded[i]->Ok_0.components();
            &&& !paths::overlap(p, paths::part_views(guard.private_setup@))
            &&& section == "read_write"@ ==> !paths::within(
                paths::part_views(guard.generated_ssh@),
                p,
            )
            &&& paths::within(paths::part_views(guard.home@), p) ==> is_open_below_home(
                p,
                guard,
                windows,
            )
        }),
{
    let check = |k: int| grant_verdict(section, granted[k]@, expanded[k], guard, windows);
    verdict::lemma_first_error_ok(granted.len() as int, check);
    assert(check(i) is Ok);
}

/// Grants pass whenever nothing speaks against them, and only then: each granted
/// path resolves; it neither holds the private agent setup nor lies in it; it is
/// not for writing into the generated SSH directory; and it lies outside the real
/// home, or within the agent's root, the workspace or the temporary directory, or
/// on Windows within a temporary directory of the host that lies in the home.
pub proof fn law_grants_pass_unless_something_speaks_against_them(
    section: Seq<char>,
    granted: Seq<String>,
    expanded: Seq<Result<HostPath, String>>,
    guard: ManagedHomeGrantGuard,
    windows: bool,
)
    requires
        expanded.len() == granted.len(),
    ensures
        grants_verdict(section, granted, expanded, guard, windows) is Ok <==> forall|i: int|
            0 <= i < granted.len() ==> #[trigger] expanded[i] is Ok && ({
                let p = paths::part_views(expanded[i]->Ok_0.parts@);
                let home = paths::part_views(guard.home@);
                let setup = paths::part_views(guard.private_setup@);
                let temp = paths::part_views(guard.host_temp@);
                &&& !setup.is_prefix_of(p)
                &&& !p.is_prefix_of(setup)
                &&& !(section == "read_write"@ && paths::part_views(
                    guard.generated_ssh@,
                ).is_prefix_of(p))
                &&& {
                    ||| !home.is_prefix_of(p)
                    ||| paths::part_views(guard.agent_root@).is_prefix_of(p)
                    ||| paths::part_views(guard.workspace@).is_prefix_of(p)
                    ||| paths::part_views(guard.tmpdir@).is_prefix_of(p)
                    ||| windows && home.is_prefix_of(temp) && temp.is_prefix_of(p)
                }
            }),
{
    let check = |k: int| grant_verdict(section, granted[k]@, expanded[k], guard, windows);
    let n = granted.len() as int;
    verdict::lemma_first_error_ok(n, check);
    let ok = |i: int|
        expanded[i] is Ok && ({
            let p = paths::part_views(expanded[i]->Ok_0.parts@);
            let home = paths::part_views(guard.home@);
            let setup = paths::part_views(guard.private_setup@);
            let temp = paths::part_views(guard.host_temp@);
            &&& !setup.is_prefix_of(p)
            &&& !p.is_prefix_of(setup)
            &&& !(section == "read_write"@ && paths::part_views(
                guard.generated_ssh@,
            ).is_prefix_of(p))
            &&& {
                ||| !home.is_prefix_of(p)
                ||| paths::part_views(guard.agent_root@).is_prefix_of(p)
                ||| paths::part_views(guard.workspace@).is_prefix_of(p)
                ||| paths::part_views(guard.tmpdir@).is_prefix_of(p)
                ||| windows && home.is_prefix_of(temp) && temp.is_prefix_of(p)
            }
        });
    assert forall|i: int| 0 <= i < n implies (check(i) is Ok <==> #[trigger] ok(i)) by {
        if expanded[i] is Ok {
            let p = paths::part_views(expanded[i]->Ok_0.parts@);
            lemma_within(paths::part_views(guard.home@), p);
            lemma_within(paths::part_views(guard.private_setup@), p);
            lemma_within(p, paths::part_views(guard.private_setup@));
            lemma_within(paths::part_views(guard.generated_ssh@), p);
            lemma_within(paths::part_views(guard.agent_root@), p);
            lemma_within(paths::part_views(guard.workspace@), p);
            lemma_within(paths::part_views(guard.tmpdir@), p);
            lemma_within(paths::part_views(guard.host_temp@), p);
            lemma_within(
                paths::part_views(guard.home@),
                paths::part_views(guard.host_temp@),
            );
        }
    }
    if grants_verdict(section, granted, expanded, guard, windows) is Ok {
        assert forall|i: int| 0 <= i < n implies #[trigger] expanded[i] is Ok && ok(i) by {
            assert(check(i) is Ok);
            assert(ok(i));
        }
    } else {
        let i = choose|i: int| 0 <= i < n && !(#[trigger] check(i) is Ok);
        assert(!ok(i));
        assert(expanded[i] is Ok || expanded[i] is Err);
    }
}

proof fn lemma_within(a: Seq<paths::PathPartView>, b: Seq<paths::PathPartView>)
    ensures
        paths::within(a, b) == a.is_prefix_of(b),
{
    if a.is_prefix_of(b) {
        assert(b.take(a.len() as int) =~= a);
    }
    if paths::within(a, b) {
        assert(a =~= b.subrange(0, a.len() as int));
    }
}

/// The first granted path that may not be granted is the one that is named, with
/// the section it stands in, how it is written and what it comes to. Where more
/// than one thing speaks against it, the private agent setup is named before the
/// generated SSH directory, and that before the real home.
pub proof fn law_refusal_names_the_first_bad_grant(
    section: Seq<char>,
    granted: Seq<String>,
    expanded: Seq<Result<HostPath, String>>,
    guard: ManagedHomeGrantGuard,
    windows: bool,
    i: int,
)
    requires
        expanded.len() == granted.len(),
        0 <= i < granted.len(),
        grants_verdict(section, granted.take(i), expanded.take(i), guard, windows) is Ok,
        grants_verdict(section, granted.take(i + 1), expanded.take(i + 1), guard, windows) is Err,
    ensures
        grants_verdict(section, granted, expanded, guard, windows) == match expanded[i] {
            Err(e) => Err::<(), Seq<char>>(e@),
            Ok(h) => {
                let p = paths::part_views(h.parts@);
                let setup = paths::part_views(guard.private_setup@);
                let what = if setup.is_prefix_of(p) || p.is_prefix_of(setup) {
                    "private agent setup"@
                } else if section == "read_write"@ && paths::part_views(
                    guard.generated_ssh@,
                ).is_prefix_of(p) {
                    "generated SSH"@
                } else {
                    "real home"@
                };
                Err(
                    "MXC managed HOME cannot grant "@ + what + " "@ + section + " path '"@
                        + granted[i]@ + "' (expanded '"@ + h.shown@ + "')"@,
                )
            },
        },
{
    let n = granted.len() as int;
    let check = |k: int| grant_verdict(section, granted[k]@, expanded[k], guard, windows);
    let some = |k: int|
        grant_verdict(section, granted.take(i)[k]@, expanded.take(i)[k], guard, windows);
    let more = |k: int|
        grant_verdict(section, granted.take(i + 1)[k]@, expanded.take(i + 1)[k], guard, windows);
    verdict::lemma_same_checks(i, check, some);
    verdict::lemma_same_checks(i + 1, check, more);
    verdict::lemma_passed(i, n, check);
    if expanded[i] is Ok {
        let p = paths::part_views(expanded[i]->Ok_0.parts@);
        lemma_within(paths::part_views(guard.private_setup@), p);
        lemma_within(p, paths::part_views(guard.private_setup@));
        lemma_within(paths::part_views(guard.generated_ssh@), p);
    }
}

/// Away from Windows the host's temporary directory opens nothing of the home.
pub proof fn law_host_temp_opens_nothing_away_from_windows(
    p: Seq<paths::PathPartView>,
    guard: ManagedHomeGrantGuard,
)
    ensures
        !is_host_temp_grant(p, guard, false),
{
}

} // verus!
