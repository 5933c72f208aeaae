//! The workspace of an agent: which paths a sandbox is granted in place of those
//! that its policy names, and the SSH directory that is made for it.

use vstd::prelude::*;
use vstd::string::*;
use crate::backend;
use crate::backend::{Platform, PlatformBackendSelection};
use crate::grants;
use crate::paths;
use crate::paths::HostPath;
use crate::policy::{FilesystemPolicy, Policy, SshPolicy};
use crate::sandbox_error;
use crate::sandbox_error::SandboxError;
use crate::text;
use crate::verdict;

verus! {

/// A path of the agent's state that stands in for another one.
#[derive(Debug)]
pub struct AgentLink {
    pub link: HostPath,
    pub target: HostPath,
}

/// What the host says about one path of a policy.
#[derive(Debug)]
pub struct PathLookup {
    /// The path with its home part filled in, where it is an absolute path then.
    pub expanded: Result<Option<HostPath>, String>,
    /// Where the agent's state under this path is kept, where it is such a path.
    pub mapped: Result<Option<HostPath>, String>,
}

/// The list with `t` in it: at the end, unless it is there.
pub open spec fn pushed_unique(list: Seq<Seq<char>>, t: Seq<char>) -> Seq<Seq<char>> {
    if list.contains(t) {
        list
    } else {
        list.push(t)
    }
}

pub fn push_unique_policy_path(list: &mut Vec<String>, path: &HostPath) -> (r: Result<(), String>)
    ensures
        match r {
            Ok(()) => path.utf8 && text::texts(final(list)@) == pushed_unique(
                text::texts(old(list)@),
                path.shown@,
            ),
            Err(e) => paths::path_text(*path) == Err::<Seq<char>, _>(e@) && *final(list) == *old(list),
        },
{
    let t = match paths::policy_path_string(path) {
        Ok(t) => t,
        Err(e) => {
            return Err(e);
        },
    };
    let ghost all = text::texts(list@);
    for i in 0..list.len()
        invariant
            all == text::texts(list@),
            list@ == old(list)@,
            path.utf8,
            t@ == path.shown@,
            forall|j: int| 0 <= j < i ==> #[trigger] all[j] != t@,
    {
        assert(all[i as int] == list@[i as int]@);
        if text::same(list[i].as_str(), t.as_str()) {
            assert(all.contains(t@));
            return Ok(());
        }
    }
    list.push(t);
    assert(text::texts(list@) =~= all.push(t@));
    Ok(())
}

/// A path that is pushed is in the list once more at most, nothing else changes,
/// and pushing it again changes nothing.
pub proof fn law_push_unique(list: Seq<Seq<char>>, t: Seq<char>)
    ensures
        pushed_unique(list, t).contains(t),
        pushed_unique(list, t).take(list.len() as int) == list,
        pushed_unique(list, t).len() <= list.len() + 1,
        list.no_duplicates() ==> pushed_unique(list, t).no_duplicates(),
        pushed_unique(pushed_unique(list, t), t) == pushed_unique(list, t),
{
    let after = pushed_unique(list, t);
    if !list.contains(t) {
        assert(after[list.len() as int] == t);
    }
    assert(after.take(list.len() as int) =~= list);
}

/// Whether a lookup shows the path `remove`.
pub open spec fn shows(lookup: Result<Option<HostPath>, String>, remove: HostPath) -> bool {
    lookup matches Ok(Some(h)) && h.components() == remove.components()
}

pub open spec fn lookup_verdict(lookup: Result<Option<HostPath>, String>) -> Result<
    (),
    Seq<char>,
> {
    match lookup {
        Ok(_) => Ok(()),
        Err(e) => Err(e@),
    }
}

pub open spec fn lookups_verdict(lookups: Seq<Result<Option<HostPath>, String>>) -> Result<
    (),
    Seq<char>,
> {
    verdict::first_error(lookups.len() as int, |i: int| lookup_verdict(lookups[i]))
}

/// The first `n` paths of a list without those that show `remove`.
pub open spec fn kept(
    list: Seq<Seq<char>>,
    lookups: Seq<Result<Option<HostPath>, String>>,
    remove: HostPath,
    n: int,
) -> Seq<Seq<char>>
    decreases n,
{
    if n <= 0 {
        seq![]
    } else if shows(lookups[n - 1], remove) {
        kept(list, lookups, remove, n - 1)
    } else {
        kept(list, lookups, remove, n - 1).push(list[n - 1])
    }
}

/// Take the path `remove` out of a list, given what each path of the list shows.
/// Where a path cannot be read the list is given up.
pub fn remove_policy_path(
    list: &mut Vec<String>,
    lookups: &Vec<Result<Option<HostPath>, String>>,
    remove: &HostPath,
) -> (r: Result<(), String>)
    requires
        lookups@.len() == old(list)@.len(),
    ensures
        grants::fault_view(r) == lookups_verdict(lookups@),
        text::texts(final(list)@) == if r is Ok {
            kept(text::texts(old(list)@), lookups@, *remove, lookups@.len() as int)
        } else {
            Seq::<Seq<char>>::empty()
        },
{
    let ghost all = text::texts(list@);
    let ghost check = |i: int| lookup_verdict(lookups@[i]);
    let mut retained: Vec<String> = Vec::new();
    assert(text::texts(retained@) =~= kept(all, lookups@, *remove, 0));
    for i in 0..lookups.len()
        invariant
            list@ == old(list)@,
            lookups@.len() == list@.len(),
            all == text::texts(list@),
            check == (|i: int| lookup_verdict(lookups@[i])),
            verdict::first_error(i as int, check) is Ok,
            text::texts(retained@) == kept(all, lookups@, *remove, i as int),
    {
        let ghost before = text::texts(retained@);
        let should_remove = match &lookups[i] {
            Err(e) => {
                proof {
                    verdict::lemma_first_error_stays(i + 1, lookups@.len() as int, check);
                }
                let reason = e.as_str().to_owned();
                *list = Vec::new();
                assert(text::texts(list@) =~= Seq::<Seq<char>>::empty());
                return Err(reason);
            },
            Ok(None) => false,
            Ok(Some(h)) => paths::same_path(&h.parts, &remove.parts),
        };
        if !should_remove {
            retained.push(list[i].as_str().to_owned());
            assert(text::texts(retained@) =~= before.push(all[i as int]));
        }
    }
    *list = retained;
    Ok(())
}

/// What is removed is gone, and everything else stays in its order.
pub proof fn law_removal_keeps_the_rest(
    list: Seq<Seq<char>>,
    lookups: Seq<Result<Option<HostPath>, String>>,
    remove: HostPath,
    n: int,
    i: int,
)
    requires
        lookups.len() == list.len(),
        0 <= i < n <= list.len(),
    ensures
        !shows(lookups[i], remove) ==> kept(list, lookups, remove, n).contains(list[i]),
        kept(list, lookups, remove, n).len() <= n,
        (forall|j: int| 0 <= j < n ==> !shows(#[trigger] lookups[j], remove)) ==> kept(
            list,
            lookups,
            remove,
            n,
        ) == list.take(n),
        (forall|j: int| 0 <= j < n ==> shows(#[trigger] lookups[j], remove)) ==> kept(
            list,
            lookups,
            remove,
            n,
        ).len() == 0,
    decreases n,
{
    let now = kept(list, lookups, remove, n);
    if n == 1 {
        assert(kept(list, lookups, remove, 0).len() == 0);
        if !shows(lookups[0], remove) {
            assert(now =~= seq![list[0]]);
            assert(now[0] == list[i]);
            assert(list.take(1) =~= seq![list[0]]);
        }
    } else {
        let before = kept(list, lookups, remove, n - 1);
        if i < n - 1 {
            law_removal_keeps_the_rest(list, lookups, remove, n - 1, i);
            if before.contains(list[i]) {
                let k = before.index_of(list[i]);
                assert(now[k] == list[i]);
            }
        } else {
            law_removal_keeps_the_rest(list, lookups, remove, n - 1, 0);
            if !shows(lookups[i], remove) {
                assert(now[now.len() - 1] == list[i]);
            }
        }
        if forall|j: int| 0 <= j < n ==> !shows(#[trigger] lookups[j], remove) {
            assert(!shows(lookups[n - 1], remove));
            assert(list.take(n) =~= list.take(n - 1).push(list[n - 1]));
        }
        if forall|j: int| 0 <= j < n ==> shows(#[trigger] lookups[j], remove) {
            assert(shows(lookups[n - 1], remove));
        }
    }
}

/// The target that a link of the agent's state gives to the path `p`: that of
/// the first link that is this path.
pub open spec fn link_target(links: Seq<AgentLink>, p: Seq<paths::PathPartView>) -> Option<HostPath>
    decreases links.len(),
{
    if links.len() == 0 {
        None
    } else if links[0].link.components() == p {
        Some(links[0].target)
    } else {
        link_target(links.skip(1), p)
    }
}

/// What a path of a policy is redirected to: the target of a link, or else where
/// the agent's state is kept, or else itself.
pub open spec fn redirected(path: Seq<char>, lookup: PathLookup, links: Seq<AgentLink>) -> Result<
    Seq<char>,
    Seq<char>,
> {
    match lookup.expanded {
        Err(e) => Err(e@),
        Ok(x) => {
            let linked = match x {
                Some(h) => link_target(links, h.components()),
                None => None,
            };
            match linked {
                Some(t) => paths::path_text(t),
                None => match lookup.mapped {
                    Err(e) => Err(e@),
                    Ok(None) => Ok(path),
                    Ok(Some(t)) => paths::path_text(t),
                },
            }
        },
    }
}

fn find_link<'a>(links: &'a Vec<AgentLink>, p: &HostPath) -> (r: Option<&'a HostPath>)
    ensures
        match r {
            Some(t) => link_target(links@, p.components()) == Some(*t),
            None => link_target(links@, p.components()) is None,
        },
{
    assert(links@.skip(0) =~= links@);
    for i in 0..links.len()
        invariant
            link_target(links@, p.components()) == link_target(
                links@.skip(i as int),
                p.components(),
            ),
    {
        let ghost rest = links@.skip(i as int);
        assert(rest[0] == links@[i as int]);
        assert(rest.skip(1) =~= links@.skip(i + 1));
        if paths::same_path(&links[i].link.parts, &p.parts) {
            return Some(&links[i].target);
        }
    }
    None
}

fn redirect_one(path: &str, lookup: &PathLookup, links: &Vec<AgentLink>) -> (r: Result<
    String,
    String,
>)
    ensures
        paths::text_view(r) == redirected(path@, *lookup, links@),
{
    let linked = match &lookup.expanded {
        Err(e) => {
            return Err(e.as_str().to_owned());
        },
        Ok(None) => None,
        Ok(Some(h)) => find_link(links, h),
    };
    match linked {
        Some(t) => paths::policy_path_string(t),
        None => match &lookup.mapped {
            Err(e) => Err(e.as_str().to_owned()),
            Ok(None) => Ok(path.to_owned()),
            Ok(Some(t)) => paths::policy_path_string(t),
        },
    }
}

pub open spec fn unit<T>(r: Result<T, Seq<char>>) -> Result<(), Seq<char>> {
    match r {
        Ok(_) => Ok(()),
        Err(e) => Err(e),
    }
}

/// The verdict on redirecting path `i` of a list.
pub open spec fn redirect_verdict(
    list: Seq<Seq<char>>,
    lookups: Seq<PathLookup>,
    links: Seq<AgentLink>,
) -> spec_fn(int) -> Result<(), Seq<char>> {
    |i: int| unit(redirected(list[i], lookups[i], links))
}

/// The list with the first `n` paths redirected.
pub open spec fn redirected_list(
    list: Seq<Seq<char>>,
    lookups: Seq<PathLookup>,
    links: Seq<AgentLink>,
    n: int,
) -> Seq<Seq<char>> {
    Seq::new(
        list.len(),
        |i: int|
            if i < n {
                redirected(list[i], lookups[i], links)->Ok_0
            } else {
                list[i]
            },
    )
}

/// Redirect each writable path to where the agent's state is kept, given what
/// the host says about each of them. The paths before one that cannot be read
/// are redirected even so.
pub fn redirect_read_write_paths(
    list: &mut Vec<String>,
    lookups: &Vec<PathLookup>,
    links: &Vec<AgentLink>,
) -> (r: Result<(), String>)
    requires
        lookups@.len() == old(list)@.len(),
    ensures
        ({
            let before = text::texts(old(list)@);
            let check = redirect_verdict(before, lookups@, links@);
            let n = before.len() as int;
            &&& grants::fault_view(r) == verdict::first_error(n, check)
            &&& text::texts(final(list)@) == redirected_list(
                before,
                lookups@,
                links@,
                verdict::passed(n, check),
            )
        }),
{
    let ghost before = text::texts(list@);
    let ghost check = redirect_verdict(before, lookups@, links@);
    assert(text::texts(list@) =~= redirected_list(before, lookups@, links@, 0));
    for i in 0..lookups.len()
        invariant
            lookups@.len() == list@.len(),
            before.len() == list@.len(),
            check == redirect_verdict(before, lookups@, links@),
            verdict::first_error(i as int, check) is Ok,
            text::texts(list@) == redirected_list(before, lookups@, links@, i as int),
            before == text::texts(old(list)@),
    {
        let ghost now = text::texts(list@);
        assert(now[i as int] == before[i as int]);
        assert(now[i as int] == list@[i as int]@);
        match redirect_one(list[i].as_str(), &lookups[i], links) {
            Err(e) => {
                proof {
                    verdict::lemma_passed(i as int, before.len() as int, check);
                }
                return Err(e);
            },
            Ok(s) => {
                let ghost new = s@;
                list.set(i, s);
                assert(text::texts(list@) =~= now.update(i as int, new));
                assert(now.update(i as int, new) =~= redirected_list(
                    before,
                    lookups@,
                    links@,
                    i + 1,
                ));
            },
        }
    }
    proof {
        verdict::lemma_passed(before.len() as int, before.len() as int, check);
    }
    Ok(())
}

/// The verdict on granting the target that a lookup gives.
pub open spec fn target_verdict(mapped: Result<Option<HostPath>, String>) -> Result<(), Seq<char>> {
    match mapped {
        Err(e) => Err(e@),
        Ok(None) => Ok(()),
        Ok(Some(t)) => unit(paths::path_text(t)),
    }
}

/// The list with the targets of the first `n` lookups granted as well.
pub open spec fn with_targets(
    list: Seq<Seq<char>>,
    mapped: Seq<Result<Option<HostPath>, String>>,
    n: int,
) -> Seq<Seq<char>>
    decreases n,
{
    if n <= 0 {
        list
    } else {
        match mapped[n - 1] {
            Ok(Some(t)) => pushed_unique(with_targets(list, mapped, n - 1), t.shown@),
            _ => with_targets(list, mapped, n - 1),
        }
    }
}

/// Grant where the agent's state is kept for each of the writable paths.
pub fn grant_targets(
    list: &mut Vec<String>,
    mapped: &Vec<Result<Option<HostPath>, String>>,
) -> (r: Result<(), String>)
    ensures
        ({
            let before = text::texts(old(list)@);
            let check = |i: int| target_verdict(mapped@[i]);
            let n = mapped@.len() as int;
            &&& grants::fault_view(r) == verdict::first_error(n, check)
            &&& text::texts(final(list)@) == with_targets(
                before,
                mapped@,
                verdict::passed(n, check),
            )
        }),
{
    let ghost before = text::texts(list@);
    let ghost check = |i: int| target_verdict(mapped@[i]);
    for i in 0..mapped.len()
        invariant
            check == (|i: int| target_verdict(mapped@[i])),
            verdict::first_error(i as int, check) is Ok,
            text::texts(list@) == with_targets(before, mapped@, i as int),
            before == text::texts(old(list)@),
    {
        match &mapped[i] {
            Err(e) => {
                proof {
                    verdict::lemma_passed(i as int, mapped@.len() as int, check);
                }
                return Err(e.as_str().to_owned());
            },
            Ok(None) => {},
            Ok(Some(t)) => match push_unique_policy_path(list, t) {
                Err(e) => {
                    proof {
                        verdict::lemma_passed(i as int, mapped@.len() as int, check);
                    }
                    return Err(e);
                },
                Ok(()) => {},
            },
        }
    }
    proof {
        verdict::lemma_passed(mapped@.len() as int, mapped@.len() as int, check);
    }
    Ok(())
}

/// What a path of a policy is redirected to in a managed home.
pub open spec fn home_redirected(
    path: Seq<char>,
    mapped: Result<Option<HostPath>, String>,
) -> Result<Seq<char>, Seq<char>> {
    match mapped {
        Err(e) => Err(e@),
        Ok(None) => Ok(path),
        Ok(Some(t)) => paths::path_text(t),
    }
}

pub open spec fn home_redirect_verdict(
    list: Seq<Seq<char>>,
    mapped: Seq<Result<Option<HostPath>, String>>,
) -> spec_fn(int) -> Result<(), Seq<char>> {
    |i: int| unit(home_redirected(list[i], mapped[i]))
}

pub open spec fn home_redirected_list(
    list: Seq<Seq<char>>,
    mapped: Seq<Result<Option<HostPath>, String>>,
    n: int,
) -> Seq<Seq<char>> {
    Seq::new(
        list.len(),
        |i: int|
            if i < n {
                home_redirected(list[i], mapped[i])->Ok_0
            } else {
                list[i]
            },
    )
}

/// Redirect each writable path into the managed home, given where the agent's
/// state is kept there.
pub fn rewrite_read_write_paths_for_mxc_managed_home_targets(
    list: &mut Vec<String>,
    mapped: &Vec<Result<Option<HostPath>, String>>,
) -> (r: Result<(), String>)
    requires
        mapped@.len() == old(list)@.len(),
    ensures
        ({
            let before = text::texts(old(list)@);
            let check = home_redirect_verdict(before, mapped@);
            let n = before.len() as int;
            &&& grants::fault_view(r) == verdict::first_error(n, check)
            &&& text::texts(final(list)@) == home_redirected_list(
                before,
                mapped@,
                verdict::passed(n, check),
            )
        }),
{
    let ghost before = text::texts(list@);
    let ghost check = home_redirect_verdict(before, mapped@);
    assert(text::texts(list@) =~= home_redirected_list(before, mapped@, 0));
    for i in 0..mapped.len()
        invariant
            mapped@.len() == list@.len(),
            before.len() == list@.len(),
            check == home_redirect_verdict(before, mapped@),
            verdict::first_error(i as int, check) is Ok,
            text::texts(list@) == home_redirected_list(before, mapped@, i as int),
            before == text::texts(old(list)@),
    {
        let ghost now = text::texts(list@);
        assert(now[i as int] == before[i as int]);
        match &mapped[i] {
            Err(e) => {
                proof {
                    verdict::lemma_passed(i as int, before.len() as int, check);
                }
                return Err(e.as_str().to_owned());
            },
            Ok(None) => {
                assert(text::texts(list@) =~= home_redirected_list(before, mapped@, i + 1));
            },
            Ok(Some(t)) => match paths::policy_path_string(t) {
                Err(e) => {
                    proof {
                        verdict::lemma_passed(i as int, before.len() as int, check);
                    }
                    return Err(e);
                },
                Ok(s) => {
                    let ghost new = s@;
                    list.set(i, s);
                    assert(text::texts(list@) =~= now.update(i as int, new));
                    assert(now.update(i as int, new) =~= home_redirected_list(
                        before,
                        mapped@,
                        i + 1,
                    ));
                },
            },
        }
    }
    proof {
        verdict::lemma_passed(before.len() as int, before.len() as int, check);
    }
    Ok(())
}

/// How the workspace of a new sandbox is made.
#[derive(Debug, Clone, Copy, PartialEq, Eq, Structural)]
pub enum WorkspaceKind {
    /// The sandbox has a home directory of its own.
    ManagedHome,
    /// The sandbox joins a workspace that another one has made.
    Existing,
    /// Links lead from the real home to the agent's state.
    Linked,
}

pub open spec fn kind_of_workspace(
    p: backend::PlatformView,
    selection: PlatformBackendSelection,
    has_ssh_keys: bool,
    manage: bool,
) -> WorkspaceKind {
    if backend::managed_home(p, selection, has_ssh_keys) {
        WorkspaceKind::ManagedHome
    } else if !manage {
        WorkspaceKind::Existing
    } else {
        WorkspaceKind::Linked
    }
}

pub fn workspace_kind(
    platform: &Platform,
    selection: PlatformBackendSelection,
    policy: &Policy,
    manage: bool,
) -> (r: WorkspaceKind)
    requires
        backend::belongs_to(selection, platform@),
    ensures
        r == kind_of_workspace(
            platform@,
            selection,
            policy.ssh.allowed_keys@.len() > 0,
            manage,
        ),
{
    if backend::uses_mxc_managed_home(platform, selection, policy) {
        WorkspaceKind::ManagedHome
    } else if !manage {
        WorkspaceKind::Existing
    } else {
        WorkspaceKind::Linked
    }
}

/// A command that joins a running sandbox makes no links of its own, so it
/// cannot take away those of the sandbox.
pub proof fn law_joining_makes_no_links(
    p: backend::PlatformView,
    selection: PlatformBackendSelection,
    has_ssh_keys: bool,
)
    ensures
        kind_of_workspace(p, selection, has_ssh_keys, false) != WorkspaceKind::Linked,
{
}

/// A step by which a linked workspace is made.
#[derive(Debug, Clone, Copy, PartialEq, Eq, Structural)]
pub enum LinkedStep {
    /// The host makes the links to the agent's state.
    MakeLinks,
    /// The writable paths are redirected behind these links.
    Redirect,
    /// Where the agent's state is kept is granted.
    GrantTargets,
    /// The host links the SSH directory of the sandbox.
    LinkSsh,
    /// The host prepares the keys, and the directory is opened behind the link.
    OpenSsh,
}

/// The steps by which a linked workspace is made, in the order in which they are
/// taken. Those for SSH are taken for a policy that allows keys.
pub open spec fn linked_steps(has_keys: bool) -> Seq<LinkedStep> {
    let links = seq![LinkedStep::MakeLinks, LinkedStep::Redirect, LinkedStep::GrantTargets];
    if has_keys {
        links + seq![LinkedStep::LinkSsh, LinkedStep::OpenSsh]
    } else {
        links
    }
}

/// Whether `done` is how far the making of a linked workspace has come.
pub open spec fn is_linked_so_far(done: Seq<LinkedStep>, has_keys: bool) -> bool {
    done.is_prefix_of(linked_steps(has_keys))
}

/// The step that comes after those that are done, or none where all are.
pub fn next_linked_step(done: &Vec<LinkedStep>, ssh: &SshPolicy) -> (r: Option<LinkedStep>)
    requires
        is_linked_so_far(done@, ssh.allowed_keys@.len() > 0),
    ensures
        match r {
            Some(step) => is_linked_so_far(done@.push(step), ssh.allowed_keys@.len() > 0),
            None => done@ == linked_steps(ssh.allowed_keys@.len() > 0),
        },
{
    let ghost steps = linked_steps(ssh.allowed_keys@.len() > 0);
    let n = done.len();
    assert(done@ == steps.take(n as int));
    let r = if n == 0 {
        Some(LinkedStep::MakeLinks)
    } else if n == 1 {
        Some(LinkedStep::Redirect)
    } else if n == 2 {
        Some(LinkedStep::GrantTargets)
    } else if !needs_scoped_ssh(ssh) || n == 5 {
        None
    } else if n == 3 {
        Some(LinkedStep::LinkSsh)
    } else {
        Some(LinkedStep::OpenSsh)
    };
    proof {
        match r {
            Some(step) => {
                assert(step == steps[n as int]);
                assert(done@.push(step) =~= steps.take(n + 1));
            },
            None => {
                assert(steps.take(n as int) =~= steps);
            },
        }
    }
    r
}

/// The steps of a linked workspace come in one order: the links are made before
/// anything is redirected behind them, that before where they lead is granted,
/// that before the SSH directory is linked, and that before its keys are opened.
/// No step is taken twice, and without keys none is taken for SSH.
pub proof fn law_linked_workspace_is_made_in_order(done: Seq<LinkedStep>, has_keys: bool)
    requires
        is_linked_so_far(done, has_keys),
    ensures
        done.no_duplicates(),
        done.contains(LinkedStep::OpenSsh) ==> done.len() == 5 && done[3] == LinkedStep::LinkSsh,
        done.contains(LinkedStep::LinkSsh) ==> done.len() > 3 && done[2]
            == LinkedStep::GrantTargets && has_keys,
        done.contains(LinkedStep::GrantTargets) ==> done.len() > 2 && done[1]
            == LinkedStep::Redirect,
        done.contains(LinkedStep::Redirect) ==> done.len() > 1 && done[0]
            == LinkedStep::MakeLinks,
{
    let steps = linked_steps(has_keys);
    assert(done == steps.take(done.len() as int));
    assert forall|i: int| 0 <= i < done.len() implies #[trigger] done[i] == steps[i] by {}
}

/// A failed setup: the error, and the links that have to be taken away again.
#[derive(Debug)]
pub struct SetupFailure {
    pub error: SandboxError,
    pub cleanup: Vec<AgentLink>,
}

pub open spec fn creation_failed(what: Seq<char>, reason: Seq<char>) -> sandbox_error::SandboxErrorView {
    sandbox_error::SandboxErrorView::CreationFailed(what + reason)
}

pub(crate) fn fail_creation(what: &str, reason: &str) -> (e: SandboxError)
    ensures
        e@ == creation_failed(what@, reason@),
{
    SandboxError::CreationFailed(what.to_owned().concat(reason))
}

/// The links of the agent's state, as the host has made them.
pub fn agent_workspace_ready(prepared: Result<Vec<AgentLink>, String>) -> (r: Result<
    Vec<AgentLink>,
    SetupFailure,
>)
    ensures
        match prepared {
            Ok(links) => r == Ok::<_, SetupFailure>(links),
            Err(e) => r matches Err(f) && f.error@ == creation_failed(
                "agent workspace preparation: "@,
                e@,
            ) && f.cleanup@.len() == 0,
        },
{
    match prepared {
        Ok(links) => Ok(links),
        Err(e) => Err(
            SetupFailure {
                error: fail_creation("agent workspace preparation: ", e.as_str()),
                cleanup: Vec::new(),
            },
        ),
    }
}

/// Redirect the writable paths behind the links of the agent's state. Where that
/// fails the links are to be taken away again.
pub fn rewrite_read_write_paths_for_agent_targets(
    list: &mut Vec<String>,
    links: Vec<AgentLink>,
    lookups: &Vec<PathLookup>,
) -> (r: Result<Vec<AgentLink>, SetupFailure>)
    requires
        lookups@.len() == old(list)@.len(),
    ensures
        ({
            let before = text::texts(old(list)@);
            let check = redirect_verdict(before, lookups@, links@);
            let n = before.len() as int;
            &&& text::texts(final(list)@) == redirected_list(
                before,
                lookups@,
                links@,
                verdict::passed(n, check),
            )
            &&& match verdict::first_error(n, check) {
                Ok(()) => r == Ok::<_, SetupFailure>(links),
                Err(e) => r matches Err(f) && f.error@ == creation_failed(
                    "agent workspace preparation: "@,
                    e,
                ) && f.cleanup == links,
            }
        }),
{
    match redirect_read_write_paths(list, lookups, &links) {
        Ok(()) => Ok(links),
        Err(e) => Err(
            SetupFailure {
                error: fail_creation("agent workspace preparation: ", e.as_str()),
                cleanup: links,
            },
        ),
    }
}

/// Grant where the agent's state is kept. Where that fails the links are to be
/// taken away again.
pub fn grant_agent_targets(
    list: &mut Vec<String>,
    links: Vec<AgentLink>,
    mapped: &Vec<Result<Option<HostPath>, String>>,
) -> (r: Result<Vec<AgentLink>, SetupFailure>)
    ensures
        ({
            let before = text::texts(old(list)@);
            let check = |i: int| target_verdict(mapped@[i]);
            let n = mapped@.len() as int;
            &&& text::texts(final(list)@) == with_targets(
                before,
                mapped@,
                verdict::passed(n, check),
            )
            &&& match verdict::first_error(n, check) {
                Ok(()) => r == Ok::<_, SetupFailure>(links),
                Err(e) => r matches Err(f) && f.error@ == creation_failed(
                    "agent workspace preparation: "@,
                    e,
                ) && f.cleanup == links,
            }
        }),
{
    match grant_targets(list, mapped) {
        Ok(()) => Ok(links),
        Err(e) => Err(
            SetupFailure {
                error: fail_creation("agent workspace preparation: ", e.as_str()),
                cleanup: links,
            },
        ),
    }
}

/// Whether a policy asks for an SSH directory of its own.
pub fn needs_scoped_ssh(ssh: &SshPolicy) -> (r: bool)
    ensures
        r == (ssh.allowed_keys@.len() > 0),
{
    ssh.allowed_keys.len() > 0
}

/// Add the link to the SSH directory that was made for the sandbox.
pub fn ssh_linked(links: Vec<AgentLink>, linked: Result<AgentLink, String>) -> (r: Result<
    Vec<AgentLink>,
    SetupFailure,
>)
    ensures
        match linked {
            Ok(link) => r matches Ok(all) && all@ == links@.push(link),
            Err(e) => r matches Err(f) && f.error@ == creation_failed(
                "scoped SSH workspace: "@,
                e@,
            ) && f.cleanup == links,
        },
{
    match linked {
        Ok(link) => {
            let mut all = links;
            all.push(link);
            Ok(all)
        },
        Err(e) => Err(
            SetupFailure {
                error: fail_creation("scoped SSH workspace: ", e.as_str()),
                cleanup: links,
            },
        ),
    }
}

/// What opening the SSH directory `dir` behind the link `link` comes to.
pub open spec fn scoped_ssh_verdict(
    dir: HostPath,
    denied: Seq<Result<Option<HostPath>, String>>,
) -> Result<(), Seq<char>> {
    if paths::path_text(dir) is Err {
        unit(paths::path_text(dir))
    } else {
        lookups_verdict(denied)
    }
}

/// The paths of a policy after the SSH directory `dir` was opened behind `link`:
/// the directory can be written, and the link is not denied any more.
pub open spec fn is_scoped_ssh(
    before: FilesystemPolicy,
    after: FilesystemPolicy,
    dir: HostPath,
    link: HostPath,
    denied: Seq<Result<Option<HostPath>, String>>,
) -> bool {
    &&& text::texts(after.read_write@) == pushed_unique(
        text::texts(before.read_write@),
        dir.shown@,
    )
    &&& text::texts(after.deny@) == kept(
        text::texts(before.deny@),
        denied,
        link,
        denied.len() as int,
    )
    &&& after.read_only == before.read_only
    &&& after.compatibility == before.compatibility
}

/// The paths of a policy after the SSH directory `dir` could not be opened: as
/// they were, or without any denials where one of these could not be read.
pub open spec fn is_unopened_ssh(
    before: FilesystemPolicy,
    after: FilesystemPolicy,
    dir: HostPath,
) -> bool {
    if paths::path_text(dir) is Err {
        after == before
    } else {
        &&& text::texts(after.read_write@) == pushed_unique(
            text::texts(before.read_write@),
            dir.shown@,
        )
        &&& after.deny@.len() == 0
        &&& after.read_only == before.read_only
        &&& after.compatibility == before.compatibility
    }
}

fn open_scoped_ssh(
    filesystem: &mut FilesystemPolicy,
    dir: &HostPath,
    link: &HostPath,
    denied: &Vec<Result<Option<HostPath>, String>>,
) -> (r: Result<(), String>)
    requires
        denied@.len() == old(filesystem).deny@.len(),
    ensures
        grants::fault_view(r) == scoped_ssh_verdict(*dir, denied@),
        r is Ok ==> is_scoped_ssh(*old(filesystem), *final(filesystem), *dir, *link, denied@),
        r is Err ==> is_unopened_ssh(*old(filesystem), *final(filesystem), *dir),
{
    match push_unique_policy_path(&mut filesystem.read_write, dir) {
        Err(e) => {
            return Err(e);
        },
        Ok(()) => {},
    }
    let r = remove_policy_path(&mut filesystem.deny, denied, link);
    assert(text::texts(filesystem.deny@).len() == filesystem.deny@.len());
    r
}

/// Open the SSH directory that was prepared for the sandbox, if one was. The
/// last of the links leads to it. Where this fails all links are to be taken
/// away again.
pub fn ssh_prepared(
    filesystem: &mut FilesystemPolicy,
    links: Vec<AgentLink>,
    prepared: Result<Option<HostPath>, String>,
    denied: &Vec<Result<Option<HostPath>, String>>,
) -> (r: Result<Vec<AgentLink>, SetupFailure>)
    requires
        links@.len() > 0,
        denied@.len() == old(filesystem).deny@.len(),
    ensures
        match prepared {
            Err(e) => r matches Err(f) && f.error@ == creation_failed(
                "scoped SSH workspace: "@,
                e@,
            ) && f.cleanup == links && *final(filesystem) == *old(filesystem),
            Ok(None) => r == Ok::<_, SetupFailure>(links) && *final(filesystem) == *old(filesystem),
            Ok(Some(dir)) => match scoped_ssh_verdict(dir, denied@) {
                Ok(()) => r == Ok::<_, SetupFailure>(links) && is_scoped_ssh(
                    *old(filesystem),
                    *final(filesystem),
                    dir,
                    links@.last().link,
                    denied@,
                ),
                Err(e) => r matches Err(f) && f.error@ == creation_failed(
                    "scoped SSH workspace: "@,
                    e,
                ) && f.cleanup == links && is_unopened_ssh(
                    *old(filesystem),
                    *final(filesystem),
                    dir,
                ),
            },
        },
{
    match prepared {
        Err(e) => Err(
            SetupFailure {
                error: fail_creation("scoped SSH workspace: ", e.as_str()),
                cleanup: links,
            },
        ),
        Ok(None) => Ok(links),
        Ok(Some(dir)) => {
            let opened = open_scoped_ssh(filesystem, &dir, &links[links.len() - 1].link, denied);
            match opened {
                Ok(()) => Ok(links),
                Err(e) => Err(
                    SetupFailure {
                        error: fail_creation("scoped SSH workspace: ", e.as_str()),
                        cleanup: links,
                    },
                ),
            }
        },
    }
}

/// What joining the SSH directory of a running sandbox comes to.
pub open spec fn existing_ssh_verdict(
    has_keys: bool,
    points_there: Result<bool, String>,
    link: Result<HostPath, String>,
    dir: HostPath,
    denied: Seq<Result<Option<HostPath>, String>>,
) -> Result<(), sandbox_error::SandboxErrorView> {
    if !has_keys {
        Ok(())
    } else {
        match points_there {
            Err(e) => Err(creation_failed("scoped SSH workspace: "@, e@)),
            Ok(false) => Err(
                sandbox_error::SandboxErrorView::CreationFailed(
                    "scoped SSH workspace is not prepared for exec"@,
                ),
            ),
            Ok(true) => match link {
                Err(e) => Err(creation_failed("scoped SSH workspace: "@, e@)),
                Ok(_) => match scoped_ssh_verdict(dir, denied) {
                    Ok(()) => Ok(()),
                    Err(e) => Err(creation_failed("scoped SSH workspace: "@, e)),
                },
            },
        }
    }
}

/// Let a command join the SSH directory that a running sandbox has. The link to
/// it has to be there already.
pub fn prepare_existing_scoped_ssh_for_exec(
    filesystem: &mut FilesystemPolicy,
    ssh: &SshPolicy,
    points_there: Result<bool, String>,
    link: Result<HostPath, String>,
    dir: &HostPath,
    denied: &Vec<Result<Option<HostPath>, String>>,
) -> (r: Result<(), SandboxError>)
    requires
        denied@.len() == old(filesystem).deny@.len(),
    ensures
        sandbox_error::outcome_view(r) == existing_ssh_verdict(
            ssh.allowed_keys@.len() > 0,
            points_there,
            link,
            *dir,
            denied@,
        ),
        if ssh.allowed_keys@.len() == 0 || !(points_there == Ok::<_, String>(true) && link is Ok) {
            *final(filesystem) == *old(filesystem)
        } else if r is Ok {
            is_scoped_ssh(*old(filesystem), *final(filesystem), *dir, link->Ok_0, denied@)
        } else {
            is_unopened_ssh(*old(filesystem), *final(filesystem), *dir)
        },
{
    if ssh.allowed_keys.len() == 0 {
        return Ok(());
    }
    match points_there {
        Err(e) => {
            return Err(fail_creation("scoped SSH workspace: ", e.as_str()));
        },
        Ok(there) => {
            if !there {
                return Err(
                    SandboxError::CreationFailed(
                        "scoped SSH workspace is not prepared for exec".to_owned(),
                    ),
                );
            }
        },
    }
    match link {
        Err(e) => Err(fail_creation("scoped SSH workspace: ", e.as_str())),
        Ok(link) => match open_scoped_ssh(filesystem, dir, &link, denied) {
            Ok(()) => Ok(()),
            Err(e) => Err(fail_creation("scoped SSH workspace: ", e.as_str())),
        },
    }
}

/// A path leads to the target of the first link that is this path, component by
/// component, and to none where no link is.
pub proof fn law_first_link_counts(links: Seq<AgentLink>, p: Seq<paths::PathPartView>, i: int)
    requires
        0 <= i <= links.len(),
        forall|k: int|
            0 <= k < i ==> paths::part_views((#[trigger] links[k]).link.parts@) != p,
        i < links.len() ==> paths::part_views(links[i].link.parts@) == p,
    ensures
        link_target(links, p) == if i < links.len() {
            Some(links[i].target)
        } else {
            None
        },
    decreases links.len(),
{
    if i > 0 {
        let rest = links.skip(1);
        assert(paths::part_views(links[0].link.parts@) != p);
        assert forall|k: int| 0 <= k < i - 1 implies paths::part_views(
            (#[trigger] rest[k]).link.parts@,
        ) != p by {
            assert(rest[k] == links[k + 1]);
        }
        law_first_link_counts(rest, p, i - 1);
    }
}

/// Where a writable path of a policy is redirected to. A path behind a link goes
/// to the target of the link, whatever else is known of it; any other goes where
/// the agent's state is kept, or stays as it is where it is no such path. What
/// cannot be read or is no text is the fault.
pub proof fn law_where_a_path_is_redirected(
    path: Seq<char>,
    lookup: PathLookup,
    links: Seq<AgentLink>,
)
    ensures
        lookup.expanded matches Err(e) ==> redirected(path, lookup, links) == Err::<Seq<char>, _>(
            e@,
        ),
        lookup.expanded is Ok && lookup.expanded->Ok_0 is Some && link_target(
            links,
            paths::part_views(lookup.expanded->Ok_0->0.parts@),
        ) is Some ==> redirected(path, lookup, links) == paths::path_text(
            link_target(links, paths::part_views(lookup.expanded->Ok_0->0.parts@))->0,
        ),
        lookup.expanded is Ok && (lookup.expanded->Ok_0 is None || link_target(
            links,
            paths::part_views(lookup.expanded->Ok_0->0.parts@),
        ) is None) ==> {
            &&& lookup.mapped matches Err(e) ==> redirected(path, lookup, links) == Err::<
                Seq<char>,
                _,
            >(e@)
            &&& lookup.mapped matches Ok(None) ==> redirected(path, lookup, links) == Ok::<
                _,
                Seq<char>,
            >(path)
            &&& lookup.mapped matches Ok(Some(t)) ==> redirected(path, lookup, links)
                == paths::path_text(t)
        },
{
}

/// Redirecting changes each of the first paths of a list to where it is
/// redirected to, and leaves the rest, and how many there are.
pub proof fn law_redirecting_changes_path_by_path(
    list: Seq<Seq<char>>,
    lookups: Seq<PathLookup>,
    links: Seq<AgentLink>,
    mapped: Seq<Result<Option<HostPath>, String>>,
    n: int,
    i: int,
)
    requires
        0 <= n <= list.len(),
        0 <= i < list.len(),
        redirected(list[i], lookups[i], links) is Ok,
        home_redirected(list[i], mapped[i]) is Ok,
    ensures
        redirected_list(list, lookups, links, n).len() == list.len(),
        home_redirected_list(list, mapped, n).len() == list.len(),
        i < n ==> redirected(list[i], lookups[i], links) == Ok::<_, Seq<char>>(
            redirected_list(list, lookups, links, n)[i],
        ),
        i >= n ==> redirected_list(list, lookups, links, n)[i] == list[i],
        i < n ==> home_redirected(list[i], mapped[i]) == Ok::<_, Seq<char>>(
            home_redirected_list(list, mapped, n)[i],
        ),
        i >= n ==> home_redirected_list(list, mapped, n)[i] == list[i],
{
}

/// In a managed home a path goes where the agent's state is kept there, or stays
/// as it is where it is no such path.
pub proof fn law_where_a_path_goes_in_a_managed_home(
    path: Seq<char>,
    mapped: Result<Option<HostPath>, String>,
)
    ensures
        mapped matches Ok(None) ==> home_redirected(path, mapped) == Ok::<_, Seq<char>>(path),
        mapped matches Ok(Some(t)) ==> home_redirected(path, mapped) == if t.utf8 {
            Ok(t.shown@)
        } else {
            Err("policy path '"@ + t.shown@ + "' is not valid UTF-8"@)
        },
        mapped matches Err(e) ==> home_redirected(path, mapped) == Err::<Seq<char>, _>(e@),
{
}

/// One path after the other is kept or taken out: it is taken out exactly when it
/// leads to the path that is to be removed, and the others stay in their order.
pub proof fn law_removal_goes_path_by_path(
    list: Seq<Seq<char>>,
    lookups: Seq<Result<Option<HostPath>, String>>,
    remove: HostPath,
    n: int,
)
    requires
        0 <= n < list.len(),
        lookups.len() == list.len(),
    ensures
        kept(list, lookups, remove, 0).len() == 0,
        kept(list, lookups, remove, n + 1) == if lookups[n] is Ok && lookups[n]->Ok_0 is Some
            && paths::part_views(lookups[n]->Ok_0->0.parts@) == paths::part_views(remove.parts@) {
            kept(list, lookups, remove, n)
        } else {
            kept(list, lookups, remove, n).push(list[n])
        },
{
}

/// The paths of a list can be read exactly when each of them can, and the first
/// that cannot is the fault.
pub proof fn law_first_unreadable_path_counts(
    lookups: Seq<Result<Option<HostPath>, String>>,
    i: int,
)
    requires
        0 <= i <= lookups.len(),
        forall|k: int| 0 <= k < i ==> #[trigger] lookups[k] is Ok,
        i < lookups.len() ==> lookups[i] is Err,
    ensures
        lookups_verdict(lookups) == if i < lookups.len() {
            Err(lookups[i]->Err_0@)
        } else {
            Ok(())
        },
{
    let check = |k: int| lookup_verdict(lookups[k]);
    verdict::lemma_first_error_ok(i, check);
    assert forall|k: int| 0 <= k < i implies #[trigger] check(k) is Ok by {
        assert(lookups[k] is Ok);
    }
    verdict::lemma_passed(i, lookups.len() as int, check);
    if i == lookups.len() {
        assert(lookups_verdict(lookups)->Ok_0 == ());
    }
}

/// Whether a lookup gives the target `t`.
pub open spec fn gives_target(mapped: Result<Option<HostPath>, String>, t: Seq<char>) -> bool {
    mapped is Ok && mapped->Ok_0 is Some && mapped->Ok_0->0.shown@ == t
}

/// Granting where the agent's state is kept takes nothing away from a list, grants
/// the target of each lookup that gives one, and grants nothing else.
pub proof fn law_targets_are_granted(
    list: Seq<Seq<char>>,
    mapped: Seq<Result<Option<HostPath>, String>>,
    n: int,
)
    requires
        0 <= n <= mapped.len(),
    ensures
        list.is_prefix_of(with_targets(list, mapped, n)),
        forall|i: int|
            0 <= i < n && #[trigger] mapped[i] is Ok && mapped[i]->Ok_0 is Some ==> with_targets(
                list,
                mapped,
                n,
            ).contains(mapped[i]->Ok_0->0.shown@),
        forall|k: int|
            list.len() <= k < with_targets(list, mapped, n).len() ==> exists|i: int|
                0 <= i < n && gives_target(
                    #[trigger] mapped[i],
                    #[trigger] with_targets(list, mapped, n)[k],
                ),
    decreases n,
{
    let now = with_targets(list, mapped, n);
    if n > 0 {
        law_targets_are_granted(list, mapped, n - 1);
        let before = with_targets(list, mapped, n - 1);
        match mapped[n - 1] {
            Ok(Some(t)) => {
                law_push_unique(before, t.shown@);
                assert(before =~= now.take(before.len() as int));
                assert(list =~= now.subrange(0, list.len() as int));
                assert forall|i: int|
                    0 <= i < n && #[trigger] mapped[i] is Ok && mapped[i]->Ok_0 is Some implies
                    now.contains(mapped[i]->Ok_0->0.shown@) by {
                    if i < n - 1 {
                        let k = before.index_of(mapped[i]->Ok_0->0.shown@);
                        assert(now[k] == before[k]);
                    }
                }
                assert forall|k: int| list.len() <= k < now.len() implies exists|i: int|
                    0 <= i < n && gives_target(#[trigger] mapped[i], #[trigger] now[k]) by {
                    if k < before.len() {
                        assert(now[k] == before[k]);
                        let i = choose|i: int|
                            0 <= i < n - 1 && gives_target(#[trigger] mapped[i], before[k]);
                        assert(gives_target(mapped[i], now[k]));
                    } else {
                        assert(gives_target(mapped[n - 1], now[k]));
                    }
                }
            },
            _ => {
                assert(now == before);
                assert forall|k: int| list.len() <= k < now.len() implies exists|i: int|
                    0 <= i < n && gives_target(#[trigger] mapped[i], #[trigger] now[k]) by {
                    let i = choose|i: int|
                        0 <= i < n - 1 && gives_target(#[trigger] mapped[i], before[k]);
                    assert(gives_target(mapped[i], now[k]));
                }
            },
        }
    } else {
        assert(list =~= now.subrange(0, list.len() as int));
    }
}

/// Opening the SSH directory of a sandbox lets it be written, takes away the
/// denials of the link to it and no others, and changes nothing else.
pub proof fn law_scoped_ssh_is_opened(
    before: FilesystemPolicy,
    after: FilesystemPolicy,
    dir: HostPath,
    link: HostPath,
    denied: Seq<Result<Option<HostPath>, String>>,
    i: int,
)
    requires
        is_scoped_ssh(before, after, dir, link, denied),
        denied.len() == before.deny@.len(),
        0 <= i < denied.len(),
    ensures
        text::texts(after.read_write@).contains(dir.shown@),
        text::texts(before.read_write@).is_prefix_of(text::texts(after.read_write@)),
        after.read_only == before.read_only,
        after.compatibility == before.compatibility,
        !(denied[i] is Ok && denied[i]->Ok_0 is Some && paths::part_views(
            denied[i]->Ok_0->0.parts@,
        ) == paths::part_views(link.parts@)) ==> text::texts(after.deny@).contains(
            before.deny@[i]@,
        ),
        after.deny@.len() <= before.deny@.len(),
{
    let list = text::texts(before.read_write@);
    law_push_unique(list, dir.shown@);
    assert(list =~= text::texts(after.read_write@).subrange(0, list.len() as int));
    law_removal_keeps_the_rest(
        text::texts(before.deny@),
        denied,
        link,
        denied.len() as int,
        i,
    );
    assert(text::texts(before.deny@)[i] == before.deny@[i]@);
    assert(text::texts(after.deny@).len() == after.deny@.len());
}

/// A command joins the SSH directory of a running sandbox exactly when its policy
/// names no keys, or the link leads there, can be found, and the directory can be
/// opened; a link that leads elsewhere is no preparation.
pub proof fn law_who_joins_an_ssh_directory(
    has_keys: bool,
    points_there: Result<bool, String>,
    link: Result<HostPath, String>,
    dir: HostPath,
    denied: Seq<Result<Option<HostPath>, String>>,
)
    ensures
        existing_ssh_verdict(has_keys, points_there, link, dir, denied) is Ok <==> {
            ||| !has_keys
            ||| {
                &&& points_there == Ok::<_, String>(true)
                &&& link is Ok
                &&& dir.utf8
                &&& forall|i: int| 0 <= i < denied.len() ==> #[trigger] denied[i] is Ok
            }
        },
        has_keys && points_there == Ok::<_, String>(false) ==> existing_ssh_verdict(
            has_keys,
            points_there,
            link,
            dir,
            denied,
        ) == Err::<(), _>(
            sandbox_error::SandboxErrorView::CreationFailed(
                "scoped SSH workspace is not prepared for exec"@,
            ),
        ),
{
    let check = |k: int| lookup_verdict(denied[k]);
    verdict::lemma_first_error_ok(denied.len() as int, check);
    if lookups_verdict(denied) is Ok {
        assert forall|i: int| 0 <= i < denied.len() implies #[trigger] denied[i] is Ok by {
            assert(check(i) is Ok);
        }
    } else {
        let i = choose|i: int| 0 <= i < denied.len() && !(#[trigger] check(i) is Ok);
        assert(denied[i] is Err);
    }
}

/// A sandbox of MXC has a managed home, on Linux for a policy with keys; of the
/// others one that was created makes links, and one that joins does not.
pub proof fn law_how_a_workspace_is_made(
    p: backend::PlatformView,
    selection: PlatformBackendSelection,
    has_ssh_keys: bool,
    manage: bool,
)
    ensures
        kind_of_workspace(p, selection, has_ssh_keys, manage) is ManagedHome
            <==> backend::managed_home(p, selection, has_ssh_keys),
        kind_of_workspace(p, selection, has_ssh_keys, manage) is Linked <==> manage
            && !backend::managed_home(p, selection, has_ssh_keys),
        kind_of_workspace(p, selection, has_ssh_keys, manage) is Existing <==> !manage
            && !backend::managed_home(p, selection, has_ssh_keys),
{
}

/// An SSH directory that could not be opened leaves what may be read as it was,
/// and denies nothing more: everything stays as it was where the directory is no
/// text.
pub proof fn law_unopened_ssh_leaves_the_rest(
    before: FilesystemPolicy,
    after: FilesystemPolicy,
    dir: HostPath,
)
    requires
        is_unopened_ssh(before, after, dir),
    ensures
        !dir.utf8 ==> after == before,
        dir.utf8 ==> after.deny@.len() == 0 && text::texts(after.read_write@).contains(
            dir.shown@,
        ),
        after.read_only == before.read_only,
        after.compatibility == before.compatibility,
        text::texts(before.read_write@).is_prefix_of(text::texts(after.read_write@)),
{
    let list = text::texts(before.read_write@);
    law_push_unique(list, dir.shown@);
    assert(list =~= text::texts(after.read_write@).subrange(0, list.len() as int));
}

/// Every linked workspace has its links made, its paths redirected and the targets
/// granted; the SSH directory is linked and opened exactly where there are keys.
pub proof fn law_linked_workspace_is_made_completely(has_keys: bool)
    ensures
        linked_steps(has_keys).contains(LinkedStep::MakeLinks),
        linked_steps(has_keys).contains(LinkedStep::Redirect),
        linked_steps(has_keys).contains(LinkedStep::GrantTargets),
        linked_steps(has_keys).contains(LinkedStep::LinkSsh) <==> has_keys,
        linked_steps(has_keys).contains(LinkedStep::OpenSsh) <==> has_keys,
        is_linked_so_far(linked_steps(has_keys), has_keys),
{
    let steps = linked_steps(has_keys);
    assert(steps[0] is MakeLinks && steps[1] is Redirect && steps[2] is GrantTargets);
    if has_keys {
        assert(steps[3] is LinkSsh && steps[4] is OpenSsh);
    }
    assert(steps.take(steps.len() as int) =~= steps);
}

/// A failed creation says at what and why.
pub proof fn law_failed_creation_in_words(what: Seq<char>, reason: Seq<char>)
    ensures
        creation_failed(what, reason).message() == "sandbox creation failed: "@ + what + reason,
{
    assert("sandbox creation failed: "@ + (what + reason) =~= "sandbox creation failed: "@ + what
        + reason);
}

/// The first link whose target cannot be found, or cannot be written as text, is
/// the reason that not all targets are granted; a link without a target is none.
pub proof fn law_first_bad_target_counts(mapped: Seq<Result<Option<HostPath>, String>>, i: int)
    requires
        0 <= i <= mapped.len(),
        forall|k: int|
            0 <= k < i ==> #[trigger] mapped[k] is Ok && (mapped[k]->Ok_0 is Some
                ==> mapped[k]->Ok_0->0.utf8),
    ensures
        ({
            let verdict = verdict::first_error(
                mapped.len() as int,
                |k: int| target_verdict(mapped[k]),
            );
            &&& i == mapped.len() ==> verdict is Ok
            &&& i < mapped.len() && mapped[i] is Err ==> verdict == Err::<(), _>(
                mapped[i]->Err_0@,
            )
            &&& i < mapped.len() && mapped[i] is Ok && mapped[i]->Ok_0 is Some
                && !mapped[i]->Ok_0->0.utf8 ==> verdict == Err::<(), _>(
                paths::path_text(mapped[i]->Ok_0->0)->Err_0,
            )
        }),
{
    let check = |k: int| target_verdict(mapped[k]);
    verdict::lemma_first_error_ok(i, check);
    assert forall|k: int| 0 <= k < i implies #[trigger] check(k) is Ok by {
        assert(mapped[k] is Ok);
    }
    if i < mapped.len() && check(i) is Err {
        verdict::lemma_passed(i, mapped.len() as int, check);
    }
}

} // verus!
