//! The managed home of a sandbox, step by step.
//!
//! Each step takes over from the one before: nothing is redirected before the
//! home is there, no grant is checked before the redirection, and SSH keys are
//! handed out only after every grant has passed.

use vstd::prelude::*;
use vstd::string::*;
use crate::grants;
use crate::grants::ManagedHomeGrantGuard;
use crate::paths;
use crate::paths::HostPath;
use crate::policy::FilesystemPolicy;
use crate::sandbox_env;
use crate::sandbox_error;
use crate::sandbox_error::SandboxError;
use crate::text;
use crate::verdict;
use crate::workspace;

verus! {

pub open spec fn home_failed(reason: Seq<char>) -> sandbox_error::SandboxErrorView {
    workspace::creation_failed("managed home workspace: "@, reason)
}

/// The error for a managed home that cannot be locked, found or read.
pub fn managed_home_error(reason: &str) -> (e: SandboxError)
    ensures
        e@ == home_failed(reason@),
{
    workspace::fail_creation("managed home workspace: ", reason)
}

/// A home that was made and may be written.
#[derive(Debug)]
pub struct EnteredHome {
    home: HostPath,
}

/// A home that the writable paths of the policy were redirected into.
#[derive(Debug)]
pub struct RedirectedHome {
    home: HostPath,
}

/// A home whose sandbox is granted nothing that it must not have.
#[derive(Debug)]
pub struct CheckedHome {
    home: HostPath,
}

impl EnteredHome {
    pub closed spec fn dir(self) -> HostPath {
        self.home
    }
}

impl RedirectedHome {
    pub closed spec fn dir(self) -> HostPath {
        self.home
    }
}

impl CheckedHome {
    pub closed spec fn dir(self) -> HostPath {
        self.home
    }
}

/// The SSH directory of a managed home, as a policy holds it.
pub open spec fn ssh_text(home: HostPath, windows: bool) -> Result<Seq<char>, Seq<char>> {
    let shown = paths::joined(home.shown@, ".ssh"@, windows);
    if home.utf8 {
        Ok(shown)
    } else {
        Err("policy path '"@ + shown + "' is not valid UTF-8"@)
    }
}

/// The SSH directory of a managed home.
pub fn ssh_dir(home: &HostPath, windows: bool) -> (r: HostPath)
    ensures
        paths::is_child(r, *home, ".ssh"@, windows),
        paths::path_text(r) == ssh_text(*home, windows),
        home.well_formed(windows) ==> r.well_formed(windows),
{
    proof {
        reveal_strlit(".ssh");
        assert(".ssh"@.len() == 4);
    }
    paths::child(home, ".ssh", windows)
}

/// What entering a managed home comes to.
pub open spec fn enter_verdict(prepared: Result<HostPath, String>) -> Result<(), Seq<char>> {
    match prepared {
        Err(e) => Err(e@),
        Ok(home) => workspace::unit(paths::path_text(home)),
    }
}

/// Let the sandbox write the home that was made for it.
pub fn enter_managed_home(
    filesystem: &mut FilesystemPolicy,
    prepared: Result<HostPath, String>,
) -> (r: Result<EnteredHome, SandboxError>)
    ensures
        match enter_verdict(prepared) {
            Err(e) => r matches Err(x) && x@ == home_failed(e) && *final(filesystem) == *old(filesystem),
            Ok(()) => {
                &&& r matches Ok(h) && h.dir() == prepared->Ok_0
                &&& text::texts(final(filesystem).read_write@) == workspace::pushed_unique(
                    text::texts(old(filesystem).read_write@),
                    prepared->Ok_0.shown@,
                )
                &&& *final(filesystem) == (FilesystemPolicy {
                    read_write: final(filesystem).read_write,
                    ..*old(filesystem)
                })
            },
        },
{
    match prepared {
        Err(e) => Err(managed_home_error(e.as_str())),
        Ok(home) => match workspace::push_unique_policy_path(&mut filesystem.read_write, &home) {
            Ok(()) => Ok(EnteredHome { home }),
            Err(e) => Err(managed_home_error(e.as_str())),
        },
    }
}

impl EnteredHome {
    /// Redirect the writable paths into the home, given where the agent's state
    /// is kept there for each of them.
    pub fn redirect(
        self,
        filesystem: &mut FilesystemPolicy,
        mapped: &Vec<Result<Option<HostPath>, String>>,
    ) -> (r: Result<RedirectedHome, SandboxError>)
        requires
            mapped@.len() == old(filesystem).read_write@.len(),
        ensures
            ({
                let before = text::texts(old(filesystem).read_write@);
                let check = workspace::home_redirect_verdict(before, mapped@);
                let n = before.len() as int;
                &&& text::texts(final(filesystem).read_write@) == workspace::home_redirected_list(
                    before,
                    mapped@,
                    verdict::passed(n, check),
                )
                &&& match verdict::first_error(n, check) {
                    Ok(()) => r matches Ok(h) && h.dir() == self.dir(),
                    Err(e) => r matches Err(x) && x@ == home_failed(e),
                }
            }),
            *final(filesystem) == (FilesystemPolicy {
                read_write: final(filesystem).read_write,
                ..*old(filesystem)
            }),
    {
        let rewritten = workspace::rewrite_read_write_paths_for_mxc_managed_home_targets(
            &mut filesystem.read_write,
            mapped,
        );
        match rewritten {
            Ok(()) => Ok(RedirectedHome { home: self.home }),
            Err(e) => Err(managed_home_error(e.as_str())),
        }
    }
}

/// What checking everything that a policy grants comes to: what may be read,
/// then what may be written.
pub open spec fn all_grants_verdict(
    filesystem: FilesystemPolicy,
    read_only: Seq<Result<HostPath, String>>,
    read_write: Seq<Result<HostPath, String>>,
    guard: ManagedHomeGrantGuard,
    windows: bool,
) -> Result<(), Seq<char>> {
    let first = grants::grants_verdict(
        "read_only"@,
        filesystem.read_only@,
        read_only,
        guard,
        windows,
    );
    if first is Err {
        first
    } else {
        grants::grants_verdict("read_write"@, filesystem.read_write@, read_write, guard, windows)
    }
}

impl RedirectedHome {
    /// Check everything that the policy grants now, given what each path
    /// resolves to.
    pub fn check_grants(
        self,
        filesystem: &FilesystemPolicy,
        read_only: &Vec<Result<HostPath, String>>,
        read_write: &Vec<Result<HostPath, String>>,
        guard: &ManagedHomeGrantGuard,
        windows: bool,
    ) -> (r: Result<CheckedHome, SandboxError>)
        requires
            read_only@.len() == filesystem.read_only@.len(),
            read_write@.len() == filesystem.read_write@.len(),
        ensures
            match all_grants_verdict(*filesystem, read_only@, read_write@, *guard, windows) {
                Ok(()) => r matches Ok(h) && h.dir() == self.dir(),
                Err(e) => r matches Err(x) && x@ == home_failed(e),
            },
    {
        match grants::reject_unmanaged_home_grants_for_mxc_managed_home(
            &filesystem.read_only,
            read_only,
            &filesystem.read_write,
            read_write,
            guard,
            windows,
        ) {
            Ok(()) => Ok(CheckedHome { home: self.home }),
            Err(e) => Err(managed_home_error(e.as_str())),
        }
    }
}

impl CheckedHome {
    pub fn path(&self) -> (r: &HostPath)
        ensures
            *r == self.dir(),
    {
        &self.home
    }

    /// Let the sandbox read the SSH directory of its home, once the keys were
    /// put there.
    pub fn grant_ssh(
        &self,
        filesystem: &mut FilesystemPolicy,
        prepared: Result<(), String>,
        windows: bool,
    ) -> (r: Result<(), SandboxError>)
        ensures
            match prepared {
                Err(e) => r matches Err(x) && x@ == home_failed("scoped SSH workspace: "@ + e@)
                    && *final(filesystem) == *old(filesystem),
                Ok(()) => match ssh_text(self.dir(), windows) {
                    Err(e) => r matches Err(x) && x@ == home_failed(e) && *final(filesystem)
                        == *old(filesystem),
                    Ok(t) => {
                        &&& r is Ok
                        &&& text::texts(final(filesystem).read_only@) == workspace::pushed_unique(
                            text::texts(old(filesystem).read_only@),
                            t,
                        )
                        &&& *final(filesystem) == (FilesystemPolicy {
                            read_only: final(filesystem).read_only,
                            ..*old(filesystem)
                        })
                    },
                },
            },
    {
        let dir = ssh_dir(&self.home, windows);
        match prepared {
            Err(e) => Err(managed_home_error("scoped SSH workspace: ".to_owned().concat(e.as_str()).as_str())),
            Ok(()) => match workspace::push_unique_policy_path(&mut filesystem.read_only, &dir) {
                Ok(()) => Ok(()),
                Err(e) => Err(managed_home_error(e.as_str())),
            },
        }
    }

    /// Point the sandbox at its home.
    pub fn set_env(&self, env: &mut Vec<(String, String)>, windows: bool) -> (r: Result<
        (),
        SandboxError,
    >)
        ensures
            match paths::path_text(self.dir()) {
                Ok(home) => r is Ok && text::pair_texts(final(env)@) == sandbox_env::home_env(
                    text::pair_texts(old(env)@),
                    home,
                    windows,
                ),
                Err(e) => r matches Err(x) && x@ == home_failed(e) && *final(env) == *old(env),
            },
    {
        match sandbox_env::set_managed_home_env(env, &self.home, windows) {
            Ok(()) => Ok(()),
            Err(e) => Err(managed_home_error(e.as_str())),
        }
    }
}

/// A home that was checked leaves the private agent setup and the real home
/// outside the sandbox, whatever is written or read.
pub proof fn law_checked_home_keeps_the_real_home_outside(
    filesystem: FilesystemPolicy,
    read_only: Seq<Result<HostPath, String>>,
    read_write: Seq<Result<HostPath, String>>,
    guard: ManagedHomeGrantGuard,
    windows: bool,
)
    requires
        read_only.len() == filesystem.read_only@.len(),
        read_write.len() == filesystem.read_write@.len(),
        all_grants_verdict(filesystem, read_only, read_write, guard, windows) is Ok,
    ensures
        forall|i: int|
            0 <= i < read_only.len() ==> is_harmless(#[trigger] read_only[i], guard, windows),
        forall|i: int|
            0 <= i < read_write.len() ==> is_harmless(#[trigger] read_write[i], guard, windows),
{
    assert forall|i: int| 0 <= i < read_only.len() implies is_harmless(
        #[trigger] read_only[i],
        guard,
        windows,
    ) by {
        grants::law_accepted_grants_stay_outside_the_real_home(
            "read_only"@,
            filesystem.read_only@,
            read_only,
            guard,
            windows,
            i,
        );
    }
    assert forall|i: int| 0 <= i < read_write.len() implies is_harmless(
        #[trigger] read_write[i],
        guard,
        windows,
    ) by {
        grants::law_accepted_grants_stay_outside_the_real_home(
            "read_write"@,
            filesystem.read_write@,
            read_write,
            guard,
            windows,
            i,
        );
    }
}

/// A path that neither touches the private agent setup nor reaches into the
/// part of the real home that is closed.
pub open spec fn is_harmless(
    path: Result<HostPath, String>,
    guard: ManagedHomeGrantGuard,
    windows: bool,
) -> bool {
    path matches Ok(h) && !paths::overlap(
        h.components(),
        paths::part_views(guard.private_setup@),
    ) && (paths::within(paths::part_views(guard.home@), h.components())
        ==> grants::is_open_below_home(h.components(), guard, windows))
}

/// Everything that a policy grants is accepted exactly when what may be read and
/// what may be written is, and a fault of the first is named before one of the
/// second.
pub proof fn law_both_sections_have_to_pass(
    filesystem: FilesystemPolicy,
    read_only: Seq<Result<HostPath, String>>,
    read_write: Seq<Result<HostPath, String>>,
    guard: ManagedHomeGrantGuard,
    windows: bool,
)
    ensures
        ({
            let reads = grants::grants_verdict(
                "read_only"@,
                filesystem.read_only@,
                read_only,
                guard,
                windows,
            );
            let writes = grants::grants_verdict(
                "read_write"@,
                filesystem.read_write@,
                read_write,
                guard,
                windows,
            );
            let all = all_grants_verdict(filesystem, read_only, read_write, guard, windows);
            &&& all is Ok <==> reads is Ok && writes is Ok
            &&& reads is Err ==> all == reads
            &&& reads is Ok && writes is Err ==> all == writes
        }),
{
}

/// The SSH directory of a managed home is `.ssh` in it, where the home is text.
pub proof fn law_ssh_directory_lies_in_the_home(home: HostPath)
    ensures
        home.utf8 && home.shown@.len() > 0 && home.shown@.last() != '/' ==> ssh_text(home, false)
            == Ok::<_, Seq<char>>(home.shown@ + "/.ssh"@),
        !home.utf8 ==> ssh_text(home, false) is Err,
{
    reveal_strlit(".ssh");
    reveal_strlit("/.ssh");
    if home.shown@.len() > 0 && home.shown@.last() != '/' {
        assert(paths::joined(home.shown@, ".ssh"@, false) =~= home.shown@ + "/.ssh"@);
    }
}

/// A managed home can be entered exactly when it was made and is text.
pub proof fn law_which_homes_are_entered(prepared: Result<HostPath, String>)
    ensures
        enter_verdict(prepared) is Ok <==> prepared is Ok && prepared->Ok_0.utf8,
        prepared matches Err(e) ==> enter_verdict(prepared) == Err::<(), _>(e@),
{
}

/// A managed home that cannot be had is a failed creation, and says why.
pub proof fn law_failed_home_in_words(reason: Seq<char>)
    ensures
        home_failed(reason) == sandbox_error::SandboxErrorView::CreationFailed(
            "managed home workspace: "@ + reason,
        ),
{
}

} // verus!
