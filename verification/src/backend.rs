//! Which implementation runs a sandbox.

use vstd::prelude::*;
use vstd::string::*;
use crate::policy;
use crate::policy::{Policy, RuntimeContainment, RuntimeProvider};
use crate::sandbox_error;
use crate::sandbox_error::SandboxError;

verus! {

/// The operating system of the host.
#[derive(Debug)]
pub enum Platform {
    Linux,
    Macos,
    Windows,
    /// Any other system, under its own name.
    Other(String),
}

#[verifier::ext_equal]
pub ghost enum PlatformView {
    Linux,
    Macos,
    Windows,
    Other(Seq<char>),
}

impl View for Platform {
    type V = PlatformView;

    open spec fn view(&self) -> PlatformView {
        match self {
            Platform::Linux => PlatformView::Linux,
            Platform::Macos => PlatformView::Macos,
            Platform::Windows => PlatformView::Windows,
            Platform::Other(s) => PlatformView::Other(s@),
        }
    }
}

/// The name of a platform.
pub open spec fn platform_name(p: PlatformView) -> Seq<char> {
    match p {
        PlatformView::Linux => "linux"@,
        PlatformView::Macos => "macos"@,
        PlatformView::Windows => "windows"@,
        PlatformView::Other(s) => s,
    }
}

impl Platform {
    pub fn name(&self) -> (s: &str)
        ensures
            s@ == platform_name(self@),
    {
        match self {
            Platform::Linux => "linux",
            Platform::Macos => "macos",
            Platform::Windows => "windows",
            Platform::Other(s) => s.as_str(),
        }
    }
}

/// The backend that a policy resolves to.
#[derive(Debug, Clone, Copy, PartialEq, Eq, Structural)]
pub enum PlatformBackendSelection {
    Default,
    LinuxNative,
    LinuxMxc,
    LinuxVxn,
    WindowsMxc,
}

pub open spec fn unsupported<T>(m: Seq<char>) -> Result<T, sandbox_error::SandboxErrorView> {
    Err(sandbox_error::SandboxErrorView::Unsupported(m))
}

pub open spec fn selection_view(r: Result<PlatformBackendSelection, SandboxError>) -> Result<
    PlatformBackendSelection,
    sandbox_error::SandboxErrorView,
> {
    match r {
        Ok(b) => Ok(b),
        Err(e) => Err(e@),
    }
}

/// The backend for the provider that a policy names.
pub open spec fn provider_backend(p: PlatformView, provider: RuntimeProvider) -> Result<
    PlatformBackendSelection,
    sandbox_error::SandboxErrorView,
> {
    match p {
        PlatformView::Linux => Ok(
            match provider {
                RuntimeProvider::Auto | RuntimeProvider::Mxc => PlatformBackendSelection::LinuxMxc,
                RuntimeProvider::AxisNative => PlatformBackendSelection::LinuxNative,
                RuntimeProvider::Vxn => PlatformBackendSelection::LinuxVxn,
            },
        ),
        PlatformView::Windows => match provider {
            RuntimeProvider::Auto | RuntimeProvider::Mxc => Ok(
                PlatformBackendSelection::WindowsMxc,
            ),
            RuntimeProvider::AxisNative => unsupported(
                "runtime provider 'axis_native' is disabled on Windows because the legacy native path does not currently enforce AXIS policy; use 'auto' or 'mxc'"@,
            ),
            RuntimeProvider::Vxn => unsupported(
                "runtime provider 'vxn' requires Linux/Xen (dom0); it is not available on Windows"@,
            ),
        },
        _ => match provider {
            RuntimeProvider::Auto | RuntimeProvider::AxisNative => Ok(
                PlatformBackendSelection::Default,
            ),
            RuntimeProvider::Mxc => unsupported(
                "runtime provider 'mxc' is not available on "@ + platform_name(p),
            ),
            RuntimeProvider::Vxn => unsupported(
                "runtime provider 'vxn' requires Linux/Xen (dom0); it is not available on "@
                    + platform_name(p),
            ),
        },
    }
}

pub fn process_backend_for_provider(platform: &Platform, provider: RuntimeProvider) -> (r: Result<
    PlatformBackendSelection,
    SandboxError,
>)
    ensures
        selection_view(r) == provider_backend(platform@, provider),
{
    match platform {
        Platform::Linux => Ok(
            match provider {
                RuntimeProvider::Auto | RuntimeProvider::Mxc => PlatformBackendSelection::LinuxMxc,
                RuntimeProvider::AxisNative => PlatformBackendSelection::LinuxNative,
                RuntimeProvider::Vxn => PlatformBackendSelection::LinuxVxn,
            },
        ),
        Platform::Windows => match provider {
            RuntimeProvider::Auto | RuntimeProvider::Mxc => Ok(
                PlatformBackendSelection::WindowsMxc,
            ),
            RuntimeProvider::AxisNative => Err(
                SandboxError::Unsupported(
                    "runtime provider 'axis_native' is disabled on Windows because the legacy native path does not currently enforce AXIS policy; use 'auto' or 'mxc'".to_owned(),
                ),
            ),
            RuntimeProvider::Vxn => Err(
                SandboxError::Unsupported(
                    "runtime provider 'vxn' requires Linux/Xen (dom0); it is not available on Windows".to_owned(),
                ),
            ),
        },
        _ => match provider {
            RuntimeProvider::Auto | RuntimeProvider::AxisNative => Ok(
                PlatformBackendSelection::Default,
            ),
            RuntimeProvider::Mxc => Err(
                SandboxError::Unsupported(
                    "runtime provider 'mxc' is not available on ".to_owned().concat(
                        platform.name(),
                    ),
                ),
            ),
            RuntimeProvider::Vxn => Err(
                SandboxError::Unsupported(
                    "runtime provider 'vxn' requires Linux/Xen (dom0); it is not available on ".to_owned().concat(
                    platform.name()),
                ),
            ),
        },
    }
}

pub fn platform_backend_for_policy(platform: &Platform, policy: &Policy) -> (r: Result<
    PlatformBackendSelection,
    SandboxError,
>)
    ensures
        selection_view(r) == provider_backend(platform@, policy.runtime.provider),
{
    match policy.runtime.containment {
        RuntimeContainment::Process => process_backend_for_provider(
            platform,
            policy.runtime.provider,
        ),
    }
}

/// Whether a platform can run a backend at all.
pub open spec fn availability(p: PlatformView, backend: PlatformBackendSelection) -> Result<
    (),
    sandbox_error::SandboxErrorView,
> {
    match p {
        PlatformView::Linux | PlatformView::Macos => Ok(()),
        PlatformView::Windows => if backend == PlatformBackendSelection::WindowsMxc {
            Ok(())
        } else {
            unsupported(
                "native Windows containment is unavailable; select the MXC process backend"@,
            )
        },
        PlatformView::Other(s) => unsupported("platform '"@ + s + "' is not yet supported"@),
    }
}

pub fn ensure_platform_backend_available(
    platform: &Platform,
    backend: PlatformBackendSelection,
) -> (r: Result<(), SandboxError>)
    ensures
        sandbox_error::outcome_view(r) == availability(platform@, backend),
{
    match platform {
        Platform::Linux | Platform::Macos => Ok(()),
        Platform::Windows => if backend == PlatformBackendSelection::WindowsMxc {
            Ok(())
        } else {
            Err(
                SandboxError::Unsupported(
                    "native Windows containment is unavailable; select the MXC process backend".to_owned(),
                ),
            )
        },
        Platform::Other(s) => Err(
            SandboxError::Unsupported(
                "platform '".to_owned().concat(s.as_str()).concat("' is not yet supported"),
            ),
        ),
    }
}

/// The Linux backend that stands behind a selection.
pub open spec fn linux_backend(backend: PlatformBackendSelection) -> PlatformBackendSelection {
    match backend {
        PlatformBackendSelection::LinuxNative => PlatformBackendSelection::LinuxNative,
        PlatformBackendSelection::LinuxVxn => PlatformBackendSelection::LinuxVxn,
        _ => PlatformBackendSelection::LinuxMxc,
    }
}

pub fn effective_linux_backend(backend: PlatformBackendSelection) -> (r: PlatformBackendSelection)
    requires
        backend != PlatformBackendSelection::WindowsMxc,
    ensures
        r == linux_backend(backend),
{
    match backend {
        PlatformBackendSelection::LinuxNative => PlatformBackendSelection::LinuxNative,
        PlatformBackendSelection::LinuxVxn => PlatformBackendSelection::LinuxVxn,
        _ => PlatformBackendSelection::LinuxMxc,
    }
}

/// The sandbox implementations.
#[derive(Debug, Clone, Copy, PartialEq, Eq, Structural)]
pub enum Implementation {
    LinuxNative,
    LinuxMxc,
    LinuxVxn,
    Macos,
    WindowsMxc,
}

pub open spec fn implementation_view(r: Result<Implementation, SandboxError>) -> Result<
    Implementation,
    sandbox_error::SandboxErrorView,
> {
    match r {
        Ok(i) => Ok(i),
        Err(e) => Err(e@),
    }
}

/// Whether a selection belongs to a platform: one of the selections that can be
/// made there.
pub open spec fn belongs_to(backend: PlatformBackendSelection, p: PlatformView) -> bool {
    match backend {
        PlatformBackendSelection::Default => true,
        PlatformBackendSelection::LinuxNative
        | PlatformBackendSelection::LinuxMxc
        | PlatformBackendSelection::LinuxVxn => p == PlatformView::Linux,
        PlatformBackendSelection::WindowsMxc => p == PlatformView::Windows,
    }
}

/// The implementation that a selection stands for on a platform.
pub open spec fn implementation(p: PlatformView, backend: PlatformBackendSelection) -> Result<
    Implementation,
    sandbox_error::SandboxErrorView,
> {
    match p {
        PlatformView::Linux => Ok(
            match linux_backend(backend) {
                PlatformBackendSelection::LinuxNative => Implementation::LinuxNative,
                PlatformBackendSelection::LinuxVxn => Implementation::LinuxVxn,
                _ => Implementation::LinuxMxc,
            },
        ),
        PlatformView::Macos => Ok(Implementation::Macos),
        PlatformView::Windows => match backend {
            PlatformBackendSelection::WindowsMxc => Ok(Implementation::WindowsMxc),
            _ => unsupported("legacy native Windows host execution is disabled"@),
        },
        PlatformView::Other(s) => unsupported("platform '"@ + s + "' is not yet supported"@),
    }
}

pub fn create_platform_sandbox_with_backend(
    platform: &Platform,
    backend: PlatformBackendSelection,
) -> (r: Result<Implementation, SandboxError>)
    requires
        belongs_to(backend, platform@),
    ensures
        implementation_view(r) == implementation(platform@, backend),
{
    match platform {
        Platform::Linux => match effective_linux_backend(backend) {
            PlatformBackendSelection::LinuxNative => Ok(Implementation::LinuxNative),
            PlatformBackendSelection::LinuxVxn => Ok(Implementation::LinuxVxn),
            _ => Ok(Implementation::LinuxMxc),
        },
        Platform::Macos => Ok(Implementation::Macos),
        Platform::Windows => match backend {
            PlatformBackendSelection::WindowsMxc => Ok(Implementation::WindowsMxc),
            _ => Err(
                SandboxError::Unsupported(
                    "legacy native Windows host execution is disabled".to_owned(),
                ),
            ),
        },
        Platform::Other(s) => Err(
            SandboxError::Unsupported(
                "platform '".to_owned().concat(s.as_str()).concat("' is not yet supported"),
            ),
        ),
    }
}

/// Whether the backend gets a home directory of its own. On Linux this is for
/// policies with SSH keys only.
pub open spec fn managed_home(
    p: PlatformView,
    backend: PlatformBackendSelection,
    has_ssh_keys: bool,
) -> bool {
    match p {
        PlatformView::Linux => linux_backend(backend) == PlatformBackendSelection::LinuxMxc
            && has_ssh_keys,
        PlatformView::Windows => backend == PlatformBackendSelection::WindowsMxc,
        _ => false,
    }
}

pub fn uses_mxc_managed_home(
    platform: &Platform,
    backend: PlatformBackendSelection,
    policy: &Policy,
) -> (r: bool)
    requires
        belongs_to(backend, platform@),
    ensures
        r == managed_home(platform@, backend, policy.ssh.allowed_keys@.len() > 0),
{
    match platform {
        Platform::Linux => effective_linux_backend(backend) == PlatformBackendSelection::LinuxMxc
            && policy.ssh.allowed_keys.len() > 0,
        Platform::Windows => backend == PlatformBackendSelection::WindowsMxc,
        _ => false,
    }
}

/// A selection that a policy leads to belongs to the platform it was made on.
pub proof fn law_selection_belongs_to_its_platform(p: PlatformView, provider: RuntimeProvider)
    ensures
        provider_backend(p, provider) matches Ok(b) ==> belongs_to(b, p),
{
}

/// The VM backend is never a default: it is selected only where the policy
/// names it, and only on Linux.
pub proof fn law_vm_backend_is_opt_in(p: PlatformView, provider: RuntimeProvider)
    ensures
        provider_backend(p, provider) == Ok::<_, sandbox_error::SandboxErrorView>(
            PlatformBackendSelection::LinuxVxn,
        ) <==> p == PlatformView::Linux && provider == RuntimeProvider::Vxn,
        provider == RuntimeProvider::Vxn && p != PlatformView::Linux ==> provider_backend(
            p,
            provider,
        ) is Err,
{
}

/// Resolving a Linux selection settles it: the result is never the default, and
/// resolving it again changes nothing.
pub proof fn law_resolved_linux_backend_is_settled(backend: PlatformBackendSelection)
    ensures
        linux_backend(backend) != PlatformBackendSelection::Default,
        linux_backend(linux_backend(backend)) == linux_backend(backend),
        backend != PlatformBackendSelection::LinuxVxn ==> linux_backend(backend)
            != PlatformBackendSelection::LinuxVxn,
{
}

/// A selection that is available on its platform has an implementation there.
pub proof fn law_available_backend_has_an_implementation(
    p: PlatformView,
    backend: PlatformBackendSelection,
)
    requires
        availability(p, backend) is Ok,
    ensures
        implementation(p, backend) is Ok,
{
}

/// The default provider leads to a backend on every platform, and on Linux, macOS
/// and Windows that backend can be had and has an implementation of its platform.
pub proof fn law_default_provider_works_everywhere(p: PlatformView)
    ensures
        provider_backend(p, RuntimeProvider::Auto) is Ok,
        p is Linux || p is Macos || p is Windows ==> ({
            let b = provider_backend(p, RuntimeProvider::Auto)->Ok_0;
            &&& availability(p, b) is Ok
            &&& implementation(p, b) is Ok
            &&& p is Linux ==> implementation(p, b)->Ok_0 == Implementation::LinuxMxc
            &&& p is Macos ==> implementation(p, b)->Ok_0 == Implementation::Macos
            &&& p is Windows ==> implementation(p, b)->Ok_0 == Implementation::WindowsMxc
        }),
{
}

/// Which provider can be named where: any on Linux, MXC on Windows and native
/// isolation elsewhere. What is named is what runs.
pub proof fn law_which_provider_runs_where(p: PlatformView, provider: RuntimeProvider)
    ensures
        provider_backend(p, provider) is Ok <==> {
            ||| provider is Auto
            ||| p is Linux
            ||| p is Windows && provider is Mxc
            ||| !(p is Windows) && provider is AxisNative
        },
        provider_backend(p, provider) matches Ok(b) ==> {
            &&& p is Linux && provider is Mxc ==> implementation(p, b) == Ok::<
                _,
                sandbox_error::SandboxErrorView,
            >(Implementation::LinuxMxc)
            &&& p is Linux && provider is AxisNative ==> implementation(p, b) == Ok::<
                _,
                sandbox_error::SandboxErrorView,
            >(Implementation::LinuxNative)
            &&& p is Linux && provider is Vxn ==> implementation(p, b) == Ok::<
                _,
                sandbox_error::SandboxErrorView,
            >(Implementation::LinuxVxn)
            &&& p is Macos ==> implementation(p, b) == Ok::<_, sandbox_error::SandboxErrorView>(
                Implementation::Macos,
            )
            &&& p is Windows ==> implementation(p, b) == Ok::<_, sandbox_error::SandboxErrorView>(
                Implementation::WindowsMxc,
            )
            &&& p is Other ==> implementation(p, b) is Err
        },
{
}

/// A provider that cannot be had is refused as unsupported. The words name the
/// provider, and away from Linux and Windows the platform.
pub proof fn law_refused_provider_is_unsupported(p: PlatformView, provider: RuntimeProvider)
    requires
        provider_backend(p, provider) is Err,
    ensures
        provider_backend(p, provider)->Err_0 is Unsupported,
        ({
            let words = provider_backend(p, provider)->Err_0->Unsupported_0;
            let head = "runtime provider '"@ + policy::provider_text(provider) + "'"@;
            &&& head.is_prefix_of(words)
            &&& !(p is Windows) ==> exists|front: Seq<char>| words == #[trigger] (front
                + platform_name(p))
        }),
{
    reveal_strlit("runtime provider '");
    reveal_strlit("'");
    reveal_strlit("mxc");
    reveal_strlit("vxn");
    reveal_strlit("axis_native");
    reveal_strlit(
        "runtime provider 'axis_native' is disabled on Windows because the legacy native path does not currently enforce AXIS policy; use 'auto' or 'mxc'",
    );
    reveal_strlit(
        "runtime provider 'vxn' requires Linux/Xen (dom0); it is not available on Windows",
    );
    reveal_strlit("runtime provider 'mxc' is not available on ");
    reveal_strlit("runtime provider 'vxn' requires Linux/Xen (dom0); it is not available on ");
    let words = provider_backend(p, provider)->Err_0->Unsupported_0;
    let head = "runtime provider '"@ + policy::provider_text(provider) + "'"@;
    assert(words.take(head.len() as int) =~= head);
    assert(head =~= words.subrange(0, head.len() as int));
    if provider is Mxc {
        assert(words == "runtime provider 'mxc' is not available on "@ + platform_name(p));
    } else if !(p is Windows) {
        assert(words
            == "runtime provider 'vxn' requires Linux/Xen (dom0); it is not available on "@
            + platform_name(p));
    }
}

/// Linux and macOS have every backend that can be selected there, Windows has
/// MXC alone, and other platforms have none, which is said with their name.
pub proof fn law_which_backends_are_available(p: PlatformView, backend: PlatformBackendSelection)
    ensures
        availability(p, backend) is Ok <==> p is Linux || p is Macos || p is Windows && backend
            is WindowsMxc,
        p matches PlatformView::Other(name) ==> availability(p, backend) == Err::<
            (),
            sandbox_error::SandboxErrorView,
        >(
            sandbox_error::SandboxErrorView::Unsupported(
                "platform '"@ + name + "' is not yet supported"@,
            ),
        ),
{
}

/// A sandbox has a home of its own exactly when MXC runs it, on Linux only for a
/// policy with SSH keys.
pub proof fn law_who_has_a_managed_home(
    p: PlatformView,
    backend: PlatformBackendSelection,
    has_ssh_keys: bool,
)
    ensures
        managed_home(p, backend, has_ssh_keys) <==> {
            ||| implementation(p, backend) == Ok::<_, sandbox_error::SandboxErrorView>(
                Implementation::WindowsMxc,
            )
            ||| implementation(p, backend) == Ok::<_, sandbox_error::SandboxErrorView>(
                Implementation::LinuxMxc,
            ) && has_ssh_keys
        },
{
}

/// Platforms are named in small letters, and one that is not known by what it
/// calls itself.
pub proof fn law_platforms_have_names(other: Seq<char>)
    ensures
        platform_name(PlatformView::Linux) == "linux"@,
        platform_name(PlatformView::Macos) == "macos"@,
        platform_name(PlatformView::Windows) == "windows"@,
        platform_name(PlatformView::Other(other)) == other,
{
}

/// Each selection leads to the implementation of its own name, the default on
/// Linux to MXC and on macOS to the one that there is. Without MXC Windows has
/// none, and neither has any other platform.
pub proof fn law_which_implementation_is_taken(
    backend: PlatformBackendSelection,
    other: Seq<char>,
)
    ensures
        implementation(PlatformView::Linux, PlatformBackendSelection::Default) == Ok::<
            _,
            sandbox_error::SandboxErrorView,
        >(Implementation::LinuxMxc),
        implementation(PlatformView::Linux, PlatformBackendSelection::LinuxMxc) == Ok::<
            _,
            sandbox_error::SandboxErrorView,
        >(Implementation::LinuxMxc),
        implementation(PlatformView::Linux, PlatformBackendSelection::LinuxNative) == Ok::<
            _,
            sandbox_error::SandboxErrorView,
        >(Implementation::LinuxNative),
        implementation(PlatformView::Linux, PlatformBackendSelection::LinuxVxn) == Ok::<
            _,
            sandbox_error::SandboxErrorView,
        >(Implementation::LinuxVxn),
        implementation(PlatformView::Macos, backend) == Ok::<_, sandbox_error::SandboxErrorView>(
            Implementation::Macos,
        ),
        implementation(PlatformView::Windows, PlatformBackendSelection::WindowsMxc) == Ok::<
            _,
            sandbox_error::SandboxErrorView,
        >(Implementation::WindowsMxc),
        !(backend is WindowsMxc) ==> implementation(PlatformView::Windows, backend) == Err::<
            Implementation,
            _,
        >(
            sandbox_error::SandboxErrorView::Unsupported(
                "legacy native Windows host execution is disabled"@,
            ),
        ),
        implementation(PlatformView::Other(other), backend) == Err::<Implementation, _>(
            sandbox_error::SandboxErrorView::Unsupported(
                "platform '"@ + other + "' is not yet supported"@,
            ),
        ),
        linux_backend(PlatformBackendSelection::Default) is LinuxMxc,
        linux_backend(PlatformBackendSelection::LinuxMxc) is LinuxMxc,
        linux_backend(PlatformBackendSelection::LinuxNative) is LinuxNative,
        linux_backend(PlatformBackendSelection::LinuxVxn) is LinuxVxn,
{
}

} // verus!
