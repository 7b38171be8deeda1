//! Process supervisor: plans the launch of the backend server.
//!
//! The supervisor joins the staged tree's root with the fixed `backend`
//! segment, the fixed product segment and the resolved executable file
//! name, and picks the host-appropriate isolation for the child process:
//! on Windows the console-window allocation is suppressed by a creation
//! flag, elsewhere the child's standard streams are redirected to a null
//! sink.  The spawn itself is an operating-system call made by the shell;
//! after it the supervisor holds no handle to the child, so all later
//! control happens over the shutdown handshake.

use crate::data_path::data_dir;
use crate::data_path::data_dir_view;
use crate::data_path::DataEnv;
use crate::data_path::ResolutionFailure;
use crate::paths::RelPath;
use crate::target::executable_file_name;
use crate::target::executable_name_view;
use crate::target::family_of_view;
use crate::target::host_family_of;
use crate::target::HostFamily;
use crate::target::RuntimeEnv;
use vstd::prelude::*;

verus! {

/// Process-creation flag that suppresses allocation of a console window
/// on Windows.
pub const CREATE_NO_WINDOW: u32 = 0x08000000;

/// How the child process is kept from opening a visible terminal.
#[derive(Clone, Copy, Debug, PartialEq, Eq, Structural)]
pub enum SpawnIsolation {
    /// Create the process with the no-console-window creation flag.
    SuppressConsoleWindow,
    /// Redirect the child's standard output and standard error to a null
    /// sink.
    NullStdStreams,
}

/// The backend executable was missing or could not be executed at the
/// resolved path.  Fatal to startup: the shell is non-functional without
/// its backend, so this must be surfaced, never swallowed.
pub struct SpawnFailure {
    /// The resolved path at which the spawn was attempted.
    pub path: RelPath,
}

/// A filesystem operation of the resource sync failed.  Fatal at startup
/// and safely retryable on the next launch; no partial-copy cleanup is
/// attempted.
pub struct StagingFailure {
    /// The path of the offending filesystem entry.
    pub path: RelPath,
}

/// Everything the shell needs in order to spawn the backend: where the
/// executable stands and how to isolate the child.
pub struct LaunchPlan {
    pub executable: RelPath,
    pub isolation: SpawnIsolation,
}

/// The isolation appropriate for a host family.
pub open spec fn isolation_view(f: HostFamily) -> SpawnIsolation {
    match f {
        HostFamily::Windows => SpawnIsolation::SuppressConsoleWindow,
        HostFamily::Linux => SpawnIsolation::NullStdStreams,
        HostFamily::MacOs => SpawnIsolation::NullStdStreams,
    }
}

/// Picks the host-appropriate way to keep the child process from opening
/// a visible terminal.
pub fn isolation_for(f: HostFamily) -> (r: SpawnIsolation)
    ensures
        r == isolation_view(f),
{
    match f {
        HostFamily::Windows => SpawnIsolation::SuppressConsoleWindow,
        HostFamily::Linux => SpawnIsolation::NullStdStreams,
        HostFamily::MacOs => SpawnIsolation::NullStdStreams,
    }
}

/// The staged copy of the bundled resource tree lives under this segment
/// of the per-user data directory, mirroring its name next to the shell
/// binary.
pub fn staging_segment() -> (r: &'static str)
    ensures
        r@ == "_up_"@,
{
    "_up_"
}

/// The full path of the backend executable under the staged tree:
/// `{staging_root}/backend/{product}/{executable_name}`.
pub fn backend_executable_path(staging_root: &RelPath, product: &str, executable_name: &str) -> (r:
    RelPath)
    ensures
        r@ == staging_root@.push("backend"@).push(product@).push(executable_name@),
{
    staging_root.child("backend").child(product).child(executable_name)
}

/// Combines the resolved executable path with the host-appropriate
/// isolation into the plan the shell executes.
pub fn launch_plan(staging_root: &RelPath, product: &str, executable_name: &str, f: HostFamily) -> (
    r: LaunchPlan)
    ensures
        r.executable@ == staging_root@.push("backend"@).push(product@).push(executable_name@),
        r.isolation == isolation_view(f),
{
    LaunchPlan {
        executable: backend_executable_path(staging_root, product, executable_name),
        isolation: isolation_for(f),
    }
}

/// Plans the whole startup from the host facts alone: resolves the
/// per-user data directory, places the staged tree under it, derives the
/// backend executable's name from the target triple, and joins both into
/// the launch plan.  Fails exactly where the data path resolver fails,
/// with its error.
pub fn plan_startup(
    os: &str,
    arch: &str,
    e: RuntimeEnv,
    env: &DataEnv,
    app_name: &str,
    product: &str,
) -> (r: Result<LaunchPlan, ResolutionFailure>)
    ensures
        (r is Ok) == (data_dir_view(os@, *env, app_name@) is Ok),
        r is Err ==> r->Err_0 == data_dir_view(os@, *env, app_name@)->Err_0,
        r is Ok ==> ({
            let root = data_dir_view(os@, *env, app_name@)->Ok_0;
            let fam = family_of_view(os@)->Some_0;
            &&& r->Ok_0.executable@ == root.push("_up_"@).push("backend"@).push(product@).push(
                executable_name_view(product@, arch@, os@, e, fam),
            )
            &&& r->Ok_0.isolation == isolation_view(fam)
        }),
{
    let family = match host_family_of(os) {
        Some(f) => f,
        None => {
            return Err(ResolutionFailure::UnrecognizedHostFamily);
        },
    };
    let root = match data_dir(os, env, app_name) {
        Ok(p) => p,
        Err(failure) => {
            return Err(failure);
        },
    };
    let staged = root.child(staging_segment());
    let exe_name = executable_file_name(product, arch, os, e, family);
    Ok(launch_plan(&staged, product, exe_name.as_str(), family))
}

} // verus!
