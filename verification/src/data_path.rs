//! Local data path resolver: maps a host family and the relevant
//! environment values to the platform-conventional per-user application
//! data directory.  A pure mapping over exactly three recognized host
//! families; an unrecognized family is a configuration error, never a
//! silent default.  Reading the environment is left to the shell, which
//! hands the values in as plain options.

use crate::paths::RelPath;
use crate::target::family_of_view;
use crate::target::host_family_of;
use crate::target::HostFamily;
use vstd::prelude::*;

verus! {

/// The environment values the resolver may consult, as read once by the
/// shell.  A `None` records that the variable was unset.
pub struct DataEnv {
    /// The local-application-data root (consulted on Windows).
    pub local_app_data: Option<String>,
    /// The XDG data root (consulted on Linux, preferred over `home`).
    pub xdg_data_home: Option<String>,
    /// The user's home directory (consulted on Linux and macOS).
    pub home: Option<String>,
}

/// Why the per-user data directory could not be resolved.  Fatal
/// configuration errors: the caller must not fall back to a guessed path.
#[derive(Clone, Copy, Debug, PartialEq, Eq, Structural)]
pub enum ResolutionFailure {
    /// The operating system is not one of the recognized host families.
    UnrecognizedHostFamily,
    /// The environment variable the host family's convention rests on is
    /// unset.
    MissingDataRootVariable,
}

/// The per-user application data directory a host resolves to: the
/// local-application-data root on Windows, the XDG data root (or the XDG
/// default under the home directory) on Linux, the Application Support
/// directory on macOS; an error where the family is unrecognized or the
/// variable its convention rests on is unset.
pub open spec fn data_dir_view(os: Seq<char>, env: DataEnv, app_name: Seq<char>) -> Result<
    Seq<Seq<char>>,
    ResolutionFailure,
> {
    match family_of_view(os) {
        None => Err(ResolutionFailure::UnrecognizedHostFamily),
        Some(HostFamily::Windows) => match env.local_app_data {
            Some(base) => Ok(seq![base@, app_name]),
            None => Err(ResolutionFailure::MissingDataRootVariable),
        },
        Some(HostFamily::Linux) => match env.xdg_data_home {
            Some(base) => Ok(seq![base@, app_name]),
            None => match env.home {
                Some(home) => Ok(seq![home@, ".local"@, "share"@, app_name]),
                None => Err(ResolutionFailure::MissingDataRootVariable),
            },
        },
        Some(HostFamily::MacOs) => match env.home {
            Some(home) => Ok(seq![home@, "Library"@, "Application Support"@, app_name]),
            None => Err(ResolutionFailure::MissingDataRootVariable),
        },
    }
}

/// Resolves the per-user application data directory for `app_name`, as
/// `data_dir_view` states it.
pub fn data_dir(os: &str, env: &DataEnv, app_name: &str) -> (r: Result<
    RelPath,
    ResolutionFailure,
>)
    ensures
        (r is Ok) == (data_dir_view(os@, *env, app_name@) is Ok),
        r is Ok ==> r->Ok_0@ == data_dir_view(os@, *env, app_name@)->Ok_0,
        r is Err ==> r->Err_0 == data_dir_view(os@, *env, app_name@)->Err_0,
{
    let family = match host_family_of(os) {
        Some(f) => f,
        None => {
            return Err(ResolutionFailure::UnrecognizedHostFamily);
        },
    };
    match family {
        HostFamily::Windows => {
            match &env.local_app_data {
                Some(base) => {
                    let r = RelPath::empty().child(base.as_str()).child(app_name);
                    proof {
                        assert(r@ =~= seq![base@, app_name@]);
                    }
                    Ok(r)
                },
                None => Err(ResolutionFailure::MissingDataRootVariable),
            }
        },
        HostFamily::Linux => {
            match &env.xdg_data_home {
                Some(base) => {
                    let r = RelPath::empty().child(base.as_str()).child(app_name);
                    proof {
                        assert(r@ =~= seq![base@, app_name@]);
                    }
                    Ok(r)
                },
                None => {
                    match &env.home {
                        Some(home) => {
                            let r = RelPath::empty().child(home.as_str()).child(".local").child(
                                "share",
                            ).child(app_name);
                            proof {
                                assert(r@ =~= seq![home@, ".local"@, "share"@, app_name@]);
                            }
                            Ok(r)
                        },
                        None => Err(ResolutionFailure::MissingDataRootVariable),
                    }
                },
            }
        },
        HostFamily::MacOs => {
            match &env.home {
                Some(home) => {
                    let r = RelPath::empty().child(home.as_str()).child("Library").child(
                        "Application Support",
                    ).child(app_name);
                    proof {
                        assert(r@ =~= seq![home@, "Library"@, "Application Support"@, app_name@]);
                    }
                    Ok(r)
                },
                None => Err(ResolutionFailure::MissingDataRootVariable),
            }
        },
    }
}

} // verus!
