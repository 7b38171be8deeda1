//! Platform target resolver: pure derivation of the target triple and the
//! executable suffix from host facts, and of the backend executable's file
//! name.  No I/O; the shell supplies the host facts once at startup.

use vstd::prelude::*;
use vstd::string::StringExecFns;

verus! {

/// The closed set of operating-system families the supervisor recognizes.
#[derive(Clone, Copy, Debug, PartialEq, Eq, Structural)]
pub enum HostFamily {
    Windows,
    Linux,
    MacOs,
}

/// The C runtime environment of the host toolchain.
#[derive(Clone, Copy, Debug, PartialEq, Eq, Structural)]
pub enum RuntimeEnv {
    Gnu,
    Msvc,
    Other,
}

/// The environment component of the target triple.
pub open spec fn env_label_view(e: RuntimeEnv) -> Seq<char> {
    match e {
        RuntimeEnv::Gnu => "gnu"@,
        RuntimeEnv::Msvc => "msvc"@,
        RuntimeEnv::Other => "unknown"@,
    }
}

/// The target triple for a host: `{arch}-pc-{os}-{env}`.
pub open spec fn triple_view(arch: Seq<char>, os: Seq<char>, e: RuntimeEnv) -> Seq<char> {
    arch + "-pc-"@ + os + "-"@ + env_label_view(e)
}

/// The executable suffix for a family: `.exe` on Windows, empty elsewhere.
pub open spec fn suffix_view(f: HostFamily) -> Seq<char> {
    match f {
        HostFamily::Windows => ".exe"@,
        HostFamily::Linux => ""@,
        HostFamily::MacOs => ""@,
    }
}

/// The backend executable's file name: `{base}-{triple}{suffix}`.
pub open spec fn executable_name_view(
    base: Seq<char>,
    arch: Seq<char>,
    os: Seq<char>,
    e: RuntimeEnv,
    f: HostFamily,
) -> Seq<char> {
    base + "-"@ + triple_view(arch, os, e) + suffix_view(f)
}

/// The environment component of the target triple, as text.
pub fn env_label(e: RuntimeEnv) -> (r: &'static str)
    ensures
        r@ == env_label_view(e),
{
    match e {
        RuntimeEnv::Gnu => "gnu",
        RuntimeEnv::Msvc => "msvc",
        RuntimeEnv::Other => "unknown",
    }
}

/// Computes the target triple `{arch}-pc-{os}-{env}` for the host facts.
pub fn target_triple(arch: &str, os: &str, e: RuntimeEnv) -> (r: String)
    ensures
        r@ == triple_view(arch@, os@, e),
{
    let mut r = arch.to_owned();
    r.append("-pc-");
    r.append(os);
    r.append("-");
    r.append(env_label(e));
    proof {
        assert(r@ =~= triple_view(arch@, os@, e));
    }
    r
}

/// The platform executable extension: `.exe` on Windows, empty elsewhere.
pub fn executable_suffix(f: HostFamily) -> (r: &'static str)
    ensures
        r@ == suffix_view(f),
{
    match f {
        HostFamily::Windows => ".exe",
        HostFamily::Linux => "",
        HostFamily::MacOs => "",
    }
}

/// Builds the backend executable file name `{base}-{triple}{suffix}`.
pub fn executable_file_name(base: &str, arch: &str, os: &str, e: RuntimeEnv, f: HostFamily) -> (r:
    String)
    ensures
        r@ == executable_name_view(base@, arch@, os@, e, f),
{
    let mut r = base.to_owned();
    r.append("-");
    let triple = target_triple(arch, os, e);
    r.append(triple.as_str());
    r.append(executable_suffix(f));
    proof {
        assert(r@ =~= executable_name_view(base@, arch@, os@, e, f));
    }
    r
}

/// The host family an operating-system name denotes, if it is one of the
/// closed set of recognized families.
pub open spec fn family_of_view(os: Seq<char>) -> Option<HostFamily> {
    if os == "windows"@ {
        Some(HostFamily::Windows)
    } else if os == "linux"@ {
        Some(HostFamily::Linux)
    } else if os == "macos"@ {
        Some(HostFamily::MacOs)
    } else {
        None
    }
}

/// Recognizes an operating-system name as one of the closed set of host
/// families; anything else is rejected rather than defaulted.
pub fn host_family_of(os: &str) -> (r: Option<HostFamily>)
    ensures
        r == family_of_view(os@),
{
    proof {
        reveal_strlit("windows");
        reveal_strlit("linux");
        reveal_strlit("macos");
        assert("windows"@.len() == 7);
        assert("linux"@.len() == 5);
        assert("linux"@[0] == 'l');
        assert("macos"@[0] == 'm');
        assert("windows"@ != "linux"@);
        assert("windows"@ != "macos"@);
        assert("linux"@ != "macos"@);
    }
    let s = os.to_owned();
    if s.eq(&String::from_str("windows")) {
        Some(HostFamily::Windows)
    } else if s.eq(&String::from_str("linux")) {
        Some(HostFamily::Linux)
    } else if s.eq(&String::from_str("macos")) {
        Some(HostFamily::MacOs)
    } else {
        None
    }
}

/// For a fixed host, the resolver is deterministic: any two computations
/// of the target triple agree, and any two computations of the executable
/// suffix agree, within a process lifetime or across them.
pub proof fn lemma_resolver_deterministic(
    arch: Seq<char>,
    os: Seq<char>,
    e: RuntimeEnv,
    f: HostFamily,
    t1: Seq<char>,
    t2: Seq<char>,
    s1: Seq<char>,
    s2: Seq<char>,
)
    requires
        t1 == triple_view(arch, os, e),
        t2 == triple_view(arch, os, e),
        s1 == suffix_view(f),
        s2 == suffix_view(f),
    ensures
        t1 == t2,
        s1 == s2,
{
}

} // verus!
