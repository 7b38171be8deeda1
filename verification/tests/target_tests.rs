use backend_supervisor::target::env_label;
use backend_supervisor::target::executable_file_name;
use backend_supervisor::target::executable_suffix;
use backend_supervisor::target::host_family_of;
use backend_supervisor::target::target_triple;
use backend_supervisor::target::HostFamily;
use backend_supervisor::target::RuntimeEnv;

#[test]
fn triple_windows_msvc() {
    let t = target_triple("x86_64", "windows", RuntimeEnv::Msvc);
    assert_eq!(t.as_str(), "x86_64-pc-windows-msvc");
}

#[test]
fn triple_linux_gnu() {
    let t = target_triple("x86_64", "linux", RuntimeEnv::Gnu);
    assert_eq!(t.as_str(), "x86_64-pc-linux-gnu");
}

#[test]
fn triple_macos_other_env() {
    let t = target_triple("aarch64", "macos", RuntimeEnv::Other);
    assert_eq!(t.as_str(), "aarch64-pc-macos-unknown");
}

#[test]
fn env_labels() {
    assert_eq!(env_label(RuntimeEnv::Gnu), "gnu");
    assert_eq!(env_label(RuntimeEnv::Msvc), "msvc");
    assert_eq!(env_label(RuntimeEnv::Other), "unknown");
}

#[test]
fn suffix_per_family() {
    assert_eq!(executable_suffix(HostFamily::Windows), ".exe");
    assert_eq!(executable_suffix(HostFamily::Linux), "");
    assert_eq!(executable_suffix(HostFamily::MacOs), "");
}

#[test]
fn executable_name_windows() {
    let n = executable_file_name(
        "apppy",
        "x86_64",
        "windows",
        RuntimeEnv::Msvc,
        HostFamily::Windows,
    );
    assert_eq!(n.as_str(), "apppy-x86_64-pc-windows-msvc.exe");
}

#[test]
fn executable_name_linux() {
    let n = executable_file_name("apppy", "x86_64", "linux", RuntimeEnv::Gnu, HostFamily::Linux);
    assert_eq!(n.as_str(), "apppy-x86_64-pc-linux-gnu");
}

#[test]
fn family_recognition() {
    assert_eq!(host_family_of("windows"), Some(HostFamily::Windows));
    assert_eq!(host_family_of("linux"), Some(HostFamily::Linux));
    assert_eq!(host_family_of("macos"), Some(HostFamily::MacOs));
    assert_eq!(host_family_of("freebsd"), None);
    assert_eq!(host_family_of(""), None);
}

#[test]
fn resolver_is_deterministic() {
    let t1 = target_triple("x86_64", "windows", RuntimeEnv::Msvc);
    let t2 = target_triple("x86_64", "windows", RuntimeEnv::Msvc);
    assert_eq!(t1, t2);
    let s1 = executable_suffix(HostFamily::Windows);
    let s2 = executable_suffix(HostFamily::Windows);
    assert_eq!(s1, s2);
}
