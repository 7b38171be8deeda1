use backend_supervisor::data_path::DataEnv;
use backend_supervisor::data_path::ResolutionFailure;
use backend_supervisor::paths::RelPath;
use backend_supervisor::supervisor::backend_executable_path;
use backend_supervisor::supervisor::isolation_for;
use backend_supervisor::supervisor::launch_plan;
use backend_supervisor::supervisor::plan_startup;
use backend_supervisor::supervisor::staging_segment;
use backend_supervisor::supervisor::SpawnIsolation;
use backend_supervisor::supervisor::CREATE_NO_WINDOW;
use backend_supervisor::target::HostFamily;
use backend_supervisor::target::RuntimeEnv;

fn rel(segments: &[&str]) -> RelPath {
    RelPath { segments: segments.iter().map(|s| s.to_string()).collect() }
}

fn segs(parts: &[&str]) -> Vec<String> {
    parts.iter().map(|s| s.to_string()).collect()
}

#[test]
fn executable_path_under_staged_tree() {
    let root = rel(&["/home/u", ".local", "share", "IMWEBs-Viewer", "_up_"]);
    let p = backend_executable_path(&root, "apppy", "apppy-x86_64-pc-linux-gnu");
    assert_eq!(
        p.segments,
        segs(&[
            "/home/u",
            ".local",
            "share",
            "IMWEBs-Viewer",
            "_up_",
            "backend",
            "apppy",
            "apppy-x86_64-pc-linux-gnu",
        ])
    );
}

#[test]
fn staging_segment_name() {
    assert_eq!(staging_segment(), "_up_");
}

#[test]
fn isolation_per_family() {
    assert_eq!(isolation_for(HostFamily::Windows), SpawnIsolation::SuppressConsoleWindow);
    assert_eq!(isolation_for(HostFamily::Linux), SpawnIsolation::NullStdStreams);
    assert_eq!(isolation_for(HostFamily::MacOs), SpawnIsolation::NullStdStreams);
}

#[test]
fn no_window_flag_value() {
    assert_eq!(CREATE_NO_WINDOW, 0x0800_0000);
}

#[test]
fn launch_plan_combines_path_and_isolation() {
    let root = rel(&["C:\\Users\\u\\AppData\\Local", "IMWEBs-Viewer", "_up_"]);
    let plan = launch_plan(&root, "apppy", "apppy-x86_64-pc-windows-msvc.exe", HostFamily::Windows);
    assert_eq!(
        plan.executable.segments,
        segs(&[
            "C:\\Users\\u\\AppData\\Local",
            "IMWEBs-Viewer",
            "_up_",
            "backend",
            "apppy",
            "apppy-x86_64-pc-windows-msvc.exe",
        ])
    );
    assert_eq!(plan.isolation, SpawnIsolation::SuppressConsoleWindow);
}

#[test]
fn startup_plan_linux_home_fallback() {
    let env = DataEnv {
        local_app_data: None,
        xdg_data_home: None,
        home: Some("/home/u".to_string()),
    };
    let plan = plan_startup("linux", "x86_64", RuntimeEnv::Gnu, &env, "IMWEBs-Viewer", "apppy")
        .unwrap();
    assert_eq!(
        plan.executable.segments,
        segs(&[
            "/home/u",
            ".local",
            "share",
            "IMWEBs-Viewer",
            "_up_",
            "backend",
            "apppy",
            "apppy-x86_64-pc-linux-gnu",
        ])
    );
    assert_eq!(plan.isolation, SpawnIsolation::NullStdStreams);
}

#[test]
fn startup_plan_windows() {
    let env = DataEnv {
        local_app_data: Some("C:\\Users\\u\\AppData\\Local".to_string()),
        xdg_data_home: None,
        home: None,
    };
    let plan = plan_startup("windows", "x86_64", RuntimeEnv::Msvc, &env, "IMWEBs-Viewer", "apppy")
        .unwrap();
    assert_eq!(
        plan.executable.segments,
        segs(&[
            "C:\\Users\\u\\AppData\\Local",
            "IMWEBs-Viewer",
            "_up_",
            "backend",
            "apppy",
            "apppy-x86_64-pc-windows-msvc.exe",
        ])
    );
    assert_eq!(plan.isolation, SpawnIsolation::SuppressConsoleWindow);
}

#[test]
fn startup_plan_fails_like_the_resolver() {
    let env = DataEnv { local_app_data: None, xdg_data_home: None, home: None };
    let r = plan_startup("freebsd", "x86_64", RuntimeEnv::Other, &env, "IMWEBs-Viewer", "apppy");
    assert!(matches!(r, Err(ResolutionFailure::UnrecognizedHostFamily)));
    let r = plan_startup("macos", "aarch64", RuntimeEnv::Other, &env, "IMWEBs-Viewer", "apppy");
    assert!(matches!(r, Err(ResolutionFailure::MissingDataRootVariable)));
}
