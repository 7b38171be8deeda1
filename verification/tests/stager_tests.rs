use backend_supervisor::paths::RelPath;
use backend_supervisor::stager::plan_sync;
use backend_supervisor::stager::DestFile;
use backend_supervisor::stager::DestState;
use backend_supervisor::stager::SourceNode;
use backend_supervisor::stager::SourceTree;

fn rel(segments: &[&str]) -> RelPath {
    RelPath { segments: segments.iter().map(|s| s.to_string()).collect() }
}

fn file(name: &str, mtime: u64) -> SourceNode {
    SourceNode::File { name: name.to_string(), mtime }
}

fn dir(name: &str, entries: Vec<SourceNode>) -> SourceNode {
    SourceNode::Dir { name: name.to_string(), entries }
}

fn dest(files: Vec<(&[&str], u64)>) -> DestState {
    DestState {
        files: files.into_iter().map(|(p, mtime)| DestFile { path: rel(p), mtime }).collect(),
    }
}

fn copy_list(plan: &backend_supervisor::stager::SyncPlan) -> Vec<(Vec<String>, u64)> {
    plan.copies.iter().map(|c| (c.path.segments.clone(), c.mtime)).collect()
}

fn dir_list(plan: &backend_supervisor::stager::SyncPlan) -> Vec<Vec<String>> {
    plan.dirs.iter().map(|d| d.segments.clone()).collect()
}

fn segs(parts: &[&str]) -> Vec<String> {
    parts.iter().map(|s| s.to_string()).collect()
}

/// The end-to-end scenario: a two-file tree into an empty destination,
/// then an unchanged re-run, then one modified file.
#[test]
fn end_to_end_scenario() {
    let src = SourceTree {
        entries: vec![file("a.txt", 1), dir("sub", vec![file("b.txt", 1)])],
    };
    let empty = dest(vec![]);

    let first = plan_sync(&src, &empty, false);
    assert_eq!(
        copy_list(&first),
        vec![(segs(&["a.txt"]), 1), (segs(&["sub", "b.txt"]), 1)]
    );
    assert_eq!(dir_list(&first), vec![segs(&["sub"])]);

    let staged = dest(vec![(&["a.txt"], 1), (&["sub", "b.txt"], 1)]);
    let second = plan_sync(&src, &staged, false);
    assert_eq!(second.copies.len(), 0);

    let updated = SourceTree {
        entries: vec![file("a.txt", 2), dir("sub", vec![file("b.txt", 1)])],
    };
    let third = plan_sync(&updated, &staged, false);
    assert_eq!(copy_list(&third), vec![(segs(&["a.txt"]), 2)]);
}

/// Same canonical location: the sync plans zero operations.
#[test]
fn same_location_short_circuit() {
    let src = SourceTree {
        entries: vec![file("a.txt", 7), dir("sub", vec![file("b.txt", 9)])],
    };
    let empty = dest(vec![]);
    let plan = plan_sync(&src, &empty, true);
    assert_eq!(plan.copies.len(), 0);
    assert_eq!(plan.dirs.len(), 0);
}

/// A file only the destination holds is not targeted by any operation.
#[test]
fn destination_only_file_untouched() {
    let src = SourceTree { entries: vec![file("a.txt", 3)] };
    let d = dest(vec![(&["stray.txt"], 5)]);
    let plan = plan_sync(&src, &d, false);
    assert_eq!(copy_list(&plan), vec![(segs(&["a.txt"]), 3)]);
    for (path, _) in copy_list(&plan) {
        assert_ne!(path, segs(&["stray.txt"]));
    }
    for path in dir_list(&plan) {
        assert_ne!(path, segs(&["stray.txt"]));
    }
}

/// An equal timestamp is fresh enough: only a strictly older one is
/// overwritten.
#[test]
fn equal_timestamp_skips() {
    let src = SourceTree { entries: vec![file("a.txt", 4)] };
    let d = dest(vec![(&["a.txt"], 4)]);
    let plan = plan_sync(&src, &d, false);
    assert_eq!(plan.copies.len(), 0);
}

#[test]
fn newer_destination_skips() {
    let src = SourceTree { entries: vec![file("a.txt", 4)] };
    let d = dest(vec![(&["a.txt"], 9)]);
    let plan = plan_sync(&src, &d, false);
    assert_eq!(plan.copies.len(), 0);
}

#[test]
fn older_destination_copies() {
    let src = SourceTree { entries: vec![file("a.txt", 4)] };
    let d = dest(vec![(&["a.txt"], 3)]);
    let plan = plan_sync(&src, &d, false);
    assert_eq!(copy_list(&plan), vec![(segs(&["a.txt"]), 4)]);
}

#[test]
fn empty_source_plans_nothing() {
    let src = SourceTree { entries: vec![] };
    let d = dest(vec![(&["kept.txt"], 1)]);
    let plan = plan_sync(&src, &d, false);
    assert_eq!(plan.copies.len(), 0);
    assert_eq!(plan.dirs.len(), 0);
}

/// Directories are mirrored depth-first, every parent before its
/// children, and files inside them are decided one by one.
#[test]
fn nested_directories_in_order() {
    let src = SourceTree {
        entries: vec![dir(
            "outer",
            vec![file("x.txt", 2), dir("inner", vec![file("y.txt", 2)])],
        )],
    };
    let d = dest(vec![(&["outer", "x.txt"], 2)]);
    let plan = plan_sync(&src, &d, false);
    assert_eq!(dir_list(&plan), vec![segs(&["outer"]), segs(&["outer", "inner"])]);
    assert_eq!(copy_list(&plan), vec![(segs(&["outer", "inner", "y.txt"]), 2)]);
}
