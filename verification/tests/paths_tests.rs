use backend_supervisor::paths::RelPath;

fn rel(segments: &[&str]) -> RelPath {
    RelPath { segments: segments.iter().map(|s| s.to_string()).collect() }
}

#[test]
fn empty_path_has_no_segments() {
    assert_eq!(RelPath::empty().segments.len(), 0);
}

#[test]
fn child_appends_one_segment() {
    let p = RelPath::empty().child("sub").child("b.txt");
    assert_eq!(p.segments, vec!["sub".to_string(), "b.txt".to_string()]);
}

#[test]
fn duplicate_is_equal() {
    let p = rel(&["a", "b"]);
    let q = p.duplicate();
    assert!(p.eq_path(&q));
    assert_eq!(q.segments, p.segments);
}

#[test]
fn eq_path_distinguishes() {
    assert!(rel(&["a", "b"]).eq_path(&rel(&["a", "b"])));
    assert!(!rel(&["a", "b"]).eq_path(&rel(&["a", "c"])));
    assert!(!rel(&["a"]).eq_path(&rel(&["a", "b"])));
    assert!(rel(&[]).eq_path(&rel(&[])));
}
