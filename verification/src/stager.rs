//! Resource stager: incremental, modification-time-aware synchronization
//! of the bundled resource tree into the per-user staging root.
//!
//! The stager works on a snapshot of both sides: the source as a tree of
//! named entries with modification times, the destination as the set of
//! files it already holds.  From these it plans the sync: the mirrored
//! directories to create and, for each source file, a copy exactly when
//! the destination lacks the file or holds a strictly older timestamp.
//! The plan never contains a deletion, so files present only in the
//! destination survive every sync.  When source and destination resolve
//! to the same canonical location the plan is empty.  The shell takes the
//! snapshots, executes the plan and propagates the first filesystem
//! error; a partial copy is not rolled back, because re-running the sync
//! is idempotent.

use crate::paths::RelPath;
use vstd::prelude::*;
use vstd::seq_lib::group_filter_ensures;

verus! {

broadcast use group_filter_ensures;

/// One entry of the source snapshot: a file with its last-modified time,
/// or a directory with its children in traversal order.
pub enum SourceNode {
    File { name: String, mtime: u64 },
    Dir { name: String, entries: Vec<SourceNode> },
}

/// The source snapshot: the entries of the resource tree's root.
pub struct SourceTree {
    pub entries: Vec<SourceNode>,
}

/// One file the destination already holds, with its last-modified time.
pub struct DestFile {
    pub path: RelPath,
    pub mtime: u64,
}

/// The destination snapshot: the files under the staging root.
pub struct DestState {
    pub files: Vec<DestFile>,
}

/// One planned copy: the relative path of the file and the source
/// timestamp it carries.
pub struct CopyOp {
    pub path: RelPath,
    pub mtime: u64,
}

/// The planned sync: the directories to mirror, in traversal order with
/// every parent before its children, and the copies to perform.
pub struct SyncPlan {
    pub dirs: Vec<RelPath>,
    pub copies: Vec<CopyOp>,
}

/// The files a node contributes, as (path, mtime) pairs in depth-first,
/// directory-then-children order.
pub open spec fn node_files(n: SourceNode, prefix: Seq<Seq<char>>) -> Seq<(Seq<Seq<char>>, u64)>
    decreases n,
{
    match n {
        SourceNode::File { name, mtime } => seq![(prefix.push(name@), mtime)],
        SourceNode::Dir { name, entries } => nodes_files(entries@, prefix.push(name@)),
    }
}

/// The files a list of sibling nodes contributes, in order.
pub open spec fn nodes_files(ns: Seq<SourceNode>, prefix: Seq<Seq<char>>) -> Seq<
    (Seq<Seq<char>>, u64),
>
    decreases ns,
{
    if ns.len() == 0 {
        Seq::empty()
    } else {
        node_files(ns[0], prefix) + nodes_files(ns.drop_first(), prefix)
    }
}

/// The directories a node contributes, each before its descendants.
pub open spec fn node_dirs(n: SourceNode, prefix: Seq<Seq<char>>) -> Seq<Seq<Seq<char>>>
    decreases n,
{
    match n {
        SourceNode::File { .. } => Seq::empty(),
        SourceNode::Dir { name, entries } => seq![prefix.push(name@)] + nodes_dirs(
            entries@,
            prefix.push(name@),
        ),
    }
}

/// The directories a list of sibling nodes contributes, in order.
pub open spec fn nodes_dirs(ns: Seq<SourceNode>, prefix: Seq<Seq<char>>) -> Seq<Seq<Seq<char>>>
    decreases ns,
{
    if ns.len() == 0 {
        Seq::empty()
    } else {
        node_dirs(ns[0], prefix) + nodes_dirs(ns.drop_first(), prefix)
    }
}

/// All files of the source snapshot, relative to its root.
pub open spec fn src_files(t: SourceTree) -> Seq<(Seq<Seq<char>>, u64)> {
    nodes_files(t.entries@, Seq::empty())
}

/// All directories of the source snapshot, relative to its root.
pub open spec fn src_dirs(t: SourceTree) -> Seq<Seq<Seq<char>>> {
    nodes_dirs(t.entries@, Seq::empty())
}

/// The timestamp the destination snapshot holds for a path: the first
/// matching entry, or nothing.
pub open spec fn dest_lookup(files: Seq<DestFile>, p: Seq<Seq<char>>) -> Option<u64>
    decreases files.len(),
{
    if files.len() == 0 {
        None
    } else if files[0].path@ == p {
        Some(files[0].mtime)
    } else {
        dest_lookup(files.drop_first(), p)
    }
}

/// The destination snapshot as a map from path to timestamp.
pub open spec fn dest_model(files: Seq<DestFile>) -> Map<Seq<Seq<char>>, u64> {
    Map::new(
        |p: Seq<Seq<char>>| dest_lookup(files, p) is Some,
        |p: Seq<Seq<char>>| dest_lookup(files, p)->Some_0,
    )
}

/// The per-file sync decision: copy exactly when the destination lacks
/// the path or its timestamp is strictly older than the source's.
pub open spec fn needs_copy(dest: Map<Seq<Seq<char>>, u64>, p: Seq<Seq<char>>, mtime: u64) -> bool {
    !dest.contains_key(p) || dest[p] < mtime
}

/// The sync decision as a predicate on (path, mtime) pairs.
pub open spec fn copy_pred(dest: Map<Seq<Seq<char>>, u64>) -> spec_fn((Seq<Seq<char>>, u64)) -> bool {
    |e: (Seq<Seq<char>>, u64)| needs_copy(dest, e.0, e.1)
}

/// The copies a sync of the source snapshot against a destination
/// performs: the source files the decision selects, in traversal order.
pub open spec fn sync_copies(t: SourceTree, dest: Map<Seq<Seq<char>>, u64>) -> Seq<
    (Seq<Seq<char>>, u64),
> {
    src_files(t).filter(copy_pred(dest))
}

/// The abstract value of a list of planned copies.
pub open spec fn copies_view(cs: Seq<CopyOp>) -> Seq<(Seq<Seq<char>>, u64)> {
    cs.map_values(|c: CopyOp| (c.path@, c.mtime))
}

/// The abstract value of a list of planned directories.
pub open spec fn dirs_view(ds: Seq<RelPath>) -> Seq<Seq<Seq<char>>> {
    ds.map_values(|d: RelPath| d@)
}

/// Looks a path up in the destination snapshot.
fn lookup_dest(dest: &DestState, p: &RelPath) -> (r: Option<u64>)
    ensures
        r == dest_lookup(dest.files@, p@),
{
    let n = dest.files.len();
    let mut i: usize = 0;
    proof {
        assert(dest.files@.skip(0) =~= dest.files@);
    }
    while i < n
        invariant
            i <= n,
            n == dest.files.len(),
            dest_lookup(dest.files@, p@) == dest_lookup(dest.files@.skip(i as int), p@),
        decreases n - i,
    {
        proof {
            assert(dest.files@.skip(i as int)[0] == dest.files@[i as int]);
            assert(dest.files@.skip(i as int).drop_first() =~= dest.files@.skip(i as int + 1));
        }
        if dest.files[i].path.eq_path(p) {
            return Some(dest.files[i].mtime);
        }
        i = i + 1;
    }
    proof {
        assert(dest.files@.skip(n as int).len() == 0);
    }
    None
}

/// Plans one node: records the mirrored directory of a directory node,
/// recurses into its children, and applies the sync decision to a file.
fn plan_node(
    n: &SourceNode,
    prefix: &RelPath,
    dest: &DestState,
    dirs: &mut Vec<RelPath>,
    copies: &mut Vec<CopyOp>,
)
    ensures
        dirs_view(final(dirs)@) == dirs_view(old(dirs)@) + node_dirs(*n, prefix@),
        copies_view(final(copies)@) == copies_view(old(copies)@) + node_files(*n, prefix@).filter(
            copy_pred(dest_model(dest.files@)),
        ),
    decreases *n,
{
    match n {
        SourceNode::File { name, mtime } => {
            let path = prefix.child(name.as_str());
            let found = lookup_dest(dest, &path);
            let copy = match found {
                None => true,
                Some(have) => have < *mtime,
            };
            proof {
                let model = dest_model(dest.files@);
                assert(model.contains_key(path@) == (dest_lookup(dest.files@, path@) is Some));
                assert(copy == needs_copy(model, path@, *mtime));
                reveal_with_fuel(Seq::<_>::filter, 2);
            }
            if copy {
                let ghost before = copies@;
                copies.push(CopyOp { path, mtime: *mtime });
                proof {
                    assert(copies_view(copies@) =~= copies_view(before).push(
                        (prefix@.push(name@), *mtime),
                    ));
                    assert(copies_view(copies@) =~= copies_view(before) + node_files(
                        *n,
                        prefix@,
                    ).filter(copy_pred(dest_model(dest.files@))));
                    assert(dirs_view(dirs@) =~= dirs_view(dirs@) + node_dirs(*n, prefix@));
                }
            } else {
                proof {
                    assert(node_files(*n, prefix@).filter(copy_pred(dest_model(dest.files@)))
                        =~= Seq::<(Seq<Seq<char>>, u64)>::empty());
                    assert(copies_view(copies@) =~= copies_view(copies@) + node_files(
                        *n,
                        prefix@,
                    ).filter(copy_pred(dest_model(dest.files@))));
                    assert(dirs_view(dirs@) =~= dirs_view(dirs@) + node_dirs(*n, prefix@));
                }
            }
        },
        SourceNode::Dir { name, entries } => {
            let dir_path = prefix.child(name.as_str());
            let ghost dirs_before = dirs@;
            dirs.push(dir_path.duplicate());
            proof {
                assert(dirs_view(dirs@) =~= dirs_view(dirs_before).push(prefix@.push(name@)));
                assert(decreases_to!(*n => entries@));
            }
            plan_nodes(entries, &dir_path, dest, dirs, copies);
            proof {
                assert(dirs_view(dirs@) =~= dirs_view(dirs_before) + node_dirs(*n, prefix@));
            }
        },
    }
}

/// Plans a list of sibling nodes, in order.
fn plan_nodes(
    ns: &Vec<SourceNode>,
    prefix: &RelPath,
    dest: &DestState,
    dirs: &mut Vec<RelPath>,
    copies: &mut Vec<CopyOp>,
)
    ensures
        dirs_view(final(dirs)@) == dirs_view(old(dirs)@) + nodes_dirs(ns@, prefix@),
        copies_view(final(copies)@) == copies_view(old(copies)@) + nodes_files(ns@, prefix@).filter(
            copy_pred(dest_model(dest.files@)),
        ),
    decreases ns@,
{
    let ghost model = dest_model(dest.files@);
    let n = ns.len();
    let mut i: usize = 0;
    proof {
        assert(ns@.skip(0) =~= ns@);
    }
    while i < n
        invariant
            i <= n,
            n == ns.len(),
            model == dest_model(dest.files@),
            dirs_view(old(dirs)@) + nodes_dirs(ns@, prefix@) == dirs_view(dirs@) + nodes_dirs(
                ns@.skip(i as int),
                prefix@,
            ),
            copies_view(old(copies)@) + nodes_files(ns@, prefix@).filter(copy_pred(model))
                == copies_view(copies@) + nodes_files(ns@.skip(i as int), prefix@).filter(
                copy_pred(model),
            ),
        decreases n - i,
    {
        let ghost rest = ns@.skip(i as int);
        proof {
            assert(rest[0] == ns@[i as int]);
            assert(rest.drop_first() =~= ns@.skip(i as int + 1));
            assert(nodes_dirs(rest, prefix@) == node_dirs(ns@[i as int], prefix@) + nodes_dirs(
                ns@.skip(i as int + 1),
                prefix@,
            ));
            assert(nodes_files(rest, prefix@) == node_files(ns@[i as int], prefix@) + nodes_files(
                ns@.skip(i as int + 1),
                prefix@,
            ));
            assert(decreases_to!(ns@ => ns@[i as int]));
        }
        let ghost dirs_before = dirs@;
        let ghost copies_before = copies@;
        plan_node(&ns[i], prefix, dest, dirs, copies);
        proof {
            assert((dirs_view(dirs_before) + node_dirs(ns@[i as int], prefix@)) + nodes_dirs(
                ns@.skip(i as int + 1),
                prefix@,
            ) =~= dirs_view(dirs_before) + (node_dirs(ns@[i as int], prefix@) + nodes_dirs(
                ns@.skip(i as int + 1),
                prefix@,
            )));
            assert((copies_view(copies_before) + node_files(ns@[i as int], prefix@).filter(
                copy_pred(model),
            )) + nodes_files(ns@.skip(i as int + 1), prefix@).filter(copy_pred(model))
                =~= copies_view(copies_before) + (node_files(ns@[i as int], prefix@).filter(
                copy_pred(model),
            ) + nodes_files(ns@.skip(i as int + 1), prefix@).filter(copy_pred(model))));
        }
        i = i + 1;
    }
    proof {
        assert(ns@.skip(n as int).len() == 0);
        reveal_with_fuel(Seq::<_>::filter, 1);
        assert(nodes_files(ns@.skip(n as int), prefix@).filter(copy_pred(model)) =~= Seq::<
            (Seq<Seq<char>>, u64),
        >::empty());
        assert(dirs_view(dirs@) + nodes_dirs(ns@.skip(n as int), prefix@) =~= dirs_view(dirs@));
        assert(copies_view(copies@) + nodes_files(ns@.skip(n as int), prefix@).filter(
            copy_pred(model),
        ) =~= copies_view(copies@));
    }
}

/// Plans the sync of the source snapshot into the destination.
///
/// When source and destination canonicalize to the same location
/// (`same_location`), the plan is empty: the sync performs no operation
/// at all.  Otherwise the plan mirrors every source directory, parents
/// first, and copies exactly the source files the per-file decision
/// selects against this destination.
pub fn plan_sync(src: &SourceTree, dest: &DestState, same_location: bool) -> (plan: SyncPlan)
    ensures
        same_location ==> plan.dirs@.len() == 0 && plan.copies@.len() == 0,
        !same_location ==> dirs_view(plan.dirs@) == src_dirs(*src) && copies_view(plan.copies@)
            == sync_copies(*src, dest_model(dest.files@)),
{
    if same_location {
        return SyncPlan { dirs: Vec::new(), copies: Vec::new() };
    }
    let mut dirs: Vec<RelPath> = Vec::new();
    let mut copies: Vec<CopyOp> = Vec::new();
    let root = RelPath::empty();
    plan_nodes(&src.entries, &root, dest, &mut dirs, &mut copies);
    proof {
        assert(dirs_view(dirs@) =~= src_dirs(*src));
        assert(copies_view(copies@) =~= sync_copies(*src, dest_model(dest.files@)));
    }
    SyncPlan { dirs, copies }
}

/// The destination after the planned copies are performed, in order:
/// each copy inserts or overwrites the file at its path with the source
/// timestamp it carries.  Nothing is ever removed.
pub open spec fn apply_copies(
    dest: Map<Seq<Seq<char>>, u64>,
    ops: Seq<(Seq<Seq<char>>, u64)>,
) -> Map<Seq<Seq<char>>, u64>
    decreases ops.len(),
{
    if ops.len() == 0 {
        dest
    } else {
        apply_copies(dest.insert(ops[0].0, ops[0].1), ops.drop_first())
    }
}

/// The destination after a full sync of the source snapshot into it.
pub open spec fn after_sync(t: SourceTree, dest: Map<Seq<Seq<char>>, u64>) -> Map<
    Seq<Seq<char>>,
    u64,
> {
    apply_copies(dest, sync_copies(t, dest))
}

/// The paths of a list of (path, mtime) pairs.
pub open spec fn paths_of(es: Seq<(Seq<Seq<char>>, u64)>) -> Seq<Seq<Seq<char>>> {
    es.map_values(|e: (Seq<Seq<char>>, u64)| e.0)
}

/// Validity of a source snapshot: as in a real directory tree, no two
/// files share a path.
pub open spec fn src_paths_unique(t: SourceTree) -> bool {
    paths_of(src_files(t)).no_duplicates()
}

/// The name of a source entry.
pub open spec fn node_name(n: SourceNode) -> Seq<char> {
    match n {
        SourceNode::File { name, .. } => name@,
        SourceNode::Dir { name, .. } => name@,
    }
}

/// Well-formedness of one source entry: a directory's children are a
/// well-formed sibling list.
pub open spec fn wf_node(n: SourceNode) -> bool
    decreases n,
{
    match n {
        SourceNode::File { .. } => true,
        SourceNode::Dir { entries, .. } => wf_nodes(entries@),
    }
}

/// Well-formedness of a sibling list, as a real directory holds one: no
/// two siblings share a name, and every entry is well-formed in turn.
pub open spec fn wf_nodes(ns: Seq<SourceNode>) -> bool
    decreases ns,
{
    &&& forall|i: int, j: int|
        0 <= i < ns.len() && 0 <= j < ns.len() && i != j ==> node_name(ns[i]) != node_name(ns[j])
    &&& forall|i: int| 0 <= i < ns.len() ==> wf_node(#[trigger] ns[i])
}

/// Every file path a node contributes extends the prefix, and its first
/// new segment is the node's own name.
proof fn lemma_node_files_shape(n: SourceNode, prefix: Seq<Seq<char>>)
    ensures
        forall|k: int|
            0 <= k < node_files(n, prefix).len() ==> {
                let p = (#[trigger] node_files(n, prefix)[k]).0;
                p.len() > prefix.len() && p.subrange(0, prefix.len() as int) == prefix && p[
                    prefix.len() as int
                ] == node_name(n)
            },
    decreases n,
{
    match n {
        SourceNode::File { name, mtime } => {
            assert(node_files(n, prefix)[0].0.subrange(0, prefix.len() as int) =~= prefix);
        },
        SourceNode::Dir { name, entries } => {
            let inner = prefix.push(name@);
            lemma_nodes_files_shape(entries@, inner);
            assert(node_files(n, prefix) == nodes_files(entries@, inner));
            assert forall|k: int| 0 <= k < node_files(n, prefix).len() implies {
                let p = (#[trigger] node_files(n, prefix)[k]).0;
                p.len() > prefix.len() && p.subrange(0, prefix.len() as int) == prefix && p[
                    prefix.len() as int
                ] == node_name(n)
            } by {
                let e = nodes_files(entries@, inner)[k];
                assert(node_files(n, prefix)[k] == e);
                let p = e.0;
                assert(p.len() > inner.len());
                assert(p.subrange(0, inner.len() as int) == inner);
                assert(p.subrange(0, prefix.len() as int) =~= prefix) by {
                    assert forall|m: int| 0 <= m < prefix.len() implies p[m] == prefix[m] by {
                        assert(p.subrange(0, inner.len() as int)[m] == p[m]);
                        assert(inner[m] == prefix[m]);
                    }
                }
                assert(p[prefix.len() as int] == p.subrange(0, inner.len() as int)[prefix.len() as int]);
                assert(inner[prefix.len() as int] == name@);
            }
        },
    }
}

/// Every file path a sibling list contributes extends the prefix, and
/// its first new segment is the name of the sibling it came from.
proof fn lemma_nodes_files_shape(ns: Seq<SourceNode>, prefix: Seq<Seq<char>>)
    ensures
        forall|k: int|
            0 <= k < nodes_files(ns, prefix).len() ==> {
                let p = (#[trigger] nodes_files(ns, prefix)[k]).0;
                p.len() > prefix.len() && p.subrange(0, prefix.len() as int) == prefix && exists|
                    m: int,
                |
                    0 <= m < ns.len() && p[prefix.len() as int] == node_name(ns[m])
            },
    decreases ns,
{
    if ns.len() > 0 {
        let head = node_files(ns[0], prefix);
        let rest = nodes_files(ns.drop_first(), prefix);
        lemma_node_files_shape(ns[0], prefix);
        lemma_nodes_files_shape(ns.drop_first(), prefix);
        assert forall|k: int| 0 <= k < nodes_files(ns, prefix).len() implies {
            let p = (#[trigger] nodes_files(ns, prefix)[k]).0;
            p.len() > prefix.len() && p.subrange(0, prefix.len() as int) == prefix && exists|m: int|
                0 <= m < ns.len() && p[prefix.len() as int] == node_name(ns[m])
        } by {
            let p = nodes_files(ns, prefix)[k].0;
            if k < head.len() {
                assert(nodes_files(ns, prefix)[k] == head[k]);
                assert(p[prefix.len() as int] == node_name(ns[0]));
            } else {
                assert(nodes_files(ns, prefix)[k] == rest[k - head.len()]);
                let m0 = choose|m0: int|
                    0 <= m0 < ns.drop_first().len() && p[prefix.len() as int] == node_name(
                        ns.drop_first()[m0],
                    );
                assert(ns.drop_first()[m0] == ns[m0 + 1]);
                assert(p[prefix.len() as int] == node_name(ns[m0 + 1]));
            }
        }
    }
}

/// A well-formed node contributes files with pairwise distinct paths.
proof fn lemma_node_paths_unique(n: SourceNode, prefix: Seq<Seq<char>>)
    requires
        wf_node(n),
    ensures
        paths_of(node_files(n, prefix)).no_duplicates(),
    decreases n,
{
    match n {
        SourceNode::File { .. } => {},
        SourceNode::Dir { name, entries } => {
            lemma_nodes_paths_unique(entries@, prefix.push(name@));
        },
    }
}

/// A well-formed sibling list contributes files with pairwise distinct
/// paths: within one sibling by recursion, across siblings because the
/// first segment past the prefix is the sibling's own name.
proof fn lemma_nodes_paths_unique(ns: Seq<SourceNode>, prefix: Seq<Seq<char>>)
    requires
        wf_nodes(ns),
    ensures
        paths_of(nodes_files(ns, prefix)).no_duplicates(),
    decreases ns,
{
    if ns.len() > 0 {
        let head = node_files(ns[0], prefix);
        let rest = nodes_files(ns.drop_first(), prefix);
        let whole = nodes_files(ns, prefix);
        lemma_node_paths_unique(ns[0], prefix);
        assert(wf_nodes(ns.drop_first())) by {
            assert forall|i: int| 0 <= i < ns.drop_first().len() implies wf_node(
                #[trigger] ns.drop_first()[i],
            ) by {
                assert(ns.drop_first()[i] == ns[i + 1]);
            }
        }
        lemma_nodes_paths_unique(ns.drop_first(), prefix);
        lemma_node_files_shape(ns[0], prefix);
        lemma_nodes_files_shape(ns.drop_first(), prefix);
        assert forall|i: int, j: int|
            0 <= i < whole.len() && 0 <= j < whole.len() && i != j implies paths_of(whole)[i]
            != paths_of(whole)[j] by {
            assert(paths_of(whole)[i] == whole[i].0 && paths_of(whole)[j] == whole[j].0);
            if i < head.len() && j < head.len() {
                assert(whole[i] == head[i] && whole[j] == head[j]);
                assert(paths_of(head)[i] != paths_of(head)[j]);
            } else if i >= head.len() && j >= head.len() {
                assert(whole[i] == rest[i - head.len()] && whole[j] == rest[j - head.len()]);
                assert(paths_of(rest)[i - head.len()] != paths_of(rest)[j - head.len()]);
            } else {
                let (a, b) = if i < head.len() {
                    (i, j)
                } else {
                    (j, i)
                };
                assert(whole[a] == head[a] && whole[b] == rest[b - head.len()]);
                let pa = whole[a].0;
                let pb = whole[b].0;
                assert(pa[prefix.len() as int] == node_name(ns[0]));
                let m0 = choose|m0: int|
                    0 <= m0 < ns.drop_first().len() && pb[prefix.len() as int] == node_name(
                        ns.drop_first()[m0],
                    );
                assert(ns.drop_first()[m0] == ns[m0 + 1]);
                assert(node_name(ns[0]) != node_name(ns[m0 + 1]));
                assert(pa != pb);
            }
        }
    }
}

/// A snapshot of a real directory tree — sibling names distinct at every
/// level — has pairwise distinct file paths, which is what the sync laws
/// assume of the source.
pub proof fn lemma_wf_tree_paths_unique(t: SourceTree)
    requires
        wf_nodes(t.entries@),
    ensures
        src_paths_unique(t),
{
    lemma_nodes_paths_unique(t.entries@, Seq::empty());
}

/// Applying copies never removes a key, and leaves every path that no
/// copy targets exactly as it was.
proof fn lemma_apply_untouched(
    dest: Map<Seq<Seq<char>>, u64>,
    ops: Seq<(Seq<Seq<char>>, u64)>,
    p: Seq<Seq<char>>,
)
    requires
        !paths_of(ops).contains(p),
    ensures
        apply_copies(dest, ops).contains_key(p) == dest.contains_key(p),
        dest.contains_key(p) ==> apply_copies(dest, ops)[p] == dest[p],
    decreases ops.len(),
{
    if ops.len() > 0 {
        assert(paths_of(ops)[0] == ops[0].0);
        assert(ops[0].0 != p);
        let rest = ops.drop_first();
        assert forall|j: int| 0 <= j < rest.len() implies paths_of(rest)[j] != p by {
            assert(paths_of(rest)[j] == paths_of(ops)[j + 1]);
        }
        assert(!paths_of(rest).contains(p));
        lemma_apply_untouched(dest.insert(ops[0].0, ops[0].1), rest, p);
    }
}

/// Applying copies preserves every key the destination already has.
proof fn lemma_apply_keeps_keys(
    dest: Map<Seq<Seq<char>>, u64>,
    ops: Seq<(Seq<Seq<char>>, u64)>,
    p: Seq<Seq<char>>,
)
    requires
        dest.contains_key(p),
    ensures
        apply_copies(dest, ops).contains_key(p),
    decreases ops.len(),
{
    if ops.len() > 0 {
        lemma_apply_keeps_keys(dest.insert(ops[0].0, ops[0].1), ops.drop_first(), p);
    }
}

/// If every copy that targets a path carries the same timestamp, and at
/// least one does target it, the applied destination holds exactly that
/// timestamp there.
proof fn lemma_apply_targeted(
    dest: Map<Seq<Seq<char>>, u64>,
    ops: Seq<(Seq<Seq<char>>, u64)>,
    p: Seq<Seq<char>>,
    t: u64,
)
    requires
        paths_of(ops).contains(p),
        forall|j: int| 0 <= j < ops.len() && ops[j].0 == p ==> ops[j].1 == t,
    ensures
        apply_copies(dest, ops).contains_key(p),
        apply_copies(dest, ops)[p] == t,
    decreases ops.len(),
{
    let rest = ops.drop_first();
    let j = choose|j: int| 0 <= j < paths_of(ops).len() && paths_of(ops)[j] == p;
    assert(ops[j].0 == p);
    if paths_of(rest).contains(p) {
        assert forall|k: int| 0 <= k < rest.len() && rest[k].0 == p implies rest[k].1 == t by {
            assert(rest[k] == ops[k + 1]);
        }
        lemma_apply_targeted(dest.insert(ops[0].0, ops[0].1), rest, p, t);
    } else {
        assert forall|k: int| 0 < k < ops.len() implies ops[k].0 != p by {
            assert(paths_of(rest)[k - 1] == ops[k].0);
        }
        assert(j == 0);
        assert(ops[0].1 == t);
        lemma_apply_untouched(dest.insert(p, t), rest, p);
    }
}

/// A filter over a sequence none of whose elements satisfies the
/// predicate is empty.
proof fn lemma_filter_none<A>(s: Seq<A>, pred: spec_fn(A) -> bool)
    requires
        forall|i: int| 0 <= i < s.len() ==> !pred(s[i]),
    ensures
        s.filter(pred) == Seq::<A>::empty(),
    decreases s.len(),
{
    reveal_with_fuel(Seq::filter, 1);
    if s.len() > 0 {
        lemma_filter_none(s.drop_last(), pred);
    }
}

/// A filter over a sequence whose predicate holds at exactly one index
/// keeps exactly that element.
proof fn lemma_filter_single<A>(s: Seq<A>, pred: spec_fn(A) -> bool, i: int)
    requires
        0 <= i < s.len(),
        pred(s[i]),
        forall|j: int| 0 <= j < s.len() && j != i ==> !pred(s[j]),
    ensures
        s.filter(pred) == seq![s[i]],
    decreases s.len(),
{
    reveal_with_fuel(Seq::filter, 1);
    if i == s.len() - 1 {
        lemma_filter_none(s.drop_last(), pred);
        assert(s.filter(pred) =~= seq![s[i]]);
    } else {
        lemma_filter_single(s.drop_last(), pred, i);
    }
}

/// Every element the sync selected came from the source files and
/// satisfies the sync decision.
proof fn lemma_copy_origin(t: SourceTree, dest: Map<Seq<Seq<char>>, u64>, k: int)
    requires
        src_paths_unique(t),
        0 <= k < sync_copies(t, dest).len(),
    ensures
        src_files(t).contains(sync_copies(t, dest)[k]),
        needs_copy(dest, sync_copies(t, dest)[k].0, sync_copies(t, dest)[k].1),
{
    let s = src_files(t);
    let copies = sync_copies(t, dest);
    assert(copies.contains(copies[k]));
    s.lemma_filter_contains_rev(copy_pred(dest), copies[k]);
    assert(copy_pred(dest)(copies[k]));
}

/// What one sync leaves at the path of each source file: the source
/// timestamp where the decision copied, the untouched destination
/// timestamp where it skipped.
proof fn lemma_after_sync_at(t: SourceTree, dest: Map<Seq<Seq<char>>, u64>, i: int)
    requires
        src_paths_unique(t),
        0 <= i < src_files(t).len(),
    ensures
        after_sync(t, dest).contains_key(src_files(t)[i].0),
        needs_copy(dest, src_files(t)[i].0, src_files(t)[i].1) ==> after_sync(t, dest)[src_files(
            t,
        )[i].0] == src_files(t)[i].1,
        !needs_copy(dest, src_files(t)[i].0, src_files(t)[i].1) ==> dest.contains_key(
            src_files(t)[i].0,
        ) && after_sync(t, dest)[src_files(t)[i].0] == dest[src_files(t)[i].0],
{
    let s = src_files(t);
    let copies = sync_copies(t, dest);
    let p = s[i].0;
    let tm = s[i].1;
    assert forall|k: int| 0 <= k < copies.len() && copies[k].0 == p implies copies[k].1 == tm by {
        lemma_copy_origin(t, dest, k);
        let m = choose|m: int| 0 <= m < s.len() && s[m] == copies[k];
        assert(paths_of(s)[m] == p && paths_of(s)[i] == p);
    }
    if needs_copy(dest, p, tm) {
        assert(copies.contains(s[i])) by {
            assert(copy_pred(dest)(s[i]));
            s.lemma_filter_contains(copy_pred(dest), i);
        }
        let k = choose|k: int| 0 <= k < copies.len() && copies[k] == s[i];
        assert(paths_of(copies)[k] == p);
        lemma_apply_targeted(dest, copies, p, tm);
    } else {
        assert forall|k: int| 0 <= k < paths_of(copies).len() implies paths_of(copies)[k] != p by {
            lemma_copy_origin(t, dest, k);
            let m = choose|m: int| 0 <= m < s.len() && s[m] == copies[k];
            assert(paths_of(s)[m] == copies[k].0 && paths_of(s)[i] == p);
            if copies[k].0 == p {
                assert(m == i);
                assert(copy_pred(dest)(copies[k]));
            }
        }
        assert(!paths_of(copies).contains(p));
        lemma_apply_untouched(dest, copies, p);
    }
}

/// Idempotent sync: once a sync of an unchanged source snapshot has been
/// applied, a second sync against the result selects no copy at all.
pub proof fn lemma_sync_idempotent(t: SourceTree, dest: Map<Seq<Seq<char>>, u64>)
    requires
        src_paths_unique(t),
    ensures
        sync_copies(t, after_sync(t, dest)) == Seq::<(Seq<Seq<char>>, u64)>::empty(),
{
    let s = src_files(t);
    let d2 = after_sync(t, dest);
    assert forall|i: int| 0 <= i < s.len() implies !copy_pred(d2)(s[i]) by {
        lemma_after_sync_at(t, dest, i);
    }
    lemma_filter_none(s, copy_pred(d2));
}

/// Freshness propagation: if, after a sync, exactly one source file is
/// modified with a timestamp newer than its old one and newer than
/// whatever the destination held at its path, the next sync copies
/// exactly that file and leaves all others untouched.
pub proof fn lemma_freshness_propagation(
    t: SourceTree,
    t2: SourceTree,
    dest: Map<Seq<Seq<char>>, u64>,
    i: int,
    new_time: u64,
)
    requires
        src_paths_unique(t),
        0 <= i < src_files(t).len(),
        src_files(t2) == src_files(t).update(i, (src_files(t)[i].0, new_time)),
        new_time > src_files(t)[i].1,
        dest.contains_key(src_files(t)[i].0) ==> dest[src_files(t)[i].0] < new_time,
    ensures
        sync_copies(t2, after_sync(t, dest)) == seq![(src_files(t)[i].0, new_time)],
{
    let s = src_files(t);
    let s2 = src_files(t2);
    let d2 = after_sync(t, dest);
    let p = s[i].0;
    assert forall|j: int| 0 <= j < s2.len() && j != i implies !copy_pred(d2)(s2[j]) by {
        assert(s2[j] == s[j]);
        lemma_after_sync_at(t, dest, j);
    }
    assert(copy_pred(d2)(s2[i])) by {
        lemma_after_sync_at(t, dest, i);
    }
    lemma_filter_single(s2, copy_pred(d2), i);
    assert(s2[i] == (p, new_time));
}

/// No destructive sync: applying any list of copies keeps every file the
/// destination already had; a file no copy targets keeps its timestamp
/// exactly.  A sync plan holds no deletion, so this covers every sync
/// invocation.
pub proof fn lemma_sync_not_destructive(
    dest: Map<Seq<Seq<char>>, u64>,
    ops: Seq<(Seq<Seq<char>>, u64)>,
    p: Seq<Seq<char>>,
)
    requires
        dest.contains_key(p),
    ensures
        apply_copies(dest, ops).contains_key(p),
        !paths_of(ops).contains(p) ==> apply_copies(dest, ops)[p] == dest[p],
{
    lemma_apply_keeps_keys(dest, ops, p);
    if !paths_of(ops).contains(p) {
        lemma_apply_untouched(dest, ops, p);
    }
}

} // verus!
