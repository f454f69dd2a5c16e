//! The pre-order walk that discovers artifact directories.
//!
//! The scanner visits the nodes of a snapshot in pre-order. At every
//! directory it consults the classifier: a recognized project root
//! contributes its artifact directory's path to the result and is pruned —
//! the walk does not descend into any part of its subtree. An unrecognized
//! directory is descended into normally; files and symbolic links have no
//! children in a well-formed snapshot, so the walk never follows them.
//!
//! A path is a sequence of entry names, beginning with the name of the
//! scanned root itself.

use vstd::prelude::*;

use crate::classifier::{artifact_dir_name, classify, spec_classify};
use crate::fs_model::FsTree;

verus! {

/// The artifact-directory paths discovered under the nodes of `nodes`,
/// visited in order, where `parent` is the path of the directory that holds
/// those nodes.
pub open spec fn spec_scan_nodes(nodes: Seq<FsTree>, parent: Seq<Seq<char>>) -> Seq<
    Seq<Seq<char>>,
>
    decreases nodes,
{
    if nodes.len() == 0 {
        Seq::empty()
    } else {
        let t = nodes[0];
        let own = match spec_classify(t) {
            Some(m) => seq![parent.push(t.name@).push(artifact_dir_name(m))],
            None => spec_scan_nodes(t.children@, parent.push(t.name@)),
        };
        own + spec_scan_nodes(nodes.drop_first(), parent)
    }
}

/// The artifact-directory paths discovered by scanning the tree rooted at
/// `root`, where `parent` is the path of the directory that holds `root`.
pub open spec fn spec_scan(root: FsTree, parent: Seq<Seq<char>>) -> Seq<Seq<Seq<char>>> {
    spec_scan_nodes(seq![root], parent)
}

/// Law: scanning a concatenation of sibling lists scans each list in turn —
/// no sibling is missed and none is visited twice.
pub proof fn lemma_scan_nodes_concat(s1: Seq<FsTree>, s2: Seq<FsTree>, parent: Seq<Seq<char>>)
    ensures
        spec_scan_nodes(s1 + s2, parent) == spec_scan_nodes(s1, parent) + spec_scan_nodes(
            s2,
            parent,
        ),
    decreases s1.len(),
{
    if s1.len() == 0 {
        assert(s1 + s2 =~= s2);
        assert(spec_scan_nodes(s1, parent) + spec_scan_nodes(s2, parent) =~= spec_scan_nodes(
            s2,
            parent,
        ));
    } else {
        assert((s1 + s2)[0] == s1[0]);
        assert((s1 + s2).drop_first() =~= s1.drop_first() + s2);
        lemma_scan_nodes_concat(s1.drop_first(), s2, parent);
        assert(spec_scan_nodes(s1 + s2, parent) =~= spec_scan_nodes(s1, parent)
            + spec_scan_nodes(s2, parent));
    }
}

/// Whether the path `q` lies strictly beneath the directory with path `p`.
pub open spec fn beneath(q: Seq<Seq<char>>, p: Seq<Seq<char>>) -> bool {
    p.len() < q.len() && p.is_prefix_of(q)
}

/// Whether a scan result respects pruning: every reported path is the
/// artifact directory of the project root just above it, and no reported
/// path lies strictly beneath the project root of another reported path.
pub open spec fn prune_ok(r: Seq<Seq<Seq<char>>>) -> bool {
    forall|i: int, j: int|
        0 <= i < r.len() && 0 <= j < r.len() && i != j ==> !beneath(
            #[trigger] r[j],
            (#[trigger] r[i]).drop_last(),
        )
}

/// Whether every path of the scan result `r` of the sibling nodes `nodes`,
/// held by the directory with path `parent`, leads through one of those
/// nodes: it extends `parent` by at least two components, the first of which
/// is the name of one of the nodes.
pub open spec fn scan_shape_ok(
    r: Seq<Seq<Seq<char>>>,
    nodes: Seq<FsTree>,
    parent: Seq<Seq<char>>,
) -> bool {
    forall|x: int|
        0 <= x < r.len() ==> {
            &&& parent.is_prefix_of(#[trigger] r[x])
            &&& r[x].len() >= parent.len() + 2
            &&& exists|k: int|
                0 <= k < nodes.len() && r[x][parent.len() as int] == (#[trigger] nodes[k]).name@
        }
}

/// A prefix extended by one element pins the next component of anything it
/// prefixes.
proof fn lemma_prefix_push<A>(p: Seq<A>, x: A, q: Seq<A>)
    requires
        p.push(x).is_prefix_of(q),
    ensures
        p.is_prefix_of(q),
        q[p.len() as int] == x,
        q.len() > p.len(),
{
    assert(p.push(x) == q.subrange(0, p.len() as int + 1));
    assert(q.subrange(0, p.len() as int + 1)[p.len() as int] == q[p.len() as int]);
    assert(p =~= q.subrange(0, p.len() as int));
}

/// A prefix agrees with the longer sequence on every index it covers.
proof fn lemma_prefix_index<A>(p: Seq<A>, q: Seq<A>, n: int)
    requires
        p.is_prefix_of(q),
        0 <= n < p.len(),
    ensures
        q[n] == p[n],
{
    assert(p[n] == q.subrange(0, p.len() as int)[n]);
}

/// Scanning well-formed sibling nodes with distinct names yields a result
/// that respects pruning and whose every path leads through one of the
/// nodes.
proof fn lemma_scan_nodes_pruned(nodes: Seq<FsTree>, parent: Seq<Seq<char>>)
    requires
        forall|k: int| 0 <= k < nodes.len() ==> (#[trigger] nodes[k]).wf(),
        forall|k1: int, k2: int|
            0 <= k1 < k2 < nodes.len() ==> nodes[k1].name@ != nodes[k2].name@,
    ensures
        prune_ok(spec_scan_nodes(nodes, parent)),
        scan_shape_ok(spec_scan_nodes(nodes, parent), nodes, parent),
    decreases nodes,
{
    let r = spec_scan_nodes(nodes, parent);
    if nodes.len() == 0 {
        assert(r =~= Seq::<Seq<Seq<char>>>::empty());
    } else {
        let t = nodes[0];
        let p1 = parent.push(t.name@);
        let rest_nodes = nodes.drop_first();
        assert(forall|k: int|
            0 <= k < rest_nodes.len() ==> #[trigger] rest_nodes[k] == nodes[k + 1]);
        lemma_scan_nodes_pruned(rest_nodes, parent);
        let rest = spec_scan_nodes(rest_nodes, parent);
        let own = match spec_classify(t) {
            Some(m) => seq![p1.push(artifact_dir_name(m))],
            None => spec_scan_nodes(t.children@, p1),
        };
        assert(r == own + rest);
        assert(t.wf());
        if spec_classify(t) is None {
            t.lemma_wf_children();
            lemma_scan_nodes_pruned(t.children@, p1);
        }
        assert forall|x: int| 0 <= x < own.len() implies {
            &&& p1.is_prefix_of(#[trigger] own[x])
            &&& own[x].len() >= parent.len() + 2
            &&& own[x][parent.len() as int] == t.name@
        } by {
            match spec_classify(t) {
                Some(m) => {
                    let q0 = p1.push(artifact_dir_name(m));
                    assert(own[x] == q0);
                    assert(p1.is_prefix_of(q0)) by {
                        assert(p1 =~= q0.subrange(0, p1.len() as int));
                    }
                    assert(q0[parent.len() as int] == p1[parent.len() as int]);
                },
                None => {
                    assert(p1.is_prefix_of(own[x]));
                    lemma_prefix_index(p1, own[x], parent.len() as int);
                },
            }
        }
        // Every path of `own` has the head node's name right after `parent`;
        // every path of `rest` has the name of a later sibling there.
        assert forall|x: int| 0 <= x < rest.len() implies {
            &&& parent.is_prefix_of(#[trigger] rest[x])
            &&& rest[x].len() >= parent.len() + 2
            &&& rest[x][parent.len() as int] != t.name@
        } by {
            assert(parent.is_prefix_of(rest[x]) && rest[x].len() >= parent.len() + 2);
            let k = choose|k: int|
                0 <= k < rest_nodes.len() && rest[x][parent.len() as int] == (#[trigger] rest_nodes[k]).name@;
            assert(rest_nodes[k] == nodes[k + 1]);
            assert(nodes[0].name@ != nodes[k + 1].name@);
        }
        assert forall|i: int, j: int|
            0 <= i < r.len() && 0 <= j < r.len() && i != j implies !beneath(
            r[j],
            r[i].drop_last(),
        ) by {
            let qi = r[i];
            let qj = r[j];
            if i < own.len() && j < own.len() {
                assert(own[i] == r[i] && own[j] == r[j]);
                assert(!beneath(own[j], own[i].drop_last()));
            } else if i >= own.len() && j >= own.len() {
                assert(rest[i - own.len()] == r[i] && rest[j - own.len()] == r[j]);
                assert(!beneath(rest[j - own.len()], rest[i - own.len()].drop_last()));
            } else if beneath(qj, qi.drop_last()) {
                // A cross pair: the paths disagree on the component that
                // follows `parent`, so neither can reach beneath the other.
                assert(qi.drop_last() =~= qi.subrange(0, qi.len() - 1));
                assert(qi.drop_last()[parent.len() as int] == qi[parent.len() as int]);
                lemma_prefix_index(qi.drop_last(), qj, parent.len() as int);
                assert(qj[parent.len() as int] == qi[parent.len() as int]);
                if i < own.len() {
                    assert(qi[parent.len() as int] == t.name@);
                    assert(qj[parent.len() as int] != t.name@);
                } else {
                    assert(qj[parent.len() as int] == t.name@);
                    assert(qi[parent.len() as int] != t.name@);
                }
                assert(false);
            }
        }
        assert forall|x: int| 0 <= x < r.len() implies {
            &&& parent.is_prefix_of(#[trigger] r[x])
            &&& r[x].len() >= parent.len() + 2
            &&& exists|k: int|
                0 <= k < nodes.len() && r[x][parent.len() as int] == (#[trigger] nodes[k]).name@
        } by {
            if x < own.len() {
                assert(r[x] == own[x]);
                lemma_prefix_push(parent, t.name@, own[x]);
                assert(r[x][parent.len() as int] == (#[trigger] nodes[0]).name@);
            } else {
                assert(r[x] == rest[x - own.len()]);
                let k = choose|k: int|
                    0 <= k < rest_nodes.len() && rest[x - own.len()][parent.len() as int] == (
                    #[trigger] rest_nodes[k]).name@;
                assert(r[x][parent.len() as int] == (#[trigger] nodes[k + 1]).name@);
            }
        }
    }
}

/// The node reached from the sibling list `nodes` by following the path
/// `rel`, one name per level, or `None` when no entry of that name is there.
pub open spec fn spec_node_at(nodes: Seq<FsTree>, rel: Seq<Seq<char>>) -> Option<FsTree>
    decreases nodes,
{
    if nodes.len() == 0 || rel.len() == 0 {
        None
    } else if nodes[0].name@ == rel[0] {
        if rel.len() == 1 {
            Some(nodes[0])
        } else {
            spec_node_at(nodes[0].children@, rel.drop_first())
        }
    } else {
        spec_node_at(nodes.drop_first(), rel)
    }
}

/// Whether the reported path `q` is sound for the snapshot nodes `nodes`
/// held by the directory with path `parent`: following `q`'s components
/// below `parent`, minus the last one, reaches a directory that classifies,
/// and the last component is that kind's artifact directory name.
pub open spec fn scan_entry_sound(
    q: Seq<Seq<char>>,
    nodes: Seq<FsTree>,
    parent: Seq<Seq<char>>,
) -> bool {
    &&& parent.len() + 2 <= q.len()
    &&& parent.is_prefix_of(q)
    &&& match spec_node_at(nodes, q.subrange(parent.len() as int, q.len() - 1)) {
        Some(n) => match spec_classify(n) {
            Some(m) => q.last() == artifact_dir_name(m),
            None => false,
        },
        None => false,
    }
}

/// Whether every path of the scan result `r` is sound for `nodes` and
/// `parent` in the sense of [`scan_entry_sound`].
pub open spec fn scan_sound_ok(
    r: Seq<Seq<Seq<char>>>,
    nodes: Seq<FsTree>,
    parent: Seq<Seq<char>>,
) -> bool {
    forall|x: int| 0 <= x < r.len() ==> scan_entry_sound(#[trigger] r[x], nodes, parent)
}

/// Scanning well-formed sibling nodes with distinct names reports only sound
/// paths.
proof fn lemma_scan_nodes_sound(nodes: Seq<FsTree>, parent: Seq<Seq<char>>)
    requires
        forall|k: int| 0 <= k < nodes.len() ==> (#[trigger] nodes[k]).wf(),
        forall|k1: int, k2: int|
            0 <= k1 < k2 < nodes.len() ==> nodes[k1].name@ != nodes[k2].name@,
    ensures
        scan_sound_ok(spec_scan_nodes(nodes, parent), nodes, parent),
    decreases nodes,
{
    let r = spec_scan_nodes(nodes, parent);
    if nodes.len() == 0 {
        assert(r =~= Seq::<Seq<Seq<char>>>::empty());
    } else {
        let t = nodes[0];
        let p1 = parent.push(t.name@);
        let rest_nodes = nodes.drop_first();
        assert(forall|k: int|
            0 <= k < rest_nodes.len() ==> #[trigger] rest_nodes[k] == nodes[k + 1]);
        lemma_scan_nodes_sound(rest_nodes, parent);
        lemma_scan_nodes_pruned(rest_nodes, parent);
        let rest = spec_scan_nodes(rest_nodes, parent);
        let own = match spec_classify(t) {
            Some(m) => seq![p1.push(artifact_dir_name(m))],
            None => spec_scan_nodes(t.children@, p1),
        };
        assert(r == own + rest);
        assert(t.wf());
        if spec_classify(t) is None {
            t.lemma_wf_children();
            lemma_scan_nodes_sound(t.children@, p1);
        }
        assert forall|x: int| 0 <= x < own.len() implies scan_entry_sound(
            #[trigger] own[x],
            nodes,
            parent,
        ) by {
            let q = own[x];
            match spec_classify(t) {
                Some(m) => {
                    let q0 = p1.push(artifact_dir_name(m));
                    assert(q == q0);
                    assert(p1.is_prefix_of(q0)) by {
                        assert(p1 =~= q0.subrange(0, p1.len() as int));
                    }
                    lemma_prefix_push(parent, t.name@, q0);
                    let rel = q.subrange(parent.len() as int, q.len() - 1);
                    assert(rel =~= seq![t.name@]);
                    assert(spec_node_at(nodes, rel) == Some(t));
                    assert(q.last() == artifact_dir_name(m));
                },
                None => {
                    assert(scan_entry_sound(q, t.children@, p1));
                    lemma_prefix_push(parent, t.name@, q);
                    let rel = q.subrange(parent.len() as int, q.len() - 1);
                    assert(rel[0] == q[parent.len() as int]);
                    assert(rel[0] == t.name@);
                    let rel_child = q.subrange(p1.len() as int, q.len() - 1);
                    assert(rel.drop_first() =~= rel_child);
                    assert(rel.len() >= 2);
                    assert(spec_node_at(nodes, rel) == spec_node_at(t.children@, rel_child));
                },
            }
        }
        assert forall|x: int| 0 <= x < rest.len() implies scan_entry_sound(
            #[trigger] rest[x],
            nodes,
            parent,
        ) by {
            let q = rest[x];
            assert(scan_entry_sound(q, rest_nodes, parent));
            let k = choose|k: int|
                0 <= k < rest_nodes.len() && rest[x][parent.len() as int] == (#[trigger] rest_nodes[k]).name@;
            assert(rest_nodes[k] == nodes[k + 1]);
            assert(q[parent.len() as int] != t.name@);
            let rel = q.subrange(parent.len() as int, q.len() - 1);
            assert(rel[0] == q[parent.len() as int]);
            assert(rel.len() >= 1);
            assert(spec_node_at(nodes, rel) == spec_node_at(rest_nodes, rel));
        }
        assert forall|x: int| 0 <= x < r.len() implies scan_entry_sound(
            #[trigger] r[x],
            nodes,
            parent,
        ) by {
            if x < own.len() {
                assert(r[x] == own[x]);
            } else {
                assert(r[x] == rest[x - own.len()]);
            }
        }
    }
}

/// Law: soundness. Every path reported by a scan of a well-formed snapshot
/// is the artifact directory of a directory that independently satisfies one
/// full project marker: following the path's components from the scanned
/// root, minus the last one, reaches a directory that classifies, and the
/// last component is the artifact directory name of the matched kind.
pub proof fn lemma_scan_sound(root: FsTree, parent: Seq<Seq<char>>)
    requires
        root.wf(),
    ensures
        scan_sound_ok(spec_scan(root, parent), seq![root], parent),
{
    assert(seq![root][0] == root);
    lemma_scan_nodes_sound(seq![root], parent);
}

/// Whether the snapshot entry reached from `nodes` by the path `rel` is a
/// recognized project root.
pub open spec fn classified_at(nodes: Seq<FsTree>, rel: Seq<Seq<char>>) -> bool {
    match spec_node_at(nodes, rel) {
        Some(n) => spec_classify(n) is Some,
        None => false,
    }
}

/// The artifact-directory path reported for the project root reached from
/// `nodes` by `rel`, when the directory holding those nodes has the path
/// `parent`.
pub open spec fn artifact_path_at(
    nodes: Seq<FsTree>,
    parent: Seq<Seq<char>>,
    rel: Seq<Seq<char>>,
) -> Seq<Seq<char>> {
    parent + rel + seq![
        artifact_dir_name(spec_classify(spec_node_at(nodes, rel)->Some_0)->Some_0),
    ]
}

/// Scanning well-formed sibling nodes with distinct names reports every
/// project root that is not beneath another project root.
proof fn lemma_scan_nodes_complete(nodes: Seq<FsTree>, parent: Seq<Seq<char>>, rel: Seq<Seq<char>>)
    requires
        forall|k: int| 0 <= k < nodes.len() ==> (#[trigger] nodes[k]).wf(),
        forall|k1: int, k2: int|
            0 <= k1 < k2 < nodes.len() ==> nodes[k1].name@ != nodes[k2].name@,
        classified_at(nodes, rel),
        forall|j: int| 1 <= j < rel.len() ==> !classified_at(nodes, rel.subrange(0, j)),
    ensures
        spec_scan_nodes(nodes, parent).contains(artifact_path_at(nodes, parent, rel)),
    decreases nodes,
{
    let n = spec_node_at(nodes, rel)->Some_0;
    let m = spec_classify(n)->Some_0;
    let target = artifact_path_at(nodes, parent, rel);
    let r = spec_scan_nodes(nodes, parent);
    assert(nodes.len() > 0 && rel.len() > 0);
    let t = nodes[0];
    let p1 = parent.push(t.name@);
    let rest_nodes = nodes.drop_first();
    assert(forall|k: int| 0 <= k < rest_nodes.len() ==> #[trigger] rest_nodes[k] == nodes[k + 1]);
    let rest = spec_scan_nodes(rest_nodes, parent);
    let own = match spec_classify(t) {
        Some(m0) => seq![p1.push(artifact_dir_name(m0))],
        None => spec_scan_nodes(t.children@, p1),
    };
    assert(r == own + rest);
    assert(t.wf());
    if t.name@ == rel[0] {
        if rel.len() == 1 {
            assert(n == t);
            assert(own[0] =~= target);
            assert(r[0] == own[0]);
            assert(r.contains(target)) by {
                assert(r[0] == target);
            }
        } else {
            assert(rel.subrange(0, 1) =~= seq![rel[0]]);
            assert(spec_node_at(nodes, rel.subrange(0, 1)) == Some(t));
            assert(!classified_at(nodes, rel.subrange(0, 1)));
            assert(spec_classify(t) is None);
            t.lemma_wf_children();
            assert(spec_node_at(nodes, rel) == spec_node_at(t.children@, rel.drop_first()));
            assert forall|j: int| 1 <= j < rel.drop_first().len() implies !classified_at(
                t.children@,
                rel.drop_first().subrange(0, j),
            ) by {
                let pre = rel.subrange(0, j + 1);
                assert(pre[0] == rel[0]);
                assert(pre.drop_first() =~= rel.drop_first().subrange(0, j));
                assert(spec_node_at(nodes, pre) == spec_node_at(t.children@, pre.drop_first()));
                assert(!classified_at(nodes, pre));
            }
            assert(classified_at(t.children@, rel.drop_first()));
            lemma_scan_nodes_complete(t.children@, p1, rel.drop_first());
            assert(artifact_path_at(t.children@, p1, rel.drop_first()) =~= target);
            let x = choose|x: int| 0 <= x < own.len() && own[x] == target;
            assert(r.contains(target)) by {
                assert(r[x] == target);
            }
        }
    } else {
        assert(spec_node_at(nodes, rel) == spec_node_at(rest_nodes, rel));
        assert forall|j: int| 1 <= j < rel.len() implies !classified_at(
            rest_nodes,
            rel.subrange(0, j),
        ) by {
            let pre = rel.subrange(0, j);
            assert(pre[0] == rel[0]);
            assert(spec_node_at(nodes, pre) == spec_node_at(rest_nodes, pre));
            assert(!classified_at(nodes, pre));
        }
        assert(classified_at(rest_nodes, rel));
        lemma_scan_nodes_complete(rest_nodes, parent, rel);
        assert(artifact_path_at(rest_nodes, parent, rel) == target);
        let x = choose|x: int| 0 <= x < rest.len() && rest[x] == target;
        assert(r.contains(target)) by {
            assert(r[own.len() + x] == target);
        }
    }
}

/// Law: completeness. A scan of a well-formed snapshot misses no project:
/// every directory of the snapshot that classifies as a project root, and
/// that does not lie beneath another directory that classifies, has its
/// artifact directory's path in the scan result. The project root's place is
/// given by `rel`, its path relative to the directory holding the scanned
/// root.
pub proof fn lemma_scan_complete(root: FsTree, parent: Seq<Seq<char>>, rel: Seq<Seq<char>>)
    requires
        root.wf(),
        classified_at(seq![root], rel),
        forall|j: int| 1 <= j < rel.len() ==> !classified_at(seq![root], rel.subrange(0, j)),
    ensures
        spec_scan(root, parent).contains(artifact_path_at(seq![root], parent, rel)),
{
    assert(seq![root][0] == root);
    lemma_scan_nodes_complete(seq![root], parent, rel);
}

/// Law: the scan of a recognized project root yields exactly the root's own
/// artifact directory — the root is reported once, and nothing beneath it is
/// visited.
pub proof fn lemma_scan_at_project_root(root: FsTree, parent: Seq<Seq<char>>)
    requires
        spec_classify(root) is Some,
    ensures
        spec_scan(root, parent) =~= seq![
            parent.push(root.name@).push(artifact_dir_name(spec_classify(root)->Some_0)),
        ],
{
    assert(seq![root][0] == root);
    assert(seq![root].drop_first() =~= Seq::<FsTree>::empty());
    assert(spec_scan_nodes(Seq::<FsTree>::empty(), parent) == Seq::<Seq<Seq<char>>>::empty());
}

/// Law: the scan of an unrecognized directory is exactly the scan of its
/// children in listing order — traversal descends and misses nothing.
pub proof fn lemma_scan_descends(root: FsTree, parent: Seq<Seq<char>>)
    requires
        spec_classify(root) is None,
    ensures
        spec_scan(root, parent) == spec_scan_nodes(root.children@, parent.push(root.name@)),
{
    assert(seq![root][0] == root);
    assert(seq![root].drop_first() =~= Seq::<FsTree>::empty());
    assert(spec_scan_nodes(Seq::<FsTree>::empty(), parent) == Seq::<Seq<Seq<char>>>::empty());
    assert(spec_scan_nodes(root.children@, parent.push(root.name@))
        + Seq::<Seq<Seq<char>>>::empty() =~= spec_scan_nodes(
        root.children@,
        parent.push(root.name@),
    ));
}

/// Law: pruning. For any recognized project root found during a scan of a
/// well-formed snapshot, no path strictly beneath that root appears in the
/// scan result, other than the root's own artifact directory: the walk does
/// not descend into a recognized project root's subtree. Each reported
/// path's project root is the path's parent directory, written here as
/// `drop_last`.
pub proof fn lemma_scan_pruning(root: FsTree, parent: Seq<Seq<char>>)
    requires
        root.wf(),
    ensures
        prune_ok(spec_scan(root, parent)),
        scan_shape_ok(spec_scan(root, parent), seq![root], parent),
{
    assert(seq![root][0] == root);
    lemma_scan_nodes_pruned(seq![root], parent);
}

/// Scans the subtree rooted at `node`, whose parent directory has the path
/// `parent`, and returns the discovered artifact-directory paths in
/// traversal order.
fn scan_tree(node: &FsTree, parent: &Vec<String>) -> (r: Vec<Vec<String>>)
    ensures
        r.deep_view() == spec_scan(*node, parent.deep_view()),
    decreases *node,
{
    let mut path = parent.clone();
    path.push(node.name.clone());
    proof {
        assert(path.deep_view() =~= parent.deep_view().push(node.name@));
    }
    let ghost pview = path.deep_view();
    match classify(node) {
        Some((_, artifact)) => {
            let ghost a_view = artifact@;
            proof {
                assert(spec_classify(*node) is Some);
                assert(a_view == artifact_dir_name(spec_classify(*node)->Some_0));
            }
            let mut artifact_path = path;
            artifact_path.push(artifact);
            proof {
                assert(artifact_path.deep_view() =~= pview.push(a_view));
            }
            let ghost ap_view = artifact_path.deep_view();
            let mut out: Vec<Vec<String>> = Vec::new();
            out.push(artifact_path);
            proof {
                let pv = parent.deep_view();
                let m = spec_classify(*node)->Some_0;
                assert(out.deep_view() =~= seq![ap_view]);
                assert(ap_view == pv.push(node.name@).push(artifact_dir_name(m)));
                assert(seq![*node].drop_first() =~= Seq::<FsTree>::empty());
                assert(spec_scan_nodes(Seq::<FsTree>::empty(), pv)
                    == Seq::<Seq<Seq<char>>>::empty());
                assert(spec_scan(*node, pv) =~= out.deep_view());
            }
            out
        },
        None => {
            let mut out: Vec<Vec<String>> = Vec::new();
            let mut i: usize = 0;
            while i < node.children.len()
                invariant
                    i <= node.children@.len(),
                    spec_classify(*node) is None,
                    pview == parent.deep_view().push(node.name@),
                    out.deep_view() == spec_scan_nodes(
                        node.children@.subrange(0, i as int),
                        pview,
                    ),
                    path.deep_view() == pview,
                decreases node.children@.len() - i,
            {
                let mut sub = scan_tree(&node.children[i], &path);
                let ghost sub_view = sub.deep_view();
                let ghost pre = out.deep_view();
                out.append(&mut sub);
                proof {
                    assert(out.deep_view() =~= pre + sub_view);
                    assert(node.children@.subrange(0, i as int + 1) =~= node.children@.subrange(
                        0,
                        i as int,
                    ) + seq![node.children@[i as int]]);
                    lemma_scan_nodes_concat(
                        node.children@.subrange(0, i as int),
                        seq![node.children@[i as int]],
                        pview,
                    );
                }
                i += 1;
            }
            proof {
                let pv = parent.deep_view();
                assert(node.children@.subrange(0, i as int) =~= node.children@);
                assert(seq![*node].drop_first() =~= Seq::<FsTree>::empty());
                assert(spec_scan_nodes(Seq::<FsTree>::empty(), pv)
                    == Seq::<Seq<Seq<char>>>::empty());
                assert(out.deep_view() == spec_scan_nodes(node.children@, pview));
                assert(spec_scan(*node, pv) =~= spec_scan_nodes(node.children@, pview)
                    + Seq::<Seq<Seq<char>>>::empty());
                assert(spec_scan_nodes(node.children@, pview) + Seq::<Seq<Seq<char>>>::empty()
                    =~= out.deep_view());
            }
            out
        },
    }
}

/// Scans the tree rooted at `root` and returns the paths of the artifact
/// directories of every recognized project root reached without entering the
/// subtree of another recognized project root, in pre-order, siblings in
/// listing order. Each returned path starts with the name of `root` itself.
pub fn find_artifact_directories(root: &FsTree) -> (r: Vec<Vec<String>>)
    ensures
        r.deep_view() == spec_scan(*root, Seq::<Seq<char>>::empty()),
{
    let parent: Vec<String> = Vec::new();
    proof {
        assert(parent.deep_view() =~= Seq::<Seq<char>>::empty());
    }
    scan_tree(root, &parent)
}

} // verus!
