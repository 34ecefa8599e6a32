//! Building the parent-indexed process tree from a flat snapshot.
use crate::process::{child_seq, with_child, NodeView, ProcessNode};
use std::collections::HashMap;
use vstd::prelude::*;

verus! {

broadcast use vstd::std_specs::hash::group_hash_axioms;

/// Why a tree could not be built.
#[derive(Debug, Clone, Copy, PartialEq, Eq, Structural)]
pub enum TreeError {
    /// The record of `pid` names a parent `ppid` that no record has.
    OrphanedProcess { pid: i32, ppid: i32 },
}

/// The views of a list of records.
pub open spec fn views(s: Seq<ProcessNode>) -> Seq<NodeView> {
    s.map_values(|n: ProcessNode| n@)
}

/// The pids of the records of `list`.
pub open spec fn pid_set(list: Seq<NodeView>) -> Set<i32> {
    Set::new(|k: i32| exists|j: int| 0 <= j < list.len() && list[j].pid == k)
}

/// The index of the last record of `list` with pid `k`, or -1.
pub open spec fn last_index_of(list: Seq<NodeView>, k: i32) -> int
    decreases list.len(),
{
    if list.len() == 0 {
        -1
    } else if list.last().pid == k {
        list.len() - 1
    } else {
        last_index_of(list.drop_last(), k)
    }
}

/// The pids of the records of `list` whose parent is `k`, in list order.
pub open spec fn kids(list: Seq<NodeView>, k: i32) -> Seq<i32>
    decreases list.len(),
{
    if list.len() == 0 {
        seq![]
    } else {
        let rest = kids(list.drop_last(), k);
        let n = list.last();
        if n.ppid != 0 && n.ppid == k {
            rest.push(n.pid)
        } else {
            rest
        }
    }
}

/// Children `c` with `extra` appended; left as they are when `extra` is empty.
pub open spec fn with_children(c: Option<Seq<i32>>, extra: Seq<i32>) -> Option<Seq<i32>> {
    if extra.len() == 0 {
        c
    } else {
        Some(child_seq(c) + extra)
    }
}

/// The node that the tree of `list` holds under pid `k`: the last record with
/// that pid, with the pids of the records naming `k` as parent appended to its
/// children.
pub open spec fn tree_node(list: Seq<NodeView>, k: i32) -> NodeView {
    let n = list[last_index_of(list, k)];
    NodeView { children: with_children(n.children, kids(list, k)), ..n }
}

/// The record at `i` is a root or its parent has a record in `list`.
pub open spec fn has_parent(list: Seq<NodeView>, i: int) -> bool {
    list[i].ppid == 0 || pid_set(list).contains(list[i].ppid)
}

/// Every record of `list` is a root or has its parent in `list`.
pub open spec fn all_parents_present(list: Seq<NodeView>) -> bool {
    forall|i: int| 0 <= i < list.len() ==> has_parent(list, i)
}

/// `i` is the first record of `list` whose parent is missing.
pub open spec fn is_first_orphan(list: Seq<NodeView>, i: int) -> bool {
    &&& 0 <= i < list.len()
    &&& !has_parent(list, i)
    &&& forall|j: int| 0 <= j < i ==> has_parent(list, j)
}

/// `t` is the tree of `list`: one node per pid, each as `tree_node` gives it.
pub open spec fn is_tree_of(list: Seq<NodeView>, t: Map<i32, ProcessNode>) -> bool {
    &&& t.dom() == pid_set(list)
    &&& forall|k: i32| #[trigger] t.contains_key(k) ==> t[k]@ == tree_node(list, k)
}

/// The outcome that building a tree from `list` must have.
pub open spec fn build_outcome(
    list: Seq<NodeView>,
    r: Result<HashMap<i32, ProcessNode>, TreeError>,
) -> bool {
    match r {
        Ok(t) => all_parents_present(list) && is_tree_of(list, t@),
        Err(TreeError::OrphanedProcess { pid, ppid }) => exists|i: int|
            is_first_orphan(list, i) && list[i].pid == pid && list[i].ppid == ppid,
    }
}

/// Where the last record with pid `k` stands, and that there is one exactly
/// when `k` is a pid of `list`.
pub proof fn lemma_last_index_of(list: Seq<NodeView>, k: i32)
    ensures
        -1 <= last_index_of(list, k) < list.len(),
        last_index_of(list, k) >= 0 ==> list[last_index_of(list, k)].pid == k,
        pid_set(list).contains(k) <==> last_index_of(list, k) >= 0,
    decreases list.len(),
{
    if list.len() > 0 {
        let rest = list.drop_last();
        lemma_last_index_of(rest, k);
        if list.last().pid != k {
            if pid_set(list).contains(k) {
                let j = choose|j: int| 0 <= j < list.len() && list[j].pid == k;
                assert(rest[j].pid == k);
                assert(pid_set(rest).contains(k));
            }
            if pid_set(rest).contains(k) {
                let j = choose|j: int| 0 <= j < rest.len() && rest[j].pid == k;
                assert(list[j].pid == k);
            }
        } else {
            assert(list[list.len() - 1].pid == k);
        }
    }
}

/// The node of pid `k` after the records before `i` have been linked to their
/// parents.
spec fn partial_node(list: Seq<NodeView>, k: i32, i: int) -> NodeView {
    let n = list[last_index_of(list, k)];
    NodeView { children: with_children(n.children, kids(list.subrange(0, i), k)), ..n }
}

/// Builds the tree of a snapshot: every record keyed by its pid (a later
/// record replaces an earlier one with the same pid), and each record with a
/// non-zero parent appended, in list order, to the children of that parent.
/// Fails with the first record whose parent has no record.
pub fn build_process_tree(process_list: &[ProcessNode]) -> (r: Result<
    HashMap<i32, ProcessNode>,
    TreeError,
>)
    ensures
        build_outcome(views(process_list@), r),
{
    let ghost lv = views(process_list@);
    let mut tree: HashMap<i32, ProcessNode> = HashMap::new();
    let mut i: usize = 0;
    while i < process_list.len()
        invariant
            0 <= i <= process_list.len(),
            lv == views(process_list@),
            tree@.dom() == pid_set(lv.subrange(0, i as int)),
            forall|k: i32| #[trigger]
                tree@.contains_key(k) ==> tree@[k]@ == lv[last_index_of(
                    lv.subrange(0, i as int),
                    k,
                )],
        decreases process_list.len() - i,
    {
        let node = process_list[i].copy();
        let ghost before = lv.subrange(0, i as int);
        let ghost after = lv.subrange(0, i as int + 1);
        proof {
            assert(after.drop_last() =~= before);
            assert(pid_set(after) =~= pid_set(before).insert(node.pid)) by {
                assert forall|k: i32| pid_set(after).contains(k) implies pid_set(before).insert(
                    node.pid,
                ).contains(k) by {
                    let j = choose|j: int| 0 <= j < after.len() && after[j].pid == k;
                    if j < i {
                        assert(before[j].pid == k);
                    }
                }
                assert forall|k: i32| pid_set(before).insert(node.pid).contains(k) implies pid_set(
                    after,
                ).contains(k) by {
                    if k == node.pid {
                        assert(after[i as int].pid == k);
                    } else {
                        let j = choose|j: int| 0 <= j < before.len() && before[j].pid == k;
                        assert(after[j].pid == k);
                    }
                }
            }
        }
        tree.insert(node.pid, node);
        i = i + 1;
    }
    proof {
        assert(lv.subrange(0, lv.len() as int) =~= lv);
    }
    let mut i: usize = 0;
    while i < process_list.len()
        invariant
            0 <= i <= process_list.len(),
            lv == views(process_list@),
            tree@.dom() == pid_set(lv),
            forall|k: i32| #[trigger]
                tree@.contains_key(k) ==> tree@[k]@ == partial_node(lv, k, i as int),
            forall|j: int| 0 <= j < i ==> has_parent(lv, j),
        decreases process_list.len() - i,
    {
        let pid = process_list[i].pid;
        let ppid = process_list[i].ppid;
        let ghost before = lv.subrange(0, i as int);
        let ghost after = lv.subrange(0, i as int + 1);
        proof {
            assert(after.drop_last() =~= before);
            assert(lv[i as int].pid == pid && lv[i as int].ppid == ppid);
        }
        if ppid != 0 {
            match tree.remove(&ppid) {
                None => {
                    proof {
                        assert(is_first_orphan(lv, i as int));
                    }
                    return Err(TreeError::OrphanedProcess { pid, ppid });
                },
                Some(mut parent) => {
                    let ghost pre = parent@;
                    parent.add_child(pid);
                    tree.insert(ppid, parent);
                    proof {
                        assert(tree@.dom() =~= pid_set(lv));
                        assert forall|k: i32| #[trigger]
                            tree@.contains_key(k) implies tree@[k]@ == partial_node(
                            lv,
                            k,
                            i as int + 1,
                        ) by {
                            if k == ppid {
                                let c = lv[last_index_of(lv, k)].children;
                                let ks = kids(before, k);
                                assert(kids(after, k) == ks.push(pid));
                                if ks.len() == 0 {
                                    assert(child_seq(c).push(pid) =~= child_seq(c) + ks.push(
                                        pid,
                                    ));
                                } else {
                                    assert(child_seq(c) + ks.push(pid) =~= (child_seq(c)
                                        + ks).push(pid));
                                }
                            } else {
                                assert(kids(after, k) == kids(before, k));
                            }
                        }
                    }
                },
            }
        } else {
            proof {
                assert forall|k: i32| #[trigger]
                    tree@.contains_key(k) implies tree@[k]@ == partial_node(
                    lv,
                    k,
                    i as int + 1,
                ) by {
                    assert(kids(after, k) == kids(before, k));
                }
            }
        }
        i = i + 1;
    }
    proof {
        assert(lv.subrange(0, lv.len() as int) =~= lv);
        assert forall|k: i32| #[trigger]
            tree@.contains_key(k) implies tree@[k]@ == tree_node(lv, k) by {
            assert(tree@[k]@ == partial_node(lv, k, lv.len() as int));
        }
    }
    Ok(tree)
}

/// Building a tree twice from the same records gives the same pids, and every
/// parent gets the same children both times.
pub proof fn lemma_build_repeatable(
    list: Seq<NodeView>,
    first: Result<HashMap<i32, ProcessNode>, TreeError>,
    second: Result<HashMap<i32, ProcessNode>, TreeError>,
)
    requires
        build_outcome(list, first),
        build_outcome(list, second),
    ensures
        first is Ok <==> second is Ok,
        first is Ok ==> first->Ok_0@.dom() == second->Ok_0@.dom(),
        first is Ok ==> forall|k: i32| #[trigger]
            first->Ok_0@.contains_key(k) ==> first->Ok_0@[k]@.children
                == second->Ok_0@[k]@.children,
{
    if first is Ok && second is Err {
        let i = choose|i: int| is_first_orphan(list, i);
        assert(has_parent(list, i));
    }
    if first is Err && second is Ok {
        let i = choose|i: int| is_first_orphan(list, i);
        assert(has_parent(list, i));
    }
}

/// Building a tree succeeds exactly when every record is a root or has its
/// parent among the records; otherwise it reports a record whose parent is
/// missing.
pub proof fn lemma_build_succeeds_iff_parents_present(
    list: Seq<NodeView>,
    r: Result<HashMap<i32, ProcessNode>, TreeError>,
)
    requires
        build_outcome(list, r),
    ensures
        r is Ok <==> all_parents_present(list),
        r is Err ==> exists|i: int|
            0 <= i < list.len() && list[i].ppid != 0 && !pid_set(list).contains(list[i].ppid),
{
    if r is Err {
        let i = choose|i: int| is_first_orphan(list, i);
        assert(!has_parent(list, i));
    }
}

} // verus!
