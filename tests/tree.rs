use procscan::process::{ProcessNode, ProcessState};
use procscan::tree::{build_process_tree, TreeError};

fn record(pid: i32, ppid: i32, name: &str) -> ProcessNode {
    let mut n = ProcessNode::new();
    n.pid = pid;
    n.ppid = ppid;
    n.name = name.to_string();
    n
}

fn snapshot() -> Vec<ProcessNode> {
    vec![
        record(1, 0, "init"),
        record(100, 1, "sshd"),
        record(101, 100, "bash"),
        record(102, 100, "bash"),
    ]
}

#[test]
fn tree_of_sshd_and_two_shells() {
    let tree = build_process_tree(&snapshot()).unwrap();
    assert_eq!(tree.len(), 4);
    assert_eq!(tree[&1].children, Some(vec![100]));
    assert_eq!(tree[&100].children, Some(vec![101, 102]));
    assert_eq!(tree[&101].children, None);
    assert_eq!(tree[&102].children, None);
    assert_eq!(tree[&100].name, "sshd");
    assert_eq!(tree[&101].ppid, 100);
}

#[test]
fn tree_rebuilt_has_same_children() {
    let list = snapshot();
    let first = build_process_tree(&list).unwrap();
    let second = build_process_tree(&list).unwrap();
    for (pid, node) in &first {
        assert_eq!(node.children, second[pid].children);
    }
    assert_eq!(first.len(), second.len());
}

#[test]
fn tree_reports_missing_parent() {
    let list = vec![record(1, 0, "init"), record(5, 1, "a"), record(7, 42, "lost")];
    let r = build_process_tree(&list);
    assert_eq!(r.err(), Some(TreeError::OrphanedProcess { pid: 7, ppid: 42 }));
}

#[test]
fn tree_reports_first_missing_parent() {
    let list = vec![record(3, 9, "x"), record(4, 8, "y")];
    let r = build_process_tree(&list);
    assert_eq!(r.err(), Some(TreeError::OrphanedProcess { pid: 3, ppid: 9 }));
}

#[test]
fn tree_of_empty_list_is_empty() {
    let tree = build_process_tree(&[]).unwrap();
    assert!(tree.is_empty());
}

#[test]
fn tree_later_duplicate_replaces_earlier() {
    let list = vec![record(1, 0, "old"), record(2, 1, "kid"), record(1, 0, "new")];
    let tree = build_process_tree(&list).unwrap();
    assert_eq!(tree[&1].name, "new");
    assert_eq!(tree[&1].children, Some(vec![2]));
}

#[test]
fn node_defaults() {
    let n = ProcessNode::default();
    assert_eq!(n.pid, 1);
    assert_eq!(n.ppid, 0);
    assert_eq!(n.name, "");
    assert_eq!(n.state, ProcessState::Idle);
    assert_eq!(n.children, None);
}

#[test]
fn add_child_appends_in_order() {
    let mut n = ProcessNode::new();
    n.add_child(5);
    n.add_child(3);
    assert_eq!(n.children, Some(vec![5, 3]));
}
