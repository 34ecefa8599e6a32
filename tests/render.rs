use std::collections::HashMap;

use procscan::process::ProcessNode;
use procscan::render::{render_subtree, tree_lines};
use procscan::tree::build_process_tree;

fn record(pid: i32, ppid: i32, name: &str) -> ProcessNode {
    let mut n = ProcessNode::new();
    n.pid = pid;
    n.ppid = ppid;
    n.name = name.to_string();
    n
}

#[test]
fn render_sshd_with_two_shells() {
    let list = vec![
        record(1, 0, "init"),
        record(100, 1, "sshd"),
        record(101, 100, "bash"),
        record(102, 100, "bash"),
    ];
    let tree = build_process_tree(&list).unwrap();
    assert_eq!(
        tree_lines(&tree, 1),
        vec!["init(1)", "  └───sshd(100)", "  ├───bash(101)", "  └───bash(102)"]
    );
}

#[test]
fn render_branching_connector() {
    let list = vec![
        record(1, 0, "a"),
        record(2, 1, "b"),
        record(3, 1, "c"),
        record(4, 2, "d"),
    ];
    let tree = build_process_tree(&list).unwrap();
    assert_eq!(
        tree_lines(&tree, 1),
        vec!["a(1)", "  ├─┬─b(2)", "  │ └───d(4)", "  └───c(3)"]
    );
}

#[test]
fn render_missing_root_is_empty() {
    let tree: HashMap<i32, ProcessNode> = HashMap::new();
    assert!(tree_lines(&tree, 1).is_empty());
}

#[test]
fn render_negative_pid_and_prefix() {
    let mut tree = HashMap::new();
    tree.insert(-5, record(-5, 0, "x"));
    let mut out = Vec::new();
    render_subtree(&tree, -5, 2, "ab", false, 1, &mut out);
    assert_eq!(out, vec!["ab├───x(-5)"]);
}

#[test]
fn render_stops_on_cycle() {
    let mut tree = HashMap::new();
    let mut n = record(7, 7, "loop");
    n.children = Some(vec![7]);
    tree.insert(7, n);
    assert_eq!(tree_lines(&tree, 7), vec!["loop(7)"]);
}

#[test]
fn render_extreme_pids_in_decimal() {
    let mut tree = HashMap::new();
    tree.insert(i32::MIN, record(i32::MIN, 0, "lo"));
    tree.insert(i32::MAX, record(i32::MAX, 0, "hi"));
    tree.insert(0, record(0, 0, "zero"));
    assert_eq!(tree_lines(&tree, i32::MIN), vec!["lo(-2147483648)"]);
    assert_eq!(tree_lines(&tree, i32::MAX), vec!["hi(2147483647)"]);
    assert_eq!(tree_lines(&tree, 0), vec!["zero(0)"]);
}
