use procscan::matcher::{
    comm_matches, group_field, group_match, group_members, select_by_name, sorted_unique,
};

fn entries() -> Vec<(i32, Vec<u8>)> {
    vec![
        (100, b"sshd\n".to_vec()),
        (101, b"bash\n".to_vec()),
        (102, b"bash\n".to_vec()),
    ]
}

#[test]
fn test_list_pids_no_match() {
    let result = select_by_name(&[(789, b"sshd\n".to_vec())], b"bash");
    assert!(result.is_empty());
}

#[test]
fn name_match_without_groups() {
    assert_eq!(select_by_name(&entries(), b"bash"), vec![101, 102]);
    assert_eq!(select_by_name(&entries(), b"sshd"), vec![100]);
}

#[test]
fn name_match_is_exact() {
    assert!(select_by_name(&entries(), b"Bash").is_empty());
    assert!(select_by_name(&entries(), b"bas").is_empty());
    assert!(select_by_name(&entries(), b"bash\n").is_empty());
}

#[test]
fn comm_strips_one_line_feed() {
    assert!(comm_matches(b"bash\n", b"bash"));
    assert!(comm_matches(b"bash", b"bash"));
    assert!(!comm_matches(b"bash\n\n", b"bash"));
    assert!(comm_matches(b"\n", b""));
}

#[test]
fn group_field_is_fifth_field() {
    assert_eq!(group_field("101 (bash) S 100 101 101 34816 0"), Some(101));
    assert_eq!(group_field("100 (sshd) S 1 100 100 0"), Some(100));
    assert_eq!(group_field("100 (sshd) S 1"), None);
    assert_eq!(group_field("100 (sshd) S 1 x"), None);
    assert_eq!(group_field(""), None);
}

#[test]
fn group_match_keeps_shell_group() {
    let hits = select_by_name(&entries(), b"bash");
    let groups = vec![101, 101];
    let scan = [(100, 100), (101, 101), (102, 101)];
    assert_eq!(group_match(hits, groups, &scan), vec![101, 102]);
}

#[test]
fn group_match_adds_groupmates_sorted() {
    let scan = [(300, 7), (5, 7), (6, 8), (200, 7)];
    assert_eq!(group_match(vec![200], vec![7], &scan), vec![5, 200, 300]);
}

#[test]
fn group_match_without_groups_returns_hits() {
    let scan = [(1, 1)];
    assert_eq!(group_match(vec![9, 3], vec![], &scan), vec![3, 9]);
    assert_eq!(group_match(vec![9, 3, 9], vec![], &[]), vec![3, 9]);
}

#[test]
fn group_match_keeps_match_with_unread_group() {
    let scan = [(5, 7)];
    assert_eq!(group_match(vec![5, 6], vec![7], &scan), vec![5, 6]);
}

#[test]
fn group_match_of_no_matches_is_empty() {
    assert!(group_match(vec![], vec![], &[]).is_empty());
}

#[test]
fn group_members_sorted_unique() {
    let scan = [(4, 1), (2, 2), (4, 1), (3, 1), (9, 5)];
    assert_eq!(group_members(&scan, &[1, 2]), vec![2, 3, 4]);
    assert!(group_members(&scan, &[6]).is_empty());
}

#[test]
fn sorted_unique_orders_and_dedups() {
    assert_eq!(sorted_unique(vec![5, 1, 5, 3, 1]), vec![1, 3, 5]);
    assert_eq!(sorted_unique(vec![]), Vec::<i32>::new());
    assert_eq!(sorted_unique(vec![-2, i32::MAX, -2]), vec![-2, i32::MAX]);
}
