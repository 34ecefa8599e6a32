use procscan::process::ProcessState;
use procscan::status::parse_status;

#[test]
fn status_reads_name_state_and_parent() {
    let text = "Name:\tbash\nUmask:\t0022\nState:\tS (sleeping)\nTgid:\t101\nPid:\t101\nPPid:\t100\nTracerPid:\t0\n";
    let n = parse_status(101, text).unwrap();
    assert_eq!(n.pid, 101);
    assert_eq!(n.ppid, 100);
    assert_eq!(n.name, "bash");
    assert_eq!(n.state, ProcessState::Sleeping);
    assert_eq!(n.children, None);
}

#[test]
fn status_state_codes() {
    let codes = [
        ("R", ProcessState::Running),
        ("S", ProcessState::Sleeping),
        ("Z", ProcessState::Zombie),
        ("T", ProcessState::TracingStop),
        ("X", ProcessState::Dead),
        ("D", ProcessState::Idle),
        ("I", ProcessState::Idle),
    ];
    for (code, state) in codes {
        let text = format!("Name: a\nState: {code} (x)\nPPid: 1\n");
        assert_eq!(parse_status(2, &text).unwrap().state, state);
    }
}

#[test]
fn status_missing_fields_keep_defaults() {
    let n = parse_status(7, "Umask: 0022\n").unwrap();
    assert_eq!(n.pid, 7);
    assert_eq!(n.ppid, 0);
    assert_eq!(n.name, "");
    assert_eq!(n.state, ProcessState::Idle);
}

#[test]
fn status_stops_at_parent_pid() {
    let n = parse_status(7, "PPid: 3\nName: late\nState: R\n").unwrap();
    assert_eq!(n.ppid, 3);
    assert_eq!(n.name, "");
    assert_eq!(n.state, ProcessState::Idle);
}

#[test]
fn status_bad_parent_pid_drops_record() {
    assert!(parse_status(7, "Name: a\nPPid: x1\n").is_none());
    assert!(parse_status(7, "PPid: 2147483648\n").is_none());
}

#[test]
fn status_parent_pid_signs_and_limits() {
    assert_eq!(parse_status(7, "PPid: +5\n").unwrap().ppid, 5);
    assert_eq!(parse_status(7, "PPid: -2147483648\n").unwrap().ppid, i32::MIN);
    assert_eq!(parse_status(7, "PPid: 2147483647").unwrap().ppid, i32::MAX);
}

#[test]
fn status_name_is_first_word_only() {
    let n = parse_status(9, "Name:\tWeb Content\r\nPPid:\t1\r\n").unwrap();
    assert_eq!(n.name, "Web");
    assert_eq!(n.ppid, 1);
}

#[test]
fn status_label_without_value_is_skipped() {
    let n = parse_status(9, "Name:\nPPid:\nState: Z\n").unwrap();
    assert_eq!(n.name, "");
    assert_eq!(n.ppid, 0);
    assert_eq!(n.state, ProcessState::Zombie);
}
