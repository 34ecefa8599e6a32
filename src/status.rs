//! Reading a process record from its status descriptor.
use crate::process::{blank_node, NodeView, ProcessNode, ProcessState};
use crate::text::{
    chars_of, field_is, i32_of, lemma_line_end_bounds, line_end, line_end_at, parse_i32_at,
    skip_spaces, skip_spaces_at, word_end, word_end_at,
};
use vstd::prelude::*;
use vstd::string::StringExecFns;

verus! {

/// The state that a state code stands for; an unknown code is `Idle`.
pub open spec fn state_of(code: Seq<char>) -> ProcessState {
    if code == seq!['R'] {
        ProcessState::Running
    } else if code == seq!['S'] {
        ProcessState::Sleeping
    } else if code == seq!['Z'] {
        ProcessState::Zombie
    } else if code == seq!['T'] {
        ProcessState::TracingStop
    } else if code == seq!['X'] {
        ProcessState::Dead
    } else {
        ProcessState::Idle
    }
}

/// Reads the lines of `s` from index `a` into `n`. Of each line the first
/// field is a label and the second its value: `Name:` sets the name, `State:`
/// the state, and `PPid:` the parent pid, after which nothing more is read. A
/// parent pid that is no `i32` makes the whole record unreadable.
pub open spec fn scan_status(s: Seq<char>, a: int, n: NodeView) -> Option<NodeView>
    decreases s.len() + 1 - a,
    via scan_status_decreases
{
    if a < 0 || a >= s.len() {
        Some(n)
    } else {
        let e = line_end(s, a);
        let label_at = skip_spaces(s, a, e);
        let label_end = word_end(s, label_at, e);
        let value_at = skip_spaces(s, label_end, e);
        let value_end = word_end(s, value_at, e);
        let label = s.subrange(label_at, label_end);
        let value = s.subrange(value_at, value_end);
        if value_at < e && label == "PPid:"@ {
            match i32_of(value) {
                Some(v) => Some(NodeView { ppid: v, ..n }),
                None => None,
            }
        } else {
            let next = if value_at < e && label == "Name:"@ {
                NodeView { name: value, ..n }
            } else if value_at < e && label == "State:"@ {
                NodeView { state: state_of(value), ..n }
            } else {
                n
            };
            scan_status(s, e + 1, next)
        }
    }
}

#[via_fn]
proof fn scan_status_decreases(s: Seq<char>, a: int, n: NodeView) {
    if 0 <= a < s.len() {
        lemma_line_end_bounds(s, a);
    }
}

/// The record that the status text `text` gives for `pid`, if it is readable:
/// fields that the text does not set keep the values of [`blank_node`].
pub open spec fn status_record(pid: i32, text: Seq<char>) -> Option<NodeView> {
    scan_status(text, 0, NodeView { pid, ..blank_node() })
}

/// The state code `s[p..q]` read as a state.
fn state_at(s: &Vec<char>, p: usize, q: usize) -> (r: ProcessState)
    requires
        p <= q <= s.len(),
    ensures
        r == state_of(s@.subrange(p as int, q as int)),
{
    proof {
        reveal_strlit("R");
        reveal_strlit("S");
        reveal_strlit("Z");
        reveal_strlit("T");
        reveal_strlit("X");
        assert("R"@ =~= seq!['R']);
        assert("S"@ =~= seq!['S']);
        assert("Z"@ =~= seq!['Z']);
        assert("T"@ =~= seq!['T']);
        assert("X"@ =~= seq!['X']);
    }
    if field_is(s, p, q, "R") {
        ProcessState::Running
    } else if field_is(s, p, q, "S") {
        ProcessState::Sleeping
    } else if field_is(s, p, q, "Z") {
        ProcessState::Zombie
    } else if field_is(s, p, q, "T") {
        ProcessState::TracingStop
    } else if field_is(s, p, q, "X") {
        ProcessState::Dead
    } else {
        ProcessState::Idle
    }
}

/// Reads the record of `pid` from the text of its status descriptor, or
/// `None` when its parent pid field holds no `i32`.
pub fn parse_status(pid: i32, text: &str) -> (r: Option<ProcessNode>)
    ensures
        r is Some <==> status_record(pid, text@) is Some,
        r is Some ==> r->Some_0@ == status_record(pid, text@)->Some_0,
{
    let s = chars_of(text);
    let mut node = ProcessNode::new();
    node.pid = pid;
    let ghost start = node@;
    assert(start == NodeView { pid, ..blank_node() });
    let mut a: usize = 0;
    while a < s.len()
        invariant
            s@ == text@,
            start == (NodeView { pid, ..blank_node() }),
            a <= s.len(),
            scan_status(s@, a as int, node@) == scan_status(s@, 0, start),
        decreases s.len() - a,
    {
        let ghost before = node@;
        let e = line_end_at(&s, a);
        let label_at = skip_spaces_at(&s, a, e);
        let label_end = word_end_at(&s, label_at, e);
        let value_at = skip_spaces_at(&s, label_end, e);
        let value_end = word_end_at(&s, value_at, e);
        if value_at < e && field_is(&s, label_at, label_end, "PPid:") {
            match parse_i32_at(&s, value_at, value_end) {
                Some(v) => {
                    node.ppid = v;
                    assert(scan_status(s@, a as int, before) == Some(node@));
                    return Some(node);
                },
                None => {
                    assert(scan_status(s@, a as int, before) is None);
                    return None;
                },
            }
        }
        if value_at < e && field_is(&s, label_at, label_end, "Name:") {
            node.name = <String as StringExecFns>::from_str(text.substring_char(value_at, value_end));
        } else if value_at < e && field_is(&s, label_at, label_end, "State:") {
            node.state = state_at(&s, value_at, value_end);
        }
        proof {
            assert(scan_status(s@, a as int, before) == scan_status(s@, e + 1, node@));
        }
        if e < s.len() {
            a = e + 1;
        } else {
            a = e;
        }
    }
    Some(node)
}

} // verus!
