//! Process records and the parent-indexed process tree.
use std::collections::HashMap;
use vstd::prelude::*;

verus! {

broadcast use vstd::std_specs::hash::group_hash_axioms;

/// The scheduling state of a process; any code the kernel reports that is not
/// one of the first five is `Idle`.
#[derive(Debug, Clone, Copy, PartialEq, Eq, Structural)]
pub enum ProcessState {
    Running,
    Sleeping,
    Zombie,
    TracingStop,
    Dead,
    Idle,
}

/// One process of a snapshot, and the pids of its children once it stands in
/// a tree (`None` while it has none).
#[derive(Debug, Clone)]
pub struct ProcessNode {
    pub pid: i32,
    pub ppid: i32,
    pub name: String,
    pub state: ProcessState,
    pub children: Option<Vec<i32>>,
}

/// The mathematical value of a [`ProcessNode`].
pub ghost struct NodeView {
    pub pid: i32,
    pub ppid: i32,
    pub name: Seq<char>,
    pub state: ProcessState,
    pub children: Option<Seq<i32>>,
}

/// The view of an optional list of children.
pub open spec fn children_view(c: Option<Vec<i32>>) -> Option<Seq<i32>> {
    match c {
        Some(v) => Some(v@),
        None => None,
    }
}

impl View for ProcessNode {
    type V = NodeView;

    open spec fn view(&self) -> NodeView {
        NodeView {
            pid: self.pid,
            ppid: self.ppid,
            name: self.name@,
            state: self.state,
            children: children_view(self.children),
        }
    }
}

/// The children of `n` with `child` appended.
pub open spec fn with_child(n: NodeView, child: i32) -> NodeView {
    NodeView { children: Some(child_seq(n.children).push(child)), ..n }
}

/// The children listed in `c`, none when `c` is `None`.
pub open spec fn child_seq(c: Option<Seq<i32>>) -> Seq<i32> {
    match c {
        Some(s) => s,
        None => seq![],
    }
}

/// A record for pid 1 with no parent, an empty name, the `Idle` state and no
/// children.
pub open spec fn blank_node() -> NodeView {
    NodeView {
        pid: 1,
        ppid: 0,
        name: Seq::<char>::empty(),
        state: ProcessState::Idle,
        children: None,
    }
}

impl Default for ProcessNode {
    fn default() -> (r: Self)
        ensures
            r@ == blank_node(),
    {
        Self::new()
    }
}

impl ProcessNode {
    /// A record for pid 1 with no parent, an empty name, the `Idle` state and
    /// no children.
    pub fn new() -> (r: Self)
        ensures
            r@ == blank_node(),
    {
        ProcessNode {
            pid: 1,
            ppid: 0,
            name: String::new(),
            state: ProcessState::Idle,
            children: None,
        }
    }

    /// Appends `child` to the children, creating the list if there was none.
    pub fn add_child(&mut self, child: i32)
        ensures
            final(self)@ == with_child(old(self)@, child),
    {
        let mut v = match self.children.take() {
            Some(v) => v,
            None => Vec::new(),
        };
        v.push(child);
        self.children = Some(v);
    }

    /// A copy of the record with the same view.
    pub(crate) fn copy(&self) -> (r: Self)
        ensures
            r@ == self@,
    {
        let children = match &self.children {
            Some(v) => {
                let mut c: Vec<i32> = Vec::new();
                let mut i: usize = 0;
                while i < v.len()
                    invariant
                        0 <= i <= v.len(),
                        c@ == v@.subrange(0, i as int),
                    decreases v.len() - i,
                {
                    c.push(v[i]);
                    i = i + 1;
                }
                proof {
                    assert(v@.subrange(0, v@.len() as int) =~= v@);
                }
                Some(c)
            },
            None => None,
        };
        ProcessNode {
            pid: self.pid,
            ppid: self.ppid,
            name: self.name.clone(),
            state: self.state,
            children,
        }
    }
}

} // verus!
