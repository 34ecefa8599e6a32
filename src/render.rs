//! The text rendition of a process tree, one line per process.
use crate::process::{NodeView, ProcessNode};
use std::collections::HashMap;
use vstd::prelude::*;
use vstd::string::StringExecFns;

verus! {

broadcast use vstd::std_specs::hash::group_hash_axioms;

/// The decimal digit character for `d`.
pub open spec fn digit_char(d: nat) -> char {
    seq!['0', '1', '2', '3', '4', '5', '6', '7', '8', '9'][d as int]
}

/// The decimal digits of `n`, without leading zeros.
pub open spec fn digits_of(n: nat) -> Seq<char>
    decreases n,
{
    if n < 10 {
        seq![digit_char(n)]
    } else {
        digits_of(n / 10).push(digit_char(n % 10))
    }
}

/// `n` written in decimal, with a leading `-` when negative.
pub open spec fn decimal(n: int) -> Seq<char> {
    if n < 0 {
        seq!['-'] + digits_of((-n) as nat)
    } else {
        digits_of(n as nat)
    }
}

/// The digit character for `d`, as text.
fn digit_text(d: u32) -> (r: &'static str)
    requires
        d < 10,
    ensures
        r@ == seq![digit_char(d as nat)],
{
    if d == 0 {
        proof {
            reveal_strlit("0");
        }
        assert("0"@ =~= seq![digit_char(0)]);
        "0"
    } else if d == 1 {
        proof {
            reveal_strlit("1");
        }
        assert("1"@ =~= seq![digit_char(1)]);
        "1"
    } else if d == 2 {
        proof {
            reveal_strlit("2");
        }
        assert("2"@ =~= seq![digit_char(2)]);
        "2"
    } else if d == 3 {
        proof {
            reveal_strlit("3");
        }
        assert("3"@ =~= seq![digit_char(3)]);
        "3"
    } else if d == 4 {
        proof {
            reveal_strlit("4");
        }
        assert("4"@ =~= seq![digit_char(4)]);
        "4"
    } else if d == 5 {
        proof {
            reveal_strlit("5");
        }
        assert("5"@ =~= seq![digit_char(5)]);
        "5"
    } else if d == 6 {
        proof {
            reveal_strlit("6");
        }
        assert("6"@ =~= seq![digit_char(6)]);
        "6"
    } else if d == 7 {
        proof {
            reveal_strlit("7");
        }
        assert("7"@ =~= seq![digit_char(7)]);
        "7"
    } else if d == 8 {
        proof {
            reveal_strlit("8");
        }
        assert("8"@ =~= seq![digit_char(8)]);
        "8"
    } else if d == 9 {
        proof {
            reveal_strlit("9");
        }
        assert("9"@ =~= seq![digit_char(9)]);
        "9"
    } else {
        proof {
            reveal_strlit("9");
        }
        assert("9"@ =~= seq![digit_char(9)]);
        "9"
    }
}

/// Appends the decimal digits of `n` to `out`.
fn push_digits(n: u32, out: &mut String)
    ensures
        final(out)@ == old(out)@ + digits_of(n as nat),
    decreases n,
{
    if n >= 10 {
        push_digits(n / 10, out);
    }
    out.append(digit_text(n % 10));
    assert(out@ =~= old(out)@ + digits_of(n as nat));
}

/// `n` in decimal, with a leading `-` when negative.
fn decimal_text(n: i32) -> (r: String)
    ensures
        r@ == decimal(n as int),
{
    let mut out = String::new();
    if n < 0 {
        out.append("-");
        proof {
            reveal_strlit("-");
        }
        let m: u32 = (0i64 - n as i64) as u32;
        push_digits(m, &mut out);
        assert(out@ =~= decimal(n as int));
    } else {
        push_digits(n as u32, &mut out);
        assert(out@ =~= decimal(n as int));
    }
    out
}

/// The tree as a map from pid to the view of its node.
pub open spec fn tree_view(t: Map<i32, ProcessNode>) -> Map<i32, NodeView> {
    t.map_values(|n: ProcessNode| n@)
}

/// The node lists at least one child.
pub open spec fn has_kids(n: NodeView) -> bool {
    n.children is Some && n.children->0.len() > 0
}

/// The line of node `n` at `depth` below the first, after `prefix`: the first
/// line has no connector; a later one has a branching connector when it has
/// children and is not the last sibling, a plain one when it is not the last,
/// and a closing one when it is.
pub open spec fn node_line(n: NodeView, depth: nat, prefix: Seq<char>, is_last: bool) -> Seq<
    char,
> {
    let info = n.name + "("@ + decimal(n.pid as int) + ")"@;
    if depth == 0 {
        prefix + info
    } else if has_kids(n) && !is_last {
        prefix + "├─┬─"@ + info
    } else if !is_last {
        prefix + "├───"@ + info
    } else {
        prefix + "└───"@ + info
    }
}

/// The prefix that the children of a node at `depth` are drawn after.
pub open spec fn child_prefix(depth: nat, prefix: Seq<char>, is_last: bool) -> Seq<char> {
    if depth == 0 {
        prefix + "  "@
    } else if is_last {
        prefix
    } else {
        prefix + "│ "@
    }
}

/// The lines of the subtree of `pid`, depth first, at most `budget` levels
/// deep; nothing for a pid that `t` lacks.
pub open spec fn render(
    t: Map<i32, NodeView>,
    pid: i32,
    depth: nat,
    prefix: Seq<char>,
    is_last: bool,
    budget: nat,
) -> Seq<Seq<char>>
    decreases budget, 0nat,
{
    if budget == 0 || !t.contains_key(pid) {
        seq![]
    } else {
        let n = t[pid];
        let head = seq![node_line(n, depth, prefix, is_last)];
        match n.children {
            None => head,
            Some(ks) => head + render_children(
                t,
                ks,
                0,
                depth + 1,
                child_prefix(depth, prefix, is_last),
                (budget - 1) as nat,
            ),
        }
    }
}

/// The lines of the subtrees of the children `ks` from index `i` on, the last
/// child marked as such.
pub open spec fn render_children(
    t: Map<i32, NodeView>,
    ks: Seq<i32>,
    i: int,
    depth: nat,
    prefix: Seq<char>,
    budget: nat,
) -> Seq<Seq<char>>
    decreases budget, ks.len() - i,
{
    if i < 0 || i >= ks.len() {
        seq![]
    } else {
        render(t, ks[i], depth, prefix, i == ks.len() - 1, budget) + render_children(
            t,
            ks,
            i + 1,
            depth,
            prefix,
            budget,
        )
    }
}

/// The text of each line of `out`.
pub open spec fn lines_view(out: Seq<String>) -> Seq<Seq<char>> {
    out.map_values(|s: String| s@)
}

/// Appending one line to `out` appends its text to the view.
proof fn lemma_lines_push(out: Seq<String>, s: String)
    ensures
        lines_view(out.push(s)) == lines_view(out).push(s@),
{
    assert(lines_view(out.push(s)) =~= lines_view(out).push(s@));
}

/// Builds the line of `node`.
fn line_of(node: &ProcessNode, depth: usize, prefix: &str, is_last: bool) -> (r: String)
    ensures
        r@ == node_line(node@, depth as nat, prefix@, is_last),
{
    let mut line = <String as StringExecFns>::from_str(prefix);
    let has_children = match &node.children {
        Some(v) => v.len() > 0,
        None => false,
    };
    if depth == 0 {
    } else if has_children && !is_last {
        line.append("├─┬─");
    } else if !is_last {
        line.append("├───");
    } else {
        line.append("└───");
    }
    line.append(node.name.as_str());
    line.append("(");
    let num = decimal_text(node.pid);
    line.append(num.as_str());
    line.append(")");
    proof {
        let info = node@.name + "("@ + decimal(node.pid as int) + ")"@;
        if depth == 0 {
            assert(line@ =~= prefix@ + info);
        } else if has_kids(node@) && !is_last {
            assert(line@ =~= prefix@ + "├─┬─"@ + info);
        } else if !is_last {
            assert(line@ =~= prefix@ + "├───"@ + info);
        } else {
            assert(line@ =~= prefix@ + "└───"@ + info);
        }
    }
    line
}

/// Appends to `out` the lines of the subtree of `pid`, at most `budget`
/// levels deep: its own line, then those of its children in the order the
/// tree holds them, the last child marked as the last.
pub fn render_subtree(
    tree: &HashMap<i32, ProcessNode>,
    pid: i32,
    depth: usize,
    prefix: &str,
    is_last: bool,
    budget: usize,
    out: &mut Vec<String>,
)
    requires
        depth + budget <= usize::MAX,
    ensures
        lines_view(final(out)@) == lines_view(old(out)@) + render(
            tree_view(tree@),
            pid,
            depth as nat,
            prefix@,
            is_last,
            budget as nat,
        ),
    decreases budget,
{
    let ghost t = tree_view(tree@);
    let ghost start = lines_view(out@);
    if budget == 0 {
        assert(lines_view(out@) =~= start + Seq::<Seq<char>>::empty());
        return;
    }
    let node = match tree.get(&pid) {
        Some(n) => n,
        None => {
            assert(lines_view(out@) =~= start + Seq::<Seq<char>>::empty());
            return;
        },
    };
    proof {
        assert(t.contains_key(pid) && t[pid] == node@);
    }
    let line = line_of(node, depth, prefix, is_last);
    proof {
        lemma_lines_push(out@, line);
    }
    out.push(line);
    let ghost head = seq![node_line(node@, depth as nat, prefix@, is_last)];
    assert(lines_view(out@) =~= start + head);
    match &node.children {
        None => {},
        Some(ks) => {
            let mut new_prefix = <String as StringExecFns>::from_str(prefix);
            if depth == 0 {
                new_prefix.append("  ");
            } else if !is_last {
                new_prefix.append("│ ");
            }
            assert(new_prefix@ == child_prefix(depth as nat, prefix@, is_last));
            let ghost cp = new_prefix@;
            let ghost nb = (budget - 1) as nat;
            let mut i: usize = 0;
            while i < ks.len()
                invariant
                    0 <= i <= ks.len(),
                    t == tree_view(tree@),
                    new_prefix@ == cp,
                    depth + budget <= usize::MAX,
                    budget >= 1,
                    nb == budget - 1,
                    lines_view(out@) + render_children(t, ks@, i as int, (depth + 1) as nat, cp, nb)
                        == start + head + render_children(t, ks@, 0, (depth + 1) as nat, cp, nb),
                decreases ks.len() - i,
            {
                let ghost before = lines_view(out@);
                render_subtree(
                    tree,
                    ks[i],
                    depth + 1,
                    new_prefix.as_str(),
                    i == ks.len() - 1,
                    budget - 1,
                    out,
                );
                proof {
                    let sub = render(t, ks@[i as int], (depth + 1) as nat, cp, i == ks.len() - 1, nb);
                    let rest = render_children(t, ks@, i + 1, (depth + 1) as nat, cp, nb);
                    assert(render_children(t, ks@, i as int, (depth + 1) as nat, cp, nb) == sub + rest);
                    assert(before + (sub + rest) =~= (before + sub) + rest);
                }
                i = i + 1;
            }
            assert(lines_view(out@) =~= lines_view(out@) + render_children(
                t,
                ks@,
                ks@.len() as int,
                (depth + 1) as nat,
                cp,
                nb,
            ));
        },
    }
}

/// The lines of the whole tree below `pid`, drawn from the top with `pid`'s
/// line first; no path is followed deeper than the tree has nodes.
pub fn tree_lines(tree: &HashMap<i32, ProcessNode>, pid: i32) -> (r: Vec<String>)
    ensures
        lines_view(r@) == render(tree_view(tree@), pid, 0, Seq::<char>::empty(), true, tree@.len()),
{
    let mut out: Vec<String> = Vec::new();
    assert(lines_view(out@) =~= Seq::<Seq<char>>::empty());
    proof {
        reveal_strlit("");
    }
    render_subtree(tree, pid, 0, "", true, tree.len(), &mut out);
    assert(lines_view(out@) =~= Seq::<Seq<char>>::empty() + render(
        tree_view(tree@),
        pid,
        0,
        Seq::<char>::empty(),
        true,
        tree@.len(),
    ));
    out
}

} // verus!
