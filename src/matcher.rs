//! Selecting processes by short name and by shared process group.
use crate::text::{
    chars_of, i32_of, parse_i32_at, skip_fields, skip_spaces, skip_spaces_at, word_end,
    word_end_at,
};
use vstd::prelude::*;

verus! {

broadcast use vstd::seq_lib::group_to_multiset_ensures;

/// The short name in the bytes read from a name descriptor: one trailing line
/// feed is not part of it.
pub open spec fn comm_name(buf: Seq<u8>) -> Seq<u8> {
    if buf.len() > 0 && buf.last() == 10u8 {
        buf.drop_last()
    } else {
        buf
    }
}

/// The pids of `entries`, in order, whose short name is exactly `target`.
pub open spec fn name_hits(entries: Seq<(i32, Vec<u8>)>, target: Seq<u8>) -> Seq<i32>
    decreases entries.len(),
{
    if entries.len() == 0 {
        seq![]
    } else {
        let rest = name_hits(entries.drop_last(), target);
        let e = entries.last();
        if comm_name(e.1@) == target {
            rest.push(e.0)
        } else {
            rest
        }
    }
}

/// Each element of `s` is smaller than the next: sorted, without duplicates.
pub open spec fn strictly_ascending(s: Seq<i32>) -> bool {
    forall|i: int, j: int| 0 <= i < j < s.len() ==> s[i] < s[j]
}

/// `pid` appears in `scan` with a group that `groups` holds.
pub open spec fn in_groups(scan: Seq<(i32, i32)>, groups: Seq<i32>, pid: i32) -> bool {
    exists|j: int| 0 <= j < scan.len() && scan[j].0 == pid && groups.contains(scan[j].1)
}

/// The process group in the text of a stat descriptor: its fifth
/// whitespace-separated field, read as an `i32`.
pub open spec fn stat_group(s: Seq<char>) -> Option<i32> {
    let p = skip_spaces(s, skip_fields(s, 0, 4), s.len() as int);
    let q = word_end(s, p, s.len() as int);
    if p < s.len() {
        i32_of(s.subrange(p, q))
    } else {
        None
    }
}

/// Whether the bytes read from a name descriptor name `target`, byte for byte.
pub fn comm_matches(buf: &[u8], target: &[u8]) -> (r: bool)
    ensures
        r == (comm_name(buf@) == target@),
{
    let n: usize = if buf.len() > 0 && buf[buf.len() - 1] == 10u8 {
        buf.len() - 1
    } else {
        buf.len()
    };
    proof {
        assert(comm_name(buf@) =~= buf@.subrange(0, n as int));
    }
    if n != target.len() {
        return false;
    }
    let mut i: usize = 0;
    while i < n
        invariant
            0 <= i <= n <= buf.len(),
            n == target.len(),
            forall|j: int| 0 <= j < i ==> buf@[j] == target@[j],
        decreases n - i,
    {
        if buf[i] != target[i] {
            return false;
        }
        i = i + 1;
    }
    proof {
        assert(buf@.subrange(0, n as int) =~= target@);
    }
    true
}

/// The pids of the entries whose short name is exactly `target`, in the order
/// of `entries`.
pub fn select_by_name(entries: &[(i32, Vec<u8>)], target: &[u8]) -> (r: Vec<i32>)
    ensures
        r@ == name_hits(entries@, target@),
{
    let mut out: Vec<i32> = Vec::new();
    let mut i: usize = 0;
    while i < entries.len()
        invariant
            0 <= i <= entries.len(),
            out@ == name_hits(entries@.subrange(0, i as int), target@),
        decreases entries.len() - i,
    {
        proof {
            assert(entries@.subrange(0, i as int + 1).drop_last() =~= entries@.subrange(0, i as int));
        }
        if comm_matches(entries[i].1.as_slice(), target) {
            out.push(entries[i].0);
        }
        i = i + 1;
    }
    proof {
        assert(entries@.subrange(0, entries@.len() as int) =~= entries@);
    }
    out
}

/// Reads the process group from the text of a stat descriptor.
pub fn group_field(stat: &str) -> (r: Option<i32>)
    ensures
        r == stat_group(stat@),
{
    let s = chars_of(stat);
    let mut at: usize = 0;
    let mut n: usize = 0;
    while n < 4
        invariant
            s@ == stat@,
            n <= 4,
            at <= s.len(),
            skip_fields(s@, at as int, (4 - n) as nat) == skip_fields(s@, 0, 4),
        decreases 4 - n,
    {
        let p = skip_spaces_at(&s, at, s.len());
        at = word_end_at(&s, p, s.len());
        n = n + 1;
    }
    let p = skip_spaces_at(&s, at, s.len());
    let q = word_end_at(&s, p, s.len());
    if p < s.len() {
        parse_i32_at(&s, p, q)
    } else {
        None
    }
}

/// Relies on `slice::sort_unstable`: the same values, in ascending order.
#[verifier::external_body]
fn sort_ascending(v: &mut Vec<i32>)
    ensures
        final(v)@.to_multiset() == old(v)@.to_multiset(),
        forall|i: int, j: int| 0 <= i < j < final(v)@.len() ==> final(v)@[i] <= final(v)@[j],
{
    v.sort_unstable();
}

/// What `s` with `x` appended holds.
proof fn lemma_push_contains(s: Seq<i32>, x: i32)
    ensures
        forall|y: i32| #[trigger] s.push(x).contains(y) <==> s.contains(y) || y == x,
{
    assert forall|y: i32| #[trigger] s.push(x).contains(y) <==> s.contains(y) || y == x by {
        if s.push(x).contains(y) {
            let k = choose|k: int| 0 <= k < s.push(x).len() && s.push(x)[k] == y;
            if k < s.len() {
                assert(s[k] == y);
            }
        }
        if s.contains(y) {
            let k = choose|k: int| 0 <= k < s.len() && s[k] == y;
            assert(s.push(x)[k] == y);
        }
        if y == x {
            assert(s.push(x)[s.len() as int] == y);
        }
    }
}

/// The values of `v`, sorted, each once.
pub fn sorted_unique(v: Vec<i32>) -> (r: Vec<i32>)
    ensures
        strictly_ascending(r@),
        forall|x: i32| r@.contains(x) <==> v@.contains(x),
{
    let mut v = v;
    let ghost given = v@;
    sort_ascending(&mut v);
    proof {
        assert forall|x: i32| v@.contains(x) <==> given.contains(x) by {
            assert(v@.contains(x) <==> v@.to_multiset().count(x) > 0);
            assert(given.contains(x) <==> given.to_multiset().count(x) > 0);
        }
    }
    let mut out: Vec<i32> = Vec::new();
    let mut i: usize = 0;
    while i < v.len()
        invariant
            0 <= i <= v.len(),
            forall|a: int, b: int| 0 <= a < b < v@.len() ==> v@[a] <= v@[b],
            strictly_ascending(out@),
            i > 0 ==> out@.len() > 0 && out@.last() == v@[i - 1],
            i == 0 ==> out@.len() == 0,
            forall|x: i32| out@.contains(x) <==> v@.subrange(0, i as int).contains(x),
        decreases v.len() - i,
    {
        let x = v[i];
        let ghost old_out = out@;
        if out.len() == 0 || out[out.len() - 1] != x {
            out.push(x);
            proof {
                assert forall|a: int, b: int| 0 <= a < b < out@.len() implies out@[a] < out@[b] by {
                    if b == out@.len() - 1 && a < b {
                        assert(old_out[a] <= old_out.last());
                    }
                }
            }
        }
        proof {
            let pre = v@.subrange(0, i as int);
            assert(v@.subrange(0, i as int + 1) =~= pre.push(x));
            lemma_push_contains(pre, x);
            lemma_push_contains(old_out, x);
            if out@ == old_out {
                assert(old_out[old_out.len() - 1] == x);
            }
        }
        i = i + 1;
    }
    proof {
        assert(v@.subrange(0, v@.len() as int) =~= v@);
    }
    out
}

/// Whether `v` holds `x`.
fn holds(v: &[i32], x: i32) -> (r: bool)
    ensures
        r == v@.contains(x),
{
    let mut i: usize = 0;
    while i < v.len()
        invariant
            0 <= i <= v.len(),
            forall|j: int| 0 <= j < i ==> v@[j] != x,
        decreases v.len() - i,
    {
        if v[i] == x {
            return true;
        }
        i = i + 1;
    }
    false
}

/// The pids of `scan` whose group `groups` holds, sorted, each once.
pub fn group_members(scan: &[(i32, i32)], groups: &[i32]) -> (r: Vec<i32>)
    ensures
        strictly_ascending(r@),
        forall|pid: i32| r@.contains(pid) <==> in_groups(scan@, groups@, pid),
{
    let mut found: Vec<i32> = Vec::new();
    let mut i: usize = 0;
    while i < scan.len()
        invariant
            0 <= i <= scan.len(),
            forall|pid: i32|
                found@.contains(pid) <==> in_groups(scan@.subrange(0, i as int), groups@, pid),
        decreases scan.len() - i,
    {
        let (pid, group) = scan[i];
        let ghost old_found = found@;
        if holds(groups, group) {
            found.push(pid);
        }
        proof {
            lemma_push_contains(old_found, pid);
            let pre = scan@.subrange(0, i as int);
            let post = scan@.subrange(0, i as int + 1);
            assert forall|p: i32| found@.contains(p) <==> in_groups(post, groups@, p) by {
                if in_groups(post, groups@, p) {
                    let j = choose|j: int|
                        0 <= j < post.len() && post[j].0 == p && groups@.contains(post[j].1);
                    if j < i {
                        assert(pre[j] == post[j]);
                        assert(in_groups(pre, groups@, p));
                    }
                }
                if in_groups(pre, groups@, p) {
                    let j = choose|j: int|
                        0 <= j < pre.len() && pre[j].0 == p && groups@.contains(pre[j].1);
                    assert(pre[j] == post[j]);
                }
                if p == pid && groups@.contains(group) {
                    assert(post[i as int] == (pid, group));
                }
            }
        }
        i = i + 1;
    }
    proof {
        assert(scan@.subrange(0, scan@.len() as int) =~= scan@);
    }
    sorted_unique(found)
}

/// The result of matching in group mode, once the name matches `hits` and
/// the groups `hit_groups` read for them are known and `scan` holds the pid
/// and group of each process: every name match, together with every scanned
/// pid in one of those groups, sorted, each once.
pub fn group_match(hits: Vec<i32>, hit_groups: Vec<i32>, scan: &[(i32, i32)]) -> (r: Vec<i32>)
    ensures
        strictly_ascending(r@),
        forall|pid: i32|
            r@.contains(pid) <==> (hits@.contains(pid) || in_groups(scan@, hit_groups@, pid)),
{
    let ghost given = hit_groups@;
    let groups = sorted_unique(hit_groups);
    let mates = group_members(scan, groups.as_slice());
    proof {
        assert forall|pid: i32| mates@.contains(pid) <==> in_groups(scan@, given, pid) by {
            if in_groups(scan@, given, pid) {
                let j = choose|j: int|
                    0 <= j < scan@.len() && scan@[j].0 == pid && given.contains(scan@[j].1);
                assert(groups@.contains(scan@[j].1));
            }
            if in_groups(scan@, groups@, pid) {
                let j = choose|j: int|
                    0 <= j < scan@.len() && scan@[j].0 == pid && groups@.contains(scan@[j].1);
                assert(given.contains(scan@[j].1));
            }
        }
    }
    let mut all = hits;
    let ghost first = all@;
    let mut i: usize = 0;
    while i < mates.len()
        invariant
            0 <= i <= mates.len(),
            all@ == first + mates@.subrange(0, i as int),
        decreases mates.len() - i,
    {
        all.push(mates[i]);
        proof {
            assert(all@ =~= first + mates@.subrange(0, i as int + 1));
        }
        i = i + 1;
    }
    proof {
        assert(mates@.subrange(0, mates@.len() as int) =~= mates@);
        assert forall|pid: i32|
            all@.contains(pid) <==> (first.contains(pid) || mates@.contains(pid)) by {
            if all@.contains(pid) {
                let k = choose|k: int| 0 <= k < all@.len() && all@[k] == pid;
                if k < first.len() {
                    assert(first[k] == pid);
                } else {
                    assert(mates@[k - first.len()] == pid);
                }
            }
            if first.contains(pid) {
                let k = choose|k: int| 0 <= k < first.len() && first[k] == pid;
                assert(all@[k] == pid);
            }
            if mates@.contains(pid) {
                let k = choose|k: int| 0 <= k < mates@.len() && mates@[k] == pid;
                assert(all@[first.len() + k] == pid);
            }
        }
    }
    sorted_unique(all)
}

/// When the entries carry distinct pids, matching by name selects each pid
/// at most once.
pub proof fn lemma_name_hits_distinct(entries: Seq<(i32, Vec<u8>)>, target: Seq<u8>)
    requires
        forall|i: int, j: int|
            0 <= i < j < entries.len() ==> #[trigger] entries[i].0 != #[trigger] entries[j].0,
    ensures
        forall|i: int, j: int|
            0 <= i < j < name_hits(entries, target).len() ==> name_hits(entries, target)[i]
                != name_hits(entries, target)[j],
    decreases entries.len(),
{
    if entries.len() > 0 {
        let rest = entries.drop_last();
        assert forall|i: int, j: int|
            0 <= i < j < rest.len() implies #[trigger] rest[i].0 != #[trigger] rest[j].0 by {
            assert(rest[i] == entries[i] && rest[j] == entries[j]);
        }
        lemma_name_hits_distinct(rest, target);
        lemma_name_match_exact(rest, target);
        let last = entries.last();
        let h = name_hits(rest, target);
        if comm_name(last.1@) != target {
            assert(name_hits(entries, target) == h);
        } else {
            assert(name_hits(entries, target) == h.push(last.0));
            if h.contains(last.0) {
                let k = choose|k: int|
                    0 <= k < rest.len() && rest[k].0 == last.0 && comm_name(rest[k].1@) == target;
                assert(entries[k].0 != entries[entries.len() - 1].0);
            }
            assert forall|i: int, j: int|
                0 <= i < j < h.push(last.0).len() implies h.push(last.0)[i] != h.push(last.0)[j] by {
                if j == h.len() {
                    assert(h[i] == h.push(last.0)[i]);
                }
            }
        }
    }
}

/// Matching by name selects exactly the pids whose short name is the target:
/// a pid is selected if and only if some entry gives it that name, and
/// nothing is selected when no entry has it.
pub proof fn lemma_name_match_exact(entries: Seq<(i32, Vec<u8>)>, target: Seq<u8>)
    ensures
        forall|pid: i32|
            name_hits(entries, target).contains(pid) <==> exists|j: int|
                0 <= j < entries.len() && entries[j].0 == pid && comm_name(entries[j].1@)
                    == target,
        (forall|j: int| 0 <= j < entries.len() ==> comm_name(entries[j].1@) != target)
            ==> name_hits(entries, target).len() == 0,
    decreases entries.len(),
{
    if entries.len() > 0 {
        let rest = entries.drop_last();
        lemma_name_match_exact(rest, target);
        lemma_push_contains(name_hits(rest, target), entries.last().0);
        assert forall|pid: i32|
            name_hits(entries, target).contains(pid) <==> exists|j: int|
                0 <= j < entries.len() && entries[j].0 == pid && comm_name(entries[j].1@)
                    == target by {
            if exists|j: int|
                0 <= j < entries.len() && entries[j].0 == pid && comm_name(entries[j].1@)
                    == target {
                let j = choose|j: int|
                    0 <= j < entries.len() && entries[j].0 == pid && comm_name(entries[j].1@)
                        == target;
                if j < rest.len() {
                    assert(rest[j] == entries[j]);
                }
            }
            if name_hits(rest, target).contains(pid) {
                let j = choose|j: int|
                    0 <= j < rest.len() && rest[j].0 == pid && comm_name(rest[j].1@) == target;
                assert(rest[j] == entries[j]);
            }
        }
        if forall|j: int| 0 <= j < entries.len() ==> comm_name(entries[j].1@) != target {
            assert forall|j: int| 0 <= j < rest.len() implies comm_name(rest[j].1@) != target by {
                assert(rest[j] == entries[j]);
            }
            assert(comm_name(entries[entries.len() - 1].1@) != target);
        }
    }
}

} // verus!
