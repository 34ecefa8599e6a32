//! Whitespace-separated fields and decimal integers in descriptor text.
use vstd::prelude::*;

verus! {

/// A character that `char::is_whitespace` accepts: Unicode `White_Space`.
pub open spec fn is_space(c: char) -> bool {
    let u = c as u32;
    (9 <= u <= 13) || u == 32 || u == 0x85 || u == 0xA0 || u == 0x1680 || (0x2000 <= u
        <= 0x200A) || u == 0x2028 || u == 0x2029 || u == 0x202F || u == 0x205F || u == 0x3000
}

/// The first index from `i` on, below `e`, that holds no whitespace; `e` if none.
pub open spec fn skip_spaces(s: Seq<char>, i: int, e: int) -> int
    decreases e - i,
{
    if i >= e {
        e
    } else if is_space(s[i]) {
        skip_spaces(s, i + 1, e)
    } else {
        i
    }
}

/// The first index from `i` on, below `e`, that holds whitespace; `e` if none.
pub open spec fn word_end(s: Seq<char>, i: int, e: int) -> int
    decreases e - i,
{
    if i >= e {
        e
    } else if is_space(s[i]) {
        i
    } else {
        word_end(s, i + 1, e)
    }
}

/// The index of the first line feed from `i` on; the length if none.
pub open spec fn line_end(s: Seq<char>, i: int) -> int
    decreases s.len() - i,
{
    if i >= s.len() {
        s.len() as int
    } else if s[i] == '\n' {
        i
    } else {
        line_end(s, i + 1)
    }
}

/// A line ends at or after where it starts, and within the text.
pub proof fn lemma_line_end_bounds(s: Seq<char>, i: int)
    requires
        0 <= i <= s.len(),
    ensures
        i <= line_end(s, i) <= s.len(),
    decreases s.len() - i,
{
    if i < s.len() && s[i] != '\n' {
        lemma_line_end_bounds(s, i + 1);
    }
}

/// Where `n` whitespace-separated fields have been passed, reading from `i`.
pub open spec fn skip_fields(s: Seq<char>, i: int, n: nat) -> int
    decreases n,
{
    if n == 0 {
        i
    } else {
        skip_fields(s, word_end(s, skip_spaces(s, i, s.len() as int), s.len() as int), (n - 1) as nat)
    }
}

/// An ASCII decimal digit.
pub open spec fn is_dec(c: char) -> bool {
    '0' <= c <= '9'
}

/// Every character of `t` is an ASCII decimal digit.
pub open spec fn all_dec(t: Seq<char>) -> bool {
    forall|i: int| 0 <= i < t.len() ==> is_dec(#[trigger] t[i])
}

/// The value of `t` read as an unsigned decimal number.
pub open spec fn dec_value(t: Seq<char>) -> int
    decreases t.len(),
{
    if t.len() == 0 {
        0
    } else {
        dec_value(t.drop_last()) * 10 + (t.last() as u32 - 48)
    }
}

/// The integer that `t` writes, as `str::parse::<i32>` reads it: an optional
/// `+` or `-`, then one or more decimal digits, with a value in `i32`'s range.
pub open spec fn i32_of(t: Seq<char>) -> Option<i32> {
    let signed = t.len() > 0 && (t[0] == '+' || t[0] == '-');
    let digits = if signed {
        t.drop_first()
    } else {
        t
    };
    let v = if signed && t[0] == '-' {
        -dec_value(digits)
    } else {
        dec_value(digits)
    };
    if digits.len() > 0 && all_dec(digits) && i32::MIN <= v <= i32::MAX {
        Some(v as i32)
    } else {
        None
    }
}

/// Relies on `str::chars`: the characters of `s`, in order.
#[verifier::external_body]
pub(crate) fn chars_of(s: &str) -> (r: Vec<char>)
    ensures
        r@ == s@,
{
    s.chars().collect()
}

/// Whether `c` is whitespace.
pub fn space(c: char) -> (r: bool)
    ensures
        r == is_space(c),
{
    let u = c as u32;
    (9 <= u && u <= 13) || u == 32 || u == 0x85 || u == 0xA0 || u == 0x1680 || (0x2000 <= u && u
        <= 0x200A) || u == 0x2028 || u == 0x2029 || u == 0x202F || u == 0x205F || u == 0x3000
}

/// The executable form of [`skip_spaces`].
pub fn skip_spaces_at(s: &Vec<char>, i: usize, e: usize) -> (r: usize)
    requires
        i <= e <= s.len(),
    ensures
        r == skip_spaces(s@, i as int, e as int),
        i <= r <= e,
{
    let mut j = i;
    while j < e && space(s[j])
        invariant
            i <= j <= e <= s.len(),
            skip_spaces(s@, j as int, e as int) == skip_spaces(s@, i as int, e as int),
        decreases e - j,
    {
        j = j + 1;
    }
    j
}

/// The executable form of [`word_end`].
pub fn word_end_at(s: &Vec<char>, i: usize, e: usize) -> (r: usize)
    requires
        i <= e <= s.len(),
    ensures
        r == word_end(s@, i as int, e as int),
        i <= r <= e,
{
    let mut j = i;
    while j < e && !space(s[j])
        invariant
            i <= j <= e <= s.len(),
            word_end(s@, j as int, e as int) == word_end(s@, i as int, e as int),
        decreases e - j,
    {
        j = j + 1;
    }
    j
}

/// The executable form of [`line_end`].
pub fn line_end_at(s: &Vec<char>, i: usize) -> (r: usize)
    requires
        i <= s.len(),
    ensures
        r == line_end(s@, i as int),
        i <= r <= s.len(),
{
    let mut j = i;
    while j < s.len() && s[j] != '\n'
        invariant
            i <= j <= s.len(),
            line_end(s@, j as int) == line_end(s@, i as int),
        decreases s.len() - j,
    {
        j = j + 1;
    }
    j
}

/// A longer prefix of a run of digits never has a smaller value.
proof fn lemma_dec_prefix_grows(t: Seq<char>, j: int, k: int)
    requires
        0 <= j <= k <= t.len(),
        all_dec(t.subrange(0, k)),
    ensures
        0 <= dec_value(t.subrange(0, j)) <= dec_value(t.subrange(0, k)),
    decreases k,
{
    if k > 0 {
        let p = t.subrange(0, k);
        assert(p.drop_last() =~= t.subrange(0, k - 1));
        assert(is_dec(p[k - 1]));
        assert(all_dec(t.subrange(0, k - 1))) by {
            assert forall|i: int| 0 <= i < k - 1 implies is_dec(
                #[trigger] t.subrange(0, k - 1)[i],
            ) by {
                assert(t.subrange(0, k - 1)[i] == p[i]);
            }
        }
        if j < k {
            lemma_dec_prefix_grows(t, j, k - 1);
        } else {
            lemma_dec_prefix_grows(t, k - 1, k - 1);
        }
    } else {
        assert(t.subrange(0, j).len() == 0);
    }
}

/// Reads the characters `s[p..q]` as `str::parse::<i32>` would.
pub fn parse_i32_at(s: &Vec<char>, p: usize, q: usize) -> (r: Option<i32>)
    requires
        p <= q <= s.len(),
    ensures
        r == i32_of(s@.subrange(p as int, q as int)),
{
    let ghost t = s@.subrange(p as int, q as int);
    if p == q {
        return None;
    }
    let negative = s[p] == '-';
    let start: usize = if s[p] == '+' || s[p] == '-' {
        p + 1
    } else {
        p
    };
    let ghost digits = s@.subrange(start as int, q as int);
    proof {
        assert(t[0] == s@[p as int]);
        if start == p + 1 {
            assert(t.drop_first() =~= digits);
        } else {
            assert(t =~= digits);
        }
    }
    if start == q {
        return None;
    }
    let mut acc: i64 = 0;
    let mut k: usize = start;
    while k < q
        invariant
            p <= start <= k <= q <= s.len(),
            start == p || start == p + 1,
            digits == s@.subrange(start as int, q as int),
            t == s@.subrange(p as int, q as int),
            t.len() > 0,
            negative == (t[0] == '-'),
            (t[0] == '+' || t[0] == '-') <==> start == p + 1,
            start == p + 1 ==> t.drop_first() == digits,
            start == p ==> t == digits,
            all_dec(digits.subrange(0, k - start)),
            acc as int == dec_value(digits.subrange(0, k - start)),
            0 <= acc <= 2147483648,
        decreases q - k,
    {
        let c = s[k];
        let ghost before = digits.subrange(0, k - start);
        let ghost after = digits.subrange(0, k - start + 1);
        proof {
            assert(after.drop_last() =~= before);
            assert(after.last() == c);
            assert(digits[k - start] == c);
        }
        if !('0' <= c && c <= '9') {
            proof {
                assert(!is_dec(digits[k - start]));
                assert(!all_dec(digits));
                assert(i32_of(t) is None);
            }
            return None;
        }
        proof {
            assert(all_dec(after)) by {
                assert forall|j: int| 0 <= j < k - start + 1 implies is_dec(#[trigger] after[j]) by {
                    if j < k - start {
                        assert(after[j] == before[j]);
                    }
                }
            }
        }
        acc = acc * 10 + (c as u32 - 48) as i64;
        if acc > 2147483648 {
            proof {
                if all_dec(digits) {
                    assert(digits.subrange(0, digits.len() as int) =~= digits);
                    lemma_dec_prefix_grows(digits, k - start + 1, digits.len() as int);
                    assert(dec_value(digits) > 2147483648);
                }
                assert(i32_of(t) is None);
            }
            return None;
        }
        k = k + 1;
    }
    proof {
        assert(digits.subrange(0, digits.len() as int) =~= digits);
    }
    if negative {
        Some((0 - acc) as i32)
    } else if acc <= 2147483647 {
        Some(acc as i32)
    } else {
        None
    }
}

/// Whether `s[p..q]` is exactly the text `lit`.
pub fn field_is(s: &Vec<char>, p: usize, q: usize, lit: &str) -> (r: bool)
    requires
        p <= q <= s.len(),
    ensures
        r == (s@.subrange(p as int, q as int) == lit@),
{
    let n = lit.unicode_len();
    if q - p != n {
        return false;
    }
    let mut i: usize = 0;
    while i < n
        invariant
            0 <= i <= n,
            n == lit@.len(),
            q - p == n,
            p <= q <= s.len(),
            forall|j: int| 0 <= j < i ==> s@[p + j] == lit@[j],
        decreases n - i,
    {
        if s[p + i] != lit.get_char(i) {
            return false;
        }
        i = i + 1;
    }
    proof {
        assert(s@.subrange(p as int, q as int) =~= lit@);
    }
    true
}

/// Whether `a` and `b` hold the same characters.
pub fn same_text(a: &str, b: &str) -> (r: bool)
    ensures
        r == (a@ == b@),
{
    let n = a.unicode_len();
    if n != b.unicode_len() {
        return false;
    }
    let mut i: usize = 0;
    while i < n
        invariant
            0 <= i <= n,
            n == a@.len(),
            n == b@.len(),
            forall|j: int| 0 <= j < i ==> a@[j] == b@[j],
        decreases n - i,
    {
        if a.get_char(i) != b.get_char(i) {
            return false;
        }
        i = i + 1;
    }
    proof {
        assert(a@ =~= b@);
    }
    true
}

} // verus!
