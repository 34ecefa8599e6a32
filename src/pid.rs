//! Recognising process ids among directory names.
use vstd::prelude::*;

verus! {

/// An ASCII decimal digit.
pub open spec fn is_digit(b: u8) -> bool {
    48u8 <= b <= 57u8
}

/// Every byte of `s` is an ASCII decimal digit.
pub open spec fn all_digits(s: Seq<u8>) -> bool {
    forall|i: int| 0 <= i < s.len() ==> is_digit(#[trigger] s[i])
}

/// The value of `s` read as an unsigned decimal number.
pub open spec fn digits_value(s: Seq<u8>) -> int
    decreases s.len(),
{
    if s.len() == 0 {
        0
    } else {
        digits_value(s.drop_last()) * 10 + (s.last() - 48u8)
    }
}

/// The process id that the name `s` stands for, if any: a non-empty run of at
/// most ten decimal digits whose value is positive and fits an `i32`.
pub open spec fn pid_of(s: Seq<u8>) -> Option<i32> {
    if 1 <= s.len() <= 10 && all_digits(s) && 0 < digits_value(s) <= i32::MAX {
        Some(digits_value(s) as i32)
    } else {
        None
    }
}

/// A longer prefix of a run of digits never has a smaller value.
proof fn lemma_prefix_value_grows(s: Seq<u8>, j: int, k: int)
    requires
        0 <= j <= k <= s.len(),
        all_digits(s.subrange(0, k)),
    ensures
        0 <= digits_value(s.subrange(0, j)) <= digits_value(s.subrange(0, k)),
    decreases k,
{
    if k > 0 {
        let p = s.subrange(0, k);
        assert(p.drop_last() =~= s.subrange(0, k - 1));
        assert(is_digit(p[k - 1]));
        assert(all_digits(s.subrange(0, k - 1))) by {
            assert forall|i: int| 0 <= i < k - 1 implies is_digit(
                #[trigger] s.subrange(0, k - 1)[i],
            ) by {
                assert(s.subrange(0, k - 1)[i] == p[i]);
            }
        }
        if j < k {
            lemma_prefix_value_grows(s, j, k - 1);
        } else {
            lemma_prefix_value_grows(s, k - 1, k - 1);
        }
    } else {
        assert(s.subrange(0, j).len() == 0);
    }
}

/// Reads a directory name as a process id, or returns `None` when the name is
/// not one. Accumulation uses checked arithmetic, so an overflow is a `None`.
pub fn parse_pid_from_bytes(bytes: &[u8]) -> (r: Option<i32>)
    ensures
        r == pid_of(bytes@),
{
    if bytes.len() == 0 || bytes.len() > 10 {
        return None;
    }
    let mut result: i32 = 0;
    let mut i: usize = 0;
    while i < bytes.len()
        invariant
            1 <= bytes.len() <= 10,
            0 <= i <= bytes.len(),
            all_digits(bytes@.subrange(0, i as int)),
            result as int == digits_value(bytes@.subrange(0, i as int)),
            result >= 0,
        decreases bytes.len() - i,
    {
        let b = bytes[i];
        let prefix = Ghost(bytes@.subrange(0, i as int));
        let next = Ghost(bytes@.subrange(0, i as int + 1));
        proof {
            assert(next@.drop_last() =~= prefix@);
            assert(next@.last() == b);
        }
        if !(48u8 <= b && b <= 57u8) {
            proof {
                assert(!all_digits(bytes@)) by {
                    assert(!is_digit(bytes@[i as int]));
                }
            }
            return None;
        }
        proof {
            assert(all_digits(next@)) by {
                assert forall|j: int| 0 <= j < i + 1 implies is_digit(#[trigger] next@[j]) by {
                    if j < i {
                        assert(next@[j] == prefix@[j]);
                    }
                }
            }
        }
        let step = result.checked_mul(10);
        match step {
            None => {
                proof { lemma_overflow_is_final(bytes@, i as int + 1); }
                return None;
            }
            Some(t) => {
                match t.checked_add((b - 48u8) as i32) {
                    None => {
                        proof { lemma_overflow_is_final(bytes@, i as int + 1); }
                        return None;
                    }
                    Some(v) => {
                        result = v;
                    }
                }
            }
        }
        i = i + 1;
    }
    proof {
        assert(bytes@.subrange(0, bytes@.len() as int) =~= bytes@);
    }
    if result == 0 {
        None
    } else {
        Some(result)
    }
}

/// Once a prefix of digits exceeds `i32::MAX`, the whole name is no process id.
proof fn lemma_overflow_is_final(s: Seq<u8>, k: int)
    requires
        0 < k <= s.len(),
        all_digits(s.subrange(0, k)),
        digits_value(s.subrange(0, k)) > i32::MAX,
    ensures
        pid_of(s) is None,
{
    if all_digits(s) {
        assert(s.subrange(0, s.len() as int) =~= s);
        lemma_prefix_value_grows(s, k, s.len() as int);
    }
}

} // verus!
