//! Recognition of signed 32-bit decimal integer literals, the shape that
//! decides whether a declared string parameter is upgraded to an integer.

use vstd::prelude::*;
use vstd::string::*;
use crate::text::{is_digit_char, char_is_digit};

verus! {

/// Every character of `s` is an ASCII decimal digit.
pub open spec fn all_digits(s: Seq<char>) -> bool {
    forall|k: int| 0 <= k < s.len() ==> is_digit_char(#[trigger] s[k])
}

/// The base-10 value of a digit sequence.
pub open spec fn digits_val(s: Seq<char>) -> int
    decreases s.len(),
{
    if s.len() == 0 {
        0
    } else {
        digits_val(s.drop_last()) * 10 + (s.last() as u32 - 48)
    }
}

/// True when `s` parses fully as a base-10 signed 32-bit integer:
/// an optional sign, then one or more digits, with the value in range.
pub open spec fn is_i32_string(s: Seq<char>) -> bool {
    &&& s.len() > 0
    &&& {
        let m = if s[0] == '+' || s[0] == '-' {
            s.drop_first()
        } else {
            s
        };
        &&& m.len() > 0
        &&& all_digits(m)
        &&& (if s[0] == '-' {
            digits_val(m) <= 2147483648
        } else {
            digits_val(m) <= 2147483647
        })
    }
}

/// The value of an all-digit sequence is never negative.
pub proof fn lemma_digits_val_nonneg(t: Seq<char>)
    requires
        all_digits(t),
    ensures
        digits_val(t) >= 0,
    decreases t.len(),
{
    if t.len() > 0 {
        assert(all_digits(t.drop_last())) by {
            assert(forall|k: int|
                0 <= k < t.len() - 1 ==> t.drop_last()[k] == #[trigger] t[k]);
        }
        lemma_digits_val_nonneg(t.drop_last());
    }
}

/// Extending an all-digit sequence on the right never lowers its value.
pub proof fn lemma_digits_val_prefix(t: Seq<char>, i: int)
    requires
        0 <= i <= t.len(),
        all_digits(t),
    ensures
        digits_val(t.subrange(0, i)) <= digits_val(t),
    decreases t.len() - i,
{
    if i < t.len() {
        let p = t.subrange(0, i);
        let q = t.subrange(0, i + 1);
        assert(q.drop_last() =~= p);
        assert(all_digits(p)) by {
            assert(forall|k: int| 0 <= k < i ==> p[k] == #[trigger] t[k]);
        }
        lemma_digits_val_nonneg(p);
        assert(digits_val(q) == digits_val(p) * 10 + (q.last() as u32 - 48));
        assert(digits_val(p) <= digits_val(q));
        lemma_digits_val_prefix(t, i + 1);
    } else {
        assert(t.subrange(0, i) =~= t);
    }
}

/// Executable recognizer matching `is_i32_string`.
pub fn is_int_literal(s: &str) -> (r: bool)
    ensures
        r == is_i32_string(s@),
{
    let n = s.unicode_len();
    if n == 0 {
        return false;
    }
    let c0 = s.get_char(0);
    let start: usize = if c0 == '+' || c0 == '-' {
        1
    } else {
        0
    };
    let ghost m = if c0 == '+' || c0 == '-' {
        s@.drop_first()
    } else {
        s@
    };
    proof {
        assert(m =~= s@.subrange(start as int, n as int));
    }
    if n == start {
        return false;
    }
    let mut acc: u64 = 0;
    let mut i: usize = start;
    while i < n
        invariant
            start <= i <= n,
            n == s@.len(),
            start <= 1,
            (s@[0] == '+' || s@[0] == '-') <==> start == 1,
            start == 1 ==> n >= 1,
            m == s@.subrange(start as int, n as int),
            forall|k: int| start <= k < i ==> is_digit_char(#[trigger] s@[k]),
            acc as int == digits_val(s@.subrange(start as int, i as int)),
            acc <= 2147483648,
        decreases n - i,
    {
        let c = s.get_char(i);
        if !char_is_digit(c) {
            proof {
                let sm = if s@[0] == '+' || s@[0] == '-' {
                    s@.drop_first()
                } else {
                    s@
                };
                assert(sm =~= m);
                assert(m[i - start as int] == s@[i as int]);
                assert(!all_digits(m));
            }
            return false;
        }
        let d: u64 = (c as u32 - 48) as u64;
        let next: u64 = acc * 10 + d;
        proof {
            let p = s@.subrange(start as int, i as int);
            let q = s@.subrange(start as int, i as int + 1);
            assert(q.drop_last() =~= p);
            assert(q.last() == s@[i as int]);
            assert(digits_val(q) == digits_val(p) * 10 + (s@[i as int] as u32 - 48));
        }
        if next > 2147483648 {
            proof {
                if is_i32_string(s@) {
                    let sm = if s@[0] == '+' || s@[0] == '-' {
                        s@.drop_first()
                    } else {
                        s@
                    };
                    assert(sm =~= m);
                    assert(all_digits(m));
                    let q = s@.subrange(start as int, i as int + 1);
                    assert(q =~= m.subrange(0, i as int + 1 - start));
                    lemma_digits_val_prefix(m, i as int + 1 - start);
                    lemma_digits_val_nonneg(m);
                    assert(digits_val(m) >= digits_val(q));
                    assert(false);
                }
            }
            return false;
        }
        acc = next;
        i = i + 1;
    }
    proof {
        let sm = if s@[0] == '+' || s@[0] == '-' {
            s@.drop_first()
        } else {
            s@
        };
        assert(sm =~= m);
        assert(s@.subrange(start as int, n as int) == m);
        assert(all_digits(m)) by {
            assert(forall|k: int|
                0 <= k < m.len() ==> m[k] == #[trigger] s@[k + start as int]);
        }
        assert(acc as int == digits_val(m));
    }
    if c0 == '-' {
        acc <= 2147483648
    } else {
        acc <= 2147483647
    }
}

} // verus!
