//! Parsing the text of a PID file: an optional leading `+` or `-`
//! followed by one or more decimal digits, the whole text and nothing
//! else, within the range of an `i32`.

use vstd::prelude::*;
use vstd::string::*;

verus! {

/// A decimal digit.
pub open spec fn is_digit(c: char) -> bool {
    '0' <= c && c <= '9'
}

/// The numeric value of one digit.
pub open spec fn digit_value(c: char) -> int {
    c as int - '0' as int
}

/// Every character of `t` is a decimal digit.
pub open spec fn all_digits(t: Seq<char>) -> bool {
    forall|i: int| 0 <= i < t.len() ==> is_digit(t[i])
}

/// The value of a digit string, most significant digit first.
pub open spec fn digits_value(t: Seq<char>) -> int
    decreases t.len(),
{
    if t.len() == 0 {
        0
    } else {
        digits_value(t.drop_last()) * 10 + digit_value(t.last())
    }
}

/// The digit part of a pid text: what follows an optional leading sign.
pub open spec fn pid_digits(t: Seq<char>) -> Seq<char> {
    if t.len() > 0 && (t[0] == '+' || t[0] == '-') {
        t.skip(1)
    } else {
        t
    }
}

/// Whether the pid text carries a minus sign.
pub open spec fn pid_negative(t: Seq<char>) -> bool {
    t.len() > 0 && t[0] == '-'
}

/// The signed value a pid text denotes.
pub open spec fn pid_value(t: Seq<char>) -> int {
    if pid_negative(t) {
        -digits_value(pid_digits(t))
    } else {
        digits_value(pid_digits(t))
    }
}

/// A pid text is an optional sign, then at least one digit and nothing
/// else, denoting a value that fits an `i32`.
pub open spec fn valid_pid_text(t: Seq<char>) -> bool {
    &&& pid_digits(t).len() >= 1
    &&& all_digits(pid_digits(t))
    &&& i32::MIN <= pid_value(t) <= i32::MAX
}

proof fn lemma_digits_value_nonneg(t: Seq<char>)
    requires
        all_digits(t),
    ensures
        digits_value(t) >= 0,
    decreases t.len(),
{
    if t.len() > 0 {
        assert(all_digits(t.drop_last())) by {
            assert forall|i: int| 0 <= i < t.drop_last().len() implies is_digit(
                t.drop_last()[i],
            ) by {
                assert(t.drop_last()[i] == t[i]);
            }
        }
        lemma_digits_value_nonneg(t.drop_last());
        assert(is_digit(t.last()));
    }
}

/// A digit string is worth at least any of its prefixes.
proof fn lemma_digits_value_mono(t: Seq<char>, k: int)
    requires
        0 <= k <= t.len(),
        all_digits(t),
    ensures
        digits_value(t.take(k)) <= digits_value(t),
    decreases t.len() - k,
{
    if k == t.len() {
        assert(t.take(k) =~= t);
    } else {
        assert(all_digits(t.take(k))) by {
            assert forall|i: int| 0 <= i < t.take(k).len() implies is_digit(t.take(k)[i]) by {
                assert(t.take(k)[i] == t[i]);
            }
        }
        lemma_digits_value_nonneg(t.take(k));
        assert(t.take(k + 1).drop_last() =~= t.take(k));
        assert(t.take(k + 1).last() == t[k]);
        assert(is_digit(t[k]));
        assert(digits_value(t.take(k + 1)) >= digits_value(t.take(k)));
        lemma_digits_value_mono(t, k + 1);
    }
}

/// Parse the text of a PID file.  Returns the process id iff the whole
/// text is a well-formed signed decimal number that fits an `i32`; any
/// other text — empty, a stray character, a sign alone, a value out of
/// range — yields nothing.
pub fn parse_pid(s: &str) -> (r: Option<i32>)
    ensures
        r matches Some(p) ==> valid_pid_text(s@) && p as int == pid_value(s@),
        r is None ==> !valid_pid_text(s@),
{
    let n = s.unicode_len();
    if n == 0 {
        return None;
    }
    let first = s.get_char(0);
    let neg = first == '-';
    let start: usize = if first == '-' || first == '+' {
        1
    } else {
        0
    };
    if start == n {
        return None;
    }
    let ghost digits = pid_digits(s@);
    proof {
        assert(digits =~= s@.skip(start as int));
    }
    let mut acc: u64 = 0;
    let mut i: usize = start;
    while i < n
        invariant
            start <= i <= n,
            n == s@.len() <= usize::MAX,
            digits == pid_digits(s@),
            digits =~= s@.skip(start as int),
            digits.len() == n - start,
            forall|k: int| 0 <= k < i - start ==> is_digit(digits[k]),
            acc == digits_value(digits.take(i - start)),
            acc <= 2147483648,
        decreases n - i,
    {
        let ghost j = i - start;
        let c = s.get_char(i);
        let v = c as u32;
        if v < 48 || v > 57 {
            proof {
                assert(digits[j] == s@[i as int]);
                assert(!is_digit(digits[j]));
                assert(all_digits(digits) ==> is_digit(digits[j]));
            }
            return None;
        }
        let d = v - 48;
        acc = acc * 10 + d as u64;
        proof {
            assert(digits.take(j + 1).drop_last() =~= digits.take(j));
            assert(digits.take(j + 1).last() == digits[j]);
            assert(digits[j] == s@[i as int]);
            assert(is_digit(digits[j]));
            assert(digit_value(digits[j]) == d as int);
        }
        if acc > 2147483648 {
            proof {
                if all_digits(digits) {
                    lemma_digits_value_mono(digits, j + 1);
                }
            }
            return None;
        }
        i = i + 1;
    }
    proof {
        assert(digits.take(n - start) =~= digits);
        assert(all_digits(digits));
        assert(pid_negative(s@) == neg);
    }
    if neg {
        if acc == 2147483648 {
            Some(i32::MIN)
        } else {
            Some(-(acc as i32))
        }
    } else {
        if acc > 2147483647 {
            return None;
        }
        Some(acc as i32)
    }
}

} // verus!
