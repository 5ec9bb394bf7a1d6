//! Interpretation of the command-line worker-count argument.
//!
//! The scanner takes the worker count as a string. A string of decimal
//! digits, with one optional leading plus sign as the standard integer
//! parser accepts, gives that count, clamped up to at least one worker;
//! anything else (empty, non-numeric, or too large for `usize`) falls back
//! to the default of ten workers, as a warning-and-continue policy rather
//! than a failure of the whole run.

use vstd::prelude::*;

verus! {

/// Worker count used when the argument cannot be read as a number.
pub const DEFAULT_WORKER_COUNT: usize = 10;

pub open spec fn is_decimal_digit(c: char) -> bool {
    '0' <= c && c <= '9'
}

pub open spec fn digit_value(c: char) -> int {
    c as int - '0' as int
}

pub open spec fn all_decimal_digits(s: Seq<char>) -> bool {
    forall|i: int| 0 <= i < s.len() ==> is_decimal_digit(#[trigger] s[i])
}

/// The digit part of a number argument: everything after one optional
/// leading plus sign.
pub open spec fn digits_part(s: Seq<char>) -> Seq<char> {
    if s.len() > 0 && s[0] == '+' {
        s.drop_first()
    } else {
        s
    }
}

/// The number denoted by a string of decimal digits, most significant first.
pub open spec fn decimal_value(s: Seq<char>) -> int
    decreases s.len(),
{
    if s.len() == 0 {
        0
    } else {
        decimal_value(s.drop_last()) * 10 + digit_value(s.last())
    }
}

proof fn lemma_decimal_value_nonneg(s: Seq<char>)
    requires
        all_decimal_digits(s),
    ensures
        decimal_value(s) >= 0,
    decreases s.len(),
{
    if s.len() > 0 {
        assert(all_decimal_digits(s.drop_last()));
        lemma_decimal_value_nonneg(s.drop_last());
    }
}

/// Appending further digits never decreases the denoted number.
proof fn lemma_decimal_value_prefix(s: Seq<char>, j: int)
    requires
        all_decimal_digits(s),
        0 <= j <= s.len(),
    ensures
        decimal_value(s) >= decimal_value(s.take(j)),
    decreases s.len() - j,
{
    if j == s.len() {
        assert(s.take(j) =~= s);
    } else {
        assert(s.take(j + 1).drop_last() =~= s.take(j));
        assert(s.take(j + 1).last() == s[j]);
        assert(all_decimal_digits(s.take(j)));
        lemma_decimal_value_nonneg(s.take(j));
        lemma_decimal_value_prefix(s, j + 1);
    }
}

/// Reads a string as a `usize` the way the standard integer parser does:
/// one optional leading plus sign, then decimal digits.
///
/// Returns `Some` exactly when the digit part is non-empty, consists of
/// digits only, and denotes a value that fits in `usize`.
pub fn parse_usize(s: &str) -> (r: Option<usize>)
    ensures
        r is Some <==> (digits_part(s@).len() > 0 && all_decimal_digits(digits_part(s@))
            && decimal_value(digits_part(s@)) <= usize::MAX),
        r matches Some(v) ==> v == decimal_value(digits_part(s@)),
{
    let len = s.unicode_len();
    let mut start: usize = 0;
    if len > 0 && s.get_char(0) == '+' {
        start = 1;
    }
    let ghost d = digits_part(s@);
    proof {
        assert(d =~= s@.skip(start as int));
    }
    if start == len {
        // The empty string, or a bare plus sign: no digits at all.
        return None;
    }
    let mut i: usize = start;
    let mut acc: usize = 0;
    while i < len
        invariant
            start <= i <= len,
            len == s@.len(),
            start <= 1,
            d == digits_part(s@),
            d =~= s@.skip(start as int),
            all_decimal_digits(d.take(i as int - start as int)),
            acc == decimal_value(d.take(i as int - start as int)),
        decreases len - i,
    {
        let c = s.get_char(i);
        proof {
            assert(d[i as int - start as int] == s@[i as int]);
        }
        if c < '0' || c > '9' {
            assert(!is_decimal_digit(d[i as int - start as int]));
            return None;
        }
        let dv = (c as u32 - '0' as u32) as usize;
        if acc > (usize::MAX - dv) / 10 {
            proof {
                assert(d.take(i as int - start as int + 1).drop_last() =~= d.take(
                    i as int - start as int,
                ));
                assert(d.take(i as int - start as int + 1).last() == d[i as int - start as int]);
                assert(decimal_value(d.take(i as int - start as int + 1)) > usize::MAX);
                if all_decimal_digits(d) {
                    lemma_decimal_value_prefix(d, i as int - start as int + 1);
                }
            }
            return None;
        }
        acc = acc * 10 + dv;
        proof {
            assert(d.take(i as int - start as int + 1).drop_last() =~= d.take(
                i as int - start as int,
            ));
        }
        i = i + 1;
    }
    proof {
        assert(d.take(len as int - start as int) =~= d);
    }
    Some(acc)
}

/// The worker count chosen for a given argument string: the denoted number,
/// clamped up to 1, where the string is numeric and in range; the default of
/// 10 otherwise.
pub open spec fn chosen_worker_count(s: Seq<char>) -> int {
    if digits_part(s).len() > 0 && all_decimal_digits(digits_part(s)) && decimal_value(
        digits_part(s),
    ) <= usize::MAX {
        if decimal_value(digits_part(s)) >= 1 {
            decimal_value(digits_part(s))
        } else {
            1
        }
    } else {
        10 as int
    }
}

/// Resolves the worker-count argument: numeric input gives that many
/// workers (at least one); non-numeric input falls back to the default.
pub fn parse_worker_count(s: &str) -> (n: usize)
    ensures
        n == chosen_worker_count(s@),
        n >= 1,
{
    match parse_usize(s) {
        Some(v) => if v == 0 {
            1
        } else {
            v
        },
        None => DEFAULT_WORKER_COUNT,
    }
}

/// The handoff-channel capacity for a given worker count: twice the worker
/// count, saturating at `usize::MAX`.
pub fn channel_capacity(workers: usize) -> (c: usize)
    requires
        workers >= 1,
    ensures
        c == if workers <= usize::MAX / 2 {
            2 * workers as int
        } else {
            usize::MAX as int
        },
        c >= 1,
{
    if workers <= usize::MAX / 2 {
        2 * workers
    } else {
        usize::MAX
    }
}

} // verus!
