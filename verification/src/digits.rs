//! Base-10 digit runs and the widths and lengths they denote.

use vstd::prelude::*;
use vstd::string::StrSliceExecFns;

verus! {

/// Whether `c` is a base-10 digit.
pub open spec fn is_digit(c: char) -> bool {
    48 <= c as u32 <= 57
}

/// The value of one digit.
pub open spec fn digit_value(c: char) -> nat {
    (c as u32 - 48) as nat
}

/// Whether `s` consists of digits alone.
pub open spec fn all_digits(s: Seq<char>) -> bool {
    forall|i: int| 0 <= i < s.len() ==> is_digit(s[i])
}

/// The number a run of digits denotes, most significant digit first.
pub open spec fn digits_value(s: Seq<char>) -> nat
    decreases s.len(),
{
    if s.len() == 0 {
        0
    } else {
        digits_value(s.drop_last()) * 10 + digit_value(s.last())
    }
}

/// What parsing `s` as an unsigned base-10 number yields: its value when
/// `s` is a non-empty run of digits whose value fits in `usize`, nothing
/// otherwise.
pub open spec fn spec_parse_usize(s: Seq<char>) -> Option<nat> {
    if s.len() > 0 && all_digits(s) && digits_value(s) <= usize::MAX {
        Some(digits_value(s))
    } else {
        None
    }
}

/// A digit run is worth at least any of its prefixes.
pub proof fn lemma_digits_value_prefix(s: Seq<char>, i: int)
    requires
        0 <= i <= s.len(),
    ensures
        digits_value(s.take(i)) <= digits_value(s),
    decreases s.len() - i,
{
    if i == s.len() {
        assert(s.take(i) =~= s);
    } else {
        assert(s.take(i + 1).drop_last() =~= s.take(i));
        assert(digits_value(s.take(i + 1)) == digits_value(s.take(i)) * 10 + digit_value(
            s.take(i + 1).last(),
        ));
        lemma_digits_value_prefix(s, i + 1);
    }
}

/// Parses `s[from..to]` as an unsigned base-10 number.
pub fn parse_usize(s: &str, from: usize, to: usize) -> (r: Option<usize>)
    requires
        from <= to <= s@.len(),
    ensures
        (match r {
            Some(v) => spec_parse_usize(s@.subrange(from as int, to as int)) == Some(v as nat),
            None => spec_parse_usize(s@.subrange(from as int, to as int)) is None,
        }),
{
    let ghost run: Seq<char> = s@.subrange(from as int, to as int);
    if from == to {
        return None;
    }
    let mut acc: usize = 0;
    let mut i: usize = from;
    while i < to
        invariant
            from <= i <= to <= s@.len(),
            run == s@.subrange(from as int, to as int),
            forall|j: int| 0 <= j < i - from ==> is_digit(run[j]),
            acc as nat == digits_value(run.take(i - from)),
        decreases to - i,
    {
        let c = s.get_char(i);
        proof {
            assert(c == run[i - from]);
        }
        let u = c as u32;
        if u < 48 || u > 57 {
            proof {
                assert(!is_digit(run[i - from]));
            }
            return None;
        }
        let d = (u - 48) as usize;
        proof {
            assert(d as nat == digit_value(run[i - from]));
            assert(run.take(i - from + 1).drop_last() =~= run.take(i - from));
            assert(run.take(i - from + 1).last() == run[i - from]);
            assert(digits_value(run.take(i - from + 1)) == acc as nat * 10 + d as nat);
            assert(usize::MAX as int == 10 * (usize::MAX as int / 10) + usize::MAX as int % 10);
        }
        if acc > usize::MAX / 10 || (acc == usize::MAX / 10 && d > usize::MAX % 10) {
            proof {
                assert(digits_value(run.take(i - from + 1)) > usize::MAX);
                lemma_digits_value_prefix(run, i - from + 1);
            }
            return None;
        }
        acc = acc * 10 + d;
        i += 1;
    }
    proof {
        assert(run.take(to - from) =~= run);
    }
    Some(acc)
}

} // verus!
