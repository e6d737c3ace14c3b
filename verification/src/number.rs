//! The value of a run of decimal digit characters, and its checked
//! conversion into a `u64` mantissa.

use vstd::prelude::*;
use vstd::string::StrSliceExecFns;
use crate::text::{digit_val, is_digit_char, is_digit_exec};

verus! {

/// The integer a digit run denotes, read left to right.
pub open spec fn digits_value(ds: Seq<char>) -> int
    decreases ds.len(),
{
    if ds.len() == 0 {
        0
    } else {
        digits_value(ds.drop_last()) * 10 + digit_val(ds.last())
    }
}

pub proof fn lemma_digits_value_nonneg(ds: Seq<char>)
    requires
        forall|j: int| 0 <= j < ds.len() ==> is_digit_char(ds[j]),
    ensures
        digits_value(ds) >= 0,
    decreases ds.len(),
{
    if ds.len() > 0 {
        lemma_digits_value_nonneg(ds.drop_last());
    }
}

/// Reading more digits never shrinks the value.
pub proof fn lemma_digits_value_prefix_le(ds: Seq<char>, i: int)
    requires
        0 <= i <= ds.len(),
        forall|j: int| 0 <= j < ds.len() ==> is_digit_char(ds[j]),
    ensures
        digits_value(ds.subrange(0, i)) <= digits_value(ds),
    decreases ds.len() - i,
{
    if i == ds.len() {
        assert(ds.subrange(0, i) =~= ds);
    } else {
        let p = ds.subrange(0, i + 1);
        assert(p.drop_last() =~= ds.subrange(0, i));
        lemma_digits_value_nonneg(ds.subrange(0, i));
        assert(digits_value(ds.subrange(0, i)) <= digits_value(p));
        lemma_digits_value_prefix_le(ds, i + 1);
    }
}

/// Accumulates the digits of `s[from..to)` onto `init`, which already
/// holds the value of the ghost digit run `prefix`.  Returns `None`
/// exactly when the full run does not fit in a `u64`.
pub fn accumulate_digits(s: &str, n: usize, from: usize, to: usize, init: u64, Ghost(prefix): Ghost<
    Seq<char>,
>) -> (r: Option<u64>)
    requires
        n == s@.len(),
        from <= to <= n,
        forall|j: int| from <= j < to ==> is_digit_char(s@[j]),
        forall|j: int| 0 <= j < prefix.len() ==> is_digit_char(prefix[j]),
        init == digits_value(prefix),
    ensures
        ({
            let whole = prefix + s@.subrange(from as int, to as int);
            match r {
                Some(v) => digits_value(whole) <= u64::MAX && v == digits_value(whole),
                None => digits_value(whole) > u64::MAX,
            }
        }),
{
    let ghost whole = prefix + s@.subrange(from as int, to as int);
    assert(forall|j: int| 0 <= j < whole.len() ==> is_digit_char(whole[j]));
    let mut acc: u64 = init;
    let mut j: usize = from;
    assert(prefix + s@.subrange(from as int, from as int) =~= prefix);
    while j < to
        invariant
            from <= j <= to <= n,
            n == s@.len(),
            forall|t: int| from <= t < to ==> is_digit_char(s@[t]),
            forall|t: int| 0 <= t < prefix.len() ==> is_digit_char(prefix[t]),
            whole == prefix + s@.subrange(from as int, to as int),
            acc == digits_value(prefix + s@.subrange(from as int, j as int)),
        decreases to - j,
    {
        let ghost sofar = prefix + s@.subrange(from as int, j as int);
        let ghost next = prefix + s@.subrange(from as int, j as int + 1);
        proof {
            assert(next =~= sofar.push(s@[j as int]));
            assert(next.drop_last() =~= sofar);
            assert(digits_value(next) == digits_value(sofar) * 10 + digit_val(s@[j as int]));
            assert(next =~= whole.subrange(0, prefix.len() + (j - from) + 1));
        }
        let c = s.get_char(j);
        let d: u64 = (c as u32 - 48) as u64;
        assert(d == digit_val(s@[j as int]));
        let stepped: Option<u64> = match acc.checked_mul(10) {
            Some(m) => m.checked_add(d),
            None => None,
        };
        match stepped {
            Some(v) => {
                acc = v;
            },
            None => {
                proof {
                    assert(digits_value(next) > u64::MAX);
                    lemma_digits_value_prefix_le(whole, prefix.len() + (j - from) + 1);
                }
                return None;
            },
        }
        j += 1;
    }
    assert(prefix + s@.subrange(from as int, to as int) =~= whole);
    Some(acc)
}

} // verus!
