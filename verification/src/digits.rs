//! Decimal numbers as they stand in the source.

use crate::lex::{all_digits, is_digit};
use vstd::prelude::*;

verus! {

/// The number that the digits of `w` spell in base ten.
pub open spec fn decimal(w: Seq<u8>) -> nat
    decreases w.len(),
{
    if w.len() == 0 {
        0
    } else {
        decimal(w.drop_last()) * 10 + (w.last() - 0x30) as nat
    }
}

/// The number never shrinks as digits are added behind.
pub proof fn lemma_decimal_grows(w: Seq<u8>, n: int)
    requires
        all_digits(w),
        0 <= n <= w.len(),
    ensures
        decimal(w.subrange(0, n)) <= decimal(w),
    decreases w.len() - n,
{
    if n < w.len() {
        let longer = w.subrange(0, n + 1);
        assert(longer.drop_last() =~= w.subrange(0, n));
        assert(is_digit(w[n]));
        assert(longer.last() == w[n]);
        lemma_decimal_grows(w, n + 1);
    } else {
        assert(w.subrange(0, n) =~= w);
    }
}

/// Reads a number of digits. `None` where the number does not fit.
pub fn parse_usize(w: &[u8]) -> (r: Option<usize>)
    requires
        all_digits(w@),
    ensures
        match r {
            Some(n) => n == decimal(w@),
            None => decimal(w@) > usize::MAX,
        },
{
    let mut n: usize = 0;
    let mut i: usize = 0;
    assert(w@.subrange(0, 0) =~= Seq::<u8>::empty());
    while i < w.len()
        invariant
            i <= w@.len(),
            all_digits(w@),
            n == decimal(w@.subrange(0, i as int)),
        decreases w.len() - i,
    {
        let d = (w[i] - 0x30) as usize;
        proof {
            let longer = w@.subrange(0, i + 1);
            assert(longer.drop_last() =~= w@.subrange(0, i as int));
            assert(longer.last() == w@[i as int]);
            assert(decimal(longer) == n * 10 + d);
            lemma_decimal_grows(w@, i + 1);
        }
        let tens = match n.checked_mul(10) {
            Some(t) => t,
            None => {
                return None;
            },
        };
        n = match tens.checked_add(d) {
            Some(t) => t,
            None => {
                return None;
            },
        };
        i = i + 1;
    }
    assert(w@.subrange(0, i as int) =~= w@);
    Some(n)
}

} // verus!
