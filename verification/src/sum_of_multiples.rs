//! The sum of every number below a limit that is a multiple of at least
//! one of the given factors, each such number counted once.

use vstd::prelude::*;

verus! {

/// True when `v` is a positive multiple of one of the factors.
pub open spec fn counted(v: int, factors: Seq<u32>) -> bool {
    exists|i: int| 0 <= i < factors.len() && factors[i] > 0 && v % (factors[i] as int) == 0
}

/// The sum of the counted numbers below `n`.
pub open spec fn spec_sum_of_multiples(n: int, factors: Seq<u32>) -> int
    decreases n,
{
    if n <= 1 {
        0
    } else {
        spec_sum_of_multiples(n - 1, factors) + if counted(n - 1, factors) {
            n - 1
        } else {
            0
        }
    }
}

/// The sum of the counted numbers never shrinks as the limit grows.
proof fn lemma_sum_of_multiples_ordered(n1: int, n2: int, factors: Seq<u32>)
    requires
        n1 <= n2,
    ensures
        0 <= spec_sum_of_multiples(n1, factors) <= spec_sum_of_multiples(n2, factors),
    decreases n2,
{
    if n2 > 1 && n1 < n2 {
        lemma_sum_of_multiples_ordered(n1, n2 - 1, factors);
    } else {
        lemma_sum_of_multiples_ordered_low(n1, factors);
    }
}

proof fn lemma_sum_of_multiples_ordered_low(n: int, factors: Seq<u32>)
    ensures
        spec_sum_of_multiples(n, factors) >= 0,
    decreases n,
{
    if n > 1 {
        lemma_sum_of_multiples_ordered_low(n - 1, factors);
    }
}

/// True when some factor divides `v` evenly.
fn divides_any(v: u32, factors: &[u32]) -> (result: bool)
    ensures
        result == counted(v as int, factors@),
{
    let mut i: usize = 0;
    while i < factors.len()
        invariant
            i <= factors@.len(),
            forall|j: int|
                0 <= j < i ==> !(factors@[j] > 0 && (v as int) % ((#[trigger] factors@[j]) as int)
                    == 0),
        decreases factors@.len() - i,
    {
        let f = factors[i];
        if f > 0 && v % f == 0 {
            return true;
        }
        i = i + 1;
    }
    false
}

/// Adds up the numbers below `limit` that are multiples of at least one
/// factor, each counted once however many factors divide it. The total
/// must fit in `u32`, as the addition is carried out in that type.
pub fn sum_of_multiples(limit: u32, factors: &[u32]) -> (result: u32)
    requires
        spec_sum_of_multiples(limit as int, factors@) <= u32::MAX,
    ensures
        result == spec_sum_of_multiples(limit as int, factors@),
{
    let mut total: u32 = 0;
    let mut v: u32 = 1;
    if limit == 0 {
        return 0;
    }
    while v < limit
        invariant
            1 <= v <= limit,
            total == spec_sum_of_multiples(v as int, factors@),
            spec_sum_of_multiples(limit as int, factors@) <= u32::MAX,
        decreases limit - v,
    {
        proof {
            lemma_sum_of_multiples_ordered(v + 1, limit as int, factors@);
        }
        if divides_any(v, factors) {
            total = total + v;
        }
        v = v + 1;
    }
    total
}

} // verus!
