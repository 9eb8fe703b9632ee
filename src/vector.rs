//! The seeding rule of synchronous batched execution.

use vstd::prelude::*;

verus! {

/// The seed member `i` of a batch is reset with: `base + i` when a base
/// seed is given, none (continue the member's own stream) otherwise.
pub open spec fn member_seed(base_seed: Option<u64>, i: int) -> Option<u64> {
    match base_seed {
        Some(base) => Some((base + i) as u64),
        None => None,
    }
}

/// The seeds the `n` members of a batch are reset with, in member order.
/// With a base seed the last one, `base + n - 1`, must fit in a `u64`.
pub fn member_seeds(base_seed: Option<u64>, n: usize) -> (r: Vec<Option<u64>>)
    requires
        base_seed is Some ==> base_seed->Some_0 + n <= u64::MAX + 1,
    ensures
        r@.len() == n,
        forall|i: int| 0 <= i < n ==> #[trigger] r@[i] == member_seed(base_seed, i),
{
    let mut out: Vec<Option<u64>> = Vec::with_capacity(n);
    let mut i: usize = 0;
    while i < n
        invariant
            i <= n,
            out@.len() == i,
            base_seed is Some ==> base_seed->Some_0 + n <= u64::MAX + 1,
            forall|j: int| 0 <= j < i ==> #[trigger] out@[j] == member_seed(base_seed, j),
        decreases n - i,
    {
        let seed = match base_seed {
            Some(base) => Some(base + i as u64),
            None => None,
        };
        out.push(seed);
        i = i + 1;
    }
    out
}

} // verus!
