//! Episode bookkeeping shared by every environment: a step counter checked
//! against a step budget.

use vstd::prelude::*;

verus! {

/// Counts one more step of an episode: the new step count, and whether the
/// episode is truncated, that is whether the count has reached
/// `max_episode_steps`.
pub fn count_step(steps: u32, max_episode_steps: u32) -> (r: (u32, bool))
    requires
        steps < u32::MAX,
    ensures
        r.0 == steps + 1,
        r.1 == (steps + 1 >= max_episode_steps),
{
    let next = steps + 1;
    (next, next >= max_episode_steps)
}

} // verus!
