//! The hard bounds on one run.
use vstd::prelude::*;

verus! {

/// Hard bounds on one run.
#[derive(Clone, Copy, Debug, PartialEq, Eq)]
pub struct Budget {
    /// Planning turns.
    pub max_steps: usize,
    /// Model calls of the whole query, nested runs and readers among them.
    pub max_model_calls: usize,
    /// Levels of runs, the query's own among them. At 2 a run may recurse, and
    /// the nested run may not; at 0 or 1 nothing may.
    pub max_depth: usize,
    /// Wall-clock seconds.
    pub wall_secs: u64,
}

/// The bounds of a run whose caller names none.
pub open spec fn default_budget() -> Budget {
    Budget { max_steps: 14, max_model_calls: 400, max_depth: 2, wall_secs: 600 }
}

impl Default for Budget {
    fn default() -> (b: Budget)
        ensures
            b == default_budget(),
    {
        Budget { max_steps: 14, max_model_calls: 400, max_depth: 2, wall_secs: 600 }
    }
}

/// The nearest number between two bounds.
pub open spec fn clamped(n: int, low: int, high: int) -> int {
    if n < low {
        low
    } else if n > high {
        high
    } else {
        n
    }
}

/// A budget brought down, or up, to what a node can survive.
pub open spec fn sanitized(b: Budget) -> Budget {
    Budget {
        max_steps: clamped(b.max_steps as int, 1, 40) as usize,
        max_model_calls: clamped(b.max_model_calls as int, 1, 2_000) as usize,
        max_depth: clamped(b.max_depth as int, 0, 3) as usize,
        wall_secs: clamped(b.wall_secs as int, 10, 3_600) as u64,
    }
}

fn clamp_usize(n: usize, low: usize, high: usize) -> (r: usize)
    requires
        low <= high,
    ensures
        r == clamped(n as int, low as int, high as int),
{
    if n < low {
        low
    } else if n > high {
        high
    } else {
        n
    }
}

fn clamp_u64(n: u64, low: u64, high: u64) -> (r: u64)
    requires
        low <= high,
    ensures
        r == clamped(n as int, low as int, high as int),
{
    if n < low {
        low
    } else if n > high {
        high
    } else {
        n
    }
}

impl Budget {
    /// Clamps a budget that a caller supplied. A request is not to be trusted
    /// with how much it may spend.
    pub fn sanitize(self) -> (b: Budget)
        ensures
            b == sanitized(self),
    {
        Budget {
            max_steps: clamp_usize(self.max_steps, 1, 40),
            max_model_calls: clamp_usize(self.max_model_calls, 1, 2_000),
            max_depth: clamp_usize(self.max_depth, 0, 3),
            wall_secs: clamp_u64(self.wall_secs, 10, 3_600),
        }
    }
}

/// No caller gets past the bounds of the node, and every caller gets a run that
/// can do something; a budget within the bounds is left as it is.
pub proof fn law_a_sanitized_budget_is_bounded(b: Budget)
    ensures
        1 <= sanitized(b).max_steps <= 40,
        1 <= sanitized(b).max_model_calls <= 2_000,
        sanitized(b).max_depth <= 3,
        10 <= sanitized(b).wall_secs <= 3_600,
        sanitized(sanitized(b)) == sanitized(b),
        sanitized(b) == b <==> {
            &&& 1 <= b.max_steps <= 40
            &&& 1 <= b.max_model_calls <= 2_000
            &&& b.max_depth <= 3
            &&& 10 <= b.wall_secs <= 3_600
        },
        sanitized(default_budget()) == default_budget(),
{
}

/// What a run may spend where its caller names nothing, and what a bound outside
/// of what a node allows comes to: the nearest that it does.
pub proof fn law_a_bound_comes_to_the_nearest_allowed(b: Budget)
    ensures
        default_budget() == (Budget {
            max_steps: 14,
            max_model_calls: 400,
            max_depth: 2,
            wall_secs: 600,
        }),
        b.max_steps > 40 ==> sanitized(b).max_steps == 40,
        b.max_steps == 0 ==> sanitized(b).max_steps == 1,
        1 <= b.max_steps <= 40 ==> sanitized(b).max_steps == b.max_steps,
        b.max_model_calls > 2_000 ==> sanitized(b).max_model_calls == 2_000,
        b.max_model_calls == 0 ==> sanitized(b).max_model_calls == 1,
        1 <= b.max_model_calls <= 2_000 ==> sanitized(b).max_model_calls == b.max_model_calls,
        b.max_depth > 3 ==> sanitized(b).max_depth == 3,
        b.max_depth <= 3 ==> sanitized(b).max_depth == b.max_depth,
        b.wall_secs > 3_600 ==> sanitized(b).wall_secs == 3_600,
        b.wall_secs < 10 ==> sanitized(b).wall_secs == 10,
        10 <= b.wall_secs <= 3_600 ==> sanitized(b).wall_secs == b.wall_secs,
{
}

} // verus!
