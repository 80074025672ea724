//! One match against the player's history on the same hero: which stored
//! matches the trend line reads. Placing a match against its peers is
//! floating-point work done by the caller.

use vstd::prelude::*;

verus! {

/// How many matches the trend line shows, starting at the one in focus.
pub const TREND_WINDOW: usize = 10;

/// The first position of `id` in `ids`, or `None`.
pub open spec fn first_position(ids: Seq<u128>, id: u128) -> Option<int> {
    if exists|i: int| 0 <= i < ids.len() && ids[i] == id {
        Some(choose|i: int| 0 <= i < ids.len() && ids[i] == id && forall|j: int| 0 <= j < i ==> ids[j] != id)
    } else {
        None
    }
}

/// The trend window of a history given newest first: [`TREND_WINDOW`]
/// matches starting at the one in focus, or at the newest when the focus is
/// not in the history; fewer where the history runs out.
pub open spec fn spec_trend_range(ids: Seq<u128>, current: u128) -> (int, int) {
    let start = match first_position(ids, current) {
        Some(i) => i,
        None => 0,
    };
    let end = if start + TREND_WINDOW < ids.len() {
        start + TREND_WINDOW
    } else {
        ids.len() as int
    };
    (start, end)
}

/// `ids` are the history's match ids, newest first; the window is
/// `ids[start..end]`.
pub fn trend_range(ids: &[u128], current: u128) -> (r: (usize, usize))
    ensures
        (r.0 as int, r.1 as int) == spec_trend_range(ids@, current),
        r.0 <= r.1 <= ids@.len(),
{
    let mut i: usize = 0;
    while i < ids.len() && ids[i] != current
        invariant
            i <= ids@.len(),
            forall|j: int| 0 <= j < i ==> ids@[j] != current,
        decreases ids@.len() - i,
    {
        i = i + 1;
    }
    let start: usize = if i < ids.len() {
        proof {
            let k = choose|k: int|
                0 <= k < ids@.len() && ids@[k] == current && forall|j: int| 0 <= j < k ==> ids@[j] != current;
            if k < i {
            } else if k > i {
                assert(ids@[i as int] == current);
            }
            assert(k == i);
        }
        i
    } else {
        0
    };
    let end: usize = if ids.len() - start > TREND_WINDOW {
        start + TREND_WINDOW
    } else {
        ids.len()
    };
    (start, end)
}

} // verus!
