//! Reading a parsed replay's timelines: per-minute series and the purchase
//! log.

use vstd::prelude::*;

use crate::text::same_text;

verus! {

/// A per-minute series read at one minute. The provider indexes these by
/// minute, so minute ten of the last-hit series is last hits at the ten
/// minute mark; a game that ended earlier has no value there.
pub fn series_at(series: &[i32], minute: usize) -> (r: Option<i32>)
    ensures
        r == (if minute < series@.len() {
            Some(series@[minute as int])
        } else {
            None::<i32>
        }),
{
    if minute < series.len() {
        Some(series[minute])
    } else {
        None
    }
}

/// A purchase of `item` at or after the horn.
pub open spec fn timed_purchase(entry: (String, i32), item: Seq<char>) -> bool {
    entry.0@ == item && entry.1 >= 0
}

/// The first purchase of an item, in seconds from the horn: the least time
/// among its purchases at or after the horn. Pre-horn purchases carry a
/// negative time and are starting items, never the timing anyone means.
pub open spec fn is_first_purchase(log: Seq<(String, i32)>, item: Seq<char>, t: i32) -> bool {
    &&& exists|i: int| 0 <= i < log.len() && timed_purchase(#[trigger] log[i], item) && log[i].1 == t
    &&& forall|i: int| 0 <= i < log.len() && timed_purchase(#[trigger] log[i], item) ==> t <= log[i].1
}

pub fn first_purchase_seconds(log: &[(String, i32)], item_key: &str) -> (r: Option<i32>)
    ensures
        match r {
            Some(t) => is_first_purchase(log@, item_key@, t),
            None => forall|i: int| 0 <= i < log@.len() ==> !timed_purchase(#[trigger] log@[i], item_key@),
        },
{
    let mut best: Option<i32> = None;
    let mut i: usize = 0;
    while i < log.len()
        invariant
            i <= log@.len(),
            match best {
                Some(t) => (exists|k: int|
                    0 <= k < i && timed_purchase(#[trigger] log@[k], item_key@) && log@[k].1 == t)
                    && forall|k: int|
                    0 <= k < i && timed_purchase(#[trigger] log@[k], item_key@) ==> t <= log@[k].1,
                None => forall|k: int| 0 <= k < i ==> !timed_purchase(#[trigger] log@[k], item_key@),
            },
        decreases log@.len() - i,
    {
        let entry = &log[i];
        if entry.1 >= 0 && same_text(entry.0.as_str(), item_key) {
            let better = match best {
                Some(t) => entry.1 < t,
                None => true,
            };
            if better {
                best = Some(entry.1);
            }
            proof {
                assert(timed_purchase(log@[i as int], item_key@));
            }
        } else {
            proof {
                assert(!timed_purchase(log@[i as int], item_key@));
            }
        }
        i = i + 1;
    }
    best
}

} // verus!
