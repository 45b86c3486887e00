//! The stops of the `gradientMap` filter: the stop cap, and where stops
//! without an explicit position get theirs — the first at 0, the last at 1,
//! and every interior run of unpositioned stops spread evenly between its
//! positioned neighbours.

use vstd::prelude::*;
use vstd::string::*;

use crate::text::{debug_quoted, debug_str, decimal, push_decimal};

verus! {

/// The most stops a gradient map packs.
pub const MAX_GRADIENT_STOPS: usize = 6;

/// The rejection text for a gradient map with `count` stops.
pub open spec fn stop_cap_message(count: nat) -> Seq<char> {
    "filter "@ + debug_str("gradientMap"@) + " supports at most 6 stops, got "@ + decimal(count)
}

/// Reject a gradient map with more than [`MAX_GRADIENT_STOPS`] stops.
pub fn check_stop_count(count: usize) -> (r: Result<(), String>)
    ensures
        r is Ok <==> count <= MAX_GRADIENT_STOPS,
        r matches Err(msg) ==> msg@ == stop_cap_message(count as nat),
{
    if count <= MAX_GRADIENT_STOPS {
        return Ok(());
    }
    let mut msg = String::from_str("filter ");
    let quoted = debug_quoted("gradientMap");
    proof {
        reveal_strlit("gradientMap");
    }
    msg.append(quoted.as_str());
    msg.append(" supports at most 6 stops, got ");
    push_decimal(&mut msg, count);
    proof {
        assert(msg@ =~= stop_cap_message(count as nat));
    }
    Err(msg)
}

/// Stop `i` of `explicit` (whether each stop has an explicit position) has
/// a position before the spreading: its own, or the pinned 0 / 1 of the
/// first / last stop.
pub open spec fn anchored(explicit: Seq<bool>, i: int) -> bool {
    explicit[i] || i == 0 || i == explicit.len() - 1
}

/// A run `start..end` of unanchored stops between two anchored ones.
pub open spec fn is_gap(explicit: Seq<bool>, run: (usize, usize)) -> bool {
    &&& 1 <= run.0 < run.1 < explicit.len()
    &&& anchored(explicit, run.0 - 1)
    &&& anchored(explicit, run.1 as int)
    &&& forall|k: int| run.0 <= k < run.1 ==> !anchored(explicit, k)
}

/// The runs of unpositioned stops, in order: each lies strictly between an
/// anchored left neighbour (`start - 1`) and an anchored right one (`end`),
/// so its positions spread between theirs; together they cover every
/// unanchored stop.
pub fn gap_runs(explicit: &Vec<bool>) -> (r: Vec<(usize, usize)>)
    ensures
        forall|j: int| 0 <= j < r@.len() ==> is_gap(explicit@, #[trigger] r@[j]),
        forall|j: int| 0 <= j < r@.len() - 1 ==> #[trigger] r@[j].1 < r@[j + 1].0,
        forall|k: int|
            0 <= k < explicit@.len() && !anchored(explicit@, k) ==> exists|j: int|
                0 <= j < r@.len() && (#[trigger] r@[j]).0 <= k < r@[j].1,
{
    let n = explicit.len();
    let mut runs: Vec<(usize, usize)> = Vec::new();
    let mut i: usize = 0;
    while i < n
        invariant
            n == explicit@.len(),
            0 <= i <= n,
            forall|j: int| 0 <= j < runs@.len() ==> is_gap(explicit@, #[trigger] runs@[j]),
            forall|j: int| 0 <= j < runs@.len() - 1 ==> #[trigger] runs@[j].1 < runs@[j + 1].0,
            forall|j: int| 0 <= j < runs@.len() ==> #[trigger] runs@[j].1 <= i,
            forall|k: int|
                0 <= k < i && !anchored(explicit@, k) ==> exists|j: int|
                    0 <= j < runs@.len() && (#[trigger] runs@[j]).0 <= k < runs@[j].1,
            i > 0 ==> anchored(explicit@, i - 1) || (runs@.len() > 0 && runs@[runs@.len() - 1].1
                == i),
        decreases n - i,
    {
        if explicit[i] || i == 0 || i == n - 1 {
            i = i + 1;
        } else {
            let start = i;
            let mut end = i;
            while !(explicit[end] || end == n - 1)
                invariant
                    n == explicit@.len(),
                    1 <= start <= end < n,
                    forall|k: int| start <= k < end ==> !anchored(explicit@, k),
                decreases n - end,
            {
                end = end + 1;
            }
            let ghost before = runs@;
            runs.push((start, end));
            proof {
                assert(!anchored(explicit@, start as int));
                if !anchored(explicit@, start - 1) {
                    assert(before.len() > 0 && before[before.len() - 1].1 == start);
                    let last = before[before.len() - 1];
                    assert(is_gap(explicit@, last));
                    assert(anchored(explicit@, last.1 as int));
                }
                assert(is_gap(explicit@, runs@[runs@.len() - 1]));
                assert forall|j: int| 0 <= j < runs@.len() implies is_gap(
                    explicit@,
                    #[trigger] runs@[j],
                ) by {
                    if j < before.len() {
                        assert(runs@[j] == before[j]);
                    }
                }
                assert forall|j: int| 0 <= j < runs@.len() - 1 implies #[trigger] runs@[j].1
                    < runs@[j + 1].0 by {
                    if j + 1 < before.len() {
                        assert(runs@[j] == before[j] && runs@[j + 1] == before[j + 1]);
                    } else {
                        assert(runs@[j] == before[j]);
                        assert(before[j].1 <= start);
                        if before[j].1 == start {
                            assert(anchored(explicit@, before[j].1 as int));
                        }
                    }
                }
                assert forall|k: int|
                    0 <= k < end && !anchored(explicit@, k) implies exists|j: int|
                    0 <= j < runs@.len() && (#[trigger] runs@[j]).0 <= k < runs@[j].1 by {
                    if k < start {
                        let j = choose|j: int| 0 <= j < before.len() && (#[trigger] before[j]).0 <= k < before[j].1;
                        assert(runs@[j] == before[j]);
                    } else {
                        assert(runs@[before.len() as int] == (start, end));
                    }
                }
            }
            i = end;
        }
    }
    runs
}

} // verus!
