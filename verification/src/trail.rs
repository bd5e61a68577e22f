//! The orbit trails: each body keeps the most recent points it passed
//! through, up to a fixed number, oldest first.

use vstd::prelude::*;

verus! {

/// The most points a trail keeps.
pub const MAX_TRAIL: usize = 3000;

/// The trail after `point` is appended to `trail`: when that makes it
/// longer than `MAX_TRAIL`, its oldest point is dropped.
pub open spec fn spec_record<T>(trail: Seq<T>, point: T) -> Seq<T> {
    if trail.len() + 1 > MAX_TRAIL {
        trail.push(point).drop_first()
    } else {
        trail.push(point)
    }
}

/// Appends `point` to `trail`, dropping the oldest point when the trail
/// would grow past `MAX_TRAIL` points.
pub fn record_point<T>(trail: &mut Vec<T>, point: T)
    ensures
        final(trail)@ == spec_record(old(trail)@, point),
{
    trail.push(point);
    if trail.len() > MAX_TRAIL {
        let _oldest: T = trail.remove(0);
        assert(trail@ =~= spec_record(old(trail)@, point));
    }
}

/// A trail that has at most `MAX_TRAIL` points keeps at most that many,
/// ends with the newest point, and keeps the points before it in order.
pub proof fn lemma_record_bounded<T>(trail: Seq<T>, point: T)
    requires
        trail.len() <= MAX_TRAIL,
    ensures
        spec_record(trail, point).len() <= MAX_TRAIL,
        spec_record(trail, point).last() == point,
        spec_record(trail, point).drop_last() =~= if trail.len() == MAX_TRAIL {
            trail.drop_first()
        } else {
            trail
        },
{
}

} // verus!
