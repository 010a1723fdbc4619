use vstd::prelude::*;
use crate::v3::{V3, add3, bounded, COORD_MAX};
use crate::rat::{RatPoint, in_box};

verus! {

/// Component-wise sum of a point sequence, over the unbounded integers.
pub open spec fn sum_pts(s: Seq<V3>) -> (int, int, int)
    decreases s.len(),
{
    if s.len() == 0 {
        (0, 0, 0)
    } else {
        add3(sum_pts(s.drop_last()), s.last().ti())
    }
}

/// The arithmetic mean of a non-empty point set, as an exact rational
/// point: the component-wise sum over the count.
pub open spec fn spec_center(s: Seq<V3>) -> RatPoint {
    RatPoint {
        xn: sum_pts(s).0 as i128,
        yn: sum_pts(s).1 as i128,
        zn: sum_pts(s).2 as i128,
        den: s.len() as i128,
    }
}

/// The exact centroid of a non-empty point set.  It lies inside the
/// coordinate box of its inputs.
pub fn get_center(points: &Vec<V3>) -> (r: RatPoint)
    requires
        points@.len() > 0,
        forall|k: int| 0 <= k < points@.len() ==> bounded(#[trigger] points@[k], COORD_MAX as int),
    ensures
        r == spec_center(points@),
        r.wf(),
        in_box(r, COORD_MAX as int),
        r.den <= 0x1_0000_0000_0000_0000,
{
    let mut sx: i128 = 0;
    let mut sy: i128 = 0;
    let mut sz: i128 = 0;
    let n = points.len();
    let mut i: usize = 0;
    while i < n
        invariant
            n == points@.len(),
            i <= n,
            forall|k: int|
                0 <= k < points@.len() ==> bounded(#[trigger] points@[k], COORD_MAX as int),
            sx as int == sum_pts(points@.take(i as int)).0,
            sy as int == sum_pts(points@.take(i as int)).1,
            sz as int == sum_pts(points@.take(i as int)).2,
            -(i as int * COORD_MAX) <= sx as int <= i as int * COORD_MAX,
            -(i as int * COORD_MAX) <= sy as int <= i as int * COORD_MAX,
            -(i as int * COORD_MAX) <= sz as int <= i as int * COORD_MAX,
        decreases n - i,
    {
        let p = points[i];
        proof {
            assert(points@.take(i as int + 1).drop_last() =~= points@.take(i as int));
            assert(points@.take(i as int + 1).last() == points@[i as int]);
        }
        sx = sx + p.0 as i128;
        sy = sy + p.1 as i128;
        sz = sz + p.2 as i128;
        i += 1;
    }
    proof {
        assert(points@.take(n as int) =~= points@);
    }
    RatPoint { xn: sx, yn: sy, zn: sz, den: n as i128 }
}

} // verus!
