use vstd::prelude::*;
use crate::v3::{V3, absi, bounded, dot3, sub3, scale3, lemma_mul_abs, lemma_dot_bound, COORD_MAX};
use crate::rat::{RatPoint, in_box};

verus! {

/// A plane: a point on it plus a normal.  The normal need not be unit
/// length: only sign tests and exact ratios are taken from it.
#[derive(Clone, Copy, Debug)]
pub struct Plane {
    pub pos: V3,
    pub normal: V3,
}

impl Plane {
    /// Signed side value of `p`: `normal . (p - pos)`.  Its sign says on
    /// which side of the plane `p` lies; zero means on the plane.
    pub open spec fn side(self, p: V3) -> int {
        dot3(self.normal.ti(), sub3(p.ti(), self.pos.ti()))
    }

    /// Denominator of the exact line parameter: `normal . (p2 - p1)`.
    /// Zero exactly when the line through `p1`, `p2` is parallel to the
    /// plane (or degenerate).
    pub open spec fn line_den0(self, p1: V3, p2: V3) -> int {
        dot3(self.normal.ti(), sub3(p2.ti(), p1.ti()))
    }

    /// Numerator of the exact line parameter: `normal . (pos - p1)`.
    pub open spec fn line_kn0(self, p1: V3) -> int {
        dot3(self.normal.ti(), sub3(self.pos.ti(), p1.ti()))
    }

    /// The line parameter's denominator, normalized to be positive.
    pub open spec fn line_den(self, p1: V3, p2: V3) -> int {
        absi(self.line_den0(p1, p2))
    }

    /// The line parameter's numerator, under the same normalization: the
    /// exact crossing parameter is `line_kn / line_den`.
    pub open spec fn line_kn(self, p1: V3, p2: V3) -> int {
        if self.line_den0(p1, p2) < 0 {
            -self.line_kn0(p1)
        } else {
            self.line_kn0(p1)
        }
    }
}

/// Magnitudes that a line hit's fields never exceed when all inputs are
/// bounded by `COORD_MAX`.
pub open spec fn line_mag_ok(p: RatPoint) -> bool {
    p.den <= 15_000_000_000 && absi(p.xn as int) <= 2_250_000_000_000_000 && absi(p.yn as int)
        <= 2_250_000_000_000_000 && absi(p.zn as int) <= 2_250_000_000_000_000
}

/// What `Plane::intersect_line` returns: `None` exactly when the line is
/// parallel to the plane, otherwise the exact rational point where the
/// infinite line through `p1`, `p2` crosses it:
/// `p1 + (p2 - p1) * (line_kn / line_den)`.
pub open spec fn spec_line_hit(plane: Plane, p1: V3, p2: V3) -> Option<RatPoint> {
    if plane.line_den0(p1, p2) == 0 {
        None
    } else {
        let den = plane.line_den(p1, p2);
        let kn = plane.line_kn(p1, p2);
        Some(
            RatPoint {
                xn: (p1.0 * den + (p2.0 - p1.0) * kn) as i128,
                yn: (p1.1 * den + (p2.1 - p1.1) * kn) as i128,
                zn: (p1.2 * den + (p2.2 - p1.2) * kn) as i128,
                den: den as i128,
            },
        )
    }
}

/// The segment containment test of the engine, cleared of the hit's
/// denominator: the sign of `(p1 - p) . (p2 - p)` with every coordinate of
/// the endpoints scaled by `p.den`.  Non-positive exactly when `p` lies
/// between the endpoints (endpoints included).
pub open spec fn seg_test(p1: V3, p2: V3, p: RatPoint) -> int {
    dot3(
        sub3(scale3(p1.ti(), p.den as int), p.nums()),
        sub3(scale3(p2.ti(), p.den as int), p.nums()),
    )
}

/// What the slicers guarantee of every returned point: well-formed, of
/// bounded magnitude, and inside the coordinate box of the mesh.
pub open spec fn slice_pt_ok(p: RatPoint) -> bool {
    p.wf() && line_mag_ok(p) && in_box(p, COORD_MAX as int)
}

/// Every point of the sequence satisfies `slice_pt_ok`.
pub open spec fn slice_pts_ok(s: Seq<RatPoint>) -> bool {
    forall|k: int| 0 <= k < s.len() ==> slice_pt_ok(#[trigger] s[k])
}

/// What `Plane::intersect_segment` returns: the line hit, kept only when
/// the containment sign test accepts it.
pub open spec fn spec_segment_hit(plane: Plane, p1: V3, p2: V3) -> Option<RatPoint> {
    match spec_line_hit(plane, p1, p2) {
        None => None,
        Some(p) => if seg_test(p1, p2, p) <= 0 {
            Some(p)
        } else {
            None
        },
    }
}

impl Plane {
    /// Where the infinite line through `p1` and `p2` crosses the plane,
    /// as an exact rational point; `None` exactly when the line is
    /// parallel to the plane.
    pub fn intersect_line(&self, p1: V3, p2: V3) -> (r: Option<RatPoint>)
        requires
            bounded(self.pos, COORD_MAX as int),
            bounded(self.normal, COORD_MAX as int),
            bounded(p1, COORD_MAX as int),
            bounded(p2, COORD_MAX as int),
        ensures
            r == spec_line_hit(*self, p1, p2),
            r matches Some(p) ==> p.wf() && line_mag_ok(p),
    {
        let diff = p2.sub(p1);
        proof {
            lemma_dot_bound(self.normal.ti(), diff.ti(), COORD_MAX as int, 2 * COORD_MAX as int);
        }
        let den0 = self.normal.dot(diff);
        if den0 == 0 {
            return None;
        }
        let pd = self.pos.sub(p1);
        proof {
            lemma_dot_bound(self.normal.ti(), pd.ti(), COORD_MAX as int, 2 * COORD_MAX as int);
        }
        let kn0 = self.normal.dot(pd);
        let (kn, den): (i64, i64) = if den0 < 0 {
            (-kn0, -den0)
        } else {
            (kn0, den0)
        };
        proof {
            lemma_mul_abs(p1.0 as int, den as int, COORD_MAX as int, 15_000_000_000);
            lemma_mul_abs(p1.1 as int, den as int, COORD_MAX as int, 15_000_000_000);
            lemma_mul_abs(p1.2 as int, den as int, COORD_MAX as int, 15_000_000_000);
            lemma_mul_abs(
                p2.0 - p1.0,
                kn as int,
                2 * COORD_MAX as int,
                15_000_000_000,
            );
            lemma_mul_abs(
                p2.1 - p1.1,
                kn as int,
                2 * COORD_MAX as int,
                15_000_000_000,
            );
            lemma_mul_abs(
                p2.2 - p1.2,
                kn as int,
                2 * COORD_MAX as int,
                15_000_000_000,
            );
        }
        let xn = p1.0 as i128 * den as i128 + (p2.0 as i128 - p1.0 as i128) * kn as i128;
        let yn = p1.1 as i128 * den as i128 + (p2.1 as i128 - p1.1 as i128) * kn as i128;
        let zn = p1.2 as i128 * den as i128 + (p2.2 as i128 - p1.2 as i128) * kn as i128;
        Some(RatPoint { xn, yn, zn, den: den as i128 })
    }

    /// Where the segment from `p1` to `p2` crosses the plane, endpoints
    /// included; `None` when the segment misses the plane or is parallel
    /// to it.  A hit always lies inside the coordinate box.
    pub fn intersect_segment(&self, p1: V3, p2: V3) -> (r: Option<RatPoint>)
        requires
            bounded(self.pos, COORD_MAX as int),
            bounded(self.normal, COORD_MAX as int),
            bounded(p1, COORD_MAX as int),
            bounded(p2, COORD_MAX as int),
        ensures
            r == spec_segment_hit(*self, p1, p2),
            r matches Some(p) ==> p.wf() && line_mag_ok(p) && in_box(p, COORD_MAX as int),
    {
        let maybe_point = self.intersect_line(p1, p2);
        match maybe_point {
            None => None,
            Some(p) => {
                proof {
                    lemma_mul_abs(p1.0 as int, p.den as int, COORD_MAX as int, 15_000_000_000);
                    lemma_mul_abs(p1.1 as int, p.den as int, COORD_MAX as int, 15_000_000_000);
                    lemma_mul_abs(p1.2 as int, p.den as int, COORD_MAX as int, 15_000_000_000);
                    lemma_mul_abs(p2.0 as int, p.den as int, COORD_MAX as int, 15_000_000_000);
                    lemma_mul_abs(p2.1 as int, p.den as int, COORD_MAX as int, 15_000_000_000);
                    lemma_mul_abs(p2.2 as int, p.den as int, COORD_MAX as int, 15_000_000_000);
                }
                let ux = p1.0 as i128 * p.den - p.xn;
                let uy = p1.1 as i128 * p.den - p.yn;
                let uz = p1.2 as i128 * p.den - p.zn;
                let vx = p2.0 as i128 * p.den - p.xn;
                let vy = p2.1 as i128 * p.den - p.yn;
                let vz = p2.2 as i128 * p.den - p.zn;
                proof {
                    lemma_mul_abs(ux as int, vx as int, 3_000_000_000_000_000, 3_000_000_000_000_000);
                    lemma_mul_abs(uy as int, vy as int, 3_000_000_000_000_000, 3_000_000_000_000_000);
                    lemma_mul_abs(uz as int, vz as int, 3_000_000_000_000_000, 3_000_000_000_000_000);
                }
                let st = ux * vx + uy * vy + uz * vz;
                if st > 0 {
                    None
                } else {
                    proof {
                        lemma_seg_between(*self, p1, p2);
                        lemma_seg_hit_in_box(*self, p1, p2);
                    }
                    Some(p)
                }
            },
        }
    }
}

/// The line hit's fields, written out: positive denominator `line_den` and
/// numerators `p1 * den + (p2 - p1) * kn`, with no truncation.
proof fn lemma_line_hit_decomposed(plane: Plane, p1: V3, p2: V3)
    requires
        bounded(plane.pos, COORD_MAX as int),
        bounded(plane.normal, COORD_MAX as int),
        bounded(p1, COORD_MAX as int),
        bounded(p2, COORD_MAX as int),
        plane.line_den0(p1, p2) != 0,
    ensures
        spec_line_hit(plane, p1, p2) matches Some(p) && {
            let den = plane.line_den(p1, p2);
            let kn = plane.line_kn(p1, p2);
            0 < den <= 15_000_000_000 && -15_000_000_000 <= kn <= 15_000_000_000 && p.den == den
                && p.nums().0 == p1.0 * den + (p2.0 - p1.0) * kn && p.nums().1 == p1.1 * den + (
            p2.1 - p1.1) * kn && p.nums().2 == p1.2 * den + (p2.2 - p1.2) * kn
        },
{
    lemma_dot_bound(
        plane.normal.ti(),
        sub3(p2.ti(), p1.ti()),
        COORD_MAX as int,
        2 * COORD_MAX as int,
    );
    lemma_dot_bound(
        plane.normal.ti(),
        sub3(plane.pos.ti(), p1.ti()),
        COORD_MAX as int,
        2 * COORD_MAX as int,
    );
    let den = plane.line_den(p1, p2);
    let kn = plane.line_kn(p1, p2);
    lemma_mul_abs(p1.0 as int, den, COORD_MAX as int, 15_000_000_000);
    lemma_mul_abs(p1.1 as int, den, COORD_MAX as int, 15_000_000_000);
    lemma_mul_abs(p1.2 as int, den, COORD_MAX as int, 15_000_000_000);
    lemma_mul_abs(p2.0 - p1.0, kn, 2 * COORD_MAX as int, 15_000_000_000);
    lemma_mul_abs(p2.1 - p1.1, kn, 2 * COORD_MAX as int, 15_000_000_000);
    lemma_mul_abs(p2.2 - p1.2, kn, 2 * COORD_MAX as int, 15_000_000_000);
}

/// The containment sign test on the exact line hit factors as
/// `-(kn * (den - kn)) * |p2 - p1|^2`.
proof fn lemma_seg_test_factored(plane: Plane, p1: V3, p2: V3)
    requires
        bounded(plane.pos, COORD_MAX as int),
        bounded(plane.normal, COORD_MAX as int),
        bounded(p1, COORD_MAX as int),
        bounded(p2, COORD_MAX as int),
        plane.line_den0(p1, p2) != 0,
    ensures
        spec_line_hit(plane, p1, p2) matches Some(p) && seg_test(p1, p2, p) == -((plane.line_kn(
            p1,
            p2,
        ) * (plane.line_den(p1, p2) - plane.line_kn(p1, p2))) * dot3(
            sub3(p2.ti(), p1.ti()),
            sub3(p2.ti(), p1.ti()),
        )),
{
    lemma_line_hit_decomposed(plane, p1, p2);
    let p = spec_line_hit(plane, p1, p2)->Some_0;
    let den = plane.line_den(p1, p2);
    let kn = plane.line_kn(p1, p2);
    let d = sub3(p2.ti(), p1.ti());
    let q = kn * (den - kn);
    assert((p1.0 * den - p.nums().0) * (p2.0 * den - p.nums().0) == -(q * (d.0 * d.0)))
        by (nonlinear_arith)
        requires
            p.nums().0 == p1.0 * den + d.0 * kn,
            d.0 == p2.0 - p1.0,
            q == kn * (den - kn),
    ;
    assert((p1.1 * den - p.nums().1) * (p2.1 * den - p.nums().1) == -(q * (d.1 * d.1)))
        by (nonlinear_arith)
        requires
            p.nums().1 == p1.1 * den + d.1 * kn,
            d.1 == p2.1 - p1.1,
            q == kn * (den - kn),
    ;
    assert((p1.2 * den - p.nums().2) * (p2.2 * den - p.nums().2) == -(q * (d.2 * d.2)))
        by (nonlinear_arith)
        requires
            p.nums().2 == p1.2 * den + d.2 * kn,
            d.2 == p2.2 - p1.2,
            q == kn * (den - kn),
    ;
    assert(-(q * (d.0 * d.0)) + -(q * (d.1 * d.1)) + -(q * (d.2 * d.2)) == -(q * (d.0 * d.0 + d.1
        * d.1 + d.2 * d.2))) by (nonlinear_arith);
}

/// The containment sign test accepts the exact line hit exactly when the
/// crossing parameter `kn / den` lies in `[0, 1]`.
pub proof fn lemma_seg_between(plane: Plane, p1: V3, p2: V3)
    requires
        bounded(plane.pos, COORD_MAX as int),
        bounded(plane.normal, COORD_MAX as int),
        bounded(p1, COORD_MAX as int),
        bounded(p2, COORD_MAX as int),
        plane.line_den0(p1, p2) != 0,
    ensures
        spec_line_hit(plane, p1, p2) matches Some(p) && (seg_test(p1, p2, p) <= 0 <==> (0
            <= plane.line_kn(p1, p2) <= plane.line_den(p1, p2))),
{
    lemma_seg_test_factored(plane, p1, p2);
    let p = spec_line_hit(plane, p1, p2)->Some_0;
    let den = plane.line_den(p1, p2);
    let kn = plane.line_kn(p1, p2);
    let d = sub3(p2.ti(), p1.ti());
    // A degenerate segment would make the line parameter's denominator zero.
    if d.0 == 0 && d.1 == 0 && d.2 == 0 {
        lemma_mul_abs(plane.normal.ti().0, d.0, COORD_MAX as int, 0);
        lemma_mul_abs(plane.normal.ti().1, d.1, COORD_MAX as int, 0);
        lemma_mul_abs(plane.normal.ti().2, d.2, COORD_MAX as int, 0);
        assert(plane.line_den0(p1, p2) == 0);
    }
    let l2 = dot3(d, d);
    assert(l2 > 0) by (nonlinear_arith)
        requires
            l2 == d.0 * d.0 + d.1 * d.1 + d.2 * d.2,
            !(d.0 == 0 && d.1 == 0 && d.2 == 0),
    ;
    assert(seg_test(p1, p2, p) <= 0 <==> kn * (den - kn) >= 0) by (nonlinear_arith)
        requires
            seg_test(p1, p2, p) == -((kn * (den - kn)) * l2),
            l2 > 0,
    ;
    assert(kn * (den - kn) >= 0 <==> 0 <= kn <= den) by (nonlinear_arith)
        requires
            den > 0,
    ;
}

/// A segment hit lies inside the coordinate box spanned by `COORD_MAX`.
pub proof fn lemma_seg_hit_in_box(plane: Plane, p1: V3, p2: V3)
    requires
        bounded(plane.pos, COORD_MAX as int),
        bounded(plane.normal, COORD_MAX as int),
        bounded(p1, COORD_MAX as int),
        bounded(p2, COORD_MAX as int),
        plane.line_den0(p1, p2) != 0,
        0 <= plane.line_kn(p1, p2) <= plane.line_den(p1, p2),
    ensures
        spec_line_hit(plane, p1, p2) matches Some(p) && in_box(p, COORD_MAX as int),
{
    lemma_line_hit_decomposed(plane, p1, p2);
    let p = spec_line_hit(plane, p1, p2)->Some_0;
    let den = plane.line_den(p1, p2);
    let kn = plane.line_kn(p1, p2);
    let m = COORD_MAX as int;
    assert(p.nums().0 == p1.0 * (den - kn) + p2.0 * kn) by (nonlinear_arith)
        requires
            p.nums().0 == p1.0 * den + (p2.0 - p1.0) * kn,
    ;
    assert(p.nums().1 == p1.1 * (den - kn) + p2.1 * kn) by (nonlinear_arith)
        requires
            p.nums().1 == p1.1 * den + (p2.1 - p1.1) * kn,
    ;
    assert(p.nums().2 == p1.2 * (den - kn) + p2.2 * kn) by (nonlinear_arith)
        requires
            p.nums().2 == p1.2 * den + (p2.2 - p1.2) * kn,
    ;
    lemma_mul_abs(p1.0 as int, den - kn, m, den - kn);
    lemma_mul_abs(p1.1 as int, den - kn, m, den - kn);
    lemma_mul_abs(p1.2 as int, den - kn, m, den - kn);
    lemma_mul_abs(p2.0 as int, kn, m, kn);
    lemma_mul_abs(p2.1 as int, kn, m, kn);
    lemma_mul_abs(p2.2 as int, kn, m, kn);
    assert(m * (den - kn) + m * kn == m * den) by (nonlinear_arith);
}

/// Law: every line hit lies exactly on the plane — the plane equation,
/// cleared of the hit's denominator, holds with no tolerance:
/// `normal . nums == den * (normal . pos)`.
pub proof fn lemma_line_hit_on_plane(plane: Plane, p1: V3, p2: V3)
    requires
        bounded(plane.pos, COORD_MAX as int),
        bounded(plane.normal, COORD_MAX as int),
        bounded(p1, COORD_MAX as int),
        bounded(p2, COORD_MAX as int),
    ensures
        spec_line_hit(plane, p1, p2) matches Some(p) ==> dot3(plane.normal.ti(), p.nums())
            == p.den * dot3(plane.normal.ti(), plane.pos.ti()),
{
    if plane.line_den0(p1, p2) != 0 {
        lemma_line_hit_decomposed(plane, p1, p2);
        let p = spec_line_hit(plane, p1, p2)->Some_0;
        let den = plane.line_den(p1, p2);
        let kn = plane.line_kn(p1, p2);
        let n = plane.normal.ti();
        let den0 = plane.line_den0(p1, p2);
        let kn0 = plane.line_kn0(p1);
        let a0 = n.0 * (p2.0 - p1.0);
        let a1 = n.1 * (p2.1 - p1.1);
        let a2 = n.2 * (p2.2 - p1.2);
        assert(n.0 * p.nums().0 == den * (n.0 * p1.0) + kn * a0) by (nonlinear_arith)
            requires
                p.nums().0 == p1.0 * den + (p2.0 - p1.0) * kn,
                a0 == n.0 * (p2.0 - p1.0),
        ;
        assert(n.1 * p.nums().1 == den * (n.1 * p1.1) + kn * a1) by (nonlinear_arith)
            requires
                p.nums().1 == p1.1 * den + (p2.1 - p1.1) * kn,
                a1 == n.1 * (p2.1 - p1.1),
        ;
        assert(n.2 * p.nums().2 == den * (n.2 * p1.2) + kn * a2) by (nonlinear_arith)
            requires
                p.nums().2 == p1.2 * den + (p2.2 - p1.2) * kn,
                a2 == n.2 * (p2.2 - p1.2),
        ;
        assert(den * (n.0 * p1.0) + den * (n.1 * p1.1) + den * (n.2 * p1.2) == den * dot3(
            n,
            p1.ti(),
        )) by (nonlinear_arith)
            requires
                dot3(n, p1.ti()) == n.0 * p1.0 + n.1 * p1.1 + n.2 * p1.2,
        ;
        assert(kn * a0 + kn * a1 + kn * a2 == kn * den0) by (nonlinear_arith)
            requires
                den0 == a0 + a1 + a2,
        ;
        assert(dot3(n, p.nums()) == den * dot3(n, p1.ti()) + kn * den0);
        assert(kn0 == dot3(n, plane.pos.ti()) - dot3(n, p1.ti())) by (nonlinear_arith)
            requires
                kn0 == n.0 * (plane.pos.0 - p1.0) + n.1 * (plane.pos.1 - p1.1) + n.2 * (plane.pos.2
                    - p1.2),
                dot3(n, plane.pos.ti()) == n.0 * plane.pos.0 + n.1 * plane.pos.1 + n.2
                    * plane.pos.2,
                dot3(n, p1.ti()) == n.0 * p1.0 + n.1 * p1.1 + n.2 * p1.2,
        ;
        if den0 < 0 {
            assert(den * dot3(n, p1.ti()) + kn * den0 == den * dot3(n, plane.pos.ti()))
                by (nonlinear_arith)
                requires
                    den == -den0,
                    kn == -kn0,
                    kn0 == dot3(n, plane.pos.ti()) - dot3(n, p1.ti()),
            ;
        } else {
            assert(den * dot3(n, p1.ti()) + kn * den0 == den * dot3(n, plane.pos.ti()))
                by (nonlinear_arith)
                requires
                    den == den0,
                    kn == kn0,
                    kn0 == dot3(n, plane.pos.ti()) - dot3(n, p1.ti()),
            ;
        }
    }
}

/// Law: a segment whose endpoints lie strictly on opposite sides of the
/// plane always yields a hit; one whose endpoints lie strictly on the same
/// side never does.
pub proof fn lemma_segment_side_crossing(plane: Plane, p1: V3, p2: V3)
    requires
        bounded(plane.pos, COORD_MAX as int),
        bounded(plane.normal, COORD_MAX as int),
        bounded(p1, COORD_MAX as int),
        bounded(p2, COORD_MAX as int),
    ensures
        plane.side(p1) * plane.side(p2) < 0 ==> spec_segment_hit(plane, p1, p2) is Some,
        plane.side(p1) > 0 && plane.side(p2) > 0 ==> spec_segment_hit(plane, p1, p2) is None,
        plane.side(p1) < 0 && plane.side(p2) < 0 ==> spec_segment_hit(plane, p1, p2) is None,
{
    let n = plane.normal.ti();
    let s1 = plane.side(p1);
    let s2 = plane.side(p2);
    let den0 = plane.line_den0(p1, p2);
    let kn0 = plane.line_kn0(p1);
    assert(den0 == s2 - s1 && kn0 == -s1) by (nonlinear_arith)
        requires
            den0 == n.0 * (p2.0 - p1.0) + n.1 * (p2.1 - p1.1) + n.2 * (p2.2 - p1.2),
            kn0 == n.0 * (plane.pos.0 - p1.0) + n.1 * (plane.pos.1 - p1.1) + n.2 * (plane.pos.2
                - p1.2),
            s1 == n.0 * (p1.0 - plane.pos.0) + n.1 * (p1.1 - plane.pos.1) + n.2 * (p1.2
                - plane.pos.2),
            s2 == n.0 * (p2.0 - plane.pos.0) + n.1 * (p2.1 - plane.pos.1) + n.2 * (p2.2
                - plane.pos.2),
    ;
    if s1 * s2 < 0 {
        assert((s1 < 0 && s2 > 0) || (s1 > 0 && s2 < 0)) by (nonlinear_arith)
            requires
                s1 * s2 < 0,
        ;
        assert(den0 != 0);
        lemma_seg_between(plane, p1, p2);
        assert(0 <= plane.line_kn(p1, p2) <= plane.line_den(p1, p2));
    }
    if (s1 > 0 && s2 > 0) || (s1 < 0 && s2 < 0) {
        if den0 != 0 {
            lemma_seg_between(plane, p1, p2);
            assert(!(0 <= plane.line_kn(p1, p2) <= plane.line_den(p1, p2)));
        }
    }
}

} // verus!
