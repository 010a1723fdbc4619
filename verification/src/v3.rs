use vstd::prelude::*;
use crate::ray::Ray;

verus! {

/// Every coordinate handled by the intersection engine lies on an integer
/// grid and is bounded in magnitude by this constant.  The bound keeps every
/// intermediate product of the exact arithmetic below inside `i64` / `i128`:
/// the deepest expression of the engine (the triangle containment test) grows
/// like the seventh power of a coordinate, and `9216 * COORD_MAX^7` still
/// fits comfortably in `i128`.
pub const COORD_MAX: i64 = 50000;

/// A point or displacement in 3-space, on the integer grid.  The type carries
/// no distinction between positions and directions; callers track semantics.
#[derive(Clone, Copy, Debug, PartialEq, Eq, Structural)]
pub struct V3(pub i64, pub i64, pub i64);

/// Absolute value over the unbounded integers.
pub open spec fn absi(x: int) -> int {
    if x < 0 {
        -x
    } else {
        x
    }
}

/// All three components of `v` are bounded by `b` in magnitude.
pub open spec fn bounded(v: V3, b: int) -> bool {
    absi(v.0 as int) <= b && absi(v.1 as int) <= b && absi(v.2 as int) <= b
}

/// All three components of the integer triple `a` are bounded by `b`.
pub open spec fn bounded3(a: (int, int, int), b: int) -> bool {
    absi(a.0) <= b && absi(a.1) <= b && absi(a.2) <= b
}

/// Exact component-wise sum, over the unbounded integers.
pub open spec fn add3(a: (int, int, int), b: (int, int, int)) -> (int, int, int) {
    (a.0 + b.0, a.1 + b.1, a.2 + b.2)
}

/// Exact component-wise difference, over the unbounded integers.
pub open spec fn sub3(a: (int, int, int), b: (int, int, int)) -> (int, int, int) {
    (a.0 - b.0, a.1 - b.1, a.2 - b.2)
}

/// Exact scaling by an integer factor.
pub open spec fn scale3(a: (int, int, int), k: int) -> (int, int, int) {
    (a.0 * k, a.1 * k, a.2 * k)
}

/// Exact dot product, over the unbounded integers.
pub open spec fn dot3(a: (int, int, int), b: (int, int, int)) -> int {
    a.0 * b.0 + a.1 * b.1 + a.2 * b.2
}

/// Exact cross product, over the unbounded integers.
pub open spec fn cross3(a: (int, int, int), b: (int, int, int)) -> (int, int, int) {
    (a.1 * b.2 - a.2 * b.1, a.2 * b.0 - a.0 * b.2, a.0 * b.1 - a.1 * b.0)
}

impl V3 {
    /// The components of the vector, as unbounded integers.
    pub open spec fn ti(self) -> (int, int, int) {
        (self.0 as int, self.1 as int, self.2 as int)
    }

    /// Exact component-wise difference.
    pub fn sub(self, rhs: V3) -> (r: V3)
        requires
            i64::MIN <= self.0 - rhs.0 <= i64::MAX,
            i64::MIN <= self.1 - rhs.1 <= i64::MAX,
            i64::MIN <= self.2 - rhs.2 <= i64::MAX,
        ensures
            r.ti() == sub3(self.ti(), rhs.ti()),
    {
        V3(self.0 - rhs.0, self.1 - rhs.1, self.2 - rhs.2)
    }

    /// Exact component-wise sum.
    pub fn add(self, rhs: V3) -> (r: V3)
        requires
            i64::MIN <= self.0 + rhs.0 <= i64::MAX,
            i64::MIN <= self.1 + rhs.1 <= i64::MAX,
            i64::MIN <= self.2 + rhs.2 <= i64::MAX,
        ensures
            r.ti() == add3(self.ti(), rhs.ti()),
    {
        V3(self.0 + rhs.0, self.1 + rhs.1, self.2 + rhs.2)
    }

    /// Exact dot product.  The precondition bounds the sum of the absolute
    /// products, so every intermediate value fits in `i64`.
    pub fn dot(&self, other: V3) -> (r: i64)
        requires
            absi(self.0 as int) * absi(other.0 as int) + absi(self.1 as int) * absi(other.1 as int)
                + absi(self.2 as int) * absi(other.2 as int) <= i64::MAX,
        ensures
            r == dot3(self.ti(), other.ti()),
    {
        proof {
            lemma_mul_abs(self.0 as int, other.0 as int, absi(self.0 as int), absi(other.0 as int));
            lemma_mul_abs(self.1 as int, other.1 as int, absi(self.1 as int), absi(other.1 as int));
            lemma_mul_abs(self.2 as int, other.2 as int, absi(self.2 as int), absi(other.2 as int));
        }
        self.0 * other.0 + self.1 * other.1 + self.2 * other.2
    }

    /// Exact cross product.  The preconditions bound each component's pair of
    /// absolute products, so every intermediate value fits in `i64`.
    pub fn cross(&self, other: V3) -> (r: V3)
        requires
            absi(self.1 as int) * absi(other.2 as int) + absi(self.2 as int) * absi(other.1 as int)
                <= i64::MAX,
            absi(self.2 as int) * absi(other.0 as int) + absi(self.0 as int) * absi(other.2 as int)
                <= i64::MAX,
            absi(self.0 as int) * absi(other.1 as int) + absi(self.1 as int) * absi(other.0 as int)
                <= i64::MAX,
        ensures
            r.ti() == cross3(self.ti(), other.ti()),
    {
        proof {
            lemma_mul_abs(self.1 as int, other.2 as int, absi(self.1 as int), absi(other.2 as int));
            lemma_mul_abs(self.2 as int, other.1 as int, absi(self.2 as int), absi(other.1 as int));
            lemma_mul_abs(self.2 as int, other.0 as int, absi(self.2 as int), absi(other.0 as int));
            lemma_mul_abs(self.0 as int, other.2 as int, absi(self.0 as int), absi(other.2 as int));
            lemma_mul_abs(self.0 as int, other.1 as int, absi(self.0 as int), absi(other.1 as int));
            lemma_mul_abs(self.1 as int, other.0 as int, absi(self.1 as int), absi(other.0 as int));
        }
        V3(
            self.1 * other.2 - self.2 * other.1,
            self.2 * other.0 - self.0 * other.2,
            self.0 * other.1 - self.1 * other.0,
        )
    }
}

/// A table of unit-circle samples `(cos, sin)`, scaled to the grid: every
/// entry is bounded by `COORD_MAX`.
pub open spec fn circle_ok(s: Seq<(i64, i64)>) -> bool {
    forall|k: int|
        0 <= k < s.len() ==> absi((#[trigger] s[k]).0 as int) <= COORD_MAX && absi(s[k].1 as int)
            <= COORD_MAX
}

/// The direction a radial fan places in the plane perpendicular to `axis`
/// (0 = x, 1 = y, anything else = z): the two free components carry the
/// unit-circle sample `(c, s)`, the axis component is zero.
pub open spec fn fan_dir(axis: int, c: i64, s: i64) -> V3 {
    if axis == 0 {
        V3(0, c, s)
    } else if axis == 1 {
        V3(c, 0, s)
    } else {
        V3(c, s, 0)
    }
}

impl V3 {
    /// A radial fan of `count` rays around `axis`, all starting here.  The
    /// caller supplies the unit-circle samples `(cos, sin)`, scaled to the
    /// grid, one per ray, evenly spaced by angle `2 pi / count`: the
    /// trigonometry is the caller's, the placement and the ordering are the
    /// sampler's.
    pub fn radiative_ray<'a>(
        &self,
        axis: usize,
        count: usize,
        circle: &'a Vec<(i64, i64)>,
    ) -> (r: RadiativeLine<'a>)
        requires
            circle@.len() == count,
            bounded(*self, COORD_MAX as int),
            forall|k: int|
                0 <= k < circle@.len() ==> absi((#[trigger] circle@[k]).0 as int) <= COORD_MAX
                    && absi(circle@[k].1 as int) <= COORD_MAX,
        ensures
            r.wf(),
            r.count == count,
            r.axis == axis,
            r.origin == *self,
            r.next == 0,
            r.circle@ == circle@,
    {
        RadiativeLine { count, axis, origin: *self, next: 0, circle }
    }
}

/// A finite, non-restartable lazy sequence of rays: a radial fan around one
/// coordinate axis.  Yields exactly `count` rays, then `None` forever.
pub struct RadiativeLine<'a> {
    pub count: usize,
    pub axis: usize,
    pub origin: V3,
    pub next: usize,
    pub circle: &'a Vec<(i64, i64)>,
}

impl<'a> RadiativeLine<'a> {
    /// The sampler's invariant: one bounded unit-circle sample per ray, a
    /// bounded origin.
    pub open spec fn wf(&self) -> bool {
        self.circle@.len() == self.count && bounded(self.origin, COORD_MAX as int) && forall|
            k: int,
        |
            0 <= k < self.circle@.len() ==> absi((#[trigger] self.circle@[k]).0 as int) <= COORD_MAX
                && absi(self.circle@[k].1 as int) <= COORD_MAX
    }

    /// The next ray of the fan: origin at the fan's center, direction the
    /// next circle sample placed around the axis; `None` once `count` rays
    /// have been drawn.
    pub fn next(&mut self) -> (r: Option<Ray>)
        requires
            old(self).wf(),
        ensures
            final(self).wf(),
            final(self).count == old(self).count,
            final(self).axis == old(self).axis,
            final(self).origin == old(self).origin,
            final(self).circle@ == old(self).circle@,
            old(self).next < old(self).count ==> final(self).next == old(self).next + 1 && r
                == Some(
                Ray {
                    start: old(self).origin,
                    direction: fan_dir(
                        old(self).axis as int,
                        old(self).circle@[old(self).next as int].0,
                        old(self).circle@[old(self).next as int].1,
                    ),
                },
            ),
            old(self).next >= old(self).count ==> r is None && final(self).next == old(self).next,
            r matches Some(ray) ==> bounded(ray.start, COORD_MAX as int) && bounded(
                ray.direction,
                COORD_MAX as int,
            ),
    {
        if self.next >= self.count {
            return None;
        }
        let pair = self.circle[self.next];
        self.next += 1;
        let dir = if self.axis == 0 {
            V3(0, pair.0, pair.1)
        } else if self.axis == 1 {
            V3(pair.0, 0, pair.1)
        } else {
            V3(pair.0, pair.1, 0)
        };
        Some(Ray { direction: dir, start: self.origin })
    }
}

/// Magnitude bounds on two factors bound their product.
pub proof fn lemma_mul_abs(a: int, b: int, aa: int, bb: int)
    by (nonlinear_arith)
    requires
        -aa <= a <= aa,
        -bb <= b <= bb,
    ensures
        -(aa * bb) <= a * b <= aa * bb,
{
}

/// Component bounds on two vectors bound their dot product, and bound the
/// sum of absolute products that `V3::dot` asks of its caller.
pub proof fn lemma_dot_bound(a: (int, int, int), b: (int, int, int), ma: int, mb: int)
    requires
        bounded3(a, ma),
        bounded3(b, mb),
    ensures
        -(3 * (ma * mb)) <= dot3(a, b) <= 3 * (ma * mb),
        absi(a.0) * absi(b.0) + absi(a.1) * absi(b.1) + absi(a.2) * absi(b.2) <= 3 * (ma * mb),
{
    lemma_mul_abs(a.0, b.0, ma, mb);
    lemma_mul_abs(a.1, b.1, ma, mb);
    lemma_mul_abs(a.2, b.2, ma, mb);
    lemma_mul_abs(absi(a.0), absi(b.0), ma, mb);
    lemma_mul_abs(absi(a.1), absi(b.1), ma, mb);
    lemma_mul_abs(absi(a.2), absi(b.2), ma, mb);
}

/// Component bounds on two vectors bound their cross product, and bound the
/// sums of absolute products that `V3::cross` asks of its caller.
pub proof fn lemma_cross_bound(a: (int, int, int), b: (int, int, int), ma: int, mb: int)
    requires
        bounded3(a, ma),
        bounded3(b, mb),
    ensures
        bounded3(cross3(a, b), 2 * (ma * mb)),
        absi(a.1) * absi(b.2) + absi(a.2) * absi(b.1) <= 2 * (ma * mb),
        absi(a.2) * absi(b.0) + absi(a.0) * absi(b.2) <= 2 * (ma * mb),
        absi(a.0) * absi(b.1) + absi(a.1) * absi(b.0) <= 2 * (ma * mb),
{
    lemma_mul_abs(a.1, b.2, ma, mb);
    lemma_mul_abs(a.2, b.1, ma, mb);
    lemma_mul_abs(a.2, b.0, ma, mb);
    lemma_mul_abs(a.0, b.2, ma, mb);
    lemma_mul_abs(a.0, b.1, ma, mb);
    lemma_mul_abs(a.1, b.0, ma, mb);
    lemma_mul_abs(absi(a.1), absi(b.2), ma, mb);
    lemma_mul_abs(absi(a.2), absi(b.1), ma, mb);
    lemma_mul_abs(absi(a.2), absi(b.0), ma, mb);
    lemma_mul_abs(absi(a.0), absi(b.2), ma, mb);
    lemma_mul_abs(absi(a.0), absi(b.1), ma, mb);
    lemma_mul_abs(absi(a.1), absi(b.0), ma, mb);
}

} // verus!
