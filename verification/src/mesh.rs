use vstd::prelude::*;
use crate::v3::{
    V3, absi, bounded, dot3, sub3, add3, scale3, cross3, lemma_mul_abs, lemma_dot_bound,
    lemma_cross_bound, COORD_MAX,
};
use crate::rat::{
    Rat, RatPoint, hits_ok, insert_by_t, sort_by_t, sorted_by_t, insert_hit,
};
use crate::plane::{Plane, spec_segment_hit, slice_pt_ok, slice_pts_ok};
use crate::ray::Ray;

verus! {

/// The triangle's plane normal, as the engine computes it:
/// `(p1 - p2) x (p2 - p3)`.
pub open spec fn tri_normal(p1: V3, p2: V3, p3: V3) -> (int, int, int) {
    cross3(sub3(p1.ti(), p2.ti()), sub3(p2.ti(), p3.ti()))
}

/// Denominator of the exact ray parameter before normalization:
/// `normal . direction`.  Zero exactly when the ray is parallel to the
/// triangle's plane.
pub open spec fn face_nd0(p1: V3, p2: V3, p3: V3, ray: Ray) -> int {
    dot3(tri_normal(p1, p2, p3), ray.direction.ti())
}

/// Numerator of the exact ray parameter before normalization:
/// `normal . (p1 - start)`.
pub open spec fn face_tn0(p1: V3, p2: V3, p3: V3, ray: Ray) -> int {
    dot3(tri_normal(p1, p2, p3), sub3(p1.ti(), ray.start.ti()))
}

/// The ray parameter's denominator, normalized to be positive: the exact
/// hit parameter is `t = face_tn / face_td`.
pub open spec fn face_td(p1: V3, p2: V3, p3: V3, ray: Ray) -> int {
    absi(face_nd0(p1, p2, p3, ray))
}

/// The ray parameter's numerator, under the same normalization.
pub open spec fn face_tn(p1: V3, p2: V3, p3: V3, ray: Ray) -> int {
    if face_nd0(p1, p2, p3, ray) < 0 {
        -face_tn0(p1, p2, p3, ray)
    } else {
        face_tn0(p1, p2, p3, ray)
    }
}

/// Numerators of the exact hit point over denominator `face_td`:
/// `start * td + direction * tn`, i.e. `start + direction * t` cleared of
/// the denominator.
pub open spec fn face_w(p1: V3, p2: V3, p3: V3, ray: Ray) -> (int, int, int) {
    add3(
        scale3(ray.start.ti(), face_td(p1, p2, p3, ray)),
        scale3(ray.direction.ti(), face_tn(p1, p2, p3, ray)),
    )
}

/// The oriented edge test of the containment check, cleared of the hit's
/// denominator `td`: the sign of `(b - a) x (P - b) . normal` for the hit
/// point `P = w / td`.  Strictly positive for all three edges exactly when
/// the hit lies strictly inside the triangle.
pub open spec fn edge_val(a: V3, b: V3, w: (int, int, int), td: int, n: (int, int, int)) -> int {
    dot3(cross3(sub3(b.ti(), a.ti()), sub3(w, scale3(b.ti(), td))), n)
}

/// What `intersect_face` returns: `None` when the ray is parallel to the
/// triangle's plane, when the hit lies at or behind the ray origin
/// (`t <= 0`), or when the hit is not strictly inside the triangle
/// (points exactly on an edge are excluded); otherwise the exact rational
/// hit point together with the exact parameter `t`.
pub open spec fn spec_face_hit(p1: V3, p2: V3, p3: V3, ray: Ray) -> Option<(RatPoint, Rat)> {
    let n = tri_normal(p1, p2, p3);
    if face_nd0(p1, p2, p3, ray) == 0 {
        None
    } else {
        let tn = face_tn(p1, p2, p3, ray);
        let td = face_td(p1, p2, p3, ray);
        if tn <= 0 {
            None
        } else {
            let w = face_w(p1, p2, p3, ray);
            if edge_val(p1, p2, w, td, n) > 0 && edge_val(p2, p3, w, td, n) > 0 && edge_val(
                p3,
                p1,
                w,
                td,
                n,
            ) > 0 {
                Some(
                    (
                        RatPoint { xn: w.0 as i128, yn: w.1 as i128, zn: w.2 as i128, den: td as i128 },
                        Rat { num: tn as i128, den: td as i128 },
                    ),
                )
            } else {
                None
            }
        }
    }
}

/// One oriented edge test, evaluated exactly in `i128`.  The preconditions
/// are the magnitudes that `intersect_face` establishes; under them the
/// deepest product stays below `i128::MAX`.
fn edge_test(a: V3, b: V3, w: (i128, i128, i128), td: i64, n: V3) -> (r: bool)
    requires
        bounded(a, COORD_MAX as int),
        bounded(b, COORD_MAX as int),
        bounded(n, 20_000_000_000),
        absi(td as int) <= 3_000_000_000_000_000,
        absi(w.0 as int) <= 450_000_000_000_000_000_000,
        absi(w.1 as int) <= 450_000_000_000_000_000_000,
        absi(w.2 as int) <= 450_000_000_000_000_000_000,
    ensures
        r == (edge_val(a, b, (w.0 as int, w.1 as int, w.2 as int), td as int, n.ti()) > 0),
{
    let e0 = b.0 as i128 - a.0 as i128;
    let e1 = b.1 as i128 - a.1 as i128;
    let e2 = b.2 as i128 - a.2 as i128;
    proof {
        lemma_mul_abs(b.0 as int, td as int, COORD_MAX as int, 3_000_000_000_000_000);
        lemma_mul_abs(b.1 as int, td as int, COORD_MAX as int, 3_000_000_000_000_000);
        lemma_mul_abs(b.2 as int, td as int, COORD_MAX as int, 3_000_000_000_000_000);
    }
    let q0 = w.0 - b.0 as i128 * td as i128;
    let q1 = w.1 - b.1 as i128 * td as i128;
    let q2 = w.2 - b.2 as i128 * td as i128;
    proof {
        lemma_mul_abs(e1 as int, q2 as int, 100_000, 600_000_000_000_000_000_000);
        lemma_mul_abs(e2 as int, q1 as int, 100_000, 600_000_000_000_000_000_000);
        lemma_mul_abs(e2 as int, q0 as int, 100_000, 600_000_000_000_000_000_000);
        lemma_mul_abs(e0 as int, q2 as int, 100_000, 600_000_000_000_000_000_000);
        lemma_mul_abs(e0 as int, q1 as int, 100_000, 600_000_000_000_000_000_000);
        lemma_mul_abs(e1 as int, q0 as int, 100_000, 600_000_000_000_000_000_000);
    }
    let c0 = e1 * q2 - e2 * q1;
    let c1 = e2 * q0 - e0 * q2;
    let c2 = e0 * q1 - e1 * q0;
    proof {
        lemma_mul_abs(c0 as int, n.0 as int, 120_000_000_000_000_000_000_000_000, 20_000_000_000);
        lemma_mul_abs(c1 as int, n.1 as int, 120_000_000_000_000_000_000_000_000, 20_000_000_000);
        lemma_mul_abs(c2 as int, n.2 as int, 120_000_000_000_000_000_000_000_000, 20_000_000_000);
    }
    let dv = c0 * n.0 as i128 + c1 * n.1 as i128 + c2 * n.2 as i128;
    dv > 0
}

/// Intersect a ray with the triangle `p1 p2 p3`.  Exact arithmetic: the
/// parallel test and the strict containment tests are decided on the
/// integers, with no tolerance, and a hit is returned as an exact rational
/// point with its exact parameter `t > 0`.
pub fn intersect_face(p1: V3, p2: V3, p3: V3, ray: &Ray) -> (r: Option<(RatPoint, Rat)>)
    requires
        bounded(p1, COORD_MAX as int),
        bounded(p2, COORD_MAX as int),
        bounded(p3, COORD_MAX as int),
        bounded(ray.start, COORD_MAX as int),
        bounded(ray.direction, COORD_MAX as int),
    ensures
        r == spec_face_hit(p1, p2, p3, *ray),
        r matches Some(h) ==> h.0.wf() && h.1.wf() && h.1.num > 0 && h.1.mag_le(
            6_000_000_000_000_000,
        ) && h.0.den == h.1.den,
{
    let t1 = p1.sub(p2);
    let t2 = p2.sub(p3);
    proof {
        lemma_cross_bound(t1.ti(), t2.ti(), 2 * COORD_MAX as int, 2 * COORD_MAX as int);
    }
    let normal = t1.cross(t2);
    proof {
        lemma_dot_bound(normal.ti(), ray.direction.ti(), 20_000_000_000, COORD_MAX as int);
    }
    let nd0 = normal.dot(ray.direction);
    if nd0 == 0 {
        return None;
    }
    let sd = p1.sub(ray.start);
    proof {
        lemma_dot_bound(normal.ti(), sd.ti(), 20_000_000_000, 2 * COORD_MAX as int);
    }
    let tn0 = normal.dot(sd);
    let (tn, td): (i64, i64) = if nd0 < 0 {
        (-tn0, -nd0)
    } else {
        (tn0, nd0)
    };
    if tn <= 0 {
        return None;
    }
    proof {
        lemma_mul_abs(ray.start.0 as int, td as int, COORD_MAX as int, 3_000_000_000_000_000);
        lemma_mul_abs(ray.start.1 as int, td as int, COORD_MAX as int, 3_000_000_000_000_000);
        lemma_mul_abs(ray.start.2 as int, td as int, COORD_MAX as int, 3_000_000_000_000_000);
        lemma_mul_abs(ray.direction.0 as int, tn as int, COORD_MAX as int, 6_000_000_000_000_000);
        lemma_mul_abs(ray.direction.1 as int, tn as int, COORD_MAX as int, 6_000_000_000_000_000);
        lemma_mul_abs(ray.direction.2 as int, tn as int, COORD_MAX as int, 6_000_000_000_000_000);
    }
    let w0 = ray.start.0 as i128 * td as i128 + ray.direction.0 as i128 * tn as i128;
    let w1 = ray.start.1 as i128 * td as i128 + ray.direction.1 as i128 * tn as i128;
    let w2 = ray.start.2 as i128 * td as i128 + ray.direction.2 as i128 * tn as i128;
    let flag = edge_test(p1, p2, (w0, w1, w2), td, normal) && edge_test(
        p2,
        p3,
        (w0, w1, w2),
        td,
        normal,
    ) && edge_test(p3, p1, (w0, w1, w2), td, normal);
    if !flag {
        return None;
    }
    Some(
        (
            RatPoint { xn: w0, yn: w1, zn: w2, den: td as i128 },
            Rat { num: tn as i128, den: td as i128 },
        ),
    )
}

/// Law: a ray exactly parallel to the triangle's plane yields no hit.
pub proof fn lemma_parallel_ray_misses(p1: V3, p2: V3, p3: V3, ray: Ray)
    requires
        dot3(tri_normal(p1, p2, p3), ray.direction.ti()) == 0,
    ensures
        spec_face_hit(p1, p2, p3, ray) is None,
{
}

/// Law: a hit point lying exactly on one of the triangle's edges yields no
/// hit — the containment test is strict.
pub proof fn lemma_edge_hit_excluded(p1: V3, p2: V3, p3: V3, ray: Ray)
    requires
        edge_val(
            p1,
            p2,
            face_w(p1, p2, p3, ray),
            face_td(p1, p2, p3, ray),
            tri_normal(p1, p2, p3),
        ) == 0 || edge_val(
            p2,
            p3,
            face_w(p1, p2, p3, ray),
            face_td(p1, p2, p3, ray),
            tri_normal(p1, p2, p3),
        ) == 0 || edge_val(
            p3,
            p1,
            face_w(p1, p2, p3, ray),
            face_td(p1, p2, p3, ray),
            tri_normal(p1, p2, p3),
        ) == 0,
    ensures
        spec_face_hit(p1, p2, p3, ray) is None,
{
}

/// Law: a face hit lies exactly in the triangle's plane — the plane
/// equation `normal . P + d == 0` with `d = -(normal . p1)`, cleared of
/// the hit's denominator, holds with no tolerance; and its parameter `t`
/// is strictly positive.
pub proof fn lemma_face_hit_on_plane(p1: V3, p2: V3, p3: V3, ray: Ray)
    requires
        bounded(p1, COORD_MAX as int),
        bounded(p2, COORD_MAX as int),
        bounded(p3, COORD_MAX as int),
        bounded(ray.start, COORD_MAX as int),
        bounded(ray.direction, COORD_MAX as int),
    ensures
        spec_face_hit(p1, p2, p3, ray) matches Some(h) ==> dot3(
            tri_normal(p1, p2, p3),
            h.0.nums(),
        ) == h.0.den * dot3(tri_normal(p1, p2, p3), p1.ti()) && h.1.num > 0,
{
    if spec_face_hit(p1, p2, p3, ray) is Some {
        lemma_cross_bound(
            sub3(p1.ti(), p2.ti()),
            sub3(p2.ti(), p3.ti()),
            2 * COORD_MAX as int,
            2 * COORD_MAX as int,
        );
        lemma_dot_bound(tri_normal(p1, p2, p3), ray.direction.ti(), 20_000_000_000, COORD_MAX as int);
        lemma_dot_bound(
            tri_normal(p1, p2, p3),
            sub3(p1.ti(), ray.start.ti()),
            20_000_000_000,
            2 * COORD_MAX as int,
        );
        lemma_mul_abs(
            ray.start.ti().0,
            face_td(p1, p2, p3, ray),
            COORD_MAX as int,
            3_000_000_000_000_000,
        );
        lemma_mul_abs(
            ray.start.ti().1,
            face_td(p1, p2, p3, ray),
            COORD_MAX as int,
            3_000_000_000_000_000,
        );
        lemma_mul_abs(
            ray.start.ti().2,
            face_td(p1, p2, p3, ray),
            COORD_MAX as int,
            3_000_000_000_000_000,
        );
        lemma_mul_abs(
            ray.direction.ti().0,
            face_tn(p1, p2, p3, ray),
            COORD_MAX as int,
            6_000_000_000_000_000,
        );
        lemma_mul_abs(
            ray.direction.ti().1,
            face_tn(p1, p2, p3, ray),
            COORD_MAX as int,
            6_000_000_000_000_000,
        );
        lemma_mul_abs(
            ray.direction.ti().2,
            face_tn(p1, p2, p3, ray),
            COORD_MAX as int,
            6_000_000_000_000_000,
        );
        let n = tri_normal(p1, p2, p3);
        let s = ray.start.ti();
        let dir = ray.direction.ti();
        let nd0 = face_nd0(p1, p2, p3, ray);
        let tn0 = face_tn0(p1, p2, p3, ray);
        let tn = face_tn(p1, p2, p3, ray);
        let td = face_td(p1, p2, p3, ray);
        let w = face_w(p1, p2, p3, ray);
        assert(n.0 * w.0 == td * (n.0 * s.0) + tn * (n.0 * dir.0)) by (nonlinear_arith)
            requires
                w.0 == s.0 * td + dir.0 * tn,
        ;
        assert(n.1 * w.1 == td * (n.1 * s.1) + tn * (n.1 * dir.1)) by (nonlinear_arith)
            requires
                w.1 == s.1 * td + dir.1 * tn,
        ;
        assert(n.2 * w.2 == td * (n.2 * s.2) + tn * (n.2 * dir.2)) by (nonlinear_arith)
            requires
                w.2 == s.2 * td + dir.2 * tn,
        ;
        assert(td * (n.0 * s.0) + td * (n.1 * s.1) + td * (n.2 * s.2) == td * dot3(n, s))
            by (nonlinear_arith)
            requires
                dot3(n, s) == n.0 * s.0 + n.1 * s.1 + n.2 * s.2,
        ;
        assert(tn * (n.0 * dir.0) + tn * (n.1 * dir.1) + tn * (n.2 * dir.2) == tn * nd0)
            by (nonlinear_arith)
            requires
                nd0 == n.0 * dir.0 + n.1 * dir.1 + n.2 * dir.2,
        ;
        assert(dot3(n, w) == td * dot3(n, s) + tn * nd0);
        assert(tn0 == dot3(n, p1.ti()) - dot3(n, s)) by (nonlinear_arith)
            requires
                tn0 == n.0 * (p1.0 - s.0) + n.1 * (p1.1 - s.1) + n.2 * (p1.2 - s.2),
                dot3(n, p1.ti()) == n.0 * p1.0 + n.1 * p1.1 + n.2 * p1.2,
                dot3(n, s) == n.0 * s.0 + n.1 * s.1 + n.2 * s.2,
        ;
        if nd0 < 0 {
            assert(td * dot3(n, s) + tn * nd0 == td * dot3(n, p1.ti())) by (nonlinear_arith)
                requires
                    td == -nd0,
                    tn == -tn0,
                    tn0 == dot3(n, p1.ti()) - dot3(n, s),
            ;
        } else {
            assert(td * dot3(n, s) + tn * nd0 == td * dot3(n, p1.ti())) by (nonlinear_arith)
                requires
                    td == nd0,
                    tn == tn0,
                    tn0 == dot3(n, p1.ti()) - dot3(n, s),
            ;
        }
    }
}

/// Multiplying a truncated third or half back never exceeds the whole.
pub proof fn lemma_div_mul_le(l: int)
    by (nonlinear_arith)
    requires
        l >= 0,
    ensures
        3 * (l / 3) <= l,
        2 * (l / 2) <= l,
{
}

/// A mesh: a flattened vertex buffer (three coordinates per vertex) and one
/// index list, read either in runs of three (triangular faces) or in runs
/// of two (wireframe line segments), depending on which accessor the caller
/// uses — exactly as the loader hands it over.
pub struct Mesh {
    pub positions: Vec<i64>,
    pub indices: Vec<usize>,
}

/// The component of `v` along coordinate axis `axis` (0 = x, 1 = y,
/// anything else = z).
pub open spec fn axis_val(v: V3, axis: int) -> int {
    if axis == 0 {
        v.0 as int
    } else if axis == 1 {
        v.1 as int
    } else {
        v.2 as int
    }
}

/// A vertex buffer and an index list form a well-formed mesh when the
/// buffer holds whole vertices, every coordinate lies on the bounded grid,
/// and every index points at a vertex.
pub open spec fn parts_ok(positions: Seq<i64>, indices: Seq<usize>) -> bool {
    positions.len() % 3 == 0 && (forall|i: int|
        0 <= i < positions.len() ==> -COORD_MAX <= #[trigger] positions[i] <= COORD_MAX) && (
    forall|i: int| 0 <= i < indices.len() ==> #[trigger] indices[i] < positions.len() / 3)
}

impl Mesh {
    /// The mesh invariant that every query relies on.
    pub open spec fn wf(&self) -> bool {
        parts_ok(self.positions@, self.indices@)
    }

    pub open spec fn spec_vertex_count(&self) -> int {
        self.positions@.len() as int / 3
    }

    pub open spec fn spec_face_count(&self) -> int {
        self.indices@.len() as int / 3
    }

    pub open spec fn spec_line_count(&self) -> int {
        self.indices@.len() as int / 2
    }

    /// The vertex at index `i`, read from the flattened buffer.
    pub open spec fn spec_vertex(&self, i: int) -> V3 {
        V3(self.positions@[3 * i], self.positions@[3 * i + 1], self.positions@[3 * i + 2])
    }

    /// Validate a vertex buffer and an index list as the loader hands them
    /// over; `None` exactly when they do not form a well-formed mesh.
    pub fn from_parts(positions: Vec<i64>, indices: Vec<usize>) -> (r: Option<Mesh>)
        ensures
            r matches Some(m) ==> m.wf() && m.positions@ == positions@ && m.indices@ == indices@,
            r is Some <==> parts_ok(positions@, indices@),
    {
        if positions.len() % 3 != 0 {
            return None;
        }
        let vc = positions.len() / 3;
        let mut i: usize = 0;
        while i < positions.len()
            invariant
                i <= positions@.len(),
                forall|k: int|
                    0 <= k < i ==> -COORD_MAX <= #[trigger] positions@[k] <= COORD_MAX,
            decreases positions@.len() - i,
        {
            let c = positions[i];
            if c < -COORD_MAX || c > COORD_MAX {
                return None;
            }
            i += 1;
        }
        let mut j: usize = 0;
        while j < indices.len()
            invariant
                j <= indices@.len(),
                vc == positions@.len() / 3,
                forall|k: int| 0 <= k < j ==> #[trigger] indices@[k] < vc,
            decreases indices@.len() - j,
        {
            if indices[j] >= vc {
                return None;
            }
            j += 1;
        }
        Some(Mesh { positions, indices })
    }

    /// How many triangular faces the index list describes.
    pub fn face_count(&self) -> (r: usize)
        ensures
            r == self.spec_face_count(),
    {
        self.indices.len() / 3
    }

    /// How many vertices the buffer holds.
    pub fn vertex_count(&self) -> (r: usize)
        ensures
            r == self.spec_vertex_count(),
    {
        self.positions.len() / 3
    }

    /// How many wireframe line segments the index list describes.
    pub fn line_count(&self) -> (r: usize)
        ensures
            r == self.spec_line_count(),
    {
        self.indices.len() / 2
    }

    /// The vertex at `index`.  Every vertex of a well-formed mesh lies on
    /// the bounded grid.
    pub fn get_vertex(&self, index: usize) -> (r: V3)
        requires
            self.wf(),
            index < self.spec_vertex_count(),
        ensures
            r == self.spec_vertex(index as int),
            bounded(r, COORD_MAX as int),
    {
        let positions_len = self.positions.len();
        proof {
            lemma_div_mul_le(positions_len as int);
        }
        V3(
            self.positions[index * 3],
            self.positions[index * 3 + 1],
            self.positions[index * 3 + 2],
        )
    }

    /// An iterator over the vertices, in buffer order.
    pub fn iter_vertex<'a>(&'a self) -> (r: PointIter<'a>)
        ensures
            r.mesh == self,
            r.next == 0,
    {
        PointIter { mesh: self, next: 0 }
    }
}

/// All the hits a ray makes against the faces `0 .. n` of the mesh, in face
/// order, before sorting.
pub open spec fn face_hits(m: Mesh, ray: Ray, n: int) -> Seq<(RatPoint, Rat)>
    decreases n,
{
    if n <= 0 {
        Seq::empty()
    } else {
        face_hits(m, ray, n - 1) + match spec_face_hit(
            m.spec_vertex(m.indices@[3 * (n - 1)] as int),
            m.spec_vertex(m.indices@[3 * (n - 1) + 1] as int),
            m.spec_vertex(m.indices@[3 * (n - 1) + 2] as int),
            ray,
        ) {
            Some(h) => seq![h],
            None => Seq::empty(),
        }
    }
}

/// The hit of an optional point, as a sequence of zero or one points.
pub open spec fn opt_pt(o: Option<RatPoint>) -> Seq<RatPoint> {
    match o {
        Some(p) => seq![p],
        None => Seq::empty(),
    }
}

/// All the points where the plane cuts an edge of one of the faces
/// `0 .. n`, in face order, each face contributing its edges in the order
/// `(p1 p2) (p1 p3) (p2 p3)`.  Edges shared between adjacent faces are
/// tested once per owning face, so an interior edge generically yields a
/// duplicate point; nothing is deduplicated.
pub open spec fn face_slice(m: Mesh, plane: Plane, n: int) -> Seq<RatPoint>
    decreases n,
{
    if n <= 0 {
        Seq::empty()
    } else {
        let p1 = m.spec_vertex(m.indices@[3 * (n - 1)] as int);
        let p2 = m.spec_vertex(m.indices@[3 * (n - 1) + 1] as int);
        let p3 = m.spec_vertex(m.indices@[3 * (n - 1) + 2] as int);
        face_slice(m, plane, n - 1) + opt_pt(spec_segment_hit(plane, p1, p2)) + opt_pt(
            spec_segment_hit(plane, p1, p3),
        ) + opt_pt(spec_segment_hit(plane, p2, p3))
    }
}

/// All the points where the plane cuts one of the wireframe segments
/// `0 .. n`, in segment order.
pub open spec fn line_slice(m: Mesh, plane: Plane, n: int) -> Seq<RatPoint>
    decreases n,
{
    if n <= 0 {
        Seq::empty()
    } else {
        line_slice(m, plane, n - 1) + opt_pt(
            spec_segment_hit(
                plane,
                m.spec_vertex(m.indices@[2 * (n - 1)] as int),
                m.spec_vertex(m.indices@[2 * (n - 1) + 1] as int),
            ),
        )
    }
}

impl Mesh {
    /// Test the ray against every face of a face-mode mesh and return all
    /// hits, sorted ascending by the exact parameter `t` (nearest first).
    /// No early exit, no deduplication; an empty vector means no face was
    /// hit.
    pub fn intersect_ray(&self, ray: &Ray) -> (r: Vec<(RatPoint, Rat)>)
        requires
            self.wf(),
            bounded(ray.start, COORD_MAX as int),
            bounded(ray.direction, COORD_MAX as int),
        ensures
            r@ == sort_by_t(face_hits(*self, *ray, self.spec_face_count())),
            sorted_by_t(r@),
            hits_ok(r@),
    {
        let face_count = self.face_count();
        let index_len = self.indices.len();
        let mut results: Vec<(RatPoint, Rat)> = Vec::new();
        let mut i: usize = 0;
        while i < face_count
            invariant
                self.wf(),
                index_len == self.indices@.len(),
                bounded(ray.start, COORD_MAX as int),
                bounded(ray.direction, COORD_MAX as int),
                i <= face_count,
                face_count == self.spec_face_count(),
                results@ == sort_by_t(face_hits(*self, *ray, i as int)),
                sorted_by_t(results@),
                hits_ok(results@),
            decreases face_count - i,
        {
            proof {
                lemma_div_mul_le(self.indices@.len() as int);
            }
            let i1 = self.indices[i * 3];
            let i2 = self.indices[i * 3 + 1];
            let i3 = self.indices[i * 3 + 2];
            let p1 = self.get_vertex(i1);
            let p2 = self.get_vertex(i2);
            let p3 = self.get_vertex(i3);
            let ghost prev = face_hits(*self, *ray, i as int);
            if let Some(h) = intersect_face(p1, p2, p3, ray) {
                proof {
                    assert(face_hits(*self, *ray, i + 1) =~= prev.push(h));
                    assert(prev.push(h).drop_last() =~= prev);
                    assert(sort_by_t(prev.push(h)) == insert_by_t(h, sort_by_t(prev)));
                }
                insert_hit(&mut results, h);
            } else {
                proof {
                    assert(face_hits(*self, *ray, i + 1) =~= prev);
                }
            }
            i += 1;
        }
        results
    }

    /// Slice a face-mode mesh with a plane: test all three edges of every
    /// face independently and collect every crossing point.  A face can
    /// contribute 0, 1, 2 or (coplanar, degenerate) 3 points; shared edges
    /// are counted once per owning face; nothing is deduplicated or
    /// ordered.
    pub fn intersect_plane(&self, plane: &Plane) -> (r: Vec<RatPoint>)
        requires
            self.wf(),
            bounded(plane.pos, COORD_MAX as int),
            bounded(plane.normal, COORD_MAX as int),
        ensures
            r@ == face_slice(*self, *plane, self.spec_face_count()),
            slice_pts_ok(r@),
    {
        let face_count = self.face_count();
        let index_len = self.indices.len();
        let mut results: Vec<RatPoint> = Vec::new();
        let mut i: usize = 0;
        while i < face_count
            invariant
                self.wf(),
                index_len == self.indices@.len(),
                bounded(plane.pos, COORD_MAX as int),
                bounded(plane.normal, COORD_MAX as int),
                i <= face_count,
                face_count == self.spec_face_count(),
                results@ == face_slice(*self, *plane, i as int),
                slice_pts_ok(results@),
            decreases face_count - i,
        {
            proof {
                lemma_div_mul_le(self.indices@.len() as int);
            }
            let i1 = self.indices[i * 3];
            let i2 = self.indices[i * 3 + 1];
            let i3 = self.indices[i * 3 + 2];
            let p1 = self.get_vertex(i1);
            let p2 = self.get_vertex(i2);
            let p3 = self.get_vertex(i3);
            let ghost s0 = results@;
            if let Some(x) = plane.intersect_segment(p1, p2) {
                results.push(x);
            }
            proof {
                assert(results@ =~= s0 + opt_pt(spec_segment_hit(*plane, p1, p2)));
            }
            let ghost s1 = results@;
            if let Some(x) = plane.intersect_segment(p1, p3) {
                results.push(x);
            }
            proof {
                assert(results@ =~= s1 + opt_pt(spec_segment_hit(*plane, p1, p3)));
            }
            let ghost s2 = results@;
            if let Some(x) = plane.intersect_segment(p2, p3) {
                results.push(x);
            }
            proof {
                assert(results@ =~= s2 + opt_pt(spec_segment_hit(*plane, p2, p3)));
                assert(results@ =~= face_slice(*self, *plane, i + 1));
            }
            i += 1;
        }
        results
    }

    /// Slice a wireframe-mode mesh with a plane: test every line segment
    /// and collect one crossing point per intersecting segment.  The result
    /// is an unordered point set, not a stitched polyline.
    pub fn intersect_plane_line(&self, plane: &Plane) -> (r: Vec<RatPoint>)
        requires
            self.wf(),
            bounded(plane.pos, COORD_MAX as int),
            bounded(plane.normal, COORD_MAX as int),
        ensures
            r@ == line_slice(*self, *plane, self.spec_line_count()),
            slice_pts_ok(r@),
    {
        let line_count = self.line_count();
        let index_len = self.indices.len();
        let mut results: Vec<RatPoint> = Vec::new();
        let mut i: usize = 0;
        while i < line_count
            invariant
                self.wf(),
                index_len == self.indices@.len(),
                bounded(plane.pos, COORD_MAX as int),
                bounded(plane.normal, COORD_MAX as int),
                i <= line_count,
                line_count == self.spec_line_count(),
                results@ == line_slice(*self, *plane, i as int),
                slice_pts_ok(results@),
            decreases line_count - i,
        {
            proof {
                lemma_div_mul_le(self.indices@.len() as int);
            }
            let i1 = self.indices[i * 2];
            let i2 = self.indices[i * 2 + 1];
            let p1 = self.get_vertex(i1);
            let p2 = self.get_vertex(i2);
            let ghost s0 = results@;
            if let Some(x) = plane.intersect_segment(p1, p2) {
                results.push(x);
            }
            proof {
                assert(results@ =~= s0 + opt_pt(spec_segment_hit(*plane, p1, p2)));
                assert(results@ =~= line_slice(*self, *plane, i + 1));
            }
            i += 1;
        }
        results
    }

    /// The least and greatest vertex coordinate along one axis: both bounds
    /// are attained by some vertex, and every vertex lies between them.
    pub fn bound(&self, axis: usize) -> (r: (i64, i64))
        requires
            self.wf(),
            self.spec_vertex_count() > 0,
        ensures
            r.0 as int == axis_min(*self, axis as int, self.spec_vertex_count()),
            r.1 as int == axis_max(*self, axis as int, self.spec_vertex_count()),
            exists|i: int|
                0 <= i < self.spec_vertex_count() && axis_val(
                    #[trigger] self.spec_vertex(i),
                    axis as int,
                ) == r.0 as int,
            exists|i: int|
                0 <= i < self.spec_vertex_count() && axis_val(
                    #[trigger] self.spec_vertex(i),
                    axis as int,
                ) == r.1 as int,
            forall|i: int|
                0 <= i < self.spec_vertex_count() ==> r.0 as int <= axis_val(
                    #[trigger] self.spec_vertex(i),
                    axis as int,
                ) <= r.1 as int,
    {
        let v0 = self.get_vertex(0);
        let mut min = axis_component(v0, axis);
        let mut max = min;
        let vertex_count = self.vertex_count();
        let mut i: usize = 1;
        while i < vertex_count
            invariant
                self.wf(),
                1 <= i <= vertex_count,
                vertex_count == self.spec_vertex_count(),
                min as int == axis_min(*self, axis as int, i as int),
                max as int == axis_max(*self, axis as int, i as int),
                exists|k: int|
                    0 <= k < i && axis_val(#[trigger] self.spec_vertex(k), axis as int)
                        == min as int,
                exists|k: int|
                    0 <= k < i && axis_val(#[trigger] self.spec_vertex(k), axis as int)
                        == max as int,
                forall|k: int|
                    0 <= k < i ==> min as int <= axis_val(
                        #[trigger] self.spec_vertex(k),
                        axis as int,
                    ) <= max as int,
            decreases vertex_count - i,
        {
            let v = self.get_vertex(i);
            let c = axis_component(v, axis);
            if c < min {
                min = c;
            }
            if c > max {
                max = c;
            }
            i += 1;
        }
        (min, max)
    }
}

/// The least vertex coordinate along `axis` among the vertices `0 .. n`.
pub open spec fn axis_min(m: Mesh, axis: int, n: int) -> int
    decreases n,
{
    if n <= 1 {
        axis_val(m.spec_vertex(0), axis)
    } else {
        let prev = axis_min(m, axis, n - 1);
        let v = axis_val(m.spec_vertex(n - 1), axis);
        if v < prev {
            v
        } else {
            prev
        }
    }
}

/// The greatest vertex coordinate along `axis` among the vertices `0 .. n`.
pub open spec fn axis_max(m: Mesh, axis: int, n: int) -> int
    decreases n,
{
    if n <= 1 {
        axis_val(m.spec_vertex(0), axis)
    } else {
        let prev = axis_max(m, axis, n - 1);
        let v = axis_val(m.spec_vertex(n - 1), axis);
        if v > prev {
            v
        } else {
            prev
        }
    }
}

/// The index of the first vertex among `0 .. n` attaining the least
/// coordinate along `axis` (ties: first encountered wins).
pub open spec fn min_axis_index(m: Mesh, axis: int, n: int) -> int
    decreases n,
{
    if n <= 1 {
        0
    } else {
        let prev = min_axis_index(m, axis, n - 1);
        if axis_val(m.spec_vertex(n - 1), axis) < axis_val(m.spec_vertex(prev), axis) {
            n - 1
        } else {
            prev
        }
    }
}

/// The index of the first vertex among `0 .. n` attaining the greatest
/// coordinate along `axis` (ties: first encountered wins).
pub open spec fn max_axis_index(m: Mesh, axis: int, n: int) -> int
    decreases n,
{
    if n <= 1 {
        0
    } else {
        let prev = max_axis_index(m, axis, n - 1);
        if axis_val(m.spec_vertex(n - 1), axis) > axis_val(m.spec_vertex(prev), axis) {
            n - 1
        } else {
            prev
        }
    }
}

impl Mesh {
    /// The first vertex attaining the least coordinate along `axis`, by
    /// linear scan; ties go to the first one encountered.
    pub fn min_vertex(&self, axis: usize) -> (r: V3)
        requires
            self.wf(),
            self.spec_vertex_count() > 0,
        ensures
            r == self.spec_vertex(min_axis_index(*self, axis as int, self.spec_vertex_count())),
            forall|i: int|
                0 <= i < self.spec_vertex_count() ==> axis_val(r, axis as int) <= axis_val(
                    #[trigger] self.spec_vertex(i),
                    axis as int,
                ),
            bounded(r, COORD_MAX as int),
    {
        let vertex_count = self.vertex_count();
        let mut best = self.get_vertex(0);
        let mut i: usize = 1;
        while i < vertex_count
            invariant
                self.wf(),
                1 <= i <= vertex_count,
                vertex_count == self.spec_vertex_count(),
                best == self.spec_vertex(min_axis_index(*self, axis as int, i as int)),
                0 <= min_axis_index(*self, axis as int, i as int) < i,
                forall|k: int|
                    0 <= k < i ==> axis_val(best, axis as int) <= axis_val(
                        #[trigger] self.spec_vertex(k),
                        axis as int,
                    ),
            decreases vertex_count - i,
        {
            let v = self.get_vertex(i);
            if axis_component(v, axis) < axis_component(best, axis) {
                best = v;
            }
            i += 1;
        }
        best
    }

    /// The first vertex attaining the greatest coordinate along `axis`, by
    /// linear scan; ties go to the first one encountered.
    pub fn max_vertex(&self, axis: usize) -> (r: V3)
        requires
            self.wf(),
            self.spec_vertex_count() > 0,
        ensures
            r == self.spec_vertex(max_axis_index(*self, axis as int, self.spec_vertex_count())),
            forall|i: int|
                0 <= i < self.spec_vertex_count() ==> axis_val(r, axis as int) >= axis_val(
                    #[trigger] self.spec_vertex(i),
                    axis as int,
                ),
            bounded(r, COORD_MAX as int),
    {
        let vertex_count = self.vertex_count();
        let mut best = self.get_vertex(0);
        let mut i: usize = 1;
        while i < vertex_count
            invariant
                self.wf(),
                1 <= i <= vertex_count,
                vertex_count == self.spec_vertex_count(),
                best == self.spec_vertex(max_axis_index(*self, axis as int, i as int)),
                0 <= max_axis_index(*self, axis as int, i as int) < i,
                forall|k: int|
                    0 <= k < i ==> axis_val(best, axis as int) >= axis_val(
                        #[trigger] self.spec_vertex(k),
                        axis as int,
                    ),
            decreases vertex_count - i,
        {
            let v = self.get_vertex(i);
            if axis_component(v, axis) > axis_component(best, axis) {
                best = v;
            }
            i += 1;
        }
        best
    }
}

/// The component of `v` along axis `axis`.
pub fn axis_component(v: V3, axis: usize) -> (r: i64)
    ensures
        r as int == axis_val(v, axis as int),
{
    if axis == 0 {
        v.0
    } else if axis == 1 {
        v.1
    } else {
        v.2
    }
}

/// An iterator over a mesh's vertices, in buffer order: yields each vertex
/// once, then `None` forever; not restartable.
pub struct PointIter<'a> {
    pub mesh: &'a Mesh,
    pub next: usize,
}

impl<'a> PointIter<'a> {
    /// The next vertex, if one is left.
    pub fn next(&mut self) -> (r: Option<V3>)
        requires
            old(self).mesh.wf(),
        ensures
            final(self).mesh == old(self).mesh,
            old(self).next < old(self).mesh.spec_vertex_count() ==> r == Some(
                old(self).mesh.spec_vertex(old(self).next as int),
            ) && final(self).next == old(self).next + 1,
            old(self).next >= old(self).mesh.spec_vertex_count() ==> r is None && final(self).next
                == old(self).next,
    {
        let vertex_count = self.mesh.vertex_count();
        if self.next == vertex_count {
            None
        } else if self.next > vertex_count {
            None
        } else {
            let result = self.mesh.get_vertex(self.next);
            self.next += 1;
            Some(result)
        }
    }
}

} // verus!
