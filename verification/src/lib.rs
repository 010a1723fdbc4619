use vstd::prelude::*;

pub mod mesh;
pub mod plane;
pub mod rat;
pub mod ray;
pub mod utils;
pub mod v3;

use crate::mesh::{
    Mesh, face_hits, face_slice, line_slice, axis_min, axis_max, min_axis_index, max_axis_index,
    lemma_div_mul_le,
};
use crate::plane::{Plane, slice_pts_ok, slice_pt_ok};
use crate::rat::{RatPoint, sort_by_t, spec_from_v3, from_v3, spec_to_grid};
use crate::ray::Ray;
use crate::utils::{get_center, spec_center};
use crate::v3::{V3, absi, bounded, circle_ok, fan_dir, COORD_MAX};

verus! {

/// The distinct elements of an index sequence, in first-occurrence order.
pub open spec fn uniq(s: Seq<usize>) -> Seq<usize>
    decreases s.len(),
{
    if s.len() == 0 {
        Seq::empty()
    } else {
        let prev = uniq(s.drop_last());
        if prev.contains(s.last()) {
            prev
        } else {
            prev.push(s.last())
        }
    }
}

/// A non-empty sequence keeps at least one element after deduplication.
proof fn lemma_uniq_nonempty(s: Seq<usize>)
    requires
        s.len() > 0,
    ensures
        uniq(s).len() > 0,
    decreases s.len(),
{
    if s.len() > 1 {
        lemma_uniq_nonempty(s.drop_last());
    }
}

/// Whether the vector holds `x`.
fn contains_idx(v: &Vec<usize>, x: usize) -> (r: bool)
    ensures
        r == v@.contains(x),
{
    let mut j: usize = 0;
    while j < v.len()
        invariant
            j <= v@.len(),
            forall|k: int| 0 <= k < j ==> v@[k] != x,
        decreases v@.len() - j,
    {
        if v[j] == x {
            return true;
        }
        j += 1;
    }
    false
}

/// The center the wireframe pipeline fires its fan from: the centroid of
/// the distinct segment endpoints, rounded to the grid.
pub open spec fn top_center(m: Mesh) -> V3 {
    let idxs = uniq(m.indices@.take(2 * m.spec_line_count()));
    let pts = idxs.map_values(|j: usize| m.spec_vertex(j as int));
    spec_to_grid(spec_center(pts))
}

/// Every point the first `k` rays of the wireframe fan collect: for each
/// ray, the plane through the center with the ray's direction as normal is
/// sliced against every wireframe segment, and every crossing point is
/// kept.
pub open spec fn top_fan_points(m: Mesh, center: V3, circle: Seq<(i64, i64)>, k: int) -> Seq<
    RatPoint,
>
    decreases k,
{
    if k <= 0 {
        Seq::empty()
    } else {
        top_fan_points(m, center, circle, k - 1) + line_slice(
            m,
            (Plane { pos: center, normal: fan_dir(1, circle[k - 1].0, circle[k - 1].1) }),
            m.spec_line_count(),
        )
    }
}

/// What the wireframe pipeline returns: nothing for an empty wireframe;
/// otherwise the points collected by the first 16 rays of a 32-ray fan
/// around the y axis, fired from the centroid of the distinct endpoints.
pub open spec fn spec_intersect_top(m: Mesh, circle: Seq<(i64, i64)>) -> Seq<RatPoint> {
    if m.spec_line_count() == 0 {
        Seq::empty()
    } else {
        top_fan_points(m, top_center(m), circle, 16)
    }
}

/// The wireframe measurement pipeline: collect the distinct endpoints of
/// all wireframe segments, take their centroid, fire the first 16 rays of
/// a 32-ray fan around the y axis from it (one semicircle), and for each
/// ray slice the wireframe with the plane normal to that ray through the
/// centroid, keeping every crossing point.
pub fn intersect_top(mesh: &Mesh, circle: &Vec<(i64, i64)>) -> (r: Vec<RatPoint>)
    requires
        mesh.wf(),
        circle@.len() == 32,
        circle_ok(circle@),
    ensures
        r@ == spec_intersect_top(*mesh, circle@),
        slice_pts_ok(r@),
{
    let line_count = mesh.line_count();
    if line_count == 0 {
        return Vec::new();
    }
    let index_len = mesh.indices.len();
    proof {
        lemma_div_mul_le(index_len as int);
    }
    let total = line_count * 2;
    let mut points_indices: Vec<usize> = Vec::new();
    let mut j: usize = 0;
    while j < total
        invariant
            mesh.wf(),
            j <= total,
            total == 2 * mesh.spec_line_count(),
            total <= mesh.indices@.len(),
            points_indices@ == uniq(mesh.indices@.take(j as int)),
            forall|k: int|
                0 <= k < points_indices@.len() ==> #[trigger] points_indices@[k]
                    < mesh.spec_vertex_count(),
        decreases total - j,
    {
        let idx = mesh.indices[j];
        let found = contains_idx(&points_indices, idx);
        proof {
            assert(mesh.indices@.take(j as int + 1).drop_last() =~= mesh.indices@.take(j as int));
            assert(mesh.indices@.take(j as int + 1).last() == mesh.indices@[j as int]);
        }
        if !found {
            points_indices.push(idx);
        }
        j += 1;
    }
    let ghost idxs = uniq(mesh.indices@.take(2 * mesh.spec_line_count()));
    let mut points: Vec<V3> = Vec::new();
    let mut k: usize = 0;
    while k < points_indices.len()
        invariant
            mesh.wf(),
            k <= points_indices@.len(),
            points_indices@ == idxs,
            forall|i: int|
                0 <= i < points_indices@.len() ==> #[trigger] points_indices@[i]
                    < mesh.spec_vertex_count(),
            points@.len() == k,
            forall|i: int|
                0 <= i < k ==> #[trigger] points@[i] == mesh.spec_vertex(
                    points_indices@[i] as int,
                ),
            forall|i: int| 0 <= i < k ==> bounded(#[trigger] points@[i], COORD_MAX as int),
        decreases points_indices@.len() - k,
    {
        let p = mesh.get_vertex(points_indices[k]);
        points.push(p);
        k += 1;
    }
    proof {
        lemma_uniq_nonempty(mesh.indices@.take(2 * mesh.spec_line_count()));
        assert(points@ =~= idxs.map_values(|j: usize| mesh.spec_vertex(j as int)));
    }
    let center_rat = get_center(&points);
    let center = center_rat.to_grid();
    let mut result: Vec<RatPoint> = Vec::new();
    let mut fan = center.radiative_ray(1, 32, circle);
    let mut i: usize = 0;
    while i < 16
        invariant
            mesh.wf(),
            circle@.len() == 32,
            circle_ok(circle@),
            i <= 16,
            fan.wf(),
            fan.axis == 1,
            fan.count == 32,
            fan.origin == center,
            fan.circle@ == circle@,
            fan.next == i,
            bounded(center, COORD_MAX as int),
            result@ == top_fan_points(*mesh, center, circle@, i as int),
            slice_pts_ok(result@),
        decreases 16 - i,
    {
        let ray = fan.next().unwrap();
        let plane = Plane { pos: center, normal: ray.direction };
        let mut inter = mesh.intersect_plane_line(&plane);
        let ghost before = result@;
        let ghost inter_view = inter@;
        result.append(&mut inter);
        proof {
            assert(result@ =~= top_fan_points(*mesh, center, circle@, i as int + 1));
            assert forall|t: int| 0 <= t < result@.len() implies slice_pt_ok(result@[t]) by {
                if t < before.len() {
                    assert(result@[t] == before[t]);
                } else {
                    assert(result@[t] == inter_view[t - before.len()]);
                }
            }
        }
        i += 1;
    }
    result
}

/// The three slicing heights of the surface pipeline: 25%, 50% and 75% of
/// the mesh's bounding interval along the y axis.
pub open spec fn spec_heights(m: Mesh) -> (int, int, int) {
    let mn = axis_min(m, 1, m.spec_vertex_count());
    let mx = axis_max(m, 1, m.spec_vertex_count());
    (mn + (mx - mn) / 4, mn + (mx - mn) / 2, mn + 3 * (mx - mn) / 4)
}

/// The nearest hit of each of the first `k` fan rays against the mesh's
/// faces; rays that hit nothing contribute nothing.
pub open spec fn spec_ring_hits(m: Mesh, center: V3, circle: Seq<(i64, i64)>, k: int) -> Seq<
    RatPoint,
>
    decreases k,
{
    if k <= 0 {
        Seq::empty()
    } else {
        let prev = spec_ring_hits(m, center, circle, k - 1);
        let ray = Ray { start: center, direction: fan_dir(1, circle[k - 1].0, circle[k - 1].1) };
        let hits = sort_by_t(face_hits(m, ray, m.spec_face_count()));
        if hits.len() == 0 {
            prev
        } else {
            prev.push(hits[0].0)
        }
    }
}

/// What one slicing height contributes to the surface pipeline: slice the
/// mesh with the horizontal plane at height `d`, take the centroid of the
/// grid-rounded slice points, and fire a 32-ray fan around the y axis from
/// it, keeping each ray's nearest face hit.  A height whose slice is empty
/// contributes nothing.
pub open spec fn spec_height_points(m: Mesh, d: i64, circle: Seq<(i64, i64)>) -> Seq<RatPoint> {
    let plane = Plane { pos: V3(0, d, 0), normal: V3(0, 1, 0) };
    let pts = face_slice(m, plane, m.spec_face_count());
    if pts.len() == 0 {
        Seq::empty()
    } else {
        let gpts = pts.map_values(|p: RatPoint| spec_to_grid(p));
        let center = spec_to_grid(spec_center(gpts));
        spec_ring_hits(m, center, circle, 32)
    }
}

/// What the surface pipeline returns: the per-height points for the 75%,
/// 50% and 25% heights, in that order, then the first vertex of least y
/// and the first vertex of greatest y.
pub open spec fn spec_app1(m: Mesh, circle: Seq<(i64, i64)>) -> Seq<RatPoint> {
    let hs = spec_heights(m);
    spec_height_points(m, hs.2 as i64, circle) + spec_height_points(m, hs.1 as i64, circle)
        + spec_height_points(m, hs.0 as i64, circle) + seq![
        spec_from_v3(m.spec_vertex(min_axis_index(m, 1, m.spec_vertex_count()))),
        spec_from_v3(m.spec_vertex(max_axis_index(m, 1, m.spec_vertex_count()))),
    ]
}

/// One slicing height of the surface pipeline, appended to `out`.
fn height_pass(mesh: &Mesh, d: i64, circle: &Vec<(i64, i64)>, out: &mut Vec<RatPoint>)
    requires
        mesh.wf(),
        absi(d as int) <= COORD_MAX,
        circle@.len() == 32,
        circle_ok(circle@),
    ensures
        final(out)@ == old(out)@ + spec_height_points(*mesh, d, circle@),
{
    let ghost base = out@;
    let plane = Plane { pos: V3(0, d, 0), normal: V3(0, 1, 0) };
    let pts = mesh.intersect_plane(&plane);
    if pts.len() == 0 {
        proof {
            assert(out@ =~= base + spec_height_points(*mesh, d, circle@));
        }
        return;
    }
    let mut gpts: Vec<V3> = Vec::new();
    let mut i: usize = 0;
    while i < pts.len()
        invariant
            i <= pts@.len(),
            slice_pts_ok(pts@),
            gpts@.len() == i,
            forall|k: int| 0 <= k < i ==> #[trigger] gpts@[k] == spec_to_grid(pts@[k]),
            forall|k: int| 0 <= k < i ==> bounded(#[trigger] gpts@[k], COORD_MAX as int),
        decreases pts@.len() - i,
    {
        let g = pts[i].to_grid();
        gpts.push(g);
        i += 1;
    }
    proof {
        assert(gpts@ =~= pts@.map_values(|p: RatPoint| spec_to_grid(p)));
    }
    let center_rat = get_center(&gpts);
    let center = center_rat.to_grid();
    let mut fan = center.radiative_ray(1, 32, circle);
    let mut k: usize = 0;
    while k < 32
        invariant
            mesh.wf(),
            circle@.len() == 32,
            circle_ok(circle@),
            k <= 32,
            fan.wf(),
            fan.axis == 1,
            fan.count == 32,
            fan.origin == center,
            fan.circle@ == circle@,
            fan.next == k,
            bounded(center, COORD_MAX as int),
            out@ == base + spec_ring_hits(*mesh, center, circle@, k as int),
        decreases 32 - k,
    {
        let ray = fan.next().unwrap();
        let hits = mesh.intersect_ray(&ray);
        if hits.len() > 0 {
            let h = hits[0];
            out.push(h.0);
        }
        proof {
            assert(out@ =~= base + spec_ring_hits(*mesh, center, circle@, k as int + 1));
        }
        k += 1;
    }
}

/// The surface measurement pipeline: compute the mesh's bounding interval
/// along the y axis; slice at 75%, 50% and 25% of it, in that order, each
/// height contributing the nearest fan-ray hits around the slice's
/// centroid; then append the first vertex of least y and the first vertex
/// of greatest y.
pub fn app1(mesh: &Mesh, circle: &Vec<(i64, i64)>) -> (r: Vec<RatPoint>)
    requires
        mesh.wf(),
        mesh.spec_vertex_count() > 0,
        circle@.len() == 32,
        circle_ok(circle@),
    ensures
        r@ == spec_app1(*mesh, circle@),
{
    let b = mesh.bound(1);
    let length = b.1 - b.0;
    let du = length as u64;
    let d0 = b.0 + (du / 4) as i64;
    let d1 = b.0 + (du / 2) as i64;
    let d2 = b.0 + ((3 * du) / 4) as i64;
    let min_y = mesh.min_vertex(1);
    let max_y = mesh.max_vertex(1);
    let mut result: Vec<RatPoint> = Vec::new();
    height_pass(mesh, d2, circle, &mut result);
    height_pass(mesh, d1, circle, &mut result);
    height_pass(mesh, d0, circle, &mut result);
    result.push(from_v3(min_y));
    result.push(from_v3(max_y));
    proof {
        assert(result@ =~= spec_app1(*mesh, circle@));
    }
    result
}

} // verus!
