use slice::mesh::{intersect_face, Mesh};
use slice::plane::Plane;
use slice::rat::RatPoint;
use slice::ray::Ray;
use slice::utils::get_center;
use slice::v3::V3;

fn rat_point_is(p: &RatPoint, x: i128, y: i128, z: i128) -> bool {
    p.den > 0 && p.xn == x * p.den && p.yn == y * p.den && p.zn == z * p.den
}

fn unit_triangle() -> (V3, V3, V3) {
    (V3(0, 0, 0), V3(1000, 0, 0), V3(0, 1000, 0))
}

#[test]
fn face_hit_interior_lies_on_plane_with_positive_t() {
    let (p1, p2, p3) = unit_triangle();
    let ray = Ray { start: V3(200, 200, 500), direction: V3(0, 0, -1000) };
    let hit = intersect_face(p1, p2, p3, &ray).expect("interior hit");
    let (point, t) = hit;
    // The exact hit point is (200, 200, 0): in the triangle's plane z = 0.
    assert!(rat_point_is(&point, 200, 200, 0));
    // t = 500 / 1000, strictly positive.
    assert!(t.num > 0 && t.den > 0);
    assert_eq!(t.num * 2, t.den);
    // Plane equation, cleared of the denominator: normal . P == den * (normal . p1).
    // Normal of this triangle is (0, 0, 1_000_000).
    let n = (0i128, 0i128, 1_000_000i128);
    let lhs = n.0 * point.xn + n.1 * point.yn + n.2 * point.zn;
    assert_eq!(lhs, 0);
}

#[test]
fn parallel_ray_misses() {
    let (p1, p2, p3) = unit_triangle();
    // Direction lies in the triangle's plane: normal . direction == 0.
    let ray = Ray { start: V3(200, 200, 500), direction: V3(1000, 0, 0) };
    assert!(intersect_face(p1, p2, p3, &ray).is_none());
}

#[test]
fn hit_exactly_on_edge_is_excluded() {
    let (p1, p2, p3) = unit_triangle();
    // The hit point (500, 0, 0) lies exactly on the edge p1-p2.
    let ray = Ray { start: V3(500, 0, 500), direction: V3(0, 0, -1000) };
    assert!(intersect_face(p1, p2, p3, &ray).is_none());
}

#[test]
fn hit_exactly_on_vertex_is_excluded() {
    let (p1, p2, p3) = unit_triangle();
    let ray = Ray { start: V3(0, 0, 500), direction: V3(0, 0, -1000) };
    assert!(intersect_face(p1, p2, p3, &ray).is_none());
}

#[test]
fn ray_behind_origin_is_excluded() {
    let (p1, p2, p3) = unit_triangle();
    // The triangle's plane lies behind the ray origin: t would be negative.
    let ray = Ray { start: V3(200, 200, 500), direction: V3(0, 0, 1000) };
    assert!(intersect_face(p1, p2, p3, &ray).is_none());
}

fn two_parallel_triangles() -> Mesh {
    // One triangle in the plane z = 0, one in the plane z = -300, both
    // containing the vertical line through (200, 200).
    let positions = vec![
        0, 0, 0, 1000, 0, 0, 0, 1000, 0, // face 0 at z = 0
        0, 0, -300, 1000, 0, -300, 0, 1000, -300, // face 1 at z = -300
    ];
    let indices = vec![0, 1, 2, 3, 4, 5];
    Mesh::from_parts(positions, indices).expect("well-formed mesh")
}

#[test]
fn intersect_ray_sorts_hits_ascending_by_t() {
    let mesh = two_parallel_triangles();
    let ray = Ray { start: V3(200, 200, 500), direction: V3(0, 0, -1000) };
    let hits = mesh.intersect_ray(&ray);
    assert_eq!(hits.len(), 2);
    // Ascending by the exact rational t: num1/den1 <= num2/den2.
    assert!(hits[0].1.num * hits[1].1.den <= hits[1].1.num * hits[0].1.den);
    // Nearest first: z = 0 (t = 0.5) before z = -300 (t = 0.8).
    assert!(rat_point_is(&hits[0].0, 200, 200, 0));
    assert!(rat_point_is(&hits[1].0, 200, 200, -300));
    assert_eq!(hits[0].1.num * 2, hits[0].1.den);
    assert_eq!(hits[1].1.num * 5, hits[1].1.den * 4);
}

#[test]
fn intersect_ray_empty_on_miss() {
    let mesh = two_parallel_triangles();
    let ray = Ray { start: V3(200, 200, 500), direction: V3(0, 0, 1000) };
    assert_eq!(mesh.intersect_ray(&ray).len(), 0);
}

#[test]
fn segment_opposite_sides_yields_hit() {
    let plane = Plane { pos: V3(0, 0, 0), normal: V3(0, 1000, 0) };
    let hit = plane.intersect_segment(V3(0, -500, 0), V3(0, 500, 0)).expect("crossing");
    assert!(rat_point_is(&hit, 0, 0, 0));
}

#[test]
fn segment_same_side_yields_none() {
    let plane = Plane { pos: V3(0, 0, 0), normal: V3(0, 1000, 0) };
    assert!(plane.intersect_segment(V3(0, 100, 0), V3(0, 500, 0)).is_none());
    assert!(plane.intersect_segment(V3(0, -100, 0), V3(0, -500, 0)).is_none());
}

#[test]
fn segment_endpoint_on_plane_is_included() {
    let plane = Plane { pos: V3(0, 0, 0), normal: V3(0, 1000, 0) };
    let hit = plane.intersect_segment(V3(0, 0, 0), V3(0, 500, 0)).expect("endpoint hit");
    assert!(rat_point_is(&hit, 0, 0, 0));
}

#[test]
fn segment_parallel_to_plane_yields_none() {
    let plane = Plane { pos: V3(0, 0, 0), normal: V3(0, 1000, 0) };
    assert!(plane.intersect_segment(V3(-500, 100, 0), V3(500, 100, 0)).is_none());
    // A line in the plane itself is parallel too.
    assert!(plane.intersect_segment(V3(-500, 0, 0), V3(500, 0, 0)).is_none());
}

#[test]
fn line_hit_outside_segment_bounds() {
    let plane = Plane { pos: V3(0, 0, 0), normal: V3(0, 1000, 0) };
    // The infinite line crosses the plane, but outside the segment.
    assert!(plane.intersect_line(V3(0, 100, 0), V3(0, 500, 0)).is_some());
    assert!(plane.intersect_segment(V3(0, 100, 0), V3(0, 500, 0)).is_none());
}

#[test]
fn radial_sampler_places_four_cardinal_directions() {
    // Unit-circle samples for angles 0, pi/2, pi, 3pi/2 at scale 1000.
    let circle: Vec<(i64, i64)> = vec![(1000, 0), (0, 1000), (-1000, 0), (0, -1000)];
    // The same table, computed with floating-point trigonometry.
    for (k, &(c, s)) in circle.iter().enumerate() {
        let angle = 2.0 * std::f64::consts::PI / 4.0 * (k as f64);
        assert_eq!((angle.cos() * 1000.0).round() as i64, c);
        assert_eq!((angle.sin() * 1000.0).round() as i64, s);
    }
    let center = V3(0, 0, 0);
    let mut fan = center.radiative_ray(1, 4, &circle);
    let expected = [V3(1000, 0, 0), V3(0, 0, 1000), V3(-1000, 0, 0), V3(0, 0, -1000)];
    for d in expected.iter() {
        let ray = fan.next().expect("ray left");
        assert_eq!(ray.start, center);
        assert_eq!(ray.direction, *d);
    }
    assert!(fan.next().is_none());
    assert!(fan.next().is_none());
}

#[test]
fn radial_sampler_axes_zero_and_two() {
    let circle: Vec<(i64, i64)> = vec![(1000, 0)];
    let center = V3(1, 2, 3);
    let mut fan_x = center.radiative_ray(0, 1, &circle);
    assert_eq!(fan_x.next().unwrap().direction, V3(0, 1000, 0));
    let mut fan_z = center.radiative_ray(2, 1, &circle);
    assert_eq!(fan_z.next().unwrap().direction, V3(1000, 0, 0));
}

/// A unit cube at scale 1000: corners at (+-500, +-500, +-500), twelve
/// triangular faces.
fn cube() -> Mesh {
    let corners: [(i64, i64, i64); 8] = [
        (-500, -500, -500),
        (500, -500, -500),
        (500, 500, -500),
        (-500, 500, -500),
        (-500, -500, 500),
        (500, -500, 500),
        (500, 500, 500),
        (-500, 500, 500),
    ];
    let mut positions = Vec::new();
    for &(x, y, z) in corners.iter() {
        positions.push(x);
        positions.push(y);
        positions.push(z);
    }
    let indices: Vec<usize> = vec![
        0, 1, 2, 0, 2, 3, // back, z = -500
        4, 6, 5, 4, 7, 6, // front, z = 500
        0, 4, 5, 0, 5, 1, // bottom, y = -500
        3, 2, 6, 3, 6, 7, // top, y = 500
        0, 3, 7, 0, 7, 4, // left, x = -500
        1, 5, 6, 1, 6, 2, // right, x = 500
    ];
    Mesh::from_parts(positions, indices).expect("well-formed cube")
}

#[test]
fn cube_slice_at_mid_height_points_lie_on_plane() {
    let mesh = cube();
    let plane = Plane { pos: V3(0, 0, 0), normal: V3(0, 1000, 0) };
    let points = mesh.intersect_plane(&plane);
    // Eight distinct crossing points, each found twice (once per owning
    // face of the crossed edge): sixteen points in all, every one with
    // y exactly 0.
    assert_eq!(points.len(), 16);
    for p in points.iter() {
        assert!(p.den > 0);
        assert_eq!(p.yn, 0);
    }
    let expected: [(i128, i128); 8] = [
        (0, -500),
        (500, -500),
        (-500, -500),
        (0, 500),
        (-500, 500),
        (500, 500),
        (-500, 0),
        (500, 0),
    ];
    for &(x, z) in expected.iter() {
        let count = points.iter().filter(|p| rat_point_is(p, x, 0, z)).count();
        assert_eq!(count, 2, "point ({}, 0, {})", x, z);
    }
}

#[test]
fn cube_bound_along_y() {
    let mesh = cube();
    assert_eq!(mesh.bound(1), (-500, 500));
    assert_eq!(mesh.bound(0), (-500, 500));
}

#[test]
fn cube_corner_centroid_is_origin() {
    let mesh = cube();
    let mut corners = Vec::new();
    let mut it = mesh.iter_vertex();
    while let Some(v) = it.next() {
        corners.push(v);
    }
    assert_eq!(corners.len(), 8);
    let center = get_center(&corners);
    assert_eq!(center.den, 8);
    assert_eq!((center.xn, center.yn, center.zn), (0, 0, 0));
}

#[test]
fn mesh_counts_and_vertices() {
    let mesh = cube();
    assert_eq!(mesh.vertex_count(), 8);
    assert_eq!(mesh.face_count(), 12);
    assert_eq!(mesh.line_count(), 18);
    assert_eq!(mesh.get_vertex(6), V3(500, 500, 500));
}

#[test]
fn from_parts_rejects_bad_input() {
    // A buffer that does not hold whole vertices.
    assert!(Mesh::from_parts(vec![0, 0], vec![]).is_none());
    // A coordinate off the bounded grid.
    assert!(Mesh::from_parts(vec![0, 0, 60000], vec![]).is_none());
    // An index past the last vertex.
    assert!(Mesh::from_parts(vec![0, 0, 0], vec![1]).is_none());
    // A well-formed mesh passes.
    assert!(Mesh::from_parts(vec![0, 0, 0], vec![0]).is_some());
}

#[test]
fn point_iterator_yields_each_vertex_once() {
    let mesh = cube();
    let mut it = mesh.iter_vertex();
    let mut n = 0;
    while let Some(v) = it.next() {
        assert_eq!(v, mesh.get_vertex(n));
        n += 1;
    }
    assert_eq!(n, 8);
    assert!(it.next().is_none());
}

#[test]
fn rounding_to_grid_truncates_toward_zero() {
    let p = RatPoint { xn: 7, yn: -7, zn: 0, den: 2 };
    let g = p.to_grid();
    assert_eq!(g, V3(3, -3, 0));
}
