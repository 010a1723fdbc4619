use slice::{app1, intersect_top};
use slice::mesh::Mesh;

/// Unit-circle samples for a 32-ray fan, computed with floating-point
/// trigonometry and scaled to the grid.
fn circle32() -> Vec<(i64, i64)> {
    let mut v = Vec::new();
    for k in 0..32 {
        let angle = 2.0 * std::f64::consts::PI / 32.0 * (k as f64);
        v.push(((angle.cos() * 1000.0).round() as i64, (angle.sin() * 1000.0).round() as i64));
    }
    v
}

fn cube() -> Mesh {
    let corners: [(i64, i64, i64); 8] = [
        (-500, -500, -500),
        (500, -500, -500),
        (500, 500, -500),
        (-500, 500, -500),
        (-500, -500, 500),
        (500, -500, 500),
        (500, 500, 500),
        (-500, 500, 500),
    ];
    let mut positions = Vec::new();
    for &(x, y, z) in corners.iter() {
        positions.push(x);
        positions.push(y);
        positions.push(z);
    }
    let indices: Vec<usize> = vec![
        0, 1, 2, 0, 2, 3, 4, 6, 5, 4, 7, 6, 0, 4, 5, 0, 5, 1, 3, 2, 6, 3, 6, 7, 0, 3, 7, 0, 7, 4,
        1, 5, 6, 1, 6, 2,
    ];
    Mesh::from_parts(positions, indices).expect("well-formed cube")
}

#[test]
fn surface_pipeline_ends_with_extreme_vertices() {
    let mesh = cube();
    let circle = circle32();
    let result = app1(&mesh, &circle);
    assert!(result.len() > 2);
    let min_pt = &result[result.len() - 2];
    let max_pt = &result[result.len() - 1];
    // The first vertex of least y is corner 0, the first of greatest y is
    // corner 2 (ties go to the first encountered).
    assert_eq!((min_pt.xn, min_pt.yn, min_pt.zn, min_pt.den), (-500, -500, -500, 1));
    assert_eq!((max_pt.xn, max_pt.yn, max_pt.zn, max_pt.den), (500, 500, -500, 1));
}

#[test]
fn surface_pipeline_hits_lie_on_the_cube_surface() {
    let mesh = cube();
    let circle = circle32();
    let result = app1(&mesh, &circle);
    // Every nearest ray hit lies strictly inside one of the cube's faces,
    // so exactly on the surface: some coordinate is exactly +-500.
    for p in result[..result.len() - 2].iter() {
        assert!(p.den > 0);
        let on_face = p.xn == 500 * p.den || p.xn == -500 * p.den || p.yn == 500 * p.den
            || p.yn == -500 * p.den || p.zn == 500 * p.den || p.zn == -500 * p.den;
        assert!(on_face);
    }
}

fn square_wireframe() -> Mesh {
    // A square of wire in the plane y = 0, corners at (+-500, 0, +-500).
    let positions = vec![-500, 0, -500, 500, 0, -500, 500, 0, 500, -500, 0, 500];
    let indices = vec![0, 1, 1, 2, 2, 3, 3, 0];
    Mesh::from_parts(positions, indices).expect("well-formed wireframe")
}

#[test]
fn wireframe_pipeline_points_lie_on_the_wire() {
    let mesh = square_wireframe();
    let result = intersect_top(&mesh, &circle32());
    assert!(!result.is_empty());
    for p in result.iter() {
        assert!(p.den > 0);
        // The wire lies in the plane y = 0.
        assert_eq!(p.yn, 0);
        // And every point lies on the square's boundary.
        let on_wire = p.xn == 500 * p.den || p.xn == -500 * p.den || p.zn == 500 * p.den
            || p.zn == -500 * p.den;
        assert!(on_wire);
    }
}

#[test]
fn wireframe_pipeline_empty_mesh_yields_nothing() {
    let mesh = Mesh::from_parts(vec![], vec![]).expect("empty mesh");
    let result = intersect_top(&mesh, &circle32());
    assert!(result.is_empty());
}
