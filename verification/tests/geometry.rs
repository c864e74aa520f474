use glgeom::rat::Rat;
use glgeom::types::{GeomError, Vector2, Vector3};
use glgeom::mesh::{Line, Mesh, Vertex};
use glgeom::maths::{computeBoundingBox, computeBoundingBoxTransform, getNormalisedDeviceCoords};
use glgeom::entity::{Entity, rayBoxIntersection};

fn v3i(x: i128, y: i128, z: i128) -> Vector3 {
    Vector3::new(Rat::from_int(x), Rat::from_int(y), Rat::from_int(z))
}

fn vertex_at(x: i128, y: i128, z: i128) -> Vertex {
    let mut v = Vertex::default();
    v.Position = v3i(x, y, z);
    v
}

fn assert_rat_eq(r: &Rat, num: i128, den: i128) {
    assert!(r.equals(&Rat::new(num, den)), "expected {}/{}, got {}/{}", num, den, r.num, r.den);
}

#[test]
fn bounding_box_contains_all_vertices() {
    let vertices = vec![
        vertex_at(1, 2, 3),
        vertex_at(-4, 7, 0),
        vertex_at(5, -2, -9),
        vertex_at(0, 0, 0),
    ];
    let (mn, mx) = computeBoundingBox(&vertices).unwrap();
    assert_rat_eq(&mn.x, -4, 1);
    assert_rat_eq(&mn.y, -2, 1);
    assert_rat_eq(&mn.z, -9, 1);
    assert_rat_eq(&mx.x, 5, 1);
    assert_rat_eq(&mx.y, 7, 1);
    assert_rat_eq(&mx.z, 3, 1);
    // min <= max on every axis, and every vertex is inside.
    for v in &vertices {
        assert!(mn.x.le(&v.Position.x) && v.Position.x.le(&mx.x));
        assert!(mn.y.le(&v.Position.y) && v.Position.y.le(&mx.y));
        assert!(mn.z.le(&v.Position.z) && v.Position.z.le(&mx.z));
    }
}

#[test]
fn bounding_box_rejects_empty_vertex_list() {
    let vertices: Vec<Vertex> = Vec::new();
    match computeBoundingBox(&vertices) {
        Err(e) => assert_eq!(e, GeomError::InvalidInput),
        Ok(_) => panic!("empty vertex list must be rejected"),
    }
}

#[test]
fn box_transform_maps_unit_cube_corners_onto_box() {
    let mn = v3i(-1, -2, 3);
    let mx = v3i(5, 4, 7);
    let t = computeBoundingBoxTransform(&mn, &mx);
    let half = Rat::new(1, 2);
    let neg_half = Rat::new(-1, 2);
    // All 8 corners of the canonical unit cube land on box corners.
    for &sx in &[false, true] {
        for &sy in &[false, true] {
            for &sz in &[false, true] {
                let pick = |high: bool| if high { half } else { neg_half };
                let corner = Vector3::new(pick(sx), pick(sy), pick(sz));
                let w = t.apply(&corner);
                let ex = if sx { &mx.x } else { &mn.x };
                let ey = if sy { &mx.y } else { &mn.y };
                let ez = if sz { &mx.z } else { &mn.z };
                assert!(w.x.equals(ex));
                assert!(w.y.equals(ey));
                assert!(w.z.equals(ez));
            }
        }
    }
}

#[test]
fn ray_hits_unit_box_from_behind() {
    // Box [-1,1]^3, ray from (0,0,-10) along +z: enters at 9, leaves at 11.
    let origin = v3i(0, 0, -10);
    let dir = v3i(0, 0, 1);
    let wmin = v3i(-1, -1, -1);
    let wmax = v3i(1, 1, 1);
    let (t_min, t_max) = rayBoxIntersection(&origin, &dir, &wmin, &wmax).unwrap();
    assert_rat_eq(&t_min, 9, 1);
    assert_rat_eq(&t_max, 11, 1);
}

#[test]
fn ray_through_center_along_each_axis_spans_the_extent() {
    let wmin = v3i(-1, -3, -5);
    let wmax = v3i(2, 7, 1);
    // Center is (1/2, 2, -2).
    let half = Rat::new(1, 2);
    let two = Rat::from_int(2);
    let neg_two = Rat::from_int(-2);
    let cases = [
        (Vector3::new(Rat::from_int(-20), two, neg_two), v3i(1, 0, 0), 3),
        (Vector3::new(half, Rat::from_int(-20), neg_two), v3i(0, 1, 0), 10),
        (Vector3::new(half, two, Rat::from_int(-20)), v3i(0, 0, 1), 6),
    ];
    for (origin, dir, extent) in cases {
        let (t_min, t_max) = rayBoxIntersection(&origin, &dir, &wmin, &wmax).unwrap();
        assert!(t_min.lt(&t_max));
        let width = t_max.sub(&t_min);
        assert!(width.equals(&Rat::from_int(extent)));
    }
}

#[test]
fn ray_outside_extent_on_one_axis_misses() {
    // Moving along +z but sitting at y = 5, above the box's y extent.
    let origin = v3i(0, 5, -10);
    let dir = v3i(0, 0, 1);
    let wmin = v3i(-1, -1, -1);
    let wmax = v3i(1, 1, 1);
    assert!(rayBoxIntersection(&origin, &dir, &wmin, &wmax).is_none());
}

#[test]
fn zero_direction_ray_hits_nothing() {
    let origin = v3i(0, 0, 0);
    let dir = v3i(0, 0, 0);
    let wmin = v3i(-1, -1, -1);
    let wmax = v3i(1, 1, 1);
    assert!(rayBoxIntersection(&origin, &dir, &wmin, &wmax).is_none());
}

#[test]
fn entity_intersect_reports_hit_boxes_in_order() {
    // Two meshes: a unit box at the origin and one displaced out of the
    // ray's path; entity translation +1 on x, scale 1.
    let cube = vec![vertex_at(-1, -1, -1), vertex_at(1, 1, 1)];
    let far = vec![vertex_at(50, 50, -1), vertex_at(52, 52, 1)];
    let meshes = vec![
        Mesh::new(cube, vec![], vec![]),
        Mesh::new(far, vec![], vec![]),
    ];
    let entity = Entity::new(meshes, v3i(1, 0, 0), v3i(0, 0, 0), Rat::from_int(1),
        Rat::from_int(0)).unwrap();
    let ray = Line::new(v3i(1, 0, -10), v3i(1, 0, -9));
    let hits = entity.intersect(&ray);
    assert_eq!(hits.len(), 1);
    assert_rat_eq(&hits[0].0, 9, 1);
    assert_rat_eq(&hits[0].1, 11, 1);
}

#[test]
fn entity_new_rejects_a_mesh_without_vertices() {
    let meshes = vec![Mesh::new(Vec::new(), vec![], vec![])];
    let r = Entity::new(meshes, v3i(0, 0, 0), v3i(0, 0, 0), Rat::from_int(1), Rat::from_int(0));
    match r {
        Err(e) => assert_eq!(e, GeomError::InvalidInput),
        Ok(_) => panic!("a mesh without vertices has no bounding box"),
    }
}

#[test]
fn line_keeps_its_points_and_difference_direction() {
    let start = v3i(1, 2, 3);
    let end = v3i(4, 0, 3);
    let line = Line::new(start, end);
    assert_rat_eq(&line.coords[0].x, 1, 1);
    assert_rat_eq(&line.coords[1].x, 4, 1);
    assert!(line.dir.x.equals(&Rat::from_int(3)));
    assert!(line.dir.y.equals(&Rat::from_int(-2)));
    assert!(line.dir.z.equals(&Rat::from_int(0)));
}

#[test]
fn normalised_device_coords_center_and_corner() {
    let zero = Rat::from_int(0);
    let center = getNormalisedDeviceCoords(&Rat::from_int(960), &Rat::from_int(540), 1920, 1080);
    assert!(center.x.equals(&zero));
    assert!(center.y.equals(&zero));
    let corner = getNormalisedDeviceCoords(&zero, &zero, 1920, 1080);
    assert!(corner.x.equals(&Rat::from_int(-1)));
    assert!(corner.y.equals(&Rat::from_int(1)));
}

#[test]
fn vector_constructors_hold_components() {
    let v = Vector2::new(Rat::new(1, 2), Rat::from_int(7));
    assert!(v.x.equals(&Rat::new(2, 4)));
    assert!(v.y.equals(&Rat::from_int(7)));
}
