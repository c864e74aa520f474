use glgeom::rat::Rat;
use glgeom::types::Vector3;
use glgeom::mesh::{Mesh, Vertex};
use glgeom::entity::{Entity, Key};
use glgeom::terrain::Terrain;
use glgeom::camera::{Camera, CameraMovement};
use glgeom::light::Light;

fn v3i(x: i128, y: i128, z: i128) -> Vector3 {
    Vector3::new(Rat::from_int(x), Rat::from_int(y), Rat::from_int(z))
}

fn ri(i: i128) -> Rat {
    Rat::from_int(i)
}

fn flat_terrain() -> Terrain {
    let mut v = Vertex::default();
    v.Position = v3i(0, 0, 0);
    let mesh = Mesh::new(vec![v], vec![], vec![]);
    let entity = Entity::new(vec![mesh], v3i(0, 0, 0), v3i(0, 0, 0), ri(1), ri(0)).unwrap();
    Terrain { entity, heights: vec![ri(0), ri(0), ri(0), ri(0)], count: 2 }
}

#[test]
fn pitch_pins_at_plus_89_degrees() {
    let mut cam = Camera::default();
    // Sensitivity is 1/10: an offset of 2000 asks for +200 degrees.
    cam.processMouseMovement(&ri(0), &ri(2000), true);
    assert!(cam.pitch.equals(&ri(89)));
    // Pushing further cannot exceed the bound.
    cam.processMouseMovement(&ri(0), &ri(100000), true);
    assert!(cam.pitch.equals(&ri(89)));
}

#[test]
fn pitch_pins_at_minus_89_degrees() {
    let mut cam = Camera::default();
    cam.processMouseMovement(&ri(0), &ri(-2000), true);
    assert!(cam.pitch.equals(&ri(-89)));
    cam.processMouseMovement(&ri(0), &ri(-100000), true);
    assert!(cam.pitch.equals(&ri(-89)));
}

#[test]
fn small_pitch_steps_accumulate_exactly() {
    let mut cam = Camera::default();
    cam.processMouseMovement(&ri(0), &ri(100), true);
    // 100 * 1/10 = 10 degrees, on the angle grid.
    assert!(cam.pitch.equals(&ri(10)));
    cam.processMouseMovement(&ri(0), &ri(-50), true);
    assert!(cam.pitch.equals(&ri(5)));
}

#[test]
fn yaw_wraps_around_a_full_turn() {
    let mut cam = Camera::default();
    // Default yaw 45; 3600 * 1/10 = 360 degrees brings it back to 45.
    cam.processMouseMovement(&ri(3600), &ri(0), true);
    assert!(cam.yaw.equals(&ri(45)));
}

#[test]
fn zoom_clamps_into_its_range() {
    let mut cam = Camera::default();
    assert!(cam.zoom.equals(&ri(45)));
    // Scrolling down (negative offset) would raise the zoom above 45.
    cam.processMouseScroll(&ri(-10));
    assert!(cam.zoom.equals(&ri(45)));
    cam.processMouseScroll(&ri(30));
    assert!(cam.zoom.equals(&ri(15)));
    cam.processMouseScroll(&ri(50));
    assert!(cam.zoom.equals(&ri(1)));
}

#[test]
fn camera_moves_along_its_basis() {
    let mut cam = Camera::default();
    // The renderer would hand back the basis for yaw 45 / pitch 0; use a
    // simple axis-aligned basis here.
    cam.setCameraVectors(
        Vector3::new(ri(0), ri(0), ri(-1)),
        Vector3::new(ri(1), ri(0), ri(0)),
        Vector3::new(ri(0), ri(1), ri(0)),
    );
    // Speed 80, deltaTime 1/4: velocity 20.
    cam.processKeyboard(CameraMovement::FORWARD, &Rat::new(1, 4));
    assert!(cam.position.z.equals(&ri(-20)));
    cam.processKeyboard(CameraMovement::RIGHT, &Rat::new(1, 4));
    assert!(cam.position.x.equals(&ri(20)));
    cam.processKeyboard(CameraMovement::DOWN, &Rat::new(1, 4));
    assert!(cam.position.y.equals(&ri(-20)));
    cam.processKeyboard(CameraMovement::BACKWARD, &Rat::new(1, 4));
    assert!(cam.position.z.equals(&ri(0)));
}

#[test]
fn entity_keyboard_movement_clamps_to_the_terrain_range() {
    let terrain = flat_terrain();
    let mut v = Vertex::default();
    v.Position = v3i(0, 0, 0);
    let mesh = Mesh::new(vec![v], vec![], vec![]);
    let mut e = Entity::new(vec![mesh], v3i(790, 0, 100), v3i(0, 0, 0), ri(1), ri(10)).unwrap();
    // Left moves +x by speed * deltaTime = 10; 800 clamps to 795.
    e.processKeyboard(Key::Left, &terrain, &ri(1));
    assert!(e.worldPos.x.equals(&ri(795)));
    // Right moves -x.
    e.processKeyboard(Key::Right, &terrain, &ri(1));
    assert!(e.worldPos.x.equals(&ri(785)));
    // Up/Down move along z; the low end clamps at the deadzone.
    e.processKeyboard(Key::Down, &terrain, &ri(1));
    assert!(e.worldPos.z.equals(&ri(90)));
    for _ in 0..20 {
        e.processKeyboard(Key::Down, &terrain, &ri(1));
    }
    assert!(e.worldPos.z.equals(&ri(5)));
    // The height snaps to the (flat) terrain.
    assert!(e.worldPos.y.equals(&ri(0)));
    // Other keys leave the horizontal position alone.
    e.processKeyboard(Key::Other, &terrain, &ri(1));
    assert!(e.worldPos.x.equals(&ri(785)));
    assert!(e.worldPos.z.equals(&ri(5)));
}

#[test]
fn entity_mouse_movement_follows_the_terrain_height() {
    // A sloped terrain: height 8 * gx, so height(x) = x / 50.
    let mut v = Vertex::default();
    v.Position = v3i(0, 0, 0);
    let mesh = Mesh::new(vec![v], vec![], vec![]);
    let entity = Entity::new(vec![mesh], v3i(0, 0, 0), v3i(0, 0, 0), ri(1), ri(0)).unwrap();
    let terrain = Terrain {
        entity,
        heights: vec![ri(0), ri(8), ri(16), ri(0), ri(8), ri(16), ri(0), ri(8), ri(16)],
        count: 3,
    };
    let mut v2 = Vertex::default();
    v2.Position = v3i(0, 0, 0);
    let mesh2 = Mesh::new(vec![v2], vec![], vec![]);
    let mut e = Entity::new(vec![mesh2], v3i(100, 0, 100), v3i(0, 0, 0), ri(1), ri(25)).unwrap();
    // Move along +x by 25 * 4 = 100: lands at x = 200, height 4.
    e.processMouse(&v3i(1, 0, 0), &terrain, &ri(4));
    assert!(e.worldPos.x.equals(&ri(200)));
    assert!(e.worldPos.z.equals(&ri(100)));
    assert!(e.worldPos.y.equals(&ri(4)));
}

#[test]
fn light_scales_its_colour_by_brightness() {
    let l = Light::new(v3i(1, 2, 3), v3i(255, 241, 224), v3i(1, 0, 0), Rat::new(1, 20));
    assert!(l.colour.x.equals(&Rat::new(51, 4)));
    assert!(l.colour.y.equals(&Rat::new(241, 20)));
    assert!(l.colour.z.equals(&Rat::new(56, 5)));
    assert!(l.position.x.equals(&ri(1)));
    assert!(l.attenuation.x.equals(&ri(1)));
}

#[test]
fn rational_arithmetic_is_exact() {
    let a = Rat::new(1, 3);
    let b = Rat::new(1, 6);
    assert!(a.add(&b).equals(&Rat::new(1, 2)));
    assert!(a.sub(&b).equals(&Rat::new(1, 6)));
    assert!(a.mul(&b).equals(&Rat::new(1, 18)));
    assert!(a.div(&b).equals(&ri(2)));
    assert!(a.neg().equals(&Rat::new(-1, 3)));
    assert!(Rat::new(2, 4).equals(&Rat::new(1, 2)));
    assert!(Rat::new(-7, 2).lt(&Rat::new(-3, 1)));
    assert_eq!(Rat::new(-7, 2).floor(), -4);
    assert_eq!(Rat::new(7, 2).floor(), 3);
    let s = Rat::new(7, 3).snap(256);
    assert_eq!(s.den, 256);
    assert_eq!(s.num, 597);
}
