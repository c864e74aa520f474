use glgeom::rat::Rat;
use glgeom::types::Vector3;
use glgeom::mesh::{Mesh, Vertex};
use glgeom::entity::Entity;
use glgeom::terrain::{
    HeightMapImage, Terrain, genIndices, genVertices, getHeightFromImage,
};

fn v3i(x: i128, y: i128, z: i128) -> Vector3 {
    Vector3::new(Rat::from_int(x), Rat::from_int(y), Rat::from_int(z))
}

fn vertex_at(x: i128, y: i128, z: i128) -> Vertex {
    let mut v = Vertex::default();
    v.Position = v3i(x, y, z);
    v
}

/// A terrain at the world origin with the given dense height grid.
fn terrain_with_heights(count: usize, heights: Vec<Rat>) -> Terrain {
    let mesh = Mesh::new(vec![vertex_at(0, 0, 0)], vec![], vec![]);
    let entity = Entity::new(vec![mesh], v3i(0, 0, 0), v3i(0, 0, 0), Rat::from_int(1),
        Rat::from_int(0)).unwrap();
    Terrain { entity, heights, count }
}

fn ri(i: i128) -> Rat {
    Rat::from_int(i)
}

#[test]
fn sampling_on_the_diagonal_uses_the_shared_edge() {
    // Corners (0,0)=0, (1,0)=0, (0,1)=0, (1,1)=4; the cell spans 800
    // world units, so cell coordinates (1/2, 1/2) are world (400, 400).
    // The point lies on the triangle-selector diagonal, where both
    // triangle formulas give 0 (not the flat corner average 1).
    let t = terrain_with_heights(2, vec![ri(0), ri(0), ri(0), ri(4)]);
    let h = t.getHeight(&ri(400), &ri(400));
    assert!(h.equals(&ri(0)));
}

#[test]
fn sampling_inside_the_lower_right_triangle_is_barycentric() {
    // Same grid; cell coordinates (3/4, 3/4) select the second triangle:
    // 4 + (1 - 3/4)*(0 - 4) + (1 - 3/4)*(0 - 4) = 2.
    let t = terrain_with_heights(2, vec![ri(0), ri(0), ri(0), ri(4)]);
    let h = t.getHeight(&ri(600), &ri(600));
    assert!(h.equals(&ri(2)));
}

#[test]
fn sampling_is_continuous_across_the_triangle_diagonal() {
    let t = terrain_with_heights(2, vec![ri(0), ri(0), ri(0), ri(4)]);
    let eps = Rat::new(1, 1024);
    let before = t.getHeight(&ri(400).sub(&eps), &ri(400));
    let at = t.getHeight(&ri(400), &ri(400));
    let after = t.getHeight(&ri(400).add(&eps), &ri(400));
    // First triangle: all three corners are 0.
    assert!(before.equals(&ri(0)));
    assert!(at.equals(&ri(0)));
    // Second triangle: 4*(xf + zf - 1) with xf = 1/2 + 1/819200.
    assert!(after.equals(&Rat::new(1, 204800)));
}

#[test]
fn sampling_is_continuous_across_a_cell_boundary() {
    // 3x3 grid with height 8*gx: the surface is linear in x, so crossing
    // the boundary between the two cell columns (world x = 400) is exact.
    let heights = vec![
        ri(0), ri(8), ri(16),
        ri(0), ri(8), ri(16),
        ri(0), ri(8), ri(16),
    ];
    let t = terrain_with_heights(3, heights);
    let eps = Rat::new(1, 1024);
    // height(x) = 8 * x / 400 = x / 50
    let before = t.getHeight(&ri(400).sub(&eps), &ri(100));
    let at = t.getHeight(&ri(400), &ri(100));
    let after = t.getHeight(&ri(400).add(&eps), &ri(100));
    assert!(before.equals(&Rat::new(400 * 1024 - 1, 1024 * 50)));
    assert!(at.equals(&ri(8)));
    assert!(after.equals(&Rat::new(400 * 1024 + 1, 1024 * 50)));
}

#[test]
fn sampling_at_grid_corners_reproduces_stored_heights() {
    let t = terrain_with_heights(2, vec![ri(0), ri(0), ri(0), ri(4)]);
    assert!(t.getHeight(&ri(0), &ri(0)).equals(&ri(0)));
    assert!(t.getHeight(&ri(800), &ri(0)).equals(&ri(0)));
    assert!(t.getHeight(&ri(0), &ri(800)).equals(&ri(0)));
    // The far corner resolves through the clamped last cell.
    assert!(t.getHeight(&ri(800), &ri(800)).equals(&ri(4)));
}

#[test]
fn sampling_outside_the_domain_yields_zero() {
    let t = terrain_with_heights(2, vec![ri(4), ri(4), ri(4), ri(4)]);
    assert!(t.getHeight(&ri(-1), &ri(100)).equals(&ri(0)));
    assert!(t.getHeight(&ri(801), &ri(100)).equals(&ri(0)));
    assert!(t.getHeight(&ri(100), &ri(-1)).equals(&ri(0)));
    assert!(t.getHeight(&ri(100), &ri(100)).equals(&ri(4)));
}

#[test]
fn height_from_pixel_follows_the_recentering_formula() {
    let img = HeightMapImage { pixels: vec![64, 0, 128, 255], height: 2 };
    // (p + 64) / 64 * 40
    assert!(getHeightFromImage(0, 0, &img).equals(&ri(80)));
    assert!(getHeightFromImage(1, 0, &img).equals(&ri(40)));
    assert!(getHeightFromImage(0, 1, &img).equals(&ri(120)));
    assert!(getHeightFromImage(1, 1, &img).equals(&Rat::new(319 * 40, 64)));
    // Out of range reads as zero.
    assert!(getHeightFromImage(2, 0, &img).equals(&ri(0)));
    assert!(getHeightFromImage(0, 9, &img).equals(&ri(0)));
}

#[test]
fn gen_vertices_spans_the_domain_and_records_heights() {
    let img = HeightMapImage { pixels: vec![0, 0, 0, 64], height: 2 };
    let (vertices, heights) = genVertices(&img, 2);
    assert_eq!(vertices.len(), 4);
    assert_eq!(heights.len(), 4);
    // Grid positions span [0, 800].
    assert!(vertices[0].Position.x.equals(&ri(0)));
    assert!(vertices[1].Position.x.equals(&ri(800)));
    assert!(vertices[3].Position.z.equals(&ri(800)));
    // Heights come from the pixels, row-major.
    assert!(heights[0].equals(&ri(40)));
    assert!(heights[3].equals(&ri(80)));
    assert!(vertices[3].Position.y.equals(&ri(80)));
    // Texture coordinates span [0, 1].
    assert!(vertices[3].TexCoords.x.equals(&ri(1)));
}

#[test]
fn gen_indices_two_by_two_grid() {
    let indices = genIndices(2);
    assert_eq!(indices, vec![0, 2, 1, 1, 2, 3]);
}

#[test]
fn gen_indices_three_by_three_grid() {
    let indices = genIndices(3);
    assert_eq!(indices.len(), 24);
    // First cell of the first row.
    assert_eq!(&indices[0..6], &[0, 3, 1, 1, 3, 4]);
    // Second cell of the second row.
    assert_eq!(&indices[18..24], &[4, 7, 5, 5, 7, 8]);
}

#[test]
fn terrain_new_builds_from_an_image() {
    let img = HeightMapImage { pixels: vec![0; 4], height: 2 };
    let t = Terrain::new(v3i(0, 0, 0), v3i(0, 0, 0), Rat::from_int(1), &img).unwrap();
    assert_eq!(t.count, 2);
    assert_eq!(t.heights.len(), 4);
    // All pixels are 0, so the whole terrain sits at height 40.
    assert!(t.getHeight(&ri(123), &ri(456)).equals(&ri(40)));
}

#[test]
fn terrain_new_rejects_bad_images() {
    let too_small = HeightMapImage { pixels: vec![0], height: 1 };
    assert!(Terrain::new(v3i(0, 0, 0), v3i(0, 0, 0), Rat::from_int(1), &too_small).is_err());
    let wrong_len = HeightMapImage { pixels: vec![0; 3], height: 2 };
    assert!(Terrain::new(v3i(0, 0, 0), v3i(0, 0, 0), Rat::from_int(1), &wrong_len).is_err());
}
