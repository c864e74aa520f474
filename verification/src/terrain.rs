//! Heightfield terrain: a dense grid of sampled heights over a square
//! domain, point-height queries by barycentric interpolation inside the
//! containing grid cell, and the generators that build the grid and its
//! render mesh from a heightmap image's pixel rows.

use vstd::prelude::*;

use crate::rat::{
    Frac, Rat, frac_add, frac_sub, frac_mul, frac_div, frac_le, frac_eq, frac_int,
    frac_floor, frac_bounded, frac_wf, lemma_add_bounds, lemma_mul_bounds, lemma_div_bounds,
    lemma_cmp_bounds, lemma_floor_props, lemma_floor_range, lemma_frac_le_trans,
    lemma_den_product, lemma_four_shuffle, lemma_frac_eq_scaled, lemma_frac_eq_trans,
    lemma_frac_add_congr, lemma_frac_mul_congr,
};
use vstd::arithmetic::div_mod::lemma_div_multiples_vanish;
use vstd::arithmetic::mul::{
    lemma_mul_is_associative, lemma_mul_is_commutative, lemma_mul_is_distributive_add,
    lemma_mul_is_distributive_sub, lemma_mul_is_distributive_sub_other_way,
    lemma_mul_by_zero_is_zero,
};
use crate::types::{Vector2, Vector3, GeomError};
use crate::mesh::{Mesh, Vertex, COORD_NUM, COORD_DEN};
use crate::entity::{Entity, POS_NUM, SCALE_NUM, SCALE_DEN};

verus! {

/// Side length of the square terrain domain, in world units.
pub const SIZE: i128 = 800;

/// Margin of the movement range: terrain-bound entities stay within
/// `[DEADZONE, BOUND_MAX]` on both horizontal axes.
pub const DEADZONE: i128 = 5;

/// Upper bound of the movement range (`SIZE - DEADZONE`).
pub const BOUND_MAX: i128 = 795;

/// Largest grid resolution per axis. It keeps the grid positions of the
/// generated mesh on the coordinate grid the rest of the geometry uses.
pub const MAX_GRID: usize = 257;

/// Largest numerator magnitude of a stored height.
pub const HEIGHT_NUM: i128 = 0x4000;

/// Largest denominator of a stored height.
pub const HEIGHT_DEN: i128 = 0x40;

/// Largest magnitude of a stored height as a value.
pub const HEIGHT_VAL: i128 = 0x100;

/// Largest magnitude of a sampled height as a value (heights enter the
/// interpolation with barycentric weights summing to one).
pub const SAMPLE_VAL: i128 = 0x500;

/// Largest numerator magnitude of a sampled height.
pub const SAMPLE_NUM: i128 = 0x1000000000000000000000000000;

/// Largest denominator of a sampled height.
pub const SAMPLE_DEN: i128 = 0x400000000000000000000;

/// Largest numerator magnitude of a within-cell fraction.
pub const FRAC_NUM: i128 = 0x20000000000;

/// Largest denominator of a within-cell fraction.
pub const FRAC_DEN: i128 = 0x4000000;

/// A stored height: bounded componentwise and as a value.
pub open spec fn height_wf(h: Frac) -> bool {
    &&& frac_bounded(h, HEIGHT_NUM as int, HEIGHT_DEN as int)
    &&& -(HEIGHT_VAL as int) * h.d <= h.n <= HEIGHT_VAL as int * h.d
}

/// Linear interpolation over one triangle of a grid cell: the value at
/// the corner carrying `a`, moved by the two in-cell fractions toward the
/// corners carrying `b` (along x) and `c` (along z). These are exactly
/// the barycentric weights `1 - xf - zf`, `xf`, `zf`.
pub open spec fn interp_tri(a: Frac, b: Frac, c: Frac, xf: Frac, zf: Frac) -> Frac {
    frac_add(a, frac_add(frac_mul(xf, frac_sub(b, a)), frac_mul(zf, frac_sub(c, a))))
}

/// Heightfield terrain: the terrain entity (mesh and world transform)
/// plus the dense `count x count` grid of heights it was generated from,
/// row-major with the x coordinate varying fastest.
pub struct Terrain {
    pub entity: Entity,
    pub heights: Vec<Rat>,
    pub count: usize,
}

impl Terrain {
    pub open spec fn wf(self) -> bool {
        &&& self.entity.wf()
        &&& 2 <= self.count <= MAX_GRID
        &&& self.heights@.len() == self.count * self.count
        &&& forall|i: int| 0 <= i < self.heights@.len() ==> height_wf((#[trigger] self.heights@[i])@)
    }

    /// The stored height at grid point `(gx, gz)`.
    pub open spec fn height_at(self, gx: int, gz: int) -> Frac {
        self.heights@[gz * (self.count as int) + gx]@
    }

    /// Side length of one grid cell: the domain size over the number of
    /// cells per axis.
    pub open spec fn square_size(self) -> Frac {
        Frac { n: SIZE as int, d: self.count as int - 1 }
    }

    /// The query point, translated into terrain-local coordinates, lies
    /// within the sampled domain `[0, SIZE]` on both axes.
    pub open spec fn in_domain(self, qx: Frac, qz: Frac) -> bool {
        let lx = frac_sub(qx, self.entity.worldPos@.x);
        let lz = frac_sub(qz, self.entity.worldPos@.z);
        &&& frac_le(frac_int(0), lx) && frac_le(lx, frac_int(SIZE as int))
        &&& frac_le(frac_int(0), lz) && frac_le(lz, frac_int(SIZE as int))
    }

    /// Index of the grid cell containing a local coordinate, clamped to
    /// the last cell so a query on the far domain edge still resolves.
    pub open spec fn cell_of(self, l: Frac) -> int {
        let g = frac_floor(frac_div(l, self.square_size()));
        if g > self.count as int - 2 {
            self.count as int - 2
        } else {
            g
        }
    }

    /// Position within the containing cell, per axis, in `[0, 1]`.
    pub open spec fn frac_in_cell(self, l: Frac) -> Frac {
        frac_sub(frac_div(l, self.square_size()), frac_int(self.cell_of(l)))
    }

    /// The sampled terrain height at a world-space point: zero outside
    /// the domain; inside, barycentric interpolation over the triangle of
    /// the containing cell selected by `xf <= 1 - zf`.
    pub open spec fn sample_spec(self, qx: Frac, qz: Frac) -> Frac {
        if !self.in_domain(qx, qz) {
            frac_int(0)
        } else {
            let lx = frac_sub(qx, self.entity.worldPos@.x);
            let lz = frac_sub(qz, self.entity.worldPos@.z);
            let gx = self.cell_of(lx);
            let gz = self.cell_of(lz);
            let xf = self.frac_in_cell(lx);
            let zf = self.frac_in_cell(lz);
            if frac_le(xf, frac_sub(frac_int(1), zf)) {
                interp_tri(
                    self.height_at(gx, gz),
                    self.height_at(gx + 1, gz),
                    self.height_at(gx, gz + 1),
                    xf,
                    zf,
                )
            } else {
                interp_tri(
                    self.height_at(gx + 1, gz + 1),
                    self.height_at(gx, gz + 1),
                    self.height_at(gx + 1, gz),
                    frac_sub(frac_int(1), xf),
                    frac_sub(frac_int(1), zf),
                )
            }
        }
    }

    /// Builds the terrain from a decoded heightmap image: the height grid
    /// and the render mesh come from the image, the entity couples the
    /// mesh with the given world transform. Degenerate images and
    /// transforms outside the exact-arithmetic range are rejected.
    pub fn new(worldPos: Vector3, orientation: Vector3, scale: Rat, img: &HeightMapImage) -> (r:
        Result<Terrain, GeomError>)
        ensures
            r is Ok <==> {
                &&& img.wf()
                &&& worldPos.bounded(POS_NUM as int, COORD_DEN as int)
                &&& orientation.wf()
                &&& frac_bounded(scale@, SCALE_NUM as int, SCALE_DEN as int)
            },
            r is Err ==> r == Err::<Terrain, GeomError>(GeomError::InvalidInput),
            r matches Ok(t) ==> {
                &&& t.wf()
                &&& t.count == img.height
                &&& t.entity.worldPos == worldPos
                &&& t.entity.orientation == orientation
                &&& t.entity.scale == scale
                &&& t.entity.meshes@.len() == 1
                &&& forall|j: int|
                    0 <= j < t.heights@.len() ==> (#[trigger] t.heights@[j])@ == image_height_at(
                        *img,
                        j % (img.height as int),
                        j / (img.height as int),
                    )
            },
    {
        if img.height < 2 || img.height > MAX_GRID as u32 {
            return Err(GeomError::InvalidInput);
        }
        let count = img.height as usize;
        proof {
            assert(count * count <= 66049) by (nonlinear_arith)
                requires
                    count <= 257,
            {
            }
        }
        if img.pixels.len() != count * count {
            return Err(GeomError::InvalidInput);
        }
        if !(worldPos.x.check_bounded(POS_NUM, COORD_DEN) && worldPos.y.check_bounded(POS_NUM,
            COORD_DEN) && worldPos.z.check_bounded(POS_NUM, COORD_DEN)) {
            return Err(GeomError::InvalidInput);
        }
        if !(orientation.x.den >= 1 && orientation.y.den >= 1 && orientation.z.den >= 1) {
            return Err(GeomError::InvalidInput);
        }
        if !scale.check_bounded(SCALE_NUM, SCALE_DEN) {
            return Err(GeomError::InvalidInput);
        }
        let (vertices, heights) = genVertices(img, img.height);
        let indices = genIndices(img.height);
        let mesh = Mesh::new(vertices, indices, Vec::new());
        let mut meshes: Vec<Mesh> = Vec::new();
        meshes.push(mesh);
        proof {
            assert(count * count >= 4) by (nonlinear_arith)
                requires
                    count >= 2,
            {
            }
        }
        match Entity::new(meshes, worldPos, orientation, scale, Rat::zero()) {
            Ok(e) => Ok(Terrain { entity: e, heights, count }),
            Err(_) => {
                proof {
                    assert(false);
                }
                Err(GeomError::InvalidInput)
            },
        }
    }

    /// Terrain surface elevation at world-space `(x, z)`, by barycentric
    /// interpolation over the containing grid cell's triangle; zero for
    /// points outside the sampled domain. The result is exact, and its
    /// value never exceeds the height range times the weight sum.
    pub fn getHeight(&self, worldX: &Rat, worldZ: &Rat) -> (r: Rat)
        requires
            self.wf(),
            frac_bounded(worldX@, POS_NUM as int, COORD_DEN as int),
            frac_bounded(worldZ@, POS_NUM as int, COORD_DEN as int),
        ensures
            r@ == self.sample_spec(worldX@, worldZ@),
            r.wf(),
            frac_bounded(r@, SAMPLE_NUM as int, SAMPLE_DEN as int),
            -(SAMPLE_VAL as int) * r@.d <= r@.n <= SAMPLE_VAL as int * r@.d,
    {
        let pos = &self.entity.worldPos;
        proof {
            lemma_add_bounds(worldX@, pos@.x, POS_NUM as int, COORD_DEN as int, POS_NUM as int,
                COORD_DEN as int);
            lemma_add_bounds(worldZ@, pos@.z, POS_NUM as int, COORD_DEN as int, POS_NUM as int,
                COORD_DEN as int);
        }
        let lx = worldX.sub(&pos.x);
        let lz = worldZ.sub(&pos.z);
        let zero = Rat::zero();
        let size = Rat::from_int(SIZE);
        proof {
            lemma_cmp_bounds(lx@, frac_int(0), 0x80000000, 0x10000, SIZE as int, 1);
            lemma_cmp_bounds(lx@, frac_int(SIZE as int), 0x80000000, 0x10000, SIZE as int, 1);
            lemma_cmp_bounds(lz@, frac_int(0), 0x80000000, 0x10000, SIZE as int, 1);
            lemma_cmp_bounds(lz@, frac_int(SIZE as int), 0x80000000, 0x10000, SIZE as int, 1);
        }
        if !(zero.le(&lx) && lx.le(&size) && zero.le(&lz) && lz.le(&size)) {
            return Rat::zero();
        }
        let sq = Rat::new(SIZE, self.count as i128 - 1);
        proof {
            lemma_div_bounds(lx@, sq@, 0x80000000, 0x10000, SIZE as int, 0x100);
            lemma_div_bounds(lz@, sq@, 0x80000000, 0x10000, SIZE as int, 0x100);
        }
        let tx = lx.div(&sq);
        let tz = lz.div(&sq);
        let (gx, xf) = self.locate_cell(&tx, Ghost(lx@));
        let (gz, zf) = self.locate_cell(&tz, Ghost(lz@));
        proof {
            assert(gz * self.count + gx + 1 < self.count * self.count && (gz + 1) * self.count + gx
                + 1 < self.count * self.count && self.count * self.count <= 66049)
                by (nonlinear_arith)
                requires
                    0 <= gz <= self.count - 2,
                    0 <= gx <= self.count - 2,
                    2 <= self.count <= 257,
            {
            }
        }
        let h00 = self.heights[gz * self.count + gx];
        let h10 = self.heights[gz * self.count + gx + 1];
        let h01 = self.heights[(gz + 1) * self.count + gx];
        let h11 = self.heights[(gz + 1) * self.count + gx + 1];
        let one = Rat::from_int(1);
        proof {
            lemma_add_bounds(frac_int(1), zf@, 1, 1, FRAC_NUM as int, FRAC_DEN as int);
            lemma_cmp_bounds(xf@, frac_sub(frac_int(1), zf@), FRAC_NUM as int, FRAC_DEN as int,
                FRAC_NUM as int, FRAC_DEN as int);
            lemma_add_bounds(frac_int(1), xf@, 1, 1, FRAC_NUM as int, FRAC_DEN as int);
        }
        if xf.le(&one.sub(&zf)) {
            interpTri(&h00, &h10, &h01, &xf, &zf)
        } else {
            interpTri(&h11, &h01, &h10, &one.sub(&xf), &one.sub(&zf))
        }
    }

    /// Locates the (clamped) grid cell containing a scaled local
    /// coordinate `t = local / squareSize` in `[0, count - 1]`, and the
    /// fraction within that cell.
    fn locate_cell(&self, t: &Rat, local: Ghost<Frac>) -> (r: (usize, Rat))
        requires
            self.wf(),
            frac_wf(local@),
            t@ == frac_div(local@, self.square_size()),
            frac_bounded(t@, 0x8000000000, FRAC_DEN as int),
            frac_le(frac_int(0), local@),
            frac_le(local@, frac_int(SIZE as int)),
        ensures
            r.0 == self.cell_of(local@),
            r.1@ == self.frac_in_cell(local@),
            0 <= r.0 <= self.count - 2,
            frac_bounded(r.1@, FRAC_NUM as int, FRAC_DEN as int),
            frac_le(frac_int(0), r.1@),
            frac_le(r.1@, frac_int(1)),
    {
        proof {
            lemma_floor_range(t@.n, t@.d);
            lemma_floor_props(t@);
            // 0 <= t: the local coordinate and the square size are nonnegative.
            assert(t@.n >= 0) by (nonlinear_arith)
                requires
                    t@.n == local@.n * (self.count as int - 1),
                    local@.n >= 0,
                    self.count as int - 1 >= 1,
            {
            }
            // t <= count - 1: local <= SIZE cancels against the square size.
            assert(frac_le(t@, frac_int(self.count as int - 1))) by (nonlinear_arith)
                requires
                    t@.n == local@.n * (self.count as int - 1),
                    t@.d == local@.d * (SIZE as int),
                    local@.n <= (SIZE as int) * local@.d,
                    local@.d >= 1,
                    self.count as int - 1 >= 1,
            {
            }
        }
        let g = t.floor();
        let gi: i128 = if g > self.count as i128 - 2 {
            self.count as i128 - 2
        } else {
            g
        };
        let gx = gi as usize;
        let gr = Rat::from_int(gi);
        proof {
            lemma_add_bounds(t@, gr@, 0x8000000000, FRAC_DEN as int, 0x100, 1);
            // The cell index never exceeds the floor, so the fraction is
            // nonnegative.
            lemma_frac_le_trans(frac_int(gi as int), frac_int(frac_floor(t@)), t@);
        }
        let f = t.sub(&gr);
        proof {
            // t <= gi + 1, by the floor property for an unclamped index
            // and by t <= count - 1 for a clamped one; so f <= 1.
            assert(f@.n <= f@.d) by (nonlinear_arith)
                requires
                    f@.n == t@.n * 1 - (gi as int) * t@.d,
                    f@.d == t@.d * 1,
                    t@.d >= 1,
                    t@.n < (frac_floor(t@) + 1) * t@.d,
                    t@.n <= (self.count as int - 1) * t@.d,
                    gi as int == frac_floor(t@) || gi as int == self.count as int - 2,
            {
            }
            assert(f@.n * 1 <= 1 * f@.d);
            assert(frac_le(f@, frac_int(1)));
        }
        (gx, f)
    }
}

/// Exact linear interpolation over one cell triangle. The result is
/// `a + xf*(b - a) + zf*(c - a)`, and since the fractions lie in `[0, 1]`
/// its value stays within five times the height range.
fn interpTri(a: &Rat, b: &Rat, c: &Rat, xf: &Rat, zf: &Rat) -> (r: Rat)
    requires
        height_wf(a@),
        height_wf(b@),
        height_wf(c@),
        frac_bounded(xf@, FRAC_NUM as int, FRAC_DEN as int),
        frac_bounded(zf@, FRAC_NUM as int, FRAC_DEN as int),
        frac_le(frac_int(0), xf@),
        frac_le(xf@, frac_int(1)),
        frac_le(frac_int(0), zf@),
        frac_le(zf@, frac_int(1)),
    ensures
        r@ == interp_tri(a@, b@, c@, xf@, zf@),
        r.wf(),
        frac_bounded(r@, SAMPLE_NUM as int, SAMPLE_DEN as int),
        -(SAMPLE_VAL as int) * r@.d <= r@.n <= SAMPLE_VAL as int * r@.d,
{
    proof {
        lemma_add_bounds(b@, a@, HEIGHT_NUM as int, HEIGHT_DEN as int, HEIGHT_NUM as int,
            HEIGHT_DEN as int);
        lemma_add_bounds(c@, a@, HEIGHT_NUM as int, HEIGHT_DEN as int, HEIGHT_NUM as int,
            HEIGHT_DEN as int);
        lemma_mul_bounds(xf@, frac_sub(b@, a@), FRAC_NUM as int, FRAC_DEN as int, 0x200000,
            0x1000);
        lemma_mul_bounds(zf@, frac_sub(c@, a@), FRAC_NUM as int, FRAC_DEN as int, 0x200000,
            0x1000);
        lemma_add_bounds(frac_mul(xf@, frac_sub(b@, a@)), frac_mul(zf@, frac_sub(c@, a@)),
            0x4000000000000000, 0x4000000000, 0x4000000000000000, 0x4000000000);
        lemma_add_bounds(a@,
            frac_add(frac_mul(xf@, frac_sub(b@, a@)), frac_mul(zf@, frac_sub(c@, a@))),
            HEIGHT_NUM as int, HEIGHT_DEN as int, 0x20000000000000000000000000, 0x10000000000000000000);
        lemma_interp_value(a@, b@, c@, xf@, zf@);
    }
    a.add(&xf.mul(&b.sub(a)).add(&zf.mul(&c.sub(a))))
}

/// A decoded heightmap image, reduced to what the terrain reads from it:
/// the first channel of each pixel, row-major, and the image height. The
/// grid resolution per axis equals the image height (square images).
pub struct HeightMapImage {
    pub pixels: Vec<u8>,
    pub height: u32,
}

impl HeightMapImage {
    pub open spec fn wf(self) -> bool {
        &&& 2 <= self.height <= MAX_GRID
        &&& self.pixels@.len() == self.height * self.height
    }
}

/// Height encoded by one pixel value: `((p + 64) / 64) * 40`, the
/// pixel recentered by half the color range and scaled.
pub open spec fn pixel_height(p: u8) -> Frac {
    Frac { n: (p + 64) * 40, d: 64 }
}

/// The height the image yields at grid point `(x, z)`: zero outside the
/// image, else the height encoded by the pixel there.
pub open spec fn image_height_at(img: HeightMapImage, x: int, z: int) -> Frac {
    if x >= img.height || z >= img.height {
        frac_int(0)
    } else {
        pixel_height(img.pixels@[z * img.height + x])
    }
}

/// Reads the height at grid point `(x, z)` from a heightmap image;
/// points outside the image read as height zero.
pub fn getHeightFromImage(x: u32, z: u32, img: &HeightMapImage) -> (r: Rat)
    requires
        img.wf(),
    ensures
        r@ == image_height_at(*img, x as int, z as int),
        height_wf(r@),
{
    if x >= img.height || z >= img.height {
        Rat::zero()
    } else {
        proof {
            assert(z * img.height + x < img.height * img.height && img.height * img.height
                <= 66049) by (nonlinear_arith)
                requires
                    x < img.height,
                    z < img.height,
                    img.height <= 257,
            {
            }
        }
        let p = img.pixels[(z as usize) * (img.height as usize) + (x as usize)];
        Rat::new((p as i128 + 64) * 40, 64)
    }
}

/// The surface normal the generated mesh stores at grid point `(x, z)`:
/// the central height differences along each axis (clamped at the grid
/// edge) around a fixed vertical component. The renderer normalizes it;
/// the stored vector is exact.
pub open spec fn normal_spec(img: HeightMapImage, x: int, z: int, gridSize: int) -> crate::types::FracV3 {
    let lx = if x == 0 { x } else { x - 1 };
    let rx = if x == gridSize - 1 { x } else { x + 1 };
    let dz = if z == 0 { z } else { z - 1 };
    let uz = if z == gridSize - 1 { z } else { z + 1 };
    crate::types::FracV3 {
        x: frac_sub(image_height_at(img, lx, z), image_height_at(img, rx, z)),
        y: frac_int(2),
        z: frac_sub(image_height_at(img, x, dz), image_height_at(img, x, uz)),
    }
}

/// Computes the (unnormalized) surface normal at a grid point from the
/// neighboring heights.
fn calcNormal(x: u32, z: u32, gridSize: u32, img: &HeightMapImage) -> (r: Vector3)
    requires
        img.wf(),
        x < gridSize,
        z < gridSize,
        gridSize <= MAX_GRID as u32,
    ensures
        r@ == normal_spec(*img, x as int, z as int, gridSize as int),
        r.wf(),
{
    let hLx = if x == 0 { x } else { x - 1 };
    let hRx = if x == gridSize - 1 { x } else { x + 1 };
    let hDz = if z == 0 { z } else { z - 1 };
    let hUz = if z == gridSize - 1 { z } else { z + 1 };
    let hL = getHeightFromImage(hLx, z, img);
    let hR = getHeightFromImage(hRx, z, img);
    let hD = getHeightFromImage(x, hDz, img);
    let hU = getHeightFromImage(x, hUz, img);
    proof {
        lemma_add_bounds(hL@, hR@, HEIGHT_NUM as int, HEIGHT_DEN as int, HEIGHT_NUM as int,
            HEIGHT_DEN as int);
        lemma_add_bounds(hD@, hU@, HEIGHT_NUM as int, HEIGHT_DEN as int, HEIGHT_NUM as int,
            HEIGHT_DEN as int);
    }
    Vector3::new(hL.sub(&hR), Rat::from_int(2), hD.sub(&hU))
}

/// Position of grid point `g` along one axis: `g / (count - 1) * SIZE`.
pub open spec fn grid_coord(g: int, count: int) -> Frac {
    Frac { n: SIZE as int * g, d: count - 1 }
}

/// Texture coordinate of grid point `g` along one axis.
pub open spec fn tex_coord(g: int, count: int) -> Frac {
    Frac { n: g, d: count - 1 }
}

/// The vertex the terrain generator places at grid point `(x, z)`.
pub open spec fn grid_vertex_ok(img: HeightMapImage, count: int, v: Vertex, x: int, z: int) -> bool {
    &&& v.Position@.x == grid_coord(x, count)
    &&& v.Position@.y == image_height_at(img, x, z)
    &&& v.Position@.z == grid_coord(z, count)
    &&& v.Normal@ == normal_spec(img, x, z, count)
    &&& v.TexCoords@.x == tex_coord(x, count)
    &&& v.TexCoords@.y == tex_coord(z, count)
    &&& v.wf()
}

/// Generates the terrain mesh vertices and the height grid from a
/// heightmap image: one vertex per grid point, row-major with x varying
/// fastest, positions spanning the `[0, SIZE]` square, heights and
/// normals read from the image.
pub fn genVertices(img: &HeightMapImage, VERTEX_COUNT: u32) -> (r: (Vec<Vertex>, Vec<Rat>))
    requires
        img.wf(),
        VERTEX_COUNT == img.height,
    ensures
        r.0@.len() == VERTEX_COUNT * VERTEX_COUNT,
        r.1@.len() == VERTEX_COUNT * VERTEX_COUNT,
        forall|j: int|
            0 <= j < r.0@.len() ==> grid_vertex_ok(
                *img,
                VERTEX_COUNT as int,
                #[trigger] r.0@[j],
                j % (VERTEX_COUNT as int),
                j / (VERTEX_COUNT as int),
            ),
        forall|j: int|
            0 <= j < r.1@.len() ==> (#[trigger] r.1@[j])@ == image_height_at(
                *img,
                j % (VERTEX_COUNT as int),
                j / (VERTEX_COUNT as int),
            ),
        forall|j: int| 0 <= j < r.1@.len() ==> height_wf((#[trigger] r.1@[j])@),
{
    let count = VERTEX_COUNT;
    let mut vertexVec: Vec<Vertex> = Vec::new();
    let mut heights: Vec<Rat> = Vec::new();
    let mut gz: u32 = 0;
    while gz < count
        invariant
            img.wf(),
            count == img.height,
            0 <= gz <= count,
            vertexVec@.len() == gz * count,
            heights@.len() == gz * count,
            forall|j: int|
                0 <= j < vertexVec@.len() ==> grid_vertex_ok(
                    *img,
                    count as int,
                    #[trigger] vertexVec@[j],
                    j % (count as int),
                    j / (count as int),
                ),
            forall|j: int|
                0 <= j < heights@.len() ==> (#[trigger] heights@[j])@ == image_height_at(
                    *img,
                    j % (count as int),
                    j / (count as int),
                ),
            forall|j: int| 0 <= j < heights@.len() ==> height_wf((#[trigger] heights@[j])@),
        decreases count - gz,
    {
        let mut gx: u32 = 0;
        while gx < count
            invariant
                img.wf(),
                count == img.height,
                0 <= gz < count,
                0 <= gx <= count,
                vertexVec@.len() == gz * count + gx,
                heights@.len() == gz * count + gx,
                forall|j: int|
                    0 <= j < vertexVec@.len() ==> grid_vertex_ok(
                        *img,
                        count as int,
                        #[trigger] vertexVec@[j],
                        j % (count as int),
                        j / (count as int),
                    ),
                forall|j: int|
                    0 <= j < heights@.len() ==> (#[trigger] heights@[j])@ == image_height_at(
                        *img,
                        j % (count as int),
                        j / (count as int),
                    ),
                forall|j: int| 0 <= j < heights@.len() ==> height_wf((#[trigger] heights@[j])@),
            decreases count - gx,
        {
            let height = getHeightFromImage(gx, gz, img);
            let n = calcNormal(gx, gz, count, img);
            let cnt1 = count as i128 - 1;
            let x = Rat::new(SIZE * gx as i128, cnt1);
            let z = Rat::new(SIZE * gz as i128, cnt1);
            let tX = Rat::new(gx as i128, cnt1);
            let tZ = Rat::new(gz as i128, cnt1);
            let v = Vertex {
                Position: Vector3::new(x, height, z),
                Normal: n,
                TexCoords: Vector2::new(tX, tZ),
            };
            proof {
                vstd::arithmetic::div_mod::lemma_fundamental_div_mod_converse(
                    gz as int * count as int + gx as int,
                    count as int,
                    gz as int,
                    gx as int,
                );
                assert(SIZE * (gx as int) <= 0x40000 && SIZE * (gz as int) <= 0x40000)
                    by (nonlinear_arith)
                    requires
                        0 <= gx <= 256,
                        0 <= gz <= 256,
                        SIZE == 800,
                {
                }
                assert(gz * count + gx + 1 <= count * count) by (nonlinear_arith)
                    requires
                        0 <= gx < count,
                        0 <= gz < count,
                        count <= 257,
                {
                }
            }
            vertexVec.push(v);
            heights.push(height);
            gx += 1;
        }
        proof {
            assert((gz + 1) * count == gz * count + count) by (nonlinear_arith)
                requires
                    gz >= 0,
                    count >= 0,
            {
            }
        }
        gz += 1;
    }
    (vertexVec, heights)
}

/// The six indices of one grid cell: its two triangles, both wound from
/// the top-left / bottom-right diagonal.
pub open spec fn cell_indices(count: int, gz: int, gx: int) -> Seq<u32> {
    let topLeft = (gz * count + gx) as u32;
    let topRight = ((gz * count + gx) + 1) as u32;
    let bottomLeft = ((gz + 1) * count + gx) as u32;
    let bottomRight = ((gz + 1) * count + gx + 1) as u32;
    seq![topLeft, bottomLeft, topRight, topRight, bottomLeft, bottomRight]
}

/// Indices of the first `gx` cells of row `gz`.
pub open spec fn row_indices(count: int, gz: int, gx: int) -> Seq<u32>
    decreases gx,
{
    if gx <= 0 {
        Seq::empty()
    } else {
        row_indices(count, gz, gx - 1) + cell_indices(count, gz, gx - 1)
    }
}

/// Indices of the first `gz` full rows of cells.
pub open spec fn rows_indices(count: int, gz: int) -> Seq<u32>
    decreases gz,
{
    if gz <= 0 {
        Seq::empty()
    } else {
        rows_indices(count, gz - 1) + row_indices(count, gz - 1, count - 1)
    }
}

proof fn lemma_row_indices_len(count: int, gz: int, gx: int)
    requires
        gx >= 0,
    ensures
        row_indices(count, gz, gx).len() == 6 * gx,
    decreases gx,
{
    if gx > 0 {
        lemma_row_indices_len(count, gz, gx - 1);
    }
}

proof fn lemma_rows_indices_len(count: int, gz: int)
    requires
        count >= 1,
        gz >= 0,
    ensures
        rows_indices(count, gz).len() == 6 * gz * (count - 1),
    decreases gz,
{
    if gz > 0 {
        lemma_rows_indices_len(count, gz - 1);
        lemma_row_indices_len(count, gz - 1, count - 1);
        assert(6 * (gz - 1) * (count - 1) + 6 * (count - 1) == 6 * gz * (count - 1))
            by (nonlinear_arith)
        {
        }
    } else {
        assert(6 * gz * (count - 1) == 0) by (nonlinear_arith)
            requires
                gz == 0,
        {
        }
    }
}

/// Generates the triangle indices of the terrain grid: for each cell,
/// its two triangles, row by row.
pub fn genIndices(VERTEX_COUNT: u32) -> (r: Vec<u32>)
    requires
        1 <= VERTEX_COUNT <= MAX_GRID as u32,
    ensures
        r@ == rows_indices(VERTEX_COUNT as int, VERTEX_COUNT as int - 1),
        r@.len() == 6 * (VERTEX_COUNT - 1) * (VERTEX_COUNT - 1),
{
    let count = VERTEX_COUNT;
    let mut indices: Vec<u32> = Vec::new();
    let mut gz: u32 = 0;
    while gz < count - 1
        invariant
            1 <= count <= 257,
            0 <= gz <= count - 1,
            indices@ == rows_indices(count as int, gz as int),
        decreases count - 1 - gz,
    {
        let mut gx: u32 = 0;
        while gx < count - 1
            invariant
                1 <= count <= 257,
                0 <= gz < count - 1,
                0 <= gx <= count - 1,
                indices@ == rows_indices(count as int, gz as int) + row_indices(count as int,
                    gz as int, gx as int),
            decreases count - 1 - gx,
        {
            proof {
                assert(gz * count + gx + 1 <= 66049 && (gz + 1) * count + gx + 1 <= 66049)
                    by (nonlinear_arith)
                    requires
                        0 <= gx < count - 1,
                        0 <= gz < count - 1,
                        count <= 257,
                {
                }
            }
            let topLeft = gz * count + gx;
            let topRight = topLeft + 1;
            let bottomLeft = (gz + 1) * count + gx;
            let bottomRight = bottomLeft + 1;
            indices.push(topLeft);
            indices.push(bottomLeft);
            indices.push(topRight);
            indices.push(topRight);
            indices.push(bottomLeft);
            indices.push(bottomRight);
            proof {
                assert(indices@ =~= rows_indices(count as int, gz as int) + row_indices(
                    count as int,
                    gz as int,
                    gx as int + 1,
                ));
            }
            gx += 1;
        }
        proof {
            assert(indices@ =~= rows_indices(count as int, gz as int + 1));
        }
        gz += 1;
    }
    proof {
        lemma_rows_indices_len(count as int, count as int - 1);
    }
    indices
}

/// Linear interpolation between two values: `p` moved toward `q` by `t`.
pub open spec fn lerp(p: Frac, q: Frac, t: Frac) -> Frac {
    frac_add(p, frac_mul(t, frac_sub(q, p)))
}

/// `lerp(p, q, s)` written over the common denominator
/// `s.d * (p.d * q.d)`: the weighted mix `(1 - s) * p + s * q`.
pub open spec fn lerp_mixed(p: Frac, q: Frac, s: Frac) -> Frac {
    Frac { n: (s.d - s.n) * (p.n * q.d) + s.n * (q.n * p.d), d: s.d * (p.d * q.d) }
}

/// The interpolation result has a positive denominator.
pub proof fn lemma_interp_wf(a: Frac, b: Frac, c: Frac, xf: Frac, zf: Frac)
    requires
        frac_wf(a),
        frac_wf(b),
        frac_wf(c),
        frac_wf(xf),
        frac_wf(zf),
    ensures
        frac_wf(interp_tri(a, b, c, xf, zf)),
{
    lemma_den_product(b.d, a.d);
    lemma_den_product(c.d, a.d);
    lemma_den_product(xf.d, b.d * a.d);
    lemma_den_product(zf.d, c.d * a.d);
    lemma_den_product(xf.d * (b.d * a.d), zf.d * (c.d * a.d));
    lemma_den_product(a.d, (xf.d * (b.d * a.d)) * (zf.d * (c.d * a.d)));
}

/// The lerp result has a positive denominator.
pub proof fn lemma_lerp_wf(p: Frac, q: Frac, t: Frac)
    requires
        frac_wf(p),
        frac_wf(q),
        frac_wf(t),
    ensures
        frac_wf(lerp(p, q, t)),
{
    lemma_den_product(q.d, p.d);
    lemma_den_product(t.d, q.d * p.d);
    lemma_den_product(p.d, t.d * (q.d * p.d));
}

/// On a cell's left edge (`xf == 0` as a value), the interpolated height
/// does not depend on the far corner: it is the straight interpolation of
/// the two edge corners.
pub proof fn lemma_interp_x_edge(a: Frac, b: Frac, c: Frac, xf: Frac, zf: Frac)
    requires
        frac_wf(a),
        frac_wf(b),
        frac_wf(c),
        frac_wf(xf),
        frac_wf(zf),
        xf.n == 0,
    ensures
        frac_eq(interp_tri(a, b, c, xf, zf), lerp(a, c, zf)),
{
    let u = frac_mul(xf, frac_sub(b, a));
    let v = frac_mul(zf, frac_sub(c, a));
    let r = interp_tri(a, b, c, xf, zf);
    let l = lerp(a, c, zf);
    lemma_den_product(b.d, a.d);
    lemma_den_product(c.d, a.d);
    lemma_den_product(xf.d, b.d * a.d);
    lemma_den_product(zf.d, c.d * a.d);
    lemma_den_product(a.d, v.d);
    lemma_mul_by_zero_is_zero(b.n * a.d - a.n * b.d);
    lemma_mul_by_zero_is_zero(v.d);
    assert(u.n == 0);
    let w = frac_add(u, v);
    assert(w.n == v.n * u.d);
    assert(r.n == u.d * l.n) by {
        lemma_mul_is_associative(a.n, u.d, v.d);
        lemma_mul_is_commutative(a.n, u.d);
        lemma_mul_is_associative(u.d, a.n, v.d);
        lemma_mul_is_commutative(v.n, u.d);
        lemma_mul_is_associative(u.d, v.n, a.d);
        lemma_mul_is_distributive_add(u.d, a.n * v.d, v.n * a.d);
    }
    assert(r.d == u.d * l.d) by {
        lemma_mul_is_associative(a.d, u.d, v.d);
        lemma_mul_is_commutative(a.d, u.d);
        lemma_mul_is_associative(u.d, a.d, v.d);
    }
    lemma_den_product(u.d, l.d);
    lemma_frac_eq_scaled(r, l, u.d);
}

/// On a cell's top edge (`zf == 0` as a value), the interpolated height
/// does not depend on the far corner.
pub proof fn lemma_interp_z_edge(a: Frac, b: Frac, c: Frac, xf: Frac, zf: Frac)
    requires
        frac_wf(a),
        frac_wf(b),
        frac_wf(c),
        frac_wf(xf),
        frac_wf(zf),
        zf.n == 0,
    ensures
        frac_eq(interp_tri(a, b, c, xf, zf), lerp(a, b, xf)),
{
    let u = frac_mul(xf, frac_sub(b, a));
    let v = frac_mul(zf, frac_sub(c, a));
    let r = interp_tri(a, b, c, xf, zf);
    let l = lerp(a, b, xf);
    lemma_den_product(b.d, a.d);
    lemma_den_product(c.d, a.d);
    lemma_den_product(xf.d, b.d * a.d);
    lemma_den_product(zf.d, c.d * a.d);
    lemma_den_product(a.d, u.d);
    lemma_mul_by_zero_is_zero(c.n * a.d - a.n * c.d);
    lemma_mul_by_zero_is_zero(u.d);
    assert(v.n == 0);
    let w = frac_add(u, v);
    assert(w.n == u.n * v.d);
    assert(r.n == v.d * l.n) by {
        lemma_mul_is_associative(a.n, u.d, v.d);
        lemma_mul_is_commutative(a.n * u.d, v.d);
        lemma_mul_is_associative(v.d, a.n, u.d);
        lemma_mul_is_commutative(u.n, v.d);
        lemma_mul_is_associative(v.d, u.n, a.d);
        lemma_mul_is_distributive_add(v.d, a.n * u.d, u.n * a.d);
    }
    assert(r.d == v.d * l.d) by {
        lemma_mul_is_associative(a.d, u.d, v.d);
        lemma_mul_is_commutative(a.d * u.d, v.d);
        lemma_mul_is_associative(v.d, a.d, u.d);
    }
    lemma_den_product(v.d, l.d);
    lemma_frac_eq_scaled(r, l, v.d);
}

/// `lerp` equals its common-denominator mixed form.
pub proof fn lemma_lerp_mixed(p: Frac, q: Frac, s: Frac)
    requires
        frac_wf(p),
        frac_wf(q),
        frac_wf(s),
    ensures
        frac_eq(lerp(p, q, s), lerp_mixed(p, q, s)),
{
    let dq = frac_sub(q, p);
    let af = frac_mul(s, dq);
    let l = lerp(p, q, s);
    let m = lerp_mixed(p, q, s);
    lemma_den_product(q.d, p.d);
    lemma_den_product(s.d, dq.d);
    lemma_den_product(p.d, af.d);
    lemma_den_product(p.d, q.d);
    lemma_den_product(s.d, p.d * q.d);
    // l.n == p.d * m.n
    assert(p.n * af.d == p.d * (s.d * (p.n * q.d))) by {
        lemma_mul_is_associative(p.n, s.d, q.d * p.d);
        lemma_four_shuffle(p.n, s.d, q.d, p.d);
        lemma_mul_is_commutative(p.n * q.d, s.d * p.d);
        lemma_mul_is_commutative(s.d, p.d);
        lemma_mul_is_associative(p.d, s.d, p.n * q.d);
    }
    assert(af.n * p.d == p.d * (s.n * (q.n * p.d)) - p.d * (s.n * (p.n * q.d))) by {
        lemma_mul_is_distributive_sub(s.n, q.n * p.d, p.n * q.d);
        lemma_mul_is_distributive_sub_other_way(p.d, s.n * (q.n * p.d), s.n * (p.n * q.d));
        lemma_mul_is_commutative(s.n * (q.n * p.d), p.d);
        lemma_mul_is_commutative(s.n * (p.n * q.d), p.d);
    }
    assert(p.d * m.n == p.d * (s.d * (p.n * q.d)) - p.d * (s.n * (p.n * q.d)) + p.d * (s.n * (q.n
        * p.d))) by {
        lemma_mul_is_distributive_sub_other_way(p.n * q.d, s.d, s.n);
        lemma_mul_is_distributive_add(p.d, (s.d - s.n) * (p.n * q.d), s.n * (q.n * p.d));
        lemma_mul_is_distributive_sub(p.d, s.d * (p.n * q.d), s.n * (p.n * q.d));
    }
    assert(l.n == p.d * m.n);
    // l.d == p.d * m.d
    assert(l.d == p.d * m.d) by {
        lemma_mul_is_commutative(q.d, p.d);
    }
    lemma_den_product(p.d, m.d);
    lemma_frac_eq_scaled(l, m, p.d);
}

/// Interpolating from `p` toward `q` by `s` is interpolating from `q`
/// toward `p` by the complementary fraction.
pub proof fn lemma_lerp_reverse(p: Frac, q: Frac, s: Frac, t: Frac)
    requires
        frac_wf(p),
        frac_wf(q),
        frac_wf(s),
        frac_wf(t),
        frac_eq(frac_add(s, t), frac_int(1)),
    ensures
        frac_eq(lerp(p, q, s), lerp(q, p, t)),
{
    let t2 = Frac { n: s.d - s.n, d: s.d };
    let dp = frac_sub(p, q);
    lemma_den_product(p.d, q.d);
    lemma_den_product(q.d, p.d);
    assert(frac_eq(t, t2)) by {
        lemma_mul_is_distributive_sub_other_way(t.d, s.d, s.n);
    }
    lemma_frac_mul_congr(dp, t, t2);
    lemma_den_product(t.d, dp.d);
    lemma_den_product(t2.d, dp.d);
    lemma_frac_add_congr(q, frac_mul(t, dp), frac_mul(t2, dp));
    lemma_lerp_mixed(p, q, s);
    lemma_lerp_mixed(q, p, t2);
    let m1 = lerp_mixed(p, q, s);
    let m2 = lerp_mixed(q, p, t2);
    assert(m2.n == m1.n);
    assert(m2.d == m1.d) by {
        lemma_mul_is_commutative(q.d, p.d);
    }
    lemma_den_product(s.d, p.d * q.d);
    lemma_lerp_wf(p, q, s);
    lemma_lerp_wf(q, p, t2);
    lemma_lerp_wf(q, p, t);
    // lerp(p,q,s) ~ m1 == m2 ~ lerp(q,p,t2) ~ lerp(q,p,t)
    lemma_frac_eq_trans(lerp(p, q, s), m1, lerp(q, p, t2));
    lemma_frac_eq_trans(lerp(p, q, s), lerp(q, p, t2), lerp(q, p, t));
}

/// Continuity across the vertical edge between two horizontally adjacent
/// grid cells: at the shared edge the left cell (sampling its second
/// triangle with `xf == 1`) and the right cell (sampling its first
/// triangle with `xf == 0`) interpolate the same shared corner heights
/// `b` (top) and `d` (bottom) and agree exactly. `xf0` and `ozf` are the
/// left cell's complementary fractions, both exact.
pub proof fn lemma_seam_between_cells_x(
    b: Frac,
    d: Frac,
    cL: Frac,
    bR: Frac,
    xf0: Frac,
    xf0r: Frac,
    zf: Frac,
    ozf: Frac,
)
    requires
        frac_wf(b),
        frac_wf(d),
        frac_wf(cL),
        frac_wf(bR),
        frac_wf(xf0),
        frac_wf(xf0r),
        frac_wf(zf),
        frac_wf(ozf),
        xf0.n == 0,
        xf0r.n == 0,
        frac_eq(frac_add(zf, ozf), frac_int(1)),
    ensures
        frac_eq(interp_tri(d, cL, b, xf0, ozf), interp_tri(b, bR, d, xf0r, zf)),
{
    lemma_interp_x_edge(d, cL, b, xf0, ozf);
    lemma_interp_x_edge(b, bR, d, xf0r, zf);
    lemma_lerp_reverse(b, d, zf, ozf);
    lemma_interp_wf(d, cL, b, xf0, ozf);
    lemma_interp_wf(b, bR, d, xf0r, zf);
    lemma_lerp_wf(d, b, ozf);
    lemma_lerp_wf(b, d, zf);
    lemma_frac_eq_trans(interp_tri(d, cL, b, xf0, ozf), lerp(d, b, ozf), lerp(b, d, zf));
    lemma_frac_eq_trans(interp_tri(d, cL, b, xf0, ozf), lerp(b, d, zf), interp_tri(b, bR, d,
        xf0r, zf));
}

/// Continuity across the horizontal edge between two vertically adjacent
/// grid cells, with the shared corner heights `c` (left) and `d` (right).
pub proof fn lemma_seam_between_cells_z(
    c: Frac,
    d: Frac,
    bT: Frac,
    cB: Frac,
    zf0: Frac,
    zf0r: Frac,
    xf: Frac,
    oxf: Frac,
)
    requires
        frac_wf(c),
        frac_wf(d),
        frac_wf(bT),
        frac_wf(cB),
        frac_wf(zf0),
        frac_wf(zf0r),
        frac_wf(xf),
        frac_wf(oxf),
        zf0.n == 0,
        zf0r.n == 0,
        frac_eq(frac_add(xf, oxf), frac_int(1)),
    ensures
        frac_eq(interp_tri(d, c, bT, oxf, zf0), interp_tri(c, d, cB, xf, zf0r)),
{
    lemma_interp_z_edge(d, c, bT, oxf, zf0);
    lemma_interp_z_edge(c, d, cB, xf, zf0r);
    lemma_lerp_reverse(c, d, xf, oxf);
    lemma_interp_wf(d, c, bT, oxf, zf0);
    lemma_interp_wf(c, d, cB, xf, zf0r);
    lemma_lerp_wf(d, c, oxf);
    lemma_lerp_wf(c, d, xf);
    lemma_frac_eq_trans(interp_tri(d, c, bT, oxf, zf0), lerp(d, c, oxf), lerp(c, d, xf));
    lemma_frac_eq_trans(interp_tri(d, c, bT, oxf, zf0), lerp(c, d, xf), interp_tri(c, d, cB, xf,
        zf0r));
}

/// At a cell corner the barycentric weights degenerate: the interpolated
/// height is exactly the stored corner height. The three corners the
/// first triangle owns are `a` at `(0,0)`, `b` at `(1,0)` and `c` at
/// `(0,1)`.
pub proof fn lemma_interp_at_corner(a: Frac, b: Frac, c: Frac, xf: Frac, zf: Frac)
    requires
        frac_wf(a),
        frac_wf(b),
        frac_wf(c),
        frac_wf(xf),
        frac_wf(zf),
        xf.n == 0 || xf.n == xf.d,
        zf.n == 0 || zf.n == zf.d,
    ensures
        xf.n == 0 && zf.n == 0 ==> frac_eq(interp_tri(a, b, c, xf, zf), a),
        xf.n == xf.d && zf.n == 0 ==> frac_eq(interp_tri(a, b, c, xf, zf), b),
        xf.n == 0 && zf.n == zf.d ==> frac_eq(interp_tri(a, b, c, xf, zf), c),
{
    let one = Frac { n: 1, d: 1 };
    lemma_den_product(b.d, a.d);
    lemma_den_product(c.d, a.d);
    lemma_interp_wf(a, b, c, xf, zf);
    if xf.n == 0 && zf.n == 0 {
        lemma_interp_x_edge(a, b, c, xf, zf);
        lemma_lerp_zero(a, c, zf);
        lemma_lerp_wf(a, c, zf);
        lemma_frac_eq_trans(interp_tri(a, b, c, xf, zf), lerp(a, c, zf), a);
    } else if xf.n == xf.d && zf.n == 0 {
        lemma_interp_z_edge(a, b, c, xf, zf);
        lemma_lerp_one(a, b, xf);
        lemma_lerp_wf(a, b, xf);
        lemma_frac_eq_trans(interp_tri(a, b, c, xf, zf), lerp(a, b, xf), b);
    } else if xf.n == 0 && zf.n == zf.d {
        lemma_interp_x_edge(a, b, c, xf, zf);
        lemma_lerp_one(a, c, zf);
        lemma_lerp_wf(a, c, zf);
        lemma_frac_eq_trans(interp_tri(a, b, c, xf, zf), lerp(a, c, zf), c);
    }
}

/// A lerp by zero stays at its start value.
pub proof fn lemma_lerp_zero(p: Frac, q: Frac, t: Frac)
    requires
        frac_wf(p),
        frac_wf(q),
        frac_wf(t),
        t.n == 0,
    ensures
        frac_eq(lerp(p, q, t), p),
{
    let af = frac_mul(t, frac_sub(q, p));
    let l = lerp(p, q, t);
    lemma_den_product(q.d, p.d);
    lemma_den_product(t.d, q.d * p.d);
    lemma_den_product(p.d, af.d);
    lemma_mul_by_zero_is_zero(q.n * p.d - p.n * q.d);
    assert(af.n == 0);
    lemma_mul_by_zero_is_zero(p.d);
    assert(l.n == p.n * af.d);
    assert(l.n * p.d == p.n * l.d) by {
        lemma_mul_is_associative(p.n, af.d, p.d);
        lemma_mul_is_commutative(af.d, p.d);
    }
}

/// A lerp by one arrives at its end value.
pub proof fn lemma_lerp_one(p: Frac, q: Frac, t: Frac)
    requires
        frac_wf(p),
        frac_wf(q),
        frac_wf(t),
        t.n == t.d,
    ensures
        frac_eq(lerp(p, q, t), q),
{
    let dq = frac_sub(q, p);
    let af = frac_mul(t, dq);
    lemma_den_product(q.d, p.d);
    lemma_den_product(t.d, dq.d);
    lemma_den_product(p.d, af.d);
    lemma_den_product(p.d, dq.d);
    lemma_frac_eq_scaled(af, dq, t.d);
    lemma_frac_add_congr(p, af, dq);
    lemma_add_sub_cancel(p, q);
    lemma_frac_eq_trans(lerp(p, q, t), frac_add(p, dq), q);
}

/// Moving from `p` by the difference toward `q` arrives at `q`.
pub proof fn lemma_add_sub_cancel(p: Frac, q: Frac)
    requires
        frac_wf(p),
        frac_wf(q),
    ensures
        frac_eq(frac_add(p, frac_sub(q, p)), q),
{
    let dq = frac_sub(q, p);
    let l = frac_add(p, dq);
    lemma_den_product(q.d, p.d);
    lemma_den_product(p.d, dq.d);
    assert(l.n == p.d * (q.n * p.d)) by {
        lemma_mul_is_associative(p.n, q.d, p.d);
        lemma_mul_is_commutative(p.n * q.d, p.d);
        lemma_mul_is_commutative(dq.n, p.d);
        lemma_mul_is_distributive_add(p.d, p.n * q.d, dq.n);
    }
    assert(l.n * q.d == q.n * l.d) by {
        lemma_mul_is_associative(p.d, q.n * p.d, q.d);
        lemma_mul_is_associative(q.n, p.d, q.d);
        lemma_mul_is_commutative(q.d, p.d);
        lemma_mul_is_associative(p.d, q.n, p.d * q.d);
        lemma_mul_is_associative(q.n, p.d, p.d * q.d);
        lemma_mul_is_commutative(p.d, q.n);
    }
}

/// On the diagonal of a cell (`xf + zf == 1` as values) the first
/// triangle's interpolation reduces to the straight interpolation of the
/// two diagonal corners, which does not involve the off-diagonal corner:
/// the triangle selector introduces no seam inside a cell.
pub proof fn lemma_interp_diagonal(a: Frac, b: Frac, c: Frac, d: Frac, xf: Frac, zf: Frac)
    requires
        frac_wf(a),
        frac_wf(b),
        frac_wf(c),
        frac_wf(d),
        frac_wf(xf),
        frac_wf(zf),
        frac_eq(frac_add(xf, zf), frac_int(1)),
    ensures
        frac_eq(interp_tri(a, b, c, xf, zf), lerp(c, b, xf)),
        frac_eq(
            interp_tri(d, c, b, frac_sub(frac_int(1), xf), frac_sub(frac_int(1), zf)),
            lerp(c, b, xf),
        ),
{
    lemma_interp_on_diagonal(a, b, c, xf, zf);
    let oxf = frac_sub(frac_int(1), xf);
    let ozf = frac_sub(frac_int(1), zf);
    // The complementary fractions also sum to one as values.
    assert(frac_eq(frac_add(oxf, ozf), frac_int(1))) by {
        lemma_mul_is_distributive_sub_other_way(zf.d, xf.d, xf.n);
        lemma_mul_is_distributive_sub_other_way(xf.d, zf.d, zf.n);
        lemma_mul_is_commutative(zf.d, xf.d);
    }
    lemma_interp_on_diagonal(d, c, b, oxf, ozf);
    // lerp(b, c, oxf) equals lerp(c, b, xf): the directions reverse.
    assert(frac_eq(frac_add(oxf, xf), frac_int(1))) by {
        lemma_mul_is_distributive_sub_other_way(xf.d, xf.d, xf.n);
        lemma_mul_is_commutative(xf.n, xf.d);
    }
    lemma_lerp_reverse(b, c, oxf, xf);
    lemma_interp_wf(d, c, b, oxf, ozf);
    lemma_lerp_wf(b, c, oxf);
    lemma_lerp_wf(c, b, xf);
    lemma_frac_eq_trans(interp_tri(d, c, b, oxf, ozf), lerp(b, c, oxf), lerp(c, b, xf));
}

/// The core of the diagonal law, for one triangle: with `xf + zf == 1` as
/// values, the base corner `a` cancels out of the interpolation.
proof fn lemma_interp_on_diagonal(a: Frac, b: Frac, c: Frac, xf: Frac, zf: Frac)
    requires
        frac_wf(a),
        frac_wf(b),
        frac_wf(c),
        frac_wf(xf),
        frac_wf(zf),
        frac_eq(frac_add(xf, zf), frac_int(1)),
    ensures
        frac_eq(interp_tri(a, b, c, xf, zf), lerp(c, b, xf)),
{
    let z2 = Frac { n: xf.d - xf.n, d: xf.d };
    let dc = frac_sub(c, a);
    lemma_den_product(b.d, a.d);
    lemma_den_product(c.d, a.d);
    assert(frac_eq(zf, z2)) by {
        lemma_mul_is_distributive_sub_other_way(zf.d, xf.d, xf.n);
    }
    lemma_frac_mul_congr(dc, zf, z2);
    lemma_den_product(zf.d, c.d * a.d);
    lemma_den_product(xf.d, c.d * a.d);
    lemma_den_product(xf.d, b.d * a.d);
    lemma_frac_add_congr(frac_mul(xf, frac_sub(b, a)), frac_mul(zf, dc), frac_mul(z2, dc));
    lemma_den_product(xf.d * (b.d * a.d), zf.d * (c.d * a.d));
    lemma_den_product(xf.d * (b.d * a.d), xf.d * (c.d * a.d));
    lemma_frac_add_congr(a, frac_add(frac_mul(xf, frac_sub(b, a)), frac_mul(zf, dc)),
        frac_add(frac_mul(xf, frac_sub(b, a)), frac_mul(z2, dc)));
    lemma_interp_complement(a, b, c, xf);
    lemma_interp_wf(a, b, c, xf, zf);
    lemma_interp_wf(a, b, c, xf, z2);
    lemma_lerp_wf(c, b, xf);
    lemma_frac_eq_trans(interp_tri(a, b, c, xf, zf), interp_tri(a, b, c, xf, z2), lerp(c, b, xf));
}

/// The complement identity: with the second fraction exactly `1 - xf`
/// over `xf`'s own denominator, the base corner drops out and the
/// interpolation is the mix of the two diagonal corners.
proof fn lemma_interp_complement(a: Frac, b: Frac, c: Frac, xf: Frac)
    requires
        frac_wf(a),
        frac_wf(b),
        frac_wf(c),
        frac_wf(xf),
    ensures
        frac_eq(interp_tri(a, b, c, xf, Frac { n: xf.d - xf.n, d: xf.d }), lerp(c, b, xf)),
{
    let z2 = Frac { n: xf.d - xf.n, d: xf.d };
    let db = frac_sub(b, a);
    let dc = frac_sub(c, a);
    let u = frac_mul(xf, db);
    let v = frac_mul(z2, dc);
    let w = frac_add(u, v);
    let r = interp_tri(a, b, c, xf, z2);
    let m = lerp_mixed(c, b, xf);
    let k = ((a.d * a.d) * a.d) * xf.d;
    lemma_den_product(b.d, a.d);
    lemma_den_product(c.d, a.d);
    lemma_den_product(c.d, b.d);
    lemma_den_product(xf.d, b.d * a.d);
    lemma_den_product(xf.d, c.d * a.d);
    lemma_den_product(xf.d, c.d * b.d);
    lemma_den_product(a.d, a.d);
    lemma_den_product(a.d * a.d, a.d);
    lemma_den_product((a.d * a.d) * a.d, xf.d);
    // The inner sum of the two weighted differences: the `a` terms cancel
    // and what remains is `a.d` times the mixed form's numerator, minus
    // the correction the outer `a` contributes.
    let inner = xf.n * (db.n * c.d) + z2.n * (dc.n * b.d);
    assert(inner == a.d * m.n - a.n * ((b.d * c.d) * xf.d)) by {
        lemma_diagonal_inner(a, b, c, xf);
    }
    // Factor `xf.d * a.d` out of `w.n`.
    assert(w.n == (xf.d * a.d) * inner) by {
        lemma_diagonal_factor_w(a, b, c, xf);
    }
    // Assemble `r.n == k * m.n` and `r.d == k * m.d`.
    assert(r.n == k * m.n && r.d == k * m.d) by {
        lemma_diagonal_assemble(a, b, c, xf, inner, m.n, m.d);
    }
    lemma_interp_wf(a, b, c, xf, z2);
    lemma_frac_eq_scaled(r, m, k);
    lemma_lerp_mixed(c, b, xf);
    lemma_lerp_wf(c, b, xf);
    lemma_frac_eq_trans(r, m, lerp(c, b, xf));
}

/// Expanding the weighted height differences along the diagonal: the
/// contributions of the base corner cancel against each other.
proof fn lemma_diagonal_inner(a: Frac, b: Frac, c: Frac, xf: Frac)
    ensures
        xf.n * ((b.n * a.d - a.n * b.d) * c.d) + (xf.d - xf.n) * ((c.n * a.d - a.n * c.d) * b.d)
            == a.d * ((xf.d - xf.n) * (c.n * b.d) + xf.n * (b.n * c.d)) - a.n * ((b.d * c.d)
            * xf.d),
{
    lemma_mul_is_distributive_sub_other_way(c.d, b.n * a.d, a.n * b.d);
    lemma_mul_is_distributive_sub(xf.n, (b.n * a.d) * c.d, (a.n * b.d) * c.d);
    lemma_mul_is_distributive_sub_other_way(b.d, c.n * a.d, a.n * c.d);
    lemma_mul_is_distributive_sub(xf.d - xf.n, (c.n * a.d) * b.d, (a.n * c.d) * b.d);
    lemma_mul_is_distributive_sub_other_way((c.n * a.d) * b.d, xf.d, xf.n);
    lemma_mul_is_distributive_sub_other_way((a.n * c.d) * b.d, xf.d, xf.n);
    lemma_mul_is_distributive_add(a.d, (xf.d - xf.n) * (c.n * b.d), xf.n * (b.n * c.d));
    lemma_mul_is_distributive_sub_other_way(c.n * b.d, xf.d, xf.n);
    lemma_mul_is_distributive_sub(a.d, xf.d * (c.n * b.d), xf.n * (c.n * b.d));
    // Monomial correspondences.
    assert(xf.n * ((b.n * a.d) * c.d) == a.d * (xf.n * (b.n * c.d))) by {
        lemma_four_shuffle(b.n, a.d, c.d, 1);
        lemma_mul_is_associative(b.n, a.d, c.d);
        lemma_mul_is_commutative(b.n, a.d);
        lemma_mul_is_associative(a.d, b.n, c.d);
        lemma_mul_is_associative(xf.n, a.d, b.n * c.d);
        lemma_mul_is_commutative(xf.n, a.d);
        lemma_mul_is_associative(a.d, xf.n, b.n * c.d);
    }
    assert(xf.n * ((a.n * b.d) * c.d) == xf.n * ((a.n * c.d) * b.d)) by {
        lemma_mul_is_associative(a.n, b.d, c.d);
        lemma_mul_is_commutative(b.d, c.d);
        lemma_mul_is_associative(a.n, c.d, b.d);
    }
    assert(xf.d * ((c.n * a.d) * b.d) == a.d * (xf.d * (c.n * b.d))) by {
        lemma_mul_is_associative(c.n, a.d, b.d);
        lemma_mul_is_commutative(c.n, a.d);
        lemma_mul_is_associative(a.d, c.n, b.d);
        lemma_mul_is_associative(xf.d, a.d, c.n * b.d);
        lemma_mul_is_commutative(xf.d, a.d);
        lemma_mul_is_associative(a.d, xf.d, c.n * b.d);
    }
    assert(xf.n * ((c.n * a.d) * b.d) == a.d * (xf.n * (c.n * b.d))) by {
        lemma_mul_is_associative(c.n, a.d, b.d);
        lemma_mul_is_commutative(c.n, a.d);
        lemma_mul_is_associative(a.d, c.n, b.d);
        lemma_mul_is_associative(xf.n, a.d, c.n * b.d);
        lemma_mul_is_commutative(xf.n, a.d);
        lemma_mul_is_associative(a.d, xf.n, c.n * b.d);
    }
    assert(xf.d * ((a.n * c.d) * b.d) == a.n * ((b.d * c.d) * xf.d)) by {
        lemma_mul_is_associative(a.n, c.d, b.d);
        lemma_mul_is_commutative(c.d, b.d);
        lemma_mul_is_associative(a.n, b.d, c.d);
        lemma_mul_is_associative(xf.d, a.n, b.d * c.d);
        lemma_mul_is_commutative(xf.d, a.n);
        lemma_mul_is_associative(a.n, b.d * c.d, xf.d);
        lemma_mul_is_commutative(xf.d, b.d * c.d);
        lemma_mul_is_associative(a.n, xf.d, b.d * c.d);
    }
}

/// Factoring `xf.d * a.d` out of the combined numerator of the two
/// weighted differences.
proof fn lemma_diagonal_factor_w(a: Frac, b: Frac, c: Frac, xf: Frac)
    ensures
        (xf.n * (b.n * a.d - a.n * b.d)) * (xf.d * (c.d * a.d)) + ((xf.d - xf.n) * (c.n * a.d
            - a.n * c.d)) * (xf.d * (b.d * a.d)) == (xf.d * a.d) * (xf.n * ((b.n * a.d - a.n
            * b.d) * c.d) + (xf.d - xf.n) * ((c.n * a.d - a.n * c.d) * b.d)),
{
    let dbn = b.n * a.d - a.n * b.d;
    let dcn = c.n * a.d - a.n * c.d;
    assert((xf.n * dbn) * (xf.d * (c.d * a.d)) == (xf.d * a.d) * (xf.n * (dbn * c.d))) by {
        lemma_four_shuffle(xf.n, dbn, xf.d, c.d * a.d);
        lemma_mul_is_commutative(xf.n, xf.d);
        lemma_mul_is_associative(dbn, c.d, a.d);
        lemma_mul_is_commutative(dbn * c.d, a.d);
        lemma_four_shuffle(xf.d, xf.n, a.d, dbn * c.d);
        lemma_mul_is_commutative(xf.d, xf.n);
        lemma_mul_is_associative(xf.d, xf.n, a.d * (dbn * c.d));
        lemma_mul_is_commutative(xf.n, a.d * (dbn * c.d));
        lemma_mul_is_associative(xf.d, a.d * (dbn * c.d), xf.n);
        lemma_mul_is_associative(xf.d, a.d, dbn * c.d);
        lemma_mul_is_associative(xf.d * a.d, dbn * c.d, xf.n);
        lemma_mul_is_commutative(dbn * c.d, xf.n);
        lemma_mul_is_associative(xf.d * a.d, xf.n, dbn * c.d);
    }
    assert(((xf.d - xf.n) * dcn) * (xf.d * (b.d * a.d)) == (xf.d * a.d) * ((xf.d - xf.n) * (dcn
        * b.d))) by {
        let z = xf.d - xf.n;
        lemma_four_shuffle(z, dcn, xf.d, b.d * a.d);
        lemma_mul_is_commutative(z, xf.d);
        lemma_mul_is_associative(dcn, b.d, a.d);
        lemma_mul_is_commutative(dcn * b.d, a.d);
        lemma_four_shuffle(xf.d, z, a.d, dcn * b.d);
        lemma_mul_is_commutative(xf.d, z);
        lemma_mul_is_associative(xf.d, z, a.d * (dcn * b.d));
        lemma_mul_is_commutative(z, a.d * (dcn * b.d));
        lemma_mul_is_associative(xf.d, a.d * (dcn * b.d), z);
        lemma_mul_is_associative(xf.d, a.d, dcn * b.d);
        lemma_mul_is_associative(xf.d * a.d, dcn * b.d, z);
        lemma_mul_is_commutative(dcn * b.d, z);
        lemma_mul_is_associative(xf.d * a.d, z, dcn * b.d);
    }
    lemma_mul_is_distributive_add(xf.d * a.d, xf.n * ((b.n * a.d - a.n * b.d) * c.d), (xf.d
        - xf.n) * ((c.n * a.d - a.n * c.d) * b.d));
}

/// Assembling the scaled equality between the interpolation and the mixed
/// form, given the factored inner numerator.
proof fn lemma_diagonal_assemble(a: Frac, b: Frac, c: Frac, xf: Frac, inner: int, mn: int, md: int)
    requires
        inner == a.d * mn - a.n * ((b.d * c.d) * xf.d),
        md == xf.d * (c.d * b.d),
        ({
            let z2 = Frac { n: xf.d - xf.n, d: xf.d };
            let u = frac_mul(xf, frac_sub(b, a));
            let v = frac_mul(z2, frac_sub(c, a));
            frac_add(u, v).n == (xf.d * a.d) * inner
        }),
    ensures
        ({
            let z2 = Frac { n: xf.d - xf.n, d: xf.d };
            let r = interp_tri(a, b, c, xf, z2);
            let k = ((a.d * a.d) * a.d) * xf.d;
            r.n == k * mn && r.d == k * md
        }),
{
    let z2 = Frac { n: xf.d - xf.n, d: xf.d };
    let u = frac_mul(xf, frac_sub(b, a));
    let v = frac_mul(z2, frac_sub(c, a));
    let w = frac_add(u, v);
    let r = interp_tri(a, b, c, xf, z2);
    let k = ((a.d * a.d) * a.d) * xf.d;
    assert(w.d == (xf.d * (b.d * a.d)) * (xf.d * (c.d * a.d)));
    // Canonical form of the product of the two denominators.
    assert(w.d == (xf.d * xf.d) * ((b.d * c.d) * (a.d * a.d))) by {
        lemma_four_shuffle(xf.d, b.d * a.d, xf.d, c.d * a.d);
        lemma_four_shuffle(b.d, a.d, c.d, a.d);
    }
    // r.n = a.n * w.d + w.n * a.d; the a.n parts cancel.
    assert(a.n * w.d == ((xf.d * a.d) * a.d) * (a.n * ((b.d * c.d) * xf.d))) by {
        lemma_mul_is_associative(xf.d, a.d, a.d);
        lemma_mul_is_commutative(a.n, (b.d * c.d) * xf.d);
        lemma_four_shuffle(xf.d, a.d * a.d, (b.d * c.d) * xf.d, a.n);
        lemma_mul_is_commutative(b.d * c.d, xf.d);
        lemma_mul_is_associative(xf.d, xf.d, b.d * c.d);
        lemma_mul_is_commutative(a.d * a.d, a.n);
        lemma_four_shuffle(xf.d * xf.d, b.d * c.d, a.n, a.d * a.d);
        lemma_mul_is_associative(a.n, xf.d * xf.d, (b.d * c.d) * (a.d * a.d));
        lemma_mul_is_commutative(a.n, xf.d * xf.d);
        lemma_mul_is_commutative((xf.d * xf.d) * a.n, (b.d * c.d) * (a.d * a.d));
        lemma_mul_is_commutative((b.d * c.d) * (a.d * a.d), (xf.d * xf.d) * a.n);
    }
    assert(w.n * a.d == ((xf.d * a.d) * a.d) * (a.d * mn) - ((xf.d * a.d) * a.d) * (a.n * ((b.d
        * c.d) * xf.d))) by {
        lemma_mul_is_distributive_sub(xf.d * a.d, a.d * mn, a.n * ((b.d * c.d) * xf.d));
        lemma_mul_is_distributive_sub_other_way(a.d, (xf.d * a.d) * (a.d * mn), (xf.d * a.d)
            * (a.n * ((b.d * c.d) * xf.d)));
        lemma_four_shuffle(xf.d, a.d, a.d, mn);
        lemma_mul_is_associative(xf.d * a.d, a.d, mn);
        lemma_mul_is_associative((xf.d * a.d) * a.d, mn, a.d);
        lemma_mul_is_commutative(mn, a.d);
        lemma_mul_is_associative((xf.d * a.d) * a.d, a.d, mn);
        lemma_mul_is_associative((xf.d * a.d) * (a.d * mn), a.d, 1);
        lemma_mul_is_associative(xf.d * a.d, a.d * mn, a.d);
        lemma_mul_is_associative(a.d, mn, a.d);
        lemma_mul_is_associative((xf.d * a.d) * (a.n * ((b.d * c.d) * xf.d)), a.d, 1);
        lemma_mul_is_associative(xf.d * a.d, a.n * ((b.d * c.d) * xf.d), a.d);
        lemma_mul_is_commutative(a.n * ((b.d * c.d) * xf.d), a.d);
        lemma_mul_is_associative(xf.d * a.d, a.d, a.n * ((b.d * c.d) * xf.d));
    }
    assert(r.n == ((xf.d * a.d) * a.d) * (a.d * mn));
    assert(((xf.d * a.d) * a.d) * (a.d * mn) == k * mn) by (nonlinear_arith)
        requires
            k == ((a.d * a.d) * a.d) * xf.d,
    {
    }
    assert(r.d == a.d * ((xf.d * xf.d) * ((b.d * c.d) * (a.d * a.d))));
    assert(a.d * ((xf.d * xf.d) * ((b.d * c.d) * (a.d * a.d))) == k * md) by (nonlinear_arith)
        requires
            k == ((a.d * a.d) * a.d) * xf.d,
            md == xf.d * (c.d * b.d),
    {
    }
}

/// Locating a query whose local coordinate falls exactly on grid line
/// `g`: interior lines resolve to cell `g` with fraction zero; the far
/// edge line resolves to the clamped last cell with fraction one.
proof fn lemma_locate_at_grid_line(t: Terrain, l: Frac, g: int)
    requires
        t.wf(),
        frac_wf(l),
        0 <= g <= t.count as int - 1,
        frac_eq(l, grid_coord(g, t.count as int)),
    ensures
        frac_le(frac_int(0), l),
        frac_le(l, frac_int(SIZE as int)),
        g <= t.count as int - 2 ==> t.cell_of(l) == g && t.frac_in_cell(l).n == 0,
        g == t.count as int - 1 ==> t.cell_of(l) == g - 1 && t.frac_in_cell(l).n == t.frac_in_cell(
            l,
        ).d,
        frac_wf(t.frac_in_cell(l)),
{
    let n = t.count as int;
    let tv = frac_div(l, t.square_size());
    assert(tv.n == l.n * (n - 1) && tv.d == l.d * (SIZE as int));
    lemma_den_product(l.d, SIZE as int);
    assert(l.n >= 0 && l.n <= (SIZE as int) * l.d) by (nonlinear_arith)
        requires
            l.n * (n - 1) == (SIZE as int) * g * l.d,
            0 <= g <= n - 1,
            l.d >= 1,
            n - 1 >= 1,
            SIZE == 800,
    {
    }
    assert(tv.n == g * tv.d) by (nonlinear_arith)
        requires
            tv.n == l.n * (n - 1),
            tv.d == l.d * (SIZE as int),
            l.n * (n - 1) == (SIZE as int) * g * l.d,
    {
    }
    assert(frac_floor(tv) == g) by {
        lemma_div_multiples_vanish(g, tv.d);
        lemma_mul_is_commutative(tv.d, g);
    }
    if g <= n - 2 {
        assert(t.cell_of(l) == g);
        assert(t.frac_in_cell(l).n == tv.n * 1 - g * tv.d);
    } else {
        assert(t.cell_of(l) == g - 1);
        assert(t.frac_in_cell(l).n == tv.n * 1 - (g - 1) * tv.d);
        lemma_mul_is_distributive_sub_other_way(tv.d, g, 1);
    }
}

/// Sampling at the exact world-space position of grid point `(gx, gz)`
/// reproduces the stored height there: the barycentric weights
/// degenerate to one at the corner.
pub proof fn lemma_sample_at_grid_point(t: Terrain, qx: Frac, qz: Frac, gx: int, gz: int)
    requires
        t.wf(),
        frac_wf(qx),
        frac_wf(qz),
        0 <= gx <= t.count as int - 1,
        0 <= gz <= t.count as int - 1,
        frac_eq(frac_sub(qx, t.entity.worldPos@.x), grid_coord(gx, t.count as int)),
        frac_eq(frac_sub(qz, t.entity.worldPos@.z), grid_coord(gz, t.count as int)),
    ensures
        frac_eq(t.sample_spec(qx, qz), t.height_at(gx, gz)),
{
    let n = t.count as int;
    let lx = frac_sub(qx, t.entity.worldPos@.x);
    let lz = frac_sub(qz, t.entity.worldPos@.z);
    lemma_den_product(qx.d, t.entity.worldPos@.x.d);
    lemma_den_product(qz.d, t.entity.worldPos@.z.d);
    lemma_locate_at_grid_line(t, lx, gx);
    lemma_locate_at_grid_line(t, lz, gz);
    assert(t.in_domain(qx, qz));
    let cx = t.cell_of(lx);
    let cz = t.cell_of(lz);
    let xf = t.frac_in_cell(lx);
    let zf = t.frac_in_cell(lz);
    let sel = frac_sub(frac_int(1), zf);
    assert(sel.n == zf.d - zf.n && sel.d == zf.d);
    let a = t.height_at(cx, cz);
    let b = t.height_at(cx + 1, cz);
    let c = t.height_at(cx, cz + 1);
    let d = t.height_at(cx + 1, cz + 1);
    assert(n * n <= 66049) by (nonlinear_arith)
        requires
            2 <= n <= 257,
    {
    }
    assert(0 <= cz * n + cx < n * n && 0 <= cz * n + cx + 1 < n * n && 0 <= (cz + 1) * n + cx < n
        * n && 0 <= (cz + 1) * n + cx + 1 < n * n) by (nonlinear_arith)
        requires
            0 <= cx <= n - 2,
            0 <= cz <= n - 2,
            n >= 2,
    {
    }
    lemma_den_product(zf.d, xf.d);
    lemma_mul_by_zero_is_zero(sel.d);
    lemma_mul_by_zero_is_zero(xf.d);
    if gx <= n - 2 && gz <= n - 2 {
        assert(frac_le(xf, sel));
        lemma_interp_at_corner(a, b, c, xf, zf);
        assert(t.height_at(gx, gz) == a);
    } else if gx == n - 1 && gz <= n - 2 {
        assert(frac_le(xf, sel)) by {
            lemma_mul_is_commutative(xf.d, zf.d);
        }
        lemma_interp_at_corner(a, b, c, xf, zf);
        assert(t.height_at(gx, gz) == b);
    } else if gx <= n - 2 && gz == n - 1 {
        assert(frac_le(xf, sel));
        lemma_interp_at_corner(a, b, c, xf, zf);
        assert(t.height_at(gx, gz) == c);
    } else {
        assert(!frac_le(xf, sel)) by {
            lemma_den_product(xf.d, zf.d);
        }
        let oxf = frac_sub(frac_int(1), xf);
        let ozf = frac_sub(frac_int(1), zf);
        assert(oxf.n == 0 && ozf.n == 0);
        lemma_interp_at_corner(d, c, b, oxf, ozf);
        assert(t.height_at(gx, gz) == d);
    }
}

/// With barycentric weights in `[0, 1]` and heights bounded by
/// `HEIGHT_VAL` in value, the interpolated value is bounded by
/// `SAMPLE_VAL = 5 * HEIGHT_VAL`.
proof fn lemma_interp_value(a: Frac, b: Frac, c: Frac, xf: Frac, zf: Frac)
    requires
        height_wf(a),
        height_wf(b),
        height_wf(c),
        frac_wf(xf),
        frac_wf(zf),
        frac_le(frac_int(0), xf),
        frac_le(xf, frac_int(1)),
        frac_le(frac_int(0), zf),
        frac_le(zf, frac_int(1)),
    ensures
        ({
            let r = interp_tri(a, b, c, xf, zf);
            -(SAMPLE_VAL as int) * r.d <= r.n <= SAMPLE_VAL as int * r.d
        }),
{
    let db = frac_sub(b, a);
    let dc = frac_sub(c, a);
    let u = frac_mul(xf, db);
    let v = frac_mul(zf, dc);
    let w = frac_add(u, v);
    let r = interp_tri(a, b, c, xf, zf);
    crate::rat::lemma_den_product(b.d, a.d);
    crate::rat::lemma_den_product(c.d, a.d);
    crate::rat::lemma_den_product(xf.d, db.d);
    crate::rat::lemma_den_product(zf.d, dc.d);
    crate::rat::lemma_den_product(u.d, v.d);
    crate::rat::lemma_den_product(a.d, w.d);
    assert(-0x200 * db.d <= db.n <= 0x200 * db.d) by (nonlinear_arith)
        requires
            db.n == b.n * a.d - a.n * b.d,
            db.d == b.d * a.d,
            -0x100 * a.d <= a.n <= 0x100 * a.d,
            -0x100 * b.d <= b.n <= 0x100 * b.d,
            a.d >= 1,
            b.d >= 1,
    {
    }
    assert(-0x200 * dc.d <= dc.n <= 0x200 * dc.d) by (nonlinear_arith)
        requires
            dc.n == c.n * a.d - a.n * c.d,
            dc.d == c.d * a.d,
            -0x100 * a.d <= a.n <= 0x100 * a.d,
            -0x100 * c.d <= c.n <= 0x100 * c.d,
            a.d >= 1,
            c.d >= 1,
    {
    }
    assert(-0x200 * u.d <= u.n <= 0x200 * u.d) by (nonlinear_arith)
        requires
            u.n == xf.n * db.n,
            u.d == xf.d * db.d,
            0 <= xf.n <= xf.d,
            -0x200 * db.d <= db.n <= 0x200 * db.d,
            xf.d >= 1,
            db.d >= 1,
    {
    }
    assert(-0x200 * v.d <= v.n <= 0x200 * v.d) by (nonlinear_arith)
        requires
            v.n == zf.n * dc.n,
            v.d == zf.d * dc.d,
            0 <= zf.n <= zf.d,
            -0x200 * dc.d <= dc.n <= 0x200 * dc.d,
            zf.d >= 1,
            dc.d >= 1,
    {
    }
    assert(-0x400 * w.d <= w.n <= 0x400 * w.d) by (nonlinear_arith)
        requires
            w.n == u.n * v.d + v.n * u.d,
            w.d == u.d * v.d,
            -0x200 * u.d <= u.n <= 0x200 * u.d,
            -0x200 * v.d <= v.n <= 0x200 * v.d,
            u.d >= 1,
            v.d >= 1,
    {
    }
    assert(-0x500 * r.d <= r.n <= 0x500 * r.d) by (nonlinear_arith)
        requires
            r.n == a.n * w.d + w.n * a.d,
            r.d == a.d * w.d,
            -0x100 * a.d <= a.n <= 0x100 * a.d,
            -0x400 * w.d <= w.n <= 0x400 * w.d,
            a.d >= 1,
            w.d >= 1,
    {
    }
}

} // verus!
