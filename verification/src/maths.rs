//! Bounding-box construction and the box-to-world transform.
//!
//! A mesh's axis-aligned bounding box is the componentwise min/max fold of
//! its vertex positions. The box-to-world transform re-uses a canonical
//! unit cube (side 1, centered at the origin): translating it to the box
//! center and scaling it by the box size maps its corners onto the box.

use vstd::prelude::*;

use crate::rat::{
    Frac, Rat, frac_add, frac_sub, frac_mul, frac_div, frac_le, frac_eq, frac_wf,
    frac_bounded, frac_int, lemma_cmp_bounds, lemma_add_bounds, lemma_mul_bounds,
    lemma_div_bounds, lemma_frac_le_trans,
};
use crate::types::{Vector2, Vector3, GeomError};
use crate::mesh::{Vertex, COORD_NUM, COORD_DEN};

verus! {

/// Largest numerator magnitude of a box-center or box-size component.
pub const BOX_NUM: i128 = 0x8000000;

/// Largest denominator of a box-center component.
pub const CENTER_DEN: i128 = 0x20000;

/// Largest denominator of a box-size component.
pub const SIZE_DEN: i128 = 0x10000;

/// Center of the box `[mn, mx]` along one axis: `(mn + mx) / 2`.
pub open spec fn box_center(mn: Frac, mx: Frac) -> Frac {
    frac_mul(frac_add(mn, mx), Frac { n: 1, d: 2 })
}

/// Extent of the box `[mn, mx]` along one axis: `mx - mn`.
pub open spec fn box_size(mn: Frac, mx: Frac) -> Frac {
    frac_sub(mx, mn)
}

/// One coordinate of the box-to-world transform applied to a point of the
/// canonical unit cube: `center + size * p`.
pub open spec fn transform_point(c: Frac, s: Frac, p: Frac) -> Frac {
    frac_add(c, frac_mul(s, p))
}

/// One coordinate of a canonical unit-cube corner: `+1/2` or `-1/2`.
pub open spec fn cube_corner_coord(high: bool) -> Frac {
    if high {
        Frac { n: 1, d: 2 }
    } else {
        Frac { n: -1, d: 2 }
    }
}

/// The box-to-world adjustment: translation to the box center composed
/// with a non-uniform scale by the box size. Combined with an entity's
/// model transform it maps the canonical unit cube onto the mesh's box.
pub struct BoxTransform {
    pub center: Vector3,
    pub size: Vector3,
}

impl BoxTransform {
    pub open spec fn wf(self) -> bool {
        &&& self.center.bounded(BOX_NUM as int, CENTER_DEN as int)
        &&& self.size.bounded(BOX_NUM as int, SIZE_DEN as int)
    }

    /// Applies the transform to a point of the canonical unit cube.
    pub fn apply(&self, p: &Vector3) -> (r: Vector3)
        requires
            self.wf(),
            p.bounded(COORD_NUM as int, COORD_DEN as int),
        ensures
            r.wf(),
            r@.x == transform_point(self.center@.x, self.size@.x, p@.x),
            r@.y == transform_point(self.center@.y, self.size@.y, p@.y),
            r@.z == transform_point(self.center@.z, self.size@.z, p@.z),
    {
        let x = self.apply_coord(&self.center.x, &self.size.x, &p.x);
        let y = self.apply_coord(&self.center.y, &self.size.y, &p.y);
        let z = self.apply_coord(&self.center.z, &self.size.z, &p.z);
        Vector3::new(x, y, z)
    }

    fn apply_coord(&self, c: &Rat, s: &Rat, p: &Rat) -> (r: Rat)
        requires
            frac_bounded(c@, BOX_NUM as int, CENTER_DEN as int),
            frac_bounded(s@, BOX_NUM as int, SIZE_DEN as int),
            frac_bounded(p@, COORD_NUM as int, COORD_DEN as int),
        ensures
            r.wf(),
            r@ == transform_point(c@, s@, p@),
    {
        proof {
            lemma_mul_bounds(s@, p@, BOX_NUM as int, SIZE_DEN as int, COORD_NUM as int,
                COORD_DEN as int);
            lemma_add_bounds(c@, frac_mul(s@, p@), BOX_NUM as int, CENTER_DEN as int,
                BOX_NUM as int * COORD_NUM as int, SIZE_DEN as int * COORD_DEN as int);
        }
        c.add(&s.mul(p))
    }
}

/// Componentwise min/max fold over every vertex position of a mesh.
///
/// On a non-empty vertex list it returns the two box corners; each corner
/// coordinate is attained by some vertex, every vertex lies inside the box
/// on every axis, and `min <= max` on every axis. The empty list is
/// rejected as degenerate input.
pub fn computeBoundingBox(vertices: &Vec<Vertex>) -> (r: Result<(Vector3, Vector3), GeomError>)
    requires
        forall|i: int| 0 <= i < vertices@.len() ==> (#[trigger] vertices@[i]).wf(),
    ensures
        r is Err <==> vertices@.len() == 0,
        r is Err ==> r == Err::<(Vector3, Vector3), GeomError>(GeomError::InvalidInput),
        r matches Ok(b) ==> {
            &&& b.0.bounded(COORD_NUM as int, COORD_DEN as int)
            &&& b.1.bounded(COORD_NUM as int, COORD_DEN as int)
            &&& forall|i: int|
                0 <= i < vertices@.len() ==> {
                    let p = (#[trigger] vertices@[i]).Position@;
                    &&& frac_le(b.0@.x, p.x) && frac_le(p.x, b.1@.x)
                    &&& frac_le(b.0@.y, p.y) && frac_le(p.y, b.1@.y)
                    &&& frac_le(b.0@.z, p.z) && frac_le(p.z, b.1@.z)
                }
            &&& frac_le(b.0@.x, b.1@.x)
            &&& frac_le(b.0@.y, b.1@.y)
            &&& frac_le(b.0@.z, b.1@.z)
            &&& exists|i: int| 0 <= i < vertices@.len() && b.0@.x == (#[trigger] vertices@[i]).Position@.x
            &&& exists|i: int| 0 <= i < vertices@.len() && b.0@.y == (#[trigger] vertices@[i]).Position@.y
            &&& exists|i: int| 0 <= i < vertices@.len() && b.0@.z == (#[trigger] vertices@[i]).Position@.z
            &&& exists|i: int| 0 <= i < vertices@.len() && b.1@.x == (#[trigger] vertices@[i]).Position@.x
            &&& exists|i: int| 0 <= i < vertices@.len() && b.1@.y == (#[trigger] vertices@[i]).Position@.y
            &&& exists|i: int| 0 <= i < vertices@.len() && b.1@.z == (#[trigger] vertices@[i]).Position@.z
        },
{
    if vertices.len() == 0 {
        return Err(GeomError::InvalidInput);
    }
    let mut mn = vertices[0].Position;
    let mut mx = vertices[0].Position;
    let mut i: usize = 1;
    while i < vertices.len()
        invariant
            1 <= i <= vertices@.len(),
            forall|j: int| 0 <= j < vertices@.len() ==> (#[trigger] vertices@[j]).wf(),
            mn.bounded(COORD_NUM as int, COORD_DEN as int),
            mx.bounded(COORD_NUM as int, COORD_DEN as int),
            forall|j: int|
                0 <= j < i ==> {
                    let p = (#[trigger] vertices@[j]).Position@;
                    &&& frac_le(mn@.x, p.x) && frac_le(p.x, mx@.x)
                    &&& frac_le(mn@.y, p.y) && frac_le(p.y, mx@.y)
                    &&& frac_le(mn@.z, p.z) && frac_le(p.z, mx@.z)
                },
            exists|j: int| 0 <= j < i && mn@.x == (#[trigger] vertices@[j]).Position@.x,
            exists|j: int| 0 <= j < i && mn@.y == (#[trigger] vertices@[j]).Position@.y,
            exists|j: int| 0 <= j < i && mn@.z == (#[trigger] vertices@[j]).Position@.z,
            exists|j: int| 0 <= j < i && mx@.x == (#[trigger] vertices@[j]).Position@.x,
            exists|j: int| 0 <= j < i && mx@.y == (#[trigger] vertices@[j]).Position@.y,
            exists|j: int| 0 <= j < i && mx@.z == (#[trigger] vertices@[j]).Position@.z,
        decreases vertices@.len() - i,
    {
        let ghost mn0 = mn;
        let ghost mx0 = mx;
        let p = vertices[i].Position;
        proof {
            lemma_cmp_bounds(mn@.x, p@.x, COORD_NUM as int, COORD_DEN as int, COORD_NUM as int,
                COORD_DEN as int);
            lemma_cmp_bounds(mn@.y, p@.y, COORD_NUM as int, COORD_DEN as int, COORD_NUM as int,
                COORD_DEN as int);
            lemma_cmp_bounds(mn@.z, p@.z, COORD_NUM as int, COORD_DEN as int, COORD_NUM as int,
                COORD_DEN as int);
            lemma_cmp_bounds(mx@.x, p@.x, COORD_NUM as int, COORD_DEN as int, COORD_NUM as int,
                COORD_DEN as int);
            lemma_cmp_bounds(mx@.y, p@.y, COORD_NUM as int, COORD_DEN as int, COORD_NUM as int,
                COORD_DEN as int);
            lemma_cmp_bounds(mx@.z, p@.z, COORD_NUM as int, COORD_DEN as int, COORD_NUM as int,
                COORD_DEN as int);
        }
        mn = Vector3::new(mn.x.min(&p.x), mn.y.min(&p.y), mn.z.min(&p.z));
        mx = Vector3::new(mx.x.max(&p.x), mx.y.max(&p.y), mx.z.max(&p.z));
        proof {
            let pv = vertices@[i as int].Position@;
            assert forall|j: int| 0 <= j < i + 1 implies {
                let q = (#[trigger] vertices@[j]).Position@;
                &&& frac_le(mn@.x, q.x) && frac_le(q.x, mx@.x)
                &&& frac_le(mn@.y, q.y) && frac_le(q.y, mx@.y)
                &&& frac_le(mn@.z, q.z) && frac_le(q.z, mx@.z)
            } by {
                let q = vertices@[j].Position@;
                if j < i {
                    if !frac_le(mn0@.x, pv.x) {
                        lemma_frac_le_trans(pv.x, mn0@.x, q.x);
                    }
                    if !frac_le(mn0@.y, pv.y) {
                        lemma_frac_le_trans(pv.y, mn0@.y, q.y);
                    }
                    if !frac_le(mn0@.z, pv.z) {
                        lemma_frac_le_trans(pv.z, mn0@.z, q.z);
                    }
                    if frac_le(mx0@.x, pv.x) {
                        lemma_frac_le_trans(q.x, mx0@.x, pv.x);
                    }
                    if frac_le(mx0@.y, pv.y) {
                        lemma_frac_le_trans(q.y, mx0@.y, pv.y);
                    }
                    if frac_le(mx0@.z, pv.z) {
                        lemma_frac_le_trans(q.z, mx0@.z, pv.z);
                    }
                }
            }
        }
        i += 1;
    }
    proof {
        lemma_frac_le_trans(mn@.x, vertices@[0].Position@.x, mx@.x);
        lemma_frac_le_trans(mn@.y, vertices@[0].Position@.y, mx@.y);
        lemma_frac_le_trans(mn@.z, vertices@[0].Position@.z, mx@.z);
    }
    Ok((mn, mx))
}

/// Builds the box-to-world adjustment transform from the box corners:
/// translate to the box center, scale by the box size per axis.
pub fn computeBoundingBoxTransform(min: &Vector3, max: &Vector3) -> (r: BoxTransform)
    requires
        min.bounded(COORD_NUM as int, COORD_DEN as int),
        max.bounded(COORD_NUM as int, COORD_DEN as int),
    ensures
        r.wf(),
        r.center@.x == box_center(min@.x, max@.x),
        r.center@.y == box_center(min@.y, max@.y),
        r.center@.z == box_center(min@.z, max@.z),
        r.size@.x == box_size(min@.x, max@.x),
        r.size@.y == box_size(min@.y, max@.y),
        r.size@.z == box_size(min@.z, max@.z),
{
    let cx = center_coord(&min.x, &max.x);
    let cy = center_coord(&min.y, &max.y);
    let cz = center_coord(&min.z, &max.z);
    let sx = size_coord(&min.x, &max.x);
    let sy = size_coord(&min.y, &max.y);
    let sz = size_coord(&min.z, &max.z);
    BoxTransform { center: Vector3::new(cx, cy, cz), size: Vector3::new(sx, sy, sz) }
}

fn center_coord(mn: &Rat, mx: &Rat) -> (r: Rat)
    requires
        frac_bounded(mn@, COORD_NUM as int, COORD_DEN as int),
        frac_bounded(mx@, COORD_NUM as int, COORD_DEN as int),
    ensures
        r@ == box_center(mn@, mx@),
        frac_bounded(r@, BOX_NUM as int, CENTER_DEN as int),
{
    proof {
        lemma_add_bounds(mn@, mx@, COORD_NUM as int, COORD_DEN as int, COORD_NUM as int,
            COORD_DEN as int);
        lemma_mul_bounds(frac_add(mn@, mx@), Frac { n: 1, d: 2 },
            2 * COORD_NUM as int * COORD_DEN as int, COORD_DEN as int * COORD_DEN as int, 1, 2);
    }
    let half = Rat::new(1, 2);
    mn.add(mx).mul(&half)
}

fn size_coord(mn: &Rat, mx: &Rat) -> (r: Rat)
    requires
        frac_bounded(mn@, COORD_NUM as int, COORD_DEN as int),
        frac_bounded(mx@, COORD_NUM as int, COORD_DEN as int),
    ensures
        r@ == box_size(mn@, mx@),
        frac_bounded(r@, BOX_NUM as int, SIZE_DEN as int),
{
    proof {
        lemma_add_bounds(mx@, mn@, COORD_NUM as int, COORD_DEN as int, COORD_NUM as int,
            COORD_DEN as int);
    }
    mx.sub(mn)
}

/// The box-to-world transform maps each coordinate of a canonical unit-cube
/// corner (`-1/2` or `+1/2`) onto the matching box corner coordinate: `mn`
/// for the low side, `mx` for the high side.
pub proof fn lemma_transform_maps_corner_coord(mn: Frac, mx: Frac, high: bool)
    requires
        frac_wf(mn),
        frac_wf(mx),
    ensures
        frac_eq(
            transform_point(box_center(mn, mx), box_size(mn, mx), cube_corner_coord(high)),
            if high {
                mx
            } else {
                mn
            },
        ),
{
    let c = box_center(mn, mx);
    let s = box_size(mn, mx);
    let p = cube_corner_coord(high);
    let t = transform_point(c, s, p);
    assert(c.n == mn.n * mx.d + mx.n * mn.d);
    assert(c.d == (mn.d * mx.d) * 2);
    assert(s.n == mx.n * mn.d - mn.n * mx.d);
    assert(s.d == mx.d * mn.d);
    assert(t.n == c.n * (s.d * p.d) + (s.n * p.n) * c.d);
    assert(t.d == c.d * (s.d * p.d));
    if high {
        assert(t.n * mx.d == mx.n * t.d) by (nonlinear_arith)
            requires
                t.n == c.n * (s.d * 2) + (s.n * 1) * c.d,
                t.d == c.d * (s.d * 2),
                c.n == mn.n * mx.d + mx.n * mn.d,
                c.d == (mn.d * mx.d) * 2,
                s.n == mx.n * mn.d - mn.n * mx.d,
                s.d == mx.d * mn.d,
        {
        }
    } else {
        assert(t.n * mn.d == mn.n * t.d) by (nonlinear_arith)
            requires
                t.n == c.n * (s.d * 2) + (s.n * -1) * c.d,
                t.d == c.d * (s.d * 2),
                c.n == mn.n * mx.d + mx.n * mn.d,
                c.d == (mn.d * mx.d) * 2,
                s.n == mx.n * mn.d - mn.n * mx.d,
                s.d == mx.d * mn.d,
        {
        }
    }
}

/// The box-to-world transform maps each of the 8 corners of the canonical
/// unit cube onto the matching corner of the box `[mn, mx]`: on every axis
/// the low cube side lands on `mn` and the high side on `mx`.
pub proof fn lemma_transform_maps_unit_cube(mn: crate::types::FracV3, mx: crate::types::FracV3,
    hx: bool, hy: bool, hz: bool)
    requires
        frac_wf(mn.x) && frac_wf(mn.y) && frac_wf(mn.z),
        frac_wf(mx.x) && frac_wf(mx.y) && frac_wf(mx.z),
    ensures
        frac_eq(
            transform_point(box_center(mn.x, mx.x), box_size(mn.x, mx.x), cube_corner_coord(hx)),
            if hx {
                mx.x
            } else {
                mn.x
            },
        ),
        frac_eq(
            transform_point(box_center(mn.y, mx.y), box_size(mn.y, mx.y), cube_corner_coord(hy)),
            if hy {
                mx.y
            } else {
                mn.y
            },
        ),
        frac_eq(
            transform_point(box_center(mn.z, mx.z), box_size(mn.z, mx.z), cube_corner_coord(hz)),
            if hz {
                mx.z
            } else {
                mn.z
            },
        ),
{
    lemma_transform_maps_corner_coord(mn.x, mx.x, hx);
    lemma_transform_maps_corner_coord(mn.y, mx.y, hy);
    lemma_transform_maps_corner_coord(mn.z, mx.z, hz);
}

/// Mouse position in pixels to normalized device coordinates:
/// `x` maps to `2x/width - 1`, `y` to `1 - 2y/height`.
pub fn getNormalisedDeviceCoords(mouseX: &Rat, mouseY: &Rat, width: i128, height: i128) -> (r:
    Vector2)
    requires
        frac_bounded(mouseX@, COORD_NUM as int, COORD_DEN as int),
        frac_bounded(mouseY@, COORD_NUM as int, COORD_DEN as int),
        1 <= width <= 0x10000,
        1 <= height <= 0x10000,
    ensures
        r.wf(),
        r@.x == frac_sub(frac_div(frac_mul(mouseX@, frac_int(2)), frac_int(width as int)),
            frac_int(1)),
        r@.y == frac_sub(frac_int(1), frac_div(frac_mul(mouseY@, frac_int(2)),
            frac_int(height as int))),
{
    let two = Rat::from_int(2);
    let one = Rat::from_int(1);
    let w = Rat::from_int(width);
    let h = Rat::from_int(height);
    proof {
        lemma_mul_bounds(mouseX@, frac_int(2), COORD_NUM as int, COORD_DEN as int, 2, 1);
        lemma_mul_bounds(mouseY@, frac_int(2), COORD_NUM as int, COORD_DEN as int, 2, 1);
        lemma_div_bounds(frac_mul(mouseX@, frac_int(2)), frac_int(width as int),
            2 * COORD_NUM as int, COORD_DEN as int, 0x10000, 1);
        lemma_div_bounds(frac_mul(mouseY@, frac_int(2)), frac_int(height as int),
            2 * COORD_NUM as int, COORD_DEN as int, 0x10000, 1);
        lemma_add_bounds(frac_div(frac_mul(mouseX@, frac_int(2)), frac_int(width as int)),
            frac_int(1), 2 * COORD_NUM as int, COORD_DEN as int * 0x10000, 1, 1);
        lemma_add_bounds(frac_int(1), frac_div(frac_mul(mouseY@, frac_int(2)),
            frac_int(height as int)), 1, 1, 2 * COORD_NUM as int, COORD_DEN as int * 0x10000);
    }
    let x = mouseX.mul(&two).div(&w).sub(&one);
    let y = one.sub(&mouseY.mul(&two).div(&h));
    Vector2::new(x, y)
}

} // verus!
