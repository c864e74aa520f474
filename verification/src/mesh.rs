//! Mesh data as the geometry core sees it: vertices, index lists and the
//! picking line. Uploading any of this to the GPU is the renderer's affair;
//! here a mesh is plain data with exact coordinates.

use vstd::prelude::*;

use crate::rat::{Rat, frac_int, frac_sub, fits_i128};
use crate::types::{Vector2, Vector3};

verus! {

/// Largest numerator magnitude of a model-space or world-space coordinate.
/// Together with `COORD_DEN` it keeps every product of the intersection and
/// sampling chains inside `i128`.
pub const COORD_NUM: i128 = 0x40000;

/// Largest denominator of a model-space or world-space coordinate.
pub const COORD_DEN: i128 = 0x100;

/// Largest numerator magnitude of a ray direction component (a difference
/// of two coordinates).
pub const DIR_NUM: i128 = 0x8000000;

/// Largest denominator of a ray direction component.
pub const DIR_DEN: i128 = 0x10000;

pub struct Vertex {
    pub Position: Vector3,
    pub Normal: Vector3,
    pub TexCoords: Vector2,
}

impl Vertex {
    /// Coordinates a vertex may carry: position components bounded so that
    /// the box and intersection arithmetic stays exact.
    pub open spec fn wf(self) -> bool {
        &&& self.Position.bounded(COORD_NUM as int, COORD_DEN as int)
        &&& self.Normal.wf()
        &&& self.TexCoords.wf()
    }
}

impl Default for Vertex {
    fn default() -> (r: Vertex)
        ensures
            r.wf(),
            r.Position@.x == frac_int(0),
            r.Position@.y == frac_int(0),
            r.Position@.z == frac_int(0),
            r.Normal@.x == frac_int(0),
            r.Normal@.y == frac_int(0),
            r.Normal@.z == frac_int(0),
            r.TexCoords@.x == frac_int(0),
            r.TexCoords@.y == frac_int(0),
    {
        Vertex { Position: Vector3::zero(), Normal: Vector3::zero(), TexCoords: Vector2::zero() }
    }
}

#[derive(Clone)]
pub struct Texture {
    pub id: u32,
    pub type_: String,
    pub path: String,
}

/// A drawable mesh: the renderer keeps the GPU handles, the core keeps the
/// data the geometry is computed from.
pub struct Mesh {
    pub vertices: Vec<Vertex>,
    pub indices: Vec<u32>,
    pub textures: Vec<Texture>,
}

impl Mesh {
    pub open spec fn wf(self) -> bool {
        forall|i: int| 0 <= i < self.vertices@.len() ==> (#[trigger] self.vertices@[i]).wf()
    }

    pub fn new(vertices: Vec<Vertex>, indices: Vec<u32>, textures: Vec<Texture>) -> (r: Mesh)
        ensures
            r.vertices == vertices,
            r.indices == indices,
            r.textures == textures,
    {
        Mesh { vertices, indices, textures }
    }
}

/// A picking ray kept for later intersection queries: the two world-space
/// points it was built from, and their difference as its direction. The
/// direction is not normalized; ray parameters are in units of its length.
pub struct Line {
    pub coords: Vec<Vector3>,
    pub dir: Vector3,
}

impl Line {
    /// The origin and direction are exact and bounded; zero direction
    /// components are allowed (the intersection test special-cases them).
    pub open spec fn wf(self) -> bool {
        &&& self.coords@.len() == 2
        &&& self.coords@[0].bounded(COORD_NUM as int, COORD_DEN as int)
        &&& self.coords@[1].bounded(COORD_NUM as int, COORD_DEN as int)
        &&& self.dir.bounded(DIR_NUM as int, DIR_DEN as int)
    }

    pub fn new(start: Vector3, end: Vector3) -> (r: Line)
        requires
            start.bounded(COORD_NUM as int, COORD_DEN as int),
            end.bounded(COORD_NUM as int, COORD_DEN as int),
        ensures
            r.wf(),
            r.coords@[0] == start,
            r.coords@[1] == end,
            r.dir@.x == frac_sub(end@.x, start@.x),
            r.dir@.y == frac_sub(end@.y, start@.y),
            r.dir@.z == frac_sub(end@.z, start@.z),
    {
        proof {
            lemma_coord_sub_fits(end@.x, start@.x);
            lemma_coord_sub_fits(end@.y, start@.y);
            lemma_coord_sub_fits(end@.z, start@.z);
        }
        let dir = Vector3::new(end.x.sub(&start.x), end.y.sub(&start.y), end.z.sub(&start.z));
        let mut coords: Vec<Vector3> = Vec::new();
        coords.push(start);
        coords.push(end);
        Line { coords, dir }
    }
}

/// Subtracting two bounded coordinates stays within the direction bounds
/// and within `i128`.
proof fn lemma_coord_sub_fits(a: crate::rat::Frac, b: crate::rat::Frac)
    by (nonlinear_arith)
    requires
        crate::rat::frac_bounded(a, COORD_NUM as int, COORD_DEN as int),
        crate::rat::frac_bounded(b, COORD_NUM as int, COORD_DEN as int),
    ensures
        fits_i128(a.n * b.d),
        fits_i128(b.n * a.d),
        fits_i128(a.n * b.d - b.n * a.d),
        fits_i128(a.d * b.d),
        crate::rat::frac_bounded(frac_sub(a, b), DIR_NUM as int, DIR_DEN as int),
{
}

} // verus!
