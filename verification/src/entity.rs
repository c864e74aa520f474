//! Entities: meshes with a world transform, their cached bounding boxes,
//! and the slab-method ray/AABB intersection used for mouse picking.
//!
//! The verified model transform is the translation by `worldPos` composed
//! with the uniform `scale`; the three orientation angles are data for the
//! renderer (every entity in the scene is axis-aligned), so a transformed
//! bounding box stays axis-aligned and the slab test is exact.

use vstd::prelude::*;

use crate::rat::{
    Frac, Rat, frac_add, frac_sub, frac_mul, frac_div, frac_neg, frac_le, frac_min, frac_max,
    frac_int, frac_lt, frac_wf, frac_eq, frac_snap, frac_clamp, frac_bounded, lemma_add_bounds, lemma_mul_bounds,
    lemma_div_bounds, lemma_cmp_bounds, lemma_snap_range, lemma_den_product, lemma_four_shuffle,
    lemma_frac_eq_scaled,
};
use vstd::arithmetic::mul::{
    lemma_mul_inequality, lemma_mul_strict_inequality, lemma_mul_is_distributive_sub_other_way,
};
use crate::terrain::{Terrain, DEADZONE, BOUND_MAX, SAMPLE_VAL};
use crate::types::{Vector3, FracV3, GeomError};
use crate::mesh::{Mesh, Line, Vertex, COORD_NUM, COORD_DEN, DIR_NUM, DIR_DEN};
use crate::maths::{
    BoxTransform, computeBoundingBox, computeBoundingBoxTransform, box_center, box_size,
    transform_point,
};

verus! {

/// Largest numerator magnitude of an entity position component. Wider than
/// a plain coordinate: the terrain-following `y` is an interpolated height.
pub const POS_NUM: i128 = 0x400000;

/// Largest numerator magnitude of the uniform scale.
pub const SCALE_NUM: i128 = 0x1000;

/// Largest denominator of the uniform scale.
pub const SCALE_DEN: i128 = 0x100;

/// Largest numerator magnitude of a world-space box corner coordinate.
pub const WORLD_NUM: i128 = 0x8000000000;

/// Largest denominator of a world-space box corner coordinate.
pub const WORLD_DEN: i128 = 0x1000000;

/// Largest numerator magnitude of a ray parameter (slab crossing).
pub const T_NUM: i128 = 0x10000000000000000;

/// Largest denominator of a ray parameter.
pub const T_DEN: i128 = 0x800000000000000;

/// An axis-aligned bounding box in a mesh's local space.
pub struct BoundingBox {
    pub min: Vector3,
    pub max: Vector3,
}

impl BoundingBox {
    pub open spec fn wf(self) -> bool {
        &&& self.min.bounded(COORD_NUM as int, COORD_DEN as int)
        &&& self.max.bounded(COORD_NUM as int, COORD_DEN as int)
        &&& frac_le(self.min@.x, self.max@.x)
        &&& frac_le(self.min@.y, self.max@.y)
        &&& frac_le(self.min@.z, self.max@.z)
    }

    pub fn new(min: Vector3, max: Vector3) -> (r: BoundingBox)
        ensures
            r.min == min,
            r.max == max,
    {
        BoundingBox { min, max }
    }
}

/// Ray parameter at which the ray crosses the plane `coordinate == w`
/// along one axis: `(w - origin) / dir`.
pub open spec fn slab_t(o: Frac, d: Frac, w: Frac) -> Frac {
    frac_div(frac_sub(w, o), d)
}

/// Entry parameter of the slab `[mn, mx]` along one axis with `d != 0`.
pub open spec fn slab_lo(o: Frac, d: Frac, mn: Frac, mx: Frac) -> Frac {
    frac_min(slab_t(o, d, mn), slab_t(o, d, mx))
}

/// Exit parameter of the slab `[mn, mx]` along one axis with `d != 0`.
pub open spec fn slab_hi(o: Frac, d: Frac, mn: Frac, mx: Frac) -> Frac {
    frac_max(slab_t(o, d, mn), slab_t(o, d, mx))
}

/// A ray whose direction is zero along an axis misses the box unless its
/// origin lies within that slab; a moving axis imposes a parameter range
/// instead.
pub open spec fn axis_passes(o: Frac, d: Frac, mn: Frac, mx: Frac) -> bool {
    d.n != 0 || (frac_le(mn, o) && frac_le(o, mx))
}

/// Folds one axis into the running entry parameter (`None` while no axis
/// has constrained the ray yet).
pub open spec fn join_lo(cur: Option<Frac>, o: Frac, d: Frac, mn: Frac, mx: Frac) -> Option<
    Frac,
> {
    if d.n == 0 {
        cur
    } else {
        match cur {
            Option::None => Option::Some(slab_lo(o, d, mn, mx)),
            Option::Some(c) => Option::Some(frac_max(c, slab_lo(o, d, mn, mx))),
        }
    }
}

/// Folds one axis into the running exit parameter.
pub open spec fn join_hi(cur: Option<Frac>, o: Frac, d: Frac, mn: Frac, mx: Frac) -> Option<
    Frac,
> {
    if d.n == 0 {
        cur
    } else {
        match cur {
            Option::None => Option::Some(slab_hi(o, d, mn, mx)),
            Option::Some(c) => Option::Some(frac_min(c, slab_hi(o, d, mn, mx))),
        }
    }
}

/// Entry parameter of the whole box: the largest slab entry over the
/// constrained axes, folded x, then y, then z.
pub open spec fn ray_box_entry(o: FracV3, d: FracV3, mn: FracV3, mx: FracV3) -> Option<Frac> {
    join_lo(
        join_lo(join_lo(Option::None, o.x, d.x, mn.x, mx.x), o.y, d.y, mn.y, mx.y),
        o.z,
        d.z,
        mn.z,
        mx.z,
    )
}

/// Exit parameter of the whole box: the smallest slab exit over the
/// constrained axes.
pub open spec fn ray_box_exit(o: FracV3, d: FracV3, mn: FracV3, mx: FracV3) -> Option<Frac> {
    join_hi(
        join_hi(join_hi(Option::None, o.x, d.x, mn.x, mx.x), o.y, d.y, mn.y, mx.y),
        o.z,
        d.z,
        mn.z,
        mx.z,
    )
}

/// The ray hits the box: every zero-direction axis contains the origin in
/// its slab, at least one axis constrains the ray, and the resulting
/// parameter interval is non-empty (touching counts as a hit).
pub open spec fn ray_box_hit(o: FracV3, d: FracV3, mn: FracV3, mx: FracV3) -> bool {
    &&& axis_passes(o.x, d.x, mn.x, mx.x)
    &&& axis_passes(o.y, d.y, mn.y, mx.y)
    &&& axis_passes(o.z, d.z, mn.z, mx.z)
    &&& match (ray_box_entry(o, d, mn, mx), ray_box_exit(o, d, mn, mx)) {
        (Option::Some(lo), Option::Some(hi)) => frac_le(lo, hi),
        _ => false,
    }
}

/// Maps the exec interval state to its spec value.
pub open spec fn view_opt(o: Option<Rat>) -> Option<Frac> {
    match o {
        Option::None => Option::None,
        Option::Some(r) => Option::Some(r@),
    }
}

/// Every value the interval state may hold is a well-formed, bounded ray
/// parameter.
pub open spec fn opt_t_bounded(o: Option<Rat>) -> bool {
    match o {
        Option::None => true,
        Option::Some(r) => frac_bounded(r@, T_NUM as int, T_DEN as int),
    }
}

/// Slab entry and exit parameters along one axis with a nonzero direction
/// component.
fn slab_interval(o: &Rat, d: &Rat, mn: &Rat, mx: &Rat) -> (r: (Rat, Rat))
    requires
        frac_bounded(o@, COORD_NUM as int, COORD_DEN as int),
        frac_bounded(d@, DIR_NUM as int, DIR_DEN as int),
        frac_bounded(mn@, WORLD_NUM as int, WORLD_DEN as int),
        frac_bounded(mx@, WORLD_NUM as int, WORLD_DEN as int),
        d@.n != 0,
    ensures
        r.0@ == slab_lo(o@, d@, mn@, mx@),
        r.1@ == slab_hi(o@, d@, mn@, mx@),
        frac_bounded(r.0@, T_NUM as int, T_DEN as int),
        frac_bounded(r.1@, T_NUM as int, T_DEN as int),
{
    proof {
        lemma_add_bounds(mn@, o@, WORLD_NUM as int, WORLD_DEN as int, COORD_NUM as int,
            COORD_DEN as int);
        lemma_add_bounds(mx@, o@, WORLD_NUM as int, WORLD_DEN as int, COORD_NUM as int,
            COORD_DEN as int);
        lemma_div_bounds(frac_sub(mn@, o@), d@, 0x1000000000000, 0x100000000, DIR_NUM as int,
            DIR_DEN as int);
        lemma_div_bounds(frac_sub(mx@, o@), d@, 0x1000000000000, 0x100000000, DIR_NUM as int,
            DIR_DEN as int);
        lemma_cmp_bounds(slab_t(o@, d@, mn@), slab_t(o@, d@, mx@), T_NUM as int, T_DEN as int,
            T_NUM as int, T_DEN as int);
    }
    let t1 = mn.sub(o).div(d);
    let t2 = mx.sub(o).div(d);
    let tl = t1.min(&t2);
    let th = t1.max(&t2);
    (tl, th)
}

/// Slab-method intersection of a ray with one axis-aligned world-space
/// box. Returns the pair of ray parameters where the ray enters and
/// leaves the box, or `None` when the ray misses it. Zero direction
/// components are handled exactly: such an axis rejects the box if and
/// only if the origin lies outside its slab, and a ray whose direction is
/// zero on every axis hits nothing.
pub fn rayBoxIntersection(origin: &Vector3, dir: &Vector3, wmin: &Vector3, wmax: &Vector3) -> (r:
    Option<(Rat, Rat)>)
    requires
        origin.bounded(COORD_NUM as int, COORD_DEN as int),
        dir.bounded(DIR_NUM as int, DIR_DEN as int),
        wmin.bounded(WORLD_NUM as int, WORLD_DEN as int),
        wmax.bounded(WORLD_NUM as int, WORLD_DEN as int),
    ensures
        r is Some <==> ray_box_hit(origin@, dir@, wmin@, wmax@),
        r matches Some(p) ==> {
            &&& Option::Some(p.0@) == ray_box_entry(origin@, dir@, wmin@, wmax@)
            &&& Option::Some(p.1@) == ray_box_exit(origin@, dir@, wmin@, wmax@)
            &&& frac_le(p.0@, p.1@)
            &&& frac_bounded(p.0@, T_NUM as int, T_DEN as int)
            &&& frac_bounded(p.1@, T_NUM as int, T_DEN as int)
        },
{
    let mut lo: Option<Rat> = None;
    let mut hi: Option<Rat> = None;

    // X axis.
    if dir.x.num == 0 {
        proof {
            lemma_cmp_bounds(wmin@.x, origin@.x, WORLD_NUM as int, WORLD_DEN as int,
                COORD_NUM as int, COORD_DEN as int);
            lemma_cmp_bounds(wmax@.x, origin@.x, WORLD_NUM as int, WORLD_DEN as int,
                COORD_NUM as int, COORD_DEN as int);
        }
        if !(wmin.x.le(&origin.x) && origin.x.le(&wmax.x)) {
            return None;
        }
    } else {
        let (tl, th) = slab_interval(&origin.x, &dir.x, &wmin.x, &wmax.x);
        lo = Some(tl);
        hi = Some(th);
    }
    assert(view_opt(lo) == join_lo(Option::None, origin@.x, dir@.x, wmin@.x, wmax@.x));
    assert(view_opt(hi) == join_hi(Option::None, origin@.x, dir@.x, wmin@.x, wmax@.x));
    assert(opt_t_bounded(lo) && opt_t_bounded(hi));

    // Y axis.
    if dir.y.num == 0 {
        proof {
            lemma_cmp_bounds(wmin@.y, origin@.y, WORLD_NUM as int, WORLD_DEN as int,
                COORD_NUM as int, COORD_DEN as int);
            lemma_cmp_bounds(wmax@.y, origin@.y, WORLD_NUM as int, WORLD_DEN as int,
                COORD_NUM as int, COORD_DEN as int);
        }
        if !(wmin.y.le(&origin.y) && origin.y.le(&wmax.y)) {
            return None;
        }
    } else {
        let (tl, th) = slab_interval(&origin.y, &dir.y, &wmin.y, &wmax.y);
        proof {
            if lo is Some {
                lemma_cmp_bounds(lo->Some_0@, tl@, T_NUM as int, T_DEN as int, T_NUM as int,
                    T_DEN as int);
                lemma_cmp_bounds(hi->Some_0@, th@, T_NUM as int, T_DEN as int, T_NUM as int,
                    T_DEN as int);
            }
        }
        lo = match lo {
            None => Some(tl),
            Some(c) => Some(c.max(&tl)),
        };
        hi = match hi {
            None => Some(th),
            Some(c) => Some(c.min(&th)),
        };
    }
    assert(view_opt(lo) == join_lo(
        join_lo(Option::None, origin@.x, dir@.x, wmin@.x, wmax@.x),
        origin@.y,
        dir@.y,
        wmin@.y,
        wmax@.y,
    ));
    assert(view_opt(hi) == join_hi(
        join_hi(Option::None, origin@.x, dir@.x, wmin@.x, wmax@.x),
        origin@.y,
        dir@.y,
        wmin@.y,
        wmax@.y,
    ));
    assert(opt_t_bounded(lo) && opt_t_bounded(hi));

    // Z axis.
    if dir.z.num == 0 {
        proof {
            lemma_cmp_bounds(wmin@.z, origin@.z, WORLD_NUM as int, WORLD_DEN as int,
                COORD_NUM as int, COORD_DEN as int);
            lemma_cmp_bounds(wmax@.z, origin@.z, WORLD_NUM as int, WORLD_DEN as int,
                COORD_NUM as int, COORD_DEN as int);
        }
        if !(wmin.z.le(&origin.z) && origin.z.le(&wmax.z)) {
            return None;
        }
    } else {
        let (tl, th) = slab_interval(&origin.z, &dir.z, &wmin.z, &wmax.z);
        proof {
            if lo is Some {
                lemma_cmp_bounds(lo->Some_0@, tl@, T_NUM as int, T_DEN as int, T_NUM as int,
                    T_DEN as int);
                lemma_cmp_bounds(hi->Some_0@, th@, T_NUM as int, T_DEN as int, T_NUM as int,
                    T_DEN as int);
            }
        }
        lo = match lo {
            None => Some(tl),
            Some(c) => Some(c.max(&tl)),
        };
        hi = match hi {
            None => Some(th),
            Some(c) => Some(c.min(&th)),
        };
    }
    assert(view_opt(lo) == ray_box_entry(origin@, dir@, wmin@, wmax@));
    assert(view_opt(hi) == ray_box_exit(origin@, dir@, wmin@, wmax@));
    assert(opt_t_bounded(lo) && opt_t_bounded(hi));

    match (lo, hi) {
        (Some(l), Some(h)) => {
            proof {
                lemma_cmp_bounds(l@, h@, T_NUM as int, T_DEN as int, T_NUM as int, T_DEN as int);
            }
            if l.le(&h) {
                Some((l, h))
            } else {
                None
            }
        },
        _ => None,
    }
}

/// The center of a nondegenerate interval lies within it.
proof fn lemma_center_between(mn: Frac, mx: Frac, o: Frac)
    by (nonlinear_arith)
    requires
        frac_wf(mn),
        frac_wf(mx),
        frac_wf(o),
        frac_le(mn, mx),
        frac_eq(o, box_center(mn, mx)),
    ensures
        frac_le(mn, o),
        frac_le(o, mx),
{
}

/// For a unit direction component, the slab interval runs from
/// `mn - origin` to `mx - origin`: its ends are ordered like the slab
/// bounds and its width is the slab's extent.
proof fn lemma_slab_unit_dir(o: Frac, mn: Frac, mx: Frac)
    requires
        frac_wf(o),
        frac_wf(mn),
        frac_wf(mx),
        frac_le(mn, mx),
    ensures
        slab_lo(o, frac_int(1), mn, mx) == slab_t(o, frac_int(1), mn),
        slab_hi(o, frac_int(1), mn, mx) == slab_t(o, frac_int(1), mx),
        frac_le(slab_lo(o, frac_int(1), mn, mx), slab_hi(o, frac_int(1), mn, mx)),
        frac_eq(
            frac_sub(slab_hi(o, frac_int(1), mn, mx), slab_lo(o, frac_int(1), mn, mx)),
            frac_sub(mx, mn),
        ),
        frac_lt(mn, mx) ==> frac_lt(
            slab_lo(o, frac_int(1), mn, mx),
            slab_hi(o, frac_int(1), mn, mx),
        ),
{
    let t1 = slab_t(o, frac_int(1), mn);
    let t2 = slab_t(o, frac_int(1), mx);
    assert(t1.n == mn.n * o.d - o.n * mn.d && t1.d == mn.d * o.d);
    assert(t2.n == mx.n * o.d - o.n * mx.d && t2.d == mx.d * o.d);
    let a = mn.n * mx.d;
    let b = mx.n * mn.d;
    let c = (o.n * mn.d) * (mx.d * o.d);
    let s = o.d * o.d;
    lemma_den_product(o.d, o.d);
    // The two cross products expand to `a*s - c` and `b*s - c`.
    assert(t1.n * t2.d == a * s - c) by {
        lemma_mul_is_distributive_sub_other_way(mx.d * o.d, mn.n * o.d, o.n * mn.d);
        lemma_four_shuffle(mn.n, o.d, mx.d, o.d);
    }
    assert(t2.n * t1.d == b * s - c) by {
        lemma_mul_is_distributive_sub_other_way(mn.d * o.d, mx.n * o.d, o.n * mx.d);
        lemma_four_shuffle(mx.n, o.d, mn.d, o.d);
        lemma_four_shuffle(o.n, mx.d, mn.d, o.d);
        lemma_four_shuffle(o.n, mn.d, mx.d, o.d);
    }
    if frac_le(mn, mx) {
        lemma_mul_inequality(a, b, s);
        assert(frac_le(t1, t2));
    }
    if frac_lt(mn, mx) {
        lemma_mul_strict_inequality(a, b, s);
        assert(frac_lt(t1, t2));
    }
    // The interval width: t2 - t1 is (b - a) * s over (mx.d * mn.d) * s,
    // which is the box extent scaled by s.
    let w = frac_sub(t2, t1);
    let e = frac_sub(mx, mn);
    assert(w.n == e.n * s) by {
        lemma_mul_is_distributive_sub_other_way(s, b, a);
    }
    assert(w.d == e.d * s) by {
        lemma_four_shuffle(mx.d, o.d, mn.d, o.d);
    }
    lemma_den_product(mx.d, mn.d);
    lemma_den_product(e.d, s);
    lemma_frac_eq_scaled(w, e, s);
}

/// A ray that passes through the exact center of a box along the world
/// x axis hits the box; its parameter interval has exactly the box's x
/// extent for width, and is nondegenerate when the box is.
pub proof fn lemma_ray_through_center_x(o: FracV3, mn: FracV3, mx: FracV3)
    requires
        frac_wf(o.x) && frac_wf(o.y) && frac_wf(o.z),
        frac_wf(mn.x) && frac_wf(mn.y) && frac_wf(mn.z),
        frac_wf(mx.x) && frac_wf(mx.y) && frac_wf(mx.z),
        frac_le(mn.x, mx.x),
        frac_le(mn.y, mx.y),
        frac_le(mn.z, mx.z),
        frac_eq(o.y, box_center(mn.y, mx.y)),
        frac_eq(o.z, box_center(mn.z, mx.z)),
    ensures
        ({
            let d = FracV3 { x: frac_int(1), y: frac_int(0), z: frac_int(0) };
            let lo = slab_lo(o.x, frac_int(1), mn.x, mx.x);
            let hi = slab_hi(o.x, frac_int(1), mn.x, mx.x);
            &&& ray_box_hit(o, d, mn, mx)
            &&& ray_box_entry(o, d, mn, mx) == Option::Some(lo)
            &&& ray_box_exit(o, d, mn, mx) == Option::Some(hi)
            &&& frac_eq(frac_sub(hi, lo), frac_sub(mx.x, mn.x))
            &&& (frac_lt(mn.x, mx.x) ==> frac_lt(lo, hi))
        }),
{
    lemma_center_between(mn.y, mx.y, o.y);
    lemma_center_between(mn.z, mx.z, o.z);
    lemma_slab_unit_dir(o.x, mn.x, mx.x);
}

/// The same law along the world y axis.
pub proof fn lemma_ray_through_center_y(o: FracV3, mn: FracV3, mx: FracV3)
    requires
        frac_wf(o.x) && frac_wf(o.y) && frac_wf(o.z),
        frac_wf(mn.x) && frac_wf(mn.y) && frac_wf(mn.z),
        frac_wf(mx.x) && frac_wf(mx.y) && frac_wf(mx.z),
        frac_le(mn.x, mx.x),
        frac_le(mn.y, mx.y),
        frac_le(mn.z, mx.z),
        frac_eq(o.x, box_center(mn.x, mx.x)),
        frac_eq(o.z, box_center(mn.z, mx.z)),
    ensures
        ({
            let d = FracV3 { x: frac_int(0), y: frac_int(1), z: frac_int(0) };
            let lo = slab_lo(o.y, frac_int(1), mn.y, mx.y);
            let hi = slab_hi(o.y, frac_int(1), mn.y, mx.y);
            &&& ray_box_hit(o, d, mn, mx)
            &&& ray_box_entry(o, d, mn, mx) == Option::Some(lo)
            &&& ray_box_exit(o, d, mn, mx) == Option::Some(hi)
            &&& frac_eq(frac_sub(hi, lo), frac_sub(mx.y, mn.y))
            &&& (frac_lt(mn.y, mx.y) ==> frac_lt(lo, hi))
        }),
{
    lemma_center_between(mn.x, mx.x, o.x);
    lemma_center_between(mn.z, mx.z, o.z);
    lemma_slab_unit_dir(o.y, mn.y, mx.y);
}

/// The same law along the world z axis.
pub proof fn lemma_ray_through_center_z(o: FracV3, mn: FracV3, mx: FracV3)
    requires
        frac_wf(o.x) && frac_wf(o.y) && frac_wf(o.z),
        frac_wf(mn.x) && frac_wf(mn.y) && frac_wf(mn.z),
        frac_wf(mx.x) && frac_wf(mx.y) && frac_wf(mx.z),
        frac_le(mn.x, mx.x),
        frac_le(mn.y, mx.y),
        frac_le(mn.z, mx.z),
        frac_eq(o.x, box_center(mn.x, mx.x)),
        frac_eq(o.y, box_center(mn.y, mx.y)),
    ensures
        ({
            let d = FracV3 { x: frac_int(0), y: frac_int(0), z: frac_int(1) };
            let lo = slab_lo(o.z, frac_int(1), mn.z, mx.z);
            let hi = slab_hi(o.z, frac_int(1), mn.z, mx.z);
            &&& ray_box_hit(o, d, mn, mx)
            &&& ray_box_entry(o, d, mn, mx) == Option::Some(lo)
            &&& ray_box_exit(o, d, mn, mx) == Option::Some(hi)
            &&& frac_eq(frac_sub(hi, lo), frac_sub(mx.z, mn.z))
            &&& (frac_lt(mn.z, mx.z) ==> frac_lt(lo, hi))
        }),
{
    lemma_center_between(mn.x, mx.x, o.x);
    lemma_center_between(mn.y, mx.y, o.y);
    lemma_slab_unit_dir(o.z, mn.z, mx.z);
}

/// A ray that stays entirely outside a box's extent on some axis — its
/// direction is zero there and its origin lies outside that slab — is
/// excluded from the results: it hits nothing.
pub proof fn lemma_ray_outside_slab_misses(o: FracV3, d: FracV3, mn: FracV3, mx: FracV3)
    requires
        (d.x.n == 0 && !(frac_le(mn.x, o.x) && frac_le(o.x, mx.x))) || (d.y.n == 0 && !(frac_le(
            mn.y,
            o.y,
        ) && frac_le(o.y, mx.y))) || (d.z.n == 0 && !(frac_le(mn.z, o.z) && frac_le(o.z, mx.z))),
    ensures
        !ray_box_hit(o, d, mn, mx),
{
}

/// `bb` is the axis-aligned bounding box of the vertex positions `vs`:
/// well-formed, containing every position on every axis, with every corner
/// coordinate attained by some vertex.
pub open spec fn is_bounding_box_of(bb: BoundingBox, vs: Seq<Vertex>) -> bool {
    &&& bb.wf()
    &&& forall|i: int|
        0 <= i < vs.len() ==> {
            let p = (#[trigger] vs[i]).Position@;
            &&& frac_le(bb.min@.x, p.x) && frac_le(p.x, bb.max@.x)
            &&& frac_le(bb.min@.y, p.y) && frac_le(p.y, bb.max@.y)
            &&& frac_le(bb.min@.z, p.z) && frac_le(p.z, bb.max@.z)
        }
    &&& exists|i: int| 0 <= i < vs.len() && bb.min@.x == (#[trigger] vs[i]).Position@.x
    &&& exists|i: int| 0 <= i < vs.len() && bb.min@.y == (#[trigger] vs[i]).Position@.y
    &&& exists|i: int| 0 <= i < vs.len() && bb.min@.z == (#[trigger] vs[i]).Position@.z
    &&& exists|i: int| 0 <= i < vs.len() && bb.max@.x == (#[trigger] vs[i]).Position@.x
    &&& exists|i: int| 0 <= i < vs.len() && bb.max@.y == (#[trigger] vs[i]).Position@.y
    &&& exists|i: int| 0 <= i < vs.len() && bb.max@.z == (#[trigger] vs[i]).Position@.z
}

/// `t` is the box-to-world adjustment transform of `bb`.
pub open spec fn is_transform_of(t: BoxTransform, bb: BoundingBox) -> bool {
    &&& t.wf()
    &&& t.center@.x == box_center(bb.min@.x, bb.max@.x)
    &&& t.center@.y == box_center(bb.min@.y, bb.max@.y)
    &&& t.center@.z == box_center(bb.min@.z, bb.max@.z)
    &&& t.size@.x == box_size(bb.min@.x, bb.max@.x)
    &&& t.size@.y == box_size(bb.min@.y, bb.max@.y)
    &&& t.size@.z == box_size(bb.min@.z, bb.max@.z)
}

/// World-space position of a local box corner under the entity transform:
/// `worldPos + scale * corner`, per component.
pub open spec fn world_corner(pos: FracV3, s: Frac, c: FracV3) -> FracV3 {
    FracV3 {
        x: transform_point(pos.x, s, c.x),
        y: transform_point(pos.y, s, c.y),
        z: transform_point(pos.z, s, c.z),
    }
}

/// Outcome of the slab test for one bounding box under the entity
/// transform: the entry/exit parameter pair, or `None` on a miss.
pub open spec fn box_hit_result(bb: BoundingBox, pos: FracV3, s: Frac, o: FracV3, d: FracV3)
    -> Option<(Frac, Frac)> {
    let mn = world_corner(pos, s, bb.min@);
    let mx = world_corner(pos, s, bb.max@);
    if ray_box_hit(o, d, mn, mx) {
        match (ray_box_entry(o, d, mn, mx), ray_box_exit(o, d, mn, mx)) {
            (Option::Some(l), Option::Some(h)) => Option::Some((l, h)),
            _ => Option::None,
        }
    } else {
        Option::None
    }
}

/// The intervals of the boxes among the first `n` that the ray hits, in
/// box order; missed boxes are omitted.
pub open spec fn hits_prefix(
    boxes: Seq<BoundingBox>,
    pos: FracV3,
    s: Frac,
    o: FracV3,
    d: FracV3,
    n: int,
) -> Seq<(Frac, Frac)>
    decreases n,
{
    if n <= 0 {
        Seq::empty()
    } else {
        let pre = hits_prefix(boxes, pos, s, o, d, n - 1);
        match box_hit_result(boxes[n - 1], pos, s, o, d) {
            Option::Some(p) => pre.push(p),
            Option::None => pre,
        }
    }
}

/// A set of drawable meshes coupled with a world transform (position,
/// orientation angles, uniform scale), a cached bounding box and
/// box-to-world transform per mesh, and a movement speed.
pub struct Entity {
    pub meshes: Vec<Mesh>,
    pub boundingBoxes: Vec<BoundingBox>,
    pub boundingTransforms: Vec<BoxTransform>,
    pub worldPos: Vector3,
    /// Rotation angles about the x, y and z axes, in degrees. The
    /// renderer applies them when drawing; the picking test works on the
    /// axis-aligned configuration the scene uses.
    pub orientation: Vector3,
    pub scale: Rat,
    pub speed: Rat,
}

/// Largest numerator magnitude of the movement speed.
pub const SPEED_NUM: i128 = 0x10000;

/// Largest denominator of the movement speed.
pub const SPEED_DEN: i128 = 0x100;

impl Entity {
    /// The structural invariant: one bounding box and one transform per
    /// mesh, each derived from exactly that mesh's vertices, and every
    /// transform component within the exact-arithmetic bounds.
    pub open spec fn wf(self) -> bool {
        &&& self.boundingBoxes@.len() == self.meshes@.len()
        &&& self.boundingTransforms@.len() == self.meshes@.len()
        &&& forall|i: int| 0 <= i < self.meshes@.len() ==> (#[trigger] self.meshes@[i]).wf()
        &&& forall|i: int|
            0 <= i < self.meshes@.len() ==> is_bounding_box_of(
                #[trigger] self.boundingBoxes@[i],
                self.meshes@[i].vertices@,
            )
        &&& forall|i: int|
            0 <= i < self.meshes@.len() ==> is_transform_of(
                #[trigger] self.boundingTransforms@[i],
                self.boundingBoxes@[i],
            )
        &&& self.worldPos.bounded(POS_NUM as int, COORD_DEN as int)
        &&& self.orientation.wf()
        &&& frac_bounded(self.scale@, SCALE_NUM as int, SCALE_DEN as int)
        &&& frac_bounded(self.speed@, SPEED_NUM as int, SPEED_DEN as int)
    }

    /// Builds an entity, computing one bounding box and one box-to-world
    /// transform per mesh. A mesh without vertices has no bounding box
    /// and is rejected as degenerate input.
    pub fn new(meshes: Vec<Mesh>, worldPos: Vector3, orientation: Vector3, scale: Rat, speed: Rat)
        -> (r: Result<Entity, GeomError>)
        requires
            forall|i: int| 0 <= i < meshes@.len() ==> (#[trigger] meshes@[i]).wf(),
            worldPos.bounded(POS_NUM as int, COORD_DEN as int),
            orientation.wf(),
            frac_bounded(scale@, SCALE_NUM as int, SCALE_DEN as int),
            frac_bounded(speed@, SPEED_NUM as int, SPEED_DEN as int),
        ensures
            r is Err <==> exists|i: int|
                0 <= i < meshes@.len() && (#[trigger] meshes@[i]).vertices@.len() == 0,
            r is Err ==> r == Err::<Entity, GeomError>(GeomError::InvalidInput),
            r matches Ok(e) ==> {
                &&& e.wf()
                &&& e.meshes == meshes
                &&& e.worldPos == worldPos
                &&& e.orientation == orientation
                &&& e.scale == scale
                &&& e.speed == speed
            },
    {
        let mut boundingBoxes: Vec<BoundingBox> = Vec::new();
        let mut boundingTransforms: Vec<BoxTransform> = Vec::new();
        let mut i: usize = 0;
        while i < meshes.len()
            invariant
                0 <= i <= meshes@.len(),
                forall|j: int| 0 <= j < meshes@.len() ==> (#[trigger] meshes@[j]).wf(),
                boundingBoxes@.len() == i,
                boundingTransforms@.len() == i,
                forall|j: int| 0 <= j < i ==> (#[trigger] meshes@[j]).vertices@.len() > 0,
                forall|j: int|
                    0 <= j < i ==> is_bounding_box_of(
                        #[trigger] boundingBoxes@[j],
                        meshes@[j].vertices@,
                    ),
                forall|j: int|
                    0 <= j < i ==> is_transform_of(
                        #[trigger] boundingTransforms@[j],
                        boundingBoxes@[j],
                    ),
            decreases meshes@.len() - i,
        {
            match computeBoundingBox(&meshes[i].vertices) {
                Ok((mn, mx)) => {
                    let t = computeBoundingBoxTransform(&mn, &mx);
                    boundingBoxes.push(BoundingBox::new(mn, mx));
                    boundingTransforms.push(t);
                },
                Err(_) => {
                    return Err(GeomError::InvalidInput);
                },
            }
            i += 1;
        }
        Ok(Entity { meshes, boundingBoxes, boundingTransforms, worldPos, orientation, scale, speed })
    }

    /// One world-space coordinate of a transformed box corner.
    fn worldCoord(&self, pos: &Rat, b: &Rat) -> (r: Rat)
        requires
            frac_bounded(pos@, POS_NUM as int, COORD_DEN as int),
            frac_bounded(self.scale@, SCALE_NUM as int, SCALE_DEN as int),
            frac_bounded(b@, COORD_NUM as int, COORD_DEN as int),
        ensures
            r@ == transform_point(pos@, self.scale@, b@),
            frac_bounded(r@, WORLD_NUM as int, WORLD_DEN as int),
    {
        proof {
            lemma_mul_bounds(self.scale@, b@, SCALE_NUM as int, SCALE_DEN as int,
                COORD_NUM as int, COORD_DEN as int);
            lemma_add_bounds(pos@, frac_mul(self.scale@, b@), POS_NUM as int, COORD_DEN as int,
                SCALE_NUM as int * COORD_NUM as int, SCALE_DEN as int * COORD_DEN as int);
        }
        pos.add(&self.scale.mul(b))
    }

    /// Slab-method intersection of a picking ray with every bounding box
    /// of this entity, each box transformed to world space first. The
    /// result holds the `(entry, exit)` ray parameters of exactly the
    /// boxes the ray hits, in box order; missed boxes are omitted.
    pub fn intersect(&self, ray: &Line) -> (r: Vec<(Rat, Rat)>)
        requires
            self.wf(),
            ray.wf(),
        ensures
            ({
                let hits = hits_prefix(
                    self.boundingBoxes@,
                    self.worldPos@,
                    self.scale@,
                    ray.coords@[0]@,
                    ray.dir@,
                    self.boundingBoxes@.len() as int,
                );
                &&& r@.len() == hits.len()
                &&& forall|k: int|
                    0 <= k < r@.len() ==> (#[trigger] r@[k]).0@ == hits[k].0 && r@[k].1@
                        == hits[k].1
            }),
    {
        let origin = ray.coords[0];
        let mut intersections: Vec<(Rat, Rat)> = Vec::new();
        let mut i: usize = 0;
        while i < self.boundingBoxes.len()
            invariant
                0 <= i <= self.boundingBoxes@.len(),
                self.wf(),
                ray.wf(),
                origin == ray.coords@[0],
                ({
                    let hits = hits_prefix(
                        self.boundingBoxes@,
                        self.worldPos@,
                        self.scale@,
                        origin@,
                        ray.dir@,
                        i as int,
                    );
                    &&& intersections@.len() == hits.len()
                    &&& forall|k: int|
                        0 <= k < intersections@.len() ==> (#[trigger] intersections@[k]).0@
                            == hits[k].0 && intersections@[k].1@ == hits[k].1
                }),
            decreases self.boundingBoxes@.len() - i,
        {
            let bb = &self.boundingBoxes[i];
            let wminx = self.worldCoord(&self.worldPos.x, &bb.min.x);
            let wminy = self.worldCoord(&self.worldPos.y, &bb.min.y);
            let wminz = self.worldCoord(&self.worldPos.z, &bb.min.z);
            let wmaxx = self.worldCoord(&self.worldPos.x, &bb.max.x);
            let wmaxy = self.worldCoord(&self.worldPos.y, &bb.max.y);
            let wmaxz = self.worldCoord(&self.worldPos.z, &bb.max.z);
            let wmin = Vector3::new(wminx, wminy, wminz);
            let wmax = Vector3::new(wmaxx, wmaxy, wmaxz);
            assert(wmin@ == world_corner(self.worldPos@, self.scale@, bb.min@));
            assert(wmax@ == world_corner(self.worldPos@, self.scale@, bb.max@));
            match rayBoxIntersection(&origin, &ray.dir, &wmin, &wmax) {
                Some(p) => {
                    intersections.push(p);
                },
                None => {},
            }
            i += 1;
        }
        intersections
    }

    /// Moves the entity horizontally along `dir` by `speed * deltaTime`,
    /// clamps both horizontal coordinates into the terrain's movement
    /// range, and re-snaps the height from the terrain. The new
    /// coordinates are rounded down to the coordinate grid so that
    /// repeated moves stay within the exact-arithmetic range.
    pub fn processMouse(&mut self, dir: &Vector3, terrain: &Terrain, deltaTime: &Rat)
        requires
            old(self).wf(),
            terrain.wf(),
            dir.bounded(0x100, 0x100),
            frac_bounded(deltaTime@, SPEED_NUM as int, SPEED_DEN as int),
        ensures
            final(self).wf(),
            final(self).meshes == old(self).meshes,
            final(self).boundingBoxes == old(self).boundingBoxes,
            final(self).boundingTransforms == old(self).boundingTransforms,
            final(self).orientation == old(self).orientation,
            final(self).scale == old(self).scale,
            final(self).speed == old(self).speed,
            ({
                let vel = frac_mul(old(self).speed@, deltaTime@);
                let nx = moved_coord(old(self).worldPos@.x, frac_mul(dir@.x, vel));
                let nz = moved_coord(old(self).worldPos@.z, frac_mul(dir@.z, vel));
                &&& final(self).worldPos@.x == nx
                &&& final(self).worldPos@.z == nz
                &&& final(self).worldPos@.y == frac_snap(terrain.sample_spec(nx, nz),
                    COORD_DEN as int)
            }),
    {
        proof {
            lemma_mul_bounds(self.speed@, deltaTime@, SPEED_NUM as int, SPEED_DEN as int,
                SPEED_NUM as int, SPEED_DEN as int);
            lemma_mul_bounds(dir@.x, frac_mul(self.speed@, deltaTime@), 0x100, 0x100,
                0x100000000, 0x10000);
            lemma_mul_bounds(dir@.z, frac_mul(self.speed@, deltaTime@), 0x100, 0x100,
                0x100000000, 0x10000);
        }
        let velocity = self.speed.mul(deltaTime);
        let nx = step_axis(&self.worldPos.x, &dir.x.mul(&velocity));
        let nz = step_axis(&self.worldPos.z, &dir.z.mul(&velocity));
        self.worldPos.x = nx;
        self.worldPos.z = nz;
        let h = terrain.getHeight(&self.worldPos.x, &self.worldPos.z);
        proof {
            lemma_snap_range(h@, -(SAMPLE_VAL as int), SAMPLE_VAL as int, COORD_DEN as int);
        }
        self.worldPos.y = h.snap(COORD_DEN);
    }

    /// Moves the entity one step along an axis for an arrow key (other
    /// keys leave the horizontal position alone), clamps into the
    /// movement range, and re-snaps the height from the terrain, as
    /// `processMouse` does.
    pub fn processKeyboard(&mut self, key: Key, terrain: &Terrain, deltaTime: &Rat)
        requires
            old(self).wf(),
            terrain.wf(),
            frac_bounded(deltaTime@, SPEED_NUM as int, SPEED_DEN as int),
        ensures
            final(self).wf(),
            final(self).meshes == old(self).meshes,
            final(self).boundingBoxes == old(self).boundingBoxes,
            final(self).boundingTransforms == old(self).boundingTransforms,
            final(self).orientation == old(self).orientation,
            final(self).scale == old(self).scale,
            final(self).speed == old(self).speed,
            ({
                let vel = frac_mul(old(self).speed@, deltaTime@);
                let (nx, nz) = match key {
                    Key::Up => (old(self).worldPos@.x, moved_coord(old(self).worldPos@.z, vel)),
                    Key::Down => (old(self).worldPos@.x, moved_coord(old(self).worldPos@.z,
                        frac_neg(vel))),
                    Key::Left => (moved_coord(old(self).worldPos@.x, vel), old(self).worldPos@.z),
                    Key::Right => (moved_coord(old(self).worldPos@.x, frac_neg(vel)),
                        old(self).worldPos@.z),
                    Key::Other => (old(self).worldPos@.x, old(self).worldPos@.z),
                };
                &&& final(self).worldPos@.x == nx
                &&& final(self).worldPos@.z == nz
                &&& final(self).worldPos@.y == frac_snap(terrain.sample_spec(nx, nz),
                    COORD_DEN as int)
            }),
    {
        proof {
            lemma_mul_bounds(self.speed@, deltaTime@, SPEED_NUM as int, SPEED_DEN as int,
                SPEED_NUM as int, SPEED_DEN as int);
        }
        let velocity = self.speed.mul(deltaTime);
        match key {
            Key::Up => {
                self.worldPos.z = step_axis(&self.worldPos.z, &velocity);
            },
            Key::Down => {
                self.worldPos.z = step_axis(&self.worldPos.z, &velocity.neg());
            },
            Key::Left => {
                self.worldPos.x = step_axis(&self.worldPos.x, &velocity);
            },
            Key::Right => {
                self.worldPos.x = step_axis(&self.worldPos.x, &velocity.neg());
            },
            Key::Other => {},
        }
        let h = terrain.getHeight(&self.worldPos.x, &self.worldPos.z);
        proof {
            lemma_snap_range(h@, -(SAMPLE_VAL as int), SAMPLE_VAL as int, COORD_DEN as int);
        }
        self.worldPos.y = h.snap(COORD_DEN);
    }
}

/// The keys an entity reacts to; anything else leaves its horizontal
/// position unchanged (the height is still re-snapped).
pub enum Key {
    Up,
    Down,
    Left,
    Right,
    Other,
}

/// One horizontal coordinate after a move: stepped by `delta`, clamped
/// into `[DEADZONE, BOUND_MAX]`, and rounded down to the coordinate grid.
pub open spec fn moved_coord(p: Frac, delta: Frac) -> Frac {
    frac_snap(
        frac_clamp(frac_add(p, delta), frac_int(DEADZONE as int), frac_int(BOUND_MAX as int)),
        COORD_DEN as int,
    )
}

/// Steps one coordinate, clamps it into the movement range, and snaps it
/// to the coordinate grid.
fn step_axis(p: &Rat, delta: &Rat) -> (r: Rat)
    requires
        frac_bounded(p@, POS_NUM as int, COORD_DEN as int),
        frac_bounded(delta@, 0x10000000000, 0x1000000),
    ensures
        r@ == moved_coord(p@, delta@),
        frac_bounded(r@, POS_NUM as int, COORD_DEN as int),
{
    proof {
        lemma_add_bounds(p@, delta@, POS_NUM as int, COORD_DEN as int, 0x10000000000, 0x1000000);
        lemma_cmp_bounds(frac_add(p@, delta@), frac_int(DEADZONE as int), 0x2000000000000,
            0x100000000, BOUND_MAX as int, 1);
        lemma_cmp_bounds(frac_max(frac_add(p@, delta@), frac_int(DEADZONE as int)),
            frac_int(BOUND_MAX as int), 0x2000000000000, 0x100000000, BOUND_MAX as int, 1);
        lemma_snap_range(
            frac_clamp(frac_add(p@, delta@), frac_int(DEADZONE as int),
                frac_int(BOUND_MAX as int)),
            DEADZONE as int,
            BOUND_MAX as int,
            COORD_DEN as int,
        );
    }
    let raw = p.add(delta);
    let clamped = raw.max(&Rat::from_int(DEADZONE)).min(&Rat::from_int(BOUND_MAX));
    clamped.snap(COORD_DEN)
}

} // verus!
