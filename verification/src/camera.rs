//! Free-fly camera state: position, orthonormal-basis vectors, yaw/pitch
//! angles, zoom, and the movement and mouse-look rules.
//!
//! The basis vectors are derived from yaw and pitch by trigonometry, which
//! the renderer computes; it hands them back through `setCameraVectors`.
//! What is verified here is the state logic: movement along the basis,
//! the angle updates, and the pitch and zoom clamps. Angles are kept
//! modulo a full turn and on the fixed fractional grid, so that any
//! number of updates stays within the exact-arithmetic range.

use vstd::prelude::*;

use crate::rat::{
    Frac, Rat, frac_add, frac_sub, frac_mul, frac_neg, frac_max, frac_le,
    frac_eq, frac_int, frac_snap, frac_clamp, frac_bounded, frac_wf, lemma_add_bounds,
    lemma_mul_bounds, lemma_cmp_bounds, lemma_snap_range,
};
use crate::types::{Vector3, FracV3};
use crate::mesh::COORD_DEN;
use crate::entity::{SPEED_NUM, SPEED_DEN};
use vstd::arithmetic::div_mod::lemma_mod_division_less_than_divisor;

verus! {

/// Largest numerator magnitude of a camera position component: the
/// camera may fly anywhere within `WORLD_LIMIT` on the coordinate grid.
pub const CAM_POS_NUM: i128 = 0x100000000;

/// The camera position is clamped into `[-WORLD_LIMIT, WORLD_LIMIT]` per
/// component (a machine limit of the exact arithmetic, far beyond the
/// draw distance).
pub const WORLD_LIMIT: i128 = 0x1000000;

/// Largest numerator magnitude of a basis-vector component (unit-length
/// vectors on the coordinate grid).
pub const BASIS_NUM: i128 = 0x100;

/// Largest numerator magnitude of a mouse-sensitivity value.
pub const SENS_NUM: i128 = 0x1000;

/// Largest numerator magnitude of a mouse offset.
pub const OFF_NUM: i128 = 0x100000;

/// One full turn on the angle grid: `360 * 256`.
pub const TURN_NUM: i128 = 0x16800;

/// Largest numerator magnitude of a stored angle.
pub const ANGLE_NUM: i128 = 0x16800;

/// Largest numerator magnitude of a zoom value.
pub const ZOOM_NUM: i128 = 0x4000;

pub enum CameraMovement {
    FORWARD,
    BACKWARD,
    LEFT,
    RIGHT,
    UP,
    DOWN,
}

/// An angle kept on the fractional grid, within one turn of zero.
pub open spec fn angle_wf(a: Frac) -> bool {
    &&& frac_bounded(a, ANGLE_NUM as int, COORD_DEN as int)
    &&& -(360 * a.d) < a.n < 360 * a.d
}

/// A camera position component after a move: stepped by `delta`, clamped
/// into the world range, rounded down to the coordinate grid.
pub open spec fn cam_moved(p: Frac, delta: Frac) -> Frac {
    frac_snap(
        frac_clamp(
            frac_add(p, delta),
            frac_int(-WORLD_LIMIT as int),
            frac_int(WORLD_LIMIT as int),
        ),
        COORD_DEN as int,
    )
}

/// An angle after a mouse-look step: moved by the scaled offset, rounded
/// down to the angle grid, and reduced modulo a full turn.
pub open spec fn angle_moved(a: Frac, delta: Frac) -> Frac {
    let s = frac_snap(frac_add(a, delta), COORD_DEN as int);
    Frac { n: s.n % (TURN_NUM as int), d: s.d }
}

/// A pitch after a constrained mouse-look step: moved by the scaled
/// offset, rounded down to the angle grid, and clamped into
/// `[-89, 89]` degrees.
pub open spec fn pitch_moved_clamped(a: Frac, delta: Frac) -> Frac {
    frac_clamp(
        frac_snap(frac_add(a, delta), COORD_DEN as int),
        frac_int(-89),
        frac_int(89),
    )
}

pub struct Camera {
    pub position: Vector3,
    pub front: Vector3,
    pub up: Vector3,
    pub right: Vector3,
    pub worldUp: Vector3,
    pub yaw: Rat,
    pub pitch: Rat,
    pub movementSpeed: Rat,
    pub mouseSensitivity: Rat,
    pub zoom: Rat,
}

impl Camera {
    pub open spec fn wf(self) -> bool {
        &&& self.position.bounded(CAM_POS_NUM as int, COORD_DEN as int)
        &&& self.front.bounded(BASIS_NUM as int, COORD_DEN as int)
        &&& self.up.bounded(BASIS_NUM as int, COORD_DEN as int)
        &&& self.right.bounded(BASIS_NUM as int, COORD_DEN as int)
        &&& self.worldUp.bounded(BASIS_NUM as int, COORD_DEN as int)
        &&& angle_wf(self.yaw@)
        &&& angle_wf(self.pitch@)
        &&& frac_bounded(self.movementSpeed@, SPEED_NUM as int, SPEED_DEN as int)
        &&& frac_bounded(self.mouseSensitivity@, SENS_NUM as int, COORD_DEN as int)
        &&& frac_bounded(self.zoom@, ZOOM_NUM as int, COORD_DEN as int)
        &&& frac_le(frac_int(1), self.zoom@) && frac_le(self.zoom@, frac_int(45))
    }

    /// The renderer recomputes the basis vectors from yaw and pitch
    /// (trigonometry) and hands them back, on the coordinate grid.
    pub fn setCameraVectors(&mut self, front: Vector3, right: Vector3, up: Vector3)
        requires
            old(self).wf(),
            front.bounded(BASIS_NUM as int, COORD_DEN as int),
            right.bounded(BASIS_NUM as int, COORD_DEN as int),
            up.bounded(BASIS_NUM as int, COORD_DEN as int),
        ensures
            final(self).wf(),
            final(self).front == front,
            final(self).right == right,
            final(self).up == up,
            final(self).position == old(self).position,
            final(self).worldUp == old(self).worldUp,
            final(self).yaw == old(self).yaw,
            final(self).pitch == old(self).pitch,
            final(self).movementSpeed == old(self).movementSpeed,
            final(self).mouseSensitivity == old(self).mouseSensitivity,
            final(self).zoom == old(self).zoom,
    {
        self.front = front;
        self.right = right;
        self.up = up;
    }

    /// Moves the camera along its basis for one key press: `FORWARD` and
    /// `BACKWARD` along `front`, `LEFT` and `RIGHT` along `right`, `UP`
    /// and `DOWN` along `up`, by `movementSpeed * deltaTime`.
    pub fn processKeyboard(&mut self, direction: CameraMovement, deltaTime: &Rat)
        requires
            old(self).wf(),
            frac_bounded(deltaTime@, SPEED_NUM as int, SPEED_DEN as int),
        ensures
            final(self).wf(),
            final(self).front == old(self).front,
            final(self).right == old(self).right,
            final(self).up == old(self).up,
            final(self).worldUp == old(self).worldUp,
            final(self).yaw == old(self).yaw,
            final(self).pitch == old(self).pitch,
            final(self).movementSpeed == old(self).movementSpeed,
            final(self).mouseSensitivity == old(self).mouseSensitivity,
            final(self).zoom == old(self).zoom,
            ({
                let vel = frac_mul(old(self).movementSpeed@, deltaTime@);
                let axis = match direction {
                    CameraMovement::FORWARD => old(self).front@,
                    CameraMovement::BACKWARD => old(self).front@,
                    CameraMovement::LEFT => old(self).right@,
                    CameraMovement::RIGHT => old(self).right@,
                    CameraMovement::UP => old(self).up@,
                    CameraMovement::DOWN => old(self).up@,
                };
                let forward = match direction {
                    CameraMovement::FORWARD => true,
                    CameraMovement::BACKWARD => false,
                    CameraMovement::LEFT => false,
                    CameraMovement::RIGHT => true,
                    CameraMovement::UP => true,
                    CameraMovement::DOWN => false,
                };
                let dx = if forward {
                    frac_mul(axis.x, vel)
                } else {
                    frac_neg(frac_mul(axis.x, vel))
                };
                let dy = if forward {
                    frac_mul(axis.y, vel)
                } else {
                    frac_neg(frac_mul(axis.y, vel))
                };
                let dz = if forward {
                    frac_mul(axis.z, vel)
                } else {
                    frac_neg(frac_mul(axis.z, vel))
                };
                &&& final(self).position@.x == cam_moved(old(self).position@.x, dx)
                &&& final(self).position@.y == cam_moved(old(self).position@.y, dy)
                &&& final(self).position@.z == cam_moved(old(self).position@.z, dz)
            }),
    {
        proof {
            lemma_mul_bounds(self.movementSpeed@, deltaTime@, SPEED_NUM as int, SPEED_DEN as int,
                SPEED_NUM as int, SPEED_DEN as int);
        }
        let velocity = self.movementSpeed.mul(deltaTime);
        let (axis, forward) = match direction {
            CameraMovement::FORWARD => (self.front, true),
            CameraMovement::BACKWARD => (self.front, false),
            CameraMovement::LEFT => (self.right, false),
            CameraMovement::RIGHT => (self.right, true),
            CameraMovement::UP => (self.up, true),
            CameraMovement::DOWN => (self.up, false),
        };
        let px = cam_axis(&self.position.x, &axis.x, &velocity, forward);
        let py = cam_axis(&self.position.y, &axis.y, &velocity, forward);
        let pz = cam_axis(&self.position.z, &axis.z, &velocity, forward);
        self.position = Vector3::new(px, py, pz);
    }

    /// Applies a mouse movement: both angles move by the offset scaled by
    /// the sensitivity. The yaw wraps around the full turn; so does the
    /// pitch, unless `constrainPitch` pins it into `[-89, 89]` degrees.
    pub fn processMouseMovement(&mut self, xoffset: &Rat, yoffset: &Rat, constrainPitch: bool)
        requires
            old(self).wf(),
            frac_bounded(xoffset@, OFF_NUM as int, COORD_DEN as int),
            frac_bounded(yoffset@, OFF_NUM as int, COORD_DEN as int),
        ensures
            final(self).wf(),
            final(self).position == old(self).position,
            final(self).front == old(self).front,
            final(self).right == old(self).right,
            final(self).up == old(self).up,
            final(self).worldUp == old(self).worldUp,
            final(self).movementSpeed == old(self).movementSpeed,
            final(self).mouseSensitivity == old(self).mouseSensitivity,
            final(self).zoom == old(self).zoom,
            final(self).yaw@ == angle_moved(old(self).yaw@, frac_mul(xoffset@,
                old(self).mouseSensitivity@)),
            constrainPitch ==> final(self).pitch@ == pitch_moved_clamped(old(self).pitch@,
                frac_mul(yoffset@, old(self).mouseSensitivity@)),
            !constrainPitch ==> final(self).pitch@ == angle_moved(old(self).pitch@,
                frac_mul(yoffset@, old(self).mouseSensitivity@)),
    {
        proof {
            lemma_mul_bounds(xoffset@, self.mouseSensitivity@, OFF_NUM as int, COORD_DEN as int,
                SENS_NUM as int, COORD_DEN as int);
            lemma_mul_bounds(yoffset@, self.mouseSensitivity@, OFF_NUM as int, COORD_DEN as int,
                SENS_NUM as int, COORD_DEN as int);
        }
        let dx = xoffset.mul(&self.mouseSensitivity);
        let dy = yoffset.mul(&self.mouseSensitivity);
        self.yaw = angle_step(&self.yaw, &dx);
        if constrainPitch {
            self.pitch = pitch_step_clamped(&self.pitch, &dy);
        } else {
            self.pitch = angle_step(&self.pitch, &dy);
        }
    }

    /// Applies a scroll step to the zoom: while the zoom is within its
    /// range it moves by the offset, and it is then pinned back into
    /// `[1, 45]` degrees.
    pub fn processMouseScroll(&mut self, yoffset: &Rat)
        requires
            old(self).wf(),
            frac_bounded(yoffset@, OFF_NUM as int, COORD_DEN as int),
        ensures
            final(self).wf(),
            final(self).position == old(self).position,
            final(self).front == old(self).front,
            final(self).right == old(self).right,
            final(self).up == old(self).up,
            final(self).worldUp == old(self).worldUp,
            final(self).yaw == old(self).yaw,
            final(self).pitch == old(self).pitch,
            final(self).movementSpeed == old(self).movementSpeed,
            final(self).mouseSensitivity == old(self).mouseSensitivity,
            ({
                let z0 = old(self).zoom@;
                let z1 = if frac_le(frac_int(1), z0) && frac_le(z0, frac_int(45)) {
                    frac_snap(frac_sub(z0, yoffset@), COORD_DEN as int)
                } else {
                    z0
                };
                let z2 = if frac_le(z1, frac_int(1)) {
                    frac_int(1)
                } else {
                    z1
                };
                let z3 = if frac_le(frac_int(45), z2) {
                    frac_int(45)
                } else {
                    z2
                };
                final(self).zoom@ == z3
            }),
    {
        let one = Rat::from_int(1);
        let f45 = Rat::from_int(45);
        proof {
            lemma_cmp_bounds(self.zoom@, frac_int(1), ZOOM_NUM as int, COORD_DEN as int, 45, 1);
            lemma_cmp_bounds(self.zoom@, frac_int(45), ZOOM_NUM as int, COORD_DEN as int, 45, 1);
            lemma_add_bounds(self.zoom@, yoffset@, ZOOM_NUM as int, COORD_DEN as int,
                OFF_NUM as int, COORD_DEN as int);
        }
        if one.le(&self.zoom) && self.zoom.le(&f45) {
            let stepped = self.zoom.sub(yoffset);
            proof {
                lemma_le_int_of_bounds(stepped@, 0x10400000);
                lemma_snap_range(stepped@, -0x10400000, 0x10400000, COORD_DEN as int);
            }
            self.zoom = stepped.snap(COORD_DEN);
        }
        proof {
            lemma_cmp_bounds(self.zoom@, frac_int(1), 0x2000000000, 0x100, 45, 1);
            lemma_cmp_bounds(self.zoom@, frac_int(45), 0x2000000000, 0x100, 45, 1);
        }
        if self.zoom.le(&one) {
            self.zoom = one;
        }
        if f45.le(&self.zoom) {
            self.zoom = f45;
        }
    }
}

impl Default for Camera {
    /// The starting camera of the scene: at the origin, looking down the
    /// negative z axis, yaw 45, pitch 0, speed 80, sensitivity 1/10,
    /// zoom 45. The renderer derives the basis vectors from the angles
    /// before the first frame via `setCameraVectors`.
    fn default() -> (r: Camera)
        ensures
            r.wf(),
            r.position@.x == frac_int(0) && r.position@.y == frac_int(0) && r.position@.z
                == frac_int(0),
            r.front@.x == frac_int(0) && r.front@.y == frac_int(0) && r.front@.z == frac_int(-1),
            r.up@.x == frac_int(0) && r.up@.y == frac_int(0) && r.up@.z == frac_int(0),
            r.right@.x == frac_int(0) && r.right@.y == frac_int(0) && r.right@.z == frac_int(0),
            r.worldUp@.x == frac_int(0) && r.worldUp@.y == frac_int(1) && r.worldUp@.z == frac_int(
                0,
            ),
            r.yaw@ == frac_int(45),
            r.pitch@ == frac_int(0),
            r.movementSpeed@ == frac_int(80),
            r.mouseSensitivity@ == (Frac { n: 1, d: 10 }),
            r.zoom@ == frac_int(45),
    {
        Camera {
            position: Vector3::zero(),
            front: Vector3::new(Rat::zero(), Rat::zero(), Rat::from_int(-1)),
            up: Vector3::zero(),
            right: Vector3::zero(),
            worldUp: Vector3::new(Rat::zero(), Rat::from_int(1), Rat::zero()),
            yaw: Rat::from_int(45),
            pitch: Rat::zero(),
            movementSpeed: Rat::from_int(80),
            mouseSensitivity: Rat::new(1, 10),
            zoom: Rat::from_int(45),
        }
    }
}

/// Steps one camera position component along a basis component scaled by
/// the velocity, with the world clamp and the grid rounding.
fn cam_axis(p: &Rat, axis: &Rat, vel: &Rat, forward: bool) -> (r: Rat)
    requires
        frac_bounded(p@, CAM_POS_NUM as int, COORD_DEN as int),
        frac_bounded(axis@, BASIS_NUM as int, COORD_DEN as int),
        frac_bounded(vel@, 0x100000000, 0x10000),
    ensures
        r@ == cam_moved(p@, if forward {
            frac_mul(axis@, vel@)
        } else {
            frac_neg(frac_mul(axis@, vel@))
        }),
        frac_bounded(r@, CAM_POS_NUM as int, COORD_DEN as int),
{
    proof {
        lemma_mul_bounds(axis@, vel@, BASIS_NUM as int, COORD_DEN as int, 0x100000000, 0x10000);
        lemma_add_bounds(p@, frac_mul(axis@, vel@), CAM_POS_NUM as int, COORD_DEN as int,
            0x10000000000, 0x1000000);
        lemma_add_bounds(p@, frac_neg(frac_mul(axis@, vel@)), CAM_POS_NUM as int,
            COORD_DEN as int, 0x10000000000, 0x1000000);
    }
    let delta = if forward {
        axis.mul(vel)
    } else {
        axis.mul(vel).neg()
    };
    let raw = p.add(&delta);
    proof {
        lemma_cmp_bounds(raw@, frac_int(-WORLD_LIMIT as int), 0x200000000000000, 0x100000000,
            WORLD_LIMIT as int, 1);
        lemma_cmp_bounds(frac_max(raw@, frac_int(-WORLD_LIMIT as int)),
            frac_int(WORLD_LIMIT as int), 0x200000000000000, 0x100000000, WORLD_LIMIT as int, 1);
        lemma_snap_range(
            frac_clamp(raw@, frac_int(-WORLD_LIMIT as int), frac_int(WORLD_LIMIT as int)),
            -WORLD_LIMIT as int,
            WORLD_LIMIT as int,
            COORD_DEN as int,
        );
    }
    let clamped = raw.max(&Rat::from_int(-WORLD_LIMIT)).min(&Rat::from_int(WORLD_LIMIT));
    clamped.snap(COORD_DEN)
}

/// Steps an angle by a scaled offset, snaps it to the angle grid, and
/// reduces it modulo a full turn.
fn angle_step(a: &Rat, delta: &Rat) -> (r: Rat)
    requires
        angle_wf(a@),
        frac_bounded(delta@, 0x100000000, 0x10000),
    ensures
        r@ == angle_moved(a@, delta@),
        angle_wf(r@),
{
    proof {
        lemma_add_bounds(a@, delta@, ANGLE_NUM as int, COORD_DEN as int, 0x100000000, 0x10000);
        lemma_le_int_of_bounds(frac_add(a@, delta@), 0x20000000000);
        lemma_snap_range(frac_add(a@, delta@), -0x20000000000, 0x20000000000, COORD_DEN as int);
    }
    let snapped = a.add(delta).snap(COORD_DEN);
    proof {
        lemma_mod_division_less_than_divisor(snapped@.n, TURN_NUM as int);
    }
    let m = snapped.num.checked_rem_euclid(TURN_NUM).unwrap();
    Rat { num: m, den: snapped.den }
}

/// A bounded rational value lies between the integers that bound its
/// numerator-over-denominator ratio.
proof fn lemma_le_int_of_bounds(a: Frac, k: int)
    by (nonlinear_arith)
    requires
        frac_wf(a),
        k >= 0,
        -k <= a.n <= k,
    ensures
        frac_le(frac_int(-k), a),
        frac_le(a, frac_int(k)),
{
}

/// The pitch clamp law: however large the applied offset, a constrained
/// pitch update never leaves `[-89, 89]` degrees; an update whose raw
/// result would reach or exceed 89 degrees pins the pitch at exactly 89,
/// and symmetrically at -89.
pub proof fn lemma_pitch_clamp(p: Frac, delta: Frac)
    requires
        frac_wf(p),
        frac_wf(delta),
    ensures
        ({
            let r = pitch_moved_clamped(p, delta);
            &&& frac_le(frac_int(-89), r)
            &&& frac_le(r, frac_int(89))
            &&& frac_le(frac_int(89), frac_add(p, delta)) ==> frac_eq(r, frac_int(89))
            &&& frac_le(frac_add(p, delta), frac_int(-89)) ==> frac_eq(r, frac_int(-89))
        }),
{
    let raw = frac_add(p, delta);
    let s = frac_snap(raw, COORD_DEN as int);
    let r = pitch_moved_clamped(p, delta);
    crate::rat::lemma_den_product(p.d, delta.d);
    if frac_le(frac_int(89), raw) {
        crate::rat::lemma_snap_lower(raw, 89, COORD_DEN as int);
    }
    if frac_le(raw, frac_int(-89)) {
        crate::rat::lemma_snap_upper(raw, -89, COORD_DEN as int);
    }
}

/// Steps the pitch by a scaled offset, snaps it to the angle grid, and
/// clamps it into `[-89, 89]` degrees.
fn pitch_step_clamped(a: &Rat, delta: &Rat) -> (r: Rat)
    requires
        angle_wf(a@),
        frac_bounded(delta@, 0x100000000, 0x10000),
    ensures
        r@ == pitch_moved_clamped(a@, delta@),
        angle_wf(r@),
{
    proof {
        lemma_add_bounds(a@, delta@, ANGLE_NUM as int, COORD_DEN as int, 0x100000000, 0x10000);
        lemma_le_int_of_bounds(frac_add(a@, delta@), 0x20000000000);
        lemma_snap_range(frac_add(a@, delta@), -0x20000000000, 0x20000000000, COORD_DEN as int);
    }
    let snapped = a.add(delta).snap(COORD_DEN);
    proof {
        lemma_cmp_bounds(snapped@, frac_int(-89), 0x2000000000000, 0x100, 89, 1);
        lemma_cmp_bounds(frac_max(snapped@, frac_int(-89)), frac_int(89), 0x2000000000000, 0x100,
            89, 1);
    }
    snapped.max(&Rat::from_int(-89)).min(&Rat::from_int(89))
}

} // verus!
