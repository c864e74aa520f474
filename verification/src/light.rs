//! A point light: position, colour scaled by brightness, attenuation.

use vstd::prelude::*;

use crate::rat::{Rat, frac_mul, frac_bounded, lemma_mul_bounds};
use crate::types::Vector3;

verus! {

/// Largest numerator magnitude of a colour channel or brightness value.
pub const LIGHT_NUM: i128 = 0x10000;

/// Largest denominator of a colour channel or brightness value.
pub const LIGHT_DEN: i128 = 0x100;

pub struct Light {
    pub position: Vector3,
    pub colour: Vector3,
    pub attenuation: Vector3,
}

impl Light {
    /// Builds a light whose stored colour is the given colour scaled by
    /// the brightness, channel by channel.
    pub fn new(position: Vector3, colour: Vector3, attenuation: Vector3, brightness: Rat) -> (r:
        Light)
        requires
            colour.bounded(LIGHT_NUM as int, LIGHT_DEN as int),
            frac_bounded(brightness@, LIGHT_NUM as int, LIGHT_DEN as int),
        ensures
            r.position == position,
            r.attenuation == attenuation,
            r.colour@.x == frac_mul(colour@.x, brightness@),
            r.colour@.y == frac_mul(colour@.y, brightness@),
            r.colour@.z == frac_mul(colour@.z, brightness@),
    {
        proof {
            lemma_mul_bounds(colour@.x, brightness@, LIGHT_NUM as int, LIGHT_DEN as int,
                LIGHT_NUM as int, LIGHT_DEN as int);
            lemma_mul_bounds(colour@.y, brightness@, LIGHT_NUM as int, LIGHT_DEN as int,
                LIGHT_NUM as int, LIGHT_DEN as int);
            lemma_mul_bounds(colour@.z, brightness@, LIGHT_NUM as int, LIGHT_DEN as int,
                LIGHT_NUM as int, LIGHT_DEN as int);
        }
        let scaled = Vector3::new(colour.x.mul(&brightness), colour.y.mul(&brightness),
            colour.z.mul(&brightness));
        Light { position, colour: scaled, attenuation }
    }
}

} // verus!
