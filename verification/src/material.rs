//! Which way a material sends a ray on, and what the bounce keeps of the
//! light.

use crate::scalar::{lemma_zero_units, Scalar, ZERO_BITS};
use vstd::prelude::*;

verus! {

/// The kinds of surface.
#[derive(Clone, Copy, Debug, PartialEq, Eq, Structural)]
pub enum Material {
    Metal,
    Diffuse,
    Refractive,
}

/// The lobe that the outgoing direction is drawn from.
#[derive(Clone, Copy, Debug, PartialEq, Eq, Structural)]
pub enum Lobe {
    /// Around the surface normal, a unit vector wide.
    Diffuse,
    /// Around the mirror image of the incoming direction, as wide as the
    /// surface is rough.
    Specular,
    /// Around the refracted direction, as wide as the surface is rough.
    Refracted,
}

/// What a bounce keeps of the light.
#[derive(Clone, Copy, Debug, PartialEq, Eq, Structural)]
pub enum Attenuation {
    /// The colour of the material, whatever the angle.
    Tint,
    /// The reflectance at normal incidence, raised towards white as the
    /// angle becomes grazing.
    Fresnel,
}

/// What a surface does with a ray that it sends on.
#[derive(Clone, Copy, Debug, PartialEq, Eq, Structural)]
pub struct Scatter {
    pub attenuation: Attenuation,
    pub lobe: Lobe,
}

/// On which side of a surface a ray travels, and the cosine that the Fresnel
/// term of a refracting surface is taken of.
#[derive(Clone, Copy, Debug, PartialEq, Eq, Structural)]
pub struct Orientation {
    /// The ray runs along the surface normal: it is about to leave the
    /// medium, and meets the surface from within.
    pub inside: bool,
    pub cos_theta: Scalar,
}

impl Material {
    /// The lobe for a Fresnel term and a sample drawn from zero up to one.
    ///
    /// Metal always reflects. A diffuse surface scatters diffusely where the
    /// sample lies above the Fresnel term, and reflects otherwise. A
    /// refracting surface reflects where the Fresnel term lies above the
    /// sample, and refracts otherwise.
    pub open spec fn spec_lobe(self, fresnel: Scalar, sample: Scalar) -> Lobe {
        match self {
            Material::Metal => Lobe::Specular,
            Material::Diffuse => if fresnel.spec_lt(sample) {
                Lobe::Diffuse
            } else {
                Lobe::Specular
            },
            Material::Refractive => if sample.spec_lt(fresnel) {
                Lobe::Specular
            } else {
                Lobe::Refracted
            },
        }
    }

    /// What a bounce off the material keeps of the light: metal its Fresnel
    /// reflectance, the other kinds their colour.
    pub open spec fn spec_attenuation(self) -> Attenuation {
        match self {
            Material::Metal => Attenuation::Fresnel,
            Material::Diffuse => Attenuation::Tint,
            Material::Refractive => Attenuation::Tint,
        }
    }

    /// What the material does with a ray, for a Fresnel term and a sample
    /// drawn from zero up to one. None of the three kinds swallows a ray.
    pub open spec fn spec_scatter(self, fresnel: Scalar, sample: Scalar) -> Option<Scatter> {
        Some(
            Scatter {
                attenuation: self.spec_attenuation(),
                lobe: self.spec_lobe(fresnel, sample),
            },
        )
    }

    /// What the material does with a ray: what the bounce keeps of the
    /// light and the lobe that the outgoing direction is drawn from, or
    /// nothing where the ray is swallowed.
    pub fn scatter(&self, fresnel: Scalar, sample: Scalar) -> (r: Option<Scatter>)
        ensures
            r == self.spec_scatter(fresnel, sample),
    {
        match self {
            Material::Metal => Some(
                Scatter { attenuation: Attenuation::Fresnel, lobe: Lobe::Specular },
            ),
            Material::Diffuse => {
                let lobe = if fresnel.lt(sample) {
                    Lobe::Diffuse
                } else {
                    Lobe::Specular
                };
                Some(Scatter { attenuation: Attenuation::Tint, lobe })
            },
            Material::Refractive => {
                let lobe = if sample.lt(fresnel) {
                    Lobe::Specular
                } else {
                    Lobe::Refracted
                };
                Some(Scatter { attenuation: Attenuation::Tint, lobe })
            },
        }
    }
}

/// The side of a refracting surface that a ray meets.
///
/// The ray is inside where the dot product of its direction and the surface
/// normal is above zero; the cosine is then kept. Everywhere else the ray
/// comes from outside and the cosine changes its sign.
pub open spec fn spec_orient(direction_dot_normal: Scalar, cos_theta: Scalar) -> Orientation {
    if (Scalar { bits: ZERO_BITS }).spec_lt(direction_dot_normal) {
        Orientation { inside: true, cos_theta }
    } else {
        Orientation { inside: false, cos_theta: cos_theta.spec_neg() }
    }
}

/// Tells on which side of a refracting surface a ray travels.
pub fn orient(direction_dot_normal: Scalar, cos_theta: Scalar) -> (r: Orientation)
    ensures
        r == spec_orient(direction_dot_normal, cos_theta),
        r.inside <==> !direction_dot_normal.is_nan() && direction_dot_normal.units() > 0,
{
    proof {
        lemma_zero_units();
    }
    if Scalar::zero().lt(direction_dot_normal) {
        Orientation { inside: true, cos_theta }
    } else {
        Orientation { inside: false, cos_theta: cos_theta.neg() }
    }
}

} // verus!
