//! Optical materials and their scatter behaviour.
//!
//! A material answers a hit with an attenuation color and a scattered ray,
//! or signals absorption; the three current variants always scatter. Where a
//! rounded direction would degenerate (too short to normalize, or outside
//! the renderer's direction range) the corrected normal stands in for it, so
//! scattered rays are always traceable.

use crate::color::{color_wf, Color};
use crate::fixed::{
    fx_div, fx_div_spec, fx_mul, fx_mul_spec, fx_sqrt, fx_sqrt_spec, lemma_fx_mul_bound,
    lemma_mul_mag, lemma_sqrt_below, lemma_tdiv_bound, FX_ONE,
};
use crate::hittable::{normal_wf, HitRecord};
use crate::ray::{ray_wf, Ray, DIR_MAX, POS_MAX};
use crate::rng::random_double;
use crate::vec3::{
    bounded, cos_theta_fx, dot3, lemma_dot_bounds, lemma_norm2_from_big_comp, lemma_unit_bounded,
    nearly_unit, norm2, reflect3, refract3, tup_dot3, tup_norm2, unit_of, vec_of, view3, Vec3,
};
use vstd::arithmetic::div_mod::lemma_div_is_ordered_by_denominator;
use vstd::prelude::*;

verus! {

/// A successful scatter: the color filter and the continuation ray.
#[derive(Clone, Copy)]
pub struct ScatterResult {
    pub attenuation: Color,
    pub scattered: Ray,
}

/// Ideal diffuse reflection.
#[derive(Clone, Copy, PartialEq, Eq, Structural, Debug)]
pub struct Lambertian {
    pub albedo: Color,
}

/// Mirror reflection, blurred by a fuzz factor in `[0, 1]`.
#[derive(Clone, Copy, PartialEq, Eq, Structural, Debug)]
pub struct Metal {
    pub albedo: Color,
    pub fuzz: i64,
}

/// A clear medium that refracts or reflects at its boundary.
#[derive(Clone, Copy, PartialEq, Eq, Structural, Debug)]
pub struct Dielectric {
    pub refraction_index: i64,
}

/// The closed set of materials a surface can own; new variants are expected
/// extensions.
#[derive(Clone, Copy, PartialEq, Eq, Structural, Debug)]
pub enum Material {
    Lambertian(Lambertian),
    Metal(Metal),
    Dielectric(Dielectric),
}

/// The smallest and largest representable refraction indices: a quarter and
/// four times, so the refraction ratio stays representable either way the
/// boundary is crossed.
pub const RI_MIN: i64 = 16384;

/// See `RI_MIN`.
pub const RI_MAX: i64 = 262144;

/// A material whose parameters the renderer can work with.
pub open spec fn material_wf(m: Material) -> bool {
    match m {
        Material::Lambertian(l) => color_wf(l.albedo),
        Material::Metal(mt) => color_wf(mt.albedo) && 0 <= mt.fuzz <= FX_ONE,
        Material::Dielectric(d) => RI_MIN <= d.refraction_index <= RI_MAX,
    }
}

/// The attenuation color a material always answers with: its albedo, or
/// white for the non-absorbing dielectric.
pub open spec fn material_attenuation(m: Material) -> Vec3 {
    match m {
        Material::Lambertian(l) => l.albedo,
        Material::Metal(mt) => mt.albedo,
        Material::Dielectric(_) => Vec3 { x: FX_ONE, y: FX_ONE, z: FX_ONE },
    }
}

/// What every scatter outcome satisfies, whatever the random draws were:
/// the ray continues from the hit point, stays traceable, and carries the
/// variant's attenuation.
pub open spec fn scatter_into(m: Material, point: Vec3, sr: Option<ScatterResult>) -> bool {
    match sr {
        Option::Some(s) => {
            &&& s.scattered.origin == point
            &&& ray_wf(s.scattered)
            &&& s.attenuation == material_attenuation(m)
        },
        Option::None => false,
    }
}

/// A candidate scatter direction the renderer can trace as it stands:
/// within the direction range and long enough to normalize.
pub open spec fn dir_usable(d: (int, int, int)) -> bool {
    &&& -(DIR_MAX as int) <= d.0 <= DIR_MAX as int
    &&& -(DIR_MAX as int) <= d.1 <= DIR_MAX as int
    &&& -(DIR_MAX as int) <= d.2 <= DIR_MAX as int
    &&& tup_norm2(d) >= 1
}

/// The ratio of refraction indices along the ray: inverted when entering
/// from outside.
pub open spec fn refraction_ratio_spec(ri: int, front_face: bool) -> int {
    if front_face {
        fx_div_spec(FX_ONE as int, ri)
    } else {
        ri
    }
}

/// The sine of the incidence angle, from its cosine; a negative radicand
/// (possible only for an off-scale normal) is clamped to zero.
pub open spec fn sin_theta_fx(uv: Vec3, n: Vec3) -> int {
    let c = cos_theta_fx(uv, n);
    let rad = FX_ONE - fx_mul_spec(c, c);
    fx_sqrt_spec(
        if rad >= 0 {
            rad
        } else {
            0
        },
    )
}

/// Total internal reflection: the refracted sine would exceed one.
pub open spec fn cannot_refract_spec(uv: Vec3, n: Vec3, ratio: int) -> bool {
    fx_mul_spec(ratio, sin_theta_fx(uv, n)) > FX_ONE
}

/// Everything a scatter outcome guarantees, per variant: `scatter_into`
/// (origin, traceability, the variant's attenuation) and the variant's
/// direction law over its unit sample. A Lambertian scatters along the
/// corrected normal plus a unit sample, never into the surface, with the
/// normal alone as the degenerate fallback. A metal scatters along the
/// re-normalized fuzzed mirror reflection of the unit incoming direction.
/// A dielectric scatters exactly along the mirror reflection or the Snell
/// refraction of the unit incoming direction, stands the normal in only
/// when the computed candidate is untraceable, and never refracts under
/// total internal reflection.
pub open spec fn scatter_ok(
    m: Material,
    incoming: Ray,
    point: Vec3,
    normal: Vec3,
    front_face: bool,
    sr: Option<ScatterResult>,
) -> bool {
    &&& scatter_into(m, point, sr)
    &&& (m matches Material::Lambertian(l) ==> sr matches Option::Some(s) ==> exists|u: Vec3|
        #[trigger] nearly_unit(u) && {
            let dx = normal.x + u.x;
            let dy = normal.y + u.y;
            let dz = normal.z + u.z;
            if -256 < dx < 256 && -256 < dy < 256 && -256 < dz < 256 {
                s.scattered.direction == normal
            } else if tup_dot3((dx, dy, dz), view3(normal)) < 0 {
                s.scattered.direction == normal
            } else {
                view3(s.scattered.direction) == (dx, dy, dz)
            }
        })
    &&& (m matches Material::Lambertian(l) ==> sr matches Option::Some(s) ==> dot3(
        s.scattered.direction,
        normal,
    ) >= 0)
    &&& (m matches Material::Metal(mt) ==> sr matches Option::Some(s) ==> exists|u: Vec3|
        #[trigger] nearly_unit(u) && {
            let refl = reflect3(unit_of(incoming.direction), normal);
            let sd = (
                refl.0 + fx_mul_spec(u.x as int, mt.fuzz as int),
                refl.1 + fx_mul_spec(u.y as int, mt.fuzz as int),
                refl.2 + fx_mul_spec(u.z as int, mt.fuzz as int),
            );
            let d0 = if tup_norm2(sd) >= 1 {
                unit_of(vec_of(sd))
            } else {
                normal
            };
            s.scattered.direction == (if norm2(d0) >= 1 {
                d0
            } else {
                normal
            })
        })
    &&& (m matches Material::Dielectric(d) ==> sr matches Option::Some(s) ==> {
        let u = unit_of(incoming.direction);
        let ratio = refraction_ratio_spec(d.refraction_index as int, front_face);
        ||| view3(s.scattered.direction) == reflect3(u, normal)
        ||| view3(s.scattered.direction) == refract3(u, normal, ratio) && !cannot_refract_spec(
            u,
            normal,
            ratio,
        )
        ||| s.scattered.direction == normal && (!dir_usable(reflect3(u, normal)) || (!dir_usable(
            refract3(u, normal, ratio),
        ) && !cannot_refract_spec(u, normal, ratio)))
    })
}

/// Schlick's reflectance approximation.
pub open spec fn reflectance_spec(cosine: int, refraction_index: int) -> int {
    let r0a = fx_div_spec(FX_ONE - refraction_index, FX_ONE + refraction_index);
    let r0 = fx_mul_spec(r0a, r0a);
    let omc = FX_ONE - cosine;
    let p2 = fx_mul_spec(omc, omc);
    let p4 = fx_mul_spec(p2, p2);
    let p5 = fx_mul_spec(p4, omc);
    r0 + fx_mul_spec(FX_ONE - r0, p5)
}

impl Lambertian {
    /// A diffuse material with the given albedo.
    pub fn new(albedo: Color) -> (r: Self)
        ensures
            r.albedo == albedo,
    {
        Lambertian { albedo }
    }
}

impl Metal {
    /// A metal with the given albedo; fuzz is clamped into `[0, 1]`.
    pub fn new(albedo: Color, fuzz: i64) -> (r: Self)
        ensures
            r.albedo == albedo,
            r.fuzz == (if fuzz < 0 {
                0
            } else if fuzz > FX_ONE {
                FX_ONE as int
            } else {
                fuzz as int
            }),
    {
        let f = if fuzz < 0 {
            0
        } else if fuzz > FX_ONE {
            FX_ONE
        } else {
            fuzz
        };
        Metal { albedo, fuzz: f }
    }
}

impl Dielectric {
    /// A dielectric with the given refraction index. A non-positive index
    /// is malformed configuration and rejected; so is one outside the
    /// representable ratio range.
    pub fn new(refraction_index: i64) -> (r: Result<Self, crate::ConfigError>)
        ensures
            RI_MIN <= refraction_index <= RI_MAX <==> r is Ok,
            r is Ok ==> r->Ok_0.refraction_index == refraction_index,
            refraction_index <= 0 ==> r == Result::<Dielectric, crate::ConfigError>::Err(
                crate::ConfigError::NonPositiveRefractionIndex,
            ),
            (0 < refraction_index < RI_MIN || refraction_index > RI_MAX) ==> r == Result::<
                Dielectric,
                crate::ConfigError,
            >::Err(crate::ConfigError::ParameterOutOfRange),
    {
        if refraction_index <= 0 {
            Result::Err(crate::ConfigError::NonPositiveRefractionIndex)
        } else if refraction_index < RI_MIN || refraction_index > RI_MAX {
            Result::Err(crate::ConfigError::ParameterOutOfRange)
        } else {
            Result::Ok(Dielectric { refraction_index })
        }
    }

    /// Schlick's approximation for reflectance at the boundary.
    pub fn reflectance(cosine: i64, refraction_index: i64) -> (r: i64)
        requires
            -16 * (FX_ONE as int) <= cosine <= 16 * (FX_ONE as int),
            RI_MIN <= refraction_index <= RI_MAX,
        ensures
            r == reflectance_spec(cosine as int, refraction_index as int),
    {
        let num = FX_ONE - refraction_index;
        let den = FX_ONE + refraction_index;
        proof {
            lemma_tdiv_bound(num * (FX_ONE as int), den as int, 0x3_0000_0000);
            lemma_div_is_ordered_by_denominator(0x3_0000_0000, 0x1_4000, den as int);
        }
        let r0a = fx_div(num, den);
        proof {
            lemma_mul_mag(r0a as int, r0a as int, 0x3_0000, 0x3_0000);
            lemma_fx_mul_bound(r0a as int, r0a as int, 0x3_0000, 0x3_0000);
        }
        let r0 = fx_mul(r0a, r0a);
        let omc = FX_ONE - cosine;
        proof {
            lemma_mul_mag(omc as int, omc as int, 0x11_0000, 0x11_0000);
            lemma_fx_mul_bound(omc as int, omc as int, 0x11_0000, 0x11_0000);
        }
        let p2 = fx_mul(omc, omc);
        proof {
            lemma_mul_mag(p2 as int, p2 as int, 0x121_0000, 0x121_0000);
            lemma_fx_mul_bound(p2 as int, p2 as int, 0x121_0000, 0x121_0000);
        }
        let p4 = fx_mul(p2, p2);
        proof {
            lemma_mul_mag(p4 as int, omc as int, 0x1_4661_0000, 0x11_0000);
            lemma_fx_mul_bound(p4 as int, omc as int, 0x1_4661_0000, 0x11_0000);
        }
        let p5 = fx_mul(p4, omc);
        proof {
            lemma_mul_mag(FX_ONE - r0 as int, p5 as int, 0xA_0000, 0x15_C291_0000);
            lemma_fx_mul_bound(FX_ONE - r0 as int, p5 as int, 0xA_0000, 0x15_C291_0000);
        }
        let t = fx_mul(FX_ONE - r0, p5);
        r0 + t
    }
}

impl Material {
    /// Produces the material's response to a hit: an attenuation and a
    /// scattered ray. Every outcome satisfies `scatter_into`, and each
    /// variant's direction is pinned over its unit sample. A Lambertian
    /// scatters along the corrected normal plus a unit sample, never into
    /// the surface, with the normal alone as the fallback when the sum
    /// degenerates. A metal scatters along the re-normalized fuzzed mirror
    /// reflection of the unit incoming direction. A dielectric scatters
    /// exactly along the mirror reflection or the Snell refraction of the
    /// unit incoming direction, and may stand the normal in only when the
    /// computed candidate is untraceable; under total internal reflection
    /// refraction is never chosen.
    pub fn scatter(&self, ray: &Ray, hit_record: &HitRecord) -> (r: Option<ScatterResult>)
        requires
            ray_wf(*ray),
            bounded(hit_record.point, POS_MAX as int),
            normal_wf(hit_record.normal),
            material_wf(*self),
        ensures
            scatter_ok(
                *self,
                *ray,
                hit_record.point,
                hit_record.normal,
                hit_record.front_face,
                r,
            ),
    {
        match self {
            Material::Lambertian(l) => {
                let ru = Vec3::random_unit_vector();
                let randomized_direction = hit_record.normal.plus(ru);
                let scatter_direction = if randomized_direction.near_zero() {
                    hit_record.normal
                } else {
                    proof {
                        lemma_norm2_from_big_comp(randomized_direction);
                        lemma_dot_bounds(randomized_direction, hit_record.normal, 0x4_0000, 0x2_0000);
                    }
                    let toward = randomized_direction.dot(hit_record.normal);
                    if toward < 0 {
                        hit_record.normal
                    } else {
                        randomized_direction
                    }
                };
                let scattered = Ray::new(hit_record.point, scatter_direction);
                proof {
                    assert(nearly_unit(ru));
                }
                Option::Some(ScatterResult { attenuation: l.albedo, scattered })
            },
            Material::Metal(mt) => {
                proof {
                    lemma_dot_bounds(ray.direction, ray.direction, DIR_MAX as int, DIR_MAX as int);
                    lemma_unit_bounded(ray.direction);
                }
                let unit_dir = ray.direction().unit_vector();
                let reflected = Vec3::reflect(unit_dir, hit_record.normal);
                let ru = Vec3::random_unit_vector();
                proof {
                    lemma_mul_mag(ru.x as int, mt.fuzz as int, 0x1_0040, 0x1_0000);
                    lemma_mul_mag(ru.y as int, mt.fuzz as int, 0x1_0040, 0x1_0000);
                    lemma_mul_mag(ru.z as int, mt.fuzz as int, 0x1_0040, 0x1_0000);
                    lemma_fx_mul_bound(ru.x as int, mt.fuzz as int, 0x1_0040, 0x1_0000);
                    lemma_fx_mul_bound(ru.y as int, mt.fuzz as int, 0x1_0040, 0x1_0000);
                    lemma_fx_mul_bound(ru.z as int, mt.fuzz as int, 0x1_0040, 0x1_0000);
                }
                let fuzzed = ru.scaled(mt.fuzz);
                let scattered_direction = reflected.plus(fuzzed);
                proof {
                    assert(unit_dir == unit_of(ray.direction));
                    assert(scattered_direction == vec_of(
                        (
                            reflect3(unit_of(ray.direction), hit_record.normal).0 + fx_mul_spec(
                                ru.x as int,
                                mt.fuzz as int,
                            ),
                            reflect3(unit_of(ray.direction), hit_record.normal).1 + fx_mul_spec(
                                ru.y as int,
                                mt.fuzz as int,
                            ),
                            reflect3(unit_of(ray.direction), hit_record.normal).2 + fx_mul_spec(
                                ru.z as int,
                                mt.fuzz as int,
                            ),
                        ),
                    ));
                    lemma_dot_bounds(scattered_direction, scattered_direction, 0x340_0000, 0x340_0000);
                }
                let sd2 = scattered_direction.length_squared();
                let dir0 = if sd2 >= 1 {
                    proof {
                        lemma_unit_bounded(scattered_direction);
                    }
                    scattered_direction.unit_vector()
                } else {
                    hit_record.normal
                };
                proof {
                    lemma_dot_bounds(dir0, dir0, 0x2_0000, 0x2_0000);
                }
                let d02 = dir0.length_squared();
                let dir = if d02 >= 1 {
                    dir0
                } else {
                    hit_record.normal
                };
                let scattered = Ray::new(hit_record.point, dir);
                proof {
                    assert(nearly_unit(ru));
                }
                Option::Some(ScatterResult { attenuation: mt.albedo, scattered })
            },
            Material::Dielectric(d) => {
                let attenuation = Vec3::new(FX_ONE, FX_ONE, FX_ONE);
                let refraction_ratio = if hit_record.front_face {
                    proof {
                        lemma_tdiv_bound(
                            (FX_ONE as int) * (FX_ONE as int),
                            d.refraction_index as int,
                            0x1_0000_0000,
                        );
                        lemma_div_is_ordered_by_denominator(
                            0x1_0000_0000,
                            d.refraction_index as int,
                            0x4_0000,
                        );
                        lemma_div_is_ordered_by_denominator(
                            0x1_0000_0000,
                            0x4000,
                            d.refraction_index as int,
                        );
                    }
                    fx_div(FX_ONE, d.refraction_index)
                } else {
                    d.refraction_index
                };
                proof {
                    lemma_dot_bounds(ray.direction, ray.direction, DIR_MAX as int, DIR_MAX as int);
                    lemma_unit_bounded(ray.direction);
                }
                let unit_direction = ray.direction().unit_vector();
                proof {
                    assert(unit_direction == unit_of(ray.direction));
                    lemma_dot_bounds(unit_direction, hit_record.normal, 0x2_0000, 0x2_0000);
                }
                let dd = unit_direction.dot(hit_record.normal);
                let negd = -dd;
                let cos_theta = if negd < FX_ONE {
                    negd
                } else {
                    FX_ONE
                };
                proof {
                    lemma_mul_mag(cos_theta as int, cos_theta as int, 0xC_0000, 0xC_0000);
                    lemma_fx_mul_bound(cos_theta as int, cos_theta as int, 0xC_0000, 0xC_0000);
                }
                let c2 = fx_mul(cos_theta, cos_theta);
                proof {
                    assert(cos_theta * cos_theta >= 0) by (nonlinear_arith);
                }
                let rad = FX_ONE - c2;
                let radc = if rad >= 0 {
                    rad
                } else {
                    0
                };
                let sin_theta = fx_sqrt(radc);
                proof {
                    lemma_sqrt_below((radc as int) * (FX_ONE as int), FX_ONE + 1);
                    lemma_mul_mag(refraction_ratio as int, sin_theta as int, 0x4_0000, 0x1_0000);
                    lemma_fx_mul_bound(
                        refraction_ratio as int,
                        sin_theta as int,
                        0x4_0000,
                        0x1_0000,
                    );
                }
                let cannot_refract = fx_mul(refraction_ratio, sin_theta) > FX_ONE;
                let direction = if cannot_refract || Dielectric::reflectance(
                    cos_theta,
                    refraction_ratio,
                ) > random_double() {
                    Vec3::reflect(unit_direction, hit_record.normal)
                } else {
                    Vec3::refract(unit_direction, hit_record.normal, refraction_ratio)
                };
                proof {
                    lemma_dot_bounds(direction, direction, 0x340_0000, 0x340_0000);
                }
                let in_range = -DIR_MAX <= direction.x && direction.x <= DIR_MAX && -DIR_MAX
                    <= direction.y && direction.y <= DIR_MAX && -DIR_MAX <= direction.z
                    && direction.z <= DIR_MAX;
                let n2d = direction.length_squared();
                let dir = if in_range && n2d >= 1 {
                    direction
                } else {
                    hit_record.normal
                };
                let scattered = Ray::new(hit_record.point, dir);
                Option::Some(ScatterResult { attenuation, scattered })
            },
        }
    }
}

} // verus!
