//! The scene: an ordered collection of surfaces searched for the nearest hit.

use crate::fixed::{fx_mul, lemma_fx_mul_bound, FX_ONE};
use crate::hittable::{
    hittable_geom, hittable_material, hittable_wf, lemma_hittable_narrow, normal_wf, HitRecord,
    Hittable,
};
use crate::interval::Interval;
use crate::material::{material_wf, scatter_ok, Dielectric, Lambertian, Material, Metal};
use crate::ray::{ray_wf, Ray, POS_MAX, T_MAX};
use crate::rng::{random_double, random_double_range};
use crate::sphere::Sphere;
use crate::vec3::{bounded, lemma_dot_bounds, len_fx, minus_of, view3, Vec3};
use vstd::prelude::*;

verus! {

/// An ordered, read-only collection of surfaces.
pub struct HittableList {
    pub objects: Vec<Hittable>,
}

/// Every member of the scene is intersectable.
pub open spec fn list_wf(l: HittableList) -> bool {
    forall|i: int| 0 <= i < l.objects@.len() ==> hittable_wf(#[trigger] l.objects@[i])
}

impl HittableList {
    /// An empty scene.
    pub fn new() -> (r: HittableList)
        ensures
            r.objects@.len() == 0,
    {
        HittableList { objects: Vec::new() }
    }

    /// Appends a surface; the scene keeps its order.
    pub fn push(&mut self, object: Hittable)
        ensures
            final (self).objects@ == old(self).objects@.push(object),
    {
        self.objects.push(object);
    }

    /// The nearest-hit search: each member is queried with the interval
    /// narrowed to the closest hit so far, so the returned record, if any,
    /// is a member's hit whose `t` is no greater than any member's hit in
    /// the full interval, and a `None` means no member intersects at all.
    pub fn hit(&self, ray: &Ray, interval: Interval) -> (r: Option<HitRecord>)
        requires
            list_wf(*self),
            ray_wf(*ray),
            0 <= interval.min,
            interval.max <= T_MAX,
        ensures
            match r {
                Option::None => forall|j: int|
                    0 <= j < self.objects@.len() ==> hittable_geom(
                        #[trigger] self.objects@[j],
                        *ray,
                        interval.min as int,
                        interval.max as int,
                    ) is None,
                Option::Some(hr) => {
                    &&& interval.min < hr.t < interval.max
                    &&& bounded(hr.point, POS_MAX as int)
                    &&& normal_wf(hr.normal)
                    &&& exists|i: int|
                        0 <= i < self.objects@.len() && hittable_geom(
                            #[trigger] self.objects@[i],
                            *ray,
                            interval.min as int,
                            interval.max as int,
                        ) == Option::Some(
                            (hr.t as int, view3(hr.point), view3(hr.normal), hr.front_face),
                        ) && scatter_ok(
                            hittable_material(self.objects@[i]),
                            *ray,
                            hr.point,
                            hr.normal,
                            hr.front_face,
                            hr.scatter_result,
                        )
                    &&& forall|j: int|
                        0 <= j < self.objects@.len() ==> (hittable_geom(
                            #[trigger] self.objects@[j],
                            *ray,
                            interval.min as int,
                            interval.max as int,
                        ) is Some ==> hr.t <= hittable_geom(
                            self.objects@[j],
                            *ray,
                            interval.min as int,
                            interval.max as int,
                        )->Some_0.0)
                },
            },
    {
        let mut closest_so_far: i64 = interval.max;
        let mut hit_record: Option<HitRecord> = Option::None;
        let mut idx: usize = 0;
        while idx < self.objects.len()
            invariant
                list_wf(*self),
                ray_wf(*ray),
                0 <= interval.min,
                interval.max <= T_MAX,
                0 <= idx <= self.objects@.len(),
                closest_so_far <= interval.max,
                match hit_record {
                    Option::None => closest_so_far == interval.max && forall|j: int|
                        0 <= j < idx ==> hittable_geom(
                            #[trigger] self.objects@[j],
                            *ray,
                            interval.min as int,
                            interval.max as int,
                        ) is None,
                    Option::Some(hr) => {
                        &&& hr.t == closest_so_far
                        &&& interval.min < hr.t < interval.max
                        &&& bounded(hr.point, POS_MAX as int)
                        &&& normal_wf(hr.normal)
                        &&& exists|i: int|
                            0 <= i < idx && hittable_geom(
                                #[trigger] self.objects@[i],
                                *ray,
                                interval.min as int,
                                interval.max as int,
                            ) == Option::Some(
                                (hr.t as int, view3(hr.point), view3(hr.normal), hr.front_face),
                            ) && scatter_ok(
                                hittable_material(self.objects@[i]),
                                *ray,
                                hr.point,
                                hr.normal,
                                hr.front_face,
                                hr.scatter_result,
                            )
                        &&& forall|j: int|
                            0 <= j < idx ==> (hittable_geom(
                                #[trigger] self.objects@[j],
                                *ray,
                                interval.min as int,
                                interval.max as int,
                            ) is Some ==> hr.t <= hittable_geom(
                                self.objects@[j],
                                *ray,
                                interval.min as int,
                                interval.max as int,
                            )->Some_0.0)
                    },
                },
            decreases self.objects@.len() - idx,
        {
            let object = &self.objects[idx];
            let res = object.hit(ray, Interval::new(interval.min, closest_so_far));
            proof {
                lemma_hittable_narrow(
                    self.objects@[idx as int],
                    *ray,
                    interval.min as int,
                    closest_so_far as int,
                    interval.max as int,
                );
            }
            match res {
                Option::Some(record) => {
                    closest_so_far = record.t;
                    hit_record = Option::Some(record);
                },
                Option::None => {},
            }
            idx = idx + 1;
        }
        hit_record
    }
}


/// The huge diffuse ground sphere the default scene rests on.
pub open spec fn ground_sphere() -> Hittable {
    Hittable::Sphere(
        Sphere {
            center: Vec3 { x: 0, y: -65536000i64, z: 0 },
            radius: 65536000,
            material: Material::Lambertian(
                Lambertian { albedo: Vec3 { x: 32768, y: 32768, z: 32768 } },
            ),
        },
    )
}

/// The central glass feature sphere.
pub open spec fn glass_feature() -> Hittable {
    Hittable::Sphere(
        Sphere {
            center: Vec3 { x: 0, y: FX_ONE, z: 0 },
            radius: FX_ONE,
            material: Material::Dielectric(Dielectric { refraction_index: 98304 }),
        },
    )
}

/// The brown diffuse feature sphere.
pub open spec fn diffuse_feature() -> Hittable {
    Hittable::Sphere(
        Sphere {
            center: Vec3 { x: -262144i64, y: FX_ONE, z: 0 },
            radius: FX_ONE,
            material: Material::Lambertian(
                Lambertian { albedo: Vec3 { x: 26214, y: 13107, z: 6554 } },
            ),
        },
    )
}

/// The polished metal feature sphere.
pub open spec fn metal_feature() -> Hittable {
    Hittable::Sphere(
        Sphere {
            center: Vec3 { x: 262144, y: FX_ONE, z: 0 },
            radius: FX_ONE,
            material: Material::Metal(
                Metal { albedo: Vec3 { x: 45875, y: 39322, z: 32768 }, fuzz: 0 },
            ),
        },
    )
}

/// What every randomly placed grid sphere satisfies: a small radius, a
/// center resting on the ground within the grid, clearance from the metal
/// feature sphere's spot, and a well-formed material.
pub open spec fn grid_sphere_ok(h: Hittable) -> bool {
    match h {
        Hittable::Sphere(s) => {
            &&& 0 <= s.radius <= 19660
            &&& s.center.y == s.radius
            &&& -655360 <= s.center.x <= 655360
            &&& -655360 <= s.center.z <= 655360
            &&& len_fx(minus_of(s.center, Vec3 { x: 262144, y: 13107, z: 0 })) > 58982
            &&& material_wf(s.material)
        },
    }
}

/// Builds the default scene: the ground sphere first, then a grid of small
/// randomly placed and randomly shaded spheres, then the three feature
/// spheres of glass, diffuse and polished metal, in that order.
pub fn initialize_world() -> (r: HittableList)
    ensures
        list_wf(r),
        4 <= r.objects@.len() <= 328,
        r.objects@[0] == ground_sphere(),
        r.objects@[r.objects@.len() - 3] == glass_feature(),
        r.objects@[r.objects@.len() - 2] == diffuse_feature(),
        r.objects@[r.objects@.len() - 1] == metal_feature(),
        forall|k: int| 1 <= k < r.objects@.len() - 3 ==> grid_sphere_ok(#[trigger] r.objects@[k]),
{
    let mut world = HittableList::new();

    let ground_material = Material::Lambertian(Lambertian::new(Vec3::new(32768, 32768, 32768)));
    world.push(
        Hittable::Sphere(Sphere::new(Vec3::new(0, -65536000, 0), 65536000, ground_material)),
    );

    let mut i: i64 = -9;
    while i < 9
        invariant
            list_wf(world),
            1 <= world.objects@.len() <= 1 + (i + 9) * 18,
            world.objects@[0] == ground_sphere(),
            forall|k: int|
                1 <= k < world.objects@.len() ==> grid_sphere_ok(#[trigger] world.objects@[k]),
            -9 <= i <= 9,
        decreases 9 - i,
    {
        let mut j: i64 = -9;
        while j < 9
            invariant
                list_wf(world),
                1 <= world.objects@.len() <= 1 + (i + 9) * 18 + (j + 9),
                world.objects@[0] == ground_sphere(),
                forall|k: int|
                    1 <= k < world.objects@.len() ==> grid_sphere_ok(#[trigger] world.objects@[k]),
                -9 <= i <= 8,
                -9 <= j <= 9,
            decreases 9 - j,
        {
            let radius = random_double_range(0, 19660);
            let choose_mat = random_double();
            let center = Vec3::new(
                i * FX_ONE + fx_mul(58982, random_double()),
                radius,
                j * FX_ONE + fx_mul(58982, random_double()),
            );

            let anchor = Vec3::new(262144, 13107, 0);
            let away = center.minus(anchor);
            proof {
                assert(away == minus_of(center, Vec3 { x: 262144, y: 13107, z: 0 }));
                lemma_dot_bounds(away, away, 0x100_0000, 0x100_0000);
            }
            if away.length() > 58982 {
                let sphere_material = if choose_mat < 52429 {
                    let base_a = Vec3::random();
                    let base_b = Vec3::random();
                    proof {
                        lemma_fx_mul_bound(base_a.x as int, base_b.x as int, FX_ONE as int, FX_ONE as int);
                        lemma_fx_mul_bound(base_a.y as int, base_b.y as int, FX_ONE as int, FX_ONE as int);
                        lemma_fx_mul_bound(base_a.z as int, base_b.z as int, FX_ONE as int, FX_ONE as int);
                        assert(base_a.x * base_b.x >= 0 && base_a.y * base_b.y >= 0 && base_a.z
                            * base_b.z >= 0) by (nonlinear_arith)
                            requires
                                base_a.x >= 0 && base_a.y >= 0 && base_a.z >= 0,
                                base_b.x >= 0 && base_b.y >= 0 && base_b.z >= 0,
                        ;
                    }
                    let albedo = base_a.comp_mul(base_b);
                    Material::Lambertian(Lambertian::new(albedo))
                } else if choose_mat < 62259 {
                    let albedo = Vec3::random();
                    let fuzz = fx_mul(32768, random_double());
                    Material::Metal(Metal::new(albedo, fuzz))
                } else {
                    match Dielectric::new(98304) {
                        Result::Ok(glass) => Material::Dielectric(glass),
                        Result::Err(_) => Material::Lambertian(
                            Lambertian::new(Vec3::new(FX_ONE, FX_ONE, FX_ONE)),
                        ),
                    }
                };
                world.push(Hittable::Sphere(Sphere::new(center, radius, sphere_material)));
            }
            j = j + 1;
        }
        i = i + 1;
    }

    match Dielectric::new(98304) {
        Result::Ok(glass) => {
            world.push(
                Hittable::Sphere(
                    Sphere::new(Vec3::new(0, FX_ONE, 0), FX_ONE, Material::Dielectric(glass)),
                ),
            );
        },
        Result::Err(_) => {
            proof {
                assert(false);
            }
        },
    }
    world.push(
        Hittable::Sphere(
            Sphere::new(
                Vec3::new(-262144, FX_ONE, 0),
                FX_ONE,
                Material::Lambertian(Lambertian::new(Vec3::new(26214, 13107, 6554))),
            ),
        ),
    );
    world.push(
        Hittable::Sphere(
            Sphere::new(
                Vec3::new(262144, FX_ONE, 0),
                FX_ONE,
                Material::Metal(Metal::new(Vec3::new(45875, 39322, 32768), 0)),
            ),
        ),
    );
    world
}

} // verus!
