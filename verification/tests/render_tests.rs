use raytracer::camera::Camera;
use raytracer::hitable_list::HitableList;
use raytracer::material::Material;
use raytracer::ray::Ray;
use raytracer::render::{
    channel, image_coordinate, pixel_value, radiance, sample, sample_pixel, sky, MAX_DEPTH,
};
use raytracer::sampler::Sampler;
use raytracer::scalar::{Scalar, ONE_RAW};
use raytracer::scene::{
    centrepiece, clear_of_centrepiece, ground, little_center, little_material, little_sphere,
    random_scene, Draws, GRID,
};
use raytracer::sphere::Sphere;
use raytracer::vec3::Vec3;

fn v(x: i32, y: i32, z: i32) -> Vec3 {
    Vec3::new(Scalar::from_int(x), Scalar::from_int(y), Scalar::from_int(z))
}

fn as_f64(s: Scalar) -> f64 {
    s.raw as f64 / ONE_RAW as f64
}

fn grey() -> Material {
    Material::Lambertian { albedo: Vec3::new(Scalar::ratio(1, 2), Scalar::ratio(1, 2), Scalar::ratio(1, 2)) }
}

fn sky_blue() -> Vec3 {
    Vec3::new(Scalar::ratio(1, 2), Scalar::ratio(7, 10), Scalar::from_int(1))
}

fn empty() -> HitableList {
    HitableList::new(Vec::new())
}

fn one_grey_sphere() -> HitableList {
    HitableList::new(vec![Sphere {
        center: v(0, 0, -1),
        radius: Scalar::ratio(1, 2),
        material: grey(),
    }])
}

#[test]
fn sky_straight_up_is_blue() {
    let r = Ray { origin: v(0, 0, 0), direction: v(0, 1, 0) };
    assert_eq!(sky(&r), sky_blue());
}

#[test]
fn sky_straight_down_is_white() {
    let r = Ray { origin: v(0, 0, 0), direction: v(0, -1, 0) };
    assert_eq!(sky(&r), v(1, 1, 1));
}

#[test]
fn sky_at_the_horizon_is_half_way() {
    let r = Ray { origin: v(0, 0, 0), direction: v(3, 0, -4) };
    assert_eq!(
        sky(&r),
        Vec3::new(
            Scalar::ratio(1, 2) + Scalar::ratio(1, 2) * Scalar::ratio(1, 2),
            Scalar::ratio(1, 2) + Scalar::ratio(7, 10) * Scalar::ratio(1, 2),
            Scalar::from_int(1)
        )
    );
}

#[test]
fn sky_does_not_depend_on_the_length_of_the_direction() {
    let a = Ray { origin: v(0, 0, 0), direction: v(0, 7, 0) };
    let b = Ray { origin: v(5, 5, 5), direction: v(0, 1, 0) };
    assert_eq!(sky(&a), sky(&b));
}

#[test]
fn radiance_of_a_ray_that_hits_nothing_is_the_sky() {
    let mut rng = Sampler::seeded(1);
    let up = Ray { origin: v(0, 0, 0), direction: v(0, 1, 0) };
    let down = Ray { origin: v(0, 0, 0), direction: v(0, -1, 0) };
    assert_eq!(radiance(&up, &empty(), 0, &mut rng), sky_blue());
    assert_eq!(radiance(&down, &empty(), 0, &mut rng), v(1, 1, 1));
    let world = one_grey_sphere();
    assert_eq!(radiance(&up, &world, 0, &mut rng), sky_blue());
    assert_eq!(radiance(&down, &world, 0, &mut rng), v(1, 1, 1));
    let aside = Ray { origin: v(0, 0, 0), direction: v(1, 2, -1) };
    assert_eq!(radiance(&aside, &world, 0, &mut rng), sky(&aside));
    assert_eq!(radiance(&aside, &world, MAX_DEPTH, &mut rng), sky(&aside));
}

#[test]
fn radiance_at_the_depth_limit_is_black() {
    let mut rng = Sampler::seeded(2);
    let world = one_grey_sphere();
    let r = Ray { origin: v(0, 0, 0), direction: v(0, 0, -1) };
    assert_eq!(radiance(&r, &world, MAX_DEPTH, &mut rng), v(0, 0, 0));
    assert_eq!(radiance(&r, &world, MAX_DEPTH + 7, &mut rng), v(0, 0, 0));
    assert!(radiance(&r, &world, MAX_DEPTH - 1, &mut rng) != v(0, 0, 0));
}

#[test]
fn radiance_of_an_absorbed_ray_is_black() {
    let mut rng = Sampler::seeded(3);
    // Seen from inside, a metal sphere mirrors every ray into itself.
    let world = HitableList::new(vec![Sphere {
        center: v(0, 0, 0),
        radius: Scalar::from_int(5),
        material: Material::Metal { albedo: v(1, 1, 1), fuzz: Scalar::from_int(0) },
    }]);
    let r = Ray { origin: v(0, 0, 0), direction: v(0, 0, -1) };
    assert_eq!(radiance(&r, &world, 0, &mut rng), v(0, 0, 0));
}

#[test]
fn radiance_in_a_mirror_box_ends_in_black() {
    let mut rng = Sampler::seeded(4);
    // The inward face of a perfect mirror: no ray ever leaves.
    let world = HitableList::new(vec![Sphere {
        center: v(0, 0, 0),
        radius: Scalar::from_int(-5),
        material: Material::Metal { albedo: v(1, 1, 1), fuzz: Scalar::from_int(0) },
    }]);
    let rays = [
        Ray { origin: v(0, 0, 0), direction: v(0, 0, -1) },
        Ray { origin: v(1, 2, 0), direction: v(3, -1, 2) },
        Ray { origin: v(-3, 0, 1), direction: v(0, 1, 0) },
    ];
    for r in rays.iter() {
        assert_eq!(radiance(r, &world, 0, &mut rng), v(0, 0, 0));
        assert_eq!(radiance(r, &world, 49, &mut rng), v(0, 0, 0));
    }
}

#[test]
fn radiance_in_a_box_of_glass_ends_in_black() {
    let mut rng = Sampler::seeded(5);
    let world = HitableList::new(vec![
        Sphere {
            center: v(0, 0, 0),
            radius: Scalar::from_int(-5),
            material: Material::Metal { albedo: v(1, 1, 1), fuzz: Scalar::ratio(1, 10) },
        },
        Sphere {
            center: v(0, 0, 0),
            radius: Scalar::from_int(1),
            material: Material::Dielectric { refraction_index: Scalar::ratio(3, 2) },
        },
    ]);
    let r = Ray { origin: v(0, 0, 3), direction: v(0, 0, -1) };
    for _ in 0..20 {
        assert_eq!(radiance(&r, &world, 0, &mut rng), v(0, 0, 0));
    }
}

#[test]
fn one_bounce_off_a_grey_sphere_halves_the_sky() {
    let mut rng = Sampler::seeded(6);
    let world = one_grey_sphere();
    let r = Ray { origin: v(0, 0, 0), direction: v(0, 0, -1) };
    for _ in 0..200 {
        let c = radiance(&r, &world, 0, &mut rng);
        // Half of a sky colour: red from 0.25 to 0.5, blue always 0.5.
        assert!(c.r().raw >= ONE_RAW / 4 - 4 && c.r().raw <= ONE_RAW / 2);
        assert!(c.g().raw >= (ONE_RAW / 20) * 7 - 4 && c.g().raw <= ONE_RAW / 2);
        assert!(c.b().raw >= ONE_RAW / 2 - 4 && c.b().raw <= ONE_RAW / 2);
    }
}

#[test]
fn grey_sphere_seen_head_on_converges_to_half_the_mean_sky() {
    let mut rng = Sampler::seeded(2024);
    let world = one_grey_sphere();
    let camera = Camera::new(
        &v(0, 0, 0),
        &v(0, 0, -1),
        &v(0, 1, 0),
        Scalar::from_int(90),
        Scalar::from_int(2),
        Scalar::from_int(0),
        Scalar::from_int(1),
    );
    // The pixel in the middle of an image of 201 by 101 looks at the centre
    // of the sphere. The scattered rays all leave the sphere for the sky,
    // as often upward as downward, so the mean is half of the sky at the
    // horizon: (0.375, 0.425, 0.5).
    let col = sample_pixel(&camera, &world, 100, 50, 201, 101, 4000, &mut rng);
    assert!((as_f64(col.r()) - 0.375).abs() < 0.01, "{}", as_f64(col.r()));
    assert!((as_f64(col.g()) - 0.425).abs() < 0.01, "{}", as_f64(col.g()));
    assert!((as_f64(col.b()) - 0.5).abs() < 0.01, "{}", as_f64(col.b()));
    let (r, g, b) = pixel_value(&col);
    assert!((r - 156).abs() <= 3, "{}", r);
    assert!((g - 166).abs() <= 3, "{}", g);
    assert!((b - 181).abs() <= 2, "{}", b);
}

#[test]
fn one_seed_gives_one_image() {
    let world = one_grey_sphere();
    let r = Ray { origin: v(0, 0, 0), direction: v(0, 0, -1) };
    let mut a = Sampler::seeded(77);
    let mut b = Sampler::seeded(77);
    for _ in 0..50 {
        assert_eq!(radiance(&r, &world, 0, &mut a), radiance(&r, &world, 0, &mut b));
    }
}

#[test]
fn image_coordinate_is_index_plus_draw_over_size() {
    assert_eq!(image_coordinate(0, Scalar::from_int(0), 200), Scalar::from_int(0));
    assert_eq!(image_coordinate(100, Scalar::from_int(0), 200), Scalar::ratio(1, 2));
    assert_eq!(image_coordinate(3, Scalar::ratio(1, 2), 7), Scalar::ratio(7, 14));
    assert_eq!(image_coordinate(199, Scalar::from_raw(ONE_RAW - 1), 200).raw, ONE_RAW - 1);
}

#[test]
fn sample_pixel_of_the_sky_is_the_sky() {
    let mut rng = Sampler::seeded(8);
    let camera = Camera::new(
        &v(0, 0, 0),
        &v(0, 1, 0),
        &v(0, 0, 1),
        Scalar::from_int(1),
        Scalar::from_int(1),
        Scalar::from_int(0),
        Scalar::from_int(1),
    );
    // A narrow view straight up: every sample is all but the blue of the zenith.
    let col = sample_pixel(&camera, &empty(), 5, 5, 10, 10, 16, &mut rng);
    assert!((as_f64(col.r()) - 0.5).abs() < 1e-3, "{}", as_f64(col.r()));
    assert!((as_f64(col.g()) - 0.7).abs() < 1e-3, "{}", as_f64(col.g()));
    assert!((as_f64(col.b()) - 1.0).abs() < 1e-3, "{}", as_f64(col.b()));
}

#[test]
fn sample_pixel_without_samples_is_black() {
    let mut rng = Sampler::seeded(9);
    let camera = Camera::new(
        &v(0, 0, 0),
        &v(0, 0, -1),
        &v(0, 1, 0),
        Scalar::from_int(90),
        Scalar::from_int(1),
        Scalar::from_int(0),
        Scalar::from_int(1),
    );
    assert_eq!(sample_pixel(&camera, &empty(), 0, 0, 10, 10, 0, &mut rng), v(0, 0, 0));
    assert_eq!(sample_pixel(&camera, &empty(), 0, 0, 10, 10, -3, &mut rng), v(0, 0, 0));
}

#[test]
fn channel_takes_the_root_and_scales_to_a_byte() {
    assert_eq!(channel(Scalar::from_int(0)), 0);
    assert_eq!(channel(Scalar::from_int(1)), 255);
    assert_eq!(channel(Scalar::ratio(1, 4)), 127);
    assert_eq!(channel(Scalar::ratio(1, 16)), 63);
    assert_eq!(channel(Scalar::from_int(-1)), 0);
    assert_eq!(channel(Scalar::from_int(4)), 511);
}

#[test]
fn pixel_value_maps_each_channel() {
    let col = Vec3::new(Scalar::from_int(1), Scalar::ratio(1, 4), Scalar::from_int(0));
    assert_eq!(pixel_value(&col), (255, 127, 0));
}

#[test]
fn ground_and_centrepieces() {
    let g = ground();
    assert_eq!(g.center, v(0, -1000, 0));
    assert_eq!(g.radius, Scalar::from_int(1000));
    assert_eq!(g.material, grey());
    assert_eq!(centrepiece(0).center, v(0, 1, 0));
    assert_eq!(centrepiece(0).material, Material::Dielectric { refraction_index: Scalar::ratio(3, 2) });
    assert_eq!(centrepiece(1).center, v(-4, 1, 0));
    assert_eq!(
        centrepiece(1).material,
        Material::Lambertian {
            albedo: Vec3::new(Scalar::ratio(2, 5), Scalar::ratio(1, 5), Scalar::ratio(1, 10))
        }
    );
    assert_eq!(centrepiece(2).center, v(4, 1, 0));
    assert_eq!(
        centrepiece(2).material,
        Material::Metal {
            albedo: Vec3::new(Scalar::ratio(7, 10), Scalar::ratio(3, 5), Scalar::ratio(1, 2)),
            fuzz: Scalar::from_int(0)
        }
    );
    for k in 0..3 {
        assert_eq!(centrepiece(k).radius, Scalar::from_int(1));
    }
}

#[test]
fn little_center_lies_in_its_cell() {
    let c = little_center(-3, 7, Scalar::from_int(0), Scalar::ratio(1, 2));
    assert_eq!(c.x(), Scalar::from_int(-3));
    assert_eq!(c.y(), Scalar::ratio(1, 5));
    assert_eq!(c.z(), Scalar::from_int(7) + Scalar::ratio(9, 10) * Scalar::ratio(1, 2));
}

#[test]
fn little_spheres_keep_clear_of_the_metal_centrepiece() {
    let at = |x: Scalar, z: Scalar| Vec3::new(x, Scalar::ratio(1, 5), z);
    assert!(!clear_of_centrepiece(&at(Scalar::from_int(4), Scalar::from_int(0))));
    assert!(!clear_of_centrepiece(&at(Scalar::ratio(9, 2), Scalar::ratio(1, 2))));
    assert!(clear_of_centrepiece(&at(Scalar::from_int(5), Scalar::from_int(0))));
    assert!(clear_of_centrepiece(&at(Scalar::from_int(4), Scalar::from_int(-1))));
}

#[test]
fn little_material_by_choice() {
    let d = Scalar::ratio(1, 2);
    let q = Scalar::ratio(1, 4);
    let diffuse = little_material(Scalar::ratio(79, 100), d, d, d, q, q, q);
    assert_eq!(
        diffuse,
        Material::Lambertian { albedo: Vec3::new(Scalar::ratio(1, 4), Scalar::ratio(1, 8), Scalar::ratio(1, 16)) }
    );
    let metal = little_material(Scalar::ratio(4, 5), d, q, Scalar::from_int(0), d, q, q);
    assert_eq!(
        metal,
        Material::Metal {
            albedo: Vec3::new(Scalar::ratio(3, 4), Scalar::ratio(5, 8), Scalar::ratio(1, 2)),
            fuzz: Scalar::ratio(1, 4)
        }
    );
    let glass = little_material(Scalar::ratio(19, 20), d, d, d, d, d, d);
    assert_eq!(glass, Material::Dielectric { refraction_index: Scalar::ratio(3, 2) });
}

#[test]
fn little_sphere_is_left_out_where_it_is_not_clear() {
    let zero = Scalar::from_int(0);
    let draws = Draws {
        u: zero,
        v: zero,
        choice: Scalar::ratio(99, 100),
        d1: zero,
        d2: zero,
        d3: zero,
        d4: zero,
        d5: zero,
        d6: zero,
    };
    assert_eq!(little_sphere(4, 0, &draws), None);
    let s = little_sphere(-4, 2, &draws).unwrap();
    assert_eq!(s.center, Vec3::new(Scalar::from_int(-4), Scalar::ratio(1, 5), Scalar::from_int(2)));
    assert_eq!(s.radius, Scalar::ratio(1, 5));
    assert_eq!(s.material, Material::Dielectric { refraction_index: Scalar::ratio(3, 2) });
}

#[test]
fn random_scene_has_the_ground_first_and_the_centrepieces_last() {
    let mut rng = Sampler::seeded(31);
    let world = random_scene(&mut rng);
    let n = world.spheres.len();
    assert!(n >= 4);
    assert!(n <= 4 + 4 * (GRID * GRID) as usize);
    assert!(n > 400);
    assert_eq!(world.spheres[0], ground());
    assert_eq!(world.spheres[n - 3], centrepiece(0));
    assert_eq!(world.spheres[n - 2], centrepiece(1));
    assert_eq!(world.spheres[n - 1], centrepiece(2));
    let mut kinds = [0usize; 3];
    for s in world.spheres[1..n - 3].iter() {
        assert_eq!(s.radius, Scalar::ratio(1, 5));
        assert_eq!(s.center.y(), Scalar::ratio(1, 5));
        assert!(s.center.x() >= Scalar::from_int(-GRID));
        assert!(s.center.x() < Scalar::from_int(GRID));
        assert!(s.center.z() >= Scalar::from_int(-GRID));
        assert!(s.center.z() < Scalar::from_int(GRID));
        assert!(clear_of_centrepiece(&s.center));
        match s.material {
            Material::Lambertian { albedo } => {
                assert!(albedo.r() >= Scalar::from_int(0) && albedo.r() < Scalar::from_int(1));
                kinds[0] += 1;
            }
            Material::Metal { albedo, fuzz } => {
                assert!(albedo.r() >= Scalar::ratio(1, 2) && albedo.r() < Scalar::from_int(1));
                assert!(fuzz >= Scalar::from_int(0) && fuzz < Scalar::ratio(1, 2));
                kinds[1] += 1;
            }
            Material::Dielectric { refraction_index } => {
                assert_eq!(refraction_index, Scalar::ratio(3, 2));
                kinds[2] += 1;
            }
        }
    }
    assert!(kinds[0] > kinds[1]);
    assert!(kinds[1] > kinds[2]);
    assert!(kinds[2] > 0);
}

#[test]
fn random_scene_renders() {
    let mut rng = Sampler::seeded(32);
    let world = random_scene(&mut rng);
    let camera = Camera::new(
        &v(13, 2, 3),
        &v(0, 0, 0),
        &v(0, 1, 0),
        Scalar::from_int(20),
        Scalar::ratio(3, 2),
        Scalar::ratio(1, 10),
        Scalar::from_int(10),
    );
    // The lowest row looks at the ground, the highest at the sky.
    let low = sample_pixel(&camera, &world, 15, 0, 30, 20, 8, &mut rng);
    let high = sample_pixel(&camera, &world, 15, 19, 30, 20, 8, &mut rng);
    for c in [low, high] {
        for x in [c.r(), c.g(), c.b()] {
            assert!(x >= Scalar::from_int(0));
            assert!(x <= Scalar::from_int(1));
        }
    }
    assert!(high.b() > Scalar::ratio(4, 5));
    assert!(high.r() > Scalar::ratio(1, 2));
    assert!(low.b() < high.b());
}

#[test]
fn random_scene_is_fixed_by_the_seed() {
    let a = random_scene(&mut Sampler::seeded(5));
    let b = random_scene(&mut Sampler::seeded(5));
    let c = random_scene(&mut Sampler::seeded(6));
    assert_eq!(a.spheres, b.spheres);
    assert!(a.spheres != c.spheres);
}

#[test]
fn sampler_goes_on_after_a_scene_where_the_scene_left_it() {
    // The scene takes its draws in order, so two samplers that made the same
    // scene give the same draw next.
    let mut a = Sampler::seeded(5);
    let mut b = Sampler::seeded(5);
    random_scene(&mut a);
    random_scene(&mut b);
    let next = a.uniform();
    assert_eq!(next, b.uniform());
    let mut fresh = Sampler::seeded(5);
    let mut seen = false;
    for _ in 0..(9 * 4 * (GRID * GRID) + 1) {
        seen = seen || fresh.uniform() == next;
    }
    assert!(seen);
}

#[test]
fn sky_along_a_short_direction_is_a_sky_colour() {
    let d = Vec3::new(Scalar::from_int(0), Scalar::from_raw(2048), Scalar::from_raw(2));
    let r = Ray { origin: v(0, 0, 0), direction: d };
    let c = sky(&r);
    assert!(c.r().raw >= ONE_RAW / 2 && c.r().raw <= ONE_RAW / 2 + 16, "{}", c.r().raw);
    assert!(c.g() >= Scalar::ratio(7, 10) && c.g().raw <= Scalar::ratio(7, 10).raw + 16);
    assert_eq!(c.b(), Scalar::from_int(1));
    let mut rng = Sampler::seeded(1);
    assert_eq!(radiance(&r, &empty(), 0, &mut rng), c);
}

#[test]
fn sky_lies_between_its_blue_and_white() {
    let mut rng = Sampler::seeded(12);
    for _ in 0..500 {
        let d = Vec3::new(
            rng.uniform() - Scalar::ratio(1, 2),
            rng.uniform() - Scalar::ratio(1, 2),
            rng.uniform() - Scalar::ratio(1, 2),
        );
        let c = sky(&Ray { origin: v(0, 0, 0), direction: d });
        assert!(c.r() >= Scalar::ratio(1, 2) && c.r() <= Scalar::from_int(1));
        assert!(c.g() >= Scalar::ratio(7, 10) && c.g() <= Scalar::from_int(1));
        assert_eq!(c.b(), Scalar::from_int(1));
    }
}

#[test]
fn radiance_is_a_colour() {
    let mut rng = Sampler::seeded(33);
    let world = random_scene(&mut rng);
    for _ in 0..300 {
        let d = Vec3::new(
            rng.uniform() - Scalar::ratio(1, 2),
            rng.uniform() - Scalar::ratio(3, 4),
            rng.uniform() - Scalar::ratio(1, 2),
        );
        let r = Ray { origin: Vec3::new(Scalar::from_int(0), Scalar::from_int(3), Scalar::from_int(0)), direction: d };
        let c = radiance(&r, &world, 0, &mut rng);
        for x in [c.r(), c.g(), c.b()] {
            assert!(x >= Scalar::from_int(0) && x <= Scalar::from_int(1));
        }
    }
}

#[test]
fn radiance_is_fixed_by_the_draws() {
    let world = random_scene(&mut Sampler::seeded(34));
    let r = Ray { origin: v(13, 2, 3), direction: v(-13, -2, -3) };
    let mut a = Sampler::seeded(35);
    let mut b = Sampler::seeded(35);
    for _ in 0..100 {
        assert_eq!(radiance(&r, &world, 0, &mut a), radiance(&r, &world, 0, &mut b));
        assert_eq!(a.uniform(), b.uniform());
    }
}

#[test]
fn sample_is_one_term_of_the_pixel() {
    let world = one_grey_sphere();
    let camera = Camera::new(
        &v(0, 0, 0),
        &v(0, 0, -1),
        &v(0, 1, 0),
        Scalar::from_int(90),
        Scalar::from_int(2),
        Scalar::ratio(1, 10),
        Scalar::from_int(1),
    );
    let mut a = Sampler::seeded(36);
    let mut b = Sampler::seeded(36);
    let mut sum = v(0, 0, 0);
    for _ in 0..7 {
        sum += sample(&camera, &world, 3, 4, 10, 10, &mut a);
    }
    assert_eq!(sample_pixel(&camera, &world, 3, 4, 10, 10, 7, &mut b), sum / Scalar::from_int(7));
    assert_eq!(a.uniform(), b.uniform());
}

#[test]
fn random_scene_draws_the_material_only_for_a_sphere_that_stays() {
    for seed in [5u64, 31, 77] {
        let world = random_scene(&mut Sampler::seeded(seed));
        let mut rng = Sampler::seeded(seed);
        let zero = Scalar::from_int(0);
        let mut want = vec![ground()];
        let mut left_out = 0;
        for a in -GRID..GRID {
            for b in -GRID..GRID {
                let u = rng.uniform();
                let w = rng.uniform();
                let center = little_center(a, b, u, w);
                if !clear_of_centrepiece(&center) {
                    left_out += 1;
                    continue;
                }
                let choice = rng.uniform();
                let mut d = [zero; 6];
                if choice < Scalar::ratio(4, 5) {
                    for x in d.iter_mut() {
                        *x = rng.uniform();
                    }
                } else if choice < Scalar::ratio(19, 20) {
                    for x in d.iter_mut().take(4) {
                        *x = rng.uniform();
                    }
                }
                let material = little_material(choice, d[0], d[1], d[2], d[3], d[4], d[5]);
                want.push(Sphere { center, radius: Scalar::ratio(1, 5), material });
            }
        }
        want.push(centrepiece(0));
        want.push(centrepiece(1));
        want.push(centrepiece(2));
        assert_eq!(world.spheres, want);
        assert!(left_out > 0 || seed != 5);
    }
}
