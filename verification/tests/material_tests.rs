use raytracer::material::{reflect, refract, schlick, Material, Scattering};
use raytracer::ray::Ray;
use raytracer::sampler::{random_in_unit_sphere, Sampler};
use raytracer::scalar::{Scalar, ONE_RAW};
use raytracer::vec3::Vec3;

fn v(x: i32, y: i32, z: i32) -> Vec3 {
    Vec3::new(Scalar::from_int(x), Scalar::from_int(y), Scalar::from_int(z))
}

fn as_f64(s: Scalar) -> f64 {
    s.raw as f64 / ONE_RAW as f64
}

fn close(a: Scalar, b: f64) -> bool {
    (as_f64(a) - b).abs() < 1e-4
}

fn white() -> Vec3 {
    v(1, 1, 1)
}

fn tint() -> Vec3 {
    Vec3::new(Scalar::ratio(4, 5), Scalar::ratio(3, 10), Scalar::ratio(1, 5))
}

#[test]
fn reflect_mirrors_at_the_normal() {
    assert_eq!(reflect(&v(1, -1, 0), &v(0, 1, 0)), v(1, 1, 0));
    assert_eq!(reflect(&v(0, -3, 0), &v(0, 1, 0)), v(0, 3, 0));
    assert_eq!(reflect(&v(2, 0, 5), &v(0, 1, 0)), v(2, 0, 5));
    assert_eq!(reflect(&v(1, 2, 3), &v(0, 0, -1)), v(1, 2, -3));
}

#[test]
fn refract_straight_through_keeps_the_direction() {
    let out = refract(&v(0, -2, 0), &v(0, 1, 0), Scalar::ratio(2, 3)).unwrap();
    assert_eq!(out, v(0, -1, 0));
}

#[test]
fn refract_bends_toward_the_normal_in_the_denser_medium() {
    // sin(in) = 0.6, ratio 2/3: sin(out) = 0.4.
    let out = refract(&v(3, -4, 0), &v(0, 1, 0), Scalar::ratio(2, 3)).unwrap();
    assert!(close(out.x(), 0.4), "{}", as_f64(out.x()));
    assert!(close(out.y(), -(1.0f64 - 0.16).sqrt()), "{}", as_f64(out.y()));
    assert_eq!(out.z().raw, 0);
}

#[test]
fn refract_fails_on_total_internal_reflection() {
    // sin(in) = 0.8, ratio 1.5: sin(out) would be 1.2.
    assert_eq!(refract(&v(4, -3, 0), &v(0, 1, 0), Scalar::ratio(3, 2)), None);
}

#[test]
fn schlick_at_normal_incidence_on_glass() {
    // r0 = ((1 - 1.5) / (1 + 1.5))^2 = 0.04
    let r = schlick(Scalar::from_int(1), Scalar::ratio(3, 2));
    assert!(close(r, 0.04), "{}", as_f64(r));
}

#[test]
fn schlick_at_grazing_incidence_is_one() {
    let r = schlick(Scalar::from_int(0), Scalar::ratio(3, 2));
    assert!(close(r, 1.0), "{}", as_f64(r));
}

#[test]
fn schlick_in_between() {
    // 0.04 + 0.96 * 0.5^5 = 0.07
    let r = schlick(Scalar::ratio(1, 2), Scalar::ratio(3, 2));
    assert!(close(r, 0.07), "{}", as_f64(r));
}

#[test]
fn lambertian_aims_at_position_plus_normal_plus_jitter() {
    let m = Material::Lambertian { albedo: tint() };
    let incident = Ray { origin: v(0, 5, 0), direction: v(0, -1, 0) };
    let jitter = Vec3::new(Scalar::ratio(1, 4), Scalar::ratio(-1, 2), Scalar::ratio(1, 8));
    let out = m.scatter_with(&incident, &v(1, 2, 3), &v(0, 1, 0), &jitter, Scalar::from_int(0));
    let want = Scattering {
        ray: Ray {
            origin: v(1, 2, 3),
            direction: Vec3::new(Scalar::ratio(1, 4), Scalar::ratio(1, 2), Scalar::ratio(1, 8)),
        },
        attenuation: tint(),
    };
    assert_eq!(out, Some(want));
}

#[test]
fn lambertian_always_scatters() {
    let m = Material::Lambertian { albedo: tint() };
    let mut rng = Sampler::seeded(7);
    let incident = Ray { origin: v(0, 5, 0), direction: v(0, 1, 0) };
    for _ in 0..500 {
        let out = m.scatter(&incident, &v(0, 0, 0), &v(0, 1, 0), &mut rng).unwrap();
        assert_eq!(out.attenuation, tint());
        assert_eq!(out.ray.origin, v(0, 0, 0));
        let d = out.ray.direction;
        let offset = d - v(0, 1, 0);
        assert!(offset.squared_norm() < Scalar::from_raw(ONE_RAW + 8));
    }
}

#[test]
fn polished_metal_mirrors_the_unit_direction() {
    let m = Material::Metal { albedo: tint(), fuzz: Scalar::from_int(0) };
    let incident = Ray { origin: v(0, 4, 0), direction: v(3, -4, 0) };
    let jitter = Vec3::new(Scalar::ratio(1, 2), Scalar::ratio(1, 2), Scalar::ratio(1, 2));
    let out = m
        .scatter_with(&incident, &v(3, 0, 0), &v(0, 1, 0), &jitter, Scalar::from_int(0))
        .unwrap();
    assert_eq!(out.attenuation, tint());
    assert_eq!(out.ray.origin, v(3, 0, 0));
    assert!(close(out.ray.direction.x(), 0.6));
    assert!(close(out.ray.direction.y(), 0.8));
    assert_eq!(out.ray.direction.z().raw, 0);
}

#[test]
fn fuzzy_metal_adds_fuzz_times_jitter() {
    let m = Material::Metal { albedo: tint(), fuzz: Scalar::ratio(1, 2) };
    let incident = Ray { origin: v(0, 4, 0), direction: v(0, -4, 0) };
    let jitter = Vec3::new(Scalar::ratio(1, 2), Scalar::ratio(-1, 2), Scalar::ratio(1, 4));
    let out = m
        .scatter_with(&incident, &v(0, 0, 0), &v(0, 1, 0), &jitter, Scalar::from_int(0))
        .unwrap();
    assert_eq!(
        out.ray.direction,
        Vec3::new(Scalar::ratio(1, 4), Scalar::ratio(3, 4), Scalar::ratio(1, 8))
    );
}

#[test]
fn metal_absorbs_what_points_into_the_surface() {
    let m = Material::Metal { albedo: tint(), fuzz: Scalar::from_int(0) };
    // The ray arrives from below the surface, so its mirror image points down.
    let incident = Ray { origin: v(0, -4, 0), direction: v(1, 1, 0) };
    let zero = v(0, 0, 0);
    assert_eq!(m.scatter_with(&incident, &v(0, 0, 0), &v(0, 1, 0), &zero, Scalar::from_int(0)), None);
    // A ray along the surface is mirrored into the surface: the dot product is zero.
    let grazing = Ray { origin: v(-4, 0, 0), direction: v(1, 0, 0) };
    assert_eq!(m.scatter_with(&grazing, &v(0, 0, 0), &v(0, 1, 0), &zero, Scalar::from_int(0)), None);
}

#[test]
fn fuzz_can_push_the_mirror_image_into_the_surface() {
    let m = Material::Metal { albedo: tint(), fuzz: Scalar::from_int(1) };
    let incident = Ray { origin: v(-40, 1, 0), direction: v(40, -1, 0) };
    let down = Vec3::new(Scalar::from_int(0), Scalar::ratio(-9, 10), Scalar::from_int(0));
    let up = Vec3::new(Scalar::from_int(0), Scalar::ratio(9, 10), Scalar::from_int(0));
    assert_eq!(m.scatter_with(&incident, &v(0, 0, 0), &v(0, 1, 0), &down, Scalar::from_int(0)), None);
    assert!(m.scatter_with(&incident, &v(0, 0, 0), &v(0, 1, 0), &up, Scalar::from_int(0)).is_some());
}

#[test]
fn metal_scatters_only_away_from_the_surface() {
    let m = Material::Metal { albedo: tint(), fuzz: Scalar::from_int(1) };
    let mut rng = Sampler::seeded(11);
    let incident = Ray { origin: v(-4, 1, 0), direction: v(4, -1, 0) };
    let normal = v(0, 1, 0);
    let mut some = 0;
    let mut none = 0;
    for _ in 0..500 {
        match m.scatter(&incident, &v(0, 0, 0), &normal, &mut rng) {
            Some(s) => {
                assert!(s.ray.direction.dot(&normal) > Scalar::from_int(0));
                assert_eq!(s.attenuation, tint());
                some += 1;
            }
            None => none += 1,
        }
    }
    assert!(some > 0);
    assert!(none > 0);
}

#[test]
fn dielectric_always_scatters_and_does_not_dim() {
    let m = Material::Dielectric { refraction_index: Scalar::ratio(3, 2) };
    let mut rng = Sampler::seeded(13);
    let rays = [
        Ray { origin: v(0, 4, 0), direction: v(0, -1, 0) },
        Ray { origin: v(0, 4, 0), direction: v(3, -4, 0) },
        Ray { origin: v(0, -4, 0), direction: v(4, 3, 0) },
        Ray { origin: v(0, -4, 0), direction: v(0, 1, 0) },
        Ray { origin: v(0, 4, 0), direction: v(40, -1, 0) },
    ];
    for r in rays.iter() {
        for _ in 0..100 {
            let s = m.scatter(r, &v(0, 0, 0), &v(0, 1, 0), &mut rng).unwrap();
            assert_eq!(s.attenuation, white());
            assert_eq!(s.ray.origin, v(0, 0, 0));
        }
    }
}

#[test]
fn dielectric_reflects_below_the_reflectance_and_refracts_from_it_on() {
    let m = Material::Dielectric { refraction_index: Scalar::ratio(3, 2) };
    let incident = Ray { origin: v(0, 4, 0), direction: v(0, -2, 0) };
    let normal = v(0, 1, 0);
    let zero = v(0, 0, 0);
    // Entering at normal incidence: the cosine is one, the reflectance 0.04.
    let reflectance = schlick(Scalar::from_int(1), Scalar::ratio(3, 2));
    let below = Scalar::from_raw(reflectance.raw - 1);
    let mirrored = m.scatter_with(&incident, &zero, &normal, &zero, below).unwrap();
    assert_eq!(mirrored.ray.direction, v(0, 2, 0));
    let through = m.scatter_with(&incident, &zero, &normal, &zero, reflectance).unwrap();
    assert_eq!(through.ray.direction, v(0, -1, 0));
    let through = m.scatter_with(&incident, &zero, &normal, &zero, Scalar::ratio(1, 2)).unwrap();
    assert_eq!(through.ray.direction, v(0, -1, 0));
}

#[test]
fn dielectric_mirrors_on_total_internal_reflection() {
    let m = Material::Dielectric { refraction_index: Scalar::ratio(3, 2) };
    // Leaving the glass at sin = 0.8: no refraction, whatever the draw.
    let incident = Ray { origin: v(-4, -3, 0), direction: v(4, 3, 0) };
    let normal = v(0, 1, 0);
    let zero = v(0, 0, 0);
    for draw in [Scalar::from_int(0), Scalar::ratio(1, 2), Scalar::from_raw(ONE_RAW - 1)] {
        let s = m.scatter_with(&incident, &zero, &normal, &zero, draw).unwrap();
        assert_eq!(s.ray.direction, v(4, -3, 0));
        assert_eq!(s.attenuation, white());
    }
}

#[test]
fn dielectric_leaving_refracts_away_from_the_normal() {
    let m = Material::Dielectric { refraction_index: Scalar::ratio(3, 2) };
    // Leaving the glass at sin = 0.28 (7, 24, 25): sin(out) = 0.42.
    let incident = Ray { origin: v(-7, -24, 0), direction: v(7, 24, 0) };
    let normal = v(0, 1, 0);
    let zero = v(0, 0, 0);
    let s = m.scatter_with(&incident, &zero, &normal, &zero, Scalar::from_raw(ONE_RAW - 1)).unwrap();
    assert!(close(s.ray.direction.x(), 0.42), "{}", as_f64(s.ray.direction.x()));
    assert!(close(s.ray.direction.y(), (1.0f64 - 0.42 * 0.42).sqrt()));
}

#[test]
fn schlick_exact_values() {
    // No step in the index: nothing is reflected head on, all at grazing incidence.
    assert_eq!(schlick(Scalar::from_int(1), Scalar::from_int(1)), Scalar::from_int(0));
    assert_eq!(schlick(Scalar::from_int(0), Scalar::from_int(1)), Scalar::from_int(1));
    // r0 = ((1 - 3) / (1 + 3))^2 = 1/4; the cosine 1/2 adds 3/4 * 1/32.
    assert_eq!(schlick(Scalar::from_int(1), Scalar::from_int(3)), Scalar::ratio(1, 4));
    assert_eq!(schlick(Scalar::ratio(1, 2), Scalar::from_int(3)), Scalar::ratio(35, 128));
}

#[test]
fn reflect_of_a_fraction() {
    let d = Vec3::new(Scalar::ratio(1, 2), Scalar::ratio(-1, 4), Scalar::ratio(1, 8));
    let n = v(0, 1, 0);
    assert_eq!(reflect(&d, &n), Vec3::new(Scalar::ratio(1, 2), Scalar::ratio(1, 4), Scalar::ratio(1, 8)));
}

#[test]
fn scatter_takes_its_jitter_from_the_sampler() {
    let incident = Ray { origin: v(-4, 1, 0), direction: v(4, -1, 0) };
    let position = v(0, 0, 0);
    let normal = v(0, 1, 0);
    let zero = Scalar::from_int(0);
    let materials = [
        Material::Lambertian { albedo: tint() },
        Material::Metal { albedo: tint(), fuzz: Scalar::ratio(1, 2) },
    ];
    for m in materials.iter() {
        let mut a = Sampler::seeded(50);
        let mut b = Sampler::seeded(50);
        for _ in 0..50 {
            let jitter = random_in_unit_sphere(&mut b);
            assert_eq!(
                m.scatter(&incident, &position, &normal, &mut a),
                m.scatter_with(&incident, &position, &normal, &jitter, zero)
            );
        }
        assert_eq!(a.uniform(), b.uniform());
    }
}

#[test]
fn dielectric_scatter_takes_one_draw() {
    let m = Material::Dielectric { refraction_index: Scalar::ratio(3, 2) };
    let incident = Ray { origin: v(0, 4, 0), direction: v(3, -4, 0) };
    let position = v(0, 0, 0);
    let normal = v(0, 1, 0);
    let mut a = Sampler::seeded(51);
    let mut b = Sampler::seeded(51);
    for _ in 0..200 {
        let draw = b.uniform();
        assert_eq!(
            m.scatter(&incident, &position, &normal, &mut a),
            m.scatter_with(&incident, &position, &normal, &position, draw)
        );
    }
    assert_eq!(a.uniform(), b.uniform());
}

#[test]
fn scatter_is_fixed_by_the_draws() {
    let incident = Ray { origin: v(-4, 1, 0), direction: v(4, -1, 0) };
    let m = Material::Metal { albedo: tint(), fuzz: Scalar::from_int(1) };
    let mut a = Sampler::seeded(52);
    let mut b = Sampler::seeded(52);
    for _ in 0..100 {
        assert_eq!(
            m.scatter(&incident, &v(0, 0, 0), &v(0, 1, 0), &mut a),
            m.scatter(&incident, &v(0, 0, 0), &v(0, 1, 0), &mut b)
        );
    }
}

#[test]
fn dielectric_takes_no_draw_on_total_internal_reflection() {
    let m = Material::Dielectric { refraction_index: Scalar::ratio(3, 2) };
    // Leaving the glass at sin = 0.8: there is no refracted ray.
    let incident = Ray { origin: v(-4, -3, 0), direction: v(4, 3, 0) };
    let position = v(0, 0, 0);
    let normal = v(0, 1, 0);
    assert!(!Material::refracts(Scalar::ratio(3, 2), &incident.direction, &normal));
    let mut a = Sampler::seeded(53);
    let mut b = Sampler::seeded(53);
    for _ in 0..20 {
        let s = m.scatter(&incident, &position, &normal, &mut a).unwrap();
        assert_eq!(s.ray.direction, v(4, -3, 0));
    }
    assert_eq!(a.uniform(), b.uniform());
}

#[test]
fn refracts_tells_whether_there_is_a_refracted_ray() {
    let glass = Scalar::ratio(3, 2);
    let normal = v(0, 1, 0);
    assert!(Material::refracts(glass, &v(3, -4, 0), &normal));
    assert!(Material::refracts(glass, &v(0, -1, 0), &normal));
    assert!(Material::refracts(glass, &v(7, 24, 0), &normal));
    assert!(!Material::refracts(glass, &v(4, 3, 0), &normal));
}
