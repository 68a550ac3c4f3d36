use rand::rngs::StdRng;
use rand::SeedableRng;
use raytracer::hit::hittable::HitRecord;
use raytracer::materials::{Dielectric, Lambertian, Material, Metal, Scatter};
use raytracer::ray::Ray;
use raytracer::scalar::Scalar;
use raytracer::vec3::Vec3;

fn s(x: f64) -> Scalar {
    Scalar::from_bits(x.to_bits())
}

fn v(x: f64, y: f64, z: f64) -> Vec3 {
    Vec3::new(s(x), s(y), s(z))
}

fn hit() -> HitRecord {
    let glass = Material::from(Dielectric::new(s(1.5)));
    HitRecord::new(v(1.0, 2.0, 3.0), v(0.0, 1.0, 0.0), glass, s(4.0), s(-1.0))
}

#[test]
fn material_is_made_from_each_kind() {
    let diffuse = Lambertian::new(v(0.5, 0.5, 0.5));
    let mirror = Metal::new(v(0.7, 0.6, 0.5), s(0.0));
    let glass = Dielectric::new(s(1.5));
    assert_eq!(Material::from(diffuse), Material::Lambertian(diffuse));
    assert_eq!(Material::from(mirror), Material::Metal(mirror));
    assert_eq!(Material::from(glass), Material::Dielectric(glass));
    let through_into: Material = glass.into();
    assert_eq!(through_into, Material::Dielectric(glass));
}

#[test]
fn lambertian_scatters_along_the_candidate() {
    let diffuse = Lambertian::new(v(0.4, 0.2, 0.1));
    assert_eq!(diffuse.albedo(), v(0.4, 0.2, 0.1));
    let scatter = diffuse.scatter(&hit(), v(0.3, 1.2, -0.4), s(1.9));
    assert_eq!(
        scatter,
        Some(Scatter {
            attenuation: v(0.4, 0.2, 0.1),
            ray: Ray::new(v(1.0, 2.0, 3.0), v(0.3, 1.2, -0.4)),
        })
    );
}

#[test]
fn lambertian_replaces_a_degenerate_direction_by_the_normal() {
    let diffuse = Lambertian::new(v(0.4, 0.2, 0.1));
    let scatter = diffuse.scatter(&hit(), v(1e-9, -2e-9, 0.0), s(3e-9)).unwrap();
    assert_eq!(scatter.ray, Ray::new(v(1.0, 2.0, 3.0), v(0.0, 1.0, 0.0)));
    assert_eq!(scatter.attenuation, v(0.4, 0.2, 0.1));
    let zero = diffuse.scatter(&hit(), v(0.0, 0.0, 0.0), s(0.0)).unwrap();
    assert_eq!(zero.ray.direction, v(0.0, 1.0, 0.0));
    let at_the_bound = diffuse.scatter(&hit(), v(1e-8, 0.0, 0.0), s(1e-8)).unwrap();
    assert_eq!(at_the_bound.ray.direction, v(1e-8, 0.0, 0.0));
    let just_below = f64::from_bits(1e-8f64.to_bits() - 1);
    let replaced = diffuse.scatter(&hit(), v(just_below, 0.0, 0.0), s(just_below)).unwrap();
    assert_eq!(replaced.ray.direction, v(0.0, 1.0, 0.0));
}

#[test]
fn metal_clamps_its_fuzz() {
    let albedo = v(0.8, 0.8, 0.8);
    assert_eq!(Metal::new(albedo, s(0.3)).fuzz(), s(0.3));
    assert_eq!(Metal::new(albedo, s(0.0)).fuzz(), s(0.0));
    assert_eq!(Metal::new(albedo, s(1.0)).fuzz(), s(1.0));
    assert_eq!(Metal::new(albedo, s(1.5)).fuzz(), s(1.0));
    assert_eq!(Metal::new(albedo, s(f64::INFINITY)).fuzz(), s(1.0));
    assert_eq!(Metal::new(albedo, s(f64::NAN)).fuzz(), s(1.0));
    assert_eq!(Metal::new(albedo, s(-0.5)).fuzz(), s(0.0));
    assert_eq!(Metal::new(albedo, s(f64::NEG_INFINITY)).fuzz(), s(0.0));
    assert_eq!(Metal::new(albedo, s(0.3)).albedo(), albedo);
}

#[test]
fn metal_fuzz_agrees_with_min_and_max_on_doubles() {
    for fuzz in [0.3, 0.0, 1.0, 1.5, -0.5, f64::INFINITY, f64::NEG_INFINITY, f64::NAN, 1e-300] {
        let want = fuzz.min(1.0).max(0.0);
        assert_eq!(Metal::new(v(0.0, 0.0, 0.0), s(fuzz)).fuzz(), s(want), "{}", fuzz);
    }
}

#[test]
fn metal_scatters_a_ray_that_leaves_the_surface() {
    let mirror = Metal::new(v(0.7, 0.6, 0.5), s(0.0));
    let scatter = mirror.scatter(&hit(), v(0.6, 0.8, 0.0), s(0.8));
    assert_eq!(
        scatter,
        Some(Scatter {
            attenuation: v(0.7, 0.6, 0.5),
            ray: Ray::new(v(1.0, 2.0, 3.0), v(0.6, 0.8, 0.0)),
        })
    );
}

#[test]
fn metal_absorbs_a_ray_that_enters_the_surface() {
    let mirror = Metal::new(v(0.7, 0.6, 0.5), s(1.0));
    assert_eq!(mirror.scatter(&hit(), v(0.6, -0.8, 0.0), s(-0.8)), None);
    assert_eq!(mirror.scatter(&hit(), v(1.0, 0.0, 0.0), s(0.0)), None);
    assert_eq!(mirror.scatter(&hit(), v(1.0, 0.0, 0.0), s(f64::NAN)), None);
}

#[test]
fn mirror_without_fuzz_reflects_about_the_normal() {
    // v - 2(v.n)n for v = (0.6, -0.8, 0) and n = (0, 1, 0), in doubles.
    let incoming = [0.6f64, -0.8, 0.0];
    let normal = [0.0f64, 1.0, 0.0];
    let along = incoming[0] * normal[0] + incoming[1] * normal[1] + incoming[2] * normal[2];
    let mirrored = [
        incoming[0] - 2.0 * along * normal[0],
        incoming[1] - 2.0 * along * normal[1],
        incoming[2] - 2.0 * along * normal[2],
    ];
    let fuzz = Metal::new(v(1.0, 1.0, 1.0), s(0.0)).fuzz();
    assert_eq!(fuzz, s(0.0));
    let direction = v(mirrored[0], mirrored[1], mirrored[2]);
    let leaving = mirrored[1];
    let scatter = Metal::new(v(1.0, 1.0, 1.0), s(0.0)).scatter(&hit(), direction, s(leaving)).unwrap();
    assert_eq!(scatter.ray.direction, v(0.6, 0.8, 0.0));
}

#[test]
fn dielectric_keeps_its_index() {
    assert_eq!(Dielectric::new(s(1.5)).index(), s(1.5));
}

#[test]
fn dielectric_mirrors_beyond_the_critical_angle() {
    assert!(Dielectric::reflects(s(1.2), s(0.0), s(0.99)));
    assert!(Dielectric::reflects(s(1.0000001), s(0.0), s(0.5)));
    assert!(!Dielectric::reflects(s(1.0), s(0.0), s(0.5)));
}

#[test]
fn dielectric_mirrors_when_the_draw_falls_below_the_reflectance() {
    assert!(Dielectric::reflects(s(0.5), s(0.3), s(0.2)));
    assert!(!Dielectric::reflects(s(0.5), s(0.3), s(0.3)));
    assert!(!Dielectric::reflects(s(0.5), s(0.3), s(0.7)));
    assert!(Dielectric::reflects(s(0.5), s(1.0), s(0.999)));
}

#[test]
fn dielectric_without_reflectance_always_bends() {
    for draw in [0.0, 1e-300, 0.25, 0.5, 0.999999, 1.0] {
        assert!(!Dielectric::reflects(s(0.7), s(0.0), s(draw)));
        assert!(!Dielectric::reflects(s(0.0), s(-0.0), s(draw)));
    }
}

#[test]
fn dielectric_scatters_white() {
    let glass = Dielectric::new(s(1.5));
    let scatter = glass.scatter(&hit(), v(0.1, -0.9, 0.2));
    assert_eq!(
        scatter,
        Some(Scatter {
            attenuation: v(1.0, 1.0, 1.0),
            ray: Ray::new(v(1.0, 2.0, 3.0), v(0.1, -0.9, 0.2)),
        })
    );
}

/// Schlick's approximation of the reflectance, in doubles.
fn reflectance(cosine: f64, ratio: f64) -> f64 {
    let r = (1.0 - ratio) / (1.0 + ratio);
    let r = r * r;
    r + (1.0 - r) * (1.0 - cosine).powi(5)
}

#[test]
fn clear_glass_met_head_on_passes_the_ray_undeviated() {
    let ratio = 1.0f64;
    let incoming = [0.0f64, -1.0, 0.0];
    let normal = [0.0f64, 1.0, 0.0];
    let cosine = (-(incoming[0] * normal[0] + incoming[1] * normal[1] + incoming[2] * normal[2])).min(1.0);
    let sine = (1.0 - cosine * cosine).sqrt();
    assert_eq!(reflectance(cosine, ratio), 0.0);
    for draw in [0.0, 0.001, 0.5, 0.999] {
        assert!(!Dielectric::reflects(s(sine * ratio), s(reflectance(cosine, ratio)), s(draw)));
    }
    let perpendicular = [
        (incoming[0] + normal[0] * cosine) * ratio,
        (incoming[1] + normal[1] * cosine) * ratio,
        (incoming[2] + normal[2] * cosine) * ratio,
    ];
    let length_squared = perpendicular[0] * perpendicular[0]
        + perpendicular[1] * perpendicular[1]
        + perpendicular[2] * perpendicular[2];
    let along = (1.0 - length_squared).abs().sqrt();
    let bent = v(
        perpendicular[0] - normal[0] * along,
        perpendicular[1] - normal[1] * along,
        perpendicular[2] - normal[2] * along,
    );
    let scatter = Dielectric::new(s(ratio)).scatter(&hit(), bent).unwrap();
    assert_eq!(scatter.ray.direction, v(0.0, -1.0, 0.0));
    assert_eq!(scatter.attenuation, v(1.0, 1.0, 1.0));
}

#[test]
fn clear_glass_met_at_a_slant_can_still_mirror() {
    // At a matched index the approximation leaves (1 - cosine)^5, which is
    // above zero for every ray that does not come in head on.
    let cosine = 0.5f64;
    let sine = (1.0 - cosine * cosine).sqrt();
    assert_eq!(reflectance(cosine, 1.0), 0.03125);
    assert!(Dielectric::reflects(s(sine), s(reflectance(cosine, 1.0)), s(0.01)));
    assert!(!Dielectric::reflects(s(sine), s(reflectance(cosine, 1.0)), s(0.04)));
}

#[test]
fn dielectric_by_chance_mirrors_beyond_the_critical_angle_without_a_draw() {
    let mut rng = StdRng::seed_from_u64(11);
    let untouched = rng.clone();
    assert!(Dielectric::reflects_by_chance(&mut rng, s(1.5), s(0.0)));
    assert_eq!(rng, untouched);
}

#[test]
fn dielectric_by_chance_follows_the_reflectance() {
    let mut rng = StdRng::seed_from_u64(12);
    let mut mirrored = 0;
    for _ in 0..10000 {
        assert!(!Dielectric::reflects_by_chance(&mut rng, s(0.5), s(0.0)));
        assert!(!Dielectric::reflects_by_chance(&mut rng, s(0.5), s(-0.25)));
        assert!(Dielectric::reflects_by_chance(&mut rng, s(0.5), s(1.0)));
        if Dielectric::reflects_by_chance(&mut rng, s(0.5), s(0.25)) {
            mirrored += 1;
        }
    }
    assert!((2200..2800).contains(&mirrored));
}

#[test]
fn dielectric_by_chance_decides_as_the_draw_would() {
    let mut ours = StdRng::seed_from_u64(13);
    let mut theirs = StdRng::seed_from_u64(13);
    for _ in 0..1000 {
        let draw = raytracer::random::random(&mut theirs);
        assert_eq!(
            Dielectric::reflects_by_chance(&mut ours, s(0.9), s(0.4)),
            Dielectric::reflects(s(0.9), s(0.4), draw)
        );
    }
}

fn hit_on(material: Material) -> HitRecord {
    HitRecord::new(v(1.0, 2.0, 3.0), v(0.0, 1.0, 0.0), material, s(4.0), s(-1.0))
}

#[test]
fn material_of_the_hit_picks_the_rule() {
    let diffuse = Lambertian::new(v(0.4, 0.2, 0.1));
    let mirror = Metal::new(v(0.7, 0.6, 0.5), s(0.25));
    let glass = Dielectric::new(s(1.5));
    let direction = v(0.6, 0.8, 0.0);

    let on_diffuse = hit_on(Material::from(diffuse));
    assert_eq!(
        Material::scatter(&on_diffuse, direction, s(1.4)),
        diffuse.scatter(&on_diffuse, direction, s(1.4))
    );
    let degenerate = Material::scatter(&on_diffuse, v(1e-9, 0.0, 0.0), s(1e-9)).unwrap();
    assert_eq!(degenerate.ray.direction, v(0.0, 1.0, 0.0));
    assert_eq!(degenerate.attenuation, v(0.4, 0.2, 0.1));

    let on_mirror = hit_on(Material::from(mirror));
    assert_eq!(
        Material::scatter(&on_mirror, direction, s(0.8)),
        Some(Scatter {
            attenuation: v(0.7, 0.6, 0.5),
            ray: Ray::new(v(1.0, 2.0, 3.0), direction),
        })
    );
    assert_eq!(Material::scatter(&on_mirror, direction, s(-0.8)), None);
    assert_eq!(Material::scatter(&on_mirror, direction, s(0.0)), None);

    let on_glass = hit_on(Material::from(glass));
    for measure in [0.0, -1.0, 1e-9, f64::NAN] {
        assert_eq!(
            Material::scatter(&on_glass, direction, s(measure)),
            Some(Scatter {
                attenuation: v(1.0, 1.0, 1.0),
                ray: Ray::new(v(1.0, 2.0, 3.0), direction),
            })
        );
    }
}
