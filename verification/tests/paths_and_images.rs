use raytracer::camera::path::{Path, PathEnd};
use raytracer::camera::Camera;
use raytracer::color::Color;
use raytracer::hit::hittable::HitRecord;
use raytracer::hit::list::HittableList;
use raytracer::hit::sphere::Sphere;
use raytracer::interval::Interval;
use raytracer::materials::{Dielectric, Lambertian, Material, Metal, Scatter};
use raytracer::ray::Ray;
use raytracer::scalar::Scalar;
use raytracer::vec3::Vec3;
use rand::rngs::StdRng;
use rand::SeedableRng;
use raytracer::random::sample_square;
use std::cell::Cell;

fn s(x: f64) -> Scalar {
    Scalar::from_bits(x.to_bits())
}

fn f(x: Scalar) -> f64 {
    f64::from_bits(x.to_bits())
}

fn v(x: f64, y: f64, z: f64) -> Vec3 {
    Vec3::new(s(x), s(y), s(z))
}

fn arr(a: Vec3) -> [f64; 3] {
    [f(a.x), f(a.y), f(a.z)]
}

fn dot(a: [f64; 3], b: [f64; 3]) -> f64 {
    a[0] * b[0] + a[1] * b[1] + a[2] * b[2]
}

/// Sphere intersection in arithmetic on doubles, deciding through the library.
fn probe(sphere: &Sphere, ray: &Ray, range: Interval) -> Option<HitRecord> {
    let center = arr(sphere.center());
    let origin = arr(ray.origin);
    let dir = arr(ray.direction);
    let radius = f(sphere.radius());
    let oc = [center[0] - origin[0], center[1] - origin[1], center[2] - origin[2]];
    let a = dot(dir, dir);
    let h = dot(dir, oc);
    let c = dot(oc, oc) - radius * radius;
    let discriminant = h * h - a * c;
    let root = discriminant.sqrt();
    let time = f(Sphere::hit_time(s(discriminant), s((h - root) / a), s((h + root) / a), range)?);
    let point = [origin[0] + dir[0] * time, origin[1] + dir[1] * time, origin[2] + dir[2] * time];
    let normal = [
        (point[0] - center[0]) / radius,
        (point[1] - center[1]) / radius,
        (point[2] - center[2]) / radius,
    ];
    Some(HitRecord::new(
        v(point[0], point[1], point[2]),
        v(normal[0], normal[1], normal[2]),
        sphere.material(),
        s(time),
        s(dot(dir, normal)),
    ))
}

/// Mirrors without fuzz reflect, diffuse surfaces send the ray along the
/// normal, glass lets it pass undeviated.
fn rule(ray: &Ray, hit: &HitRecord) -> Option<Scatter> {
    let dir = arr(ray.direction);
    let n = arr(hit.normal);
    match hit.material {
        Material::Metal(metal) => {
            let along = dot(dir, n);
            let mirrored = [
                dir[0] - 2.0 * along * n[0],
                dir[1] - 2.0 * along * n[1],
                dir[2] - 2.0 * along * n[2],
            ];
            metal.scatter(hit, v(mirrored[0], mirrored[1], mirrored[2]), s(dot(mirrored, n)))
        }
        Material::Lambertian(diffuse) => {
            let spread = n[0].abs() + n[1].abs() + n[2].abs();
            diffuse.scatter(hit, hit.normal, s(spread))
        }
        Material::Dielectric(glass) => glass.scatter(hit, ray.direction),
    }
}

/// The rule above, counting in the state how often it was asked.
fn scatter(ray: &Ray, hit: &HitRecord, asked: u32) -> (Option<Scatter>, u32) {
    (rule(ray, hit), asked + 1)
}

fn no_scatter(_: &Ray, _: &HitRecord, asked: u32) -> (Option<Scatter>, u32) {
    (None, asked + 1)
}

fn camera(width: i32, aspect: f64, samples: i32, depth: i32) -> Camera {
    Camera::new(
        s(aspect),
        width,
        samples,
        depth,
        s(90.0),
        v(0.0, 1.0, 0.0),
        v(0.0, 0.0, 0.0),
        v(0.0, 0.0, -1.0),
        s(1.0),
        s(0.0),
        s(1.0),
    )
    .unwrap()
}

fn down() -> Ray {
    Ray::new(v(0.0, 1.0, 0.0), v(0.0, -1.0, 0.0))
}

#[test]
fn time_range_starts_after_the_shadow_margin() {
    let range = Camera::time_range();
    assert_eq!(range.start, s(0.001));
    assert_eq!(range.end, s(f64::INFINITY));
}

#[test]
fn path_without_depth_is_exhausted() {
    let mut world: HittableList<Sphere> = HittableList::new();
    world.add(Sphere::new(v(0.0, 0.0, -5.0), s(1.0), Material::from(Dielectric::new(s(1.5)))));
    let ray = Ray::new(v(0.0, 0.0, 0.0), v(0.0, 0.0, -1.0));
    for depth in [0, -1, i32::MIN] {
        let path = Camera::ray_color(&ray, &world, depth, 0u32, &probe, &scatter).0;
        assert_eq!(path.end, PathEnd::Exhausted);
        assert!(path.attenuations.is_empty());
    }
}

#[test]
fn path_through_an_empty_scene_escapes_at_once() {
    let world: HittableList<Sphere> = HittableList::new();
    let path = Camera::ray_color(&down(), &world, 50, 0u32, &probe, &scatter).0;
    assert_eq!(path.end, PathEnd::Escaped(down()));
    assert!(path.attenuations.is_empty());
}

#[test]
fn path_past_every_sphere_escapes() {
    let mut world: HittableList<Sphere> = HittableList::new();
    world.add(Sphere::new(v(5.0, 0.0, -5.0), s(1.0), Material::from(Dielectric::new(s(1.5)))));
    let ray = Ray::new(v(0.0, 0.0, 0.0), v(0.0, 0.0, -1.0));
    let path = Camera::ray_color(&ray, &world, 50, 0u32, &probe, &scatter).0;
    assert_eq!(path.end, PathEnd::Escaped(ray));
    assert!(path.attenuations.is_empty());
}

#[test]
fn path_into_an_absorbing_surface_is_absorbed() {
    let mut world: HittableList<Sphere> = HittableList::new();
    world.add(Sphere::new(v(0.0, 0.0, -5.0), s(1.0), Material::from(Dielectric::new(s(1.5)))));
    let ray = Ray::new(v(0.0, 0.0, 0.0), v(0.0, 0.0, -1.0));
    let path = Camera::ray_color(&ray, &world, 50, 0u32, &probe, &no_scatter).0;
    assert_eq!(path.end, PathEnd::Absorbed);
    assert!(path.attenuations.is_empty());
}

#[test]
fn path_off_a_mirror_escapes_with_its_colour() {
    let mut world: HittableList<Sphere> = HittableList::new();
    let steel = Material::from(Metal::new(v(0.8, 0.6, 0.2), s(0.0)));
    world.add(Sphere::new(v(0.0, 0.0, -5.0), s(1.0), steel));
    let ray = Ray::new(v(0.0, 0.0, 0.0), v(0.0, 0.0, -1.0));
    let path = Camera::ray_color(&ray, &world, 50, 0u32, &probe, &scatter).0;
    assert_eq!(path.attenuations, vec![v(0.8, 0.6, 0.2)]);
    assert_eq!(path.end, PathEnd::Escaped(Ray::new(v(0.0, 0.0, -4.0), v(0.0, 0.0, 1.0))));
}

#[test]
fn path_between_two_mirrors_stops_at_the_depth() {
    let mut world: HittableList<Sphere> = HittableList::new();
    let near = Material::from(Metal::new(v(0.9, 0.9, 0.9), s(0.0)));
    let far = Material::from(Metal::new(v(0.5, 0.5, 0.5), s(0.0)));
    world.add(Sphere::new(v(0.0, 0.0, -5.0), s(1.0), near));
    world.add(Sphere::new(v(0.0, 0.0, 5.0), s(1.0), far));
    let ray = Ray::new(v(0.0, 0.0, 0.0), v(0.0, 0.0, -1.0));
    for depth in [1, 2, 5, 50] {
        let path = Camera::ray_color(&ray, &world, depth, 0u32, &probe, &scatter).0;
        assert_eq!(path.end, PathEnd::Exhausted);
        assert_eq!(path.attenuations.len(), depth as usize);
        for (k, attenuation) in path.attenuations.iter().enumerate() {
            let want = if k % 2 == 0 { v(0.9, 0.9, 0.9) } else { v(0.5, 0.5, 0.5) };
            assert_eq!(*attenuation, want);
        }
    }
}

#[test]
fn path_through_glass_collects_white() {
    let mut world: HittableList<Sphere> = HittableList::new();
    world.add(Sphere::new(v(0.0, 0.0, -5.0), s(1.0), Material::from(Dielectric::new(s(1.0)))));
    let ray = Ray::new(v(0.0, 0.0, 0.0), v(0.0, 0.0, -1.0));
    let path = Camera::ray_color(&ray, &world, 50, 0u32, &probe, &scatter).0;
    assert_eq!(path.attenuations, vec![v(1.0, 1.0, 1.0), v(1.0, 1.0, 1.0)]);
    assert_eq!(path.end, PathEnd::Escaped(Ray::new(v(0.0, 0.0, -6.0), v(0.0, 0.0, -1.0))));
}

#[test]
fn path_hits_the_nearest_of_overlapping_spheres_first() {
    let mut world: HittableList<Sphere> = HittableList::new();
    let back = Material::from(Lambertian::new(v(0.1, 0.1, 0.1)));
    let front = Material::from(Lambertian::new(v(0.7, 0.3, 0.3)));
    world.add(Sphere::new(v(0.0, 0.0, -6.0), s(2.0), back));
    world.add(Sphere::new(v(0.0, 0.0, -5.0), s(2.0), front));
    let ray = Ray::new(v(0.0, 0.0, 0.0), v(0.0, 0.0, -1.0));
    let path = Camera::ray_color(&ray, &world, 50, 0u32, &probe, &scatter).0;
    assert_eq!(path.attenuations, vec![v(0.7, 0.3, 0.3)]);
    assert_eq!(path.end, PathEnd::Escaped(Ray::new(v(0.0, 0.0, -3.0), v(0.0, 0.0, 1.0))));
}

/// The sky behind an escaped ray: white below, blue above.
fn sky(ray: &Ray) -> [f64; 3] {
    let dir = arr(ray.direction);
    let length = dot(dir, dir).sqrt();
    let a = (dir[1] / length + 1.0) * 0.5;
    [(1.0 - a) + a * 0.5, (1.0 - a) + a * 0.7, (1.0 - a) + a * 1.0]
}

/// The mean light of the paths of one pixel.
fn develop(paths: &Vec<Path>) -> Color {
    let mut sum = [0.0f64; 3];
    for path in paths {
        let mut light = match path.end {
            PathEnd::Escaped(ray) => sky(&ray),
            _ => [0.0, 0.0, 0.0],
        };
        for attenuation in path.attenuations.iter().rev() {
            let by = arr(*attenuation);
            light = [light[0] * by[0], light[1] * by[1], light[2] * by[2]];
        }
        sum = [sum[0] + light[0], sum[1] + light[1], sum[2] + light[2]];
    }
    let n = paths.len() as f64;
    v(sum[0] / n, sum[1] / n, sum[2] / n)
}

#[test]
fn render_of_sky_blue_pixels_is_the_same_line_twice() {
    let camera = camera(2, 2.0, 1, 10);
    assert_eq!(camera.image_height(), 1);
    let world: HittableList<Sphere> = HittableList::new();
    let aim = |_: i32, _: i32, asked: u32| (down(), asked);
    let sky_blue = |paths: &Vec<Path>| {
        assert_eq!(paths.len(), 1);
        assert_eq!(paths[0].end, PathEnd::Escaped(down()));
        assert!(paths[0].attenuations.is_empty());
        v(0.5, 0.7, 1.0)
    };
    let image = camera.render(&world, 0u32, &aim, &probe, &scatter, &sky_blue).0;
    assert_eq!(image, b"P3\n2 1\n255\n181 214 255\n181 214 255\n".to_vec());
}

#[test]
fn render_of_an_empty_scene_shows_the_sky_of_each_ray() {
    let camera = camera(3, 1.5, 4, 10);
    assert_eq!(camera.image_height(), 2);
    let world: HittableList<Sphere> = HittableList::new();
    let through = |column: i32, row: i32| {
        Ray::new(v(0.0, 0.0, 0.0), v(column as f64 - 1.0, 0.5 - row as f64, -1.0))
    };
    let aim = |column: i32, row: i32, asked: u32| (through(column, row), asked);
    let image = camera.render(&world, 0u32, &aim, &probe, &scatter, &develop).0;
    let mut want = String::from("P3\n3 2\n255\n");
    for row in 0..2 {
        for column in 0..3 {
            let light = sky(&through(column, row));
            let level = |c: f64| (256.0 * c.sqrt().min(0.999)) as u8;
            want.push_str(&format!("{} {} {}\n", level(light[0]), level(light[1]), level(light[2])));
        }
    }
    assert_eq!(String::from_utf8(image).unwrap(), want);
}

#[test]
fn render_walks_the_pixels_row_by_row() {
    let camera = camera(3, 1.5, 2, 1);
    let world: HittableList<Sphere> = HittableList::new();
    let asked: Cell<Vec<(i32, i32)>> = Cell::new(Vec::new());
    let aim = |column: i32, row: i32, state: u32| {
        let mut so_far = asked.take();
        so_far.push((column, row));
        asked.set(so_far);
        (down(), state)
    };
    let image = camera.render(&world, 0u32, &aim, &probe, &scatter, &develop).0;
    assert_eq!(
        asked.take(),
        vec![
            (0, 0), (0, 0), (1, 0), (1, 0), (2, 0), (2, 0),
            (0, 1), (0, 1), (1, 1), (1, 1), (2, 1), (2, 1),
        ]
    );
    let text = String::from_utf8(image).unwrap();
    assert_eq!(text.lines().count(), 3 + 3 * 2);
    assert!(text.ends_with('\n'));
}

#[test]
fn render_takes_as_many_samples_as_asked() {
    let camera = camera(1, 1.0, 7, 3);
    let world: HittableList<Sphere> = HittableList::new();
    let aim = |_: i32, _: i32, asked: u32| (down(), asked);
    let count = |paths: &Vec<Path>| v(paths.len() as f64 / 16.0, 0.0, 0.0);
    let image = camera.render(&world, 0u32, &aim, &probe, &scatter, &count).0;
    // Seven sixteenths in linear light is floor(256 * sqrt(0.4375)) = 169.
    assert_eq!(image, b"P3\n1 1\n255\n169 0 0\n".to_vec());
}

#[test]
fn render_of_a_mirror_ball_under_the_sky() {
    let camera = camera(1, 1.0, 1, 5);
    let mut world: HittableList<Sphere> = HittableList::new();
    let gold = Material::from(Metal::new(v(0.8, 0.6, 0.2), s(0.0)));
    world.add(Sphere::new(v(0.0, -5.0, 0.0), s(1.0), gold));
    let aim = |_: i32, _: i32, asked: u32| (down(), asked);
    let image = camera.render(&world, 0u32, &aim, &probe, &scatter, &develop).0;
    // The ray comes straight back up, where the sky is (0.5, 0.7, 1.0).
    let level = |c: f64| (256.0 * c.sqrt().min(0.999)) as u8;
    let want = format!("P3\n1 1\n255\n{} {} {}\n", level(0.5 * 0.8), level(0.7 * 0.6), level(0.2));
    assert_eq!(String::from_utf8(image).unwrap(), want);
}

#[test]
fn render_twice_gives_the_same_bytes() {
    let camera = camera(4, 2.0, 1, 8);
    let mut world: HittableList<Sphere> = HittableList::new();
    world.add(Sphere::new(
        v(0.0, -3.0, 0.0),
        s(1.0),
        Material::from(Lambertian::new(v(0.4, 0.2, 0.1))),
    ));
    let aim = |column: i32, row: i32, asked: u32| {
        let direction = v(column as f64 * 0.3 - 0.45, -1.0, row as f64 * 0.3 - 0.15);
        (Ray::new(v(0.0, 1.0, 0.0), direction), asked)
    };
    let first = camera.render(&world, 0u32, &aim, &probe, &scatter, &develop).0;
    let second = camera.render(&world, 0u32, &aim, &probe, &scatter, &develop).0;
    assert_eq!(first, second);
    assert_eq!(String::from_utf8(first).unwrap().lines().count(), 3 + 4 * 2);
}

#[test]
fn expose_develops_the_paths_of_one_pixel() {
    let camera = camera(2, 2.0, 3, 4);
    let world: HittableList<Sphere> = HittableList::new();
    let through = |column: i32, row: i32| {
        Ray::new(v(0.0, 1.0, 0.0), v(column as f64, -1.0, row as f64))
    };
    let aim = |column: i32, row: i32, aimed: u32| (through(column, row), aimed + 1);
    let inspect = |paths: &Vec<Path>| {
        assert_eq!(paths.len(), 3);
        for path in paths {
            assert_eq!(path.end, PathEnd::Escaped(through(1, 0)));
        }
        v(0.25, 0.25, 0.25)
    };
    let (color, aimed) = camera.expose(&world, 10u32, &aim, &probe, &scatter, &inspect, 1, 0);
    assert_eq!(color, v(0.25, 0.25, 0.25));
    assert_eq!(aimed, 13);
}

/// A render whose rays are jittered and whose surfaces scatter at random,
/// every draw taken from a generator seeded with `seed`.
fn seeded_render(seed: u64) -> Vec<u8> {
    let camera = camera(6, 1.5, 1, 8);
    let mut world: HittableList<Sphere> = HittableList::new();
    world.add(Sphere::new(
        v(0.0, -3.0, 0.0),
        s(1.5),
        Material::from(Lambertian::new(v(0.8, 0.5, 0.3))),
    ));
    world.add(Sphere::new(
        v(0.0, -104.5, 0.0),
        s(100.0),
        Material::from(Lambertian::new(v(0.5, 0.5, 0.5))),
    ));
    let aim = |column: i32, row: i32, mut rng: StdRng| {
        let jitter = sample_square(&mut rng);
        let direction = v(
            (column as f64 + f(jitter.x)) * 0.4 - 1.0,
            -1.0,
            (row as f64 + f(jitter.y)) * 0.4 - 0.6,
        );
        (Ray::new(v(0.0, 1.0, 0.0), direction), rng)
    };
    let diffuse = |_: &Ray, hit: &HitRecord, mut rng: StdRng| match hit.material {
        Material::Lambertian(surface) => {
            let drawn = loop {
                if let Some(point) = Vec3::random_in_unit_sphere(&mut rng, 8) {
                    break arr(point);
                }
            };
            let length = dot(drawn, drawn).sqrt();
            let n = arr(hit.normal);
            let candidate = [
                n[0] + drawn[0] / length,
                n[1] + drawn[1] / length,
                n[2] + drawn[2] / length,
            ];
            let spread = candidate[0].abs() + candidate[1].abs() + candidate[2].abs();
            (surface.scatter(hit, v(candidate[0], candidate[1], candidate[2]), s(spread)), rng)
        }
        _ => (None, rng),
    };
    let rng = StdRng::seed_from_u64(seed);
    camera.render(&world, rng, &aim, &probe, &diffuse, &develop).0
}

#[test]
fn renders_from_one_seed_are_the_same_byte_for_byte() {
    let first = seeded_render(42);
    let second = seeded_render(42);
    assert_eq!(first, second);
    let text = String::from_utf8(first).unwrap();
    assert!(text.starts_with("P3\n6 4\n255\n"));
    assert_eq!(text.lines().count(), 3 + 6 * 4);
}

#[test]
fn renders_from_two_seeds_differ() {
    assert_ne!(seeded_render(1), seeded_render(2));
}

#[test]
fn escaped_path_hands_its_last_ray_on() {
    let world: HittableList<Sphere> = HittableList::new();
    let free = Camera::ray_color(&down(), &world, 5, 0u32, &probe, &scatter).0;
    assert_eq!(free.escaped(), Some(down()));
    let spent = Camera::ray_color(&down(), &world, 0, 0u32, &probe, &scatter).0;
    assert_eq!(spent.escaped(), None);
    let mut walled: HittableList<Sphere> = HittableList::new();
    walled.add(Sphere::new(v(0.0, -5.0, 0.0), s(1.0), Material::from(Dielectric::new(s(1.5)))));
    let swallowed = Camera::ray_color(&down(), &walled, 5, 0u32, &probe, &no_scatter).0;
    assert_eq!(swallowed.end, PathEnd::Absorbed);
    assert_eq!(swallowed.escaped(), None);
}

#[test]
fn path_hands_the_state_from_bounce_to_bounce() {
    let mut world: HittableList<Sphere> = HittableList::new();
    let near = Material::from(Metal::new(v(0.9, 0.9, 0.9), s(0.0)));
    world.add(Sphere::new(v(0.0, 0.0, -5.0), s(1.0), near));
    world.add(Sphere::new(v(0.0, 0.0, 5.0), s(1.0), near));
    let ray = Ray::new(v(0.0, 0.0, 0.0), v(0.0, 0.0, -1.0));
    // Every bounce asks the rule once; the state counts the asking.
    let (path, asked) = Camera::ray_color(&ray, &world, 7, 100u32, &probe, &scatter);
    assert_eq!(path.attenuations.len(), 7);
    assert_eq!(asked, 107);
    let (_, asked) = Camera::ray_color(&ray, &world, 0, 100u32, &probe, &scatter);
    assert_eq!(asked, 100);
    let empty: HittableList<Sphere> = HittableList::new();
    let (_, asked) = Camera::ray_color(&ray, &empty, 7, 100u32, &probe, &scatter);
    assert_eq!(asked, 100);
    let (path, asked) = Camera::ray_color(&ray, &world, 7, 100u32, &probe, &no_scatter);
    assert_eq!(path.end, PathEnd::Absorbed);
    assert_eq!(asked, 101);
}

#[test]
fn render_hands_the_state_from_pixel_to_pixel() {
    let camera = camera(3, 1.5, 2, 4);
    let world: HittableList<Sphere> = HittableList::new();
    // The state numbers the rays; each ray leans by its number.
    let aim = |_: i32, _: i32, number: u32| {
        (Ray::new(v(0.0, 0.0, 0.0), v(number as f64, 1.0, 0.0)), number + 1)
    };
    let leaning = |paths: &Vec<Path>| match (paths[0].end, paths[1].end) {
        (PathEnd::Escaped(first), PathEnd::Escaped(second)) => {
            v(f(first.direction.x) / 16.0, f(second.direction.x) / 16.0, 0.0)
        }
        _ => v(0.0, 0.0, 0.0),
    };
    let (image, number) = camera.render(&world, 0u32, &aim, &probe, &scatter, &leaning);
    assert_eq!(number, 12);
    let level = |c: f64| (256.0 * (c / 16.0).sqrt().min(0.999)) as u8;
    let mut want = String::from("P3\n3 2\n255\n");
    for pixel in 0..6 {
        let first = (2 * pixel) as f64;
        want.push_str(&format!("{} {} 0\n", level(first), level(first + 1.0)));
    }
    assert_eq!(String::from_utf8(image).unwrap(), want);
}
