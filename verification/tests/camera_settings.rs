use raytracer::camera::{image_height, Camera, ConfigError};
use raytracer::scalar::Scalar;
use raytracer::vec3::Vec3;

fn s(x: f64) -> Scalar {
    Scalar::from_bits(x.to_bits())
}

fn v(x: f64, y: f64, z: f64) -> Vec3 {
    Vec3::new(s(x), s(y), s(z))
}

struct Wanted {
    aspect_ratio: f64,
    image_width: i32,
    samples_per_pixel: i32,
    max_depth: i32,
    vfov: f64,
    look_from: Vec3,
    look_at: Vec3,
    vup: Vec3,
    defocus_angle: f64,
    focus_distance: f64,
}

fn wanted() -> Wanted {
    Wanted {
        aspect_ratio: 16.0 / 9.0,
        image_width: 1200,
        samples_per_pixel: 500,
        max_depth: 50,
        vfov: 20.0,
        look_from: v(13.0, 2.0, 3.0),
        look_at: v(0.0, 0.0, 0.0),
        vup: v(0.0, 1.0, 0.0),
        defocus_angle: 0.6,
        focus_distance: 10.0,
    }
}

fn f(x: Scalar) -> f64 {
    f64::from_bits(x.to_bits())
}

/// The squared length of the cross product of `vup` with the viewing
/// direction, in arithmetic on doubles.
fn sideways(vup: Vec3, look_from: Vec3, look_at: Vec3) -> f64 {
    let u = [f(vup.x), f(vup.y), f(vup.z)];
    let d = [
        f(look_from.x) - f(look_at.x),
        f(look_from.y) - f(look_at.y),
        f(look_from.z) - f(look_at.z),
    ];
    let c = [
        u[1] * d[2] - u[2] * d[1],
        u[2] * d[0] - u[0] * d[2],
        u[0] * d[1] - u[1] * d[0],
    ];
    c[0] * c[0] + c[1] * c[1] + c[2] * c[2]
}

fn make(w: &Wanted) -> Result<Camera, ConfigError> {
    Camera::new(
        s(w.aspect_ratio),
        w.image_width,
        w.samples_per_pixel,
        w.max_depth,
        s(w.vfov),
        w.look_from,
        w.look_at,
        w.vup,
        s(sideways(w.vup, w.look_from, w.look_at)),
        s(w.defocus_angle),
        s(w.focus_distance),
    )
}

#[test]
fn image_height_is_the_rounded_quotient() {
    assert_eq!(image_height(1200, s(16.0 / 9.0)), 675);
    assert_eq!(image_height(400, s(16.0 / 9.0)), 225);
    assert_eq!(image_height(400, s(2.0)), 200);
    assert_eq!(image_height(100, s(1.0)), 100);
    assert_eq!(image_height(100, s(0.5)), 200);
    assert_eq!(image_height(7, s(3.0)), 2);
    assert_eq!(image_height(8, s(3.0)), 3);
}

#[test]
fn image_height_rounds_halves_up() {
    assert_eq!(image_height(3, s(2.0)), 2);
    assert_eq!(image_height(5, s(2.0)), 3);
    assert_eq!(image_height(1, s(2.0)), 1);
    assert_eq!(image_height(5, s(10.0)), 1);
    assert_eq!(image_height(25, s(10.0)), 3);
}

#[test]
fn image_height_is_at_least_one() {
    assert_eq!(image_height(1, s(1000.0)), 1);
    assert_eq!(image_height(400, s(1000.0)), 1);
    assert_eq!(image_height(1, s(3.0)), 1);
    assert_eq!(image_height(1, s(1e300)), 1);
    assert_eq!(image_height(i32::MAX, s(f64::MAX)), 1);
    assert_eq!(image_height(i32::MAX, s(1e18)), 1);
    assert_eq!(image_height(1, s(9007199254740992.0)), 1);
    assert_eq!(image_height(1, s(18014398509481984.0)), 1);
}

#[test]
fn image_height_stops_at_the_largest_integer() {
    assert_eq!(image_height(1, s(1e-300)), i32::MAX);
    assert_eq!(image_height(1, s(5e-324)), i32::MAX);
    assert_eq!(image_height(1, s(f64::MIN_POSITIVE)), i32::MAX);
    assert_eq!(image_height(i32::MAX, s(1.0)), i32::MAX);
    assert_eq!(image_height(i32::MAX, s(0.5)), i32::MAX);
    assert_eq!(image_height(1 << 30, s(0.5)), i32::MAX);
    assert_eq!(image_height(1 << 29, s(0.5)), 1 << 30);
    assert_eq!(image_height(1, s(1.0 / 4294967296.0)), i32::MAX);
    assert_eq!(image_height(1, s(1.0 / 1073741824.0)), 1 << 30);
}

#[test]
fn image_height_agrees_with_arithmetic_on_doubles() {
    let mut state: u64 = 0x9e37_79b9_7f4a_7c15;
    for _ in 0..20000 {
        state = state.wrapping_mul(6364136223846793005).wrapping_add(1442695040888963407);
        let width = 1 + ((state >> 40) % 4000) as i32;
        state = state.wrapping_mul(6364136223846793005).wrapping_add(1442695040888963407);
        let ratio = 0.05 + (state >> 11) as f64 / (1u64 << 53) as f64 * 40.0;
        let quotient = width as f64 / ratio;
        // Leave out quotients so close to a half that the division's own
        // rounding could decide.
        if (quotient - quotient.floor() - 0.5).abs() < 1e-9 {
            continue;
        }
        let want = ((quotient + 0.5).floor() as i32).max(1);
        assert_eq!(image_height(width, s(ratio)), want, "{} / {}", width, ratio);
    }
}

#[test]
fn camera_keeps_its_settings() {
    let w = wanted();
    let camera = make(&w).unwrap();
    let settings = camera.settings();
    assert_eq!(settings.aspect_ratio, s(16.0 / 9.0));
    assert_eq!(settings.image_width, 1200);
    assert_eq!(settings.samples_per_pixel, 500);
    assert_eq!(settings.max_depth, 50);
    assert_eq!(settings.vfov, s(20.0));
    assert_eq!(settings.look_from, v(13.0, 2.0, 3.0));
    assert_eq!(settings.look_at, v(0.0, 0.0, 0.0));
    assert_eq!(settings.vup, v(0.0, 1.0, 0.0));
    assert_eq!(settings.sideways, s(178.0));
    assert_eq!(settings.defocus_angle, s(0.6));
    assert_eq!(settings.focus_distance, s(10.0));
    assert_eq!(camera.image_height(), 675);
    assert!(!camera.pinhole());
}

#[test]
fn camera_without_defocus_is_a_pinhole() {
    let mut w = wanted();
    w.defocus_angle = 0.0;
    assert!(make(&w).unwrap().pinhole());
    w.defocus_angle = -0.0;
    assert!(make(&w).unwrap().pinhole());
}

#[test]
fn camera_accepts_a_depth_of_zero() {
    let mut w = wanted();
    w.max_depth = 0;
    assert!(make(&w).is_ok());
}

#[test]
fn camera_refuses_a_bad_aspect_ratio() {
    for bad in [0.0, -1.0, f64::NAN, f64::INFINITY, f64::NEG_INFINITY] {
        let mut w = wanted();
        w.aspect_ratio = bad;
        assert_eq!(make(&w).unwrap_err(), ConfigError::AspectRatio);
    }
}

#[test]
fn camera_refuses_a_bad_image_width() {
    for bad in [0, -1, i32::MIN] {
        let mut w = wanted();
        w.image_width = bad;
        assert_eq!(make(&w).unwrap_err(), ConfigError::ImageWidth);
    }
}

#[test]
fn camera_refuses_a_bad_sample_count() {
    for bad in [0, -5] {
        let mut w = wanted();
        w.samples_per_pixel = bad;
        assert_eq!(make(&w).unwrap_err(), ConfigError::SamplesPerPixel);
    }
}

#[test]
fn camera_refuses_a_negative_depth() {
    let mut w = wanted();
    w.max_depth = -1;
    assert_eq!(make(&w).unwrap_err(), ConfigError::MaxDepth);
}

#[test]
fn camera_refuses_a_bad_field_of_view() {
    for bad in [0.0, -20.0, 180.0, 200.0, f64::NAN, f64::INFINITY] {
        let mut w = wanted();
        w.vfov = bad;
        assert_eq!(make(&w).unwrap_err(), ConfigError::FieldOfView);
    }
    let mut w = wanted();
    w.vfov = f64::from_bits(180.0f64.to_bits() - 1);
    assert!(make(&w).is_ok());
    w.vfov = 5e-324;
    assert!(make(&w).is_ok());
}

#[test]
fn camera_refuses_to_look_at_itself() {
    let mut w = wanted();
    w.look_at = w.look_from;
    assert_eq!(make(&w).unwrap_err(), ConfigError::LookAt);
    w.look_from = v(0.0, 1.0, -0.0);
    w.look_at = v(-0.0, 1.0, 0.0);
    assert_eq!(make(&w).unwrap_err(), ConfigError::LookAt);
    w.look_at = v(f64::NAN, 1.0, 0.0);
    assert_eq!(make(&w).unwrap_err(), ConfigError::LookAt);
    w.look_at = v(0.0, 0.0, 0.0);
    w.look_from = v(0.0, f64::INFINITY, 0.0);
    assert_eq!(make(&w).unwrap_err(), ConfigError::LookAt);
}

#[test]
fn camera_refuses_a_bad_up_vector() {
    let mut w = wanted();
    w.vup = v(0.0, -0.0, 0.0);
    assert_eq!(make(&w).unwrap_err(), ConfigError::Up);
    w.vup = v(0.0, f64::NAN, 0.0);
    assert_eq!(make(&w).unwrap_err(), ConfigError::Up);
}

#[test]
fn camera_refuses_an_up_vector_along_the_view() {
    let mut w = wanted();
    w.look_from = v(0.0, 0.0, 1.0);
    w.look_at = v(0.0, 0.0, 0.0);
    w.vup = v(0.0, 0.0, 1.0);
    assert_eq!(make(&w).unwrap_err(), ConfigError::Up);
    w.vup = v(0.0, 0.0, -3.5);
    assert_eq!(make(&w).unwrap_err(), ConfigError::Up);
    w.look_from = v(2.0, 4.0, -6.0);
    w.vup = v(-1.0, -2.0, 3.0);
    assert_eq!(make(&w).unwrap_err(), ConfigError::Up);
    w.vup = v(-1.0, -2.0, 3.5);
    assert!(make(&w).is_ok());
}

#[test]
fn camera_refuses_a_sideways_that_is_not_above_zero() {
    let w = wanted();
    for bad in [0.0, -0.0, -1.0, f64::NAN, f64::NEG_INFINITY] {
        let made = Camera::new(
            s(w.aspect_ratio),
            w.image_width,
            w.samples_per_pixel,
            w.max_depth,
            s(w.vfov),
            w.look_from,
            w.look_at,
            w.vup,
            s(bad),
            s(w.defocus_angle),
            s(w.focus_distance),
        );
        assert_eq!(made.unwrap_err(), ConfigError::Up);
    }
}

#[test]
fn camera_refuses_a_bad_defocus_angle() {
    for bad in [-0.1, f64::NAN, f64::INFINITY] {
        let mut w = wanted();
        w.defocus_angle = bad;
        assert_eq!(make(&w).unwrap_err(), ConfigError::DefocusAngle);
    }
}

#[test]
fn camera_refuses_a_bad_focus_distance() {
    for bad in [0.0, -10.0, f64::NAN, f64::INFINITY] {
        let mut w = wanted();
        w.focus_distance = bad;
        assert_eq!(make(&w).unwrap_err(), ConfigError::FocusDistance);
    }
}

#[test]
fn camera_names_the_first_bad_setting() {
    let mut w = wanted();
    w.focus_distance = 0.0;
    w.vfov = 0.0;
    w.image_width = 0;
    assert_eq!(make(&w).unwrap_err(), ConfigError::ImageWidth);
    w.image_width = 10;
    assert_eq!(make(&w).unwrap_err(), ConfigError::FieldOfView);
    w.vfov = 90.0;
    assert_eq!(make(&w).unwrap_err(), ConfigError::FocusDistance);
}
