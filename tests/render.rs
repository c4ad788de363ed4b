use lantern::camera::{Camera, InputEvent, Key, MousePosition};
use lantern::fixed::{isqrt, normalize, sin_cos, turn_sin_cos, Vec3, ONE, PI, TWO_PI};
use lantern::lantern::{hit_distance, perturbed_axis, reflect, tone_map, vec4_to_rgba, Color, Lantern, CHANNEL_MAX};
use lantern::ray::Ray;
use lantern::scene::{Material, Scene, Sphere};
use lantern::util::random_vec;

const HALF: i64 = ONE / 2;
/// 45 degrees in fixed-point radians.
const FOV_45: i64 = 51472;

fn v(x: i64, y: i64, z: i64) -> Vec3 {
    Vec3 { x, y, z }
}

fn norm_sq(a: &Vec3) -> i128 {
    (a.x as i128) * (a.x as i128) + (a.y as i128) * (a.y as i128) + (a.z as i128) * (a.z as i128)
}

fn is_unit(a: &Vec3) -> bool {
    let one = (ONE as i128) * (ONE as i128);
    9 * one <= 10 * norm_sq(a) && 10 * norm_sq(a) <= 11 * one
}

fn sphere(x: i64, y: i64, z: i64, radius: i64, material_index: usize) -> Sphere {
    Sphere { position: v(x, y, z), radius, material_index }
}

fn smooth(r: i64, g: i64, b: i64) -> Material {
    Material { albedo: v(r, g, b), roughness: 0, metallic: 0 }
}

fn floor_and_ball() -> Scene {
    Scene {
        spheres: vec![sphere(0, -101 * ONE, 0, 100 * ONE, 0), sphere(0, 0, 0, HALF, 1)],
        materials: vec![
            Material { albedo: v(13107, 19661, ONE), ..Material::default() },
            Material { albedo: v(ONE, 0, ONE), ..Material::default() },
        ],
    }
}

fn pixel_bytes(p: u32) -> (u32, u32, u32, u32) {
    (p & 0xff, (p >> 8) & 0xff, (p >> 16) & 0xff, p >> 24)
}

#[test]
fn front_hit_on_small_sphere() {
    let ray = Ray { origin: v(0, 0, -2 * ONE), direction: v(0, 0, ONE) };
    let scene = Scene { spheres: vec![sphere(0, 0, 0, HALF, 0)], materials: vec![Material::default()] };
    let l = Lantern::new(1, 1);
    let hit = l.trace_ray(&ray, &scene).expect("the ray meets the sphere");
    assert_eq!(hit.distance, 3 * ONE / 2);
    assert_eq!(hit.normal, v(0, 0, -ONE));
    assert_eq!(hit.position, v(0, 0, -HALF));
    assert_eq!(hit.sphere_index, 0);
}

#[test]
fn ray_from_inside_pointing_away_misses() {
    let ray = Ray { origin: v(0, 0, HALF / 2), direction: v(0, 0, ONE) };
    assert_eq!(hit_distance(&ray, &sphere(0, 0, 0, ONE, 0)), None);
    let scene = Scene { spheres: vec![sphere(0, 0, 0, ONE, 0)], materials: vec![] };
    assert!(Lantern::new(1, 1).trace_ray(&ray, &scene).is_none());
}

#[test]
fn sphere_behind_the_origin_is_not_hit() {
    let ray = Ray { origin: v(0, 0, 0), direction: v(0, 0, ONE) };
    assert_eq!(hit_distance(&ray, &sphere(0, 0, -5 * ONE, ONE, 0)), None);
}

#[test]
fn zero_direction_meets_nothing() {
    let ray = Ray { origin: v(0, 0, -2 * ONE), direction: v(0, 0, 0) };
    assert_eq!(hit_distance(&ray, &sphere(0, 0, 0, ONE, 0)), None);
}

#[test]
fn nearer_of_two_spheres_wins() {
    let ray = Ray { origin: v(0, 0, 0), direction: v(0, 0, ONE) };
    let scene = Scene {
        spheres: vec![sphere(0, 0, 10 * ONE, ONE, 0), sphere(0, 0, 4 * ONE, ONE, 0)],
        materials: vec![Material::default()],
    };
    let hit = Lantern::new(1, 1).trace_ray(&ray, &scene).unwrap();
    assert_eq!(hit.sphere_index, 1);
    assert_eq!(hit.distance, 3 * ONE);
}

#[test]
fn equal_distances_keep_the_earlier_sphere() {
    let ray = Ray { origin: v(0, 0, 0), direction: v(0, 0, ONE) };
    let scene = Scene {
        spheres: vec![sphere(0, 0, 4 * ONE, ONE, 0), sphere(0, 0, 4 * ONE, ONE, 0)],
        materials: vec![Material::default()],
    };
    let hit = Lantern::new(1, 1).trace_ray(&ray, &scene).unwrap();
    assert_eq!(hit.sphere_index, 0);
}

#[test]
fn smooth_surface_reflects_as_a_mirror() {
    let n = v(0, ONE, 0);
    let j = v(HALF, -HALF, HALF);
    assert_eq!(perturbed_axis(&n, 0, &j), n);
    assert_eq!(reflect(&v(ONE, -ONE, 0), &n), v(ONE, ONE, 0));
}

#[test]
fn rough_surface_tilts_the_axis() {
    let n = v(0, ONE, 0);
    let j = v(HALF, HALF, -HALF);
    let a = perturbed_axis(&n, ONE, &j);
    assert_ne!(a, n);
    assert!(is_unit(&a));
    assert!(a.x > 0 && a.y > 0 && a.z < 0);
}

#[test]
fn camera_rays_have_unit_length() {
    let camera = Camera::new(FOV_45, 6554, 100 * ONE, 9, 7);
    assert_eq!(camera.rays.len(), 63);
    for r in &camera.rays {
        assert!(is_unit(r), "{:?}", r);
    }
}

#[test]
fn camera_center_ray_looks_forward() {
    let camera = Camera::new(FOV_45, 6554, 100 * ONE, 4, 4);
    assert_eq!(camera.rays[2 * 4 + 2], v(0, 0, ONE));
    assert_eq!(camera.position, v(0, 0, -ONE));
}

#[test]
fn camera_resize_to_same_size_keeps_rays() {
    let mut camera = Camera::new(FOV_45, 6554, 100 * ONE, 5, 3);
    let before = camera.rays.clone();
    camera.resize(5, 3);
    assert_eq!(camera.rays, before);
    camera.resize(0, 3);
    assert_eq!(camera.rays, before);
    camera.resize(6, 4);
    assert_eq!(camera.rays.len(), 24);
}

#[test]
fn camera_keys_set_flags_and_move() {
    let mut camera = Camera::new(FOV_45, 6554, 100 * ONE, 4, 4);
    assert!(!camera.update(16));
    assert!(camera.input(&InputEvent::Keyboard { key: Key::W, pressed: true }, false));
    assert!(camera.inputs.forward);
    assert!(camera.update(1000));
    // five units per second for at most a sixtieth of a second
    assert_eq!(camera.position, v(0, 0, -ONE + 5 * 1092));
    assert!(camera.input(&InputEvent::Keyboard { key: Key::W, pressed: false }, false));
    assert!(!camera.update(16));
    assert!(!camera.input(&InputEvent::Keyboard { key: Key::Other, pressed: true }, false));
}

#[test]
fn grab_key_toggles_on_press_only() {
    let mut camera = Camera::new(FOV_45, 6554, 100 * ONE, 4, 4);
    assert!(camera.input(&InputEvent::Keyboard { key: Key::C, pressed: true }, false));
    assert!(camera.grab_mouse);
    assert!(!camera.input(&InputEvent::Keyboard { key: Key::C, pressed: false }, false));
    assert!(camera.grab_mouse);
    assert!(camera.input(&InputEvent::Keyboard { key: Key::C, pressed: true }, false));
    assert!(!camera.grab_mouse);
}

#[test]
fn pointer_motion_turns_the_camera() {
    let mut camera = Camera::new(FOV_45, 6554, 100 * ONE, 4, 4);
    let hovering = InputEvent::CursorMoved { position: MousePosition { x: 100, y: 0 } };
    assert!(!camera.input(&hovering, true));
    assert_eq!(camera.forward, v(0, 0, ONE));
    assert!(camera.input(&hovering, false));
    assert_eq!(camera.last_mouse, MousePosition { x: 100, y: 0 });
    // 100 pixels at 0.0014 rad each turn the camera about world up toward +x
    assert!(camera.forward.x > 0);
    assert_eq!(camera.forward.y, 0);
    assert!(is_unit(&camera.forward));
    for r in &camera.rays {
        assert!(is_unit(r));
    }
}

#[test]
fn steady_scene_accumulates_and_resets() {
    let scene = Scene { spheres: vec![sphere(0, 0, 3 * ONE, ONE, 0)], materials: vec![smooth(ONE, HALF, 0)] };
    let camera = Camera::new(FOV_45, 6554, 100 * ONE, 3, 3);
    let mut l = Lantern::new(3, 3);
    assert_eq!(l.acc_counter, 1);
    l.update(&scene, &camera);
    assert_eq!(l.acc_counter, 2);
    let first = l.path_acc.clone();
    let image = l.final_image_data.clone();
    l.update(&scene, &camera);
    assert_eq!(l.acc_counter, 3);
    for i in 0..9 {
        let (a, b) = (first[i], l.path_acc[i]);
        assert_eq!((b.r, b.g, b.b, b.a), (2 * a.r, 2 * a.g, 2 * a.b, 2 * a.a));
    }
    assert_eq!(l.final_image_data, image);
    l.reset_counter();
    assert_eq!(l.acc_counter, 1);
    l.update(&scene, &camera);
    assert_eq!(l.path_acc, first);
}

#[test]
fn accumulation_off_keeps_counter_at_one() {
    let scene = floor_and_ball();
    let camera = Camera::new(FOV_45, 6554, 100 * ONE, 2, 2);
    let mut l = Lantern::new(2, 2);
    l.settings.should_accumulate = false;
    l.update(&scene, &camera);
    assert_eq!(l.acc_counter, 1);
    l.update(&scene, &camera);
    assert_eq!(l.acc_counter, 1);
}

#[test]
fn mismatched_camera_leaves_frame_alone() {
    let scene = floor_and_ball();
    let camera = Camera::new(FOV_45, 6554, 100 * ONE, 2, 2);
    let mut l = Lantern::new(3, 3);
    l.update(&scene, &camera);
    assert_eq!(l.acc_counter, 1);
    assert!(l.final_image_data.iter().all(|p| *p == 0));
}

#[test]
fn lantern_resize_reallocates_and_restarts() {
    let scene = floor_and_ball();
    let camera = Camera::new(FOV_45, 6554, 100 * ONE, 2, 2);
    let mut l = Lantern::new(2, 2);
    l.update(&scene, &camera);
    let image = l.final_image_data.clone();
    l.resize(2, 2);
    assert_eq!(l.acc_counter, 2);
    assert_eq!(l.final_image_data, image);
    l.resize(4, 3);
    assert_eq!(l.acc_counter, 1);
    assert_eq!(l.final_image_data.len(), 12);
    assert_eq!(l.path_acc.len(), 12);
    assert!(l.path_acc.iter().all(|c| *c == Color { r: 0, g: 0, b: 0, a: 0 }));
}

#[test]
fn floor_and_ball_frame() {
    let scene = floor_and_ball();
    // a quarter turn of vertical field of view
    let camera = Camera::new(102944, 6554, 100 * ONE, 16, 16);
    let mut l = Lantern::new(16, 16);
    l.settings.should_accumulate = false;
    l.update(&scene, &camera);
    let center = pixel_bytes(l.final_image_data[8 * 16 + 8]);
    assert!(center.0 + center.1 + center.2 > 0);
    // the front of the magenta ball is lit: red and blue, no green from the first hit
    assert!(center.0 > 0 && center.2 > 0);
    let corner = pixel_bytes(l.final_image_data[16 * 16 - 1]);
    assert_eq!(corner, (153, 178, 229, 255));
}

#[test]
fn out_of_range_material_is_white() {
    let scene = Scene { spheres: vec![sphere(0, 0, 3 * ONE, ONE, 7)], materials: vec![smooth(0, 0, ONE)] };
    assert_eq!(scene.material_for(&scene.spheres[0]), Material::default());
    assert_eq!(scene.material_for(&sphere(0, 0, 0, ONE, 0)), smooth(0, 0, ONE));
}

#[test]
fn packing_puts_red_in_the_low_byte() {
    let p = vec4_to_rgba(&Color { r: ONE, g: HALF, b: 0, a: ONE });
    assert_eq!(p, (255 << 24) | (127 << 8) | 255);
    let clamped = vec4_to_rgba(&Color { r: 2 * ONE, g: -ONE, b: ONE / 4, a: 0 });
    assert_eq!(clamped, (63 << 16) | 255);
}

#[test]
fn tone_map_divides_by_largest_channel() {
    let c = tone_map(&Color { r: 2 * ONE, g: ONE, b: 0, a: ONE });
    assert_eq!(c, Color { r: ONE, g: HALF, b: 0, a: HALF });
    assert_eq!(tone_map(&Color { r: 0, g: 0, b: 0, a: 0 }), Color { r: 0, g: 0, b: 0, a: 0 });
}

#[test]
fn random_vectors_stay_in_range() {
    for _ in 0..200 {
        let r = random_vec(-HALF, HALF);
        assert!((-HALF..=HALF).contains(&r.x));
        assert!((-HALF..=HALF).contains(&r.y));
        assert!((-HALF..=HALF).contains(&r.z));
    }
    assert_eq!(random_vec(3, 3), v(3, 3, 3));
}

#[test]
fn integer_square_roots() {
    assert_eq!(isqrt(0), 0);
    assert_eq!(isqrt(15), 3);
    assert_eq!(isqrt(16), 4);
    assert_eq!(isqrt(1 << 64), 1 << 32);
    assert_eq!(isqrt(u128::MAX), u64::MAX as u128);
}

#[test]
fn normalize_scales_to_unit_and_rejects_tiny() {
    assert_eq!(normalize(&v(3 * ONE, 0, 4 * ONE)), Some(v(39321, 0, 52428)));
    assert_eq!(normalize(&v(0, -7 * ONE, 0)), Some(v(0, -ONE, 0)));
    assert_eq!(normalize(&v(10, 10, 10)), None);
}

#[test]
fn sine_and_cosine_of_known_angles() {
    let (s, c) = sin_cos(0);
    assert_eq!((s, c), (0, ONE));
    // pi / 6
    let (s, c) = sin_cos(34315);
    assert!((s - HALF).abs() < 8, "{}", s);
    assert!((c - 56756).abs() < 8, "{}", c);
}

#[test]
fn origin_just_inside_toward_centre_misses() {
    let ray = Ray { origin: v(115, 887, -199998), direction: v(0, 0, ONE) };
    let ball = sphere(0, 0, 0, 200000, 0);
    assert_eq!(hit_distance(&ray, &ball), None);
    let scene = Scene { spheres: vec![ball], materials: vec![Material::default()] };
    assert!(Lantern::new(1, 1).trace_ray(&ray, &scene).is_none());
}

#[test]
fn origin_on_the_surface_hits_at_zero() {
    let ray = Ray { origin: v(0, 0, -ONE), direction: v(0, 0, ONE) };
    assert_eq!(hit_distance(&ray, &sphere(0, 0, 0, ONE, 0)), Some(0));
}

#[test]
fn large_pointer_jump_turns_past_a_quarter() {
    let mut camera = Camera::new(FOV_45, 6554, 100 * ONE, 4, 4);
    // 2000 pixels at 0.0014 rad each: 2.8 rad about world up
    assert!(camera.input(&InputEvent::CursorMoved { position: MousePosition { x: 2000, y: 0 } }, false));
    let f = camera.forward;
    assert!(is_unit(&f));
    assert!((f.x - 21946).abs() < 200, "{:?}", f);
    assert!((f.z + 61746).abs() < 200, "{:?}", f);
    assert_eq!(f.y, 0);
}

#[test]
fn angles_reduce_by_whole_turns() {
    let (s, c) = turn_sin_cos(PI);
    assert!(s.abs() < 8 && (c + ONE).abs() < 8, "{} {}", s, c);
    let (s, c) = turn_sin_cos(TWO_PI + 34315);
    assert!((s - HALF).abs() < 8 && (c - 56756).abs() < 8, "{} {}", s, c);
    let (s, c) = turn_sin_cos(-3 * PI / 4);
    assert!((s + 46341).abs() < 16 && (c + 46341).abs() < 16, "{} {}", s, c);
}

#[test]
fn one_frame_samples_stay_within_channel_bound() {
    let scene = floor_and_ball();
    let camera = Camera::new(FOV_45, 6554, 100 * ONE, 8, 8);
    let mut l = Lantern::new(8, 8);
    l.update(&scene, &camera);
    for c in &l.path_acc {
        assert!(0 <= c.r && c.r <= CHANNEL_MAX && 0 <= c.g && c.g <= CHANNEL_MAX && 0 <= c.b && c.b <= CHANNEL_MAX);
        assert_eq!(c.a, ONE);
    }
}

#[test]
fn reset_keeps_buffers() {
    let scene = floor_and_ball();
    let camera = Camera::new(FOV_45, 6554, 100 * ONE, 2, 2);
    let mut l = Lantern::new(2, 2);
    l.update(&scene, &camera);
    let (image, sums) = (l.final_image_data.clone(), l.path_acc.clone());
    l.reset_counter();
    assert_eq!(l.final_image_data, image);
    assert_eq!(l.path_acc, sums);
}
