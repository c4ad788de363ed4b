//! A first-person camera: its orientation, its movement, and the direction of the ray
//! through each pixel of the viewport.
use vstd::prelude::*;

use crate::fixed::{
    bounded, cos_spec, div_trunc, div_trunc_i128, fmul, is_unit, lemma_div_trunc_le, lemma_fmul_bound,
    lemma_mul_bounds, normalize, normalize_spec, scale_component, sin_any, cos_any, turn_sin_cos, vec_of,
    Vec3, ANGLE_LIMIT, HALF_PI, ONE, sin_cos, sin_spec,
};

verus! {

/// Largest width or height of a viewport, in pixels.
pub const MAX_VIEWPORT: u32 = 16384;

/// Largest tangent of half the vertical field of view (256).
pub const TAN_MAX: i64 = 0x100_0000;

/// Largest magnitude of the camera position's coordinates.
pub const CAMERA_LIMIT: i64 = 0x4_0000_0000;

/// Radians of rotation per unit of normalized pointer motion (0.7).
pub const ROTATION_SPEED: i64 = 45875;

/// Units of movement per second (5).
pub const MOVEMENT_SPEED: i64 = 327680;

/// Longest time step of one update: a sixtieth of a second, in fixed point.
pub const MAX_TIME_STEP: i64 = 1092;

/// The direction keys, each held down or not.
#[derive(Clone, Copy, Debug, PartialEq, Eq, Structural)]
pub struct MoveKeys {
    pub forward: bool,
    pub left: bool,
    pub back: bool,
    pub right: bool,
    pub up: bool,
    pub down: bool,
}

/// The keys that the camera reacts to.
#[derive(Clone, Copy, Debug, PartialEq, Eq, Structural)]
pub enum Key {
    W,
    A,
    S,
    D,
    Space,
    LShift,
    C,
    Other,
}

/// A pointer position, in pixels.
#[derive(Clone, Copy, Debug, PartialEq, Eq, Structural)]
pub struct MousePosition {
    pub x: i32,
    pub y: i32,
}

/// An input event that the camera may consume.
#[derive(Clone, Copy, Debug, PartialEq, Eq, Structural)]
pub enum InputEvent {
    CursorMoved { position: MousePosition },
    Keyboard { key: Key, pressed: bool },
    Other,
}

/// A perspective camera at `position` looking along the unit vector `forward`, with
/// the unit direction of the ray through each pixel, row by row from the top left.
pub struct Camera {
    pub vertical_fov: i64,
    pub near: i64,
    pub far: i64,
    pub tan_half_fov: i64,
    pub position: Vec3,
    pub forward: Vec3,
    pub rays: Vec<Vec3>,
    pub last_mouse: MousePosition,
    pub width: u32,
    pub height: u32,
    pub inputs: MoveKeys,
    pub grab_mouse: bool,
}

/// The tangent of half the field of view `fov`, with the half angle held in
/// `[0, pi / 2]` and the tangent in `[0, TAN_MAX]`.
pub open spec fn tan_half_spec(fov: int) -> int {
    let h = div_trunc(fov, 2);
    let half = if h < 0 {
        0
    } else if h > HALF_PI {
        HALF_PI as int
    } else {
        h
    };
    let s = sin_spec(half);
    let c = cos_spec(half);
    if s <= 0 {
        0
    } else if c <= 0 {
        TAN_MAX as int
    } else if (s * ONE) / c > TAN_MAX {
        TAN_MAX as int
    } else {
        (s * ONE) / c
    }
}

/// The cross product `a x b`, in fixed point.
pub open spec fn cross(a: Vec3, b: Vec3) -> Vec3 {
    vec_of(
        div_trunc(a.y * b.z - a.z * b.y, ONE as int),
        div_trunc(a.z * b.x - a.x * b.z, ONE as int),
        div_trunc(a.x * b.y - a.y * b.x, ONE as int),
    )
}

/// The camera's right axis, world up crossed with `f`, normalized; the x axis where
/// `f` points straight up or down.
pub open spec fn right_axis(f: Vec3) -> Vec3 {
    match normalize_spec(vec_of(f.z as int, 0, -f.x)) {
        Some(r) => r,
        None => Vec3 { x: ONE, y: 0, z: 0 },
    }
}

/// The camera's up axis, `f` crossed with the right axis `r`, normalized.
pub open spec fn up_axis(f: Vec3, r: Vec3) -> Vec3 {
    match normalize_spec(cross(f, r)) {
        Some(u) => u,
        None => Vec3 { x: 0, y: ONE, z: 0 },
    }
}

/// The direction of the ray through pixel `(x, y)`: the pixel is mapped to `[-1, 1]`
/// on both axes, scaled by the tangent of half the field of view (and the aspect
/// ratio across), taken along the camera's axes and normalized.
pub open spec fn pixel_direction(f: Vec3, t: int, w: int, h: int, x: int, y: int) -> Vec3 {
    let cx = (2 * x * ONE) / w - ONE;
    let cy = (2 * y * ONE) / h - ONE;
    let vx = div_trunc(cx * t * w, h * ONE);
    let vy = div_trunc(cy * t, ONE as int);
    let r = right_axis(f);
    let u = up_axis(f, r);
    let raw = vec_of(
        div_trunc(r.x * vx + u.x * vy + f.x * ONE, ONE as int),
        div_trunc(r.y * vx + u.y * vy + f.y * ONE, ONE as int),
        div_trunc(r.z * vx + u.z * vy + f.z * ONE, ONE as int),
    );
    match normalize_spec(raw) {
        Some(d) => d,
        None => f,
    }
}

/// The direction of the ray at index `i` of the row-major ray array.
pub open spec fn ray_direction(f: Vec3, t: int, w: int, h: int, i: int) -> Vec3 {
    pixel_direction(f, t, w, h, i % w, i / w)
}

/// The angle, in fixed-point radians, of a pointer motion of `delta` pixels: 0.002
/// units of normalized motion per pixel at `ROTATION_SPEED` (0.0014 radians a pixel).
pub open spec fn angle_of(delta: int) -> int {
    div_trunc(delta * ONE * 7, 5000)
}

/// `v` turned about world up by the angle whose sine and cosine are `s` and `c`.
pub open spec fn yaw_spec(v: Vec3, s: int, c: int) -> Vec3 {
    vec_of(
        fmul(v.x as int, c) + fmul(v.z as int, s),
        v.y as int,
        fmul(v.z as int, c) - fmul(v.x as int, s),
    )
}

/// `v` turned about the unit axis `r` by the angle whose sine and cosine are `s` and
/// `c` (Rodrigues' formula).
pub open spec fn pitch_spec(v: Vec3, r: Vec3, s: int, c: int) -> Vec3 {
    let k = cross(r, v);
    let d = div_trunc(
        r.x * v.x + r.y * v.y + r.z * v.z,
        ONE as int,
    );
    let e = fmul(d, ONE - c);
    vec_of(
        fmul(v.x as int, c) + fmul(k.x as int, s) + fmul(r.x as int, e),
        fmul(v.y as int, c) + fmul(k.y as int, s) + fmul(r.y as int, e),
        fmul(v.z as int, c) + fmul(k.z as int, s) + fmul(r.z as int, e),
    )
}

/// The forward direction `f` turned by `yaw` about world up, then by `pitch` about the
/// camera's right axis, and renormalized; `f` itself where the result has no length.
/// Where `f` points straight up or down there is no right axis and only the yaw applies.
pub open spec fn rotated_forward(f: Vec3, yaw: int, pitch: int) -> Vec3 {
    let v1 = yaw_spec(f, sin_any(yaw), cos_any(yaw));
    let v2 = match normalize_spec(vec_of(f.z as int, 0, -f.x)) {
        Some(r) => pitch_spec(v1, r, sin_any(pitch), cos_any(pitch)),
        None => v1,
    };
    match normalize_spec(v2) {
        Some(n) => n,
        None => f,
    }
}

/// The time step of a frame of `ms` milliseconds, in fixed-point seconds, at most a
/// sixtieth of a second.
pub open spec fn time_step(ms: int) -> int {
    if (ms * ONE) / 1000 > MAX_TIME_STEP {
        MAX_TIME_STEP as int
    } else {
        (ms * ONE) / 1000
    }
}

/// `v` held in `[-CAMERA_LIMIT, CAMERA_LIMIT]`.
pub open spec fn clamp_coord(v: int) -> int {
    if v < -CAMERA_LIMIT {
        -CAMERA_LIMIT as int
    } else if v > CAMERA_LIMIT {
        CAMERA_LIMIT as int
    } else {
        v
    }
}

/// `a` if `on`, else zero.
pub open spec fn when(on: bool, a: int) -> int {
    if on {
        a
    } else {
        0
    }
}

/// The position after moving for `ms` milliseconds with the keys `k` held: along
/// forward, along right (world up crossed with forward, not normalized) and along
/// world up, each at `MOVEMENT_SPEED`, then held within `CAMERA_LIMIT`.
pub open spec fn moved_position(p: Vec3, f: Vec3, k: MoveKeys, ms: int) -> Vec3 {
    let dist = fmul(MOVEMENT_SPEED as int, time_step(ms));
    let fx = fmul(f.x as int, dist);
    let fy = fmul(f.y as int, dist);
    let fz = fmul(f.z as int, dist);
    let rx = fmul(f.z as int, dist);
    let rz = fmul(-f.x, dist);
    vec_of(
        clamp_coord(p.x + when(k.forward, fx) - when(k.back, fx) + when(k.right, rx) - when(k.left, rx)),
        clamp_coord(p.y + when(k.forward, fy) - when(k.back, fy) + when(k.up, dist) - when(k.down, dist)),
        clamp_coord(p.z + when(k.forward, fz) - when(k.back, fz) + when(k.right, rz) - when(k.left, rz)),
    )
}

/// The direction keys after `key` is pressed or released.
pub open spec fn keys_after(k: MoveKeys, key: Key, pressed: bool) -> MoveKeys {
    match key {
        Key::W => MoveKeys { forward: pressed, ..k },
        Key::A => MoveKeys { left: pressed, ..k },
        Key::S => MoveKeys { back: pressed, ..k },
        Key::D => MoveKeys { right: pressed, ..k },
        Key::Space => MoveKeys { up: pressed, ..k },
        Key::LShift => MoveKeys { down: pressed, ..k },
        _ => k,
    }
}

/// Whether the camera consumes `event`: pointer motion when the pointer is not over
/// the interface, any direction key, and a press of the grab toggle.
pub open spec fn consumes(event: InputEvent, is_hovering: bool) -> bool {
    match event {
        InputEvent::CursorMoved { .. } => !is_hovering,
        InputEvent::Keyboard { key, pressed } => match key {
            Key::Other => false,
            Key::C => pressed,
            _ => true,
        },
        InputEvent::Other => false,
    }
}

/// The state that an input event changes: the direction keys, the grab flag, the
/// last pointer position and the forward direction.
pub open spec fn input_spec(c: Camera, event: InputEvent, is_hovering: bool) -> (MoveKeys, bool, MousePosition, Vec3) {
    match event {
        InputEvent::CursorMoved { position } => if is_hovering {
            (c.inputs, c.grab_mouse, c.last_mouse, c.forward)
        } else {
            (
                c.inputs,
                c.grab_mouse,
                position,
                rotated_forward(
                    c.forward,
                    angle_of(position.x - c.last_mouse.x),
                    angle_of(position.y - c.last_mouse.y),
                ),
            )
        },
        InputEvent::Keyboard { key, pressed } => match key {
            Key::C => (c.inputs, if pressed { !c.grab_mouse } else { c.grab_mouse }, c.last_mouse, c.forward),
            _ => (keys_after(c.inputs, key, pressed), c.grab_mouse, c.last_mouse, c.forward),
        },
        InputEvent::Other => (c.inputs, c.grab_mouse, c.last_mouse, c.forward),
    }
}

/// The tangent of half the field of view, as `tan_half_spec` gives it.
pub fn tan_half(fov: i64) -> (r: i64)
    ensures
        r == tan_half_spec(fov as int),
        0 <= r <= TAN_MAX,
{
    let h = div_trunc_i128(fov as i128, 2) as i64;
    let half = if h < 0 {
        0
    } else if h > HALF_PI {
        HALF_PI
    } else {
        h
    };
    let sc = sin_cos(half);
    let s = sc.0;
    let c = sc.1;
    if s <= 0 {
        0
    } else if c <= 0 {
        TAN_MAX
    } else {
        let q: u64 = ((s as u64) * 65536) / (c as u64);
        if q > TAN_MAX as u64 {
            TAN_MAX
        } else {
            q as i64
        }
    }
}

/// The cross product of two vectors, as `cross` gives it.
pub fn cross_product(a: &Vec3, b: &Vec3) -> (r: Vec3)
    requires
        bounded(*a, 0x40_0000),
        bounded(*b, 0x40_0000),
    ensures
        r == cross(*a, *b),
        bounded(r, 0x2000_0000),
{
    proof {
        lemma_mul_bounds(a.y as int, b.z as int, 0x40_0000, 0x40_0000);
        lemma_mul_bounds(a.z as int, b.y as int, 0x40_0000, 0x40_0000);
        lemma_mul_bounds(a.z as int, b.x as int, 0x40_0000, 0x40_0000);
        lemma_mul_bounds(a.x as int, b.z as int, 0x40_0000, 0x40_0000);
        lemma_mul_bounds(a.x as int, b.y as int, 0x40_0000, 0x40_0000);
        lemma_mul_bounds(a.y as int, b.x as int, 0x40_0000, 0x40_0000);
        let p = 0x2000_0000int;
        lemma_div_trunc_le(a.y * b.z - a.z * b.y, ONE as int, p);
        lemma_div_trunc_le(a.z * b.x - a.x * b.z, ONE as int, p);
        lemma_div_trunc_le(a.x * b.y - a.y * b.x, ONE as int, p);
    }
    let x = div_trunc_i128((a.y as i128) * (b.z as i128) - (a.z as i128) * (b.y as i128), ONE as i128);
    let y = div_trunc_i128((a.z as i128) * (b.x as i128) - (a.x as i128) * (b.z as i128), ONE as i128);
    let z = div_trunc_i128((a.x as i128) * (b.y as i128) - (a.y as i128) * (b.x as i128), ONE as i128);
    Vec3 { x: x as i64, y: y as i64, z: z as i64 }
}

/// The camera's right axis, as `right_axis` gives it.
pub fn right_axis_of(f: &Vec3) -> (r: Vec3)
    requires
        bounded(*f, ONE as int),
    ensures
        r == right_axis(*f),
        bounded(r, ONE as int),
        is_unit(r),
{
    let v = Vec3 { x: f.z, y: 0, z: -f.x };
    assert(v == vec_of(f.z as int, 0, -f.x));
    let r = match normalize(&v) {
        Some(r) => r,
        None => Vec3 { x: ONE, y: 0, z: 0 },
    };
    assert(is_unit(Vec3 { x: ONE, y: 0, z: 0 }));
    r
}

/// The camera's up axis, as `up_axis` gives it.
pub fn up_axis_of(f: &Vec3, r: &Vec3) -> (u: Vec3)
    requires
        bounded(*f, ONE as int),
        bounded(*r, ONE as int),
    ensures
        u == up_axis(*f, *r),
        bounded(u, ONE as int),
        is_unit(u),
{
    let c = cross_product(f, r);
    let u = match normalize(&c) {
        Some(u) => u,
        None => Vec3 { x: 0, y: ONE, z: 0 },
    };
    assert(is_unit(Vec3 { x: 0, y: ONE, z: 0 }));
    u
}

/// One coordinate of the unnormalized ray direction.
fn direction_component(rc: i64, uc: i64, fc: i64, vx: i64, vy: i64) -> (r: i64)
    requires
        -ONE <= rc <= ONE,
        -ONE <= uc <= ONE,
        -ONE <= fc <= ONE,
        -0x40_0000_0000 <= vx <= 0x40_0000_0000,
        -0x100_0000 <= vy <= 0x100_0000,
    ensures
        r == div_trunc(rc * vx + uc * vy + fc * ONE, ONE as int),
        -0x100_0000_0000 <= r <= 0x100_0000_0000,
{
    proof {
        lemma_mul_bounds(rc as int, vx as int, ONE as int, 0x40_0000_0000);
        lemma_mul_bounds(uc as int, vy as int, ONE as int, 0x100_0000);
        lemma_mul_bounds(fc as int, ONE as int, ONE as int, ONE as int);
        lemma_div_trunc_le(rc * vx + uc * vy + fc * ONE, ONE as int, 0x100_0000_0000);
    }
    let n: i128 = (rc as i128) * (vx as i128) + (uc as i128) * (vy as i128) + (fc as i128) * (
    ONE as i128);
    div_trunc_i128(n, ONE as i128) as i64
}

/// The coordinate of a pixel mapped to `[-1, 1)`: `2 x / w - 1`, in fixed point.
fn ndc(x: u32, w: u32) -> (r: i64)
    requires
        x < w,
        w <= MAX_VIEWPORT,
    ensures
        r == (2 * x * ONE) / (w as int) - ONE,
        -ONE <= r < ONE,
{
    let n: u64 = 2 * (x as u64) * 65536;
    let q: u64 = n / (w as u64);
    proof {
        vstd::arithmetic::div_mod::lemma_fundamental_div_mod(n as int, w as int);
        assert(q < 2 * ONE) by (nonlinear_arith)
            requires
                q * w <= n,
                n == 2 * x * 65536,
                x < w,
        ;
    }
    q as i64 - ONE
}

/// The direction of the ray through pixel `i`, as `ray_direction` gives it.
pub fn direction_at(f: &Vec3, t: i64, w: u32, h: u32, i: u32) -> (r: Vec3)
    requires
        bounded(*f, ONE as int),
        is_unit(*f),
        0 <= t <= TAN_MAX,
        0 < w <= MAX_VIEWPORT,
        0 < h <= MAX_VIEWPORT,
        i < w * h,
    ensures
        r == ray_direction(*f, t as int, w as int, h as int, i as int),
        bounded(r, ONE as int),
        is_unit(r),
{
    let x: u32 = i % w;
    let y: u32 = i / w;
    proof {
        vstd::arithmetic::div_mod::lemma_fundamental_div_mod(i as int, w as int);
        assert(y < h) by (nonlinear_arith)
            requires
                i == w * y + x,
                0 <= x,
                i < w * h,
                w > 0,
        ;
    }
    let cx = ndc(x, w);
    let cy = ndc(y, h);
    proof {
        lemma_mul_bounds(cx as int, t as int, ONE as int, TAN_MAX as int);
        let m = ONE * TAN_MAX;
        assert(-(m * w) <= cx * t * w <= m * w) by (nonlinear_arith)
            requires
                -m <= cx * t <= m,
                w > 0,
        ;
        assert(m * w <= 0x40_0000_0000 * (h * ONE)) by (nonlinear_arith)
            requires
                m == ONE * TAN_MAX,
                w <= MAX_VIEWPORT,
                h >= 1,
        ;
        lemma_div_trunc_le(cx * t * w, h * ONE, 0x40_0000_0000);
        lemma_mul_bounds(cy as int, t as int, ONE as int, TAN_MAX as int);
        lemma_div_trunc_le(cy * t, ONE as int, TAN_MAX as int);
    }
    let vx = div_trunc_i128((cx as i128) * (t as i128) * (w as i128), (h as i128) * (ONE as i128))
        as i64;
    let vy = div_trunc_i128((cy as i128) * (t as i128), ONE as i128) as i64;
    let r = right_axis_of(f);
    let u = up_axis_of(f, &r);
    let raw = Vec3 {
        x: direction_component(r.x, u.x, f.x, vx, vy),
        y: direction_component(r.y, u.y, f.y, vx, vy),
        z: direction_component(r.z, u.z, f.z, vx, vy),
    };
    match normalize(&raw) {
        Some(d) => d,
        None => *f,
    }
}

/// `v` turned about world up, as `yaw_spec` gives it.
fn yaw_turn(v: &Vec3, s: i64, c: i64) -> (r: Vec3)
    requires
        bounded(*v, ONE as int),
        -0x8_0000 <= s <= 0x8_0000,
        -0x10_0000 <= c <= 0x10_0000,
    ensures
        r == yaw_spec(*v, s as int, c as int),
        bounded(r, 0x20_0000),
{
    proof {
        lemma_fmul_bound(v.x as int, c as int, ONE as int, 0x10_0000);
        lemma_fmul_bound(v.z as int, s as int, ONE as int, 0x8_0000);
        lemma_fmul_bound(v.z as int, c as int, ONE as int, 0x10_0000);
        lemma_fmul_bound(v.x as int, s as int, ONE as int, 0x8_0000);
    }
    Vec3 {
        x: scale_component(v.x, c) + scale_component(v.z, s),
        y: v.y,
        z: scale_component(v.z, c) - scale_component(v.x, s),
    }
}

/// One coordinate of a turn about an axis, as `pitch_spec` gives it.
fn pitch_component(vc: i64, kc: i64, rc: i64, s: i64, c: i64, e: i64) -> (r: i64)
    requires
        -0x20_0000 <= vc <= 0x20_0000,
        -0x2000_0000 <= kc <= 0x2000_0000,
        -ONE <= rc <= ONE,
        -0x8_0000 <= s <= 0x8_0000,
        -0x10_0000 <= c <= 0x10_0000,
        -0x1000_0000 <= e <= 0x1000_0000,
    ensures
        r == fmul(vc as int, c as int) + fmul(kc as int, s as int) + fmul(rc as int, e as int),
        -0x4_0000_0000 <= r <= 0x4_0000_0000,
{
    proof {
        lemma_fmul_bound(vc as int, c as int, 0x20_0000, 0x10_0000);
        lemma_fmul_bound(kc as int, s as int, 0x2000_0000, 0x8_0000);
        lemma_fmul_bound(rc as int, e as int, ONE as int, 0x1000_0000);
    }
    scale_component(vc, c) + scale_component(kc, s) + scale_component(rc, e)
}

/// `v` turned about the unit axis `r`, as `pitch_spec` gives it.
fn pitch_turn(v: &Vec3, r: &Vec3, s: i64, c: i64) -> (out: Vec3)
    requires
        bounded(*v, 0x20_0000),
        bounded(*r, ONE as int),
        -0x8_0000 <= s <= 0x8_0000,
        -0x10_0000 <= c <= 0x10_0000,
    ensures
        out == pitch_spec(*v, *r, s as int, c as int),
        bounded(out, 0x4_0000_0000),
{
    let k = cross_product(r, v);
    proof {
        lemma_mul_bounds(r.x as int, v.x as int, ONE as int, 0x20_0000);
        lemma_mul_bounds(r.y as int, v.y as int, ONE as int, 0x20_0000);
        lemma_mul_bounds(r.z as int, v.z as int, ONE as int, 0x20_0000);
        lemma_div_trunc_le(r.x * v.x + r.y * v.y + r.z * v.z, ONE as int, 0x80_0000);
    }
    let d = div_trunc_i128(
        (r.x as i128) * (v.x as i128) + (r.y as i128) * (v.y as i128) + (r.z as i128) * (v.z as i128),
        ONE as i128,
    ) as i64;
    proof {
        lemma_fmul_bound(d as int, ONE - c, 0x80_0000, 0x20_0000);
    }
    let e = scale_component(d, ONE - c);
    Vec3 {
        x: pitch_component(v.x, k.x, r.x, s, c, e),
        y: pitch_component(v.y, k.y, r.y, s, c, e),
        z: pitch_component(v.z, k.z, r.z, s, c, e),
    }
}

/// The forward direction turned by `yaw` and `pitch`, as `rotated_forward` gives it.
pub fn rotate_forward(f: &Vec3, yaw: i64, pitch: i64) -> (r: Vec3)
    requires
        bounded(*f, ONE as int),
        is_unit(*f),
        -ANGLE_LIMIT <= yaw <= ANGLE_LIMIT,
        -ANGLE_LIMIT <= pitch <= ANGLE_LIMIT,
    ensures
        r == rotated_forward(*f, yaw as int, pitch as int),
        bounded(r, ONE as int),
        is_unit(r),
{
    let ys = turn_sin_cos(yaw);
    let v1 = yaw_turn(f, ys.0, ys.1);
    let axis = Vec3 { x: f.z, y: 0, z: -f.x };
    assert(axis == vec_of(f.z as int, 0, -f.x));
    let v2 = match normalize(&axis) {
        Some(r) => {
            let ps = turn_sin_cos(pitch);
            pitch_turn(&v1, &r, ps.0, ps.1)
        },
        None => v1,
    };
    match normalize(&v2) {
        Some(n) => n,
        None => *f,
    }
}

/// The angle of a pointer motion, as `angle_of` gives it.
pub fn angle_for(delta: i64) -> (r: i64)
    requires
        -0x1_0000_0000 <= delta <= 0x1_0000_0000,
    ensures
        r == angle_of(delta as int),
        -ANGLE_LIMIT <= r <= ANGLE_LIMIT,
{
    proof {
        assert(-0x8_0000_0000_0000 <= delta * ONE * 7 <= 0x8_0000_0000_0000) by (nonlinear_arith)
            requires
                -0x1_0000_0000 <= delta <= 0x1_0000_0000,
        ;
        lemma_div_trunc_le(delta * ONE * 7, 5000, 0x80_0000_0000);
    }
    div_trunc_i128((delta as i128) * (ONE as i128) * 7, 5000) as i64
}

/// The time step of a frame, as `time_step` gives it.
pub fn time_step_of(ms: u128) -> (r: i64)
    ensures
        r == time_step(ms as int),
        0 <= r <= MAX_TIME_STEP,
{
    if ms >= 17 {
        proof {
            assert(ms * ONE >= 17 * 65536) by (nonlinear_arith)
                requires
                    ms >= 17,
            ;
            vstd::arithmetic::div_mod::lemma_div_is_ordered(17int * 65536, (ms as int) * (ONE as int), 1000int);
        }
        MAX_TIME_STEP
    } else {
        let q: u64 = ((ms as u64) * 65536) / 1000;
        q as i64
    }
}

/// `v` held in `[-CAMERA_LIMIT, CAMERA_LIMIT]`, as `clamp_coord` gives it.
fn clamp_to_limit(v: i64) -> (r: i64)
    ensures
        r == clamp_coord(v as int),
{
    if v < -CAMERA_LIMIT {
        -CAMERA_LIMIT
    } else if v > CAMERA_LIMIT {
        CAMERA_LIMIT
    } else {
        v
    }
}


/// Every ray that a well-formed camera holds has unit length within the tolerance:
/// its squared length lies in `[0.9, 1.1]`.
pub proof fn lemma_camera_rays_are_unit(camera: Camera, i: int)
    requires
        camera.wf(),
        0 <= i < camera.rays@.len(),
    ensures
        is_unit(camera.rays@[i]),
        9 * (ONE * ONE) <= 10 * crate::fixed::norm_sq(camera.rays@[i]) <= 11 * (ONE * ONE),
{
    assert(is_unit(camera.rays@[i]));
}

impl MoveKeys {
    /// Some direction key is held.
    pub open spec fn any(&self) -> bool {
        self.forward || self.left || self.back || self.right || self.up || self.down
    }
}

impl Camera {
    /// The camera's invariant: a viewport of handled size, a unit forward direction, a
    /// position within bounds, and one unit ray per pixel, each the direction that
    /// `ray_direction` gives for the current orientation and projection.
    pub open spec fn wf(&self) -> bool {
        &&& self.wf_except_rays()
        &&& self.rays_current()
    }

    /// Every part of the invariant but the ray array.
    pub open spec fn wf_except_rays(&self) -> bool {
        &&& 0 < self.width <= MAX_VIEWPORT
        &&& 0 < self.height <= MAX_VIEWPORT
        &&& 0 <= self.tan_half_fov <= TAN_MAX
        &&& self.tan_half_fov == tan_half_spec(self.vertical_fov as int)
        &&& bounded(self.forward, ONE as int)
        &&& is_unit(self.forward)
        &&& bounded(self.position, CAMERA_LIMIT as int)
    }

    /// The ray array holds, for each pixel, the direction that `ray_direction` gives,
    /// and each is a unit vector.
    pub open spec fn rays_current(&self) -> bool {
        &&& self.rays@.len() == self.width * self.height
        &&& forall|i: int|
            0 <= i < self.rays@.len() ==> #[trigger] self.rays@[i] == ray_direction(
                self.forward,
                self.tan_half_fov as int,
                self.width as int,
                self.height as int,
                i,
            )
        &&& forall|i: int|
            0 <= i < self.rays@.len() ==> is_unit(#[trigger] self.rays@[i]) && bounded(
                self.rays@[i],
                ONE as int,
            )
    }

    /// Rebuilds the whole ray array from the current orientation and projection.
    fn reevaluate_rays(&mut self)
        requires
            old(self).wf_except_rays(),
        ensures
            final(self).wf(),
            final(self).vertical_fov == old(self).vertical_fov,
            final(self).near == old(self).near,
            final(self).far == old(self).far,
            final(self).tan_half_fov == old(self).tan_half_fov,
            final(self).position == old(self).position,
            final(self).forward == old(self).forward,
            final(self).last_mouse == old(self).last_mouse,
            final(self).width == old(self).width,
            final(self).height == old(self).height,
            final(self).inputs == old(self).inputs,
            final(self).grab_mouse == old(self).grab_mouse,
    {
        proof {
            vstd::arithmetic::mul::lemma_mul_upper_bound(self.width as int, MAX_VIEWPORT as int, self.height as int, MAX_VIEWPORT as int);
        }
        let n: u32 = self.width * self.height;
        let mut rays: Vec<Vec3> = Vec::new();
        let mut i: u32 = 0;
        while i < n
            invariant
                self.wf_except_rays(),
                n == self.width * self.height,
                i <= n,
                rays@.len() == i,
                forall|k: int|
                    0 <= k < i ==> #[trigger] rays@[k] == ray_direction(
                        self.forward,
                        self.tan_half_fov as int,
                        self.width as int,
                        self.height as int,
                        k,
                    ),
                forall|k: int| 0 <= k < i ==> is_unit(#[trigger] rays@[k]) && bounded(rays@[k], ONE as int),
            decreases n - i,
        {
            let d = direction_at(&self.forward, self.tan_half_fov, self.width, self.height, i);
            rays.push(d);
            i = i + 1;
        }
        self.rays = rays;
    }

    /// A camera at `(0, 0, -1)` looking along `+z`, with the given vertical field of
    /// view (fixed-point radians), near and far planes, and viewport size.
    pub fn new(vertical_fov: i64, near: i64, far: i64, width: u32, height: u32) -> (r: Camera)
        requires
            0 < width <= MAX_VIEWPORT,
            0 < height <= MAX_VIEWPORT,
        ensures
            r.wf(),
            r.vertical_fov == vertical_fov,
            r.near == near,
            r.far == far,
            r.position == (Vec3 { x: 0, y: 0, z: (-ONE) as i64 }),
            r.forward == (Vec3 { x: 0, y: 0, z: ONE }),
            r.width == width,
            r.height == height,
            r.last_mouse == (MousePosition { x: 0, y: 0 }),
            !r.inputs.any(),
            !r.grab_mouse,
    {
        let tan_half_fov = tan_half(vertical_fov);
        let mut cam = Camera {
            vertical_fov,
            near,
            far,
            tan_half_fov,
            position: Vec3 { x: 0, y: 0, z: -ONE },
            forward: Vec3 { x: 0, y: 0, z: ONE },
            rays: Vec::new(),
            last_mouse: MousePosition { x: 0, y: 0 },
            width,
            height,
            inputs: MoveKeys { forward: false, left: false, back: false, right: false, up: false, down: false },
            grab_mouse: false,
        };
        assert(is_unit(Vec3 { x: 0, y: 0, z: ONE }));
        cam.reevaluate_rays();
        cam
    }

    /// Adapts the projection and the rays to a new viewport size. A size with a zero
    /// or too large side, or the current size, leaves the camera as it is.
    pub fn resize(&mut self, width: u32, height: u32)
        requires
            old(self).wf(),
        ensures
            final(self).wf(),
            (width == 0 || height == 0 || width > MAX_VIEWPORT || height > MAX_VIEWPORT || (width
                == old(self).width && height == old(self).height)) ==> *final(self) == *old(self),
            !(width == 0 || height == 0 || width > MAX_VIEWPORT || height > MAX_VIEWPORT) ==> {
                &&& final(self).width == width
                &&& final(self).height == height
                &&& final(self).forward == old(self).forward
                &&& final(self).position == old(self).position
                &&& final(self).tan_half_fov == old(self).tan_half_fov
                &&& final(self).vertical_fov == old(self).vertical_fov
                &&& final(self).near == old(self).near
                &&& final(self).far == old(self).far
                &&& final(self).last_mouse == old(self).last_mouse
                &&& final(self).inputs == old(self).inputs
                &&& final(self).grab_mouse == old(self).grab_mouse
            },
    {
        if width == 0 || height == 0 || width > MAX_VIEWPORT || height > MAX_VIEWPORT {
            return ;
        }
        if width == self.width && height == self.height {
            return ;
        }
        self.width = width;
        self.height = height;
        self.reevaluate_rays();
    }

    /// Reacts to an input event: pointer motion (unless the pointer is over the
    /// interface) turns the camera and rebuilds the rays; direction keys set or clear
    /// their flags; a press of the grab key toggles the grab flag. Returns whether the
    /// event was consumed.
    pub fn input(&mut self, event: &InputEvent, is_hovering: bool) -> (consumed: bool)
        requires
            old(self).wf(),
        ensures
            final(self).wf(),
            consumed == consumes(*event, is_hovering),
            (final(self).inputs, final(self).grab_mouse, final(self).last_mouse, final(self).forward)
                == input_spec(*old(self), *event, is_hovering),
            final(self).position == old(self).position,
            final(self).width == old(self).width,
            final(self).height == old(self).height,
            final(self).tan_half_fov == old(self).tan_half_fov,
            final(self).vertical_fov == old(self).vertical_fov,
            final(self).near == old(self).near,
            final(self).far == old(self).far,
            !consumed ==> *final(self) == *old(self),
    {
        match event {
            InputEvent::CursorMoved { position } => {
                if is_hovering {
                    return false;
                }
                let dx = position.x as i64 - self.last_mouse.x as i64;
                let dy = position.y as i64 - self.last_mouse.y as i64;
                let yaw = angle_for(dx);
                let pitch = angle_for(dy);
                self.last_mouse = *position;
                self.forward = rotate_forward(&self.forward, yaw, pitch);
                self.reevaluate_rays();
                true
            },
            InputEvent::Keyboard { key, pressed } => {
                let p = *pressed;
                match key {
                    Key::W => {
                        self.inputs.forward = p;
                    },
                    Key::A => {
                        self.inputs.left = p;
                    },
                    Key::S => {
                        self.inputs.back = p;
                    },
                    Key::D => {
                        self.inputs.right = p;
                    },
                    Key::Space => {
                        self.inputs.up = p;
                    },
                    Key::LShift => {
                        self.inputs.down = p;
                    },
                    Key::C => {
                        if !p {
                            return false;
                        }
                        self.grab_mouse = !self.grab_mouse;
                    },
                    Key::Other => {
                        return false;
                    },
                }
                true
            },
            InputEvent::Other => false,
        }
    }

    /// Moves the camera for a frame of `frame_time` milliseconds along every held
    /// direction key, as `moved_position` describes it. Returns whether any key was
    /// held, which means the accumulated image is stale.
    pub fn update(&mut self, frame_time: u128) -> (moved: bool)
        requires
            old(self).wf(),
        ensures
            final(self).wf(),
            moved == old(self).inputs.any(),
            moved ==> final(self).position == moved_position(
                old(self).position,
                old(self).forward,
                old(self).inputs,
                frame_time as int,
            ),
            !moved ==> *final(self) == *old(self),
            final(self).forward == old(self).forward,
            final(self).rays == old(self).rays,
            final(self).width == old(self).width,
            final(self).height == old(self).height,
            final(self).inputs == old(self).inputs,
            final(self).vertical_fov == old(self).vertical_fov,
            final(self).near == old(self).near,
            final(self).far == old(self).far,
            final(self).tan_half_fov == old(self).tan_half_fov,
            final(self).last_mouse == old(self).last_mouse,
            final(self).grab_mouse == old(self).grab_mouse,
    {
        let k = self.inputs;
        if !(k.forward || k.left || k.back || k.right || k.up || k.down) {
            return false;
        }
        let step = time_step_of(frame_time);
        proof {
            lemma_fmul_bound(MOVEMENT_SPEED as int, step as int, MOVEMENT_SPEED as int, MAX_TIME_STEP as int);
        }
        let dist = scale_component(MOVEMENT_SPEED, step);
        let f = self.forward;
        proof {
            lemma_fmul_bound(f.x as int, dist as int, ONE as int, 0x1_0000);
            lemma_fmul_bound(f.y as int, dist as int, ONE as int, 0x1_0000);
            lemma_fmul_bound(f.z as int, dist as int, ONE as int, 0x1_0000);
            lemma_fmul_bound(-f.x, dist as int, ONE as int, 0x1_0000);
        }
        let fx = scale_component(f.x, dist);
        let fy = scale_component(f.y, dist);
        let fz = scale_component(f.z, dist);
        let rx = scale_component(f.z, dist);
        let rz = scale_component(-f.x, dist);
        let mut x = self.position.x;
        let mut y = self.position.y;
        let mut z = self.position.z;
        if k.forward {
            x = x + fx;
            y = y + fy;
            z = z + fz;
        }
        if k.back {
            x = x - fx;
            y = y - fy;
            z = z - fz;
        }
        if k.right {
            x = x + rx;
            z = z + rz;
        }
        if k.left {
            x = x - rx;
            z = z - rz;
        }
        if k.up {
            y = y + dist;
        }
        if k.down {
            y = y - dist;
        }
        self.position = Vec3 { x: clamp_to_limit(x), y: clamp_to_limit(y), z: clamp_to_limit(z) };
        true
    }

    /// Radians of rotation per unit of normalized pointer motion, in fixed point.
    pub fn rotation_speed(&self) -> (r: i64)
        ensures
            r == ROTATION_SPEED,
    {
        ROTATION_SPEED
    }

    /// Units of movement per second, in fixed point.
    pub fn movement_speed(&self) -> (r: i64)
        ensures
            r == MOVEMENT_SPEED,
    {
        MOVEMENT_SPEED
    }
}

} // verus!
