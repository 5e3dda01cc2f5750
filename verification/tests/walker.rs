//! Figures: the rig, stepping, posing, the scenes they walk in, and
//! their drawings.

use std::f32::consts::{FRAC_PI_2, PI, TAU};

use bowo::character;
use bowo::character::{bone_name, Carry, Character, CharacterPose, Motion, MovementInput};
use bowo::character::{Placement, Skeleton, BONE_COUNT, JUMP_V0, LAND_WIN};
use bowo::character::{FOOT_L, FOOT_R, HEAD, HIPS, TORSO};
use bowo::character::{LOWER_ARM_L, LOWER_ARM_R, LOWER_LEG_L, LOWER_LEG_R};
use bowo::character::{UPPER_ARM_L, UPPER_ARM_R, UPPER_LEG_L, UPPER_LEG_R};
use bowo::mandala::{build, figure, preset, scene_source, spawn_specs, tier, too_large};
use bowo::mandala::{Field, MandalaSpec, Measures, Source};
use bowo::mandala_view::{design, Shapes, BLUE, GREEN, INK, ORANGE, PURPLE, RED};
use bowo::gait;
use bowo::gait::{Blend, GaitParams};
use bowo::movement::{pose_stance, sample_walk, Aim, Hang, MoveTarget, Movement};
use bowo::rng::Rng;
use bowo::smil::Timing;
use bowo::time::SIM_DT;
use bowo::walker_svg::{collect, emit, render_animation, render_frame};
use bowo::walker_svg::{BoneSample, Element, FigureSample, Ground, Head, LineSample};
use bowo::walker_svg::{RenderMeta, GRID};
use bowo::walker_view::{pick_walker, Candidate};
use bowo::walkers::{build_scene, scene_preset, state_checksum, steer, total_footfalls};
use bowo::walkers::{walker_seed, CirclePath, Layout, SpawnSpec, CLOCKWISE, COUNTERCLOCKWISE};

fn f(bits: u32) -> f32 {
    f32::from_bits(bits)
}

fn range(draw: u32, min: f32, max: f32) -> f32 {
    min + draw as f32 / 16_777_216.0 * (max - min)
}

/// A vector of singles.
#[derive(Debug, Clone, Copy, PartialEq, Default)]
struct Vec3 {
    pub x: f32,
    pub y: f32,
    pub z: f32,
}

impl std::ops::Add for Vec3 {
    type Output = Self;
    fn add(self, o: Self) -> Self {
        Self::new(self.x + o.x, self.y + o.y, self.z + o.z)
    }
}

impl std::ops::Sub for Vec3 {
    type Output = Self;
    fn sub(self, o: Self) -> Self {
        Self::new(self.x - o.x, self.y - o.y, self.z - o.z)
    }
}

impl std::ops::Mul<f32> for Vec3 {
    type Output = Self;
    fn mul(self, s: f32) -> Self {
        Self::new(self.x * s, self.y * s, self.z * s)
    }
}

impl std::ops::Neg for Vec3 {
    type Output = Self;
    fn neg(self) -> Self {
        Self::new(-self.x, -self.y, -self.z)
    }
}

impl Vec3 {
    const ZERO: Self = Self {
        x: 0.0,
        y: 0.0,
        z: 0.0,
    };

    fn new(x: f32, y: f32, z: f32) -> Self {
        Self { x, y, z }
    }

    fn dot(self, o: Self) -> f32 {
        self.x * o.x + self.y * o.y + self.z * o.z
    }

    fn cross(self, o: Self) -> Self {
        Self::new(
            self.y * o.z - self.z * o.y,
            self.z * o.x - self.x * o.z,
            self.x * o.y - self.y * o.x,
        )
    }

    fn length(self) -> f32 {
        self.dot(self).sqrt()
    }

    /// Unit vector in the same direction; none for the zero vector.
    fn normalized(self) -> Option<Self> {
        let len = self.length();
        if len > 0.0 {
            Some(self * (1.0 / len))
        } else {
            None
        }
    }

    /// Endpoint-exact interpolation.
    fn lerp(self, other: Self, t: f32) -> Self {
        self * (1.0 - t) + other * t
    }
}

/// A unit quaternion.
#[derive(Debug, Clone, Copy, PartialEq)]
struct Quat {
    pub x: f32,
    pub y: f32,
    pub z: f32,
    pub w: f32,
}

impl std::ops::Mul for Quat {
    type Output = Self;
    /// The right factor rotates first.
    fn mul(self, o: Self) -> Self {
        let Self {
            x: ax,
            y: ay,
            z: az,
            w: aw,
        } = self;
        let Self {
            x: bx,
            y: by,
            z: bz,
            w: bw,
        } = o;
        Self {
            x: aw * bx + ax * bw + ay * bz - az * by,
            y: aw * by - ax * bz + ay * bw + az * bx,
            z: aw * bz + ax * by - ay * bx + az * bw,
            w: aw * bw - ax * bx - ay * by - az * bz,
        }
    }
}

impl Quat {
    const IDENTITY: Self = Self {
        x: 0.0,
        y: 0.0,
        z: 0.0,
        w: 1.0,
    };

    /// Right-handed rotation about a unit axis.
    fn from_axis_angle(axis: Vec3, angle: f32) -> Self {
        let half = angle * 0.5;
        let s = half.sin();
        Self {
            x: axis.x * s,
            y: axis.y * s,
            z: axis.z * s,
            w: half.cos(),
        }
    }

    fn from_rotation_x(angle: f32) -> Self {
        Self::from_axis_angle(Vec3::new(1.0, 0.0, 0.0), angle)
    }

    fn from_rotation_y(angle: f32) -> Self {
        Self::from_axis_angle(Vec3::new(0.0, 1.0, 0.0), angle)
    }

    fn rotate(self, v: Vec3) -> Vec3 {
        let axis = Vec3::new(self.x, self.y, self.z);
        let t = axis.cross(v) * 2.0;
        v + t * self.w + axis.cross(t)
    }
}

/// Hip joint height at scale 1.
const HIP_HEIGHT: f32 = 0.90;
/// Gravity.
const GRAVITY: f32 = 9.81;
/// Punch duration.
const PUNCH_DUR: f32 = 0.45;

const LAND_DIP: f32 = 0.024;
const LAND_KNEE: f32 = 0.35;
const TUCK_THIGH: f32 = -0.45;
const TUCK_KNEE: f32 = 0.85;
const TUCK_FOOT: f32 = -0.30;
const TUCK_SPLAY: f32 = 0.40;
const ACCEL: f32 = 5.0;
const DECEL: f32 = 9.0;

/// The arithmetic of a blend.
fn blending(blend: Blend) -> u32 {
    let v = match blend {
        Blend::Ratio { edge0, edge1, x } => (f(x) - f(edge0)) / (f(edge1) - f(edge0)),
        Blend::Ease { t } => {
            let t = f(t);
            t * t * (3.0 - 2.0 * t)
        }
        Blend::Mix { a, b, t } => f(a) * (1.0 - f(t)) + f(b) * f(t),
        Blend::Decay { t } => {
            let k = 1.0 - f(t) / f(LAND_WIN);
            k * k
        }
    };
    v.to_bits()
}

fn smoothstep(edge0: f32, edge1: f32, x: f32) -> f32 {
    f(gait::smoothstep(
        edge0.to_bits(),
        edge1.to_bits(),
        x.to_bits(),
        &blending,
    ))
}

fn move_blend(speed: f32) -> f32 {
    f(gait::move_blend(speed.to_bits(), &blending))
}

fn run_blend(speed: f32) -> f32 {
    f(gait::run_blend(speed.to_bits(), &blending))
}

fn land_bump(t: f32) -> f32 {
    f(gait::land_bump(t.to_bits(), &blending))
}

/// The gait at a speed.
fn gait_at(speed: f32) -> GaitParams {
    gait::gait_at(speed.to_bits(), &blending)
}

/// Walk a circle.
fn circle_input(radius: f32, speed: f32, dir: f32) -> MovementInput {
    MovementInput {
        target_speed: speed.to_bits(),
        turn_rate: (dir * speed / radius.max(0.1)).to_bits(),
        ..MovementInput::default()
    }
}

/// The arithmetic of a step of `dt`.
fn moving(dt: f32) -> impl Fn(Motion) -> u32 {
    move |motion| {
        let v = match motion {
            Motion::Clock { t } => f(t) + dt,
            Motion::Turn { heading, rate } => f(heading) + f(rate) * dt,
            Motion::Ease {
                speed,
                target,
                launching,
            } => {
                let max_delta = if launching { ACCEL } else { DECEL } * dt;
                f(speed) + (f(target) - f(speed)).clamp(-max_delta, max_delta)
            }
            Motion::TravelX { x, heading, speed } => f(x) + f(heading).sin() * (f(speed) * dt),
            Motion::TravelY { y, speed, .. } => f(y) + 0.0 * (f(speed) * dt),
            Motion::TravelZ { z, heading, speed } => f(z) + f(heading).cos() * (f(speed) * dt),
            Motion::Rise { y, vy } => f(y) + f(vy) * dt,
            Motion::Fall { vy } => f(vy) - GRAVITY * dt,
            Motion::Settle { land_t } => (f(land_t) + dt).min(f(LAND_WIN)),
            Motion::Stride { phase, speed } => {
                let stride = f(gait_at(f(speed)).stride_len).max(0.1);
                f(phase) + TAU * f(speed) / stride * dt
            }
            Motion::Swing { phase } => f(phase) + dt / PUNCH_DUR,
        };
        v.to_bits()
    }
}

/// Half cycles completed at a phase.
fn halves(phase: u32) -> i64 {
    ((f(phase) / PI) as i64).clamp(-(1 << 60), 1 << 60)
}

/// Advance a figure by `dt`.
fn advance(c: &mut Character, dt: f32, input: &MovementInput) {
    c.step(input, &moving(dt), &halves);
}

fn read(v: character::Vec3) -> Vec3 {
    Vec3::new(f(v.x), f(v.y), f(v.z))
}

fn write(v: Vec3) -> character::Vec3 {
    character::Vec3 {
        x: v.x.to_bits(),
        y: v.y.to_bits(),
        z: v.z.to_bits(),
    }
}

fn turned(q: Quat) -> character::Quat {
    character::Quat {
        x: q.x.to_bits(),
        y: q.y.to_bits(),
        z: q.z.to_bits(),
        w: q.w.to_bits(),
    }
}

fn turn(q: character::Quat) -> Quat {
    Quat {
        x: f(q.x),
        y: f(q.y),
        z: f(q.z),
        w: f(q.w),
    }
}

/// The animated local rotations of a figure, and where its root is.
fn animated(c: &Character) -> (Vec3, Quat, [Quat; BONE_COUNT]) {
    let (speed, scale, y) = (f(c.speed), f(c.scale), f(c.y));
    let gait = gait_at(speed);
    let b_w = move_blend(speed);
    let phi = f(c.phase);
    let sin_phi = phi.sin();

    let root_rot = Quat::from_rotation_y(f(c.heading));
    let hip_yaw = -f(gait.hip_sway) * b_w * sin_phi;
    let offset = Vec3::new(
        f(gait.lat) * b_w * sin_phi,
        f(gait.bob) * b_w * (2.0 * phi).cos(),
        0.0,
    ) * scale;
    let air = smoothstep(0.0, 0.06, y);
    let land = land_bump(f(c.land_t));
    let (p_wind, p_ext) = match c.punch {
        None => (0.0, 0.0),
        Some(p) => {
            let p = f(p);
            (
                smoothstep(0.0, 0.30, p) * (1.0 - smoothstep(0.30, 0.55, p)),
                smoothstep(0.30, 0.45, p) * (1.0 - smoothstep(0.60, 0.95, p)),
            )
        }
    };
    let p_act = p_wind.max(p_ext);
    let root_pos = read(c.pos)
        + root_rot.rotate(offset)
        + Vec3::new(0.0, (HIP_HEIGHT + y - LAND_DIP * land) * scale, 0.0);

    let breath = 0.02 * (1.0 - b_w) * (f(c.t) * 1.7).sin();
    let lean = f(gait.lean) * b_w;
    let elbow_base = f(gait.elbow) * b_w + 0.05;
    let swing_gate = |ph: f32| (ph - 0.35).sin().max(0.0);
    let push_gate = |ph: f32| (ph - 2.6).sin().max(0.0);

    let mut q = [Quat::IDENTITY; BONE_COUNT];
    q[HIPS] = Quat::from_rotation_y(hip_yaw);
    q[TORSO] = Quat::from_rotation_y(f(gait.torso_sway) * b_w * sin_phi + 0.50 * p_ext - 0.20 * p_wind)
        * Quat::from_rotation_x(lean + breath + 0.12 * p_ext);
    q[HEAD] = Quat::from_rotation_y(-f(gait.torso_sway) * 0.6 * b_w * sin_phi)
        * Quat::from_rotation_x(-lean * 0.6);
    for is_left in [true, false] {
        let ph = phi + if is_left { 0.0 } else { PI };
        let s = ph.sin();
        let thigh_pitch = -f(gait.thigh) * b_w * s + air * TUCK_THIGH;
        let knee_flex = f(gait.stance_knee) * b_w
            + f(gait.knee) * b_w * swing_gate(ph)
            + air * TUCK_KNEE
            + land * LAND_KNEE;
        let ankle = f(gait.foot) * b_w * (0.4 * swing_gate(ph) - push_gate(ph)) + air * TUCK_FOOT;
        let mut arm_pitch = f(gait.arm) * b_w * s;
        let mut elbow_flex = elbow_base + 0.35 * f(gait.arm) * b_w * (-s).max(0.0) + air * 0.25;
        if is_left {
            arm_pitch += -0.35 * p_ext;
            elbow_flex += 1.10 * p_ext;
        } else {
            arm_pitch = arm_pitch * (1.0 - p_act) + 0.55 * p_wind - 1.60 * p_ext;
            elbow_flex = elbow_flex * (1.0 - p_act) + 1.55 * p_wind;
        }
        let side = if is_left { 1.0 } else { -1.0 };
        let splay = (if is_left { -0.08 } else { 0.08 }) + air * TUCK_SPLAY * side;
        let (ua, la, ul, ll, ft) = if is_left {
            (UPPER_ARM_L, LOWER_ARM_L, UPPER_LEG_L, LOWER_LEG_L, FOOT_L)
        } else {
            (UPPER_ARM_R, LOWER_ARM_R, UPPER_LEG_R, LOWER_LEG_R, FOOT_R)
        };
        q[ua] = Quat::from_rotation_x(arm_pitch)
            * Quat::from_axis_angle(Vec3::new(0.0, 0.0, 1.0), splay);
        q[la] = Quat::from_rotation_x(-elbow_flex);
        q[ul] = Quat::from_rotation_x(thigh_pitch);
        q[ll] = Quat::from_rotation_x(knee_flex);
        q[ft] = Quat::from_rotation_x(ankle);
    }
    (root_pos, root_rot, q)
}

/// A figure in mid-step: where its root is, and its local rotations.
#[derive(Debug, Clone, Copy)]
struct Stance {
    root: Vec3,
    rot: Quat,
    scale: f32,
    locals: [Quat; BONE_COUNT],
}

fn stance(c: Character) -> Stance {
    let (root, rot, locals) = animated(&c);
    Stance {
        root,
        rot,
        scale: f(c.scale),
        locals,
    }
}

/// Bones placed on their parents.
fn hanging(skeleton: &Skeleton) -> impl Fn(Hang<Stance>) -> Placement + '_ {
    move |(s, b, on)| {
        let bone = skeleton.bone(b);
        let (joint, parent_rot) = match on {
            None => (s.root, s.rot),
            Some(p) => {
                let rot = turn(p.rot);
                (read(p.start) + rot.rotate(read(bone.from) * s.scale), rot)
            }
        };
        let rot = parent_rot * s.locals[b];
        Placement {
            start: write(joint),
            tip: write(joint + rot.rotate(read(bone.dir) * s.scale)),
            rot: turned(rot),
        }
    }
}

/// Pose a figure.
fn pose(c: &Character, skeleton: &Skeleton, pose: &mut CharacterPose) {
    assert_eq!(
        pose.len(),
        skeleton.bone_count(),
        "pose buffer sized to another skeleton"
    );
    pose_stance(skeleton, stance(*c), pose, &hanging(skeleton));
}

/// The arithmetic of laying out a scene.
fn placing(l: Layout) -> u32 {
    let v = match l {
        Layout::Span { unit, min, max } => range(unit, f(min), f(max)),
        Layout::RingX { radius, angle } => f(radius) * f(angle).sin(),
        Layout::RingZ { radius, angle } => f(radius) * f(angle).cos(),
        Layout::Tangent { angle, dir } => f(angle) + f(dir) * FRAC_PI_2,
    };
    v.to_bits()
}

/// The measures of a field for a population.
fn measures(count: usize) -> Measures {
    let (spacing, speed) = tier(count);
    let (spacing, speed) = (f(spacing), f(speed));
    let canvas = (count as f32 * spacing * spacing / PI).sqrt();
    let radius = canvas * 0.40;
    Measures {
        radius: radius.to_bits(),
        canvas: canvas.to_bits(),
        period: (TAU * radius / speed).to_bits(),
        per_loop: ((TAU * radius / spacing).round() as usize).max(3),
    }
}

fn center(m: Measures, k: usize, loops: usize, jx: u32, jz: u32) -> (f32, f32) {
    let (canvas, radius) = (f(m.canvas), f(m.radius));
    let center_disc = (canvas - radius).max(radius * 0.2);
    let step = (PI * center_disc * center_disc / loops as f32).sqrt();
    let t = (k as f32 + 0.5) / loops as f32;
    let rr = center_disc * t.sqrt();
    let aa = k as f32 * 2.399_963_2;
    let jx = range(jx, -0.25, 0.25) * step;
    let jz = range(jz, -0.25, 0.25) * step;
    let (mut cx, mut cz) = (rr * aa.sin() + jx, rr * aa.cos() + jz);
    let cd = (cx * cx + cz * cz).sqrt();
    if cd > center_disc {
        let k = center_disc / cd;
        cx *= k;
        cz *= k;
    }
    (cx, cz)
}

/// The arithmetic of a field with some measures.
fn fielding(m: Measures) -> impl Fn(Field) -> u32 {
    move |field| {
        let v = match field {
            Field::CenterX {
                m: k,
                loops,
                jitter_x,
                jitter_z,
            } => center(m, k, loops, jitter_x, jitter_z).0,
            Field::CenterZ {
                m: k,
                loops,
                jitter_x,
                jitter_z,
            } => center(m, k, loops, jitter_x, jitter_z).1,
            Field::Phase { unit } => range(unit, 0.0, TAU),
            Field::Slot { phase0, j, walkers } => f(phase0) + TAU * j as f32 / walkers as f32,
            Field::FigureX {
                center,
                radius,
                angle,
            } => f(center) + f(radius) * f(angle).sin(),
            Field::FigureZ {
                center,
                radius,
                angle,
            } => f(center) + f(radius) * f(angle).cos(),
            Field::FigureY { .. } => 0.0,
            Field::Tangent { angle, dir } => f(angle) + f(dir) * FRAC_PI_2,
        };
        v.to_bits()
    }
}

/// A perspective pinhole.
struct Camera {
    eye: Vec3,
    forward: Vec3,
    right: Vec3,
    up: Vec3,
    focal: f32,
}

impl Camera {
    fn looking(eye: Vec3, target: Vec3, fov_y_deg: f32, focal: f32) -> Self {
        let forward = (target - eye)
            .normalized()
            .unwrap_or(Vec3::new(0.0, 0.0, 1.0));
        let right = forward
            .cross(Vec3::new(0.0, 1.0, 0.0))
            .normalized()
            .unwrap_or(Vec3::new(1.0, 0.0, 0.0));
        let up = right.cross(forward);
        Self {
            eye,
            forward,
            right,
            up,
            focal: focal / (fov_y_deg.to_radians() * 0.5).tan(),
        }
    }

    fn view_depth(&self, p: Vec3) -> f32 {
        (p - self.eye).dot(self.forward)
    }

    /// Screen coordinates; none behind the near plane.
    fn project(&self, p: Vec3) -> Option<(f32, f32)> {
        let d = p - self.eye;
        let z = d.dot(self.forward);
        if z <= 0.01 {
            return None;
        }
        Some((
            self.focal * d.dot(self.right) / z,
            -self.focal * d.dot(self.up) / z,
        ))
    }

    fn project_radius(&self, p: Vec3, r: f32) -> Option<f32> {
        let z = (p - self.eye).dot(self.forward);
        if z <= 0.01 {
            return None;
        }
        Some(self.focal * r / z)
    }
}

/// The establishing shot.
fn establishing() -> Camera {
    Camera::looking(
        Vec3::new(13.0, 6.0, 13.0),
        Vec3::new(0.0, 0.9, 0.0),
        40.0,
        900.0,
    )
}

fn ground_shadow(p: Vec3) -> Vec3 {
    let sun = Vec3::new(0.5, -1.0, 0.35);
    p + sun * (p.y / -sun.y)
}

fn rounded(p: Option<(f32, f32)>) -> Option<(i64, i64)> {
    p.map(|(x, y)| (x.round() as i64, y.round() as i64))
}

/// The ground under a camera.
fn ground(cam: &Camera) -> Ground {
    let g = GRID as f32;
    let at = |x: f32, z: f32| rounded(cam.project(Vec3::new(x, 0.0, z)));
    let mut lines = Vec::new();
    for line in -GRID..=GRID {
        let v = line as f32;
        for (a, b) in [
            (Vec3::new(v, 0.0, -g), Vec3::new(v, 0.0, g)),
            (Vec3::new(-g, 0.0, v), Vec3::new(g, 0.0, v)),
        ] {
            lines.push(LineSample {
                depth_a: cam.view_depth(a).to_bits(),
                depth_b: cam.view_depth(b).to_bits(),
                a: rounded(cam.project(a)),
                b: rounded(cam.project(b)),
            });
        }
    }
    Ground {
        corners: vec![at(-g, -g), at(g, -g), at(g, g), at(-g, g)],
        lines,
    }
}

/// A figure under a camera.
fn figure_sample(cam: &Camera, c: &Character, posed: &CharacterPose) -> FigureSample {
    let bones = (0..posed.len())
        .map(|b| {
            let (start, tip) = (read(posed.start[b]), read(posed.tip[b]));
            BoneSample {
                start: rounded(cam.project(start)),
                tip: rounded(cam.project(tip)),
                shadow_start: rounded(cam.project(ground_shadow(start))),
                shadow_tip: rounded(cam.project(ground_shadow(tip))),
            }
        })
        .collect();
    let tip = read(posed.tip[HEAD]);
    let head = match (
        cam.project(tip),
        cam.project_radius(tip, 0.105 * f(c.scale)),
    ) {
        (Some((x, y)), Some(r)) => Some(Head {
            cx: format!("{x:.1}"),
            cy: format!("{y:.1}"),
            r: format!("{r:.1}"),
            cx_round: format!("{x:.0}"),
            cy_round: format!("{y:.0}"),
        }),
        _ => None,
    };
    FigureSample { bones, head }
}

fn dist(x: f32, z: f32, cx: f32, cz: f32) -> f32 {
    ((x - cx) * (x - cx) + (z - cz) * (z - cz)).sqrt()
}

/// Whether a square, turned by some degrees, covers a point.
fn in_square(x: f32, z: f32, cx: f32, cz: f32, half: f32, rot_deg: f32) -> bool {
    let (dx, dz) = (x - cx, z - cz);
    if rot_deg == 0.0 {
        return dx.abs() < half && dz.abs() < half;
    }
    let (s, co) = rot_deg.to_radians().sin_cos();
    let u = dx * co + dz * s;
    let v = -dx * s + dz * co;
    u.abs() < half && v.abs() < half
}

/// The shapes of the painting that cover a point.
fn covering(x: f32, z: f32, c: f32) -> Shapes {
    Shapes {
        blue_circle: dist(x, z, -0.45 * c, -0.30 * c) < 0.28 * c,
        red_circle: dist(x, z, 0.50 * c, 0.35 * c) < 0.22 * c,
        purple_square: in_square(x, z, 0.38 * c, -0.42 * c, 0.17 * c, 30.0),
        orange_square: in_square(x, z, -0.42 * c, 0.48 * c, 0.15 * c, 0.0),
        green_ring: (dist(x, z, 0.0, 0.0) - 0.64 * c).abs() < 0.045 * c,
    }
}

fn dt() -> f32 {
    f(SIM_DT)
}

fn at(x: f32, y: f32, z: f32) -> character::Vec3 {
    write(Vec3::new(x, y, z))
}

fn standing() -> Character {
    Character::new(at(0.0, 0.0, 0.0), 0.0f32.to_bits())
}

fn walker(speed: f32) -> Character {
    let mut c = standing();
    c.speed = speed.to_bits();
    c
}

fn speed_input(speed: f32) -> MovementInput {
    MovementInput {
        target_speed: speed.to_bits(),
        ..MovementInput::default()
    }
}

fn rig() -> (Skeleton, CharacterPose) {
    let skel = Skeleton::humanoid();
    let posed = CharacterPose::new(&skel);
    (skel, posed)
}

fn start(p: &CharacterPose, b: usize) -> Vec3 {
    read(p.start[b])
}

fn tip(p: &CharacterPose, b: usize) -> Vec3 {
    read(p.tip[b])
}

#[test]
fn skeleton_parents_precede_children() {
    let skel = Skeleton::humanoid();
    assert_eq!(skel.bone_count(), BONE_COUNT);
    for b in 0..skel.bone_count() {
        if let Some(p) = skel.parent(b) {
            assert!(p < b, "{} has parent {p} after it", bone_name(b));
        }
    }
}

#[test]
fn rest_pose_stands_with_feet_on_ground() {
    let (skel, mut posed) = rig();
    pose(&standing(), &skel, &mut posed);
    for b in [TORSO, HEAD] {
        let d = tip(&posed, b) - start(&posed, b);
        assert!(
            d.x.abs() < 1e-5 && d.z.abs() < 1e-5,
            "{} must rest vertical: dx {} dz {}",
            bone_name(b),
            d.x,
            d.z
        );
    }
    assert!((tip(&posed, HEAD).y - 1.75).abs() < 1e-4);
    for (ua, la) in [(UPPER_ARM_L, LOWER_ARM_L), (UPPER_ARM_R, LOWER_ARM_R)] {
        assert!(tip(&posed, ua).y < start(&posed, ua).y);
        assert!(tip(&posed, la).y < start(&posed, la).y);
        let wrist = tip(&posed, la).y;
        assert!(wrist > 0.90 && wrist < 0.925, "wrist rests at {wrist}");
    }
    for ft in [FOOT_L, FOOT_R] {
        let toe = tip(&posed, ft);
        assert!(toe.y >= -0.02 && toe.y <= 0.02);
        assert!((toe.z - 0.16).abs() < 1e-4);
    }
    assert!((tip(&posed, UPPER_ARM_L).x + tip(&posed, UPPER_ARM_R).x).abs() < 1e-5);
}

#[test]
fn heading_rotates_the_rig() {
    let (skel, mut posed) = rig();
    let c = Character::new(at(5.0, 0.0, -2.0), FRAC_PI_2.to_bits());
    pose(&c, &skel, &mut posed);
    assert!((tip(&posed, FOOT_L).x - 5.16).abs() < 1e-4);
    assert!((tip(&posed, FOOT_L).z - (-2.10)).abs() < 1e-4);
    assert!((start(&posed, HIPS).x - 5.0).abs() < 1e-5);
}

#[test]
fn scale_stretches_the_rig() {
    let (skel, mut posed) = rig();
    let mut c = standing();
    c.scale = 1.1f32.to_bits();
    pose(&c, &skel, &mut posed);
    assert!((tip(&posed, HEAD).y - 1.75 * 1.1).abs() < 1e-3);
}

#[test]
fn stepping_is_deterministic() {
    let (skel, mut posed) = rig();
    let mut run = || {
        let mut c = Character::new(at(0.0, 0.0, 0.0), 0.3f32.to_bits());
        let input = circle_input(5.0, 1.35, 1.0);
        for _ in 0..600 {
            advance(&mut c, dt(), &input);
            pose(&c, &skel, &mut posed);
        }
        (c.pos, c.phase, c.footfalls, posed.checksum())
    };
    assert_eq!(run(), run());
    let mut other = Character::new(at(0.0, 0.0, 0.0), 0.3f32.to_bits());
    for _ in 0..600 {
        advance(&mut other, dt(), &circle_input(5.0, 1.4, 1.0));
    }
    assert_ne!(f(other.phase), f(run().1));
}

#[test]
fn footfalls_track_stride_cycles() {
    let mut c = walker(1.35);
    let input = speed_input(1.35);
    let ticks = 600;
    for _ in 0..ticks {
        advance(&mut c, dt(), &input);
    }
    let seconds = ticks as f32 * dt();
    let cycles = 1.35 * seconds / f(gait::walk().stride_len);
    let expected = (cycles * 2.0) as u64;
    assert!(
        (c.footfalls as i64 - expected as i64).abs() <= 1,
        "footfalls {} vs expected ~{expected}",
        c.footfalls
    );
}

#[test]
fn walk_keeps_feet_near_ground_and_swings_clear() {
    let (skel, mut posed) = rig();
    let mut c = walker(1.35);
    let input = speed_input(1.35);
    let mut min_y = [f32::MAX; 2];
    let mut max_y = [-f32::MAX; 2];
    for _ in 0..240 {
        advance(&mut c, dt(), &input);
        pose(&c, &skel, &mut posed);
        for (side, ft) in [FOOT_L, FOOT_R].iter().enumerate() {
            let y = tip(&posed, *ft).y;
            min_y[side] = min_y[side].min(y);
            max_y[side] = max_y[side].max(y);
        }
    }
    for side in 0..2 {
        assert!(
            min_y[side] > -0.08 && min_y[side] < 0.06,
            "stance foot {side} sinks/floats: min {}",
            min_y[side]
        );
        assert!(
            max_y[side] > 0.03,
            "swing foot {side} never clears: max {}",
            max_y[side]
        );
    }
}

#[test]
fn arms_counter_swing_the_legs() {
    let (skel, mut posed) = rig();
    let mut c = walker(1.35);
    c.phase = FRAC_PI_2.to_bits();
    pose(&c, &skel, &mut posed);
    let elbow_l_z = tip(&posed, UPPER_ARM_L).z;
    let elbow_r_z = tip(&posed, UPPER_ARM_R).z;
    let knee_l_z = tip(&posed, UPPER_LEG_L).z;
    let knee_r_z = tip(&posed, UPPER_LEG_R).z;
    assert!(knee_l_z > knee_r_z, "left leg must be forward");
    assert!(
        elbow_l_z < elbow_r_z,
        "left arm must trail while left leg leads"
    );
}

#[test]
fn idle_stands_and_blends_are_monotone() {
    let (skel, mut posed) = rig();
    pose(&walker(0.0), &skel, &mut posed);
    assert!((tip(&posed, HEAD).y - 1.75).abs() < 1e-4);
    assert!((tip(&posed, FOOT_L).z - 0.16).abs() < 1e-4);

    assert_eq!(move_blend(0.0), 0.0);
    assert_eq!(move_blend(1.35), 1.0);
    assert_eq!(run_blend(1.35), 0.0);
    assert_eq!(run_blend(3.6), 1.0);
    let mut last = 0.0;
    for k in 0..100 {
        let s = k as f32 / 20.0;
        let b = move_blend(s) + run_blend(s);
        assert!(b >= last - 1e-6, "blend not monotone at {s}");
        last = b;
    }
}

#[test]
fn speed_eases_and_clamps_positive() {
    let mut c = walker(0.0);
    let fast = speed_input(3.6);
    advance(&mut c, dt(), &fast);
    assert!((f(c.speed) - ACCEL * dt()).abs() < 1e-6);
    for _ in 0..600 {
        advance(&mut c, dt(), &fast);
    }
    assert!((f(c.speed) - 3.6).abs() < 1e-4);
    let stop = MovementInput::default();
    for _ in 0..120 {
        advance(&mut c, dt(), &stop);
    }
    assert_eq!(f(c.speed), 0.0);
}

#[test]
fn circle_input_curves_the_path() {
    let radius = 5.0f32;
    let mut c = Character::new(at(0.0, 0.0, radius), FRAC_PI_2.to_bits());
    c.speed = 1.35f32.to_bits();
    let input = circle_input(radius, 1.35, 1.0);
    let quarter = (FRAC_PI_2 * radius / 1.35 / dt()) as usize;
    for _ in 0..quarter {
        advance(&mut c, dt(), &input);
    }
    assert!(
        (f(c.heading) - PI).abs() < 0.05,
        "quarter lap should turn heading to ~pi, turned {}",
        f(c.heading)
    );
    let p = read(c.pos);
    let dist = (p.x.powi(2) + p.z.powi(2)).sqrt();
    assert!(
        (dist - radius).abs() < 0.1,
        "drifted off the ring: r = {dist}"
    );
}

#[test]
fn jump_flies_ballistic_and_lands() {
    let mut c = walker(1.35);
    let launch = MovementInput {
        jump: true,
        ..speed_input(1.35)
    };
    advance(&mut c, dt(), &launch);
    assert!(f(c.y) > 0.0, "must leave the ground");
    let phase_at_launch = f(c.phase);
    let mut apex = 0.0f32;
    let mut ticks = 1u32;
    while !c.grounded() {
        advance(&mut c, dt(), &MovementInput::default());
        apex = apex.max(f(c.y));
        ticks += 1;
        assert!(ticks < 100, "never landed");
    }
    let v0 = f(JUMP_V0);
    let want_apex = v0 * v0 / (2.0 * GRAVITY);
    assert!(
        (apex - want_apex).abs() < 0.02,
        "apex {apex} vs {want_apex}"
    );
    let want_air = 2.0 * v0 / GRAVITY;
    assert!(
        (ticks as f32 * dt() - want_air).abs() < 3.0 * dt(),
        "air time {} vs {want_air}",
        ticks as f32 * dt()
    );
    assert_eq!((f(c.y), f(c.vy)), (0.0, 0.0));
    assert_eq!(f(c.land_t), 0.0, "touchdown must arm the absorption");
    let per_tick = TAU * 1.35 / f(gait::walk().stride_len) * dt();
    assert!(
        f(c.phase) - phase_at_launch <= per_tick * 1.5,
        "stride must freeze through the flight"
    );
    assert_eq!(c.footfalls, 0, "no heel strikes without ground contact");
}

#[test]
fn jump_requests_midair_are_ignored() {
    let run = |midair: bool| {
        let mut c = walker(1.35);
        let jump = |on: bool| MovementInput {
            jump: on,
            ..MovementInput::default()
        };
        advance(&mut c, dt(), &jump(true));
        for k in 0..40 {
            advance(&mut c, dt(), &jump(midair && k == 5));
        }
        (c.y, c.vy, c.pos, c.phase, c.footfalls)
    };
    assert_eq!(run(false), run(true));
}

#[test]
fn landing_dips_then_recovers() {
    let (skel, mut posed) = rig();
    let mut c = walker(0.0);
    c.land_t = 0.0f32.to_bits();
    pose(&c, &skel, &mut posed);
    let hips = start(&posed, HIPS).y;
    assert!(hips < HIP_HEIGHT - 0.01, "no dip at touchdown: {hips}");
    for ft in [FOOT_L, FOOT_R] {
        let y = tip(&posed, ft).y;
        assert!(
            y > -0.05 && y < 0.05,
            "feet must stay planted through the absorb: {y}"
        );
    }
    c.land_t = LAND_WIN;
    pose(&c, &skel, &mut posed);
    assert!(
        (start(&posed, HIPS).y - HIP_HEIGHT).abs() < 1e-4,
        "must recover to standing"
    );
}

#[test]
fn airborne_pose_tucks_legs_and_arms_out() {
    let (skel, mut on_ground) = rig();
    let mut air = CharacterPose::new(&skel);
    let mut c = walker(0.0);
    pose(&c, &skel, &mut on_ground);
    c.y = 0.15f32.to_bits();
    pose(&c, &skel, &mut air);
    for ft in [FOOT_L, FOOT_R] {
        assert!(
            tip(&air, ft).y > tip(&on_ground, ft).y + 0.10,
            "tucked foot must clear: {} vs {}",
            tip(&air, ft).y,
            tip(&on_ground, ft).y
        );
    }
    for la in [LOWER_ARM_L, LOWER_ARM_R] {
        assert!(
            tip(&air, la).x.abs() > tip(&on_ground, la).x.abs() + 0.05,
            "arms must ease out in the air"
        );
    }
}

fn punching() -> MovementInput {
    MovementInput {
        punch: true,
        ..MovementInput::default()
    }
}

#[test]
fn punch_is_one_shot_and_recovers() {
    let mut c = walker(0.0);
    let hit = punching();
    advance(&mut c, dt(), &hit);
    assert_eq!(c.punch, Some(0.0f32.to_bits()));
    let mut active = 0;
    while c.punch.is_some() {
        advance(&mut c, dt(), &hit); // still requesting: must not restart
        active += 1;
        assert!(active < 100, "punch never ends");
    }
    let expected = (PUNCH_DUR / dt()).ceil();
    assert!(
        (active as f32 - expected).abs() <= 1.0,
        "active ticks {active} vs ~{expected}"
    );
    advance(&mut c, dt(), &MovementInput::default());
    assert_eq!(c.punch, None);
    advance(&mut c, dt(), &hit);
    assert_eq!(c.punch, Some(0.0f32.to_bits()));
}

#[test]
fn punch_strikes_forward_and_returns() {
    let (skel, mut posed) = rig();
    let mut plain = CharacterPose::new(&skel);
    pose(&walker(0.0), &skel, &mut plain);
    let mut c = walker(0.0);
    c.punch = Some(0.5f32.to_bits());
    pose(&c, &skel, &mut posed);
    let reach = tip(&posed, LOWER_ARM_R).z - start(&posed, UPPER_ARM_R).z;
    assert!(reach > 0.45, "strike must extend forward: {reach}");
    let span = (tip(&posed, LOWER_ARM_R) - start(&posed, UPPER_ARM_R)).length();
    let length = |b: usize| read(skel.bone(b).dir).length();
    let arm = length(UPPER_ARM_R) + length(LOWER_ARM_R);
    assert!(
        (span - arm).abs() < 0.03,
        "elbow straight at strike: {span} vs {arm}"
    );
    assert!(
        tip(&posed, LOWER_ARM_L).z < tip(&posed, LOWER_ARM_R).z - 0.30,
        "left arm must stay home while the right strikes"
    );
    c.punch = Some(0.99f32.to_bits());
    pose(&c, &skel, &mut posed);
    assert_eq!(posed.checksum(), plain.checksum());
}

#[test]
fn punch_composes_with_the_walk() {
    let mut c = walker(1.35);
    let walk = speed_input(1.35);
    let mut hit = walk;
    hit.punch = true;
    advance(&mut c, dt(), &hit); // the one request
    advance(&mut c, dt(), &walk); // request gone: no chaining without it
    let mut active = 0;
    while c.punch.is_some() {
        advance(&mut c, dt(), &walk);
        active += 1;
        assert!(active < 100, "punch never ends");
    }
    let expected = PUNCH_DUR / dt();
    assert!(
        (active as f32 - expected).abs() <= 1.0,
        "one cycle per request: {active} vs ~{expected}"
    );
    let ticks = 2 + active;
    let strides = 1.35 * (ticks as f32 * dt()) / f(gait::walk().stride_len);
    let want = (strides * 2.0) as u64;
    assert!(
        (c.footfalls as i64 - want as i64).abs() <= 1,
        "heel strikes {} vs ~{want}",
        c.footfalls
    );
}

#[test]
fn action_stepping_is_deterministic() {
    let (skel, mut posed) = rig();
    let mut run = || {
        let mut c = walker(1.35);
        for k in 0..600 {
            let input = MovementInput {
                jump: k % 40 == 0,
                punch: k % 13 == 0,
                ..speed_input(1.35)
            };
            advance(&mut c, dt(), &input);
            pose(&c, &skel, &mut posed);
        }
        (
            c.y,
            c.vy,
            c.land_t,
            c.phase,
            c.punch,
            c.footfalls,
            posed.checksum(),
        )
    };
    assert_eq!(run(), run());
}

#[test]
fn run_gait_escalates_from_walk() {
    let walk = gait_at(1.35);
    let run = gait_at(3.6);
    assert!(f(run.knee) > f(walk.knee) + 0.2);
    assert!(f(run.lean) > f(walk.lean) + 0.1);
    assert!(f(run.stride_len) > f(walk.stride_len) + 0.5);
    assert!(f(run.arm) > f(walk.arm));
    assert_eq!(
        f(gait_at(1.35).thigh),
        f(gait::walk().thigh),
        "walk band is pure WALK"
    );
}

#[test]
fn the_rig_has_its_declared_bones() {
    type Row = (Option<usize>, [f32; 3], [f32; 3], f32);
    let rows: [Row; BONE_COUNT] = [
        (None, [0.0, 0.0, 0.0], [0.0, 0.10, 0.0], 0.050),
        (Some(HIPS), [0.0, 0.10, 0.0], [0.0, 0.50, 0.0], 0.055),
        (Some(TORSO), [0.0, 0.59, 0.0], [0.0, 0.16, 0.0], 0.040),
        (Some(TORSO), [0.19, 0.48, 0.0], [0.0, -0.30, 0.0], 0.038),
        (Some(UPPER_ARM_L), [0.0, -0.30, 0.0], [0.0, -0.27, 0.0], 0.034),
        (Some(TORSO), [-0.19, 0.48, 0.0], [0.0, -0.30, 0.0], 0.038),
        (Some(UPPER_ARM_R), [0.0, -0.30, 0.0], [0.0, -0.27, 0.0], 0.034),
        (Some(HIPS), [0.10, 0.0, 0.0], [0.0, -0.46, 0.0], 0.048),
        (Some(UPPER_LEG_L), [0.0, -0.46, 0.0], [0.0, -0.40, 0.0], 0.042),
        (Some(LOWER_LEG_L), [0.0, -0.40, 0.0], [0.0, -0.035, 0.16], 0.038),
        (Some(HIPS), [-0.10, 0.0, 0.0], [0.0, -0.46, 0.0], 0.048),
        (Some(UPPER_LEG_R), [0.0, -0.46, 0.0], [0.0, -0.40, 0.0], 0.042),
        (Some(LOWER_LEG_R), [0.0, -0.40, 0.0], [0.0, -0.035, 0.16], 0.038),
    ];
    let names = [
        "hips",
        "torso",
        "head",
        "upper-arm-l",
        "lower-arm-l",
        "upper-arm-r",
        "lower-arm-r",
        "upper-leg-l",
        "lower-leg-l",
        "foot-l",
        "upper-leg-r",
        "lower-leg-r",
        "foot-r",
    ];
    let skel = Skeleton::humanoid();
    for (b, (parent, from, dir, width)) in rows.into_iter().enumerate() {
        let bone = skel.bone(b);
        assert_eq!(bone.parent, parent, "{}", bone_name(b));
        assert_eq!(read(bone.from), Vec3::new(from[0], from[1], from[2]));
        assert_eq!(read(bone.dir), Vec3::new(dir[0], dir[1], dir[2]));
        assert_eq!(f(skel.width(b)), width);
        assert_eq!(bone_name(b), names[b]);
    }
    let none = CharacterPose {
        start: vec![],
        tip: vec![],
    };
    assert!(none.is_empty());
    assert!(!CharacterPose::new(&skel).is_empty());
}

// Scenes and control.

#[test]
fn scene_presets_build() {
    let Some(preset) = scene_preset("walk") else {
        panic!("walk preset missing");
    };
    let specs = build_scene(&preset, 42, &placing);
    assert_eq!(specs.len(), preset.count);
    for spec in &specs {
        assert!(f(spec.path.radius) > 0.0);
    }
}

#[test]
fn scene_presets_have_their_ranges() {
    let row = |id: &str| {
        let p = scene_preset(id).unwrap_or_else(|| panic!("{id} scene"));
        (
            p.count,
            (f(p.radius_min), f(p.radius_max)),
            (f(p.speed_min), f(p.speed_max)),
            p.fixed.map(f),
            p.carry,
        )
    };
    assert_eq!(
        row("walk"),
        (1, (5.0, 5.0), (1.35, 1.35), Some(1.35), false)
    );
    assert_eq!(
        row("walk-run"),
        (1, (7.0, 7.0), (3.6, 3.6), Some(3.6), false)
    );
    assert_eq!(row("carry"), (12, (3.0, 9.0), (1.1, 1.6), None, true));
    assert_eq!(row("crowd"), (96, (2.5, 12.0), (0.9, 2.4), None, false));
    assert!(scene_preset("mandala-100").is_none());
}

#[test]
fn porters_carry_in_turn() {
    let preset = scene_preset("carry").unwrap_or_else(|| panic!("carry scene"));
    let specs = build_scene(&preset, 42, &placing);
    for (k, spec) in specs.iter().enumerate() {
        let want = [Carry::Chest, Carry::Side, Carry::Nothing][k % 3];
        assert_eq!(spec.character.carry, want, "porter {k}");
        let scale = f(spec.character.scale);
        assert!((0.92..1.08).contains(&scale));
        assert!(spec.path.dir == COUNTERCLOCKWISE || spec.path.dir == CLOCKWISE);
        let mut rng = Rng::new(walker_seed(42, k));
        let radius = range(rng.next_unit(), 3.0, 9.0);
        assert_eq!(f(spec.path.radius), radius, "the first draw is the radius");
    }
}

/// The input of a scripted circle.
fn circling(path: CirclePath) -> MovementInput {
    circle_input(f(path.radius), f(path.speed), f(path.dir))
}

/// Where a goal lies from a position and a heading.
fn aiming((pos, heading, target): (character::Vec3, u32, MoveTarget)) -> Aim {
    let to = read(target.pos) - read(pos);
    let dist = Vec3::new(to.x, 0.0, to.z).length();
    let bearing = to.x.atan2(to.z);
    let err = (bearing - f(heading) + PI).rem_euclid(TAU) - PI;
    Aim {
        dist: dist.to_bits(),
        err: err.to_bits(),
        turn: (err * 6.0).clamp(-2.6, 2.6).to_bits(),
    }
}

/// A point between two others.
fn mixing((a, b, t): (character::Vec3, character::Vec3, u32)) -> character::Vec3 {
    let t = f(t);
    write(read(a) * (1.0 - t) + read(b) * t)
}

fn widening((width, scale): (u32, u32)) -> u32 {
    (f(width) * f(scale)).to_bits()
}

/// Run the controllers, the step and the mirror.
fn tick(world: &mut Movement) {
    let skeleton = world.skeleton.clone();
    world.step_circle_paths(&circling);
    world.step_move_targets(&aiming);
    world.step_walkers(&moving(dt()), &halves, &stance, &hanging(&skeleton));
    world.sync_bones(&mixing);
}

fn alone(character: Character, input: MovementInput) -> Movement {
    let mut world = Movement::new(Skeleton::humanoid());
    assert_eq!(world.spawn_walker(character, input, &widening), 0);
    world
}

fn sent(character: Character, goal: Vec3) -> Movement {
    let mut world = alone(character, MovementInput::default());
    world.walkers[0].target = Some(MoveTarget {
        pos: write(goal),
        arrive: 0.30f32.to_bits(),
    });
    world
}

#[test]
fn move_target_walks_to_the_point_and_stops() {
    let mut world = sent(standing(), Vec3::new(0.0, 0.0, 4.0));
    for _ in 0..900 {
        tick(&mut world);
    }
    let w = &world.walkers[0];
    let dist = read(w.character.pos).length();
    assert!(
        (dist - 4.0).abs() < 0.35,
        "should stand at the goal: dist {dist}"
    );
    assert!(
        f(w.character.speed) < 0.05,
        "gait must ease to idle after arrival: {}",
        f(w.character.speed)
    );
    assert_eq!(w.input, MovementInput::default());
}

#[test]
fn move_target_turns_in_place_when_goal_behind() {
    let mut world = sent(standing(), Vec3::new(0.0, 0.0, -3.0));
    for _ in 0..30 {
        tick(&mut world);
    }
    let c = world.walkers[0].character;
    assert!(
        read(c.pos).length() < 0.3,
        "must turn in place before walking: {:?}",
        read(c.pos)
    );
    let err = (f(c.heading) - PI + PI).rem_euclid(TAU) - PI;
    assert!(err.abs() < 2.0, "should be mostly turned: err {err}");
    for _ in 0..900 {
        tick(&mut world);
    }
    let p = read(world.walkers[0].character.pos);
    assert!(
        (p.z + 3.0).abs() < 0.35 && p.x.abs() < 0.35,
        "should reach the behind-goal: {p:?}"
    );
}

#[test]
fn arrived_move_target_holds_inert() {
    let mut c = Character::new(at(2.0, 0.0, 2.0), 0.7f32.to_bits());
    c.speed = 1.35f32.to_bits(); // arriving at speed: must brake, not orbit
    let mut world = sent(c, Vec3::new(2.0, 0.0, 2.0));
    for _ in 0..240 {
        tick(&mut world);
    }
    let w = &world.walkers[0];
    let p = read(w.character.pos);
    assert!(
        ((p.x - 2.0).powi(2) + (p.z - 2.0).powi(2)).sqrt() < 0.65,
        "braking overshoot must stay bounded: {p:?}"
    );
    assert_eq!(f(w.character.speed), 0.0);
    assert_eq!(w.input, MovementInput::default());
}

#[test]
fn steering_halts_beyond_a_quarter_turn() {
    let (near, far) = (0.2f32.to_bits(), 2.0f32.to_bits());
    let (err, turn) = (1.6f32.to_bits(), 2.6f32.to_bits());
    assert_eq!(steer(near, 0.3f32.to_bits(), err, turn), MovementInput::default());
    let pivot = steer(far, near, err, turn);
    assert_eq!((pivot.target_speed, pivot.turn_rate), (0, turn));
    let walk = steer(far, near, (-1.5f32).to_bits(), turn);
    assert_eq!(f(walk.target_speed), 1.35);
}

/// The mirror shows the current tick at alpha one, bit for bit, and the
/// tick before at zero.
#[test]
fn mirror_interpolates_between_the_last_two_ticks() {
    let mut world = alone(standing(), speed_input(1.35));
    for _ in 0..30 {
        tick(&mut world);
    }
    let w = &world.walkers[0];
    for seg in &world.segments {
        let b = seg.bone as usize;
        assert_eq!(read(seg.a), read(w.curr.start[b]));
        assert_eq!(read(seg.b), read(w.curr.tip[b]));
        assert_ne!(read(seg.a), read(w.prev.start[b]), "must have moved by now");
    }
    world.alpha = 0;
    world.sync_bones(&mixing);
    let w = &world.walkers[0];
    for seg in &world.segments {
        assert_eq!(read(seg.a), read(w.prev.start[seg.bone as usize]));
    }
    world.alpha = 7.0f32.to_bits();
    world.sync_bones(&mixing);
    let w = &world.walkers[0];
    for seg in &world.segments {
        assert_eq!(read(seg.b), read(w.curr.tip[seg.bone as usize]));
    }
}

#[test]
fn pause_freezes_the_sim_not_the_schedule() {
    let mut world = alone(standing(), speed_input(1.35));
    for _ in 0..10 {
        tick(&mut world);
    }
    let before = world.state_checksum();
    world.paused = true;
    for _ in 0..10 {
        tick(&mut world);
    }
    assert_eq!(before, world.state_checksum());
}

#[test]
fn bone_segments_match_skeleton_count() {
    let mut world = alone(standing(), MovementInput::default());
    assert_eq!(world.segments.len(), BONE_COUNT);
    let mut tall = standing();
    tall.scale = 2.0f32.to_bits();
    assert_eq!(world.spawn_walker(tall, speed_input(1.0), &widening), 1);
    assert_eq!(world.segments.len(), 2 * BONE_COUNT);
    assert_eq!((world.walkers[0].id, world.walkers[1].id), (0, 1));
    let last = world.segments[2 * BONE_COUNT - 1];
    assert_eq!((last.walker, last.bone as usize), (1, BONE_COUNT - 1));
    assert_eq!(
        f(last.width),
        2.0 * f(world.skeleton.width(BONE_COUNT - 1)),
        "widths follow the scale"
    );
    assert_eq!(read(last.a), Vec3::default());
}

/// A bone that outlived its walker keeps its place.
#[test]
fn orphaned_bones_stay() {
    let mut world = alone(standing(), speed_input(1.35));
    tick(&mut world);
    let before = world.segments.clone();
    world.walkers.clear();
    world.sync_bones(&mixing);
    assert_eq!(before, world.segments);
}

/// A world of walkers on their circles.
fn walk_circles(specs: Vec<SpawnSpec>, ticks: u32) -> (u64, u64, Vec<Character>) {
    let mut world = Movement::new(Skeleton::humanoid());
    for s in specs {
        let k = world.spawn_walker(s.character, circling(s.path), &widening);
        world.walkers[k].path = Some(s.path);
    }
    for _ in 0..ticks {
        tick(&mut world);
    }
    (
        world.state_checksum(),
        world.total_footfalls(),
        world.walkers.iter().map(|w| w.character).collect(),
    )
}

#[test]
fn plugin_walks_a_circle_deterministically() {
    let spec = || {
        let mut c = Character::new(at(0.0, 0.0, 5.0), FRAC_PI_2.to_bits());
        c.speed = 1.35f32.to_bits();
        vec![SpawnSpec {
            character: c,
            path: CirclePath {
                radius: 5.0f32.to_bits(),
                speed: 1.35f32.to_bits(),
                dir: COUNTERCLOCKWISE,
            },
        }]
    };
    let a = walk_circles(spec(), 600);
    let b = walk_circles(spec(), 600);
    assert_eq!((a.0, a.1), (b.0, b.1), "same ticks, same state");
    assert_ne!(a.0, walk_circles(spec(), 601).0, "one more tick moves it");
    assert!(a.1 > 0, "a 10s walk must land heel strikes");
    let p = read(a.2[0].pos);
    assert!((p.x.powi(2) + p.z.powi(2)).sqrt() < 5.5, "left the ring");
}

#[test]
fn state_digests_ignore_walker_order() {
    let rows = vec![(0, 11), (1, 22), (2, 33)];
    let turned = vec![(2, 33), (0, 11), (1, 22)];
    assert_eq!(state_checksum(&rows), state_checksum(&turned));
    assert_ne!(
        state_checksum(&rows),
        state_checksum(&vec![(0, 22), (1, 11), (2, 33)])
    );
    let one = 11u64
        .wrapping_mul(0x9E37_79B9_7F4A_7C15)
        .rotate_left(23)
        ^ 7u64.wrapping_mul(0xD1B5_4A32_D192_ED03);
    assert_eq!(state_checksum(&vec![(7, 11)]), one);
    assert_eq!(state_checksum(&vec![]), 0);
    assert_eq!(total_footfalls(&vec![1, 2, 3]), 6);
}

// The mandala.

const TIERS: [usize; 3] = [100, 1_000, 10_000];

fn mandala(count: usize, seed: u64) -> MandalaSpec {
    let m = measures(count);
    build(count, seed, &m, &fielding(m))
}

fn figures(spec: &MandalaSpec, count: usize) -> Vec<SpawnSpec> {
    spawn_specs(spec, &fielding(measures(count)))
}

#[test]
fn tiers_hit_exact_populations() {
    for &count in &TIERS {
        assert_eq!(
            mandala(count, 42).walker_total(),
            count,
            "population {count}"
        );
    }
}

#[test]
fn every_population_is_seated_evenly() {
    for count in [0usize, 1, 2, 3, 7, 99, 101] {
        let m = mandala(count, 42);
        assert_eq!(m.walker_total(), count, "population {count}");
        for (k, l) in m.loops.iter().enumerate() {
            let turn = if k % 2 == 0 { 1.0 } else { -1.0 };
            assert_eq!(f(l.dir), turn, "loop {k}");
            assert!(m.loops.iter().all(|o| l.walkers <= o.walkers + 1));
        }
        assert_eq!(figures(&m, count).len(), count);
    }
    assert!(mandala(0, 42).loops.is_empty());
}

#[test]
fn tiles_pack_the_canvas() {
    for &count in &TIERS {
        let m = mandala(count, 42);
        let canvas = f(m.canvas);
        let specs = figures(&m, count);
        assert_eq!(specs.len(), count);
        let mut mean_d = 0.0f32;
        for spec in &specs {
            let p = read(spec.character.pos);
            let d = (p.x * p.x + p.z * p.z).sqrt();
            assert!(
                d <= canvas + 1e-3,
                "figure outside the canvas: {d} > {canvas}"
            );
            mean_d += d;
        }
        mean_d /= specs.len() as f32;
        assert!(
            mean_d > canvas * 0.4,
            "population collapsed toward the center: mean {mean_d}"
        );
        for l in &m.loops {
            assert!(l.walkers >= 3, "loop too small to read as a loop");
            assert!(f(l.dir).abs() == 1.0);
            let (cx, cz) = (f(l.center_x), f(l.center_z));
            let cd = (cx * cx + cz * cz).sqrt();
            assert!(cd <= canvas, "loop center outside the canvas");
        }
        assert!(m.loops.iter().any(|l| f(l.dir) > 0.0));
        assert!(m.loops.iter().any(|l| f(l.dir) < 0.0));
        let speed = f(m.speed);
        assert!((0.9..=2.4).contains(&speed), "speed {speed}");
    }
}

#[test]
fn the_painting_dissolves_and_reforms() {
    let m = mandala(100, 42);
    let (radius, speed, period) = (f(m.radius), f(m.speed), f(m.period));
    let mut walkers: Vec<Character> = figures(&m, 100).into_iter().map(|s| s.character).collect();
    let inputs: Vec<MovementInput> = m
        .loops
        .iter()
        .map(|l| circle_input(radius, speed, f(l.dir)))
        .collect();
    let mut loop_of = Vec::new();
    for (k, l) in m.loops.iter().enumerate() {
        for _ in 0..l.walkers {
            loop_of.push(k);
        }
    }
    let starts: Vec<Vec3> = walkers.iter().map(|w| read(w.pos)).collect();
    let run_for = |walkers: &mut Vec<Character>, secs: f32| {
        for _ in 0..(secs / dt()) as usize {
            for (w, &k) in walkers.iter_mut().zip(&loop_of) {
                advance(w, dt(), &inputs[k]);
            }
        }
    };
    run_for(&mut walkers, period / 2.0);
    for (w, start) in walkers.iter().zip(&starts) {
        let d = (read(w.pos) - *start).length();
        assert!(
            d > radius * 1.5,
            "not dispersed: displacement {d} vs radius {radius}"
        );
    }
    run_for(&mut walkers, period / 2.0);
    for (w, start) in walkers.iter().zip(&starts) {
        let d = (read(w.pos) - *start).length();
        assert!(
            d < radius * 0.3,
            "did not re-form: displacement {d} vs radius {radius}"
        );
    }
}

#[test]
fn seeds_shape_the_field() {
    let positions = |seed: u64| -> Vec<Vec3> {
        figures(&mandala(1_000, seed), 1_000)
            .into_iter()
            .map(|s| read(s.character.pos))
            .collect()
    };
    let a = positions(7);
    let b = positions(7);
    let c = positions(8);
    assert_eq!(a.len(), b.len());
    assert_eq!(a.len(), c.len());
    assert_eq!(a, b, "same seed must reproduce");
    assert_ne!(a, c, "different seed must diverge");
}

#[test]
fn presets_map_ids() {
    assert_eq!(preset("mandala-100"), Some(100));
    assert_eq!(preset("mandala-1k"), Some(1_000));
    assert_eq!(preset("mandala-10k"), Some(10_000));
    assert_eq!(preset("walk"), None);
}

#[test]
fn scenes_come_from_fields_or_circles() {
    assert_eq!(scene_source("mandala-1k"), Source::Field(1_000));
    assert_eq!(scene_source("crowd"), Source::Circles(scene_preset("crowd").unwrap()));
    assert_eq!(scene_source("?"), Source::Circles(scene_preset("walk").unwrap()));
}

#[test]
fn large_fields_are_not_drawn() {
    assert!(!too_large("mandala-100"));
    assert!(too_large("mandala-1k"));
    assert!(too_large("mandala-10k"));
    assert!(!too_large("crowd"));
}

#[test]
fn tiers_follow_the_population() {
    let row = |n: usize| (f(tier(n).0), f(tier(n).1));
    assert_eq!(row(299), (0.85, 1.35));
    assert_eq!(row(300), (1.0, 1.8));
    assert_eq!(row(2_999), (1.0, 1.8));
    assert_eq!(row(3_000), (1.1, 2.2));
}

#[test]
fn figures_stand_on_their_loops() {
    let m = mandala(100, 42);
    let specs = figures(&m, 100);
    let first = figure(&m.loops[0], 0, m.radius, m.speed, &fielding(measures(100)));
    assert_eq!(specs[0], first);
    assert_eq!(first.character.phase, m.loops[0].phase0);
    assert_eq!(first.path.speed, m.speed);
    let p = read(first.character.pos);
    let (cx, cz) = (f(m.loops[0].center_x), f(m.loops[0].center_z));
    let d = ((p.x - cx).powi(2) + (p.z - cz).powi(2)).sqrt();
    assert!((d - f(m.radius)).abs() < 1e-3);
}

#[test]
fn mandala_walks_deterministically_through_the_plugin() {
    let run = |ticks: u32, seed: u64| walk_circles(figures(&mandala(100, seed), 100), ticks);
    let a = run(600, 42);
    let b = run(600, 42);
    assert_eq!((a.0, a.1), (b.0, b.1), "same (scene, seed, ticks)");
    assert_ne!(a.0, run(601, 42).0, "one more tick must move it");
    assert_ne!(a.0, run(600, 43).0, "the seed must enter the layout");
    assert!(a.1 > 90, "100 walking figures must land footfalls");
}

#[test]
fn design_paints_the_declared_shapes() {
    let c = 10.0;
    let paint = |x: f32, z: f32| design(covering(x, z, c));
    assert_eq!(paint(-0.45 * c, -0.30 * c), BLUE);
    assert_eq!(paint(0.50 * c, 0.35 * c), RED);
    assert_eq!(paint(0.38 * c, -0.42 * c), PURPLE);
    assert_eq!(paint(-0.42 * c, 0.48 * c), ORANGE);
    assert_eq!(paint(0.64 * c, 0.0), GREEN);
    assert_eq!(paint(0.0, -0.64 * c), GREEN);
    assert_eq!(paint(0.5 * c, 0.0), INK);
    assert_eq!(paint(0.78 * c, 0.0), INK);
    assert_eq!(paint(0.02 * c, 0.1 * c), INK);
}

#[test]
fn earlier_shapes_cover_later_ones() {
    let all = Shapes {
        blue_circle: true,
        red_circle: true,
        purple_square: true,
        orange_square: true,
        green_ring: true,
    };
    assert_eq!(design(all), BLUE);
    let rest = Shapes {
        blue_circle: false,
        ..all
    };
    assert_eq!(design(rest), RED);
}

#[test]
fn the_field_tiles_every_shape() {
    for &count in &TIERS {
        let m = mandala(count, 42);
        let mut seen = [false; 6];
        for spec in figures(&m, count) {
            let p = read(spec.character.pos);
            let slot = design(covering(p.x, p.z, f(m.canvas))) as usize;
            assert!(slot < seen.len());
            seen[slot] = true;
        }
        for (slot, &painted) in seen.iter().enumerate() {
            assert!(
                painted,
                "count {count}: palette slot {slot} has no tiles"
            );
        }
    }
}

// Drawing.

fn frames(c: &mut Character, input: &MovementInput, count: usize, step: f32) -> Vec<FigureSample> {
    let (skel, mut posed) = rig();
    let cam = establishing();
    (0..count)
        .map(|k| {
            if k > 0 {
                advance(c, step, input);
            }
            pose(c, &skel, &mut posed);
            figure_sample(&cam, c, &posed)
        })
        .collect()
}

fn drawn_walker(count: usize, step: f32) -> Vec<Vec<FigureSample>> {
    let mut c = Character::new(at(0.0, 0.0, 5.0), FRAC_PI_2.to_bits());
    vec![frames(&mut c, &circle_input(5.0, 1.35, 1.0), count, step)]
}

fn meta(fps: u32) -> RenderMeta<'static> {
    RenderMeta {
        scene: "walk",
        seed: 42,
        fps,
    }
}

fn timing(dur: f32, n: usize) -> Timing {
    Timing {
        dur: format!("{dur:.2}"),
        key_times: (0..n)
            .map(|k| format!("{:.4}", k as f32 / (n - 1) as f32))
            .collect(),
    }
}

#[test]
fn walker_animation_writes_a_multi_frame_svg() -> Result<(), String> {
    let fps = 12.0;
    let dur = 1.5 / (1.35 / f(gait_at(1.35).stride_len).max(0.1));
    let n = (((dur * fps).ceil() as usize) + 1).max(2);
    let svg = render_animation(
        &ground(&establishing()),
        &drawn_walker(n, 1.0 / fps),
        &meta(12),
        timing(dur, n),
    )?;
    assert!(svg.contains("<svg"), "missing svg root");
    assert!(svg.contains("<animate"), "no SMIL animation");
    assert!(svg.contains("repeatCount=\"indefinite\""));
    assert!(svg.contains("<circle"), "no head ball");
    assert!(svg.contains("procedural gait"), "no caption provenance");
    Ok(())
}

#[test]
fn walker_static_frame_has_no_animation() {
    let svg = render_frame(&ground(&establishing()), &drawn_walker(1, 1.0), &meta(1));
    assert!(svg.contains("<svg"));
    assert!(!svg.contains("<animate"), "static frame must not animate");
}

#[test]
fn empty_scene_is_rejected() {
    let r = render_animation(&ground(&establishing()), &vec![], &meta(2), timing(1.0, 2));
    assert_eq!(r, Err("no walkers to render".to_string()));
}

#[test]
fn heads_are_balls_and_near_lines_are_left_out() {
    let near = LineSample {
        depth_a: 0.4f32.to_bits(),
        depth_b: 9.0f32.to_bits(),
        a: Some((0, 0)),
        b: Some((1, 1)),
    };
    let plain = LineSample {
        depth_a: 0.5f32.to_bits(),
        ..near
    };
    let hidden = LineSample { b: None, ..plain };
    let mut lines = vec![near; 54];
    lines[0] = plain; // line -13, along z
    lines[3] = plain; // line -12, along x
    lines[4] = hidden;
    let scene = Ground {
        corners: vec![Some((0, 0)), Some((4, 0)), None, Some((0, 4))],
        lines,
    };
    let bone = |k: i64| BoneSample {
        start: Some((k, 0)),
        tip: Some((k, 1)),
        shadow_start: Some((k, 2)),
        shadow_tip: if k == 1 { None } else { Some((k, 3)) },
    };
    let text = |s: &str| s.to_string();
    let head = Head {
        cx: text("5.5"),
        cy: text("-6.5"),
        r: text("7.1"),
        cx_round: text("6"),
        cy_round: text("-6"),
    };
    let figures = vec![vec![FigureSample {
        bones: vec![bone(0), bone(1), bone(2), bone(3)],
        head: Some(head.clone()),
    }]];
    let elements = collect(&scene, &figures);
    assert_eq!(elements.len(), 4);
    assert!(matches!(&elements[0], Element::Plate(p) if p == "M0 0L4 0L0 4L0 0"));
    assert!(matches!(&elements[1], Element::Line(false, p) if p == "M0 0L1 1"));
    assert!(matches!(&elements[2], Element::Line(true, p) if p == "M0 0L1 1"));
    let Element::Figure(shadow, limbs, heads) = &elements[3] else {
        panic!("a figure comes last");
    };
    assert_eq!(shadow, &vec!["M0 2L0 3M2 2L2 3M3 2L3 3".to_string()]);
    assert_eq!(limbs, &vec!["M0 0L0 1M1 0L1 1M3 0L3 1".to_string()]);
    assert_eq!(heads, &vec![head]);
    let svg = emit(&elements, &meta(1), &None);
    assert!(svg.contains("<circle cx=\"6\" cy=\"-6\" r=\"7.1\" fill=\"#25324a\">"));
    assert!(svg.contains("stroke=\"#4d8e3b\" stroke-width=\"2.0\" opacity=\"0.90\""));
    assert!(svg.contains("stroke=\"#63a84c\" stroke-width=\"1.0\" opacity=\"0.55\""));
}

#[test]
fn hidden_heads_stay_at_the_origin() {
    let figures = vec![vec![FigureSample {
        bones: vec![],
        head: None,
    }]];
    let svg = render_frame(&ground(&establishing()), &figures, &meta(1));
    assert!(svg.contains("<circle cx=\"0\" cy=\"0\" r=\"0.0\""));
}

// Picking.

fn candidate(id: u64, origin: Vec3, dir: Vec3, pos: Vec3) -> Candidate {
    let center = Vec3::new(pos.x, 0.55, pos.z);
    let along = (center - origin).dot(dir).max(0.0);
    let miss = (center - (origin + dir * along)).length();
    Candidate {
        id,
        along: along.to_bits(),
        miss: miss.to_bits(),
        radius: 0.85f32.to_bits(),
    }
}

#[test]
fn pick_walker_takes_the_figure_under_the_ray() {
    let near = Vec3::new(0.0, 0.0, 0.0);
    let far = Vec3::new(0.0, 0.0, -4.0);
    let side = Vec3::new(2.0, 0.0, 1.0);
    let origin = Vec3::new(0.0, 8.0, 4.0);
    let Some(dir) = (Vec3::new(0.0, 0.5, 0.0) - origin).normalized() else {
        panic!("the ray has a direction");
    };
    let hit = pick_walker(&vec![
        candidate(1, origin, dir, near),
        candidate(2, origin, dir, far),
        candidate(3, origin, dir, side),
    ]);
    assert_eq!(hit, Some(1), "nearest along the ray wins");
    let Some(stray) = Vec3::new(0.9, -1.0, 0.2).normalized() else {
        panic!("the ray has a direction");
    };
    assert_eq!(
        pick_walker(&vec![candidate(1, origin, stray, near)]),
        None
    );
}

#[test]
fn shadows_move_with_their_figures() {
    let text = |s: &str| s.to_string();
    let ball = |x: &str| Head {
        cx: text(x),
        cy: text("0.0"),
        r: text("1.0"),
        cx_round: text("0"),
        cy_round: text("0"),
    };
    let scene = |later: &str| {
        vec![Element::Figure(
            vec![text("M0 0L1 1"), text(later)],
            vec![text("M2 2L3 3"), text("M4 4L5 5")],
            vec![ball("0.0"), ball("1.0")],
        )]
    };
    let elements = scene("M8 8L9 9");
    let moving = emit(&elements, &meta(12), &Some(timing(1.0, 2)));
    assert!(moving.contains("values=\"M0 0L1 1;M8 8L9 9\""));
    assert!(moving.contains("values=\"M2 2L3 3;M4 4L5 5\""));
    assert_eq!(moving.matches("<animate attributeName=\"d\"").count(), 2);
    let other = emit(&scene("M7 7L6 6"), &meta(12), &Some(timing(1.0, 2)));
    assert_ne!(moving, other, "later shadow frames are drawn");
    let still = emit(&elements, &meta(12), &None);
    assert!(!still.contains("<animate"));
    assert!(still.contains("<path d=\"M0 0L1 1\""));
}

#[test]
fn walks_are_sampled_frame_by_frame() {
    let skeleton = Skeleton::humanoid();
    let input = speed_input(1.35);
    let walk = |pre_steps: usize, frames: usize| {
        let mut c = walker(1.35);
        let taken = sample_walk(
            &mut c,
            &input,
            &skeleton,
            pre_steps,
            frames,
            &moving(dt()),
            &halves,
            &stance,
            &hanging(&skeleton),
        );
        (c, taken.expect("the counter has room"))
    };
    let (last, frames) = walk(5, 4);
    assert_eq!(frames.len(), 4);
    let mut c = walker(1.35);
    for _ in 0..5 {
        advance(&mut c, dt(), &input);
    }
    for (k, (character, taken)) in frames.iter().enumerate() {
        if k > 0 {
            advance(&mut c, dt(), &input);
        }
        assert_eq!(*character, c);
        let mut posed = CharacterPose::new(&skeleton);
        pose(&c, &skeleton, &mut posed);
        assert_eq!(taken.checksum(), posed.checksum());
    }
    assert_eq!(last, c);
    let (none, frames) = walk(2, 0);
    assert!(frames.is_empty());
    let mut c = walker(1.35);
    advance(&mut c, dt(), &input);
    advance(&mut c, dt(), &input);
    assert_eq!(none, c);
}

#[test]
fn walks_stop_where_the_footfall_counter_does() {
    let skeleton = Skeleton::humanoid();
    let input = speed_input(1.35);
    let full = Character {
        footfalls: 1 << 63,
        ..walker(1.35)
    };
    for (pre_steps, frames, taken) in [(0, 1, true), (0, 2, false), (1, 0, false), (0, 0, true)] {
        let mut c = full;
        let walk = sample_walk(
            &mut c,
            &input,
            &skeleton,
            pre_steps,
            frames,
            &moving(dt()),
            &halves,
            &stance,
            &hanging(&skeleton),
        );
        assert_eq!(walk.is_some(), taken);
        assert_eq!(c, full);
    }
}

#[test]
fn limbs_stay_joined_in_every_pose() {
    let (skel, mut posed) = rig();
    let mut c = walker(2.6);
    let hanging_at_tips = [
        TORSO,
        LOWER_ARM_L,
        LOWER_ARM_R,
        LOWER_LEG_L,
        LOWER_LEG_R,
        FOOT_L,
        FOOT_R,
    ];
    for k in 0..40 {
        c.phase = (k as f32 * 0.37).to_bits();
        c.heading = (k as f32 * 0.11).to_bits();
        pose(&c, &skel, &mut posed);
        for b in hanging_at_tips {
            let p = skel.parent(b).unwrap_or(HIPS);
            assert_eq!(posed.start[b], posed.tip[p], "bone {b} at step {k}");
        }
    }
}

#[test]
fn gaits_mix_exactly_at_the_ends() {
    let (walk, run) = (gait::walk(), gait::run());
    assert_eq!(walk.lerp(run, 0.0f32.to_bits(), &blending), walk);
    assert_eq!(walk.lerp(run, 1.0f32.to_bits(), &blending), run);
    let half = walk.lerp(run, 0.5f32.to_bits(), &blending);
    assert_eq!(f(half.stride_len), 1.35f32 * 0.5 + 2.75 * 0.5);
    assert_eq!(gait_at(2.1), walk);
    assert_eq!(gait_at(3.1), run);
    assert_eq!(smoothstep(1.0, 3.0, 2.0), 0.5);
    assert_eq!((f(gait::MOVE_LO), f(gait::MOVE_HI)), (0.15, 0.9));
    assert_eq!((f(gait::RUN_LO), f(gait::RUN_HI)), (2.1, 3.1));
}

#[test]
fn the_gaits_have_their_declared_amplitudes() {
    let row = |g: GaitParams| {
        [
            g.stride_len,
            g.thigh,
            g.knee,
            g.stance_knee,
            g.foot,
            g.arm,
            g.elbow,
            g.bob,
            g.lat,
            g.lean,
            g.hip_sway,
            g.torso_sway,
        ]
        .map(f)
    };
    assert_eq!(
        row(gait::walk()),
        [1.35, 0.42, 0.95, 0.06, 0.22, 0.32, 0.28, 0.016, 0.018, 0.07, 0.10, 0.12]
    );
    assert_eq!(
        row(gait::run()),
        [2.75, 0.68, 1.25, 0.22, 0.35, 0.72, 1.05, 0.045, 0.012, 0.24, 0.16, 0.20]
    );
}

#[test]
fn landings_are_absorbed_within_their_window() {
    assert_eq!(land_bump(0.0), 1.0);
    assert_eq!(land_bump(0.15), 0.25);
    assert_eq!(land_bump(0.30), 0.0);
    assert_eq!(land_bump(9.0), 0.0);
}

#[test]
fn pose_digests_ignore_the_order_of_bones() {
    let skeleton = Skeleton::humanoid();
    let mut posed = CharacterPose::new(&skeleton);
    pose(&walker(1.35), &skeleton, &mut posed);
    let turned = CharacterPose {
        start: posed.start.iter().rev().copied().collect(),
        tip: posed.tip.iter().rev().copied().collect(),
    };
    assert_eq!(posed.checksum(), turned.checksum());
    let mut crossed = turned;
    crossed.start.swap(0, 5);
    assert_ne!(posed.checksum(), crossed.checksum());
}
