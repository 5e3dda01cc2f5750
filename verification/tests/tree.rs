//! Trees: generation, poses, their drawings, and the playground around
//! them.

use bowo::digest::{fold, FNV_OFFSET};
use bowo::grove::{GroveState, Swing};
use bowo::playback::{copy_pose, lerp_pose, Playback};
use bowo::smil::Timing;
use bowo::text::xml_escape;
use bowo::time::SIM_DT;
use bowo::tree::{Joint, Node, Rule, Segment, Shoot, Tree, TreeParams, TreePose};
use bowo::tree::{MAX_NODES, PARENT_NONE};
use bowo::tree_gallery::{build_scene, grove_checksum, scene_preset, tree_seed, WindParams};
use bowo::tree_svg::{branch_color, collect, emit, extent, ground_tiles};
use bowo::tree_svg::{Frame, Group, RenderMeta, TileQuad, TreeFrame, TreeSample};
use bowo::tree_view::readout_text as tree_readout;
use bowo::tree_view::{grown_variant, hop_seed, ring_extremes};
use bowo::tree_view::{Action, Capture, Captured, Effect, Knob, Nudge, Playground, Printed};
use bowo::tree_view::{AMP_MAX, CANOPY_MAX, CANOPY_MIN, FREQ_MAX, FREQ_MIN, JITTER_MAX};
use bowo::tree_view::{SPREAD_MAX, SPREAD_MIN, ZOOM_MAX, ZOOM_MIN};
use bowo::view::Key;

const GOLDEN_RATIO: f32 = 1.618_034;
const GOLDEN_ANGLE: f32 = 2.399_963_2;
const FORK_SPREAD: f32 = std::f32::consts::PI - GOLDEN_ANGLE;

fn f(bits: u32) -> f32 {
    f32::from_bits(bits)
}

fn unit(draw: u32) -> f32 {
    draw as f32 / 16_777_216.0
}

fn range(draw: u32, min: f32, max: f32) -> f32 {
    min + unit(draw) * (max - min)
}

fn around(draw: u32, jitter: f32) -> f32 {
    range(draw, 1.0 - jitter, 1.0 + jitter)
}

/// The arithmetic of growing a tree.
fn growing(p: TreeParams) -> impl Fn(Rule) -> u32 {
    move |rule| {
        let v = match rule {
            Rule::Unit { unit: u } => unit(u),
            Rule::ChildBirth { birth } => f(birth) + 0.55 * f(p.grow_dur),
            Rule::Grown { birth } => f(birth) + f(p.grow_dur),
            Rule::Length { shoot, len, unit } => {
                let around = around(unit, f(p.ratio_jitter));
                match shoot {
                    Shoot::Leader => f(len) * f(p.leader_ratio) * around,
                    Shoot::Side => f(len) * f(p.side_ratio) * around,
                    Shoot::Extra => f(len) * f(p.side_ratio) / GOLDEN_RATIO * around,
                }
            }
            Rule::Offset {
                shoot,
                mirrored,
                unit,
            } => {
                let sign = if mirrored { -1.0 } else { 1.0 };
                match shoot {
                    Shoot::Leader => f(p.leader_jitter) * range(unit, -1.0, 1.0),
                    Shoot::Side => sign * FORK_SPREAD * around(unit, f(p.angle_jitter)),
                    Shoot::Extra => {
                        -sign * FORK_SPREAD / GOLDEN_RATIO * around(unit, f(p.angle_jitter))
                    }
                }
            }
            Rule::Width { shoot, width } => {
                f(width)
                    * match shoot {
                        Shoot::Leader => 0.85,
                        Shoot::Side => 0.68,
                        Shoot::Extra => 0.55,
                    }
            }
            Rule::Phase { unit } => range(unit, 0.0, std::f32::consts::TAU),
            Rule::Speed { unit } => range(unit, 3.0, 7.0),
        };
        v.to_bits()
    }
}

fn wind_shape(t: f32, freq_scale: f32) -> f32 {
    0.68 * (std::f32::consts::TAU * 0.32 * freq_scale * t).sin()
        + 0.32 * (std::f32::consts::TAU * 0.19 * freq_scale * t + 1.1).sin()
}

fn growth_factor(age: f32, dur: f32) -> f32 {
    if dur <= 0.0 {
        return 1.0;
    }
    let u = (age / dur).clamp(0.0, 1.0);
    u * u * (3.0 - 2.0 * u)
}

/// The arithmetic of placing a branch at time `t`.
fn swaying(p: TreeParams, wind: WindParams, t: f32) -> impl Fn(Node, Joint) -> Segment {
    let gust = wind_shape(t, f(wind.freq_scale));
    let bend_scale = if f(wind.amp_rad) <= 0.0 {
        0.0
    } else {
        f(wind.amp_rad) * gust
    };
    move |n, j| {
        let flex = (n.depth as f32 / p.max_depth as f32).powi(2);
        let bend = if bend_scale > 0.0 {
            bend_scale * flex * (f(n.sway_phase) + f(n.sway_speed) * t).sin()
        } else {
            0.0
        };
        let angle = f(j.angle) + f(n.rest_offset) + bend;
        let g = growth_factor(t - f(n.birth), f(p.grow_dur));
        Segment {
            angle: angle.to_bits(),
            tip_x: (f(j.x) + angle.cos() * f(n.len) * g).to_bits(),
            tip_y: (f(j.y) + angle.sin() * f(n.len) * g).to_bits(),
            width: (f(n.width) * g).to_bits(),
        }
    }
}

fn wind(amp: f32, freq: f32) -> WindParams {
    WindParams {
        amp_rad: amp.to_bits(),
        freq_scale: freq.to_bits(),
    }
}

fn still() -> WindParams {
    wind(0.0, 1.0)
}

/// A tree with the parameters it grew from and its rest pose.
struct Grown {
    p: TreeParams,
    tree: Tree,
    rest: TreePose,
}

impl Grown {
    fn at(p: TreeParams, seed: u64, x: f32, y: f32) -> Grown {
        let tree = Tree::generate_at(&p, seed, x.to_bits(), y.to_bits(), &growing(p.clone()));
        let mut rest = TreePose::new(&tree);
        tree.pose_into(&mut rest, &swaying(p.clone(), still(), f32::INFINITY));
        Grown { p, tree, rest }
    }

    fn new(p: TreeParams, seed: u64) -> Grown {
        let tree = Tree::generate(&p, seed, &growing(p.clone()));
        let mut rest = TreePose::new(&tree);
        tree.pose_into(&mut rest, &swaying(p.clone(), still(), f32::INFINITY));
        Grown { p, tree, rest }
    }

    fn oak(seed: u64) -> Grown {
        Grown::new(TreeParams::oak(), seed)
    }

    fn checksum(&self) -> u64 {
        self.tree.structure_checksum(&self.rest)
    }

    fn pose(&self, pose: &mut TreePose, t: f32, w: WindParams) {
        assert_eq!(pose.len(), self.tree.node_count());
        self.tree.pose_into(pose, &swaying(self.p.clone(), w, t));
    }

    fn end(&self) -> f32 {
        f(self.tree.growth_end())
    }
}

#[test]
fn tree_generation_is_deterministic() {
    let a = Grown::oak(42);
    let b = Grown::oak(42);
    assert_eq!(a.tree.node_count(), b.tree.node_count());
    assert_eq!(a.checksum(), b.checksum());
    let c = Grown::oak(43);
    assert_ne!(a.checksum(), c.checksum());
}

#[test]
fn trunk_starts_straight_up() {
    let g = Grown::oak(7);
    assert_eq!(f(g.rest.angle[0]), std::f32::consts::FRAC_PI_2);
    let mut node = 0usize;
    for _ in 0..3 {
        node += 1; // the first child is the leader
        let lean = (f(g.rest.angle[node]) - std::f32::consts::FRAC_PI_2).abs();
        assert!(
            lean < 0.35,
            "leader at depth {} leans {lean} rad",
            g.tree.depths()[node]
        );
    }
}

#[test]
fn side_branches_use_the_golden_spread() {
    let g = Grown::oak(11);
    let mut sides = 0usize;
    for i in 1..g.tree.node_count() {
        let off = f(g.tree.node(i).rest_offset).abs();
        if off > FORK_SPREAD * 0.6 {
            sides += 1;
            assert!(
                off <= FORK_SPREAD * 1.35,
                "offset {off} exceeds the golden spread band"
            );
        }
    }
    assert!(sides > 10, "expected many golden fork sides, saw {sides}");
}

#[test]
fn growth_runs_from_nothing_to_rest() {
    let g = Grown::oak(5);
    let mut pose = TreePose::new(&g.tree);
    g.pose(&mut pose, 0.0, still());
    for i in 0..g.tree.node_count() {
        assert_eq!(f(pose.tip_x[i]), f(pose.start_x[i]), "tip leaves start at t=0");
        assert_eq!(f(pose.tip_y[i]), f(pose.start_y[i]), "tip leaves start at t=0");
    }
    g.pose(&mut pose, g.end(), still());
    for i in 0..g.tree.node_count() {
        assert!((f(pose.tip_x[i]) - f(g.rest.tip_x[i])).abs() < 1e-3);
        assert!((f(pose.tip_y[i]) - f(g.rest.tip_y[i])).abs() < 1e-3);
    }
}

#[test]
fn growth_is_monotone() {
    let g = Grown::oak(9);
    let mut pose = TreePose::new(&g.tree);
    let mut last = -1.0;
    let mut t = 0.0;
    while t <= g.end() {
        g.pose(&mut pose, t, still());
        let total: f32 = (0..g.tree.node_count())
            .map(|i| {
                let (dx, dy) = (
                    f(pose.tip_x[i]) - f(pose.start_x[i]),
                    f(pose.tip_y[i]) - f(pose.start_y[i]),
                );
                (dx * dx + dy * dy).sqrt()
            })
            .sum();
        assert!(total >= last, "total length shrank at t={t}");
        last = total;
        t += 1.0 / 30.0;
    }
}

#[test]
fn pose_is_deterministic() {
    let g = Grown::oak(3);
    let mut a = TreePose::new(&g.tree);
    let mut b = TreePose::new(&g.tree);
    for k in 0..600u32 {
        let t = k as f32 / 60.0;
        g.pose(&mut a, t, wind(0.3, 1.4));
        g.pose(&mut b, t, wind(0.3, 1.4));
        assert_eq!(a.checksum(), b.checksum(), "pose diverged at t={t}");
    }
}

#[test]
fn sway_stays_bounded() {
    let g = Grown::oak(13);
    let mut pose = TreePose::new(&g.tree);
    let amp = 0.25;
    let chain: f32 = (0..g.tree.node_count()).map(|i| f(g.tree.node(i).len)).sum();
    let bound = chain * amp * 1.5;
    for k in 0..240u32 {
        let t = g.end() + k as f32 / 60.0;
        g.pose(&mut pose, t, wind(amp, 1.0));
        for i in 0..g.tree.node_count() {
            let d = ((f(pose.tip_x[i]) - f(g.rest.tip_x[i])).powi(2)
                + (f(pose.tip_y[i]) - f(g.rest.tip_y[i])).powi(2))
            .sqrt();
            assert!(d <= bound, "tip {i} moved {d} > bound {bound} at t={t}");
        }
    }
}

#[test]
fn oak_preset_node_count_is_sane() {
    let g = Grown::oak(1);
    let n = g.tree.node_count();
    assert!(n > 200, "too few nodes: {n}");
    assert!(n < 4_000, "too many nodes: {n}");
    assert!(g.tree.leaf_count() > 100);
}

#[test]
fn grove_trees_are_independent() {
    let a = Grown::at(TreeParams::oak(), 42, -100.0, 0.0);
    let b = Grown::at(TreeParams::oak(), 43, 100.0, 0.0);
    assert_ne!(a.checksum(), b.checksum());
    let base = |g: &Grown| (f(g.tree.base().0), f(g.tree.base().1));
    assert_eq!(base(&a), (-100.0, 0.0));
    assert_eq!(base(&b), (100.0, 0.0));
}

#[test]
fn the_oak_has_its_declared_parameters() {
    let p = TreeParams::oak();
    let floats = [
        (p.trunk_len, 110.0),
        (p.trunk_width, 9.0),
        (p.leader_ratio, 0.82),
        (p.leader_jitter, 0.06),
        (p.side_ratio, 1.0 / GOLDEN_RATIO),
        (p.ratio_jitter, 0.15),
        (p.angle_jitter, 0.15),
        (p.extra_prob, 0.28),
        (p.min_len, 3.0),
        (p.grow_dur, 0.9),
    ];
    for (bits, want) in floats {
        assert_eq!(f(bits), want);
    }
    assert_eq!(p.max_depth, 8);
}

#[test]
fn parents_precede_children_and_leaves_have_none() {
    let g = Grown::oak(42);
    let n = g.tree.node_count();
    let mut has_child = vec![false; n];
    assert_eq!(g.tree.node(0).parent, PARENT_NONE);
    for i in 1..n {
        let node = g.tree.node(i);
        let parent = node.parent as usize;
        assert!(parent < i, "parent {parent} after child {i}");
        assert_eq!(node.depth, g.tree.node(parent).depth + 1);
        assert_eq!(node.width, g.tree.widths()[i]);
        has_child[parent] = true;
    }
    for (i, leaf) in g.tree.leaf_flags().iter().enumerate() {
        assert_eq!(*leaf, !has_child[i], "node {i}");
    }
    let leaves = g.tree.leaf_flags().iter().filter(|&&l| l).count() as u64;
    assert_eq!(leaves, g.tree.leaf_count());
}

#[test]
fn empty_poses_are_empty() {
    let g = Grown::oak(1);
    let pose = TreePose::new(&g.tree);
    assert!(!pose.is_empty());
    let none = TreePose {
        angle: vec![],
        start_x: vec![],
        start_y: vec![],
        tip_x: vec![],
        tip_y: vec![],
        width: vec![],
    };
    assert!(none.is_empty());
    assert_eq!(none.len(), 0);
    assert_eq!(none.checksum(), FNV_OFFSET);
}

#[test]
fn scenes_build_their_trees() {
    for id in ["tree", "tree-storm", "tree-grove"] {
        let Some(preset) = scene_preset(id) else {
            panic!("{id} is a scene");
        };
        let built = build_scene(&preset, 42, &growing(preset.params.clone()));
        assert_eq!(built.trees.len(), preset.anchors.len());
        assert_eq!(built.poses.len(), preset.anchors.len());
        let nodes: u64 = built.trees.iter().map(|t| t.node_count() as u64).sum();
        assert_eq!(built.segments, nodes);
        let leaves: u64 = built.trees.iter().map(Tree::leaf_count).sum();
        assert_eq!(built.leaves, leaves);
        let end = built.trees.iter().map(|t| f(t.growth_end())).fold(0.0, f32::max);
        assert_eq!(f(built.growth_end), end);
        for (k, tree) in built.trees.iter().enumerate() {
            let alone = Tree::generate(
                &preset.params,
                tree_seed(42, k),
                &growing(preset.params.clone()),
            );
            assert_eq!(tree.node_count(), alone.node_count(), "tree {k} of {id}");
            assert_eq!(tree.growth_end(), alone.growth_end());
        }
    }
    assert!(scene_preset("forest").is_none());
    let grove = scene_preset("tree-grove").unwrap_or_else(|| panic!("grove"));
    assert_eq!(grove.anchors.len(), 9);
    assert_eq!(grove.params.max_depth, 6);
    assert_eq!(f(grove.params.trunk_len), 70.0);
    assert_eq!(f(grove.params.trunk_width), 7.0);
    assert_eq!((f(grove.wind.amp_rad), f(grove.wind.freq_scale)), (0.12, 0.9));
    assert_eq!(grove.tile_radius, 1);
    let storm = scene_preset("tree-storm").unwrap_or_else(|| panic!("storm"));
    assert_eq!((f(storm.wind.amp_rad), f(storm.wind.freq_scale)), (0.34, 1.8));
    assert_eq!(storm.tile_radius, 2);
}

/// One tick poses every tree at the new time, and the mirror reads its
/// own branches.
#[test]
fn groves_tick_and_mirror_their_branches() {
    let preset = scene_preset("tree-grove").unwrap();
    let scene = build_scene(&preset, 42, &growing(preset.params.clone()));
    let count = scene.segments as usize;
    let mut grove = GroveState::new(scene.trees, scene.poses);
    assert_eq!(grove.segments.len(), count);
    let (params, gusts) = (preset.params.clone(), preset.wind);
    let swing = move |(t, n, j): Swing<f32>| swaying(params.clone(), gusts, t)(n, j);
    let clock = |t: u32| (f(t) + f(SIM_DT)).to_bits();
    for _ in 0..120 {
        grove.step_trees(&clock, &f, &swing);
        grove.sync_segments();
    }
    assert!((f(grove.t) - 2.0).abs() < 1e-3);
    for s in &grove.segments {
        let (pose, k) = (&grove.poses[s.tree as usize], s.node as usize);
        assert_eq!((s.x0, s.y0), (pose.start_x[k], pose.start_y[k]));
        assert_eq!((s.x1, s.y1), (pose.tip_x[k], pose.tip_y[k]));
        assert_eq!(s.width, pose.width[k]);
    }
    let mut fresh = TreePose::new(&grove.trees[4]);
    grove.trees[4].pose_into(&mut fresh, &swaying(preset.params, gusts, f(grove.t)));
    assert_eq!(fresh.checksum(), grove.poses[4].checksum());
    assert_eq!(grove.checksum(), grove_checksum(&grove.poses));
}

#[test]
fn grove_digests_fold_every_pose() {
    let g = Grown::oak(2);
    let h = Grown::oak(3);
    let poses = vec![g.rest.clone(), h.rest.clone()];
    assert_eq!(
        grove_checksum(&poses),
        fold(FNV_OFFSET, &[g.rest.checksum(), h.rest.checksum()])
    );
    assert_eq!(grove_checksum(&vec![]), FNV_OFFSET);
}

// The tactical projection.

const TILE: f32 = 110.0;
const SIN_PITCH: f32 = 0.587_785_27;
const COS_YAW: f32 = std::f32::consts::FRAC_1_SQRT_2;

fn tile_center(i: i32, j: i32) -> (f32, f32) {
    ((i as f32 + 0.5) * TILE, (j as f32 + 0.5) * TILE)
}

fn project_ground(gx: f32, gz: f32) -> (f32, f32) {
    ((gx - gz) * COS_YAW, (gx + gz) * COS_YAW * SIN_PITCH)
}

fn project_billboard(gx: f32, gz: f32, tx: f32, ty: f32) -> (f32, f32) {
    let (sx, sy) = project_ground(gx, gz);
    (sx + tx, sy - ty)
}

fn project_shadow(gx: f32, gz: f32, tx: f32, ty: f32) -> (f32, f32) {
    project_ground(
        gx + (tx + 0.50 * ty) * COS_YAW,
        gz + (-tx + 0.42 * ty) * COS_YAW,
    )
}

fn rounded(p: (f32, f32)) -> (i64, i64) {
    (p.0.round() as i64, p.1.round() as i64)
}

fn sample(g: &Grown, anchor: (i32, i32), times: &[f32], w: WindParams) -> TreeSample {
    let n = g.tree.node_count();
    let (gx, gz) = tile_center(anchor.0, anchor.1);
    let deepest = g.tree.depths().iter().copied().max().unwrap_or(0);
    let mut widths = Vec::new();
    for d in 0..=deepest {
        let of: Vec<f32> = (0..n)
            .filter(|&i| g.tree.depths()[i] == d)
            .map(|i| f(g.tree.widths()[i]))
            .collect();
        let width = (of.iter().sum::<f32>() / of.len() as f32).max(1.2);
        widths.push((format!("{:.1}", (width * 0.9).max(1.5)), format!("{width:.1}")));
    }
    let mut pose = TreePose::new(&g.tree);
    let frames = times
        .iter()
        .map(|&t| {
            g.pose(&mut pose, t, w);
            let ends = |i: usize| {
                (
                    (f(pose.start_x[i]), f(pose.start_y[i])),
                    (f(pose.tip_x[i]), f(pose.tip_y[i])),
                )
            };
            let stroke = |i: usize, lit: bool| {
                let (a, b) = ends(i);
                let at = |p: (f32, f32)| {
                    rounded(if lit {
                        project_billboard(gx, gz, p.0, p.1)
                    } else {
                        project_shadow(gx, gz, p.0, p.1)
                    })
                };
                (at(a), at(b))
            };
            let leaf = |i: usize, scale: f32| {
                let vary = 0.8 + 0.4 * ((i % 7) as f32 / 7.0);
                let len = 11.0 * vary * scale;
                let (_, (tx, ty)) = ends(i);
                let a = f(pose.angle[i]);
                (
                    rounded(project_billboard(gx, gz, tx, ty)),
                    rounded(project_billboard(
                        gx,
                        gz,
                        tx - a.cos() * len,
                        ty - a.sin() * len,
                    )),
                )
            };
            TreeFrame {
                shadow: (0..n).map(|i| stroke(i, false)).collect(),
                branch: (0..n).map(|i| stroke(i, true)).collect(),
                dark: (0..n).map(|i| leaf(i, 1.0)).collect(),
                light: (0..n).map(|i| leaf(i, 1.35)).collect(),
            }
        })
        .collect();
    TreeSample {
        depths: g.tree.depths().clone(),
        leaves: g.tree.leaf_flags().clone(),
        widths,
        frames,
    }
}

fn quad(i: i32, j: i32) -> TileQuad {
    let at = |dx: f32, dz: f32| {
        let (x, y) = project_ground(i as f32 * TILE + dx, j as f32 * TILE + dz);
        (format!("{x:.0}"), format!("{y:.0}"))
    };
    let (x0, y0) = at(0.0, 0.0);
    let (x1, y1) = at(TILE, 0.0);
    let (x2, y2) = at(TILE, TILE);
    let (x3, y3) = at(0.0, TILE);
    TileQuad {
        x0,
        y0,
        x1,
        y1,
        x2,
        y2,
        x3,
        y3,
    }
}

fn sapling() -> Grown {
    let mut p = TreeParams::oak();
    p.max_depth = 5;
    Grown::new(p, 42)
}

fn document(g: &Grown, times: &[f32], fps: u32, timing: Option<Timing>) -> Result<String, String> {
    let anchors = vec![(0, 0)];
    let samples = vec![sample(g, anchors[0], times, wind(0.10, 1.0))];
    let elements = collect(&samples, &anchors)?;
    let tiles = ground_tiles(&anchors, 2);
    let quads: Vec<TileQuad> = tiles.iter().map(|&(i, j)| quad(i, j)).collect();
    let e = extent(&samples).ok_or("nothing drawn")?;
    let frame = Frame {
        min_x: format!("{}", e.min_x - 40),
        min_y: format!("{}", e.min_y - 55),
        width: format!("{}", e.max_x - e.min_x + 80),
        height: format!("{}", e.max_y - e.min_y + 125),
        caption_x: format!("{}", e.min_x),
        caption_y: format!("{}", e.max_y + 50),
    };
    let meta = RenderMeta {
        scene: "tree",
        seed: 42,
        fps,
    };
    Ok(emit(&elements, &tiles, &quads, &frame, &meta, &timing))
}

#[test]
fn svg_animation_writes_a_multi_frame_svg() -> Result<(), String> {
    let g = sapling();
    let fps = 4.0;
    let dur = g.end() + 3.5;
    let frames = (((dur * fps).ceil() as usize) + 1).max(2);
    let times: Vec<f32> = (0..frames).map(|k| (k as f32 / fps).min(dur)).collect();
    let timing = Timing {
        dur: format!("{dur:.2}"),
        key_times: (0..frames)
            .map(|k| format!("{:.4}", k as f32 / (frames - 1) as f32))
            .collect(),
    };
    let svg = document(&g, &times, 4, Some(timing))?;
    assert!(svg.contains("<svg"), "missing svg root");
    assert!(svg.contains("<animate"), "no SMIL animation");
    assert!(svg.contains("keyTimes"), "no keyTimes");
    assert!(svg.contains("repeatCount=\"indefinite\""));
    assert!(svg.contains("<polygon"), "no checkerboard ground");
    assert!(svg.contains("golden-angle"), "no caption provenance");
    Ok(())
}

#[test]
fn svg_static_frame_has_no_animation() -> Result<(), String> {
    let svg = document(&sapling(), &[99.0], 1, None)?;
    assert!(svg.contains("<svg"));
    assert!(!svg.contains("<animate"), "static frame must not animate");
    Ok(())
}

#[test]
fn mismatched_inputs_are_rejected() {
    let g = sapling();
    let samples = vec![sample(&g, (0, 0), &[0.0, 1.0], wind(0.10, 1.0))];
    let Err(e) = collect(&samples, &vec![]) else {
        panic!("a tree without an anchor is refused");
    };
    assert_eq!(e, "trees, poses, and anchors must be parallel arrays");
    let Err(e) = collect(&vec![], &vec![]) else {
        panic!("nothing to draw is refused");
    };
    assert_eq!(e, "no trees to render");
}

#[test]
fn elements_group_nodes_by_depth() -> Result<(), String> {
    let line = |a: (i64, i64), b: (i64, i64)| (a, b);
    let frame = || TreeFrame {
        shadow: vec![line((0, 0), (1, 1)), line((1, 1), (2, 2)), line((1, 1), (3, 3))],
        branch: vec![line((0, 0), (0, -9)), line((0, -9), (-4, -12)), line((0, -9), (5, -13))],
        dark: vec![line((7, 7), (7, 8)), line((1, 2), (3, 4)), line((5, 6), (7, 8))],
        light: vec![line((7, 7), (7, 8)), line((1, 2), (3, 5)), line((5, 6), (7, 9))],
    };
    let text = |s: &str| s.to_string();
    let samples = vec![TreeSample {
        depths: vec![0, 1, 1],
        leaves: vec![false, true, true],
        widths: vec![(text("8.1"), text("9.0")), (text("5.5"), text("6.1"))],
        frames: vec![frame(), frame()],
    }];
    let elements = collect(&samples, &vec![(0, 0)])?;
    let rows: Vec<(Group, &str, &str, usize, &str)> = elements
        .iter()
        .map(|e| {
            (
                e.group,
                e.stroke.as_str(),
                e.width.as_str(),
                e.frames.len(),
                e.frames[0].as_str(),
            )
        })
        .collect();
    assert_eq!(
        rows,
        vec![
            (Group::Shadow, "#1e2a17", "8.1", 2, "M0 0L1 1"),
            (Group::Branch, "#6b4a2f", "9.0", 2, "M0 0L0 -9"),
            (Group::Shadow, "#1e2a17", "5.5", 2, "M1 1L2 2M1 1L3 3"),
            (
                Group::Branch,
                "#86703d",
                "6.1",
                2,
                "M0 -9L-4 -12M0 -9L5 -13"
            ),
            (
                Group::CanopyDark,
                "#3e7c34",
                "26.0",
                2,
                "M1 2L3 4M5 6L7 8"
            ),
            (
                Group::CanopyLight,
                "#57a244",
                "13.0",
                2,
                "M1 2L3 5M5 6L7 9"
            ),
        ]
    );
    // Only drawn strokes count: the trunk is no leaf, so (7, 9) of its
    // canopy does not stretch the box.
    let Some(e) = extent(&samples) else {
        panic!("strokes were drawn");
    };
    assert_eq!((e.min_x, e.min_y, e.max_x, e.max_y), (-4, -13, 7, 9));
    assert!(extent(&vec![]).is_none());
    Ok(())
}

#[test]
fn branch_color_interpolates() {
    assert_eq!(branch_color(0, 5), "#6b4a2f");
    assert_eq!(branch_color(5, 5), "#86703d");
    for shade in 1..=255u8 {
        for d in 0..=shade {
            let u = f32::from(d) / f32::from(shade);
            let lerp = |a: u8, b: u8| (f32::from(a) + (f32::from(b) - f32::from(a)) * u) as u32;
            let want = format!(
                "#{:02x}{:02x}{:02x}",
                lerp(0x6b, 0x86),
                lerp(0x4a, 0x70),
                lerp(0x2f, 0x3d)
            );
            assert_eq!(branch_color(d, shade), want, "{d} of {shade}");
        }
    }
}

#[test]
fn ground_tiles_cover_every_ring_once() {
    let tiles = ground_tiles(&vec![(0, 0), (1, 0)], 1);
    let want: Vec<(i32, i32)> = (-1..=2)
        .flat_map(|i| (-1..=1).map(move |j| (i, j)))
        .collect();
    assert_eq!(tiles, want);
    assert_eq!(ground_tiles(&vec![], 3), vec![]);
}

#[test]
fn xml_escape_handles_markup() {
    assert_eq!(xml_escape("a<b&c>"), "a&lt;b&amp;c&gt;");
}

/// A number between two others, endpoint-exact.
fn between((p, c, alpha): (u32, u32, u32)) -> u32 {
    let a = f(alpha);
    (f(p) * (1.0 - a) + f(c) * a).to_bits()
}

fn playground_params() -> TreeParams {
    TreeParams {
        trunk_len: 40.0f32.to_bits(),
        max_depth: 4,
        ..TreeParams::oak()
    }
}

#[test]
fn lerp_preserves_connectivity() {
    let bits = |v: &[f32]| v.iter().map(|x| x.to_bits()).collect::<Vec<u32>>();
    let chain = |tip: f32| TreePose {
        angle: bits(&[1.0, 0.6]),
        start_x: bits(&[0.0, tip]),
        start_y: bits(&[0.0, tip]),
        tip_x: bits(&[tip, tip - 0.5]),
        tip_y: bits(&[tip, tip + 0.7]),
        width: bits(&[4.0, 2.0]),
    };
    let prev = chain(1.0);
    let curr = chain(2.0);
    let mut out = chain(0.0);
    for k in 0..=8 {
        let alpha = k as f32 / 8.0;
        lerp_pose(&prev, &curr, alpha.to_bits(), &between, &mut out);
        assert_eq!(out.start_x[1], out.tip_x[0], "broken at alpha {alpha}");
        assert_eq!(out.start_y[1], out.tip_y[0], "broken at alpha {alpha}");
    }
}

#[test]
fn lerp_pose_hits_endpoints_exactly() {
    let g = Grown::new(playground_params(), tree_seed(3, 0));
    let mut prev = TreePose::new(&g.tree);
    let mut curr = TreePose::new(&g.tree);
    let mut out = TreePose::new(&g.tree);
    g.pose(&mut prev, 1.0, wind(0.1, 1.0));
    g.pose(&mut curr, 2.0, wind(0.1, 1.0));
    lerp_pose(&prev, &curr, 0.0f32.to_bits(), &between, &mut out);
    assert_eq!(out.checksum(), prev.checksum());
    lerp_pose(&prev, &curr, 1.0f32.to_bits(), &between, &mut out);
    assert_eq!(out.checksum(), curr.checksum());
    lerp_pose(&prev, &curr, 0.5f32.to_bits(), &between, &mut out);
    for k in 0..out.tip_x.len() {
        let mid = (f(prev.tip_x[k]) + f(curr.tip_x[k])) * 0.5;
        assert!((f(out.tip_x[k]) - mid).abs() < 1e-3);
    }
}

/// The arithmetic of the playground's knobs.
fn nudged(n: Nudge) -> u32 {
    let v = match n {
        Nudge::Turn { knob, value, steps } => {
            let step = match knob {
                Knob::Spread => 0.017_453_3,
                Knob::Jitter => 0.01,
                Knob::WindAmp => 0.02,
                Knob::WindFreq => 0.1,
                Knob::Canopy => 0.1,
            };
            f(value) + steps as f32 * step
        }
        Nudge::Zoom { value, out } => f(value) * if out { 1.12 } else { 1.0 / 1.12 },
        Nudge::Tick { t } => f(t) + f(SIM_DT),
    };
    v.to_bits()
}

fn playground(seed: u64) -> Playground {
    let p = playground_params();
    Playground::new(
        FORK_SPREAD.to_bits(),
        p.angle_jitter,
        0.1f32.to_bits(),
        1.0f32.to_bits(),
        seed,
    )
}

#[test]
fn actions_clamp_and_flag_regen() {
    let mut pg = playground(7);
    assert_eq!(pg.apply(Action::Spread(100), &nudged), Effect::Regen);
    assert!((f(pg.spread) - f(SPREAD_MAX)).abs() < 1e-6);
    assert_eq!(pg.apply(Action::Jitter(-100), &nudged), Effect::Regen);
    assert_eq!(f(pg.angle_jitter), 0.0);
    assert_eq!(pg.apply(Action::WindAmp(-100), &nudged), Effect::Live);
    assert_eq!(f(pg.amp_rad), 0.0);
    assert_eq!(pg.apply(Action::WindFreq(100), &nudged), Effect::Live);
    assert_eq!(pg.freq_scale, FREQ_MAX);
    assert_eq!(pg.apply(Action::Canopy(-100), &nudged), Effect::Live);
    assert_eq!(pg.canopy_scale, CANOPY_MIN);
    for _ in 0..100 {
        assert_eq!(pg.apply(Action::Zoom(-1), &nudged), Effect::Live);
    }
    assert!((f(pg.zoom) - f(ZOOM_MIN)).abs() < 1e-6);
}

#[test]
fn knob_limits_are_the_declared_ones() {
    assert_eq!(f(SPREAD_MIN), 0.174_533);
    assert_eq!(f(SPREAD_MAX), std::f32::consts::FRAC_PI_2);
    assert_eq!(f(JITTER_MAX), 0.6);
    assert_eq!(f(AMP_MAX), 1.2);
    assert_eq!((f(FREQ_MIN), f(FREQ_MAX)), (0.1, 6.0));
    assert_eq!((f(CANOPY_MIN), f(CANOPY_MAX)), (0.2, 3.0));
    assert_eq!((f(ZOOM_MIN), f(ZOOM_MAX)), (0.3, 4.0));
}

#[test]
fn reroll_restarts_and_hops_deterministically() {
    assert_ne!(hop_seed(42), 42);
    assert_eq!(hop_seed(42), hop_seed(42));
    let mut pg = playground(42);
    pg.sim_t = 9.0f32.to_bits();
    pg.ticks = 540;
    assert_eq!(pg.apply(Action::Reroll, &nudged), Effect::Regen);
    assert_eq!(pg.seed, hop_seed(42));
    assert_eq!(f(pg.sim_t), 0.0);
    assert_eq!(pg.ticks, 0);
    assert_eq!(pg.apply(Action::Replay, &nudged), Effect::Snap);
    assert_eq!(pg.seed, hop_seed(42));
    assert_eq!(f(pg.sim_t), 0.0);
    assert_eq!(
        hop_seed(42),
        42u64
            .wrapping_mul(0x9E37_79B9_7F4A_7C15)
            .wrapping_add(0xD1B5_4A32_D192_ED03)
    );
}

/// The playground's trees, and how their branches swing.
fn played(seed: u64) -> (Playback, impl Fn(Swing<f32>) -> Segment) {
    let p = playground_params();
    let tree = Tree::generate(&p, tree_seed(seed, 0), &growing(p.clone()));
    let swing = move |(t, n, j): Swing<f32>| swaying(p.clone(), wind(0.1, 1.0), t)(n, j);
    (Playback::new(vec![tree]), swing)
}

#[test]
fn repose_makes_prev_and_curr_agree() {
    let (mut trees, swing) = played(11);
    trees.repose(3.0, &swing);
    assert_eq!(trees.prev[0].checksum(), trees.curr[0].checksum());
    // The same tick count reaches the same pose.
    let run = || {
        let mut pg = playground(11);
        let (mut trees, swing) = played(pg.seed);
        for _ in 0..30 {
            assert!(pg.tick(&nudged));
            trees.step(f(pg.sim_t), &swing);
        }
        (pg, trees.curr[0].checksum())
    };
    let (a, b) = (run(), run());
    assert_eq!(a.1, b.1);
    assert!((f(a.0.sim_t) - 0.5).abs() < 1e-3);
    assert_eq!(a.0.ticks, 30);
}

/// A tick keeps the pose before it, and the shown frame lies between.
#[test]
fn playback_shows_the_frame_between_two_ticks() {
    let (mut trees, swing) = played(5);
    trees.repose(1.0, &swing);
    let before = trees.curr[0].checksum();
    trees.step(1.5, &swing);
    assert_eq!(trees.prev[0].checksum(), before);
    assert_ne!(trees.curr[0].checksum(), before);
    trees.show(0.0f32.to_bits(), &between);
    assert_eq!(trees.scratch[0].checksum(), before);
    trees.show(1.0f32.to_bits(), &between);
    assert_eq!(trees.scratch[0].checksum(), trees.curr[0].checksum());
    let mut copy = TreePose::new(&trees.trees[0]);
    copy_pose(&trees.curr[0], &mut copy);
    assert_eq!(copy.checksum(), trees.curr[0].checksum());
}

#[test]
fn paused_playgrounds_hold_their_clock() {
    let mut pg = playground(1);
    assert_eq!(pg.apply(Action::PauseToggle, &nudged), Effect::Snap);
    let before = pg;
    assert!(!pg.tick(&nudged));
    assert_eq!(pg, before);
    assert_eq!(pg.apply(Action::Quit, &nudged), Effect::Quit);
}

#[test]
fn pressed_keys_drive_the_playground() {
    let mut pg = playground(1);
    let done = pg.handle_input(&vec![Key::ArrowRight, Key::Other, Key::R], &nudged);
    assert_eq!(
        done,
        vec![
            (Action::Spread(1), Effect::Regen),
            (Action::Reroll, Effect::Regen)
        ]
    );
    assert_eq!(pg.edit_count, 2);
    assert_eq!(pg.seed, hop_seed(1));
    assert_eq!(pg.spread, (FORK_SPREAD + 0.017_453_3).to_bits());
}

#[test]
fn captures_follow_the_script() {
    let mut c = Captured::new();
    let b = f32::to_bits;
    assert_eq!(c.advance(b(1.4)), Capture::Wait);
    assert_eq!(c.advance(b(1.5)), Capture::Growing);
    assert_eq!(c.advance(b(1.6)), Capture::Wait);
    assert_eq!(c.advance(b(8.0)), Capture::Grown);
    assert_eq!(c.advance(b(9.9)), Capture::Wait);
    assert_eq!(c.advance(b(10.0)), Capture::Exit);
    assert_eq!(grown_variant("out/shot.png"), "out/shot-grown.png");
    assert_eq!(grown_variant("shot"), "shot-grown");
}

#[test]
fn ring_extremes_bound_the_tiles() {
    assert_eq!(ring_extremes(&vec![(0, 0)], 2), (-2, 3, -2, 3));
    assert_eq!(ring_extremes(&vec![(-1, 4), (3, 0)], 1), (-2, 5, -1, 6));
}

#[test]
fn readouts_print_the_state() {
    let pg = playground(42);
    let text = |s: &str| s.to_string();
    let out = tree_readout(
        "tree",
        &pg,
        &Printed {
            spread: text("42.5"),
            jitter: text("0.15"),
            amp: text("0.10"),
            freq: text("1.00"),
            canopy: text("1.00"),
            t: text("   0.50"),
            alpha: text("0.25"),
        },
    );
    let lines: Vec<&str> = out.split('\n').collect();
    assert_eq!(lines.len(), 6);
    assert_eq!(lines[0].trim_end(), "tree-playground  scene tree  seed 42");
    assert_eq!(lines[1].trim_end(), "spread 42.5deg  fork jitter 0.15");
    assert_eq!(
        lines[2].trim_end(),
        "wind amp 0.10 rad  freq 1.00  canopy 1.00x  [running]"
    );
    assert_eq!(lines[3].trim_end(), "t    0.50s  tick 0  alpha 0.25");
    assert_eq!(
        lines[4].trim_end(),
        "arrows spread/jitter  A/D wind amp  W/S wind freq  Q/E canopy"
    );
    assert_eq!(
        lines[5].trim_end(),
        "R reroll  G replay growth  Space pause  -/+ zoom  Esc quit"
    );
    let width = lines[4].len();
    assert!(lines.iter().all(|l| l.len() == width), "lines line up");
}

#[test]
fn the_node_cap_is_hard() {
    let p = TreeParams {
        max_depth: 14,
        min_len: 0.0f32.to_bits(),
        ..TreeParams::oak()
    };
    let g = Grown::new(p, 42);
    assert_eq!(g.tree.node_count(), MAX_NODES);
    assert!(g.tree.depths().iter().all(|&d| d <= 14));
    let leaves = g.tree.leaf_flags().iter().filter(|&&l| l).count();
    assert_eq!(leaves as u64, g.tree.leaf_count());
}

#[test]
fn tree_digests_ignore_the_order_of_branches() {
    let g = Grown::oak(42);
    let turned = |v: &Vec<u32>| v.iter().rev().copied().collect::<Vec<u32>>();
    let back = TreePose {
        angle: turned(&g.rest.angle),
        start_x: turned(&g.rest.start_x),
        start_y: turned(&g.rest.start_y),
        tip_x: turned(&g.rest.tip_x),
        tip_y: turned(&g.rest.tip_y),
        width: turned(&g.rest.width),
    };
    assert_eq!(g.rest.checksum(), back.checksum());
    let mut crossed = back;
    crossed.tip_x.swap(0, 3);
    assert_ne!(g.rest.checksum(), crossed.checksum());
}

#[test]
fn playback_starts_from_zero() {
    let g = Grown::oak(42);
    let n = g.tree.node_count();
    let trees = Playback::new(vec![g.tree.clone()]);
    for buffer in [&trees.prev[0], &trees.curr[0], &trees.scratch[0]] {
        assert_eq!(buffer.width, vec![0; n]);
        assert_eq!(buffer.tip_x, vec![0; n]);
    }
}
