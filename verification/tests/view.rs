//! Keys, clicks, scripts, readouts, and the command line.

use bowo::args::{dhat_out_path, has_scene, parse_args, route, scene_listing};
use bowo::args::{Args, Gallery, Request, Route, DEFAULT_SEED, WARMUP_TICKS};
use bowo::character::{Carry, MovementInput};
use bowo::demo::{scene_preset, Demo};
use bowo::grid::SpatialGrid;
use bowo::mandala_view;
use bowo::mandala_view::MandalaView;
use bowo::sim::Sim;
use bowo::tree_view;
use bowo::view::{block, clamp, is_held, shot_variant, Key, Pace};
use bowo::walker_view;
use bowo::walker_view::{apply_selection_input, goal_done, tag, toggle_carry};
use bowo::walker_view::{Action, Apply, Click, Doing, Figure, Hit, Printed, Script, Viewer};
use bowo::walker_view::{SHOT_COUNT, TURN_BACK_2, TURN_RATE, TURN_RATE_2};
use bowo::walkers::{RUN_SPEED, WALK_SPEED};

fn f(bits: u32) -> f32 {
    f32::from_bits(bits)
}

fn text(s: &str) -> String {
    s.to_string()
}

#[test]
fn viewer_key_action_maps_the_playground_keys() {
    use_tree_keys();
    let key_action = walker_view::key_action;
    assert_eq!(key_action(Key::W), Some(Action::Forward(true)));
    assert_eq!(key_action(Key::S), Some(Action::Forward(false)));
    assert_eq!(key_action(Key::ShiftLeft), Some(Action::Run));
    assert_eq!(key_action(Key::D), Some(Action::Turn(1)));
    assert_eq!(key_action(Key::Space), Some(Action::Jump));
    assert_eq!(key_action(Key::F), Some(Action::Punch));
    assert_eq!(key_action(Key::E), Some(Action::Reach));
    assert_eq!(key_action(Key::C), Some(Action::CarryCycle));
    assert_eq!(key_action(Key::O), Some(Action::OrthoToggle));
    assert_eq!(key_action(Key::P), Some(Action::PauseToggle));
    assert_eq!(key_action(Key::R), Some(Action::Reset));
    assert_eq!(key_action(Key::Minus), Some(Action::Zoom(1)));
    assert_eq!(key_action(Key::Escape), Some(Action::Quit));
    assert_eq!(key_action(Key::Other), None);
}

fn use_tree_keys() {
    let key_action = tree_view::key_action;
    assert_eq!(
        key_action(Key::ArrowRight),
        Some(tree_view::Action::Spread(1))
    );
    assert_eq!(key_action(Key::Minus), Some(tree_view::Action::Zoom(1)));
    assert_eq!(key_action(Key::R), Some(tree_view::Action::Reroll));
    assert_eq!(key_action(Key::Escape), Some(tree_view::Action::Quit));
    assert_eq!(key_action(Key::Other), None);
}

#[test]
fn key_action_maps_the_mandala_keys() {
    let key_action = mandala_view::key_action;
    assert_eq!(
        key_action(Key::Digit1),
        Some(mandala_view::Action::Population(100))
    );
    assert_eq!(
        key_action(Key::Digit3),
        Some(mandala_view::Action::Population(10_000))
    );
    assert_eq!(
        key_action(Key::Numpad2),
        Some(mandala_view::Action::Population(1_000))
    );
    assert_eq!(
        key_action(Key::Space),
        Some(mandala_view::Action::PauseToggle)
    );
    assert_eq!(key_action(Key::Minus), Some(mandala_view::Action::Zoom(1)));
    assert_eq!(key_action(Key::Escape), Some(mandala_view::Action::Quit));
    assert_eq!(key_action(Key::W), None);
}

#[test]
fn shot_variants_tag_the_action() {
    assert_eq!(shot_variant("/tmp/shot.png", "walk"), "/tmp/shot-walk.png");
    assert_eq!(shot_variant("/tmp/shot.png", "air"), "/tmp/shot-air.png");
    assert_eq!(shot_variant("prefix", "strike"), "prefix-strike");
}

#[test]
fn variants_tag_the_shot() {
    assert_eq!(
        shot_variant("/tmp/shot.png", "image"),
        "/tmp/shot-image.png"
    );
    assert_eq!(shot_variant("prefix", "dispersed"), "prefix-dispersed");
}

fn zoom(at: (u32, bool)) -> u32 {
    (f(at.0) * if at.1 { 1.12 } else { 1.0 / 1.12 }).to_bits()
}

#[test]
fn clicks_select_return_and_send() {
    let mut v = Viewer::new(7);
    assert_eq!(v.click(Hit::Figure(9)), Click::Select(9));
    assert_eq!(v.selected, 9);
    assert_eq!(v.click(Hit::Ground), Click::Send(9));
    assert_eq!(v.click(Hit::Figure(9)), Click::Return(7));
    assert_eq!(v.selected, 7);
    assert_eq!(v.edit_count, 3);
    assert_eq!(v.click(Hit::Nothing), Click::Ignore);
    assert_eq!(v.edit_count, 3, "a miss is no edit");
}

#[test]
fn held_keys_become_the_intent() {
    let mut v = Viewer::new(1);
    let out = v.handle_input(
        false,
        None,
        &vec![Key::W, Key::D, Key::ArrowRight, Key::Space],
        &vec![],
        &zoom,
    );
    assert!(!out.quit && !out.projection);
    assert_eq!(out.click, Click::Ignore);
    assert_eq!(
        v.input,
        MovementInput {
            target_speed: WALK_SPEED,
            turn_rate: TURN_RATE_2,
            jump: true,
            ..MovementInput::default()
        }
    );
    v.handle_input(
        false,
        None,
        &vec![Key::ArrowDown, Key::A, Key::ArrowLeft],
        &vec![Key::ShiftLeft],
        &zoom,
    );
    assert_eq!(v.input.target_speed, RUN_SPEED, "run toggles, both ways walk");
    assert_eq!(v.input.turn_rate, TURN_BACK_2);
    v.handle_input(false, None, &vec![Key::D], &vec![], &zoom);
    assert_eq!((v.input.target_speed, v.input.turn_rate), (0, TURN_RATE));
    assert_eq!(f(TURN_RATE), 2.2);
    assert_eq!((f(WALK_SPEED), f(RUN_SPEED)), (1.35, 3.6));
}

#[test]
fn new_keys_act_once() {
    let mut v = Viewer::new(1);
    let out = v.handle_input(
        false,
        Some(Hit::Figure(4)),
        &vec![],
        &vec![Key::O, Key::P, Key::C, Key::R, Key::Minus, Key::Escape],
        &zoom,
    );
    assert_eq!(out.click, Click::Select(4));
    assert!(out.projection && out.quit);
    assert!(!v.ortho && v.paused && v.carry_pending && v.reset_pending);
    assert_eq!(v.zoom, zoom((1.0f32.to_bits(), true)));
    assert_eq!(v.edit_count, 7);
}

#[test]
fn scripts_own_the_keyboard() {
    let mut v = Viewer::new(1);
    let before = v;
    let out = v.handle_input(true, Some(Hit::Ground), &vec![Key::W], &vec![Key::Escape], &zoom);
    assert_eq!(v, before);
    assert!(!out.quit);
}

#[test]
fn zoom_stays_within_its_limits() {
    let mut v = Viewer::new(1);
    for _ in 0..100 {
        v.handle_input(false, None, &vec![], &vec![Key::Minus], &zoom);
    }
    assert_eq!(f(v.zoom), 2.5);
    for _ in 0..100 {
        v.handle_input(false, None, &vec![], &vec![Key::Equal], &zoom);
    }
    assert_eq!(f(v.zoom), 0.5);
}

#[test]
fn resets_come_before_the_intent() {
    let mut v = Viewer::new(1);
    v.click(Hit::Figure(5));
    v.handle_input(false, None, &vec![Key::W], &vec![Key::R, Key::C], &zoom);
    assert_eq!(apply_selection_input(&mut v), Apply::Home(1));
    assert_eq!(v.selected, 1);
    assert_eq!(
        apply_selection_input(&mut v),
        Apply::Drive {
            walker: 1,
            input: v.input,
            toggle_carry: true,
            cancel_send: true,
        }
    );
    v.handle_input(false, None, &vec![], &vec![], &zoom);
    assert!(matches!(
        apply_selection_input(&mut v),
        Apply::Drive {
            toggle_carry: false,
            cancel_send: false,
            ..
        }
    ));
    assert_eq!(toggle_carry(Carry::Nothing), Carry::Chest);
    assert_eq!(toggle_carry(Carry::Side), Carry::Chest);
    assert_eq!(toggle_carry(Carry::Chest), Carry::Nothing);
}

#[test]
fn goals_end_when_reached_or_gone() {
    let b = f32::to_bits;
    assert!(goal_done(None));
    assert!(goal_done(Some((b(0.3), b(0.3)))));
    assert!(!goal_done(Some((b(0.31), b(0.3)))));
}

#[test]
fn the_walk_script_runs_its_windows() {
    let mut s = Script::new();
    let mut input = MovementInput::default();
    let mut at = |t: f32| {
        let scene = s.drive(t.to_bits(), &mut input);
        (scene, input)
    };
    let (scene, input) = at(0.1);
    assert_eq!(input, MovementInput::default());
    assert!(scene.shots.is_empty() && !scene.exit);
    let (scene, input) = at(1.5);
    assert_eq!(input.target_speed, WALK_SPEED);
    assert_eq!(scene.shots, vec![0]);
    let (scene, input) = at(2.1);
    assert!(input.jump && scene.shots.is_empty());
    let (scene, input) = at(3.0);
    assert!(input.reach && !input.jump);
    assert_eq!(scene.shots, vec![1]);
    let (scene, _) = at(4.0);
    assert_eq!(scene.carry, Carry::Chest);
    assert_eq!(scene.shots, vec![2]);
    let (_, input) = at(5.0);
    assert!(input.punch);
    assert_eq!(input.target_speed, RUN_SPEED);
    assert_eq!(f(input.turn_rate), 0.9);
    let (scene, input) = at(6.6);
    assert!(scene.send && !scene.to_perspective);
    assert_eq!(input.target_speed, 0);
    assert_eq!(scene.shots, vec![4, 5], "late captures are all taken");
    let (scene, _) = at(7.9);
    assert!(!scene.send && scene.to_perspective);
    let (scene, _) = at(8.8);
    assert!(scene.exit && !scene.to_perspective);
    assert_eq!(scene.shots, vec![7]);
    let tags: Vec<&str> = (0..SHOT_COUNT).map(tag).collect();
    assert_eq!(
        tags,
        vec!["walk", "air", "grab", "carry", "strike", "run", "sent", "persp"]
    );
}

#[test]
fn walker_readouts_print_the_state() {
    let v = Viewer::new(1);
    let figure = Figure {
        id: Some(12),
        speed: 1.35f32.to_bits(),
        doing: Doing::Punch(text(" 50")),
        carry: Carry::Side,
        carry_blend: 1.0f32.to_bits(),
        footfalls: 9,
    };
    let printed = Printed {
        speed: text("1.35"),
        carry: text("99"),
        t: text("   1.50"),
        alpha: text("0.25"),
    };
    let out = walker_view::readout_text("walk", 42, &v, &figure, &printed, 90, 3);
    let lines: Vec<&str> = out.split('\n').map(str::trim_end).collect();
    assert_eq!(
        lines[0],
        "walker-playground  scene walk  seed 42  sel #12  ortho"
    );
    assert_eq!(
        lines[1],
        "speed 1.35 m/s  gait walk  action punch  50%  carry side 99%  [running]"
    );
    assert_eq!(
        lines[2],
        "t    1.50s  tick 90  alpha 0.25  heel strikes 9  figures 3"
    );
    assert_eq!(lines.len(), 6);
    let idle = Figure {
        id: None,
        speed: 0.1f32.to_bits(),
        doing: Doing::Gait,
        carry: Carry::Nothing,
        carry_blend: 0.005f32.to_bits(),
        ..figure
    };
    let out = walker_view::readout_text("walk", 42, &v, &idle, &printed, 90, 3);
    assert!(out.contains("sel player"));
    assert!(out.contains("gait idle  action \u{2014}  carry \u{2014}"));
    let letting_go = Figure {
        carry_blend: 0.5f32.to_bits(),
        doing: Doing::Air(text("0.28")),
        speed: 3.0f32.to_bits(),
        ..idle
    };
    let out = walker_view::readout_text("walk", 42, &v, &letting_go, &printed, 90, 3);
    assert!(out.contains("gait run  action air 0.28 m  carry set down 99%"));
}

#[test]
fn mandala_views_switch_populations() {
    let mut v = MandalaView::new(100);
    assert_eq!(v.respawn_pending(), Some(100));
    assert_eq!(v.respawn_pending(), None);
    assert!(!v.handle_input(false, &vec![Key::Digit2, Key::Space], &zoom));
    assert!(v.paused);
    assert_eq!(v.respawn_pending(), Some(1_000));
    assert!(v.handle_input(false, &vec![Key::Escape], &zoom));
    let before = v;
    assert!(!v.handle_input(true, &vec![Key::Escape], &zoom));
    assert_eq!(v, before, "a script owns the keyboard");
    let out = mandala_view::readout_text(
        "mandala-1k",
        &v,
        31,
        42,
        &mandala_view::Printed {
            t: text("1.0"),
            tick: text("60"),
            reforms_in: text("9.0"),
            speed: text("1.80"),
        },
    );
    let lines: Vec<&str> = out.split('\n').map(str::trim_end).collect();
    assert_eq!(
        lines[0],
        "mandala-view  scene mandala-1k  1000 figures  31 loops"
    );
    assert_eq!(
        lines[1],
        "t 1.0s  tick 60  [PAUSED]  painting re-forms in 9.0s"
    );
    assert_eq!(
        lines[2],
        "13000 bone segments  14000 draw entities  speed 1.80 m/s  seed 42"
    );
}

#[test]
fn mandala_captures_follow_the_schedule() {
    let b = f32::to_bits;
    let schedule = mandala_view::Schedule {
        image: b(0.6),
        dispersed: b(4.0),
        exit: b(5.0),
    };
    let mut c = mandala_view::Captured::new();
    assert_eq!(c.advance(&schedule, b(0.5)), mandala_view::Capture::Wait);
    assert_eq!(c.advance(&schedule, b(0.6)), mandala_view::Capture::Image);
    assert_eq!(c.advance(&schedule, b(4.0)), mandala_view::Capture::Dispersed);
    assert_eq!(c.advance(&schedule, b(4.5)), mandala_view::Capture::Wait);
    assert_eq!(c.advance(&schedule, b(5.0)), mandala_view::Capture::Exit);
}

#[test]
fn readouts_refresh_on_edits_and_every_sixth_frame() {
    let mut p = Pace::new();
    let due: Vec<bool> = (0..6).map(|_| p.due(0)).collect();
    assert_eq!(due, vec![false, false, false, false, false, true]);
    assert!(p.due(1), "an edit refreshes at once");
    assert!(!p.due(1));
}

#[test]
fn blocks_pad_every_line() {
    assert_eq!(block(&vec![text("a"), text("bcd")]), "a  \nbcd");
    // Lines are measured in bytes and padded in characters.
    assert_eq!(block(&vec![text("\u{2014}"), text("ab")]), "\u{2014}  \nab ");
    assert_eq!(block(&vec![]), "");
}

#[test]
fn clamping_follows_the_numbers() {
    let b = f32::to_bits;
    assert_eq!(clamp(b(-1.0), b(0.0), b(2.0)), b(0.0));
    assert_eq!(clamp(b(3.0), b(0.0), b(2.0)), b(2.0));
    assert_eq!(clamp(b(1.0), b(0.0), b(2.0)), b(1.0));
    assert!(is_held(&vec![Key::A, Key::W], Key::W));
    assert!(!is_held(&vec![Key::A], Key::W));
}

fn ran(g: Gallery, flags: &[&str]) -> Args {
    let args: Vec<String> = flags.iter().map(|s| s.to_string()).collect();
    match parse_args(g, &args) {
        Ok(Request::Run(a)) => a,
        other => panic!("{flags:?}: {other:?}"),
    }
}

fn refused(g: Gallery, flags: &[&str]) -> String {
    let args: Vec<String> = flags.iter().map(|s| s.to_string()).collect();
    match parse_args(g, &args) {
        Err(e) => e,
        other => panic!("{flags:?}: {other:?}"),
    }
}

#[test]
fn galleries_read_their_flags() {
    let a = ran(Gallery::Walker, &[]);
    assert_eq!((a.scene.as_str(), a.ticks, a.seed), ("walk", 600, DEFAULT_SEED));
    assert!(!a.json && !a.alloc_pass && !a.viewer);
    assert_eq!(ran(Gallery::Demo, &[]).scene, "bounce");
    assert_eq!(ran(Gallery::Tree, &[]).scene, "tree");
    let maps = ran(Gallery::Maps, &["--perf-headless", "--scene", "blank"]);
    assert_eq!((maps.scene.as_str(), maps.ticks), ("blank", 1));
    let a = ran(
        Gallery::Walker,
        &[
            "--perf-headless", "--json", "--perf-alloc", "--ticks", "7", "--seed", "9",
            "--dhat-out", "d", "--render", "r", "--render-frame", "f", "--viewer",
            "--viewer-shot", "s", "--scene", "mandala-1k",
        ],
    );
    assert_eq!((a.scene.as_str(), a.ticks, a.seed), ("mandala-1k", 7, 9));
    assert!(a.json && a.alloc_pass && a.viewer);
    assert_eq!(
        (a.dhat_out, a.render, a.render_frame, a.viewer_shot),
        (Some(text("d")), Some(text("r")), Some(text("f")), Some(text("s")))
    );
    assert_eq!(WARMUP_TICKS, 60);
}

#[test]
fn galleries_refuse_what_they_do_not_know() {
    assert_eq!(
        refused(Gallery::Demo, &["--render", "x"]),
        "unknown argument: --render"
    );
    assert_eq!(
        refused(Gallery::Maps, &["--render-frame", "x"]),
        "unknown argument: --render-frame"
    );
    assert_eq!(
        refused(Gallery::Maps, &["--viewer"]),
        "unknown argument: --viewer"
    );
    for flag in ["--scene", "--ticks", "--seed", "--dhat-out"] {
        assert_eq!(
            refused(Gallery::Demo, &[flag]),
            format!("{flag} needs a value")
        );
    }
    assert_eq!(
        refused(Gallery::Demo, &["--ticks", "many"]),
        "bad --ticks value: many"
    );
    assert_eq!(
        refused(Gallery::Demo, &["--seed", "-1"]),
        "bad --seed value: -1"
    );
    assert_eq!(
        refused(Gallery::Demo, &["--scene", "walk"]),
        "unknown scene: walk (try --perf-scenes)"
    );
}

#[test]
fn galleries_list_their_scenes() {
    let asks = vec![text("--perf-scenes"), text("--nonsense")];
    assert_eq!(parse_args(Gallery::Tree, &asks), Ok(Request::Scenes));
    assert_eq!(scene_listing(Gallery::Tree), "tree tree-storm tree-grove");
    assert_eq!(scene_listing(Gallery::Demo), "bounce bounce-big");
    assert_eq!(
        scene_listing(Gallery::Maps),
        "meadow archipelago badlands blank"
    );
    for g in [Gallery::Demo, Gallery::Tree, Gallery::Maps, Gallery::Walker] {
        for id in scene_listing(g).split(' ') {
            assert!(has_scene(g, id), "{g:?} {id}");
        }
        assert!(!has_scene(g, "nowhere"));
    }
    assert!(has_scene(Gallery::Walker, "carry"));
}

#[test]
fn profiles_and_routes_follow_the_flags() {
    let args = |flags: &[&str]| -> Vec<String> { flags.iter().map(|s| s.to_string()).collect() };
    assert_eq!(
        dhat_out_path(&args(&["--json", "--dhat-out", "p.json"])),
        "p.json"
    );
    assert_eq!(dhat_out_path(&args(&["--dhat-out"])), "target/perf/dhat-heap.json");
    assert_eq!(route(&ran(Gallery::Walker, &["--viewer", "--render", "x"])), Route::Viewer);
    assert_eq!(route(&ran(Gallery::Walker, &["--render-frame", "x"])), Route::Render);
    assert_eq!(route(&ran(Gallery::Walker, &[])), Route::Headless);
}

#[test]
fn demo_scenes_have_their_sizes() {
    let row = |id: &str| scene_preset(id).map(|(n, w, h)| (n, f(w), f(h)));
    assert_eq!(row("bounce"), Some((1_000, 200.0, 200.0)));
    assert_eq!(row("bounce-big"), Some((10_000, 600.0, 600.0)));
    assert_eq!(row("walk"), None);
}

#[test]
fn demo_ticks_count_the_pairs_that_meet() {
    let bits = |v: &[f32]| -> Vec<u32> { v.iter().map(|x| x.to_bits()).collect() };
    let sim = Sim {
        xs: bits(&[1.0, 1.5, 8.0]),
        ys: bits(&[1.0, 1.0, 8.0]),
        vxs: bits(&[0.0, 0.0, 0.0]),
        vys: bits(&[0.0, 0.0, 0.0]),
        width: 10.0f32.to_bits(),
        height: 10.0f32.to_bits(),
    };
    let mut demo = Demo::new(sim, SpatialGrid::new(10, 10, 3));
    let advance = |p: u32, v: u32, dt: u32| (f(p) + f(v) * f(dt)).to_bits();
    let cell = |p: u32| f(p).floor() as i64;
    let near = |e: (u32, u32, u32, u32)| {
        let (dx, dy) = (f(e.0) - f(e.2), f(e.1) - f(e.3));
        dx * dx + dy * dy <= 1.0
    };
    for tick in 1..=3 {
        demo.step_sim(0.5f32.to_bits(), advance, &cell, &near);
        assert_eq!(demo.pairs, vec![(0, 1)]);
        assert_eq!(demo.interactions, tick);
    }
}
