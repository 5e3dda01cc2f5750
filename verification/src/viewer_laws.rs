//! What the viewers promise as a whole: which key does what and to
//! nothing else, what a click and a frame's keys come to, what the scripts
//! capture and when, and how readouts are laid out.
use vstd::prelude::*;

verus! {

use crate::bits::{f32_ge_spec, f32_is_nan, f32_lt_spec};
use crate::character::{Carry, MovementInput};
use crate::eval::value;
use crate::mandala_view::{respawn_of, respawned, MandalaView};
use crate::tree_view::{driven, ring_of, ticked, Knob, Nudge, Playground};
use crate::view::{bytes, clamped, held, last_dot, refreshes, tagged, widest, Key, Pace};
use crate::walker_view::{
    applying, carried_at, clicked, during, keyed, leaves_at, picked, pressed_all, scripted_input,
    sends_at, shot_due, shot_tag, shots_at, swaps_at, toggled, Apply, Candidate, Click, Hit, Viewer,
};

// ---------------------------------------------------------------------------
// Walkers
// ---------------------------------------------------------------------------

/// How many of some keys are one of two.
pub open spec fn presses(keys: Seq<Key>, a: Key, b: Key) -> nat {
    keys.filter(|k: Key| k == a || k == b).len()
}

proof fn lemma_presses_push(keys: Seq<Key>, k: Key, a: Key, b: Key)
    ensures
        presses(keys.push(k), a, b) == presses(keys, a, b) + if k == a || k == b {
            1nat
        } else {
            0
        },
{
    reveal(Seq::filter);
    assert(keys.push(k).drop_last() =~= keys);
}

proof fn lemma_presses_none(a: Key, b: Key)
    ensures
        presses(Seq::empty(), a, b) == 0,
{
    reveal(Seq::filter);
}

/// An even number of presses leaves a toggle as it was and an odd number
/// turns it: the run with a shift key, the pause with P, the projection
/// with O. A reset and a carry, once asked for, stay asked for; and keys
/// alone never change who is selected.
pub proof fn lemma_toggles_count_presses<F: Fn((u32, bool)) -> u32>(
    v: Viewer,
    keys: Seq<Key>,
    zoom: F,
)
    ensures
        ({
            let w = pressed_all(v, keys, zoom);
            &&& w.run == (v.run != (presses(keys, Key::ShiftLeft, Key::ShiftRight) % 2 == 1))
            &&& w.paused == (v.paused != (presses(keys, Key::P, Key::P) % 2 == 1))
            &&& w.ortho == (v.ortho != (presses(keys, Key::O, Key::O) % 2 == 1))
            &&& w.reset_pending == (v.reset_pending || presses(keys, Key::R, Key::R) > 0)
            &&& w.carry_pending == (v.carry_pending || presses(keys, Key::C, Key::C) > 0)
            &&& w.selected == v.selected
            &&& w.player == v.player
            &&& w.input == v.input
            &&& w.forward == v.forward
            &&& presses(keys, Key::Minus, Key::Equal) == 0 ==> w.zoom == v.zoom
        }),
    decreases keys.len(),
{
    if keys.len() == 0 {
        assert(keys =~= Seq::empty());
        lemma_presses_none(Key::ShiftLeft, Key::ShiftRight);
        lemma_presses_none(Key::P, Key::P);
        lemma_presses_none(Key::O, Key::O);
        lemma_presses_none(Key::R, Key::R);
        lemma_presses_none(Key::C, Key::C);
    } else {
        let (front, k) = (keys.drop_last(), keys.last());
        lemma_toggles_count_presses(v, front, zoom);
        assert(front.push(k) =~= keys);
        lemma_presses_push(front, k, Key::ShiftLeft, Key::ShiftRight);
        lemma_presses_push(front, k, Key::P, Key::P);
        lemma_presses_push(front, k, Key::O, Key::O);
        lemma_presses_push(front, k, Key::R, Key::R);
        lemma_presses_push(front, k, Key::C, Key::C);
        lemma_presses_push(front, k, Key::Minus, Key::Equal);
    }
}

/// One more zooming key zooms once more: out with minus, in with the
/// equal sign, between a half and two and a half.
pub proof fn lemma_walker_zoom_keys_zoom<F: Fn((u32, bool)) -> u32>(
    v: Viewer,
    keys: Seq<Key>,
    zoom: F,
)
    ensures
        pressed_all(v, keys.push(Key::Minus), zoom).zoom == clamped(
            value(zoom, (pressed_all(v, keys, zoom).zoom, true)),
            0x3F00_0000,
            0x4020_0000,
        ),
        pressed_all(v, keys.push(Key::Equal), zoom).zoom == clamped(
            value(zoom, (pressed_all(v, keys, zoom).zoom, false)),
            0x3F00_0000,
            0x4020_0000,
        ),
{
    assert(keys.push(Key::Minus).drop_last() =~= keys);
    assert(keys.push(Key::Equal).drop_last() =~= keys);
}

/// The held keys steer: any walking key walks, at a run once that is on;
/// turning keys of the two sides cancel and of one side add up; and the
/// three action keys act while they are held.
pub proof fn lemma_held_keys_steer<F: Fn((u32, bool)) -> u32>(
    v: Viewer,
    down: Seq<Key>,
    new: Seq<Key>,
    zoom: F,
)
    ensures
        ({
            let w = keyed(v, down, new, zoom);
            let right = if down.contains(Key::D) {
                1int
            } else {
                0
            } + if down.contains(Key::ArrowRight) {
                1int
            } else {
                0
            };
            let left = if down.contains(Key::A) {
                1int
            } else {
                0
            } + if down.contains(Key::ArrowLeft) {
                1int
            } else {
                0
            };
            let walking = down.contains(Key::W) || down.contains(Key::ArrowUp) || down.contains(
                Key::S,
            ) || down.contains(Key::ArrowDown);
            &&& w.forward == walking
            &&& !walking ==> w.input.target_speed == 0
            &&& walking && w.run ==> w.input.target_speed == 0x4066_6666
            &&& walking && !w.run ==> w.input.target_speed == 0x3FAC_CCCD
            &&& right == left ==> w.input.turn_rate == 0
            &&& right - left == 1 ==> w.input.turn_rate == 0x400C_CCCD
            &&& right - left == 2 ==> w.input.turn_rate == 0x408C_CCCD
            &&& left - right == 1 ==> w.input.turn_rate == 0x8000_0000 + 0x400C_CCCD
            &&& left - right == 2 ==> w.input.turn_rate == 0x8000_0000 + 0x408C_CCCD
            &&& w.input.jump == down.contains(Key::Space)
            &&& w.input.punch == down.contains(Key::F)
            &&& w.input.reach == down.contains(Key::E)
            &&& w.run == (v.run != (presses(new, Key::ShiftLeft, Key::ShiftRight) % 2 == 1))
            &&& w.selected == v.selected
            &&& w.player == v.player
        }),
{
    lemma_toggles_count_presses(
        Viewer { forward: crate::walker_view::walks(down), ..v },
        new,
        zoom,
    );
    assert forall|k: Key| #[trigger] held(down, k) == down.contains(k) by {
        if down.contains(k) {
            let i = choose|i: int| 0 <= i < down.len() && down[i] == k;
            assert(down[i] == k);
        }
    }
    assert(held(down, Key::D) == down.contains(Key::D));
    assert(held(down, Key::ArrowRight) == down.contains(Key::ArrowRight));
    assert(held(down, Key::A) == down.contains(Key::A));
    assert(held(down, Key::ArrowLeft) == down.contains(Key::ArrowLeft));
    assert(held(down, Key::W) == down.contains(Key::W));
    assert(held(down, Key::ArrowUp) == down.contains(Key::ArrowUp));
    assert(held(down, Key::S) == down.contains(Key::S));
    assert(held(down, Key::ArrowDown) == down.contains(Key::ArrowDown));
    assert(held(down, Key::Space) == down.contains(Key::Space));
    assert(held(down, Key::F) == down.contains(Key::F));
    assert(held(down, Key::E) == down.contains(Key::E));
}

/// A click on another figure takes control of it, one on the selected
/// figure gives control back to the player, one on the ground sends the
/// selected figure, and one on nothing does nothing. A click changes no
/// more than who is selected, and counts as an edit unless it hit nothing.
pub proof fn lemma_clicks_move_control(v: Viewer, hit: Hit)
    requires
        v.edit_count < u32::MAX,
    ensures
        ({
            let (w, click) = clicked(v, hit);
            &&& hit matches Hit::Figure(f) ==> {
                &&& f != v.selected ==> w.selected == f && click == Click::Select(f)
                &&& f == v.selected ==> w.selected == v.player && click == Click::Return(v.player)
            }
            &&& hit is Ground ==> w.selected == v.selected && click == Click::Send(v.selected)
            &&& hit is Nothing ==> w == v && click is Ignore
            &&& hit !is Nothing ==> w.edit_count == v.edit_count + 1
            &&& w == (Viewer { selected: w.selected, edit_count: w.edit_count, ..v })
        }),
{
}

/// A pending reset sends the player home and nothing else; otherwise the
/// selected figure gets the intent and the pending carry, and any intent
/// at all cancels a send. Either way what was pending is done.
pub proof fn lemma_resets_come_before_the_intent(v: Viewer)
    ensures
        v.reset_pending ==> applying(v).1 == Apply::Home(v.player) && applying(v).0 == (Viewer {
            reset_pending: false,
            selected: v.player,
            ..v
        }),
        !v.reset_pending ==> (applying(v).1 matches Apply::Drive {
            walker,
            input,
            toggle_carry,
            cancel_send,
        } && {
            &&& walker == v.selected
            &&& input == v.input
            &&& toggle_carry == v.carry_pending
            &&& cancel_send == (v.input != MovementInput {
                target_speed: 0,
                turn_rate: 0,
                jump: false,
                punch: false,
                reach: false,
            })
        }) && applying(v).0 == (Viewer { carry_pending: false, ..v }),
{
}

/// The carry toggle puts down what is at the chest and otherwise takes to
/// the chest.
pub proof fn lemma_the_carry_toggle_alternates(c: Carry)
    ensures
        (toggled(c) is Chest) != (c is Chest),
        toggled(c) is Chest || toggled(c) is Nothing,
        c is Chest || c is Nothing ==> toggled(toggled(c)) == c,
{
}

/// The script walks, runs from its start of running, and stands once the
/// send is made; it acts in its windows alone, and turns only while it
/// punches.
pub proof fn lemma_the_script_acts_in_its_windows(before: MovementInput, t: u32)
    ensures
        ({
            let r = scripted_input(before, t);
            &&& f32_lt_spec(t, 0x3E99_999A) ==> r.target_speed == before.target_speed
            &&& during(t, 0x3E99_999A, 0x4090_0000) ==> r.target_speed == 0x3FAC_CCCD
            &&& during(t, 0x4090_0000, 0x40D3_3333) ==> r.target_speed == 0x4066_6666
            &&& f32_ge_spec(t, 0x40D3_3333) ==> r.target_speed == 0
            &&& r.jump == during(t, 0x4000_0000, 0x400C_CCCD)
            &&& r.reach == during(t, 0x4033_3333, 0x406C_CCCD)
            &&& r.punch == during(t, 0x40A0_0000, 0x40B9_999A)
            &&& r.turn_rate == if r.punch {
                0x3F66_6666u32
            } else {
                0u32
            }
        }),
{
}

/// The captures come one after the other, and each shows what its name
/// says: the walk before the jump, the air after it, the grab while
/// reaching, the carry while carrying, the strike while punching, the run
/// while running, the sent figure once it is sent, and the perspective
/// once the camera is swapped, before the end.
pub proof fn lemma_captures_show_what_they_say()
    ensures
        forall|j: int, k: int|
            0 <= j < k < 8 ==> f32_lt_spec(#[trigger] shot_due(j), #[trigger] shot_due(k)),
        shot_tag(0) == "walk"@ && during(shot_due(0), 0x3E99_999A, 0x4000_0000),
        shot_tag(1) == "air"@ && during(shot_due(1), 0x4000_0000, 0x4033_3333),
        shot_tag(2) == "grab"@ && during(shot_due(2), 0x4033_3333, 0x406C_CCCD),
        shot_tag(3) == "carry"@ && during(shot_due(3), 0x4079_999A, 0x408C_CCCD),
        shot_tag(4) == "strike"@ && during(shot_due(4), 0x40A0_0000, 0x40B9_999A),
        shot_tag(5) == "run"@ && during(shot_due(5), 0x40B9_999A, 0x40D3_3333),
        shot_tag(6) == "sent"@ && during(shot_due(6), 0x40D3_3333, 0x40FC_CCCD),
        shot_tag(7) == "persp"@ && during(shot_due(7), 0x40FC_CCCD, 0x410C_CCCD),
{
}

/// At a time exactly those captures are taken that are due and were not
/// taken before, in order.
pub proof fn lemma_due_captures_are_taken_once(fired: Seq<bool>, t: u32, n: int, k: int)
    requires
        0 <= n,
    ensures
        shots_at(fired, t, n).contains(k) <==> 0 <= k < n && !fired[k] && f32_ge_spec(
            t,
            shot_due(k),
        ),
        forall|a: int, b: int|
            0 <= a < b < shots_at(fired, t, n).len() ==> #[trigger] shots_at(fired, t, n)[a]
                < #[trigger] shots_at(fired, t, n)[b],
        forall|a: int|
            0 <= a < shots_at(fired, t, n).len() ==> 0 <= #[trigger] shots_at(fired, t, n)[a] < n,
    decreases n,
{
    if n > 0 {
        lemma_due_captures_are_taken_once(fired, t, n - 1, k);
        let front = shots_at(fired, t, n - 1);
        let all = shots_at(fired, t, n);
        if crate::walker_view::fires(fired, n - 1, t) {
            assert(all == front.push(n - 1));
            assert(all[front.len() as int] == n - 1);
            if front.contains(k) {
                let i = choose|i: int| 0 <= i < front.len() && front[i] == k;
                assert(all[i] == k);
            }
            if all.contains(k) && k != n - 1 {
                let i = choose|i: int| 0 <= i < all.len() && all[i] == k;
                assert(front[i] == k);
            }
        }
    }
}

/// A ray picks a figure only where it passes closer than the figure's
/// radius, and of those at one distance the earliest.
pub proof fn lemma_the_earliest_of_the_nearest_is_picked(cs: Seq<Candidate>, n: int, i: int)
    requires
        0 <= i < n <= cs.len(),
        forall|j: int| 0 <= j < cs.len() ==> !f32_is_nan((#[trigger] cs[j]).along),
        f32_lt_spec(cs[i].miss, cs[i].radius),
    ensures
        picked(cs, n) matches Some(b) && 0 <= b < n && f32_lt_spec(cs[b].miss, cs[b].radius)
            && f32_ge_spec(cs[i].along, cs[b].along) && (i < b ==> f32_lt_spec(
            cs[b].along,
            cs[i].along,
        )),
    decreases n,
{
    assert(!f32_is_nan(cs[i].along));
    assert(!f32_is_nan(cs[n - 1].along));
    crate::walker_view::lemma_nearest_struck_figure_wins(cs, n - 1);
    if i < n - 1 {
        lemma_the_earliest_of_the_nearest_is_picked(cs, n - 1, i);
    } else {
        match picked(cs, n - 1) {
            Some(b) => {
                assert(!f32_is_nan(cs[b].along));
            },
            None => {},
        }
    }
}

// ---------------------------------------------------------------------------
// Trees
// ---------------------------------------------------------------------------

/// Each knob has a key up and a key down, moves by one step of its own
/// within its own limits, and no other knob moves with it.
pub proof fn lemma_tree_keys_turn_their_knobs<F: Fn(Nudge) -> u32>(
    p: Playground,
    keys: Seq<Key>,
    k: Key,
    eval: F,
)
    requires
        p.edit_count + keys.len() < u32::MAX,
    ensures
        ({
            let q = driven(p, keys, eval).0;
            let r = driven(p, keys.push(k), eval).0;
            let turn = |knob: Knob, v: u32, steps: i8| value(
                eval,
                Nudge::Turn { knob, value: v, steps },
            );
            let (up, down) = (1i8, (-1) as i8);
            &&& r.spread == if k == Key::ArrowRight {
                clamped(turn(Knob::Spread, q.spread, up), 0x3E32_B8C7, 0x3FC9_0FDB)
            } else if k == Key::ArrowLeft {
                clamped(turn(Knob::Spread, q.spread, down), 0x3E32_B8C7, 0x3FC9_0FDB)
            } else {
                q.spread
            }
            &&& r.angle_jitter == if k == Key::ArrowUp {
                clamped(turn(Knob::Jitter, q.angle_jitter, up), 0, 0x3F19_999A)
            } else if k == Key::ArrowDown {
                clamped(turn(Knob::Jitter, q.angle_jitter, down), 0, 0x3F19_999A)
            } else {
                q.angle_jitter
            }
            &&& r.amp_rad == if k == Key::D {
                clamped(turn(Knob::WindAmp, q.amp_rad, up), 0, 0x3F99_999A)
            } else if k == Key::A {
                clamped(turn(Knob::WindAmp, q.amp_rad, down), 0, 0x3F99_999A)
            } else {
                q.amp_rad
            }
            &&& r.freq_scale == if k == Key::W {
                clamped(turn(Knob::WindFreq, q.freq_scale, up), 0x3DCC_CCCD, 0x40C0_0000)
            } else if k == Key::S {
                clamped(turn(Knob::WindFreq, q.freq_scale, down), 0x3DCC_CCCD, 0x40C0_0000)
            } else {
                q.freq_scale
            }
            &&& r.canopy_scale == if k == Key::E {
                clamped(turn(Knob::Canopy, q.canopy_scale, up), 0x3E4C_CCCD, 0x4040_0000)
            } else if k == Key::Q {
                clamped(turn(Knob::Canopy, q.canopy_scale, down), 0x3E4C_CCCD, 0x4040_0000)
            } else {
                q.canopy_scale
            }
            &&& r.zoom == if k == Key::Minus || k == Key::Equal {
                clamped(
                    value(eval, Nudge::Zoom { value: q.zoom, out: k == Key::Minus }),
                    0x3E99_999A,
                    0x4080_0000,
                )
            } else {
                q.zoom
            }
        }),
{
    assert(keys.push(k).drop_last() =~= keys);
}

/// A reroll takes another seed and starts over, a replay starts over, and
/// the space bar pauses and resumes; no other key touches the clock, the
/// seed or the pause.
pub proof fn lemma_tree_keys_start_over<F: Fn(Nudge) -> u32>(
    p: Playground,
    keys: Seq<Key>,
    k: Key,
    eval: F,
)
    ensures
        ({
            let q = driven(p, keys, eval).0;
            let r = driven(p, keys.push(k), eval).0;
            &&& r.paused == (q.paused != (k == Key::Space))
            &&& k == Key::R || k == Key::G ==> r.sim_t == 0 && r.ticks == 0
            &&& k != Key::R && k != Key::G ==> r.sim_t == q.sim_t && r.ticks == q.ticks
            &&& k != Key::R ==> r.seed == q.seed
            &&& k == Key::R ==> r.seed == (q.seed * 0x9E37_79B9_7F4A_7C15
                + 0xD1B5_4A32_D192_ED03) % 0x1_0000_0000_0000_0000
        }),
{
    assert(keys.push(k).drop_last() =~= keys);
}

/// Keys that change the tree's shape have it grown anew, those that start
/// over or pause have it shown at once, escape quits, and the rest show
/// as time goes on. A key that asks for nothing obliges to nothing.
pub proof fn lemma_tree_keys_oblige<F: Fn(Nudge) -> u32>(
    p: Playground,
    keys: Seq<Key>,
    k: Key,
    eval: F,
)
    ensures
        ({
            let before = driven(p, keys, eval).1;
            let done = driven(p, keys.push(k), eval).1;
            let shape = k == Key::ArrowLeft || k == Key::ArrowRight || k == Key::ArrowUp || k
                == Key::ArrowDown || k == Key::R;
            let live = k == Key::A || k == Key::D || k == Key::W || k == Key::S || k == Key::Q || k
                == Key::E || k == Key::Minus || k == Key::Equal;
            let snap = k == Key::G || k == Key::Space;
            &&& done.len() == before.len() + if shape || live || snap || k == Key::Escape {
                1int
            } else {
                0
            }
            &&& done.take(before.len() as int) == before
            &&& shape ==> done.last().1 is Regen
            &&& live ==> done.last().1 is Live
            &&& snap ==> done.last().1 is Snap
            &&& k == Key::Escape ==> done.last().1 is Quit
        }),
{
    assert(keys.push(k).drop_last() =~= keys);
    let before = driven(p, keys, eval).1;
    assert(driven(p, keys.push(k), eval).1.take(before.len() as int) =~= before);
}

/// Every key that a walker's viewer answers counts as one edit, whatever
/// it does; the others count for nothing.
pub proof fn lemma_walker_keys_are_counted<F: Fn((u32, bool)) -> u32>(
    v: Viewer,
    keys: Seq<Key>,
    k: Key,
    zoom: F,
)
    requires
        v.edit_count + keys.len() < u32::MAX,
    ensures
        ({
            let before = pressed_all(v, keys, zoom).edit_count;
            let after = pressed_all(v, keys.push(k), zoom).edit_count;
            let idle = k == Key::G || k == Key::Q || k == Key::Digit1 || k == Key::Digit2 || k
                == Key::Digit3 || k == Key::Numpad1 || k == Key::Numpad2 || k == Key::Numpad3 || k
                == Key::Other;
            &&& before <= v.edit_count + keys.len()
            &&& idle ==> after == before
            &&& !idle ==> after == before + 1
        }),
    decreases keys.len(),
{
    if keys.len() > 0 {
        lemma_walker_keys_are_counted(v, keys.drop_last(), keys.last(), zoom);
        assert(keys.drop_last().push(keys.last()) =~= keys);
    }
    assert(keys.push(k).drop_last() =~= keys);
}

/// A tick moves the clock and counts itself, and nothing else; a paused
/// tree stands still.
pub proof fn lemma_trees_tick_unless_paused<F: Fn(Nudge) -> u32>(p: Playground, eval: F)
    requires
        p.ticks < u64::MAX,
    ensures
        p.paused ==> ticked(p, eval) == p,
        !p.paused ==> ticked(p, eval).ticks == p.ticks + 1,
        !p.paused ==> ticked(p, eval).sim_t == value(eval, Nudge::Tick { t: p.sim_t }),
        (Playground { sim_t: p.sim_t, ticks: p.ticks, ..ticked(p, eval) }) == p,
{
}

/// A world is rebuilt once for the population asked for, and then stands:
/// nothing is rebuilt until another is asked for.
pub proof fn lemma_worlds_are_rebuilt_once(v: MandalaView)
    ensures
        v.pending_count != v.count ==> respawn_of(v) == Some(v.pending_count),
        respawn_of(respawned(v)) is None,
        respawned(v).count == v.pending_count,
        (MandalaView { count: v.count, ..respawned(v) }) == v,
{
}

/// The walker's script sends the figure to its goal at 6.6 seconds, goes
/// over to the perspective view at 7.9 and leaves at 8.8; from 3.9 to 4.4
/// seconds the figure carries a load at its chest, and else nothing.
pub proof fn lemma_walker_scripts_keep_their_times(t: u32)
    ensures
        sends_at(t) <==> f32_ge_spec(t, 0x40D3_3333),
        swaps_at(t) <==> f32_ge_spec(t, 0x40FC_CCCD),
        leaves_at(t) <==> f32_ge_spec(t, 0x410C_CCCD),
        carried_at(t) == Carry::Chest <==> f32_ge_spec(t, 0x4079_999A) && f32_lt_spec(
            t,
            0x408C_CCCD,
        ),
        carried_at(t) != Carry::Chest ==> carried_at(t) == Carry::Nothing,
{
}

/// A playground counts its edits: one for each thing that keys did.
pub proof fn lemma_tree_edits_are_counted<F: Fn(Nudge) -> u32>(
    p: Playground,
    keys: Seq<Key>,
    eval: F,
)
    requires
        p.edit_count + keys.len() <= u32::MAX,
    ensures
        driven(p, keys, eval).1.len() <= keys.len(),
        driven(p, keys, eval).0.edit_count == p.edit_count + driven(p, keys, eval).1.len(),
    decreases keys.len(),
{
    if keys.len() > 0 {
        lemma_tree_edits_are_counted(p, keys.drop_last(), eval);
    }
}

/// The rings around some anchors span exactly from the least edge to the
/// greatest: every ring lies within the bounds, and each bound is one of
/// their edges.
pub proof fn lemma_rings_span_their_anchors(anchors: Seq<(i32, i32)>, radius: int, n: int, k: int)
    requires
        0 <= radius,
        0 <= k < n <= anchors.len(),
        forall|j: int|
            #![trigger anchors[j]]
            0 <= j < n ==> i32::MIN <= anchors[j].0 - radius && anchors[j].0 + 1 + radius
                <= i32::MAX && i32::MIN <= anchors[j].1 - radius && anchors[j].1 + 1 + radius
                <= i32::MAX,
    ensures
        ring_of(anchors, radius, n).0 <= anchors[k].0 - radius,
        anchors[k].0 + 1 + radius <= ring_of(anchors, radius, n).1,
        ring_of(anchors, radius, n).2 <= anchors[k].1 - radius,
        anchors[k].1 + 1 + radius <= ring_of(anchors, radius, n).3,
        exists|j: int|
            0 <= j < n && (#[trigger] anchors[j]).0 - radius == ring_of(anchors, radius, n).0,
        exists|j: int|
            0 <= j < n && (#[trigger] anchors[j]).0 + 1 + radius == ring_of(anchors, radius, n).1,
        exists|j: int|
            0 <= j < n && (#[trigger] anchors[j]).1 - radius == ring_of(anchors, radius, n).2,
        exists|j: int|
            0 <= j < n && (#[trigger] anchors[j]).1 + 1 + radius == ring_of(anchors, radius, n).3,
    decreases n,
{
    let last = anchors[n - 1];
    if n > 1 {
        let at = if k < n - 1 {
            k
        } else {
            0
        };
        lemma_rings_span_their_anchors(anchors, radius, n - 1, at);
    } else {
        assert(ring_of(anchors, radius, 0) == (
            i32::MAX as int,
            i32::MIN as int,
            i32::MAX as int,
            i32::MIN as int,
        ));
        assert(anchors[0] == last);
    }
}

/// The tree script captures the growing tree at one and a half seconds,
/// the grown one at eight, each once and in that order, and leaves at ten.
pub proof fn lemma_the_tree_script_captures_twice(c: crate::tree_view::Captured, t: u32)
    ensures
        ({
            let next = crate::tree_view::capture_at(c, t);
            let growing = !c.growing && f32_ge_spec(t, 0x3FC0_0000);
            let grown = !c.grown && f32_ge_spec(t, 0x4100_0000);
            &&& next is Growing <==> growing
            &&& next is Grown <==> !growing && grown
            &&& next is Exit <==> !growing && !grown && f32_ge_spec(t, 0x4120_0000)
            &&& next is Wait <==> !growing && !grown && !f32_ge_spec(t, 0x4120_0000)
        }),
{
}

// ---------------------------------------------------------------------------
// Mandalas
// ---------------------------------------------------------------------------

/// The painting shows the foremost shape at a point, in the order of the
/// two circles, the two squares and the ring, each in its own color, and
/// the field where there is none.
pub proof fn lemma_the_foremost_shape_is_painted(s: crate::mandala_view::Shapes)
    ensures
        ({
            let c = crate::mandala_view::painted(s);
            &&& c == 1 <==> s.blue_circle
            &&& c == 2 <==> s.red_circle && !s.blue_circle
            &&& c == 3 <==> s.purple_square && !s.blue_circle && !s.red_circle
            &&& c == 4 <==> s.orange_square && !s.blue_circle && !s.red_circle && !s.purple_square
            &&& c == 5 <==> s.green_ring && !s.blue_circle && !s.red_circle && !s.purple_square
                && !s.orange_square
            &&& c == 0 <==> !s.green_ring && !s.blue_circle && !s.red_circle && !s.purple_square
                && !s.orange_square
        }),
{
}

/// A number key, of either kind, asks for its power of ten of figures;
/// the space bar pauses and resumes; minus zooms out and the equal sign
/// in; and no key changes more than that and the edit count, which every
/// key that asks for something raises by one.
pub proof fn lemma_mandala_keys_do_one_thing<F: Fn((u32, bool)) -> u32>(
    v: MandalaView,
    keys: Seq<Key>,
    k: Key,
    zoom: F,
)
    requires
        crate::mandala_view::pressed_all(v, keys, zoom).edit_count < u32::MAX,
    ensures
        ({
            let q = crate::mandala_view::pressed_all(v, keys, zoom);
            let r = crate::mandala_view::pressed_all(v, keys.push(k), zoom);
            let (one, two, three) = (
                k == Key::Digit1 || k == Key::Numpad1,
                k == Key::Digit2 || k == Key::Numpad2,
                k == Key::Digit3 || k == Key::Numpad3,
            );
            let zooms = k == Key::Minus || k == Key::Equal;
            &&& r.count == q.count
            &&& r.pending_count == if one {
                100
            } else if two {
                1000
            } else if three {
                10000
            } else {
                q.pending_count
            }
            &&& r.paused == (q.paused != (k == Key::Space))
            &&& !zooms ==> r.zoom == q.zoom
            &&& zooms ==> r.zoom == clamped(
                value(zoom, (q.zoom, k == Key::Minus)),
                0x3EB3_3333,
                0x4040_0000,
            )
            &&& r.edit_count == q.edit_count + if one || two || three || zooms || k == Key::Space
                || k == Key::Escape {
                1int
            } else {
                0
            }
        }),
{
    assert(keys.push(k).drop_last() =~= keys);
}

/// The mandala script captures the painting, then the dispersed field,
/// each once and when it is due, and then leaves.
pub proof fn lemma_the_mandala_script_captures_twice(
    c: crate::mandala_view::Captured,
    s: crate::mandala_view::Schedule,
    t: u32,
)
    ensures
        ({
            let next = crate::mandala_view::capture_at(c, s, t);
            let image = !c.image && f32_ge_spec(t, s.image);
            let dispersed = !c.dispersed && f32_ge_spec(t, s.dispersed);
            &&& next is Image <==> image
            &&& next is Dispersed <==> !image && dispersed
            &&& next is Exit <==> !image && !dispersed && f32_ge_spec(t, s.exit)
            &&& next is Wait <==> !image && !dispersed && !f32_ge_spec(t, s.exit)
        }),
{
}

// ---------------------------------------------------------------------------
// Readouts
// ---------------------------------------------------------------------------

/// A readout is refreshed by any edit, and without one on every sixth
/// frame alone.
pub proof fn lemma_readouts_refresh_every_sixth_frame(p: Pace, edits: u32)
    requires
        p.frame < u32::MAX,
    ensures
        edits != p.last_edit ==> refreshes(p, edits),
        edits == p.last_edit ==> (refreshes(p, edits) <==> (p.frame + 1) % 6 == 0),
{
}

/// A block is as wide as its widest line, in bytes.
pub proof fn lemma_blocks_are_as_wide_as_a_line(lines: Seq<Seq<char>>)
    requires
        lines.len() > 0,
    ensures
        exists|i: int| 0 <= i < lines.len() && bytes(#[trigger] lines[i]) == widest(lines),
        forall|i: int| 0 <= i < lines.len() ==> bytes(#[trigger] lines[i]) <= widest(lines),
    decreases lines.len(),
{
    let last = lines.len() - 1;
    let front = lines.drop_last();
    assert(lines[last] == lines.last());
    if last > 0 {
        lemma_blocks_are_as_wide_as_a_line(front);
        let i = choose|i: int| 0 <= i < front.len() && bytes(#[trigger] front[i]) == widest(front);
        assert(lines[i] == front[i]);
        assert forall|i: int| 0 <= i < lines.len() implies bytes(#[trigger] lines[i]) <= widest(
            lines,
        ) by {
            if i < last {
                assert(front[i] == lines[i]);
            }
        }
    } else {
        assert(widest(front) == 0);
    }
}

/// A character takes from one byte to four, by where it lies, and a text
/// the bytes of its characters.
pub proof fn lemma_characters_take_their_bytes(s: Seq<char>, c: char)
    ensures
        bytes(Seq::empty()) == 0,
        bytes(s.push(c)) - bytes(s) == if (c as int) < 0x80 {
            1int
        } else if (c as int) < 0x800 {
            2
        } else if (c as int) < 0x1_0000 {
            3
        } else {
            4
        },
{
    assert(s.push(c).drop_last() =~= s);
}

/// Plain text takes a byte a character.
pub proof fn lemma_plain_text_takes_a_byte_each(s: Seq<char>)
    requires
        forall|i: int| 0 <= i < s.len() ==> (#[trigger] s[i] as u32) < 0x80,
    ensures
        bytes(s) == s.len(),
    decreases s.len(),
{
    if s.len() > 0 {
        assert((s[s.len() - 1] as u32) < 0x80);
        lemma_plain_text_takes_a_byte_each(s.drop_last());
    }
}

proof fn lemma_last_dot(stem: Seq<char>, ext: Seq<char>)
    requires
        !ext.contains('.'),
    ensures
        last_dot(stem + seq!['.'] + ext) == stem.len(),
    decreases ext.len(),
{
    let path = stem + seq!['.'] + ext;
    if ext.len() == 0 {
        assert(path.last() == '.');
    } else {
        assert(ext.contains(ext.last()));
        assert(path.last() == ext.last());
        let front = ext.drop_last();
        assert(path.drop_last() =~= stem + seq!['.'] + front);
        if front.contains('.') {
            let i = choose|i: int| 0 <= i < front.len() && front[i] == '.';
            assert(ext[i] == '.');
        }
        lemma_last_dot(stem, front);
    }
}

proof fn lemma_no_dot(path: Seq<char>)
    requires
        !path.contains('.'),
    ensures
        last_dot(path) == -1,
    decreases path.len(),
{
    if path.len() > 0 {
        assert(path.contains(path.last()));
        let front = path.drop_last();
        if front.contains('.') {
            let i = choose|i: int| 0 <= i < front.len() && front[i] == '.';
            assert(path[i] == '.');
        }
        lemma_no_dot(front);
    }
}

/// A tag goes before the extension, or at the end where there is none.
pub proof fn lemma_tags_go_before_the_extension(stem: Seq<char>, ext: Seq<char>, tag: Seq<char>)
    requires
        !ext.contains('.'),
    ensures
        tagged(stem + seq!['.'] + ext, tag) == stem + "-"@ + tag + seq!['.'] + ext,
        tagged(ext, tag) == ext + "-"@ + tag,
{
    let path = stem + seq!['.'] + ext;
    lemma_last_dot(stem, ext);
    assert(path.take(stem.len() as int) =~= stem);
    assert(path.skip(stem.len() as int) =~= seq!['.'] + ext);
    assert(stem + "-"@ + tag + (seq!['.'] + ext) =~= stem + "-"@ + tag + seq!['.'] + ext);
    lemma_no_dot(ext);
}

} // verus!
