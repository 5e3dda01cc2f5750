//! What holds of figures, crowds and routes beyond a single step: the rig
//! is mirrored left to right, gaits mix field by field, digests move with
//! any one number, crowds are as large as their names, and a search takes
//! the most promising position first.
use vstd::prelude::*;

verus! {

use crate::bits::f32_lt_spec;
use crate::character::{
    bones_digest, name_of, rig, stepped, Bone, Character, CharacterPose, Motion, MovementInput,
    Placement, Vec3,
};
use crate::digest::{
    fnv1a_spec, fold_words, gathered, quads_digest, step_spec, two64, word_sum, Quad, FNV_OFFSET,
    FNV_PRIME,
};
use crate::eval::value;
use crate::gait::{mixed, running, smooth, walking, Blend, GaitParams};
use crate::heap::pair_le;
use crate::map::MapModel;
use crate::mandala::{share, source_of, tier_of, Source};
use crate::movement::{shows_stance, shows_walk, walked, Hang, Movement};
use crate::route::{frontier, is_next, neighbor, relax, route_cost, Search};
use crate::tree::{Tree, TreePose};
use crate::walkers::{footfall_sum, mixed_sum};

// ---------------------------------------------------------------------------
// Figures
// ---------------------------------------------------------------------------

/// The sign of a number turned.
pub open spec fn turned(v: u32) -> int {
    (v + 0x8000_0000) % 0x1_0000_0000
}

/// The right limbs of the rig mirror the left: the same bones, as wide,
/// hung on the other side. The arms hang on the torso and the legs on the
/// hips, and everything else stands in the middle.
pub proof fn lemma_the_rig_is_mirrored()
    ensures
        ({
            let r = rig();
            &&& r.len() == 13
            &&& r[0].parent is None
            &&& r[1].parent == Some(0usize)
            &&& r[2].parent == Some(1usize)
            &&& r[3].parent == Some(1usize) && r[5].parent == Some(1usize)
            &&& r[4].parent == Some(3usize) && r[6].parent == Some(5usize)
            &&& r[7].parent == Some(0usize) && r[10].parent == Some(0usize)
            &&& r[8].parent == Some(7usize) && r[11].parent == Some(10usize)
            &&& r[9].parent == Some(8usize) && r[12].parent == Some(11usize)
            &&& r[5].from.x == turned(r[3].from.x) && r[10].from.x == turned(r[7].from.x)
            &&& r[3].from.x != 0 && r[7].from.x != 0
        }),
        forall|k: int|
            #![trigger rig()[k]]
            0 <= k < 13 && k != 3 && k != 5 && k != 7 && k != 10 ==> rig()[k].from.x == 0,
        forall|k: int| #![trigger rig()[k]] 0 <= k < 13 ==> rig()[k].dir.x == 0,
        forall|k: int|
            #![trigger rig()[k]]
            k == 3 || k == 4 ==> rig()[k].dir == rig()[k + 2].dir && rig()[k].width == rig()[k
                + 2].width && rig()[k].from.y == rig()[k + 2].from.y,
        forall|k: int|
            #![trigger rig()[k]]
            7 <= k <= 9 ==> rig()[k].dir == rig()[k + 3].dir && rig()[k].width == rig()[k
                + 3].width && rig()[k].from.y == rig()[k + 3].from.y,
{
}

/// Every bone has a name of its own, and those of the two sides differ in
/// their last letter alone.
pub proof fn lemma_bones_are_named_by_side()
    ensures
        name_of(0) == "hips"@,
        name_of(1) == "torso"@,
        name_of(2) == "head"@,
        name_of(3) == "upper-arm-"@ + "l"@,
        name_of(4) == "lower-arm-"@ + "l"@,
        name_of(5) == "upper-arm-"@ + "r"@,
        name_of(6) == "lower-arm-"@ + "r"@,
        name_of(7) == "upper-leg-"@ + "l"@,
        name_of(8) == "lower-leg-"@ + "l"@,
        name_of(9) == "foot-"@ + "l"@,
        name_of(10) == "upper-leg-"@ + "r"@,
        name_of(11) == "lower-leg-"@ + "r"@,
        name_of(12) == "foot-"@ + "r"@,
{
    reveal_strlit("upper-arm-");
    reveal_strlit("lower-arm-");
    reveal_strlit("upper-leg-");
    reveal_strlit("lower-leg-");
    reveal_strlit("foot-");
    reveal_strlit("l");
    reveal_strlit("r");
    reveal_strlit("upper-arm-l");
    reveal_strlit("lower-arm-l");
    reveal_strlit("upper-arm-r");
    reveal_strlit("lower-arm-r");
    reveal_strlit("upper-leg-l");
    reveal_strlit("lower-leg-l");
    reveal_strlit("foot-l");
    reveal_strlit("upper-leg-r");
    reveal_strlit("lower-leg-r");
    reveal_strlit("foot-r");
    assert(name_of(3) =~= "upper-arm-"@ + "l"@);
    assert(name_of(4) =~= "lower-arm-"@ + "l"@);
    assert(name_of(5) =~= "upper-arm-"@ + "r"@);
    assert(name_of(6) =~= "lower-arm-"@ + "r"@);
    assert(name_of(7) =~= "upper-leg-"@ + "l"@);
    assert(name_of(8) =~= "lower-leg-"@ + "l"@);
    assert(name_of(9) =~= "foot-"@ + "l"@);
    assert(name_of(10) =~= "upper-leg-"@ + "r"@);
    assert(name_of(11) =~= "lower-leg-"@ + "r"@);
    assert(name_of(12) =~= "foot-"@ + "r"@);
}

/// A mix of two gaits mixes every field with the same field, by the same
/// fraction.
pub proof fn lemma_gaits_mix_field_by_field<F: Fn(Blend) -> u32>(
    a: GaitParams,
    b: GaitParams,
    t: u32,
    eval: F,
)
    ensures
        ({
            let m = mixed(a, b, t, eval);
            let mix = |x: u32, y: u32| value(eval, Blend::Mix { a: x, b: y, t });
            &&& m.stride_len == mix(a.stride_len, b.stride_len)
            &&& m.thigh == mix(a.thigh, b.thigh)
            &&& m.knee == mix(a.knee, b.knee)
            &&& m.stance_knee == mix(a.stance_knee, b.stance_knee)
            &&& m.foot == mix(a.foot, b.foot)
            &&& m.arm == mix(a.arm, b.arm)
            &&& m.elbow == mix(a.elbow, b.elbow)
            &&& m.bob == mix(a.bob, b.bob)
            &&& m.lat == mix(a.lat, b.lat)
            &&& m.lean == mix(a.lean, b.lean)
            &&& m.hip_sway == mix(a.hip_sway, b.hip_sway)
            &&& m.torso_sway == mix(a.torso_sway, b.torso_sway)
        }),
{
}

/// A run strides longer than a walk, lifts, bends, swings, leans, bobs
/// and sways more, and wanders less to the side.
pub proof fn lemma_runs_exceed_walks()
    ensures
        f32_lt_spec(walking().stride_len, running().stride_len),
        f32_lt_spec(walking().thigh, running().thigh),
        f32_lt_spec(walking().knee, running().knee),
        f32_lt_spec(walking().stance_knee, running().stance_knee),
        f32_lt_spec(walking().foot, running().foot),
        f32_lt_spec(walking().arm, running().arm),
        f32_lt_spec(walking().elbow, running().elbow),
        f32_lt_spec(walking().bob, running().bob),
        f32_lt_spec(running().lat, walking().lat),
        f32_lt_spec(walking().lean, running().lean),
        f32_lt_spec(walking().hip_sway, running().hip_sway),
        f32_lt_spec(walking().torso_sway, running().torso_sway),
{
}

/// A smooth step eases the ratio between its edges, and stays at nothing
/// before the first and at one behind the second.
pub proof fn lemma_smooth_steps_stay_between_their_edges<F: Fn(Blend) -> u32>(
    eval: F,
    edge0: u32,
    edge1: u32,
    x: u32,
)
    ensures
        ({
            let ratio = value(eval, Blend::Ratio { edge0, edge1, x });
            let eased = smooth(eval, edge0, edge1, x);
            &&& f32_lt_spec(ratio, 0) ==> eased == value(eval, Blend::Ease { t: 0 })
            &&& f32_lt_spec(0x3F80_0000, ratio) ==> eased == value(
                eval,
                Blend::Ease { t: 0x3F80_0000 },
            )
            &&& !f32_lt_spec(ratio, 0) && !f32_lt_spec(0x3F80_0000, ratio) ==> eased == value(
                eval,
                Blend::Ease { t: ratio },
            )
        }),
{
}

// ---------------------------------------------------------------------------
// Digests
// ---------------------------------------------------------------------------

/// Digests start from the offset and multiply by the prime, modulo 2^64.
pub proof fn lemma_digests_start_from_the_offset()
    ensures
        FNV_OFFSET == 0xCBF2_9CE4_8422_2325,
        FNV_PRIME == 0x1000_0000_01B3,
        two64() == 0x1_0000_0000_0000_0000,
        fnv1a_spec(Seq::empty()) == FNV_OFFSET,
{
}

/// One word is folded in by multiplying with the prime and mixing it in,
/// in the order of the words.
pub proof fn lemma_words_are_folded_in(h: u64, words: Seq<u64>, v: u64)
    ensures
        fold_words(h, Seq::empty()) == h,
        fold_words(h, words.push(v)) == ((fold_words(h, words) as int * FNV_PRIME as int
            % two64()) as u64) ^ v,
{
    assert(words.push(v).drop_last() =~= words);
}

/// One byte of a text is folded in by mixing it in and multiplying with
/// the prime, in the order of the bytes.
pub proof fn lemma_bytes_are_folded_in(bytes: Seq<u8>, b: u8)
    ensures
        fnv1a_spec(bytes.push(b)) == ((fnv1a_spec(bytes) ^ (b as u64)) as int * FNV_PRIME as int
            % two64()) as u64,
{
    assert(bytes.push(b).drop_last() =~= bytes);
}

/// Four numbers are digested as four words in their order, avalanched,
/// and several such by adding up.
pub proof fn lemma_four_numbers_are_four_words(items: Seq<Quad>, q: Quad)
    ensures
        quads_digest(items.push(q)) == (quads_digest(items) + crate::rng::splitmix_mix_spec(
            fold_words(FNV_OFFSET, seq![q.0 as u64, q.1 as u64, q.2 as u64, q.3 as u64]),
        )) % two64(),
        quads_digest(Seq::empty()) == FNV_OFFSET,
{
    let word = |q: Quad| crate::digest::quad_word(q);
    crate::digest::lemma_gather_push(items, q, word);
    let (a, b, c, d) = (q.0 as u64, q.1 as u64, q.2 as u64, q.3 as u64);
    let none = Seq::<u64>::empty();
    lemma_words_are_folded_in(FNV_OFFSET, none, a);
    lemma_words_are_folded_in(FNV_OFFSET, none.push(a), b);
    lemma_words_are_folded_in(FNV_OFFSET, none.push(a).push(b), c);
    lemma_words_are_folded_in(FNV_OFFSET, none.push(a).push(b).push(c), d);
    assert(none.push(a).push(b).push(c).push(d) =~= seq![a, b, c, d]);
    vstd::arithmetic::div_mod::lemma_small_mod(FNV_OFFSET as nat, two64() as nat);
}

proof fn lemma_sum_of_update<A>(items: Seq<A>, word: spec_fn(A) -> u64, i: int, x: A)
    requires
        0 <= i < items.len(),
    ensures
        word_sum(items.update(i, x), word) - word_sum(items, word) == word(x) - word(items[i]),
    decreases items.len(),
{
    let next = items.update(i, x);
    if i == items.len() - 1 {
        assert(next.drop_last() =~= items.drop_last());
    } else {
        lemma_sum_of_update(items.drop_last(), word, i, x);
        assert(next.drop_last() =~= items.drop_last().update(i, x));
    }
}

proof fn lemma_apart_modulo(a: int, b: int)
    requires
        a != b,
        -0x1_0000_0000_0000_0000 < a - b < 0x1_0000_0000_0000_0000,
    ensures
        a % 0x1_0000_0000_0000_0000 != b % 0x1_0000_0000_0000_0000,
{
    let m = 0x1_0000_0000_0000_0000int;
    if a % m == b % m {
        vstd::arithmetic::div_mod::lemma_fundamental_div_mod(a, m);
        vstd::arithmetic::div_mod::lemma_fundamental_div_mod(b, m);
        let (x, y) = (a / m, b / m);
        assert(m * x - m * y == m * (x - y)) by (nonlinear_arith);
        assert(x == y);
    }
}

proof fn lemma_gathering_moves<A>(items: Seq<A>, word: spec_fn(A) -> u64, i: int, x: A)
    requires
        0 <= i < items.len(),
        word(x) != word(items[i]),
    ensures
        gathered(items.update(i, x), word) != gathered(items, word),
{
    lemma_sum_of_update(items, word, i, x);
    lemma_apart_modulo(
        FNV_OFFSET + word_sum(items.update(i, x), word),
        FNV_OFFSET + word_sum(items, word),
    );
}

/// The two points differ in exactly one coordinate.
pub open spec fn one_coordinate_apart(p: Vec3, q: Vec3) -> bool {
    ||| p.x != q.x && p.y == q.y && p.z == q.z
    ||| p.x == q.x && p.y != q.y && p.z == q.z
    ||| p.x == q.x && p.y == q.y && p.z != q.z
}

proof fn lemma_points_apart(p: Vec3, q: Vec3)
    requires
        one_coordinate_apart(p, q),
    ensures
        crate::character::point_word(p) != crate::character::point_word(q),
{
    let (px, py, pz) = (p.x as u64, p.y as u64, p.z as u64);
    let (qx, qy, qz) = (q.x as u64, q.y as u64, q.z as u64);
    assert(px <= 0xFFFF_FFFF && py <= 0xFFFF_FFFF && pz <= 0xFFFF_FFFF && qx <= 0xFFFF_FFFF && qy
        <= 0xFFFF_FFFF && qz <= 0xFFFF_FFFF && ((px != qx && py == qy && pz == qz) || (px == qx
        && py != qy && pz == qz) || (px == qx && py == qy && pz != qz)) ==> px ^ (py << 32) ^ (pz
        << 17) != qx ^ (qy << 32) ^ (qz << 17)) by (bit_vector);
}

/// A pose's digest moves with any one coordinate of any one joint or tip.
pub proof fn lemma_one_coordinate_moves_a_pose(
    bones: Seq<(Vec3, Vec3)>,
    i: int,
    joint: Vec3,
    tip: Vec3,
)
    requires
        0 <= i < bones.len(),
    ensures
        one_coordinate_apart(bones[i].0, joint) ==> bones_digest(
            bones.update(i, (joint, bones[i].1)),
        ) != bones_digest(bones),
        one_coordinate_apart(bones[i].1, tip) ==> bones_digest(
            bones.update(i, (bones[i].0, tip)),
        ) != bones_digest(bones),
{
    let word = |b: (Vec3, Vec3)| crate::character::bone_word(b);
    if one_coordinate_apart(bones[i].0, joint) {
        lemma_points_apart(bones[i].0, joint);
        let x = (joint, bones[i].1);
        if word(x) == word(bones[i]) {
            lemma_bone_words(x, bones[i]);
        }
        lemma_gathering_moves(bones, word, i, x);
    }
    if one_coordinate_apart(bones[i].1, tip) {
        lemma_points_apart(bones[i].1, tip);
        let x = (bones[i].0, tip);
        if word(x) == word(bones[i]) {
            lemma_bone_words(x, bones[i]);
        }
        lemma_gathering_moves(bones, word, i, x);
    }
}

proof fn lemma_bone_words(a: (Vec3, Vec3), b: (Vec3, Vec3))
    requires
        crate::character::bone_word(a) == crate::character::bone_word(b),
        a.0 == b.0 || a.1 == b.1,
    ensures
        crate::character::point_word(a.0) == crate::character::point_word(b.0),
        crate::character::point_word(a.1) == crate::character::point_word(b.1),
{
    let (a0, a1) = (crate::character::point_word(a.0), crate::character::point_word(a.1));
    let (b0, b1) = (crate::character::point_word(b.0), crate::character::point_word(b.1));
    let (x, y) = (step_spec(FNV_OFFSET, a0), step_spec(FNV_OFFSET, b0));
    crate::rng::lemma_mix_is_injective(step_spec(x, a1), step_spec(y, b1));
    if a.0 == b.0 {
        crate::digest::lemma_step_injective(x, y, a1, b1);
    } else {
        crate::digest::lemma_step_injective(x, y, a1, b1);
        crate::digest::lemma_step_injective(FNV_OFFSET, FNV_OFFSET, a0, b0);
    }
}

/// The numbers of a tree's structure digest are its rest pose's angles and
/// tips with the branches' own widths, branch by branch.
pub proof fn lemma_structures_are_rest_poses(tree: Tree, rest: TreePose, k: int)
    requires
        rest.wf(),
        rest@.len() == tree@.len(),
        0 <= k < tree@.len(),
    ensures
        tree.structure(&rest).len() == tree@.len(),
        tree.structure(&rest)[k] == (
            rest@[k].seg.angle,
            rest@[k].seg.tip_x,
            rest@[k].seg.tip_y,
            tree@[k].width,
        ),
        rest.branches()[k] == (
            rest@[k].seg.angle,
            rest@[k].seg.tip_x,
            rest@[k].seg.tip_y,
            rest@[k].seg.width,
        ),
{
}

proof fn lemma_contributions_apart(i: u32, c: u64, j: u32, d: u64)
    requires
        (i == j && c != d) || (i != j && c == d),
    ensures
        crate::walkers::mixed(i, c) != crate::walkers::mixed(j, d),
{
    let n = 0x1_0000_0000_0000_0000int;
    let m = (c * 0x9E37_79B9_7F4A_7C15 % n) as u64;
    let k = (d * 0x9E37_79B9_7F4A_7C15 % n) as u64;
    let a = (i * 0xD1B5_4A32_D192_ED03 % n) as u64;
    let b = (j * 0xD1B5_4A32_D192_ED03 % n) as u64;
    if m == k {
        crate::rng::lemma_scaling_injective(
            c as int,
            d as int,
            0x9E37_79B9_7F4A_7C15,
            0xF1DE_83E1_9937_733D,
        );
    }
    if a == b {
        crate::rng::lemma_scaling_injective(
            i as int,
            j as int,
            0xD1B5_4A32_D192_ED03,
            0x0610_6CCF_A448_E5AB,
        );
    }
    assert((m == k) != (a == b) ==> ((m << 23) | (m >> 41)) ^ a != ((k << 23) | (k >> 41)) ^ b)
        by (bit_vector);
}

proof fn lemma_mixed_sum_of_update(walkers: Seq<(u32, u64)>, i: int, x: (u32, u64))
    requires
        0 <= i < walkers.len(),
    ensures
        mixed_sum(walkers.update(i, x)) - mixed_sum(walkers) == crate::walkers::mixed(x.0, x.1)
            - crate::walkers::mixed(walkers[i].0, walkers[i].1),
    decreases walkers.len(),
{
    let next = walkers.update(i, x);
    if i == walkers.len() - 1 {
        assert(next.drop_last() =~= walkers.drop_last());
    } else {
        lemma_mixed_sum_of_update(walkers.drop_last(), i, x);
        assert(next.drop_last() =~= walkers.drop_last().update(i, x));
    }
}

/// A world's digest moves with any one walker: with its pose's digest, or
/// with its id.
pub proof fn lemma_one_walker_moves_the_world(walkers: Seq<(u32, u64)>, i: int, x: (u32, u64))
    requires
        0 <= i < walkers.len(),
        (x.0 == walkers[i].0 && x.1 != walkers[i].1) || (x.0 != walkers[i].0 && x.1
            == walkers[i].1),
    ensures
        mixed_sum(walkers.update(i, x)) % 0x1_0000_0000_0000_0000 != mixed_sum(walkers)
            % 0x1_0000_0000_0000_0000,
{
    lemma_contributions_apart(x.0, x.1, walkers[i].0, walkers[i].1);
    lemma_mixed_sum_of_update(walkers, i, x);
    lemma_apart_modulo(mixed_sum(walkers.update(i, x)), mixed_sum(walkers));
}

/// A world is digested by its walkers' ids and the poses they have now,
/// and its heel strikes are those of its walkers.
pub proof fn lemma_worlds_digest_their_current_poses(w: Movement, i: int)
    requires
        0 <= i < w.walkers@.len(),
    ensures
        w.digests().len() == w.walkers@.len(),
        w.digests()[i] == (w.walkers@[i].id, bones_digest(w.walkers@[i].curr.bones())),
        w.strikes().len() == w.walkers@.len(),
        w.strikes()[i] == w.walkers@[i].character.footfalls,
{
}

/// All heel strikes are counted together: one more walker adds its own.
pub proof fn lemma_heel_strikes_add_up(footfalls: Seq<u64>, n: u64)
    ensures
        footfall_sum(Seq::empty()) == 0,
        footfall_sum(footfalls.push(n)) == footfall_sum(footfalls) + n,
{
    assert(footfalls.push(n).drop_last() =~= footfalls);
}

// ---------------------------------------------------------------------------
// Crowds
// ---------------------------------------------------------------------------

/// A larger field stands no closer and walks no slower: it has three
/// tiers, for crowds of hundreds, thousands and more.
pub proof fn lemma_larger_fields_spread_out(a: int, b: int)
    requires
        a <= b,
    ensures
        tier_of(a) == tier_of(b) || (f32_lt_spec(tier_of(a).0, tier_of(b).0) && f32_lt_spec(
            tier_of(a).1,
            tier_of(b).1,
        )),
        tier_of(a) == tier_of(b) <==> (a < 300) == (b < 300) && (a < 3000) == (b < 3000),
{
}

/// The first loops of a field carry what does not divide evenly: no loop
/// has more walkers than one before it.
pub proof fn lemma_earlier_loops_carry_the_rest(count: int, loops: int, i: int, j: int)
    requires
        count >= 0,
        loops > 0,
        0 <= i <= j < loops,
    ensures
        share(count, loops, i) >= share(count, loops, j),
        share(count, loops, j) == count / loops || share(count, loops, j) == count / loops + 1,
{
}

/// The frames of a walk: the first shows the figure after the steps taken
/// before, each next one step on, and every pose the stance its figure
/// takes.
pub proof fn lemma_frames_show_the_walk<
    S,
    F: Fn(Motion) -> u32,
    H: Fn(u32) -> i64,
    N: Fn(Character) -> S,
    A: Fn(Hang<S>) -> Placement,
>(
    c: Character,
    input: MovementInput,
    bones: Seq<Bone>,
    pre_steps: int,
    eval: F,
    half: H,
    animate: N,
    attach: A,
    frames: Seq<(Character, CharacterPose)>,
    k: int,
)
    requires
        0 <= pre_steps,
        0 <= k < frames.len(),
        shows_walk(c, input, bones, pre_steps, eval, half, animate, attach, frames),
    ensures
        k == 0 ==> frames[k].0 == walked(c, input, eval, half, pre_steps as nat),
        k > 0 ==> frames[k].0 == stepped(frames[k - 1].0, input, eval, half),
        shows_stance(bones, value(animate, frames[k].0), attach, frames[k].1),
{
    if k > 0 {
        assert(frames[k - 1].0 == walked(c, input, eval, half, (pre_steps + k - 1) as nat));
        crate::figure_laws::lemma_walks_add_up(
            c,
            input,
            eval,
            half,
            (pre_steps + k - 1) as nat,
            1,
        );
        crate::figure_laws::lemma_walks_add_up(frames[k - 1].0, input, eval, half, 0, 1);
    }
    assert(frames[k].0 == walked(c, input, eval, half, (pre_steps + k) as nat));
}

/// A new walker has one segment for every bone, named by both, at the
/// origin, as wide as the bone at the walker's scale.
pub proof fn lemma_new_walkers_have_a_segment_per_bone<W: Fn((u32, u32)) -> u32>(
    bones: Seq<Bone>,
    walker: usize,
    scale: u32,
    widen: W,
    b: int,
)
    requires
        0 <= b < bones.len() <= u16::MAX,
    ensures
        ({
            let all = Movement::fresh(bones, walker, scale, widen);
            let zero = Vec3 { x: 0, y: 0, z: 0 };
            &&& all.len() == bones.len()
            &&& all[b].walker == walker
            &&& all[b].bone == b
            &&& all[b].a == zero
            &&& all[b].b == zero
            &&& all[b].width == value(widen, (bones[b].width, scale))
        }),
{
}

/// The field scenes hold as many figures as their names say, the walking
/// scenes one, twelve and ninety-six, and any other name walks one.
pub proof fn lemma_scenes_hold_their_figures(id: Seq<char>)
    ensures
        source_of("mandala-100"@) == Source::Field(100),
        source_of("mandala-1k"@) == Source::Field(1000),
        source_of("mandala-10k"@) == Source::Field(10000),
        source_of("walk"@) matches Source::Circles(p) && p.count == 1 && p.radius_min
            == 0x40A0_0000 && p.radius_max == p.radius_min && p.fixed == Some(0x3FAC_CCCDu32)
            && !p.carry,
        source_of("walk-run"@) matches Source::Circles(p) && p.count == 1 && p.radius_min
            == 0x40E0_0000 && p.radius_max == p.radius_min && p.fixed == Some(0x4066_6666u32)
            && !p.carry,
        source_of("carry"@) matches Source::Circles(p) && p.count == 12 && p.carry && p.fixed
            is None && f32_lt_spec(p.radius_min, p.radius_max) && f32_lt_spec(
            p.speed_min,
            p.speed_max,
        ),
        source_of("crowd"@) matches Source::Circles(p) && p.count == 96 && !p.carry && p.fixed
            is None && f32_lt_spec(p.radius_min, p.radius_max) && f32_lt_spec(
            p.speed_min,
            p.speed_max,
        ),
        !seq![
            "mandala-100"@,
            "mandala-1k"@,
            "mandala-10k"@,
            "walk"@,
            "walk-run"@,
            "carry"@,
            "crowd"@,
        ].contains(id) ==> source_of(id) == source_of("walk"@),
{
    reveal_strlit("mandala-100");
    assert("mandala-100"@.len() == 11);
    reveal_strlit("mandala-1k");
    assert("mandala-1k"@.len() == 10);
    reveal_strlit("mandala-10k");
    assert("mandala-10k"@.len() == 11);
    assert("mandala-100"@[10] != "mandala-10k"@[10]);
    reveal_strlit("walk");
    assert("walk"@.len() == 4);
    reveal_strlit("walk-run");
    assert("walk-run"@.len() == 8);
    reveal_strlit("carry");
    assert("carry"@.len() == 5);
    reveal_strlit("crowd");
    assert("crowd"@.len() == 5);
    assert("carry"@[1] != "crowd"@[1]);
    let names = seq![
        "mandala-100"@,
        "mandala-1k"@,
        "mandala-10k"@,
        "walk"@,
        "walk-run"@,
        "carry"@,
        "crowd"@,
    ];
    assert(names[0] == "mandala-100"@ && names[1] == "mandala-1k"@ && names[2] == "mandala-10k"@
        && names[3] == "walk"@ && names[4] == "walk-run"@ && names[5] == "carry"@ && names[6]
        == "crowd"@);
}

// ---------------------------------------------------------------------------
// Routes
// ---------------------------------------------------------------------------

/// The search goes on from the reached position with the least cost so far
/// and cheapest way straight on, and from the lowest of several such.
pub proof fn lemma_searches_take_the_least_estimate(
    m: MapModel,
    goal: int,
    s: Search,
    i: int,
    j: int,
)
    requires
        is_next(m, goal, s, i),
        s.g.dom().contains(j),
        !s.closed.contains(j),
    ensures
        s.g.dom().contains(i),
        !s.closed.contains(i),
        ({
            let w = m.params.width as int;
            let far = |a: int, b: int|
                if a < b {
                    b - a
                } else {
                    a - b
                };
            let ahead = |p: int| 9 * (far(p % w, goal % w) + far(p / w, goal / w));
            &&& s.g[i] + ahead(i) <= s.g[j] + ahead(j)
            &&& s.g[i] + ahead(i) == s.g[j] + ahead(j) ==> i <= j
        }),
{
    assert(frontier(s, j));
}

/// Going on from a position takes a way to a neighbor that has none, and
/// a cheaper one to a neighbor that has; it leaves ways that cost no more
/// as they are, and blocked neighbors out.
pub proof fn lemma_cheaper_ways_replace_dearer(m: MapModel, s: Search, i: int, d: int, n: int)
    requires
        neighbor(m, i, d) == Some(n),
    ensures
        ({
            let t = relax(m, s, i, d);
            let g = s.g[i] + m.cost_at(n);
            &&& t.closed == s.closed
            &&& m.cost_at(n) == 0 ==> t == s
            &&& m.cost_at(n) > 0 && !s.g.dom().contains(n) ==> t.g == s.g.insert(n, g) && t.from
                == s.from.insert(n, i)
            &&& m.cost_at(n) > 0 && s.g.dom().contains(n) && g < s.g[n] ==> t.g == s.g.insert(n, g)
                && t.from == s.from.insert(n, i)
            &&& s.g.dom().contains(n) && s.g[n] <= g ==> t == s
        }),
{
}

/// A position has up to four neighbors, tried to the east, the north, the
/// west and the south: each one step off along a row or a column, and
/// none off the map.
pub proof fn lemma_neighbors_are_one_step_off(m: MapModel, i: int)
    requires
        m.wf(),
        0 <= i < m.tiles(),
    ensures
        ({
            let w = m.params.width as int;
            let h = m.params.height as int;
            &&& neighbor(m, i, 0) == if i % w < w - 1 {
                Some(i + 1)
            } else {
                None
            }
            &&& neighbor(m, i, 1) == if i / w > 0 {
                Some(i - w)
            } else {
                None
            }
            &&& neighbor(m, i, 2) == if i % w > 0 {
                Some(i - 1)
            } else {
                None
            }
            &&& neighbor(m, i, 3) == if i / w < h - 1 {
                Some(i + w)
            } else {
                None
            }
        }),
{
}

/// A walk costs what its tiles cost to enter, but for the first.
pub proof fn lemma_walks_cost_what_they_enter(
    m: MapModel,
    route: Seq<crate::map::Tile>,
    next: crate::map::Tile,
)
    ensures
        route.len() <= 1 ==> route_cost(m, route) == 0,
        route.len() >= 1 ==> route_cost(m, route.push(next)) == route_cost(m, route) + m.cost(next),
{
    assert(route.push(next).drop_last() =~= route);
}

/// Pairs order by their keys, and by their positions where the keys are
/// equal.
pub proof fn lemma_pairs_order_by_key(a: (u32, u32), b: (u32, u32))
    ensures
        a.0 != b.0 ==> (pair_le(a, b) <==> a.0 < b.0),
        a.0 == b.0 ==> (pair_le(a, b) <==> a.1 <= b.1),
{
}

} // verus!
