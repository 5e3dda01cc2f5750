//! Character movement in fixed steps: scripted controllers write their
//! inputs, a tick advances every character by one step and poses it
//! anew, and the render mirror samples the last two poses.
use vstd::prelude::*;
use crate::character::{pose_into, Character, CharacterPose, MovementInput, Motion, Placement};
use crate::character::{Skeleton, Vec3};
use crate::view::clamp;
use crate::walkers::{state_checksum, steer, total_footfalls, CirclePath};

verus! {

use crate::character::{bones_digest, counts_halves, halves_within, hangs_in_order, hung, shows};
use crate::character::{stepped, Bone};
use crate::eval::{steady, value};
use crate::view::clamped;
use crate::walkers::{footfall_sum, mixed_sum, steered};

/// One.
pub const CURRENT: u32 = 0x3F80_0000;

/// A goal on the ground plane, reached within a radius. A target that was
/// reached stays, and holds the figure there.
#[derive(Debug, Clone, Copy, PartialEq, Eq, Structural)]
pub struct MoveTarget {
    pub pos: Vec3,
    pub arrive: u32,
}

/// Where a goal lies: its distance on the ground, the bearing error, and
/// the turn rate that the error asks for.
#[derive(Debug, Clone, Copy, PartialEq, Eq, Structural)]
pub struct Aim {
    pub dist: u32,
    pub err: u32,
    pub turn: u32,
}

/// A bone to place: of a figure in some stance, which one, and on which
/// placed parent.
pub type Hang<S> = (S, usize, Option<Placement>);

/// One character with its controllers and the poses of its last two
/// ticks.
pub struct Walker {
    /// Spawn id.
    pub id: u32,
    pub character: Character,
    /// This tick's intent, written by a controller.
    pub input: MovementInput,
    pub path: Option<CirclePath>,
    pub target: Option<MoveTarget>,
    /// Pose at the tick before.
    pub prev: CharacterPose,
    /// Pose at the latest tick.
    pub curr: CharacterPose,
}

/// The render mirror of one bone.
#[derive(Debug, Clone, Copy, PartialEq, Eq, Structural)]
pub struct BoneSegment {
    /// Index of the walker.
    pub walker: usize,
    /// Index of the bone.
    pub bone: u16,
    /// Joint.
    pub a: Vec3,
    /// Tip.
    pub b: Vec3,
    /// Rest width at the walker's scale.
    pub width: u32,
}

/// The zero vector.
pub open spec fn origin() -> Vec3 {
    Vec3 { x: 0, y: 0, z: 0 }
}

/// The buffer fits a rig.
pub open spec fn fits(pose: CharacterPose, bones: Seq<Bone>) -> bool {
    pose.start@.len() == bones.len() && pose.tip@.len() == bones.len()
}

/// A zeroed buffer for a rig.
pub open spec fn at_rest(pose: CharacterPose, bones: Seq<Bone>) -> bool {
    &&& pose.start@ == Seq::new(bones.len(), |b: int| origin())
    &&& pose.tip@ == Seq::new(bones.len(), |b: int| origin())
}

/// Where bone `b` is in a stance, placed from the root down.
pub open spec fn placed_at<S, A: Fn(Hang<S>) -> Placement>(
    bones: Seq<Bone>,
    stance: S,
    attach: A,
    b: int,
) -> Placement
    decreases b,
{
    let on = match bones[b].parent {
        Some(p) => if p < b {
            Some(placed_at(bones, stance, attach, p as int))
        } else {
            None
        },
        None => None,
    };
    value(attach, (stance, b as usize, on))
}

/// The pose shows a stance.
pub open spec fn shows_stance<S, A: Fn(Hang<S>) -> Placement>(
    bones: Seq<Bone>,
    stance: S,
    attach: A,
    pose: CharacterPose,
) -> bool {
    &&& pose.start@ == Seq::new(bones.len(), |b: int| placed_at(bones, stance, attach, b).start)
    &&& pose.tip@ == Seq::new(bones.len(), |b: int| placed_at(bones, stance, attach, b).tip)
}

/// The input after the circle controller.
pub open spec fn circled<C: Fn(CirclePath) -> MovementInput>(w: Walker, circle: C) -> MovementInput {
    match w.path {
        Some(p) => value(circle, p),
        None => w.input,
    }
}

/// The input after the point-to-point controller.
pub open spec fn sent<M: Fn((Vec3, u32, MoveTarget)) -> Aim>(w: Walker, aim: M) -> MovementInput {
    match w.target {
        Some(t) => {
            let m = value(aim, (w.character.pos, w.character.heading, t));
            steered(m.dist, t.arrive, m.err, m.turn)
        },
        None => w.input,
    }
}

/// The walker one tick on: the poses change places, the character steps
/// by its input, and the current pose shows its stance.
pub open spec fn ticked<
    S,
    F: Fn(Motion) -> u32,
    H: Fn(u32) -> i64,
    N: Fn(Character) -> S,
    A: Fn(Hang<S>) -> Placement,
>(
    bones: Seq<Bone>,
    w: Walker,
    eval: F,
    half: H,
    animate: N,
    attach: A,
    next: Walker,
) -> bool {
    &&& next == (Walker { character: next.character, prev: next.prev, curr: next.curr, ..w })
    &&& next.character == stepped(w.character, w.input, eval, half)
    &&& next.prev == w.curr
    &&& shows_stance(bones, value(animate, next.character), attach, next.curr)
}

/// A bone between the last two poses of its walker.
pub open spec fn mirrored<X: Fn((Vec3, Vec3, u32)) -> Vec3>(
    s: BoneSegment,
    w: Walker,
    alpha: u32,
    mix: X,
) -> BoneSegment {
    let b = s.bone as int;
    BoneSegment {
        a: value(mix, (w.prev.start@[b], w.curr.start@[b], alpha)),
        b: value(mix, (w.prev.tip@[b], w.curr.tip@[b], alpha)),
        ..s
    }
}

proof fn lemma_placed_at<
    S,
    F: Fn(usize, Option<Placement>) -> Placement,
    A: Fn(Hang<S>) -> Placement,
>(
    bones: Seq<Bone>,
    stance: S,
    hang: F,
    attach: A,
    placed: Seq<Placement>,
    b: int,
)
    requires
        hangs_in_order(bones),
        placed.len() == bones.len(),
        bones.len() <= usize::MAX,
        forall|i: int| 0 <= i < bones.len() ==> #[trigger] hung(bones, hang, placed, i),
        forall|i: usize, on: Option<Placement>, r: Placement|
            #[trigger] call_ensures(hang, (i, on), r) ==> r == value(attach, (stance, i, on)),
        0 <= b < bones.len(),
    ensures
        placed[b] == placed_at(bones, stance, attach, b),
    decreases b,
{
    assert(hung(bones, hang, placed, b));
    if let Some(p) = bones[b].parent {
        lemma_placed_at(bones, stance, hang, attach, placed, p as int);
    }
}

/// Pose a stance into a buffer of its rig.
pub fn pose_stance<S: Copy, A: Fn(Hang<S>) -> Placement>(
    skeleton: &Skeleton,
    stance: S,
    pose: &mut CharacterPose,
    attach: &A,
)
    requires
        skeleton.wf(),
        fits(*old(pose), skeleton@),
        steady(*attach),
    ensures
        fits(*final(pose), skeleton@),
        shows_stance(skeleton@, stance, *attach, *final(pose)),
{
    let hang = |b: usize, on: Option<Placement>| -> (r: Placement)
        ensures
            r == value(*attach, (stance, b, on)),
        { (*attach)((stance, b, on)) };
    pose_into(skeleton, pose, &hang);
    proof {
        let bones = skeleton@;
        assert(pose.start.len() == bones.len());
        let placed = choose|placed: Seq<Placement>| #[trigger] shows(bones, hang, *pose, placed);
        assert forall|b: int| 0 <= b < bones.len() implies placed[b] == placed_at(
            bones,
            stance,
            *attach,
            b,
        ) by {
            lemma_placed_at(bones, stance, hang, *attach, placed, b);
        }
        assert(pose.start@ =~= Seq::new(
            bones.len(),
            |b: int| placed_at(bones, stance, *attach, b).start,
        ));
        assert(pose.tip@ =~= Seq::new(bones.len(), |b: int| placed_at(bones, stance, *attach, b).tip));
    }
}

impl Walker {
    /// Both poses fit a rig.
    pub open spec fn fits(&self, bones: Seq<Bone>) -> bool {
        fits(self.prev, bones) && fits(self.curr, bones)
    }

    /// One tick.
    pub fn tick<
        S: Copy,
        F: Fn(Motion) -> u32,
        H: Fn(u32) -> i64,
        N: Fn(Character) -> S,
        A: Fn(Hang<S>) -> Placement,
    >(&mut self, skeleton: &Skeleton, eval: &F, half: &H, animate: &N, attach: &A)
        requires
            skeleton.wf(),
            old(self).fits(skeleton@),
            steady(*eval),
            counts_halves(*half),
            steady(*animate),
            steady(*attach),
            old(self).character.footfalls <= 0x7FFF_FFFF_FFFF_FFFF,
        ensures
            final(self).fits(skeleton@),
            ticked(skeleton@, *old(self), *eval, *half, *animate, *attach, *final(self)),
    {
        std::mem::swap(&mut self.prev, &mut self.curr);
        self.character.step(&self.input, eval, half);
        let stance = (*animate)(self.character);
        pose_stance(skeleton, stance, &mut self.curr, attach);
    }
}

/// A character after some steps with one input.
pub open spec fn walked<F: Fn(Motion) -> u32, H: Fn(u32) -> i64>(
    c: Character,
    input: MovementInput,
    eval: F,
    half: H,
    steps: nat,
) -> Character
    decreases steps,
{
    if steps == 0 {
        c
    } else {
        stepped(walked(c, input, eval, half, (steps - 1) as nat), input, eval, half)
    }
}

/// The steps of a walk up to its last frame.
pub open spec fn walk_steps(pre_steps: nat, frames: nat) -> nat {
    if frames == 0 {
        pre_steps
    } else {
        (pre_steps + frames - 1) as nat
    }
}

/// The footfall counter has room at every step of a walk.
pub open spec fn walk_counts<F: Fn(Motion) -> u32, H: Fn(u32) -> i64>(
    c: Character,
    input: MovementInput,
    eval: F,
    half: H,
    steps: nat,
) -> bool {
    forall|k: nat|
        k < steps ==> (#[trigger] walked(c, input, eval, half, k)).footfalls
            <= 0x7FFF_FFFF_FFFF_FFFF
}

/// The footfall counter surely has room for some steps, each of which
/// counts at most twice a limit.
pub open spec fn roomy<H: Fn(u32) -> i64>(half: H, footfalls: u64, steps: nat, limit: nat) -> bool {
    halves_within(half, limit) && footfalls + 2 * limit * steps <= 0x7FFF_FFFF_FFFF_FFFF
}

/// A counter within its growth has room as long as all steps together do.
proof fn lemma_room_lasts<H: Fn(u32) -> i64>(
    half: H,
    footfalls: u64,
    now: u64,
    taken: nat,
    steps: nat,
)
    requires
        taken <= steps,
        forall|limit: nat| #[trigger]
            halves_within(half, limit) ==> now <= footfalls + 2 * limit * taken,
        now > 0x7FFF_FFFF_FFFF_FFFF,
    ensures
        forall|limit: nat| !#[trigger] roomy(half, footfalls, steps, limit),
{
    assert forall|limit: nat| !#[trigger] roomy(half, footfalls, steps, limit) by {
        if halves_within(half, limit) {
            assert(2 * limit * taken <= 2 * limit * steps) by (nonlinear_arith)
                requires
                    taken <= steps,
            ;
        }
    }
}

/// One more step adds at most twice the limit.
proof fn lemma_room_shrinks<H: Fn(u32) -> i64>(
    half: H,
    footfalls: u64,
    before: u64,
    after: u64,
    taken: nat,
)
    requires
        forall|limit: nat| #[trigger]
            halves_within(half, limit) ==> before <= footfalls + 2 * limit * taken,
        forall|limit: nat| #[trigger] halves_within(half, limit) ==> after <= before + 2 * limit,
    ensures
        forall|limit: nat| #[trigger]
            halves_within(half, limit) ==> after <= footfalls + 2 * limit * (taken + 1),
{
    assert forall|limit: nat| #[trigger] halves_within(half, limit) implies after <= footfalls + 2
        * limit * (taken + 1) by {
        assert(2 * limit * (taken + 1) == 2 * limit * taken + 2 * limit) by (nonlinear_arith);
    }
}

/// The frames show a walk: the first after `pre_steps` steps, each next
/// one step on, every pose showing the stance its character takes.
pub open spec fn shows_walk<
    S,
    F: Fn(Motion) -> u32,
    H: Fn(u32) -> i64,
    N: Fn(Character) -> S,
    A: Fn(Hang<S>) -> Placement,
>(
    c: Character,
    input: MovementInput,
    bones: Seq<Bone>,
    pre_steps: int,
    eval: F,
    half: H,
    animate: N,
    attach: A,
    frames: Seq<(Character, CharacterPose)>,
) -> bool {
    forall|k: int|
        0 <= k < frames.len() ==> (#[trigger] frames[k]).0 == walked(
            c,
            input,
            eval,
            half,
            (pre_steps + k) as nat,
        ) && shows_stance(bones, value(animate, frames[k].0), attach, frames[k].1)
}

/// Walk a character and keep its frames: `pre_steps` steps before the
/// first, one between each two. Gives nothing, and leaves the character
/// where it was, exactly when the footfall counter would run out of room
/// on the way.
pub fn sample_walk<
    S: Copy,
    F: Fn(Motion) -> u32,
    H: Fn(u32) -> i64,
    N: Fn(Character) -> S,
    A: Fn(Hang<S>) -> Placement,
>(
    character: &mut Character,
    input: &MovementInput,
    skeleton: &Skeleton,
    pre_steps: usize,
    frames: usize,
    eval: &F,
    half: &H,
    animate: &N,
    attach: &A,
) -> (r: Option<Vec<(Character, CharacterPose)>>)
    requires
        skeleton.wf(),
        steady(*eval),
        counts_halves(*half),
        steady(*animate),
        steady(*attach),
    ensures
        r is Some <==> walk_counts(
            *old(character),
            *input,
            *eval,
            *half,
            walk_steps(pre_steps as nat, frames as nat),
        ),
        forall|limit: nat| #[trigger]
            roomy(
                *half,
                old(character).footfalls,
                walk_steps(pre_steps as nat, frames as nat),
                limit,
            ) ==> r is Some,
        r is None ==> *final(character) == *old(character),
        r matches Some(taken) ==> shows_walk(
            *old(character),
            *input,
            skeleton@,
            pre_steps as int,
            *eval,
            *half,
            *animate,
            *attach,
            taken@,
        ) && taken@.len() == frames && *final(character) == walked(
            *old(character),
            *input,
            *eval,
            *half,
            walk_steps(pre_steps as nat, frames as nat),
        ),
{
    let ghost start = *character;
    let ghost steps = walk_steps(pre_steps as nat, frames as nat);
    let mut at: Character = *character;
    let mut n: usize = 0;
    while n < pre_steps
        invariant
            n <= pre_steps,
            pre_steps <= steps,
            *character == start,
            steps == walk_steps(pre_steps as nat, frames as nat),
            *character == *old(character),
            steady(*eval),
            counts_halves(*half),
            walk_counts(start, *input, *eval, *half, n as nat),
            at == walked(start, *input, *eval, *half, n as nat),
            forall|limit: nat| #[trigger]
                halves_within(*half, limit) ==> at.footfalls <= start.footfalls + 2 * limit * (
                n as nat),
        decreases pre_steps - n,
    {
        if at.footfalls > 0x7FFF_FFFF_FFFF_FFFF {
            proof {
                lemma_room_lasts(*half, start.footfalls, at.footfalls, n as nat, steps);
            }
            return None;
        }
        let ghost before = at.footfalls;
        at.step(input, eval, half);
        proof {
            lemma_room_shrinks(*half, start.footfalls, before, at.footfalls, n as nat);
        }
        n = n + 1;
    }
    let mut out: Vec<(Character, CharacterPose)> = Vec::with_capacity(frames);
    let mut k: usize = 0;
    while k < frames
        invariant
            k <= frames,
            steps == walk_steps(pre_steps as nat, frames as nat),
            *character == start,
            *character == *old(character),
            skeleton.wf(),
            steady(*eval),
            counts_halves(*half),
            steady(*animate),
            steady(*attach),
            walk_counts(start, *input, *eval, *half, walk_steps(pre_steps as nat, k as nat)),
            at == walked(start, *input, *eval, *half, walk_steps(pre_steps as nat, k as nat)),
            forall|limit: nat| #[trigger]
                halves_within(*half, limit) ==> at.footfalls <= start.footfalls + 2 * limit
                    * walk_steps(pre_steps as nat, k as nat),
            out@.len() == k,
            shows_walk(
                start,
                *input,
                skeleton@,
                pre_steps as int,
                *eval,
                *half,
                *animate,
                *attach,
                out@,
            ),
        decreases frames - k,
    {
        if k > 0 {
            let ghost taken = walk_steps(pre_steps as nat, k as nat);
            if at.footfalls > 0x7FFF_FFFF_FFFF_FFFF {
                proof {
                    lemma_room_lasts(*half, start.footfalls, at.footfalls, taken, steps);
                }
                return None;
            }
            let ghost before = at.footfalls;
            at.step(input, eval, half);
            proof {
                lemma_room_shrinks(*half, start.footfalls, before, at.footfalls, taken);
            }
        }
        let stance = (*animate)(at);
        let mut pose = CharacterPose::new(skeleton);
        pose_stance(skeleton, stance, &mut pose, attach);
        out.push((at, pose));
        k = k + 1;
    }
    *character = at;
    Some(out)
}

/// The moving world: the shared rig, the walkers, and the mirror of
/// their bones.
pub struct Movement {
    pub skeleton: Skeleton,
    pub walkers: Vec<Walker>,
    pub segments: Vec<BoneSegment>,
    /// Where the mirror samples: zero is the tick before, one the
    /// current tick.
    pub alpha: u32,
    /// Characters hold still while this is set.
    pub paused: bool,
}

impl Movement {
    /// Every pose fits the rig, every segment names a bone of it, and
    /// spawn ids count up from zero.
    pub open spec fn wf(&self) -> bool {
        &&& self.skeleton.wf()
        &&& self.skeleton@.len() <= 0x1_0000
        &&& forall|i: int|
            0 <= i < self.walkers@.len() ==> (#[trigger] self.walkers@[i]).fits(self.skeleton@)
                && self.walkers@[i].id == i % 0x1_0000_0000
        &&& forall|k: int|
            0 <= k < self.segments@.len() ==> (#[trigger] self.segments@[k]).bone
                < self.skeleton@.len()
    }

    /// Nobody yet; the mirror samples the current tick.
    pub fn new(skeleton: Skeleton) -> (r: Movement)
        requires
            skeleton.wf(),
            skeleton@.len() <= 0x1_0000,
        ensures
            r.wf(),
            r.skeleton == skeleton,
            r.walkers@.len() == 0,
            r.segments@.len() == 0,
            r.alpha == CURRENT,
            !r.paused,
    {
        Movement {
            skeleton,
            walkers: Vec::new(),
            segments: Vec::new(),
            alpha: CURRENT,
            paused: false,
        }
    }

    /// The segments of a new walker: one per bone, at the origin, as wide
    /// as the bone at the walker's scale.
    pub open spec fn fresh<W: Fn((u32, u32)) -> u32>(
        bones: Seq<Bone>,
        walker: usize,
        scale: u32,
        widen: W,
    ) -> Seq<BoneSegment> {
        Seq::new(
            bones.len(),
            |b: int|
                BoneSegment {
                    walker,
                    bone: b as u16,
                    a: origin(),
                    b: origin(),
                    width: value(widen, (bones[b].width, scale)),
                },
        )
    }

    /// Add a walker with zeroed poses, and its bones to the mirror. Gives
    /// the walker's index.
    pub fn spawn_walker<W: Fn((u32, u32)) -> u32>(
        &mut self,
        character: Character,
        input: MovementInput,
        widen: &W,
    ) -> (r: usize)
        requires
            old(self).wf(),
            steady(*widen),
        ensures
            final(self).wf(),
            r == old(self).walkers@.len(),
            final(self).walkers@.drop_last() == old(self).walkers@,
            final(self).walkers@.len() == r + 1,
            final(self).walkers@.last().id == r as int % 0x1_0000_0000,
            final(self).walkers@.last().character == character,
            final(self).walkers@.last().input == input,
            final(self).walkers@.last().path is None,
            final(self).walkers@.last().target is None,
            at_rest(final(self).walkers@.last().prev, old(self).skeleton@),
            at_rest(final(self).walkers@.last().curr, old(self).skeleton@),
            final(self).segments@ == old(self).segments@ + Self::fresh(
                old(self).skeleton@,
                r,
                character.scale,
                *widen,
            ),
            final(self).skeleton == old(self).skeleton,
            final(self).alpha == old(self).alpha,
            final(self).paused == old(self).paused,
    {
        let index: usize = self.walkers.len();
        let n: usize = self.skeleton.bone_count();
        let ghost before = *self;
        let mut b: usize = 0;
        while b < n
            invariant
                b <= n,
                n == self.skeleton@.len(),
                before.wf(),
                steady(*widen),
                self.skeleton == before.skeleton,
                self.walkers == before.walkers,
                self.alpha == before.alpha,
                self.paused == before.paused,
                self.segments@ == before.segments@ + Self::fresh(
                    before.skeleton@,
                    index,
                    character.scale,
                    *widen,
                ).take(b as int),
            decreases n - b,
        {
            let width: u32 = (*widen)((self.skeleton.width(b), character.scale));
            let zero = Vec3 { x: 0, y: 0, z: 0 };
            self.segments.push(
                BoneSegment { walker: index, bone: b as u16, a: zero, b: zero, width },
            );
            b = b + 1;
            proof {
                assert(self.segments@ =~= before.segments@ + Self::fresh(
                    before.skeleton@,
                    index,
                    character.scale,
                    *widen,
                ).take(b as int));
            }
        }
        let id: u32 = (index as u64 % 0x1_0000_0000) as u32;
        let walker = Walker {
            id,
            character,
            input,
            path: None,
            target: None,
            prev: CharacterPose::new(&self.skeleton),
            curr: CharacterPose::new(&self.skeleton),
        };
        self.walkers.push(walker);
        proof {
            let all = Self::fresh(before.skeleton@, index, character.scale, *widen);
            assert(all.take(n as int) =~= all);
            assert(self.walkers@.drop_last() =~= before.walkers@);
        }
        index
    }

    /// Scripted circles write their walkers' inputs.
    pub fn step_circle_paths<C: Fn(CirclePath) -> MovementInput>(&mut self, circle: &C)
        requires
            old(self).wf(),
            steady(*circle),
        ensures
            final(self).wf(),
            final(self).walkers@ == old(self).walkers@.map_values(
                |w: Walker| (Walker { input: circled(w, *circle), ..w }),
            ),
            final(self).segments == old(self).segments,
            final(self).skeleton == old(self).skeleton,
            final(self).alpha == old(self).alpha,
            final(self).paused == old(self).paused,
    {
        let n: usize = self.walkers.len();
        let ghost before = *self;
        let mut i: usize = 0;
        while i < n
            invariant
                i <= n,
                n == self.walkers@.len(),
                n == before.walkers@.len(),
                steady(*circle),
                before.wf(),
                *self == (Movement { walkers: self.walkers, ..before }),
                forall|k: int|
                    0 <= k < i ==> #[trigger] self.walkers@[k] == (Walker {
                        input: circled(before.walkers@[k], *circle),
                        ..before.walkers@[k]
                    }),
                forall|k: int| i <= k < n ==> #[trigger] self.walkers@[k] == before.walkers@[k],
            decreases n - i,
        {
            if let Some(p) = self.walkers[i].path {
                self.walkers[i].input = (*circle)(p);
            }
            i = i + 1;
        }
        proof {
            assert(self.walkers@ =~= before.walkers@.map_values(
                |w: Walker| (Walker { input: circled(w, *circle), ..w }),
            ));
        }
    }

    /// Goals write their walkers' inputs: turn toward the bearing, walk,
    /// and stop inside the arrival radius.
    pub fn step_move_targets<M: Fn((Vec3, u32, MoveTarget)) -> Aim>(&mut self, aim: &M)
        requires
            old(self).wf(),
            steady(*aim),
        ensures
            final(self).wf(),
            final(self).walkers@ == old(self).walkers@.map_values(
                |w: Walker| (Walker { input: sent(w, *aim), ..w }),
            ),
            final(self).segments == old(self).segments,
            final(self).skeleton == old(self).skeleton,
            final(self).alpha == old(self).alpha,
            final(self).paused == old(self).paused,
    {
        let n: usize = self.walkers.len();
        let ghost before = *self;
        let mut i: usize = 0;
        while i < n
            invariant
                i <= n,
                n == self.walkers@.len(),
                n == before.walkers@.len(),
                steady(*aim),
                before.wf(),
                *self == (Movement { walkers: self.walkers, ..before }),
                forall|k: int|
                    0 <= k < i ==> #[trigger] self.walkers@[k] == (Walker {
                        input: sent(before.walkers@[k], *aim),
                        ..before.walkers@[k]
                    }),
                forall|k: int| i <= k < n ==> #[trigger] self.walkers@[k] == before.walkers@[k],
            decreases n - i,
        {
            if let Some(t) = self.walkers[i].target {
                let c = self.walkers[i].character;
                let m = (*aim)((c.pos, c.heading, t));
                self.walkers[i].input = steer(m.dist, t.arrive, m.err, m.turn);
            }
            i = i + 1;
        }
        proof {
            assert(self.walkers@ =~= before.walkers@.map_values(
                |w: Walker| (Walker { input: sent(w, *aim), ..w }),
            ));
        }
    }

    /// Advance every character by one step and pose it anew, unless
    /// paused. `animate` gives a character's stance, and `attach` places
    /// its bones.
    pub fn step_walkers<
        S: Copy,
        F: Fn(Motion) -> u32,
        H: Fn(u32) -> i64,
        N: Fn(Character) -> S,
        A: Fn(Hang<S>) -> Placement,
    >(&mut self, eval: &F, half: &H, animate: &N, attach: &A)
        requires
            old(self).wf(),
            steady(*eval),
            counts_halves(*half),
            steady(*animate),
            steady(*attach),
            forall|i: int|
                0 <= i < old(self).walkers@.len() ==> (#[trigger] old(
                    self,
                ).walkers@[i]).character.footfalls <= 0x7FFF_FFFF_FFFF_FFFF,
        ensures
            final(self).wf(),
            old(self).paused ==> *final(self) == *old(self),
            final(self).walkers@.len() == old(self).walkers@.len(),
            !old(self).paused ==> forall|i: int|
                0 <= i < old(self).walkers@.len() ==> ticked(
                    old(self).skeleton@,
                    old(self).walkers@[i],
                    *eval,
                    *half,
                    *animate,
                    *attach,
                    #[trigger] final(self).walkers@[i],
                ),
            final(self).segments == old(self).segments,
            final(self).skeleton == old(self).skeleton,
            final(self).alpha == old(self).alpha,
            final(self).paused == old(self).paused,
    {
        if self.paused {
            return;
        }
        let n: usize = self.walkers.len();
        let ghost before = *self;
        let mut i: usize = 0;
        while i < n
            invariant
                i <= n,
                n == self.walkers@.len(),
                n == before.walkers@.len(),
                steady(*eval),
                counts_halves(*half),
                steady(*animate),
                steady(*attach),
                before.wf(),
                *self == (Movement { walkers: self.walkers, ..before }),
                forall|k: int|
                    0 <= k < n ==> (#[trigger] before.walkers@[k]).character.footfalls
                        <= 0x7FFF_FFFF_FFFF_FFFF,
                forall|k: int|
                    0 <= k < i ==> ticked(
                        before.skeleton@,
                        before.walkers@[k],
                        *eval,
                        *half,
                        *animate,
                        *attach,
                        #[trigger] self.walkers@[k],
                    ) && self.walkers@[k].fits(before.skeleton@),
                forall|k: int| i <= k < n ==> #[trigger] self.walkers@[k] == before.walkers@[k],
            decreases n - i,
        {
            self.walkers[i].tick(&self.skeleton, eval, half, animate, attach);
            i = i + 1;
        }
    }

    /// Sample the mirror without advancing: every bone lies between the
    /// last two poses of its walker. A bone without a walker stays.
    pub fn sync_bones<X: Fn((Vec3, Vec3, u32)) -> Vec3>(&mut self, mix: &X)
        requires
            old(self).wf(),
            steady(*mix),
        ensures
            final(self).wf(),
            final(self).segments@.len() == old(self).segments@.len(),
            forall|k: int|
                0 <= k < old(self).segments@.len() ==> #[trigger] final(self).segments@[k] == {
                    let s = old(self).segments@[k];
                    if s.walker < old(self).walkers@.len() {
                        mirrored(
                            s,
                            old(self).walkers@[s.walker as int],
                            clamped(old(self).alpha, 0, CURRENT),
                            *mix,
                        )
                    } else {
                        s
                    }
                },
            final(self).walkers == old(self).walkers,
            final(self).skeleton == old(self).skeleton,
            final(self).alpha == old(self).alpha,
            final(self).paused == old(self).paused,
    {
        let alpha: u32 = clamp(self.alpha, 0, CURRENT);
        let n: usize = self.segments.len();
        let ghost before = *self;
        let mut k: usize = 0;
        while k < n
            invariant
                k <= n,
                n == self.segments@.len(),
                n == before.segments@.len(),
                steady(*mix),
                before.wf(),
                alpha == clamped(before.alpha, 0, CURRENT),
                *self == (Movement { segments: self.segments, ..before }),
                forall|j: int|
                    0 <= j < k ==> #[trigger] self.segments@[j] == {
                        let s = before.segments@[j];
                        if s.walker < before.walkers@.len() {
                            mirrored(s, before.walkers@[s.walker as int], alpha, *mix)
                        } else {
                            s
                        }
                    },
                forall|j: int| k <= j < n ==> #[trigger] self.segments@[j] == before.segments@[j],
            decreases n - k,
        {
            let s = self.segments[k];
            proof {
                assert(before.segments@[k as int].bone < before.skeleton@.len());
            }
            if s.walker < self.walkers.len() {
                let b: usize = s.bone as usize;
                let w = &self.walkers[s.walker];
                proof {
                    assert(before.walkers@[s.walker as int].fits(before.skeleton@));
                }
                let a = (*mix)((w.prev.start[b], w.curr.start[b], alpha));
                let tip = (*mix)((w.prev.tip[b], w.curr.tip[b], alpha));
                self.segments.set(
                    k,
                    BoneSegment { walker: s.walker, bone: s.bone, a, b: tip, width: s.width },
                );
            }
            k = k + 1;
        }
    }

    /// The walkers' ids and pose digests.
    pub open spec fn digests(&self) -> Seq<(u32, u64)> {
        self.walkers@.map_values(
            |w: Walker| (w.id, bones_digest(w.curr.bones())),
        )
    }

    /// The digest of all current poses.
    pub fn state_checksum(&self) -> (r: u64)
        requires
            self.wf(),
        ensures
            r == mixed_sum(self.digests()) % 0x1_0000_0000_0000_0000,
    {
        let mut pairs: Vec<(u32, u64)> = Vec::with_capacity(self.walkers.len());
        let mut i: usize = 0;
        while i < self.walkers.len()
            invariant
                i <= self.walkers@.len(),
                self.wf(),
                pairs@ == self.digests().take(i as int),
            decreases self.walkers@.len() - i,
        {
            proof {
                assert(self.walkers@[i as int].fits(self.skeleton@));
            }
            pairs.push((self.walkers[i].id, self.walkers[i].curr.checksum()));
            i = i + 1;
            proof {
                assert(pairs@ =~= self.digests().take(i as int));
            }
        }
        proof {
            assert(self.digests().take(i as int) =~= self.digests());
        }
        state_checksum(&pairs)
    }

    /// The walkers' heel strikes.
    pub open spec fn strikes(&self) -> Seq<u64> {
        self.walkers@.map_values(|w: Walker| w.character.footfalls)
    }

    /// Heel strikes landed so far by all walkers.
    pub fn total_footfalls(&self) -> (r: u64)
        requires
            footfall_sum(self.strikes()) <= u64::MAX,
        ensures
            r == footfall_sum(self.strikes()),
    {
        let mut counts: Vec<u64> = Vec::with_capacity(self.walkers.len());
        let mut i: usize = 0;
        while i < self.walkers.len()
            invariant
                i <= self.walkers@.len(),
                counts@ == self.strikes().take(i as int),
            decreases self.walkers@.len() - i,
        {
            counts.push(self.walkers[i].character.footfalls);
            i = i + 1;
            proof {
                assert(counts@ =~= self.strikes().take(i as int));
            }
        }
        proof {
            assert(self.strikes().take(i as int) =~= self.strikes());
        }
        total_footfalls(&counts)
    }
}

/// A tick is determined by the walker before it: two runs from one state
/// agree on the character and on every joint and tip.
pub proof fn lemma_ticks_are_determined<
    S,
    F: Fn(Motion) -> u32,
    H: Fn(u32) -> i64,
    N: Fn(Character) -> S,
    A: Fn(Hang<S>) -> Placement,
>(
    bones: Seq<Bone>,
    w: Walker,
    eval: F,
    half: H,
    animate: N,
    attach: A,
    a: Walker,
    b: Walker,
)
    requires
        ticked(bones, w, eval, half, animate, attach, a),
        ticked(bones, w, eval, half, animate, attach, b),
    ensures
        a.character == b.character,
        a.prev == b.prev,
        a.curr.start@ == b.curr.start@,
        a.curr.tip@ == b.curr.tip@,
{
}

/// The mirror is exact at its ends: with a mix that gives its first end
/// at zero and its second at one, an alpha of one or more shows the
/// current tick and an alpha of zero or less the tick before.
pub proof fn lemma_mirror_is_exact_at_the_ends<X: Fn((Vec3, Vec3, u32)) -> Vec3>(
    s: BoneSegment,
    w: Walker,
    alpha: u32,
    mix: X,
)
    requires
        forall|a: Vec3, b: Vec3| #[trigger] value(mix, (a, b, 0u32)) == a,
        forall|a: Vec3, b: Vec3| #[trigger] value(mix, (a, b, CURRENT)) == b,
    ensures
        crate::bits::f32_ge_spec(alpha, CURRENT) ==> {
            let m = mirrored(s, w, clamped(alpha, 0, CURRENT), mix);
            m.a == w.curr.start@[s.bone as int] && m.b == w.curr.tip@[s.bone as int]
        },
        crate::bits::f32_lt_spec(alpha, 0) || alpha == 0 ==> {
            let m = mirrored(s, w, clamped(alpha, 0, CURRENT), mix);
            m.a == w.prev.start@[s.bone as int] && m.b == w.prev.tip@[s.bone as int]
        },
{
}

} // verus!
