//! Interpolated playback of a grove: the poses of the last two ticks, and
//! a scratch pose between them for the frame being shown.
use vstd::prelude::*;
use crate::grove::{pose_tree, Swing};
use crate::tree::{Segment, Tree, TreePose};

verus! {

use crate::eval::{steady, value};
use crate::grove::pose_at;
use crate::tree::{fresh, Posed};

/// Numbers between two others, one by one.
pub open spec fn mixed<X: Fn((u32, u32, u32)) -> u32>(
    p: Seq<u32>,
    c: Seq<u32>,
    alpha: u32,
    mix: X,
) -> Seq<u32> {
    Seq::new(p.len(), |k: int| value(mix, (p[k], c[k], alpha)))
}

/// A pose between two others.
pub open spec fn lerped<X: Fn((u32, u32, u32)) -> u32>(
    p: TreePose,
    c: TreePose,
    alpha: u32,
    mix: X,
    out: TreePose,
) -> bool {
    &&& out.angle@ == mixed(p.angle@, c.angle@, alpha, mix)
    &&& out.start_x@ == mixed(p.start_x@, c.start_x@, alpha, mix)
    &&& out.start_y@ == mixed(p.start_y@, c.start_y@, alpha, mix)
    &&& out.tip_x@ == mixed(p.tip_x@, c.tip_x@, alpha, mix)
    &&& out.tip_y@ == mixed(p.tip_y@, c.tip_y@, alpha, mix)
    &&& out.width@ == mixed(p.width@, c.width@, alpha, mix)
}

/// Two poses of one size.
pub open spec fn alike(a: TreePose, b: TreePose) -> bool {
    a.wf() && b.wf() && a@.len() == b@.len()
}

fn mix_into<X: Fn((u32, u32, u32)) -> u32>(
    p: &Vec<u32>,
    c: &Vec<u32>,
    alpha: u32,
    mix: &X,
    out: &mut Vec<u32>,
)
    requires
        p@.len() == c@.len(),
        old(out)@.len() == p@.len(),
        steady(*mix),
    ensures
        final(out)@ == mixed(p@, c@, alpha, *mix),
{
    let mut k: usize = 0;
    while k < p.len()
        invariant
            k <= p@.len(),
            p@.len() == c@.len(),
            out@.len() == p@.len(),
            steady(*mix),
            forall|i: int|
                0 <= i < k ==> #[trigger] out@[i] == value(*mix, (p@[i], c@[i], alpha)),
        decreases p@.len() - k,
    {
        let v: u32 = (*mix)((p[k], c[k], alpha));
        out.set(k, v);
        k = k + 1;
    }
    proof {
        assert(out@ =~= mixed(p@, c@, alpha, *mix));
    }
}

/// Write the pose between two others into a reused buffer. `mix` gives
/// the number between two at a fraction.
pub fn lerp_pose<X: Fn((u32, u32, u32)) -> u32>(
    prev: &TreePose,
    curr: &TreePose,
    alpha: u32,
    mix: &X,
    out: &mut TreePose,
)
    requires
        alike(*prev, *curr),
        alike(*prev, *old(out)),
        steady(*mix),
    ensures
        alike(*prev, *final(out)),
        lerped(*prev, *curr, alpha, *mix, *final(out)),
{
    mix_into(&prev.angle, &curr.angle, alpha, mix, &mut out.angle);
    mix_into(&prev.start_x, &curr.start_x, alpha, mix, &mut out.start_x);
    mix_into(&prev.start_y, &curr.start_y, alpha, mix, &mut out.start_y);
    mix_into(&prev.tip_x, &curr.tip_x, alpha, mix, &mut out.tip_x);
    mix_into(&prev.tip_y, &curr.tip_y, alpha, mix, &mut out.tip_y);
    mix_into(&prev.width, &curr.width, alpha, mix, &mut out.width);
}

fn copy_numbers(src: &Vec<u32>, dst: &mut Vec<u32>)
    requires
        old(dst)@.len() == src@.len(),
    ensures
        final(dst)@ == src@,
{
    let mut k: usize = 0;
    while k < src.len()
        invariant
            k <= src@.len(),
            dst@.len() == src@.len(),
            forall|i: int| 0 <= i < k ==> #[trigger] dst@[i] == src@[i],
        decreases src@.len() - k,
    {
        dst.set(k, src[k]);
        k = k + 1;
    }
    proof {
        assert(dst@ =~= src@);
    }
}

/// Copy a pose over another of its size.
pub fn copy_pose(src: &TreePose, dst: &mut TreePose)
    requires
        alike(*src, *old(dst)),
    ensures
        alike(*src, *final(dst)),
        final(dst)@ == src@,
{
    copy_numbers(&src.angle, &mut dst.angle);
    copy_numbers(&src.start_x, &mut dst.start_x);
    copy_numbers(&src.start_y, &mut dst.start_y);
    copy_numbers(&src.tip_x, &mut dst.tip_x);
    copy_numbers(&src.tip_y, &mut dst.tip_y);
    copy_numbers(&src.width, &mut dst.width);
    proof {
        assert(dst@ =~= src@);
    }
}

/// The trees of a playground with the poses of the last two ticks.
pub struct Playback {
    pub trees: Vec<Tree>,
    /// Poses at the tick before.
    pub prev: Vec<TreePose>,
    /// Poses at the latest tick.
    pub curr: Vec<TreePose>,
    /// Poses of the frame being shown.
    pub scratch: Vec<TreePose>,
}

/// One buffer for every tree, of its size.
pub open spec fn serves(buffers: Seq<TreePose>, trees: Seq<Tree>) -> bool {
    &&& buffers.len() == trees.len()
    &&& forall|k: int|
        0 <= k < trees.len() ==> (#[trigger] buffers[k]).wf() && buffers[k]@.len()
            == trees[k]@.len()
}

/// Every tree posed under some wind.
pub open spec fn all_posed<G, F: Fn(Swing<G>) -> Segment>(
    trees: Seq<Tree>,
    buffers: Seq<TreePose>,
    wind: G,
    swing: F,
) -> bool {
    forall|k: int|
        0 <= k < trees.len() ==> (#[trigger] buffers[k])@ == pose_at(trees[k], wind, swing)
}

/// The contents of some poses.
pub open spec fn contents(buffers: Seq<TreePose>) -> Seq<Seq<Posed>> {
    buffers.map_values(|p: TreePose| p@)
}

/// One zeroed buffer for every tree.
pub open spec fn all_fresh(buffers: Seq<TreePose>, trees: Seq<Tree>) -> bool {
    &&& buffers.len() == trees.len()
    &&& forall|k: int| 0 <= k < trees.len() ==> fresh(#[trigger] buffers[k], trees[k])
}

fn buffers_for(trees: &Vec<Tree>) -> (r: Vec<TreePose>)
    requires
        forall|k: int| 0 <= k < trees@.len() ==> (#[trigger] trees@[k]).wf(),
    ensures
        serves(r@, trees@),
        all_fresh(r@, trees@),
{
    let mut out: Vec<TreePose> = Vec::with_capacity(trees.len());
    let mut k: usize = 0;
    while k < trees.len()
        invariant
            k <= trees@.len(),
            out@.len() == k,
            forall|i: int| 0 <= i < trees@.len() ==> (#[trigger] trees@[i]).wf(),
            forall|i: int|
                0 <= i < k ==> fresh(#[trigger] out@[i], trees@[i]),
        decreases trees@.len() - k,
    {
        out.push(TreePose::new(&trees[k]));
        k = k + 1;
    }
    out
}

impl Playback {
    /// Every buffer serves the trees.
    pub open spec fn wf(&self) -> bool {
        &&& forall|k: int| 0 <= k < self.trees@.len() ==> (#[trigger] self.trees@[k]).wf()
        &&& serves(self.prev@, self.trees@)
        &&& serves(self.curr@, self.trees@)
        &&& serves(self.scratch@, self.trees@)
    }

    /// Buffers for some trees.
    pub fn new(trees: Vec<Tree>) -> (r: Playback)
        requires
            forall|k: int| 0 <= k < trees@.len() ==> (#[trigger] trees@[k]).wf(),
        ensures
            r.wf(),
            r.trees == trees,
            all_fresh(r.prev@, trees@),
            all_fresh(r.curr@, trees@),
            all_fresh(r.scratch@, trees@),
    {
        let prev = buffers_for(&trees);
        let curr = buffers_for(&trees);
        let scratch = buffers_for(&trees);
        Playback { trees, prev, curr, scratch }
    }

    /// Pose both ticks alike, so nothing is left to interpolate: after a
    /// regeneration, a jump of the clock, or a pause.
    pub fn repose<G: Copy, F: Fn(Swing<G>) -> Segment>(&mut self, wind: G, swing: &F)
        requires
            old(self).wf(),
            steady(*swing),
        ensures
            final(self).wf(),
            final(self).trees == old(self).trees,
            final(self).scratch == old(self).scratch,
            all_posed(old(self).trees@, final(self).curr@, wind, *swing),
            contents(final(self).prev@) == contents(final(self).curr@),
    {
        let n: usize = self.trees.len();
        let ghost before = *self;
        let mut k: usize = 0;
        while k < n
            invariant
                k <= n,
                n == before.trees@.len(),
                before.wf(),
                steady(*swing),
                *self == (Playback { prev: self.prev, curr: self.curr, ..before }),
                serves(self.prev@, before.trees@),
                serves(self.curr@, before.trees@),
                forall|i: int|
                    0 <= i < k ==> (#[trigger] self.curr@[i])@ == pose_at(
                        before.trees@[i],
                        wind,
                        *swing,
                    ),
                forall|i: int| 0 <= i < k ==> (#[trigger] self.prev@[i])@ == self.curr@[i]@,
            decreases n - k,
        {
            proof {
                assert(before.trees@[k as int].wf());
                assert(self.curr@[k as int].wf());
                assert(self.prev@[k as int].wf());
            }
            pose_tree(&self.trees[k], &mut self.curr[k], wind, swing);
            copy_pose(&self.curr[k], &mut self.prev[k]);
            k = k + 1;
        }
        proof {
            assert(contents(self.prev@) =~= contents(self.curr@));
        }
    }

    /// One tick: the latest poses become those of the tick before, and
    /// every tree is posed anew.
    pub fn step<G: Copy, F: Fn(Swing<G>) -> Segment>(&mut self, wind: G, swing: &F)
        requires
            old(self).wf(),
            steady(*swing),
        ensures
            final(self).wf(),
            final(self).trees == old(self).trees,
            final(self).scratch == old(self).scratch,
            final(self).prev@ == old(self).curr@,
            all_posed(old(self).trees@, final(self).curr@, wind, *swing),
    {
        std::mem::swap(&mut self.prev, &mut self.curr);
        let n: usize = self.trees.len();
        let ghost before = *self;
        let mut k: usize = 0;
        while k < n
            invariant
                k <= n,
                n == before.trees@.len(),
                before.wf(),
                steady(*swing),
                *self == (Playback { curr: self.curr, ..before }),
                serves(self.curr@, before.trees@),
                forall|i: int|
                    0 <= i < k ==> (#[trigger] self.curr@[i])@ == pose_at(
                        before.trees@[i],
                        wind,
                        *swing,
                    ),
            decreases n - k,
        {
            proof {
                assert(before.trees@[k as int].wf());
                assert(self.curr@[k as int].wf());
            }
            pose_tree(&self.trees[k], &mut self.curr[k], wind, swing);
            k = k + 1;
        }
    }

    /// Sample the frame being shown, without advancing: every tree lies
    /// between its last two poses.
    pub fn show<X: Fn((u32, u32, u32)) -> u32>(&mut self, alpha: u32, mix: &X)
        requires
            old(self).wf(),
            steady(*mix),
        ensures
            final(self).wf(),
            final(self).trees == old(self).trees,
            final(self).prev == old(self).prev,
            final(self).curr == old(self).curr,
            forall|k: int|
                0 <= k < old(self).trees@.len() ==> lerped(
                    old(self).prev@[k],
                    old(self).curr@[k],
                    alpha,
                    *mix,
                    #[trigger] final(self).scratch@[k],
                ),
    {
        let n: usize = self.trees.len();
        let ghost before = *self;
        let mut k: usize = 0;
        while k < n
            invariant
                k <= n,
                n == before.trees@.len(),
                before.wf(),
                steady(*mix),
                *self == (Playback { scratch: self.scratch, ..before }),
                serves(self.scratch@, before.trees@),
                forall|i: int|
                    0 <= i < k ==> lerped(
                        before.prev@[i],
                        before.curr@[i],
                        alpha,
                        *mix,
                        #[trigger] self.scratch@[i],
                    ),
            decreases n - k,
        {
            proof {
                assert(before.prev@[k as int].wf());
                assert(before.curr@[k as int].wf());
                assert(self.scratch@[k as int].wf());
            }
            lerp_pose(&self.prev[k], &self.curr[k], alpha, mix, &mut self.scratch[k]);
            k = k + 1;
        }
    }
}

/// Interpolation hits its ends: with a mix that gives its first number at
/// one fraction and its second at another, those fractions show exactly
/// the tick before and the latest tick.
pub proof fn lemma_playback_hits_its_ends<X: Fn((u32, u32, u32)) -> u32>(
    prev: TreePose,
    curr: TreePose,
    start: u32,
    end: u32,
    mix: X,
    first: TreePose,
    last: TreePose,
)
    requires
        alike(prev, curr),
        forall|a: u32, b: u32| #[trigger] value(mix, (a, b, start)) == a,
        forall|a: u32, b: u32| #[trigger] value(mix, (a, b, end)) == b,
        lerped(prev, curr, start, mix, first),
        lerped(prev, curr, end, mix, last),
    ensures
        first@ == prev@,
        last@ == curr@,
{
    assert(first@ =~= prev@);
    assert(last@ =~= curr@);
}

} // verus!
