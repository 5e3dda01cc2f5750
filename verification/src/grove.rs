//! A living grove: the clock, the trees with their reused poses, and the
//! mirror of their branches that a renderer reads.
use vstd::prelude::*;
use crate::tree::{Joint, Node, Segment, Tree, TreePose, PARENT_NONE, UPRIGHT};
use crate::tree_gallery::grove_checksum;

verus! {

use crate::digest::{fold_words, FNV_OFFSET};
use crate::eval::{steady, value};
use crate::tree::{posed, poses, Posed};
use crate::tree_gallery::pose_digests;

/// The mirror of one branch. It names its tree and its node, so the order
/// in which mirrors are visited does not matter.
#[derive(Debug, Clone, Copy, PartialEq, Eq, Structural)]
pub struct BranchSegment {
    pub tree: u32,
    pub node: u32,
    pub x0: u32,
    pub y0: u32,
    pub x1: u32,
    pub y1: u32,
    pub width: u32,
}

/// A branch to place under some wind: the branch, and the joint it grows
/// from.
pub type Swing<G> = (G, Node, Joint);

/// Branch `k` under some wind, placed from the ground up.
pub open spec fn posed_at<G, F: Fn(Swing<G>) -> Segment>(
    nodes: Seq<Node>,
    root: (u32, u32),
    wind: G,
    swing: F,
    k: int,
) -> Posed
    decreases k,
{
    let up = nodes[k].parent;
    let joint = if up != PARENT_NONE && up < k {
        let p = posed_at(nodes, root, wind, swing, up as int);
        Joint { x: p.seg.tip_x, y: p.seg.tip_y, angle: p.seg.angle }
    } else {
        Joint { x: root.0, y: root.1, angle: UPRIGHT }
    };
    Posed { start_x: joint.x, start_y: joint.y, seg: value(swing, (wind, nodes[k], joint)) }
}

/// A tree's pose under some wind.
pub open spec fn pose_at<G, F: Fn(Swing<G>) -> Segment>(tree: Tree, wind: G, swing: F) -> Seq<
    Posed,
> {
    Seq::new(tree@.len(), |k: int| posed_at(tree@, tree.root(), wind, swing, k))
}

/// A mirror of a pose's branch.
pub open spec fn mirrored(s: BranchSegment, pose: Seq<Posed>) -> BranchSegment {
    let p = pose[s.node as int];
    BranchSegment {
        x0: p.start_x,
        y0: p.start_y,
        x1: p.seg.tip_x,
        y1: p.seg.tip_y,
        width: p.seg.width,
        ..s
    }
}

/// The unset mirrors of one tree.
pub open spec fn blank(tree: int, nodes: nat) -> Seq<BranchSegment> {
    Seq::new(
        nodes,
        |k: int|
            BranchSegment { tree: tree as u32, node: k as u32, x0: 0, y0: 0, x1: 0, y1: 0, width: 0 },
    )
}

/// The unset mirrors of the first `n` trees.
pub open spec fn blanks(trees: Seq<Tree>, n: int) -> Seq<BranchSegment>
    decreases n,
{
    if n <= 0 {
        Seq::empty()
    } else {
        blanks(trees, n - 1) + blank(n - 1, trees[n - 1]@.len())
    }
}

proof fn lemma_posed_at<G, P: Fn(Node, Joint) -> Segment, F: Fn(Swing<G>) -> Segment>(
    tree: Tree,
    wind: G,
    place: P,
    swing: F,
    pose: Seq<Posed>,
    k: int,
)
    requires
        tree.wf(),
        poses(tree@, tree.root(), place, pose),
        forall|n: Node, j: Joint, s: Segment|
            #[trigger] call_ensures(place, (n, j), s) ==> s == value(swing, (wind, n, j)),
        0 <= k < tree@.len(),
    ensures
        pose[k] == posed_at(tree@, tree.root(), wind, swing, k),
    decreases k,
{
    crate::tree::lemma_parents_precede(tree, k);
    if tree@[k].parent != PARENT_NONE {
        lemma_posed_at(tree, wind, place, swing, pose, tree@[k].parent as int);
    }
    assert(posed(tree@, tree.root(), place, pose, k));
}

/// Pose a tree under some wind.
pub fn pose_tree<G: Copy, F: Fn(Swing<G>) -> Segment>(
    tree: &Tree,
    pose: &mut TreePose,
    wind: G,
    swing: &F,
)
    requires
        tree.wf(),
        old(pose).wf(),
        old(pose)@.len() == tree@.len(),
        steady(*swing),
    ensures
        final(pose).wf(),
        final(pose)@ == pose_at(*tree, wind, *swing),
{
    let place = |n: Node, j: Joint| -> (s: Segment)
        ensures
            s == value(*swing, (wind, n, j)),
        { (*swing)((wind, n, j)) };
    tree.pose_into(pose, &place);
    proof {
        assert forall|i: int| 0 <= i < tree@.len() implies pose@[i] == posed_at(
            tree@,
            tree.root(),
            wind,
            *swing,
            i,
        ) by {
            lemma_posed_at(*tree, wind, place, *swing, pose@, i);
        }
        assert(pose@ =~= pose_at(*tree, wind, *swing));
    }
}

/// The grove.
pub struct GroveState {
    pub trees: Vec<Tree>,
    /// Reused pose buffers, one per tree.
    pub poses: Vec<TreePose>,
    pub segments: Vec<BranchSegment>,
    /// Seconds since the start.
    pub t: u32,
}

impl GroveState {
    /// Every pose fits its tree, and every mirror names a branch.
    pub open spec fn wf(&self) -> bool {
        &&& self.poses@.len() == self.trees@.len()
        &&& forall|k: int| 0 <= k < self.trees@.len() ==> (#[trigger] self.trees@[k]).wf()
        &&& forall|k: int|
            0 <= k < self.poses@.len() ==> (#[trigger] self.poses@[k]).wf()
                && self.poses@[k]@.len() == self.trees@[k]@.len()
        &&& forall|i: int|
            0 <= i < self.segments@.len() ==> self.names_a_branch(#[trigger] self.segments@[i])
    }

    /// The mirror names a branch of the grove.
    pub open spec fn names_a_branch(&self, s: BranchSegment) -> bool {
        s.tree < self.trees@.len() && s.node < self.trees@[s.tree as int]@.len()
    }

    /// A grove at rest: an unset mirror for every branch of every tree.
    pub fn new(trees: Vec<Tree>, poses: Vec<TreePose>) -> (r: GroveState)
        requires
            poses@.len() == trees@.len(),
            trees@.len() <= u32::MAX,
            forall|k: int|
                0 <= k < trees@.len() ==> (#[trigger] trees@[k]).wf() && trees@[k]@.len()
                    <= u32::MAX,
            forall|k: int|
                0 <= k < poses@.len() ==> (#[trigger] poses@[k]).wf() && poses@[k]@.len()
                    == trees@[k]@.len(),
        ensures
            r.wf(),
            r.trees == trees,
            r.poses == poses,
            r.segments@ == blanks(trees@, trees@.len() as int),
            r.t == 0,
    {
        let mut segments: Vec<BranchSegment> = Vec::new();
        let mut k: usize = 0;
        while k < trees.len()
            invariant
                k <= trees@.len(),
                trees@.len() <= u32::MAX,
                forall|k: int|
                    0 <= k < trees@.len() ==> (#[trigger] trees@[k]).wf() && trees@[k]@.len()
                        <= u32::MAX,
                segments@ == blanks(trees@, k as int),
                forall|i: int|
                    0 <= i < segments@.len() ==> (#[trigger] segments@[i]).tree < trees@.len()
                        && segments@[i].node < trees@[segments@[i].tree as int]@.len(),
            decreases trees@.len() - k,
        {
            let n: usize = trees[k].node_count();
            let ghost before = segments@;
            let mut node: usize = 0;
            while node < n
                invariant
                    node <= n,
                    k < trees@.len(),
                    trees@.len() <= u32::MAX,
                    n == trees@[k as int]@.len(),
                    n <= u32::MAX,
                    segments@ == before + blank(k as int, node as nat),
                    forall|i: int|
                        0 <= i < segments@.len() ==> (#[trigger] segments@[i]).tree < trees@.len()
                            && segments@[i].node < trees@[segments@[i].tree as int]@.len(),
                decreases n - node,
            {
                segments.push(
                    BranchSegment {
                        tree: k as u32,
                        node: node as u32,
                        x0: 0,
                        y0: 0,
                        x1: 0,
                        y1: 0,
                        width: 0,
                    },
                );
                node = node + 1;
                proof {
                    assert(segments@ =~= before + blank(k as int, node as nat));
                }
            }
            k = k + 1;
        }
        GroveState { trees, poses, segments, t: 0 }
    }

    /// One tick: the clock moves on, and every tree is posed anew. `next`
    /// is the clock one step on, `blow` the wind at a time, and `swing`
    /// places a branch under a wind.
    pub fn step_trees<G: Copy, C: Fn(u32) -> u32, B: Fn(u32) -> G, F: Fn(Swing<G>) -> Segment>(
        &mut self,
        next: &C,
        blow: &B,
        swing: &F,
    )
        requires
            old(self).wf(),
            steady(*next),
            steady(*blow),
            steady(*swing),
        ensures
            final(self).wf(),
            final(self).t == value(*next, old(self).t),
            final(self).trees == old(self).trees,
            final(self).segments == old(self).segments,
            final(self).poses@.len() == old(self).poses@.len(),
            forall|k: int|
                0 <= k < old(self).trees@.len() ==> (#[trigger] final(self).poses@[k])@ == pose_at(
                    old(self).trees@[k],
                    value(*blow, final(self).t),
                    *swing,
                ),
    {
        self.t = (*next)(self.t);
        let wind: G = (*blow)(self.t);
        let ghost before = *self;
        let mut k: usize = 0;
        while k < self.trees.len()
            invariant
                k <= self.trees@.len(),
                steady(*swing),
                before.wf(),
                *self == (GroveState { poses: self.poses, ..before }),
                self.poses@.len() == before.poses@.len(),
                forall|i: int|
                    0 <= i < self.poses@.len() ==> (#[trigger] self.poses@[i]).wf()
                        && self.poses@[i]@.len() == before.trees@[i]@.len(),
                forall|i: int|
                    0 <= i < k ==> (#[trigger] self.poses@[i])@ == pose_at(
                        before.trees@[i],
                        wind,
                        *swing,
                    ),
            decreases self.trees@.len() - k,
        {
            proof {
                assert(before.trees@[k as int].wf());
                assert(self.poses@[k as int].wf());
            }
            pose_tree(&self.trees[k], &mut self.poses[k], wind, swing);
            k = k + 1;
        }
    }

    /// Every mirror reads its own branch of the current poses.
    pub fn sync_segments(&mut self)
        requires
            old(self).wf(),
        ensures
            final(self).wf(),
            final(self).trees == old(self).trees,
            final(self).poses == old(self).poses,
            final(self).t == old(self).t,
            final(self).segments@ == old(self).segments@.map_values(
                |s: BranchSegment| mirrored(s, old(self).poses@[s.tree as int]@),
            ),
    {
        let n: usize = self.segments.len();
        let ghost before = *self;
        let mut i: usize = 0;
        while i < n
            invariant
                i <= n,
                n == before.segments@.len(),
                n == self.segments@.len(),
                before.wf(),
                *self == (GroveState { segments: self.segments, ..before }),
                forall|j: int|
                    0 <= j < i ==> #[trigger] self.segments@[j] == mirrored(
                        before.segments@[j],
                        before.poses@[before.segments@[j].tree as int]@,
                    ),
                forall|j: int| i <= j < n ==> #[trigger] self.segments@[j] == before.segments@[j],
            decreases n - i,
        {
            let s = self.segments[i];
            proof {
                assert(before.names_a_branch(before.segments@[i as int]));
                assert(before.poses@[s.tree as int].wf());
            }
            let k: usize = s.node as usize;
            let pose = &self.poses[s.tree as usize];
            let set = BranchSegment {
                tree: s.tree,
                node: s.node,
                x0: pose.start_x[k],
                y0: pose.start_y[k],
                x1: pose.tip_x[k],
                y1: pose.tip_y[k],
                width: pose.width[k],
            };
            self.segments.set(i, set);
            i = i + 1;
        }
        proof {
            assert forall|j: int| 0 <= j < n implies before.names_a_branch(
                #[trigger] self.segments@[j],
            ) by {
                assert(before.names_a_branch(before.segments@[j]));
            }
            assert(self.segments@ =~= before.segments@.map_values(
                |s: BranchSegment| mirrored(s, before.poses@[s.tree as int]@),
            ));
        }
    }

    /// The digest of the current poses.
    pub fn checksum(&self) -> (r: u64)
        requires
            self.wf(),
        ensures
            r == fold_words(FNV_OFFSET, pose_digests(self.poses@)),
    {
        grove_checksum(&self.poses)
    }
}

} // verus!
