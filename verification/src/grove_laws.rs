//! What a grove and its playback promise: every pose hangs together, every
//! branch of every tree has one mirror that follows it, frames lie between
//! two ticks branch by branch, and a scene's totals are those of its
//! trees.
use vstd::prelude::*;

verus! {

use crate::bits::{f32_ge_spec, f32_is_nan, f32_lt_spec};
use crate::digest::{fold_words, lemma_one_word_moves_the_digest, quads_digest, FNV_OFFSET};
use crate::eval::value;
use crate::grove::{blanks, mirrored, pose_at, posed_at, BranchSegment, Swing};
use crate::playback::{alike, lerped};
use crate::tree::{generated, last_grown, leaves_among, Joint, Posed, Rule, Segment, Tree, TreePose};
use crate::tree_gallery::{
    builds, leaf_sum, node_sum, pose_digests, preset_of, scene_grown, BuiltScene, Scene,
};

/// A posed tree hangs together: the trunk stands upright on the ground
/// point, every other branch starts at the tip of its parent and swings
/// about its direction, all in the same wind.
pub proof fn lemma_groves_hang_together<G, F: Fn(Swing<G>) -> Segment>(
    tree: Tree,
    wind: G,
    swing: F,
    k: int,
)
    requires
        tree.wf(),
        0 <= k < tree@.len(),
    ensures
        ({
            let pose = pose_at(tree, wind, swing);
            let node = tree@[k];
            &&& pose.len() == tree@.len()
            &&& node.parent == 0xFFFF_FFFF ==> pose[k].start_x == tree.root().0 && pose[k].start_y
                == tree.root().1 && pose[k].seg == value(
                swing,
                (wind, node, Joint { x: tree.root().0, y: tree.root().1, angle: 0x3FC9_0FDB }),
            )
            &&& node.parent != 0xFFFF_FFFF ==> {
                let up = pose[node.parent as int].seg;
                &&& node.parent < k
                &&& pose[k].start_x == up.tip_x
                &&& pose[k].start_y == up.tip_y
                &&& pose[k].seg == value(
                    swing,
                    (wind, node, Joint { x: up.tip_x, y: up.tip_y, angle: up.angle }),
                )
            }
        }),
{
    crate::tree::lemma_parents_precede(tree, k);
    let up = tree@[k].parent;
    if up != 0xFFFF_FFFF {
        assert(pose_at(tree, wind, swing)[up as int] == posed_at(
            tree@,
            tree.root(),
            wind,
            swing,
            up as int,
        ));
    }
}

/// The branches before a tree's own.
pub open spec fn branches_before(trees: Seq<Tree>, t: int) -> int
    decreases t,
{
    if t <= 0 {
        0
    } else {
        branches_before(trees, t - 1) + trees[t - 1]@.len()
    }
}

proof fn lemma_blanks_len(trees: Seq<Tree>, n: int)
    ensures
        blanks(trees, n).len() == branches_before(trees, n),
    decreases n,
{
    if n > 0 {
        lemma_blanks_len(trees, n - 1);
    }
}

/// Every branch of every tree has one mirror, tree by tree and branch by
/// branch, that names both and lies at nothing.
pub proof fn lemma_every_branch_has_a_mirror(trees: Seq<Tree>, n: int, t: int, k: int)
    requires
        0 <= t < n <= trees.len(),
        n <= u32::MAX,
        0 <= k < trees[t]@.len() <= u32::MAX,
    ensures
        blanks(trees, n).len() == branches_before(trees, n),
        0 <= branches_before(trees, t) + k < blanks(trees, n).len(),
        blanks(trees, n)[branches_before(trees, t) + k] == (BranchSegment {
            tree: t as u32,
            node: k as u32,
            x0: 0,
            y0: 0,
            x1: 0,
            y1: 0,
            width: 0,
        }),
    decreases n,
{
    lemma_blanks_len(trees, n);
    lemma_blanks_len(trees, n - 1);
    lemma_blanks_len(trees, t);
    if t < n - 1 {
        lemma_every_branch_has_a_mirror(trees, n - 1, t, k);
    }
}

/// A mirror follows its own branch from its start to its tip, with its
/// width, and goes on naming it.
pub proof fn lemma_mirrors_follow_their_branch(s: BranchSegment, pose: Seq<Posed>)
    ensures
        ({
            let m = mirrored(s, pose);
            let p = pose[s.node as int];
            &&& m.tree == s.tree
            &&& m.node == s.node
            &&& m.x0 == p.start_x
            &&& m.y0 == p.start_y
            &&& m.x1 == p.seg.tip_x
            &&& m.y1 == p.seg.tip_y
            &&& m.width == p.seg.width
        }),
{
}

/// A frame lies between two ticks branch by branch: each number of it
/// between the same number of the two, by the same fraction.
pub proof fn lemma_frames_lie_between_ticks<X: Fn((u32, u32, u32)) -> u32>(
    prev: TreePose,
    curr: TreePose,
    alpha: u32,
    mix: X,
    out: TreePose,
    k: int,
)
    requires
        alike(prev, curr),
        out.wf(),
        lerped(prev, curr, alpha, mix, out),
        0 <= k < prev@.len(),
    ensures
        out@.len() == prev@.len(),
        ({
            let (p, c, o) = (prev@[k], curr@[k], out@[k]);
            &&& o.start_x == value(mix, (p.start_x, c.start_x, alpha))
            &&& o.start_y == value(mix, (p.start_y, c.start_y, alpha))
            &&& o.seg.angle == value(mix, (p.seg.angle, c.seg.angle, alpha))
            &&& o.seg.tip_x == value(mix, (p.seg.tip_x, c.seg.tip_x, alpha))
            &&& o.seg.tip_y == value(mix, (p.seg.tip_y, c.seg.tip_y, alpha))
            &&& o.seg.width == value(mix, (p.seg.width, c.seg.width, alpha))
        }),
{
}

/// The scene is grown when its last tree is: no tree grows later, and one
/// of them that long.
pub proof fn lemma_scenes_grow_with_their_last_tree(trees: Seq<Tree>, n: int, k: int)
    requires
        0 <= k < n <= trees.len(),
        forall|j: int| 0 <= j < n ==> !f32_is_nan((#[trigger] trees[j]).grown_at()),
    ensures
        f32_ge_spec(scene_grown(trees, n), trees[k].grown_at()),
        f32_ge_spec(scene_grown(trees, n), 0),
        scene_grown(trees, n) == 0 || exists|j: int|
            0 <= j < n && (#[trigger] trees[j]).grown_at() == scene_grown(trees, n),
    decreases n,
{
    assert(!f32_is_nan(trees[n - 1].grown_at()));
    if n > 1 {
        let at = if k < n - 1 {
            k
        } else {
            0
        };
        lemma_scenes_grow_with_their_last_tree(trees, n - 1, at);
    } else {
        assert(scene_grown(trees, 0) == 0);
    }
}

proof fn lemma_nodes_add_up(trees: Seq<Tree>, n: int)
    ensures
        node_sum(trees, n) == branches_before(trees, n),
    decreases n,
{
    if n > 0 {
        lemma_nodes_add_up(trees, n - 1);
    }
}

/// One more tree adds its own leaves.
pub proof fn lemma_leaves_add_up(trees: Seq<Tree>, t: int)
    requires
        0 <= t < trees.len(),
    ensures
        leaf_sum(trees, t + 1) - leaf_sum(trees, t) == leaves_among(
            trees[t]@,
            trees[t]@.len() as int,
        ),
        leaf_sum(trees, 0) == 0,
{
}

/// A built scene has one tree for every anchor, each grown from a seed of
/// its own a golden gamma further on, all from the scene's parameters,
/// and has the branches and leaves of all of them and their last growth.
pub proof fn lemma_scenes_grow_a_tree_per_anchor<F: Fn(Rule) -> u32>(
    s: Scene,
    seed: u64,
    eval: F,
    r: BuiltScene,
    k: int,
)
    requires
        builds(s, seed, eval, r),
        0 <= k < s.anchors.len(),
    ensures
        r.trees@.len() == s.anchors.len(),
        r.poses@.len() == s.anchors.len(),
        r.trees@[k].wf(),
        r.trees@[k]@ == generated(
            s.params,
            eval,
            ((seed + k * 0x9E37_79B9_7F4A_7C15) % 0x1_0000_0000_0000_0000) as u64,
        ).nodes,
        r.trees@[k].root() == (0u32, 0u32),
        r.poses@[k]@.len() == r.trees@[k]@.len(),
        r.trees@[k].grown_at() == last_grown(eval, r.trees@[k]@),
        r.segments == branches_before(r.trees@, s.anchors.len() as int),
        r.leaves == leaf_sum(r.trees@, s.anchors.len() as int),
        r.growth_end == scene_grown(r.trees@, s.anchors.len() as int),
{
    lemma_nodes_add_up(r.trees@, s.anchors.len() as int);
    assert(crate::tree_gallery::grown_tree(s.params, seed, eval, k, r.trees@[k]));
    assert(crate::tree::fresh(r.poses@[k], r.trees@[k]));
}

/// A grove's digest folds the digest of every pose in, in order: one pose
/// of another digest moves it.
pub proof fn lemma_one_pose_moves_the_grove(poses: Seq<TreePose>, k: int, p: TreePose)
    requires
        0 <= k < poses.len(),
        quads_digest(p.branches()) != quads_digest(poses[k].branches()),
    ensures
        fold_words(FNV_OFFSET, pose_digests(poses.update(k, p))) != fold_words(
            FNV_OFFSET,
            pose_digests(poses),
        ),
{
    let all = pose_digests(poses);
    let d = quads_digest(p.branches());
    assert(pose_digests(poses.update(k, p)) =~= all.update(k, d));
    lemma_one_word_moves_the_digest(FNV_OFFSET, all, k, d);
}

/// The scenes as their names have them: the storm is the single tree in a
/// stronger and quicker wind, and the grove is nine smaller trees, three
/// by three around the origin.
pub proof fn lemma_tree_scenes_are_what_they_are_called()
    ensures
        ({
            let calm = preset_of("tree"@)->0;
            let storm = preset_of("tree-storm"@)->0;
            let grove = preset_of("tree-grove"@)->0;
            &&& preset_of("tree"@) is Some
            &&& calm.anchors == seq![(0i32, 0i32)]
            &&& preset_of("tree-storm"@) is Some
            &&& storm == (Scene { wind: storm.wind, ..calm })
            &&& f32_lt_spec(calm.wind.amp_rad, storm.wind.amp_rad)
            &&& f32_lt_spec(calm.wind.freq_scale, storm.wind.freq_scale)
            &&& preset_of("tree-grove"@) is Some
            &&& grove.anchors.len() == 9
            &&& f32_lt_spec(grove.params.trunk_len, calm.params.trunk_len)
            &&& f32_lt_spec(grove.params.trunk_width, calm.params.trunk_width)
            &&& grove.params.max_depth < calm.params.max_depth
            &&& grove.tile_radius < calm.tile_radius
        }),
        forall|k: int|
            0 <= k < 9 ==> (#[trigger] preset_of("tree-grove"@)->0.anchors[k]).0 == k / 3 - 1
                && preset_of("tree-grove"@)->0.anchors[k].1 == k % 3 - 1,
{
    reveal_strlit("tree");
    assert("tree"@.len() == 4);
    reveal_strlit("tree-storm");
    assert("tree-storm"@.len() == 10);
    reveal_strlit("tree-grove");
    assert("tree-grove"@.len() == 10);
    assert("tree-storm"@[5] != "tree-grove"@[5]);
    let a = preset_of("tree-grove"@)->0.anchors;
    assert(a.len() == 9);
    assert(a[0] == (-1i32, -1i32));
    assert(a[1] == (-1i32, 0i32));
    assert(a[2] == (-1i32, 1i32));
    assert(a[3] == (0i32, -1i32));
    assert(a[4] == (0i32, 0i32));
    assert(a[5] == (0i32, 1i32));
    assert(a[6] == (1i32, -1i32));
    assert(a[7] == (1i32, 0i32));
    assert(a[8] == (1i32, 1i32));
    assert forall|k: int| 0 <= k < 9 implies (#[trigger] a[k]).0 == k / 3 - 1 && a[k].1 == k % 3
        - 1 by {
        assert(k == 0 || k == 1 || k == 2 || k == 3 || k == 4 || k == 5 || k == 6 || k == 7 || k
            == 8);
    }
}

} // verus!
