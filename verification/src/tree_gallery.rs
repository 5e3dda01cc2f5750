//! The tree gallery: scene presets, the trees of a scene, and the digest
//! of a grove.
use vstd::prelude::*;
use vstd::string::*;
use crate::bits::f32_lt;
use crate::digest::{step, FNV_OFFSET};
use crate::rng::nth_seed;
use crate::text::same;
use crate::tree::{Rule, Tree, TreeParams, TreePose};

verus! {

use crate::bits::f32_lt_spec;
use crate::digest::{fold_words, quads_digest};
use crate::eval::steady;
use crate::rng::hop_seed;
use crate::tree::{fresh, generated, last_grown, later, leaves_among};

/// Wind: the largest tip bend, and a factor on the gust frequencies.
#[derive(Debug, Clone, Copy, PartialEq, Eq, Structural)]
pub struct WindParams {
    pub amp_rad: u32,
    pub freq_scale: u32,
}

/// A scene: parameters, wind, where the trees stand, and how wide a ring
/// of tiles is drawn around each.
#[derive(Debug, Clone, PartialEq)]
pub struct ScenePreset {
    pub params: TreeParams,
    pub wind: WindParams,
    pub anchors: Vec<(i32, i32)>,
    pub tile_radius: i32,
}

/// A scene, as values.
pub struct Scene {
    pub params: TreeParams,
    pub wind: WindParams,
    pub anchors: Seq<(i32, i32)>,
    pub tile_radius: i32,
}

impl View for ScenePreset {
    type V = Scene;

    open spec fn view(&self) -> Scene {
        Scene {
            params: self.params,
            wind: self.wind,
            anchors: self.anchors@,
            tile_radius: self.tile_radius,
        }
    }
}

/// The parameters of the single-tree scenes.
pub open spec fn oak() -> TreeParams {
    TreeParams {
        trunk_len: 0x42DC_0000,
        trunk_width: 0x4110_0000,
        max_depth: 8,
        leader_ratio: 0x3F51_EB85,
        leader_jitter: 0x3D75_C28F,
        side_ratio: 0x3F1E_377A,
        ratio_jitter: 0x3E19_999A,
        angle_jitter: 0x3E19_999A,
        extra_prob: 0x3E8F_5C29,
        min_len: 0x4040_0000,
        grow_dur: 0x3F66_6666,
    }
}

/// The anchors of the grove, row by row.
pub open spec fn grove_anchors() -> Seq<(i32, i32)> {
    seq![
        ((-1) as i32, (-1) as i32),
        ((-1) as i32, 0i32),
        ((-1) as i32, 1i32),
        (0i32, (-1) as i32),
        (0i32, 0i32),
        (0i32, 1i32),
        (1i32, (-1) as i32),
        (1i32, 0i32),
        (1i32, 1i32),
    ]
}

/// The presets: one oak in a gentle breeze; the same in a storm; and a
/// grove of nine smaller trees.
pub open spec fn preset_of(id: Seq<char>) -> Option<Scene> {
    if id == "tree"@ {
        Some(
            Scene {
                params: oak(),
                wind: WindParams { amp_rad: 0x3DCC_CCCD, freq_scale: 0x3F80_0000 },
                anchors: seq![(0i32, 0i32)],
                tile_radius: 2,
            },
        )
    } else if id == "tree-storm"@ {
        Some(
            Scene {
                params: oak(),
                wind: WindParams { amp_rad: 0x3EAE_147B, freq_scale: 0x3FE6_6666 },
                anchors: seq![(0i32, 0i32)],
                tile_radius: 2,
            },
        )
    } else if id == "tree-grove"@ {
        Some(
            Scene {
                params: TreeParams {
                    trunk_len: 0x428C_0000,
                    trunk_width: 0x40E0_0000,
                    max_depth: 6,
                    ..oak()
                },
                wind: WindParams { amp_rad: 0x3DF5_C28F, freq_scale: 0x3F66_6666 },
                anchors: grove_anchors(),
                tile_radius: 1,
            },
        )
    } else {
        None
    }
}

/// A scene's preset.
pub fn scene_preset(id: &str) -> (r: Option<ScenePreset>)
    ensures
        match r {
            Some(p) => preset_of(id@) == Some(p@),
            None => preset_of(id@) is None,
        },
{
    if same(id, "tree") {
        let anchors: Vec<(i32, i32)> = vec![(0, 0)];
        proof {
            assert(anchors@ =~= seq![(0i32, 0i32)]);
        }
        Some(
            ScenePreset {
                params: TreeParams::oak(),
                wind: WindParams { amp_rad: 0x3DCC_CCCD, freq_scale: 0x3F80_0000 },
                anchors,
                tile_radius: 2,
            },
        )
    } else if same(id, "tree-storm") {
        let anchors: Vec<(i32, i32)> = vec![(0, 0)];
        proof {
            assert(anchors@ =~= seq![(0i32, 0i32)]);
        }
        Some(
            ScenePreset {
                params: TreeParams::oak(),
                wind: WindParams { amp_rad: 0x3EAE_147B, freq_scale: 0x3FE6_6666 },
                anchors,
                tile_radius: 2,
            },
        )
    } else if same(id, "tree-grove") {
        let anchors: Vec<(i32, i32)> = vec![
            (-1, -1),
            (-1, 0),
            (-1, 1),
            (0, -1),
            (0, 0),
            (0, 1),
            (1, -1),
            (1, 0),
            (1, 1),
        ];
        proof {
            assert(anchors@ =~= grove_anchors());
        }
        let mut params = TreeParams::oak();
        params.trunk_len = 0x428C_0000;
        params.trunk_width = 0x40E0_0000;
        params.max_depth = 6;
        Some(
            ScenePreset {
                params,
                wind: WindParams { amp_rad: 0x3DF5_C28F, freq_scale: 0x3F66_6666 },
                anchors,
                tile_radius: 1,
            },
        )
    } else {
        None
    }
}

/// The seed the `k`-th tree of a scene grows from.
pub fn tree_seed(seed: u64, k: usize) -> (r: u64)
    ensures
        r == hop_seed(seed, k as int),
{
    nth_seed(seed, k)
}

/// A built scene: the trees with their pose buffers, and the scene's
/// totals.
pub struct BuiltScene {
    pub trees: Vec<Tree>,
    pub poses: Vec<TreePose>,
    pub segments: u64,
    pub leaves: u64,
    pub growth_end: u32,
}

/// Tree `k` of a scene.
pub open spec fn grown_tree<F: Fn(Rule) -> u32>(
    p: TreeParams,
    seed: u64,
    eval: F,
    k: int,
    t: Tree,
) -> bool {
    &&& t.wf()
    &&& t@ == generated(p, eval, hop_seed(seed, k)).nodes
    &&& t.root() == (0u32, 0u32)
    &&& t.grown_at() == last_grown(eval, t@)
}

/// Nodes of the first `n` trees.
pub open spec fn node_sum(trees: Seq<Tree>, n: int) -> nat
    decreases n,
{
    if n <= 0 {
        0
    } else {
        node_sum(trees, n - 1) + trees[n - 1]@.len()
    }
}

/// Leaves of the first `n` trees.
pub open spec fn leaf_sum(trees: Seq<Tree>, n: int) -> nat
    decreases n,
{
    if n <= 0 {
        0
    } else {
        leaf_sum(trees, n - 1) + leaves_among(trees[n - 1]@, trees[n - 1]@.len() as int)
    }
}

/// When the last of the first `n` trees is fully grown.
pub open spec fn scene_grown(trees: Seq<Tree>, n: int) -> u32
    decreases n,
{
    if n <= 0 {
        0
    } else {
        later(scene_grown(trees, n - 1), trees[n - 1].grown_at())
    }
}

/// The scene holds one tree per anchor and its totals.
pub open spec fn builds<F: Fn(Rule) -> u32>(s: Scene, seed: u64, eval: F, r: BuiltScene) -> bool {
    let n = s.anchors.len();
    &&& r.trees@.len() == n
    &&& r.poses@.len() == n
    &&& forall|k: int|
        0 <= k < n ==> grown_tree(s.params, seed, eval, k, #[trigger] r.trees@[k])
    &&& forall|k: int|
        0 <= k < n ==> fresh(#[trigger] r.poses@[k], r.trees@[k])
    &&& r.segments == node_sum(r.trees@, n as int)
    &&& r.leaves == leaf_sum(r.trees@, n as int)
    &&& r.growth_end == scene_grown(r.trees@, n as int)
}

proof fn lemma_leaves_fit(nodes: Seq<crate::tree::Node>, n: int)
    requires
        0 <= n,
    ensures
        leaves_among(nodes, n) <= n,
    decreases n,
{
    if n > 0 {
        lemma_leaves_fit(nodes, n - 1);
    }
}

proof fn lemma_sums_prefix(a: Seq<Tree>, b: Seq<Tree>, n: int)
    requires
        0 <= n <= a.len() <= b.len(),
        forall|i: int| 0 <= i < a.len() ==> #[trigger] b[i] == a[i],
    ensures
        node_sum(b, n) == node_sum(a, n),
        leaf_sum(b, n) == leaf_sum(a, n),
        scene_grown(b, n) == scene_grown(a, n),
    decreases n,
{
    if n > 0 {
        lemma_sums_prefix(a, b, n - 1);
        assert(b[n - 1] == a[n - 1]);
    }
}

/// Build a scene's trees.
pub fn build_scene<F: Fn(Rule) -> u32>(preset: &ScenePreset, seed: u64, eval: &F) -> (r: BuiltScene)
    requires
        f32_lt_spec(0, preset.params.trunk_len),
        f32_lt_spec(0, preset.params.trunk_width),
        preset.params.max_depth > 0,
        preset.anchors@.len() <= 0xFFFF_FFFF,
        steady(*eval),
    ensures
        builds(preset@, seed, *eval, r),
{
    let n: usize = preset.anchors.len();
    let mut trees: Vec<Tree> = Vec::with_capacity(n);
    let mut poses: Vec<TreePose> = Vec::with_capacity(n);
    let mut segments: u64 = 0;
    let mut leaves: u64 = 0;
    let mut growth_end: u32 = 0;
    let mut k: usize = 0;
    while k < n
        invariant
            k <= n,
            n == preset.anchors@.len(),
            n <= 0xFFFF_FFFF,
            f32_lt_spec(0, preset.params.trunk_len),
            f32_lt_spec(0, preset.params.trunk_width),
            preset.params.max_depth > 0,
            steady(*eval),
            trees@.len() == k,
            poses@.len() == k,
            forall|i: int|
                0 <= i < k ==> grown_tree(preset.params, seed, *eval, i, #[trigger] trees@[i]),
            forall|i: int|
                0 <= i < k ==> fresh(#[trigger] poses@[i], trees@[i]),
            segments <= k * 8192,
            leaves <= k * 8192,
            segments == node_sum(trees@, k as int),
            leaves == leaf_sum(trees@, k as int),
            growth_end == scene_grown(trees@, k as int),
        decreases n - k,
    {
        let ghost before = trees@;
        let tree = Tree::generate(&preset.params, tree_seed(seed, k), eval);
        proof {
            crate::tree::lemma_generated_trees_are_ordered(
                preset.params,
                *eval,
                hop_seed(seed, k as int),
            );
            lemma_leaves_fit(tree@, tree@.len() as int);
        }
        let nodes: usize = tree.node_count();
        segments = segments + nodes as u64;
        leaves = leaves + tree.leaf_count();
        let end: u32 = tree.growth_end();
        if growth_end % 0x8000_0000 > 0x7F80_0000 || f32_lt(growth_end, end) {
            growth_end = end;
        }
        poses.push(TreePose::new(&tree));
        trees.push(tree);
        proof {
            lemma_sums_prefix(before, trees@, k as int);
        }
        k = k + 1;
    }
    BuiltScene { trees, poses, segments, leaves, growth_end }
}

/// The pose digests of some poses.
pub open spec fn pose_digests(poses: Seq<TreePose>) -> Seq<u64> {
    poses.map_values(|p: TreePose| quads_digest(p.branches()))
}

/// The digest of a grove: the digests of its poses, folded in order.
pub fn grove_checksum(poses: &Vec<TreePose>) -> (r: u64)
    requires
        forall|k: int| 0 <= k < poses@.len() ==> (#[trigger] poses@[k]).wf(),
    ensures
        r == fold_words(FNV_OFFSET, pose_digests(poses@)),
{
    let mut h: u64 = FNV_OFFSET;
    let ghost all = pose_digests(poses@);
    let mut i: usize = 0;
    proof {
        assert(all.take(0) =~= Seq::<u64>::empty());
    }
    while i < poses.len()
        invariant
            i <= poses@.len(),
            forall|k: int| 0 <= k < poses@.len() ==> (#[trigger] poses@[k]).wf(),
            all == pose_digests(poses@),
            h == fold_words(FNV_OFFSET, all.take(i as int)),
        decreases poses@.len() - i,
    {
        let d: u64 = poses[i].checksum();
        h = step(h, d);
        proof {
            assert(all.take(i + 1) =~= all.take(i as int).push(d));
            crate::digest::lemma_fold_push(FNV_OFFSET, all.take(i as int), d);
        }
        i = i + 1;
    }
    proof {
        assert(all.take(i as int) =~= all);
    }
    h
}

} // verus!
