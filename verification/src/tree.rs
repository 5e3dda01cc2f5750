//! Procedural golden-ratio trees: deterministic generation and the pose
//! pass. Lengths, angles, and times are bit patterns of singles; what
//! floating point must compute is named by a `Rule` and handed in as a
//! function from rules to bit patterns. The order of random draws, the
//! fork decisions, the caps, and the node arrays are decided here.
//!
//! Every node forks into a near-straight leader and a side branch, with
//! an occasional third shoot from depth two on. Nodes are stored with
//! parents before children, so the pose pass is one forward loop.
use vstd::prelude::*;
use crate::bits::{f32_ge, f32_lt};
use crate::digest::{digest_quads, Quad};
use crate::rng::Rng;

verus! {

use crate::bits::{f32_ge_spec, f32_is_nan, f32_lt_spec};
use crate::digest::{lemma_gathering_ignores_order, quad_word, quads, quads_digest};
use crate::eval::{steady, value};
use crate::rng::{advanced, unit_draw};

/// Hard safety cap on node count: no branch is added beyond it.
pub const MAX_NODES: usize = 8192;

/// The parent of the root.
pub const PARENT_NONE: u32 = 0xFFFF_FFFF;

/// A quarter on the draw grid: how often a side branch changes sides.
pub const FLIP_UNITS: u32 = 0x40_0000;

/// Generation parameters, as bit patterns of singles.
#[derive(Debug, Clone, PartialEq, Eq, Structural)]
pub struct TreeParams {
    /// Length of the trunk segment.
    pub trunk_len: u32,
    /// Stroke width of the trunk segment.
    pub trunk_width: u32,
    /// Maximum fork depth; the trunk is depth 0.
    pub max_depth: u8,
    /// Leader length ratio per level.
    pub leader_ratio: u32,
    /// Leader angular jitter.
    pub leader_jitter: u32,
    /// Side-branch length ratio per level.
    pub side_ratio: u32,
    /// Jitter on every ratio draw.
    pub ratio_jitter: u32,
    /// Jitter on the fork angle.
    pub angle_jitter: u32,
    /// Probability of a third shoot.
    pub extra_prob: u32,
    /// Branches shorter than this are not spawned.
    pub min_len: u32,
    /// Growth duration of one branch, in seconds.
    pub grow_dur: u32,
}

impl TreeParams {
    /// The preset of the single-tree scenes: trunk 110 long and 9 wide,
    /// eight levels, leaders at 0.82, sides at the inverse golden ratio,
    /// jitters 0.06 and 0.15, a third shoot in 28 of 100, nothing under
    /// 3, and 0.9 seconds per branch.
    pub fn oak() -> (r: TreeParams)
        ensures
            r == (TreeParams {
                trunk_len: 0x42DC_0000,
                trunk_width: 0x4110_0000,
                max_depth: 8,
                leader_ratio: 0x3F51_EB85,
                leader_jitter: 0x3D75_C28F,
                side_ratio: 0x3F1E_377A,
                ratio_jitter: 0x3E19_999A,
                angle_jitter: 0x3E19_999A,
                extra_prob: 0x3E8F_5C29,
                min_len: 0x4040_0000,
                grow_dur: 0x3F66_6666,
            }),
    {
        TreeParams {
            trunk_len: 0x42DC_0000,
            trunk_width: 0x4110_0000,
            max_depth: 8,
            leader_ratio: 0x3F51_EB85,
            leader_jitter: 0x3D75_C28F,
            side_ratio: 0x3F1E_377A,
            ratio_jitter: 0x3E19_999A,
            angle_jitter: 0x3E19_999A,
            extra_prob: 0x3E8F_5C29,
            min_len: 0x4040_0000,
            grow_dur: 0x3F66_6666,
        }
    }
}

/// Which branch a fork is spawning.
#[derive(Debug, Clone, Copy, PartialEq, Eq, Structural)]
pub enum Shoot {
    /// The near-straight continuation.
    Leader,
    /// The branch at the golden fork angle.
    Side,
    /// The occasional third shoot, on the other side.
    Extra,
}

/// A quantity that floating point computes.
#[derive(Debug, Clone, Copy, PartialEq, Eq, Structural)]
pub enum Rule {
    /// A draw as a number in `[0, 1)`.
    Unit { unit: u32 },
    /// When the children of a branch born at `birth` sprout.
    ChildBirth { birth: u32 },
    /// When a branch born at `birth` is fully grown.
    Grown { birth: u32 },
    /// The length of a shoot off a branch of length `len`.
    Length { shoot: Shoot, len: u32, unit: u32 },
    /// The angular offset of a shoot; `mirrored` turns sides over.
    Offset { shoot: Shoot, mirrored: bool, unit: u32 },
    /// The width of a shoot off a branch of width `width`.
    Width { shoot: Shoot, width: u32 },
    /// A branch's sway phase.
    Phase { unit: u32 },
    /// A branch's sway speed.
    Speed { unit: u32 },
}

/// One branch.
#[derive(Debug, Clone, Copy, PartialEq, Eq, Structural)]
pub struct Node {
    pub parent: u32,
    pub depth: u8,
    pub rest_offset: u32,
    pub len: u32,
    pub width: u32,
    pub sway_phase: u32,
    pub sway_speed: u32,
    pub birth: u32,
}

/// A tree under generation: the nodes so far and the generator's counter.
pub struct Growth {
    pub nodes: Seq<Node>,
    pub counter: u64,
}

/// A node is added; its sway takes two draws.
pub open spec fn pushed<F: Fn(Rule) -> u32>(
    eval: F,
    g: Growth,
    parent: u32,
    depth: u8,
    rest_offset: u32,
    len: u32,
    width: u32,
    birth: u32,
) -> Growth {
    let c = advanced(g.counter);
    Growth {
        nodes: g.nodes.push(
            Node {
                parent,
                depth,
                rest_offset,
                len,
                width,
                sway_phase: value(eval, Rule::Phase { unit: unit_draw(g.counter) }),
                sway_speed: value(eval, Rule::Speed { unit: unit_draw(c) }),
                birth,
            },
        ),
        counter: advanced(c),
    }
}

/// A draw is spent.
pub open spec fn spent(g: Growth) -> Growth {
    Growth { nodes: g.nodes, counter: advanced(g.counter) }
}

/// One shoot of a fork, with everything that grows from it: a draw for
/// the length, and when that reaches the minimum and there is room, a
/// draw for the offset, the node, and its own fork.
pub open spec fn shot<F: Fn(Rule) -> u32>(
    p: TreeParams,
    eval: F,
    g: Growth,
    node: int,
    me: Node,
    shoot: Shoot,
    mirrored: bool,
    birth: u32,
) -> Growth
    decreases p.max_depth - me.depth, 0int,
{
    let len = value(eval, Rule::Length { shoot, len: me.len, unit: unit_draw(g.counter) });
    let g1 = spent(g);
    if me.depth < p.max_depth && f32_ge_spec(len, p.min_len) && g.nodes.len() < MAX_NODES {
        let offset = value(
            eval,
            Rule::Offset { shoot, mirrored, unit: unit_draw(g1.counter) },
        );
        let width = value(eval, Rule::Width { shoot, width: me.width });
        let g2 = pushed(
            eval,
            spent(g1),
            node as u32,
            (me.depth + 1) as u8,
            offset,
            len,
            width,
            birth,
        );
        forked(p, eval, g2, g.nodes.len() as int, g2.nodes.last())
    } else {
        g1
    }
}

/// A branch forks: the side is drawn first, then the leader, the side
/// branch, and from depth two on, when there is room and a draw allows
/// it, the third shoot.
pub open spec fn forked<F: Fn(Rule) -> u32>(
    p: TreeParams,
    eval: F,
    g: Growth,
    node: int,
    me: Node,
) -> Growth
    decreases p.max_depth - me.depth, 1int,
{
    if me.depth >= p.max_depth || g.nodes.len() >= MAX_NODES {
        g
    } else {
        let birth = value(eval, Rule::ChildBirth { birth: me.birth });
        let mirrored = (me.depth % 2 == 0) == (unit_draw(g.counter) < FLIP_UNITS);
        let g1 = shot(p, eval, spent(g), node, me, Shoot::Leader, mirrored, birth);
        let g2 = shot(p, eval, g1, node, me, Shoot::Side, mirrored, birth);
        if me.depth >= 2 && g2.nodes.len() < MAX_NODES {
            if f32_lt_spec(
                value(eval, Rule::Unit { unit: unit_draw(g2.counter) }),
                p.extra_prob,
            ) {
                shot(p, eval, spent(g2), node, me, Shoot::Extra, mirrored, birth)
            } else {
                spent(g2)
            }
        } else {
            g2
        }
    }
}

/// The generated tree: the trunk, and everything that forks from it.
pub open spec fn generated<F: Fn(Rule) -> u32>(p: TreeParams, eval: F, seed: u64) -> Growth {
    let root = pushed(
        eval,
        Growth { nodes: Seq::empty(), counter: seed },
        PARENT_NONE,
        0,
        0,
        p.trunk_len,
        p.trunk_width,
        0,
    );
    forked(p, eval, root, 0, root.nodes[0])
}

/// Parents come before children, children are one deeper than their
/// parents, only the first node is a root, no node is deeper than the
/// cap, and no child is shorter than the minimum.
pub open spec fn ordered(p: TreeParams, nodes: Seq<Node>) -> bool {
    &&& nodes.len() > 0 ==> nodes[0].parent == PARENT_NONE && nodes[0].depth == 0
    &&& forall|i: int|
        0 < i < nodes.len() ==> {
            let n = #[trigger] nodes[i];
            &&& n.parent < i
            &&& n.depth == nodes[n.parent as int].depth + 1
            &&& n.depth <= p.max_depth
            &&& f32_ge_spec(n.len, p.min_len)
        }
}

/// `a` is where `b` starts.
pub open spec fn extends(a: Seq<Node>, b: Seq<Node>) -> bool {
    a.len() <= b.len() && forall|i: int| 0 <= i < a.len() ==> b[i] == #[trigger] a[i]
}

proof fn lemma_shot<F: Fn(Rule) -> u32>(
    p: TreeParams,
    eval: F,
    g: Growth,
    node: int,
    me: Node,
    shoot: Shoot,
    mirrored: bool,
    birth: u32,
)
    requires
        ordered(p, g.nodes),
        0 <= node < g.nodes.len(),
        g.nodes[node] == me,
        me.depth < p.max_depth,
        g.nodes.len() <= MAX_NODES,
    ensures
        ({
            let r = shot(p, eval, g, node, me, shoot, mirrored, birth);
            &&& ordered(p, r.nodes)
            &&& extends(g.nodes, r.nodes)
            &&& r.nodes.len() <= MAX_NODES
        }),
    decreases p.max_depth - me.depth, 0int,
{
    let len = value(eval, Rule::Length { shoot, len: me.len, unit: unit_draw(g.counter) });
    let g1 = spent(g);
    if f32_ge_spec(len, p.min_len) && g.nodes.len() < MAX_NODES {
        let offset = value(
            eval,
            Rule::Offset { shoot, mirrored, unit: unit_draw(g1.counter) },
        );
        let width = value(eval, Rule::Width { shoot, width: me.width });
        let g2 = pushed(
            eval,
            spent(g1),
            node as u32,
            (me.depth + 1) as u8,
            offset,
            len,
            width,
            birth,
        );
        assert(g2.nodes[g.nodes.len() as int] == g2.nodes.last());
        assert forall|i: int| 0 < i < g2.nodes.len() implies {
            let n = #[trigger] g2.nodes[i];
            &&& n.parent < i
            &&& n.depth == g2.nodes[n.parent as int].depth + 1
            &&& n.depth <= p.max_depth
            &&& f32_ge_spec(n.len, p.min_len)
        } by {
            if i < g.nodes.len() {
                assert(g2.nodes[i] == g.nodes[i]);
            }
        }
        lemma_forked(p, eval, g2, g.nodes.len() as int, g2.nodes.last());
        let r = forked(p, eval, g2, g.nodes.len() as int, g2.nodes.last());
        assert forall|i: int| 0 <= i < g.nodes.len() implies r.nodes[i] == #[trigger] g.nodes[i] by {
            assert(g2.nodes[i] == g.nodes[i]);
        }
    }
}

/// Forking keeps the order of the nodes, touches none of them, and stays
/// under the cap.
pub proof fn lemma_forked<F: Fn(Rule) -> u32>(
    p: TreeParams,
    eval: F,
    g: Growth,
    node: int,
    me: Node,
)
    requires
        ordered(p, g.nodes),
        0 <= node < g.nodes.len(),
        g.nodes[node] == me,
        me.depth <= p.max_depth,
        g.nodes.len() <= MAX_NODES,
    ensures
        ordered(p, forked(p, eval, g, node, me).nodes),
        extends(g.nodes, forked(p, eval, g, node, me).nodes),
        forked(p, eval, g, node, me).nodes.len() <= MAX_NODES,
    decreases p.max_depth - me.depth, 1int,
{
    if me.depth >= p.max_depth || g.nodes.len() >= MAX_NODES {
    } else {
        let birth = value(eval, Rule::ChildBirth { birth: me.birth });
        let mirrored = (me.depth % 2 == 0) == (unit_draw(g.counter) < FLIP_UNITS);
        lemma_shot(p, eval, spent(g), node, me, Shoot::Leader, mirrored, birth);
        let g1 = shot(p, eval, spent(g), node, me, Shoot::Leader, mirrored, birth);
        assert(g1.nodes[node] == g.nodes[node]);
        lemma_shot(p, eval, g1, node, me, Shoot::Side, mirrored, birth);
        let g2 = shot(p, eval, g1, node, me, Shoot::Side, mirrored, birth);
        assert(g2.nodes[node] == g1.nodes[node]);
        assert forall|i: int| 0 <= i < g.nodes.len() implies g2.nodes[i] == #[trigger] g.nodes[i] by {
            assert(g1.nodes[i] == spent(g).nodes[i]);
            assert(g2.nodes[i] == g1.nodes[i]);
        }
        if me.depth >= 2 && g2.nodes.len() < MAX_NODES {
            if f32_lt_spec(
                value(eval, Rule::Unit { unit: unit_draw(g2.counter) }),
                p.extra_prob,
            ) {
                lemma_shot(p, eval, spent(g2), node, me, Shoot::Extra, mirrored, birth);
                let g3 = shot(p, eval, spent(g2), node, me, Shoot::Extra, mirrored, birth);
                assert forall|i: int| 0 <= i < g.nodes.len() implies g3.nodes[i]
                    == #[trigger] g.nodes[i] by {
                    assert(g2.nodes[i] == g.nodes[i]);
                    assert(g3.nodes[i] == spent(g2).nodes[i]);
                }
            }
        }
    }
}

/// Every generated tree has its parents before their children, one root,
/// no node deeper than the cap, and no more nodes than the node cap.
pub proof fn lemma_generated_trees_are_ordered<F: Fn(Rule) -> u32>(p: TreeParams, eval: F, seed: u64)
    ensures
        ordered(p, generated(p, eval, seed).nodes),
        1 <= generated(p, eval, seed).nodes.len() <= MAX_NODES,
{
    let root = pushed(
        eval,
        Growth { nodes: Seq::empty(), counter: seed },
        PARENT_NONE,
        0,
        0,
        p.trunk_len,
        p.trunk_width,
        0,
    );
    lemma_forked(p, eval, root, 0, root.nodes[0]);
}

/// The later of two times; a NaN gives way.
pub open spec fn later(a: u32, b: u32) -> u32 {
    if f32_is_nan(a) || f32_lt_spec(a, b) {
        b
    } else {
        a
    }
}

/// When the last of some nodes is fully grown.
pub open spec fn last_grown<F: Fn(Rule) -> u32>(eval: F, nodes: Seq<Node>) -> u32
    decreases nodes.len(),
{
    if nodes.len() == 0 {
        0
    } else {
        later(
            last_grown(eval, nodes.drop_last()),
            value(eval, Rule::Grown { birth: nodes.last().birth }),
        )
    }
}

/// Whether no node has `i` as its parent.
pub open spec fn is_leaf(nodes: Seq<Node>, i: int) -> bool {
    forall|k: int| 0 <= k < nodes.len() ==> (#[trigger] nodes[k]).parent != i
}

/// How many of the first `n` nodes have no children.
pub open spec fn leaves_among(nodes: Seq<Node>, n: int) -> nat
    decreases n,
{
    if n <= 0 {
        0
    } else {
        leaves_among(nodes, n - 1) + if is_leaf(nodes, n - 1) {
            1nat
        } else {
            0nat
        }
    }
}

/// A generated tree: flat node arrays with parents always preceding
/// children.
#[derive(Debug, Clone)]
pub struct Tree {
    parent: Vec<u32>,
    depth: Vec<u8>,
    rest_offset: Vec<u32>,
    len: Vec<u32>,
    width: Vec<u32>,
    sway_phase: Vec<u32>,
    sway_speed: Vec<u32>,
    birth: Vec<u32>,
    base_x: u32,
    base_y: u32,
    growth_end: u32,
    is_leaf: Vec<bool>,
    leaves: u64,
}

impl View for Tree {
    type V = Seq<Node>;

    closed spec fn view(&self) -> Seq<Node> {
        Seq::new(
            self.parent@.len(),
            |i: int|
                Node {
                    parent: self.parent@[i],
                    depth: self.depth@[i],
                    rest_offset: self.rest_offset@[i],
                    len: self.len@[i],
                    width: self.width@[i],
                    sway_phase: self.sway_phase@[i],
                    sway_speed: self.sway_speed@[i],
                    birth: self.birth@[i],
                },
        )
    }
}

impl Tree {
    spec fn parallel(&self) -> bool {
        &&& self.depth@.len() == self.parent@.len()
        &&& self.rest_offset@.len() == self.parent@.len()
        &&& self.len@.len() == self.parent@.len()
        &&& self.width@.len() == self.parent@.len()
        &&& self.sway_phase@.len() == self.parent@.len()
        &&& self.sway_speed@.len() == self.parent@.len()
        &&& self.birth@.len() == self.parent@.len()
    }

    /// The arrays are parallel, every node but the first has a parent
    /// before it, and the leaf flags and count are those of the nodes.
    pub closed spec fn wf(&self) -> bool {
        &&& self.parallel()
        &&& self@.len() > 0
        &&& self@[0].parent == PARENT_NONE
        &&& forall|i: int| 0 < i < self@.len() ==> (#[trigger] self@[i]).parent < i
        &&& self.is_leaf@.len() == self@.len()
        &&& forall|i: int| 0 <= i < self@.len() ==> #[trigger] self.is_leaf@[i] == is_leaf(self@, i)
        &&& self.leaves == leaves_among(self@, self@.len() as int)
    }

    /// The ground point of the root.
    pub closed spec fn root(&self) -> (u32, u32) {
        (self.base_x, self.base_y)
    }

    /// When the last branch finishes growing.
    pub closed spec fn grown_at(&self) -> u32 {
        self.growth_end
    }

    fn push_node<F: Fn(Rule) -> u32>(
        &mut self,
        parent: u32,
        depth: u8,
        rest_offset: u32,
        len: u32,
        width: u32,
        birth: u32,
        rng: &mut Rng,
        eval: &F,
    )
        requires
            old(self).parallel(),
            steady(*eval),
            old(self).growth_end == last_grown(*eval, old(self)@),
        ensures
            final(self).parallel(),
            final(self).base_x == old(self).base_x,
            final(self).base_y == old(self).base_y,
            final(self).growth_end == last_grown(*eval, final(self)@),
            (Growth { nodes: final(self)@, counter: final(rng).counter() }) == pushed(
                *eval,
                Growth { nodes: old(self)@, counter: old(rng).counter() },
                parent,
                depth,
                rest_offset,
                len,
                width,
                birth,
            ),
    {
        let a: u32 = rng.next_unit();
        let b: u32 = rng.next_unit();
        let phase: u32 = (*eval)(Rule::Phase { unit: a });
        let speed: u32 = (*eval)(Rule::Speed { unit: b });
        self.parent.push(parent);
        self.depth.push(depth);
        self.rest_offset.push(rest_offset);
        self.len.push(len);
        self.width.push(width);
        self.sway_phase.push(phase);
        self.sway_speed.push(speed);
        self.birth.push(birth);
        let grown: u32 = (*eval)(Rule::Grown { birth });
        if self.growth_end % 0x8000_0000 > 0x7F80_0000 || f32_lt(self.growth_end, grown) {
            self.growth_end = grown;
        }
        proof {
            let n = Node {
                parent,
                depth,
                rest_offset,
                len,
                width,
                sway_phase: phase,
                sway_speed: speed,
                birth,
            };
            assert(self@ =~= old(self)@.push(n));
            assert(self@.drop_last() =~= old(self)@);
        }
    }

    fn shoot<F: Fn(Rule) -> u32>(
        &mut self,
        node: usize,
        kind: Shoot,
        mirrored: bool,
        birth: u32,
        p: &TreeParams,
        rng: &mut Rng,
        eval: &F,
    )
        requires
            old(self).parallel(),
            steady(*eval),
            old(self).growth_end == last_grown(*eval, old(self)@),
            ordered(*p, old(self)@),
            node < old(self)@.len(),
            old(self)@[node as int].depth < p.max_depth,
            old(self)@.len() <= MAX_NODES,
        ensures
            final(self).parallel(),
            final(self).base_x == old(self).base_x,
            final(self).base_y == old(self).base_y,
            final(self).growth_end == last_grown(*eval, final(self)@),
            (Growth { nodes: final(self)@, counter: final(rng).counter() }) == shot(
                *p,
                *eval,
                Growth { nodes: old(self)@, counter: old(rng).counter() },
                node as int,
                old(self)@[node as int],
                kind,
                mirrored,
                birth,
            ),
        decreases p.max_depth - old(self)@[node as int].depth, 0int,
    {
        let ghost g = Growth { nodes: self@, counter: rng.counter() };
        let ghost me = self@[node as int];
        let depth: u8 = self.depth[node];
        let unit: u32 = rng.next_unit();
        let len: u32 = (*eval)(Rule::Length { shoot: kind, len: self.len[node], unit });
        if f32_ge(len, p.min_len) && self.parent.len() < MAX_NODES {
            let turn: u32 = rng.next_unit();
            let offset: u32 = (*eval)(Rule::Offset { shoot: kind, mirrored, unit: turn });
            let width: u32 = (*eval)(Rule::Width { shoot: kind, width: self.width[node] });
            let child: usize = self.parent.len();
            self.push_node(node as u32, depth + 1, offset, len, width, birth, rng, eval);
            proof {
                assert forall|i: int| 0 < i < self@.len() implies {
                    let n = #[trigger] self@[i];
                    &&& n.parent < i
                    &&& n.depth == self@[n.parent as int].depth + 1
                    &&& n.depth <= p.max_depth
                    &&& f32_ge_spec(n.len, p.min_len)
                } by {
                    if i < g.nodes.len() {
                        assert(self@[i] == g.nodes[i]);
                    }
                }
                assert(self@[0] == g.nodes[0]);
                assert(self@[child as int] == self@.last());
            }
            self.fork(child, p, rng, eval);
        }
    }

    /// Fork a node and everything that grows from it, depth- and
    /// length-capped.
    fn fork<F: Fn(Rule) -> u32>(&mut self, node: usize, p: &TreeParams, rng: &mut Rng, eval: &F)
        requires
            old(self).parallel(),
            steady(*eval),
            old(self).growth_end == last_grown(*eval, old(self)@),
            ordered(*p, old(self)@),
            node < old(self)@.len(),
            old(self)@[node as int].depth <= p.max_depth,
            old(self)@.len() <= MAX_NODES,
        ensures
            final(self).parallel(),
            final(self).base_x == old(self).base_x,
            final(self).base_y == old(self).base_y,
            final(self).growth_end == last_grown(*eval, final(self)@),
            (Growth { nodes: final(self)@, counter: final(rng).counter() }) == forked(
                *p,
                *eval,
                Growth { nodes: old(self)@, counter: old(rng).counter() },
                node as int,
                old(self)@[node as int],
            ),
        decreases p.max_depth - old(self)@[node as int].depth, 1int,
    {
        let ghost g = Growth { nodes: self@, counter: rng.counter() };
        let ghost me = self@[node as int];
        let depth: u8 = self.depth[node];
        if depth >= p.max_depth || self.parent.len() >= MAX_NODES {
            return;
        }
        let birth: u32 = (*eval)(Rule::ChildBirth { birth: self.birth[node] });
        // The side branch alternates sides down each chain, turned over
        // by a draw often enough to break strict alternation.
        let flip: u32 = rng.next_unit();
        let mirrored: bool = (depth % 2 == 0) == (flip < FLIP_UNITS);
        proof {
            lemma_shot(*p, *eval, spent(g), node as int, me, Shoot::Leader, mirrored, birth);
        }
        self.shoot(node, Shoot::Leader, mirrored, birth, p, rng, eval);
        let ghost g1 = Growth { nodes: self@, counter: rng.counter() };
        proof {
            assert(g1.nodes[node as int] == spent(g).nodes[node as int]);
            lemma_shot(*p, *eval, g1, node as int, me, Shoot::Side, mirrored, birth);
        }
        self.shoot(node, Shoot::Side, mirrored, birth, p, rng, eval);
        let ghost g2 = Growth { nodes: self@, counter: rng.counter() };
        proof {
            assert(g2.nodes[node as int] == g1.nodes[node as int]);
        }
        if depth >= 2 && self.parent.len() < MAX_NODES {
            let unit: u32 = rng.next_unit();
            let chance: u32 = (*eval)(Rule::Unit { unit });
            if f32_lt(chance, p.extra_prob) {
                self.shoot(node, Shoot::Extra, mirrored, birth, p, rng, eval);
            }
        }
    }

    /// Generate a tree at the origin.
    pub fn generate<F: Fn(Rule) -> u32>(p: &TreeParams, seed: u64, eval: &F) -> (r: Tree)
        requires
            f32_lt_spec(0, p.trunk_len),
            f32_lt_spec(0, p.trunk_width),
            p.max_depth > 0,
            steady(*eval),
        ensures
            r.wf(),
            r@ == generated(*p, *eval, seed).nodes,
            1 <= r@.len() <= MAX_NODES,
            forall|i: int| 0 <= i < r@.len() ==> (#[trigger] r@[i]).depth <= p.max_depth,
            r.root() == (0u32, 0u32),
            r.grown_at() == last_grown(*eval, r@),
    {
        Tree::generate_at(p, seed, 0, 0, eval)
    }

    /// Generate a tree rooted at a ground point.
    pub fn generate_at<F: Fn(Rule) -> u32>(
        p: &TreeParams,
        seed: u64,
        base_x: u32,
        base_y: u32,
        eval: &F,
    ) -> (r: Tree)
        requires
            f32_lt_spec(0, p.trunk_len),
            f32_lt_spec(0, p.trunk_width),
            p.max_depth > 0,
            steady(*eval),
        ensures
            r.wf(),
            r@ == generated(*p, *eval, seed).nodes,
            1 <= r@.len() <= MAX_NODES,
            forall|i: int| 0 <= i < r@.len() ==> (#[trigger] r@[i]).depth <= p.max_depth,
            r.root() == (base_x, base_y),
            r.grown_at() == last_grown(*eval, r@),
    {
        let mut rng = Rng::new(seed);
        let mut tree = Tree {
            parent: Vec::new(),
            depth: Vec::new(),
            rest_offset: Vec::new(),
            len: Vec::new(),
            width: Vec::new(),
            sway_phase: Vec::new(),
            sway_speed: Vec::new(),
            birth: Vec::new(),
            base_x,
            base_y,
            growth_end: 0,
            is_leaf: Vec::new(),
            leaves: 0,
        };
        proof {
            assert(tree@ =~= Seq::<Node>::empty());
        }
        tree.push_node(PARENT_NONE, 0, 0, p.trunk_len, p.trunk_width, 0, &mut rng, eval);
        tree.fork(0, p, &mut rng, eval);
        proof {
            lemma_generated_trees_are_ordered(*p, *eval, seed);
        }
        let (flags, leaves) = leaf_flags_of(&tree.parent, Ghost(tree@));
        let ghost nodes = tree@;
        tree.is_leaf = flags;
        tree.leaves = leaves;
        proof {
            assert(tree@ =~= nodes);
        }
        tree
    }

    /// Number of nodes.
    pub fn node_count(&self) -> (r: usize)
        requires
            self.wf(),
        ensures
            r == self@.len(),
    {
        self.len.len()
    }

    /// Number of terminal branches.
    pub fn leaf_count(&self) -> (r: u64)
        requires
            self.wf(),
        ensures
            r == leaves_among(self@, self@.len() as int),
    {
        self.leaves
    }

    /// Seconds after scene start at which the last branch is fully grown.
    pub fn growth_end(&self) -> (r: u32)
        ensures
            r == self.grown_at(),
    {
        self.growth_end
    }

    /// The ground point of the root.
    pub fn base(&self) -> (r: (u32, u32))
        ensures
            r == self.root(),
    {
        (self.base_x, self.base_y)
    }

    /// Node depths.
    pub fn depths(&self) -> (r: &Vec<u8>)
        requires
            self.wf(),
        ensures
            r@ == self@.map_values(|n: Node| n.depth),
    {
        proof {
            assert(self.depth@ =~= self@.map_values(|n: Node| n.depth));
        }
        &self.depth
    }

    /// Rest stroke widths.
    pub fn widths(&self) -> (r: &Vec<u32>)
        requires
            self.wf(),
        ensures
            r@ == self@.map_values(|n: Node| n.width),
    {
        proof {
            assert(self.width@ =~= self@.map_values(|n: Node| n.width));
        }
        &self.width
    }

    /// Terminal-branch flags: set where a node has no children.
    pub fn leaf_flags(&self) -> (r: &Vec<bool>)
        requires
            self.wf(),
        ensures
            r@.len() == self@.len(),
            forall|i: int| 0 <= i < self@.len() ==> #[trigger] r@[i] == is_leaf(self@, i),
    {
        &self.is_leaf
    }

    /// One node.
    pub fn node(&self, i: usize) -> (r: Node)
        requires
            self.wf(),
            i < self@.len(),
        ensures
            r == self@[i as int],
    {
        Node {
            parent: self.parent[i],
            depth: self.depth[i],
            rest_offset: self.rest_offset[i],
            len: self.len[i],
            width: self.width[i],
            sway_phase: self.sway_phase[i],
            sway_speed: self.sway_speed[i],
            birth: self.birth[i],
        }
    }

    /// What the structure digest takes of every node: the rest pose's
    /// angle and tip, and the rest width.
    pub open spec fn structure(&self, rest: &TreePose) -> Seq<Quad> {
        quads(rest.angle@, rest.tip_x@, rest.tip_y@, self@.map_values(|n: Node| n.width))
    }

    /// An order-independent digest of the generated structure, given its
    /// rest pose: fully grown and without wind.
    pub fn structure_checksum(&self, rest: &TreePose) -> (r: u64)
        requires
            self.wf(),
            rest.wf(),
            rest@.len() == self@.len(),
        ensures
            r == quads_digest(self.structure(rest)),
    {
        digest_quads(&rest.angle, &rest.tip_x, &rest.tip_y, self.widths())
    }

    /// Write the pose at some time into a reused buffer. `swing` places
    /// one branch, given the branch and the joint it grows from; it
    /// captures the time and the wind.
    pub fn pose_into<F: Fn(Node, Joint) -> Segment>(&self, pose: &mut TreePose, swing: &F)
        requires
            self.wf(),
            old(pose).wf(),
            old(pose)@.len() == self@.len(),
            forall|n: Node, j: Joint| #[trigger] call_requires(*swing, (n, j)),
        ensures
            final(pose).wf(),
            poses(self@, self.root(), *swing, final(pose)@),
    {
        let n: usize = self.len.len();
        let mut i: usize = 0;
        while i < n
            invariant
                self.wf(),
                n == self@.len(),
                i <= n,
                pose.wf(),
                pose@.len() == n,
                forall|n: Node, j: Joint| #[trigger] call_requires(*swing, (n, j)),
                forall|k: int|
                    0 <= k < i ==> #[trigger] posed(self@, self.root(), *swing, pose@, k),
            decreases n - i,
        {
            let node = self.node(i);
            let ghost before = pose@;
            let joint = if node.parent == PARENT_NONE {
                Joint { x: self.base_x, y: self.base_y, angle: UPRIGHT }
            } else {
                proof {
                    assert(self@[i as int].parent < i);
                    assert(self@.len() == self.parent@.len());
                }
                let k: usize = node.parent as usize;
                Joint { x: pose.tip_x[k], y: pose.tip_y[k], angle: pose.angle[k] }
            };
            let seg = (*swing)(node, joint);
            pose.angle.set(i, seg.angle);
            pose.start_x.set(i, joint.x);
            pose.start_y.set(i, joint.y);
            pose.tip_x.set(i, seg.tip_x);
            pose.tip_y.set(i, seg.tip_y);
            pose.width.set(i, seg.width);
            proof {
                assert(pose@ =~= before.update(i as int, pose@[i as int]));
                assert forall|k: int| 0 <= k < i + 1 implies #[trigger] posed(
                    self@,
                    self.root(),
                    *swing,
                    pose@,
                    k,
                ) by {
                    if k > 0 {
                        assert(self@[k].parent < k);
                    }
                    if k < i {
                        assert(posed(self@, self.root(), *swing, before, k));
                    }
                }
            }
            i = i + 1;
        }
    }
}

fn leaf_flags_of(parent: &Vec<u32>, Ghost(nodes): Ghost<Seq<Node>>) -> (r: (Vec<bool>, u64))
    requires
        nodes.len() == parent@.len(),
        0 < nodes.len() <= MAX_NODES,
        forall|i: int| 0 <= i < nodes.len() ==> (#[trigger] nodes[i]).parent == parent@[i],
        nodes[0].parent == PARENT_NONE,
        forall|i: int| 0 < i < nodes.len() ==> (#[trigger] nodes[i]).parent < i,
    ensures
        r.0@.len() == nodes.len(),
        forall|i: int| 0 <= i < nodes.len() ==> #[trigger] r.0@[i] == is_leaf(nodes, i),
        r.1 == leaves_among(nodes, nodes.len() as int),
{
    let n: usize = parent.len();
    let mut flags: Vec<bool> = vec![true; n];
    let mut i: usize = 0;
    while i < n
        invariant
            n == parent@.len(),
            nodes.len() == n,
            i <= n,
            flags@.len() == n,
            0 < n <= MAX_NODES,
            forall|k: int| 0 <= k < nodes.len() ==> (#[trigger] nodes[k]).parent == parent@[k],
            nodes[0].parent == PARENT_NONE,
            forall|k: int| 0 < k < nodes.len() ==> (#[trigger] nodes[k]).parent < k,
            forall|j: int|
                0 <= j < n ==> #[trigger] flags@[j] == is_leaf(nodes.take(i as int), j),
        decreases n - i,
    {
        let p: u32 = parent[i];
        let ghost before = flags@;
        proof {
            assert(nodes[i as int].parent == p);
        }
        if p != PARENT_NONE {
            flags.set(p as usize, false);
        }
        proof {
            let a = nodes.take(i as int);
            let b = nodes.take(i + 1);
            assert(b =~= a.push(nodes[i as int]));
            assert forall|j: int| 0 <= j < n implies #[trigger] flags@[j] == is_leaf(b, j) by {
                assert(before[j] == is_leaf(a, j));
                assert(b[i as int].parent == p);
                if is_leaf(a, j) && p != j {
                    assert forall|k: int| 0 <= k < b.len() implies (#[trigger] b[k]).parent
                        != j by {
                        if k < i {
                            assert(a[k] == b[k]);
                        }
                    }
                }
                if !is_leaf(a, j) {
                    let k = choose|k: int| 0 <= k < a.len() && (#[trigger] a[k]).parent == j;
                    assert(b[k].parent == j);
                }
            }
        }
        i = i + 1;
    }
    proof {
        assert(nodes.take(n as int) =~= nodes);
    }
    let mut leaves: u64 = 0;
    let mut k: usize = 0;
    while k < n
        invariant
            k <= n,
            n == flags@.len(),
            n == nodes.len(),
            forall|i: int| 0 <= i < n ==> #[trigger] flags@[i] == is_leaf(nodes, i),
            leaves <= k,
            leaves == leaves_among(nodes, k as int),
        decreases n - k,
    {
        if flags[k] {
            leaves = leaves + 1;
        }
        k = k + 1;
    }
    (flags, leaves)
}

/// Straight up, in radians: half of pi.
pub const UPRIGHT: u32 = 0x3FC9_0FDB;

/// Where a branch is attached: a point and a direction.
#[derive(Debug, Clone, Copy, PartialEq, Eq, Structural)]
pub struct Joint {
    pub x: u32,
    pub y: u32,
    pub angle: u32,
}

/// A placed branch.
#[derive(Debug, Clone, Copy, PartialEq, Eq, Structural)]
pub struct Segment {
    pub angle: u32,
    pub tip_x: u32,
    pub tip_y: u32,
    pub width: u32,
}

/// One entry of a pose.
pub struct Posed {
    pub start_x: u32,
    pub start_y: u32,
    pub seg: Segment,
}

/// Branch `k` hangs from the tip of its parent, or from the ground.
pub open spec fn posed<F: Fn(Node, Joint) -> Segment>(
    nodes: Seq<Node>,
    root: (u32, u32),
    swing: F,
    pose: Seq<Posed>,
    k: int,
) -> bool {
    let joint = if nodes[k].parent == PARENT_NONE {
        Joint { x: root.0, y: root.1, angle: UPRIGHT }
    } else {
        let up = pose[nodes[k].parent as int].seg;
        Joint { x: up.tip_x, y: up.tip_y, angle: up.angle }
    };
    &&& pose[k].start_x == joint.x
    &&& pose[k].start_y == joint.y
    &&& call_ensures(swing, (nodes[k], joint), pose[k].seg)
}

/// Every branch hangs where it should.
pub open spec fn poses<F: Fn(Node, Joint) -> Segment>(
    nodes: Seq<Node>,
    root: (u32, u32),
    swing: F,
    pose: Seq<Posed>,
) -> bool {
    pose.len() == nodes.len() && forall|k: int|
        0 <= k < nodes.len() ==> #[trigger] posed(nodes, root, swing, pose, k)
}

/// A buffer of a tree's size in which every branch is zero.
pub open spec fn fresh(pose: TreePose, tree: Tree) -> bool {
    &&& pose.wf()
    &&& pose@ == Seq::new(
        tree@.len(),
        |i: int|
            Posed {
                start_x: 0,
                start_y: 0,
                seg: Segment { angle: 0, tip_x: 0, tip_y: 0, width: 0 },
            },
    )
}

/// A reused pose buffer for one tree.
#[derive(Debug, Clone)]
pub struct TreePose {
    pub angle: Vec<u32>,
    pub start_x: Vec<u32>,
    pub start_y: Vec<u32>,
    pub tip_x: Vec<u32>,
    pub tip_y: Vec<u32>,
    pub width: Vec<u32>,
}

impl View for TreePose {
    type V = Seq<Posed>;

    open spec fn view(&self) -> Seq<Posed> {
        Seq::new(
            self.tip_x@.len(),
            |i: int|
                Posed {
                    start_x: self.start_x@[i],
                    start_y: self.start_y@[i],
                    seg: Segment {
                        angle: self.angle@[i],
                        tip_x: self.tip_x@[i],
                        tip_y: self.tip_y@[i],
                        width: self.width@[i],
                    },
                },
        )
    }
}

impl TreePose {
    /// The arrays are parallel.
    pub open spec fn wf(&self) -> bool {
        &&& self.angle@.len() == self.tip_x@.len()
        &&& self.start_x@.len() == self.tip_x@.len()
        &&& self.start_y@.len() == self.tip_x@.len()
        &&& self.tip_y@.len() == self.tip_x@.len()
        &&& self.width@.len() == self.tip_x@.len()
    }

    /// A zeroed buffer for a tree.
    pub fn new(tree: &Tree) -> (r: TreePose)
        requires
            tree.wf(),
        ensures
            fresh(r, *tree),
    {
        let n: usize = tree.node_count();
        let r = TreePose {
            angle: vec![0; n],
            start_x: vec![0; n],
            start_y: vec![0; n],
            tip_x: vec![0; n],
            tip_y: vec![0; n],
            width: vec![0; n],
        };
        proof {
            assert(r@ =~= Seq::new(
                tree@.len(),
                |i: int|
                    Posed {
                        start_x: 0,
                        start_y: 0,
                        seg: Segment { angle: 0, tip_x: 0, tip_y: 0, width: 0 },
                    },
            ));
        }
        r
    }

    /// Number of branches.
    pub fn len(&self) -> (r: usize)
        ensures
            r == self@.len(),
    {
        self.tip_x.len()
    }

    /// Whether there are none.
    pub fn is_empty(&self) -> (r: bool)
        ensures
            r == (self@.len() == 0),
    {
        self.tip_x.len() == 0
    }

    /// What the digest takes of every branch: angle, tip, and width.
    pub open spec fn branches(&self) -> Seq<Quad> {
        quads(self.angle@, self.tip_x@, self.tip_y@, self.width@)
    }

    /// An order-independent digest of the pose.
    pub fn checksum(&self) -> (r: u64)
        requires
            self.wf(),
        ensures
            r == quads_digest(self.branches()),
    {
        digest_quads(&self.angle, &self.tip_x, &self.tip_y, &self.width)
    }
}

/// A pose's digest does not depend on the order of its branches.
pub proof fn lemma_pose_digest_ignores_order(a: TreePose, b: TreePose)
    requires
        a.branches().to_multiset() == b.branches().to_multiset(),
    ensures
        quads_digest(a.branches()) == quads_digest(b.branches()),
{
    lemma_gathering_ignores_order(a.branches(), b.branches(), |q: Quad| quad_word(q));
}

/// A structure's digest does not depend on the order of its nodes.
pub proof fn lemma_structure_digest_ignores_order(a: Tree, at: TreePose, b: Tree, bt: TreePose)
    requires
        a.structure(&at).to_multiset() == b.structure(&bt).to_multiset(),
    ensures
        quads_digest(a.structure(&at)) == quads_digest(b.structure(&bt)),
{
    lemma_gathering_ignores_order(a.structure(&at), b.structure(&bt), |q: Quad| quad_word(q));
}

/// Parents precede their children.
pub proof fn lemma_parents_precede(tree: Tree, k: int)
    requires
        tree.wf(),
        0 <= k < tree@.len(),
    ensures
        tree@[k].parent == PARENT_NONE || tree@[k].parent < k,
{
}

proof fn lemma_posed_alike<F: Fn(Node, Joint) -> Segment>(
    nodes: Seq<Node>,
    root: (u32, u32),
    swing: F,
    a: Seq<Posed>,
    b: Seq<Posed>,
    k: int,
)
    requires
        poses(nodes, root, swing, a),
        poses(nodes, root, swing, b),
        forall|i: int|
            0 <= i < nodes.len() ==> (#[trigger] nodes[i]).parent == PARENT_NONE
                || nodes[i].parent < i,
        forall|n: Node, j: Joint, s: Segment, t: Segment|
            #[trigger] call_ensures(swing, (n, j), s) && #[trigger] call_ensures(
                swing,
                (n, j),
                t,
            ) ==> s == t,
        0 <= k < nodes.len(),
    ensures
        a[k] == b[k],
    decreases k,
{
    if nodes[k].parent != PARENT_NONE {
        lemma_posed_alike(nodes, root, swing, a, b, nodes[k].parent as int);
    }
    assert(posed(nodes, root, swing, a, k));
    assert(posed(nodes, root, swing, b, k));
}

/// A pose is determined by the tree and the swing: it depends neither on
/// what the buffer held before nor on how often it was used.
pub proof fn lemma_poses_are_determined<F: Fn(Node, Joint) -> Segment>(
    tree: Tree,
    swing: F,
    a: TreePose,
    b: TreePose,
)
    requires
        tree.wf(),
        poses(tree@, tree.root(), swing, a@),
        poses(tree@, tree.root(), swing, b@),
        forall|n: Node, j: Joint, s: Segment, t: Segment|
            #[trigger] call_ensures(swing, (n, j), s) && #[trigger] call_ensures(
                swing,
                (n, j),
                t,
            ) ==> s == t,
    ensures
        a@ == b@,
{
    assert forall|k: int| 0 <= k < tree@.len() implies a@[k] == b@[k] by {
        lemma_posed_alike(tree@, tree.root(), swing, a@, b@, k);
    }
    assert(a@ =~= b@);
}

} // verus!
