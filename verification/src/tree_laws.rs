//! What holds of every generated tree: each branch is a shoot of its
//! parent and sprouts when the parent lets its children sprout, each
//! fork has its leader, its side branch and its rare third shoot, and
//! the tree is grown when its last branch is.
use vstd::prelude::*;

verus! {

use crate::bits::{f32_ge_spec, f32_is_nan, f32_lt_spec};
use crate::eval::value;
use crate::rng::{advanced, counter_after, unit_draw};
use crate::tree::{
    extends, forked, generated, is_leaf, last_grown, leaves_among, lemma_forked,
    lemma_generated_trees_are_ordered, ordered, poses, posed, pushed, shot, spent, Growth, Joint,
    Node, Posed, Rule, Segment, Shoot, TreeParams,
};

/// The draw that a seed gives after `k` others.
pub open spec fn draw(seed: u64, k: nat) -> u32 {
    unit_draw(counter_after(seed, k))
}

/// Node `i` is a shoot of its parent: four draws in a row give its
/// length, its offset, and its sway; its length and width come from the
/// parent's, and it sprouts when the parent lets its children sprout.
pub open spec fn sprouted<F: Fn(Rule) -> u32>(
    eval: F,
    seed: u64,
    nodes: Seq<Node>,
    i: int,
    k: nat,
    shoot: Shoot,
    mirrored: bool,
) -> bool {
    let n = nodes[i];
    let up = nodes[n.parent as int];
    &&& 0 <= n.parent < i < nodes.len()
    &&& n.len == value(eval, Rule::Length { shoot, len: up.len, unit: draw(seed, k) })
    &&& n.rest_offset == value(eval, Rule::Offset { shoot, mirrored, unit: draw(seed, k + 1) })
    &&& n.width == value(eval, Rule::Width { shoot, width: up.width })
    &&& n.sway_phase == value(eval, Rule::Phase { unit: draw(seed, k + 2) })
    &&& n.sway_speed == value(eval, Rule::Speed { unit: draw(seed, k + 3) })
    &&& n.birth == value(eval, Rule::ChildBirth { birth: up.birth })
    &&& shoot == Shoot::Extra ==> up.depth >= 2
}

/// Node `i` is some shoot of its parent.
pub open spec fn is_shoot<F: Fn(Rule) -> u32>(
    eval: F,
    seed: u64,
    nodes: Seq<Node>,
    i: int,
) -> bool {
    exists|k: nat, shoot: Shoot, mirrored: bool| #[trigger]
        sprouted(eval, seed, nodes, i, k, shoot, mirrored)
}

/// How a node forked: the places in the stream of draws at which its side
/// was chosen, its side branch was measured and its third shoot was
/// decided, and the children that came of it.
pub struct Fork {
    pub flip: nat,
    pub side: nat,
    pub extra: nat,
    pub leader_child: Option<int>,
    pub side_child: Option<int>,
    pub extra_child: Option<int>,
}

/// Node `i` forked so: a leader, a side branch, and from depth two on,
/// where a draw allows it, a third shoot. Each is there exactly when its
/// length reaches the minimum, the leader comes first, right behind the
/// node, and the node has no other children. Sides alternate with the
/// depth, turned over by one draw in four.
#[verifier::opaque]
pub open spec fn forked_as<F: Fn(Rule) -> u32>(
    p: TreeParams,
    eval: F,
    seed: u64,
    nodes: Seq<Node>,
    i: int,
    w: Fork,
) -> bool {
    let n = nodes[i];
    let long = |shoot: Shoot, k: nat|
        f32_ge_spec(
            value(eval, Rule::Length { shoot, len: n.len, unit: draw(seed, k) }),
            p.min_len,
        );
    let mirrored = (n.depth % 2 == 0) == (draw(seed, w.flip) < 0x40_0000);
    &&& w.flip < w.side < w.extra
    &&& w.leader_child is Some <==> long(Shoot::Leader, w.flip + 1)
    &&& w.leader_child matches Some(c) ==> c == i + 1 && c < nodes.len() && nodes[c].parent == i
        && sprouted(eval, seed, nodes, c, w.flip + 1, Shoot::Leader, mirrored)
    &&& w.side_child is Some <==> long(Shoot::Side, w.side)
    &&& w.side_child matches Some(c) ==> c < nodes.len() && nodes[c].parent == i && sprouted(
        eval,
        seed,
        nodes,
        c,
        w.side,
        Shoot::Side,
        mirrored,
    )
    &&& w.extra_child is Some <==> n.depth >= 2 && f32_lt_spec(
        value(eval, Rule::Unit { unit: draw(seed, w.extra) }),
        p.extra_prob,
    ) && long(Shoot::Extra, w.extra + 1)
    &&& w.extra_child matches Some(c) ==> c < nodes.len() && nodes[c].parent == i && sprouted(
        eval,
        seed,
        nodes,
        c,
        w.extra + 1,
        Shoot::Extra,
        mirrored,
    )
    &&& forall|c: int|
        0 <= c < nodes.len() && (#[trigger] nodes[c]).parent == i ==> w.leader_child == Some(c)
            || w.side_child == Some(c) || w.extra_child == Some(c)
}

/// Node `i` forked somehow.
pub open spec fn forks<F: Fn(Rule) -> u32>(
    p: TreeParams,
    eval: F,
    seed: u64,
    nodes: Seq<Node>,
    i: int,
) -> bool {
    exists|w: Fork| #[trigger] forked_as(p, eval, seed, nodes, i, w)
}

spec fn all_shoots<F: Fn(Rule) -> u32>(eval: F, seed: u64, nodes: Seq<Node>) -> bool {
    forall|i: int| 0 < i < nodes.len() ==> #[trigger] is_shoot(eval, seed, nodes, i)
}

/// From `from` on, nodes hang from `node` or from each other.
spec fn hang_from(nodes: Seq<Node>, node: int, from: int) -> bool {
    forall|c: int|
        from <= c < nodes.len() ==> (#[trigger] nodes[c]).parent == node || nodes[c].parent >= from
}

spec fn all_fork<F: Fn(Rule) -> u32>(
    p: TreeParams,
    eval: F,
    seed: u64,
    nodes: Seq<Node>,
    from: int,
) -> bool {
    forall|i: int|
        from <= i < nodes.len() && nodes[i].depth < p.max_depth ==> #[trigger] forks(
            p,
            eval,
            seed,
            nodes,
            i,
        )
}

proof fn lemma_sprouted_stays<F: Fn(Rule) -> u32>(
    eval: F,
    seed: u64,
    a: Seq<Node>,
    b: Seq<Node>,
    i: int,
    k: nat,
    shoot: Shoot,
    mirrored: bool,
)
    requires
        extends(a, b),
        sprouted(eval, seed, a, i, k, shoot, mirrored),
    ensures
        sprouted(eval, seed, b, i, k, shoot, mirrored),
{
    assert(a[i] == b[i]);
    assert(a[a[i].parent as int] == b[a[i].parent as int]);
}

proof fn lemma_shoots_stay<F: Fn(Rule) -> u32>(
    eval: F,
    seed: u64,
    a: Seq<Node>,
    b: Seq<Node>,
    i: int,
)
    requires
        extends(a, b),
        is_shoot(eval, seed, a, i),
    ensures
        is_shoot(eval, seed, b, i),
{
    let (k, shoot, mirrored) = choose|k: nat, shoot: Shoot, mirrored: bool| #[trigger]
        sprouted(eval, seed, a, i, k, shoot, mirrored);
    lemma_sprouted_stays(eval, seed, a, b, i, k, shoot, mirrored);
}

proof fn lemma_forks_stay<F: Fn(Rule) -> u32>(
    p: TreeParams,
    eval: F,
    seed: u64,
    a: Seq<Node>,
    b: Seq<Node>,
    i: int,
)
    requires
        extends(a, b),
        0 <= i < a.len(),
        forks(p, eval, seed, a, i),
        forall|c: int| a.len() <= c < b.len() ==> (#[trigger] b[c]).parent != i,
    ensures
        forks(p, eval, seed, b, i),
{
    reveal(forked_as);
    let w = choose|w: Fork| #[trigger] forked_as(p, eval, seed, a, i, w);
    let mirrored = (a[i].depth % 2 == 0) == (draw(seed, w.flip) < 0x40_0000);
    assert(a[i] == b[i]);
    if let Some(c) = w.leader_child {
        lemma_sprouted_stays(eval, seed, a, b, c, w.flip + 1, Shoot::Leader, mirrored);
        assert(a[c] == b[c]);
    }
    if let Some(c) = w.side_child {
        lemma_sprouted_stays(eval, seed, a, b, c, w.side, Shoot::Side, mirrored);
        assert(a[c] == b[c]);
    }
    if let Some(c) = w.extra_child {
        lemma_sprouted_stays(eval, seed, a, b, c, w.extra + 1, Shoot::Extra, mirrored);
        assert(a[c] == b[c]);
    }
    assert forall|c: int| 0 <= c < b.len() && (#[trigger] b[c]).parent == i implies w.leader_child
        == Some(c) || w.side_child == Some(c) || w.extra_child == Some(c) by {
        if c < a.len() {
            assert(a[c] == b[c]);
        }
    }
    assert(forked_as(p, eval, seed, b, i, w));
}

proof fn lemma_all_fork_stays<F: Fn(Rule) -> u32>(
    p: TreeParams,
    eval: F,
    seed: u64,
    a: Seq<Node>,
    b: Seq<Node>,
    node: int,
    from: int,
)
    requires
        extends(a, b),
        node < from,
        0 <= from <= a.len(),
        all_fork(p, eval, seed, a, from),
        hang_from(b, node, a.len() as int),
        all_fork(p, eval, seed, b, a.len() as int),
    ensures
        all_fork(p, eval, seed, b, from),
{
    assert forall|i: int| from <= i < b.len() && b[i].depth < p.max_depth implies #[trigger] forks(
        p,
        eval,
        seed,
        b,
        i,
    ) by {
        if i < a.len() {
            assert(a[i] == b[i]);
            assert(forks(p, eval, seed, a, i));
            lemma_forks_stay(p, eval, seed, a, b, i);
        }
    }
}

/// What a shoot adds starts with the shoot itself.
proof fn lemma_shot_adds<F: Fn(Rule) -> u32>(
    p: TreeParams,
    eval: F,
    g: Growth,
    node: int,
    me: Node,
    shoot: Shoot,
    mirrored: bool,
    birth: u32,
)
    requires
        ordered(p, g.nodes),
        0 <= node < g.nodes.len(),
        g.nodes[node] == me,
        me.depth < p.max_depth,
        g.nodes.len() <= 8192,
    ensures
        ({
            let s = shot(p, eval, g, node, me, shoot, mirrored, birth);
            let at = g.nodes.len() as int;
            &&& ordered(p, s.nodes)
            &&& extends(g.nodes, s.nodes)
            &&& s.nodes.len() <= 8192
            &&& s.nodes.len() > at ==> s.nodes[at].parent == node && s.nodes[at].birth == birth
        }),
{
    let len = value(eval, Rule::Length { shoot, len: me.len, unit: unit_draw(g.counter) });
    let g1 = spent(g);
    let at = g.nodes.len() as int;
    if f32_ge_spec(len, p.min_len) && g.nodes.len() < 8192 {
        let offset = value(eval, Rule::Offset { shoot, mirrored, unit: unit_draw(g1.counter) });
        let width = value(eval, Rule::Width { shoot, width: me.width });
        let depth = (me.depth + 1) as u8;
        let g2 = pushed(eval, spent(g1), node as u32, depth, offset, len, width, birth);
        lemma_forked(p, eval, g2, at, g2.nodes.last());
        let s = forked(p, eval, g2, at, g2.nodes.last());
        assert(s.nodes[at] == g2.nodes[at]);
        assert forall|i: int| 0 <= i < g.nodes.len() implies s.nodes[i] == #[trigger] g.nodes[i] by {
            assert(s.nodes[i] == g2.nodes[i]);
        }
    }
}

/// Whatever a fork adds starts with a child of the forking branch, and
/// that child sprouts when its parent lets its children sprout.
pub proof fn lemma_forks_start_with_a_child<F: Fn(Rule) -> u32>(
    p: TreeParams,
    eval: F,
    g: Growth,
    node: int,
)
    requires
        ordered(p, g.nodes),
        0 <= node < g.nodes.len() <= 8192,
        g.nodes[node].depth <= p.max_depth,
    ensures
        ({
            let s = forked(p, eval, g, node, g.nodes[node]);
            let at = g.nodes.len() as int;
            s.nodes.len() > at ==> s.nodes[at].parent == node && s.nodes[at].birth == value(
                eval,
                Rule::ChildBirth { birth: g.nodes[node].birth },
            )
        }),
{
    let me = g.nodes[node];
    let at = g.nodes.len() as int;
    if me.depth < p.max_depth && g.nodes.len() < 8192 {
        let birth = value(eval, Rule::ChildBirth { birth: me.birth });
        let mirrored = (me.depth % 2 == 0) == (unit_draw(g.counter) < 0x40_0000);
        lemma_shot_adds(p, eval, spent(g), node, me, Shoot::Leader, mirrored, birth);
        let g1 = shot(p, eval, spent(g), node, me, Shoot::Leader, mirrored, birth);
        assert(g1.nodes[node] == g.nodes[node]);
        lemma_shot_adds(p, eval, g1, node, me, Shoot::Side, mirrored, birth);
        let g2 = shot(p, eval, g1, node, me, Shoot::Side, mirrored, birth);
        assert(g2.nodes[node] == g1.nodes[node]);
        lemma_shot_adds(p, eval, spent(g2), node, me, Shoot::Extra, mirrored, birth);
        let s = forked(p, eval, g, node, me);
        if g1.nodes.len() > at {
            assert(g2.nodes[at] == g1.nodes[at]);
        }
        if g2.nodes.len() > at {
            assert(s.nodes[at] == g2.nodes[at]);
        }
    }
}

/// A shoot adds only shoots, and everything it adds has forked.
proof fn lemma_shot_grows<F: Fn(Rule) -> u32>(
    p: TreeParams,
    eval: F,
    seed: u64,
    g: Growth,
    m: nat,
    node: int,
    me: Node,
    shoot: Shoot,
    mirrored: bool,
    birth: u32,
) -> (r: nat)
    requires
        ordered(p, g.nodes),
        all_shoots(eval, seed, g.nodes),
        g.counter == counter_after(seed, m),
        0 <= node < g.nodes.len(),
        g.nodes[node] == me,
        me.depth < p.max_depth,
        g.nodes.len() <= 8192,
        birth == value(eval, Rule::ChildBirth { birth: me.birth }),
        shoot == Shoot::Extra ==> me.depth >= 2,
    ensures
        ({
            let s = shot(p, eval, g, node, me, shoot, mirrored, birth);
            let at = g.nodes.len() as int;
            &&& m < r
            &&& s.counter == counter_after(seed, r)
            &&& ordered(p, s.nodes)
            &&& extends(g.nodes, s.nodes)
            &&& s.nodes.len() <= 8192
            &&& all_shoots(eval, seed, s.nodes)
            &&& hang_from(s.nodes, node, at)
            &&& s.nodes.len() < 8192 ==> all_fork(p, eval, seed, s.nodes, at) && shoot_done(
                p,
                eval,
                seed,
                g,
                s,
                m,
                node,
                shoot,
                mirrored,
            )
        }),
    decreases p.max_depth - me.depth, 0int,
{
    let len = value(eval, Rule::Length { shoot, len: me.len, unit: unit_draw(g.counter) });
    let g1 = spent(g);
    let at = g.nodes.len() as int;
    assert(g1.counter == counter_after(seed, m + 1));
    if f32_ge_spec(len, p.min_len) && g.nodes.len() < 8192 {
        let offset = value(eval, Rule::Offset { shoot, mirrored, unit: unit_draw(g1.counter) });
        let width = value(eval, Rule::Width { shoot, width: me.width });
        let g2 = pushed(
            eval,
            spent(g1),
            node as u32,
            (me.depth + 1) as u8,
            offset,
            len,
            width,
            birth,
        );
        assert(spent(g1).counter == counter_after(seed, m + 2));
        assert(advanced(spent(g1).counter) == counter_after(seed, m + 3));
        assert(g2.counter == counter_after(seed, m + 4));
        let n = g2.nodes[at];
        assert(n == g2.nodes.last());
        assert(extends(g.nodes, g2.nodes));
        assert forall|i: int| 0 < i < g2.nodes.len() implies {
            let n = #[trigger] g2.nodes[i];
            &&& n.parent < i
            &&& n.depth == g2.nodes[n.parent as int].depth + 1
            &&& n.depth <= p.max_depth
            &&& f32_ge_spec(n.len, p.min_len)
        } by {
            if i < g.nodes.len() {
                assert(g2.nodes[i] == g.nodes[i]);
            }
        }
        assert(sprouted(eval, seed, g2.nodes, at, m, shoot, mirrored));
        assert forall|i: int| 0 < i < g2.nodes.len() implies #[trigger] is_shoot(
            eval,
            seed,
            g2.nodes,
            i,
        ) by {
            if i < at {
                assert(is_shoot(eval, seed, g.nodes, i));
                lemma_shoots_stay(eval, seed, g.nodes, g2.nodes, i);
            }
        }
        let r = lemma_fork_grows(p, eval, seed, g2, m + 4, at, n);
        let s = forked(p, eval, g2, at, n);
        assert(s.nodes[at] == g2.nodes[at]);
        lemma_sprouted_stays(eval, seed, g2.nodes, s.nodes, at, m, shoot, mirrored);
        assert forall|i: int| 0 <= i < g.nodes.len() implies s.nodes[i] == #[trigger] g.nodes[i] by {
            assert(g2.nodes[i] == g.nodes[i]);
        }
        r
    } else {
        m + 1
    }
}

/// A fork adds only shoots, and it and everything it adds has forked.
#[verifier::spinoff_prover]
#[verifier::rlimit(80)]
proof fn lemma_fork_grows<F: Fn(Rule) -> u32>(
    p: TreeParams,
    eval: F,
    seed: u64,
    g: Growth,
    m: nat,
    node: int,
    me: Node,
) -> (r: nat)
    requires
        ordered(p, g.nodes),
        all_shoots(eval, seed, g.nodes),
        g.counter == counter_after(seed, m),
        0 <= node == g.nodes.len() - 1,
        g.nodes[node] == me,
        me.depth <= p.max_depth,
        g.nodes.len() <= 8192,
    ensures
        ({
            let s = forked(p, eval, g, node, me);
            &&& m <= r
            &&& s.counter == counter_after(seed, r)
            &&& ordered(p, s.nodes)
            &&& extends(g.nodes, s.nodes)
            &&& s.nodes.len() <= 8192
            &&& all_shoots(eval, seed, s.nodes)
            &&& hang_from(s.nodes, node, g.nodes.len() as int)
            &&& s.nodes.len() < 8192 ==> all_fork(p, eval, seed, s.nodes, node)
        }),
    decreases p.max_depth - me.depth, 1int,
{
    lemma_forked(p, eval, g, node, me);
    if me.depth >= p.max_depth || g.nodes.len() >= 8192 {
        m
    } else {
        let birth = value(eval, Rule::ChildBirth { birth: me.birth });
        let mirrored = (me.depth % 2 == 0) == (unit_draw(g.counter) < 0x40_0000);
        let at = g.nodes.len() as int;
        assert(spent(g).counter == counter_after(seed, m + 1));
        let m1 = lemma_shot_grows(
            p, eval, seed, spent(g), m + 1, node, me, Shoot::Leader, mirrored, birth,
        );
        let g1 = shot(p, eval, spent(g), node, me, Shoot::Leader, mirrored, birth);
        assert(g1.nodes[node] == g.nodes[node]);
        let m2 = lemma_shot_grows(
            p, eval, seed, g1, m1, node, me, Shoot::Side, mirrored, birth,
        );
        let g2 = shot(p, eval, g1, node, me, Shoot::Side, mirrored, birth);
        assert(g2.nodes[node] == g1.nodes[node]);
        assert(spent(g2).counter == counter_after(seed, m2 + 1));
        let lucky = f32_lt_spec(
            value(eval, Rule::Unit { unit: unit_draw(g2.counter) }),
            p.extra_prob,
        );
        let s = forked(p, eval, g, node, me);
        let tries = me.depth >= 2 && g2.nodes.len() < 8192 && lucky;
        let r = if tries {
            lemma_shot_grows(
                p, eval, seed, spent(g2), m2 + 1, node, me, Shoot::Extra, mirrored, birth,
            )
        } else if me.depth >= 2 && g2.nodes.len() < 8192 {
            m2 + 1
        } else {
            m2
        };
        assert(extends(g1.nodes, g2.nodes));
        assert(extends(g2.nodes, s.nodes));
        assert forall|c: int| at <= c < s.nodes.len() implies (#[trigger] s.nodes[c]).parent == node
            || s.nodes[c].parent >= at by {
            if c < g1.nodes.len() {
                assert(s.nodes[c] == g2.nodes[c]);
                assert(g2.nodes[c] == g1.nodes[c]);
            } else if c < g2.nodes.len() {
                assert(s.nodes[c] == g2.nodes[c]);
            }
        }
        if s.nodes.len() < 8192 {
            assert(forks(p, eval, seed, s.nodes, node)) by {
                assert forall|c: int| 0 <= c < g.nodes.len() implies (#[trigger] g.nodes[c]).parent
                    != node by {
                    if c > 0 {
                        assert(g.nodes[c].parent < c);
                    }
                }
                lemma_fork_assembled(p, eval, seed, g, g1, g2, s, m, m1, m2, node, tries);
            }
            lemma_all_fork_stays(p, eval, seed, g1.nodes, g2.nodes, node, at);
            lemma_all_fork_stays(p, eval, seed, g2.nodes, s.nodes, node, at);
            assert(all_fork(p, eval, seed, s.nodes, node)) by {
                assert forall|i: int|
                    node <= i < s.nodes.len() && s.nodes[i].depth
                        < p.max_depth implies #[trigger] forks(p, eval, seed, s.nodes, i) by {}
            }
        }
        r
    }
}

/// The three shoots of a node make its fork.
proof fn lemma_fork_assembled<F: Fn(Rule) -> u32>(
    p: TreeParams,
    eval: F,
    seed: u64,
    g: Growth,
    g1: Growth,
    g2: Growth,
    s: Growth,
    m: nat,
    m1: nat,
    m2: nat,
    node: int,
    tries: bool,
)
    requires
        0 <= node == g.nodes.len() - 1,
        forall|c: int| 0 <= c < g.nodes.len() ==> (#[trigger] g.nodes[c]).parent != node,
        m + 1 < m1 < m2,
        extends(g.nodes, g1.nodes),
        extends(g1.nodes, g2.nodes),
        extends(g2.nodes, s.nodes),
        ({
            let me = g.nodes[node];
            let mirrored = (me.depth % 2 == 0) == (draw(seed, m) < 0x40_0000);
            &&& tries <==> me.depth >= 2 && f32_lt_spec(
                value(eval, Rule::Unit { unit: draw(seed, m2) }),
                p.extra_prob,
            )
            &&& shoot_done(p, eval, seed, g, g1, m + 1, node, Shoot::Leader, mirrored)
            &&& shoot_done(p, eval, seed, g1, g2, m1, node, Shoot::Side, mirrored)
            &&& tries ==> shoot_done(p, eval, seed, g2, s, m2 + 1, node, Shoot::Extra, mirrored)
            &&& !tries ==> s.nodes == g2.nodes
        }),
    ensures
        forks(p, eval, seed, s.nodes, node),
{
    let me = g.nodes[node];
    let mirrored = (me.depth % 2 == 0) == (draw(seed, m) < 0x40_0000);
    let w = Fork {
        flip: m,
        side: m1,
        extra: m2,
        leader_child: if g1.nodes.len() > g.nodes.len() {
            Some(g.nodes.len() as int)
        } else {
            None
        },
        side_child: if g2.nodes.len() > g1.nodes.len() {
            Some(g1.nodes.len() as int)
        } else {
            None
        },
        extra_child: if s.nodes.len() > g2.nodes.len() {
            Some(g2.nodes.len() as int)
        } else {
            None
        },
    };
    assert(s.nodes[node] == me) by {
        assert(g1.nodes[node] == g.nodes[node]);
        assert(g2.nodes[node] == g1.nodes[node]);
        assert(s.nodes[node] == g2.nodes[node]);
    }
    assert(extends(g1.nodes, s.nodes)) by {
        assert forall|i: int| 0 <= i < g1.nodes.len() implies s.nodes[i]
            == #[trigger] g1.nodes[i] by {
            assert(g2.nodes[i] == g1.nodes[i]);
            assert(s.nodes[i] == g2.nodes[i]);
        }
    }
    if let Some(c) = w.leader_child {
        lemma_sprouted_stays(eval, seed, g1.nodes, s.nodes, c, m + 1, Shoot::Leader, mirrored);
        assert(s.nodes[c] == g1.nodes[c]);
    }
    if let Some(c) = w.side_child {
        lemma_sprouted_stays(eval, seed, g2.nodes, s.nodes, c, m1, Shoot::Side, mirrored);
        assert(s.nodes[c] == g2.nodes[c]);
    }
    assert forall|c: int| 0 <= c < s.nodes.len() && (#[trigger] s.nodes[c]).parent
        == node implies w.leader_child == Some(c) || w.side_child == Some(c) || w.extra_child
        == Some(c) by {
        if c < g1.nodes.len() {
            assert(s.nodes[c] == g1.nodes[c]);
            if c < g.nodes.len() {
                assert(g.nodes[c] == g1.nodes[c]);
            }
        } else if c < g2.nodes.len() {
            assert(s.nodes[c] == g2.nodes[c]);
        }
    }
    assert(forked_as(p, eval, seed, s.nodes, node, w)) by {
        reveal(forked_as);
    }
}

/// A shoot was added exactly when it was long enough, with nothing else
/// on the node.
spec fn shoot_done<F: Fn(Rule) -> u32>(
    p: TreeParams,
    eval: F,
    seed: u64,
    g: Growth,
    s: Growth,
    m: nat,
    node: int,
    shoot: Shoot,
    mirrored: bool,
) -> bool {
    let long = f32_ge_spec(
        value(eval, Rule::Length { shoot, len: g.nodes[node].len, unit: draw(seed, m) }),
        p.min_len,
    );
    let at = g.nodes.len() as int;
    &&& long ==> at < s.nodes.len() && s.nodes[at].parent == node && sprouted(
        eval,
        seed,
        s.nodes,
        at,
        m,
        shoot,
        mirrored,
    )
    &&& !long ==> s.nodes.len() == at
    &&& forall|c: int| at < c < s.nodes.len() ==> (#[trigger] s.nodes[c]).parent != node
}

proof fn lemma_generated_grows<F: Fn(Rule) -> u32>(p: TreeParams, eval: F, seed: u64)
    ensures
        ({
            let nodes = generated(p, eval, seed).nodes;
            &&& nodes.len() > 0
            &&& nodes[0] == (Node {
                parent: 0xFFFF_FFFF,
                depth: 0,
                rest_offset: 0,
                len: p.trunk_len,
                width: p.trunk_width,
                sway_phase: value(eval, Rule::Phase { unit: draw(seed, 0) }),
                sway_speed: value(eval, Rule::Speed { unit: draw(seed, 1) }),
                birth: 0,
            })
            &&& all_shoots(eval, seed, nodes)
            &&& nodes.len() < 8192 ==> all_fork(p, eval, seed, nodes, 0)
        }),
{
    let start = Growth { nodes: Seq::empty(), counter: seed };
    let root = pushed(eval, start, 0xFFFF_FFFF, 0, 0, p.trunk_len, p.trunk_width, 0);
    assert(seed == counter_after(seed, 0));
    assert(advanced(seed) == counter_after(seed, 1));
    assert(root.counter == counter_after(seed, 2));
    let r = lemma_fork_grows(p, eval, seed, root, 2, 0, root.nodes[0]);
    assert(generated(p, eval, seed).nodes[0] == root.nodes[0]);
}

/// The trunk is the root: as long and as wide as the parameters ask,
/// straight, alone at depth zero, and born at zero.
pub proof fn lemma_the_trunk_comes_first<F: Fn(Rule) -> u32>(p: TreeParams, eval: F, seed: u64)
    ensures
        generated(p, eval, seed).nodes.len() > 0,
        generated(p, eval, seed).nodes[0] == (Node {
            parent: 0xFFFF_FFFF,
            depth: 0,
            rest_offset: 0,
            len: p.trunk_len,
            width: p.trunk_width,
            sway_phase: value(eval, Rule::Phase { unit: draw(seed, 0) }),
            sway_speed: value(eval, Rule::Speed { unit: draw(seed, 1) }),
            birth: 0,
        }),
{
    lemma_generated_grows(p, eval, seed);
}

/// Every branch but the trunk is a shoot of its parent: length and width
/// come from the parent's, the draws from the seed, and it sprouts
/// exactly when its parent lets its children sprout.
pub proof fn lemma_branches_are_shoots<F: Fn(Rule) -> u32>(
    p: TreeParams,
    eval: F,
    seed: u64,
    i: int,
)
    requires
        0 < i < generated(p, eval, seed).nodes.len(),
    ensures
        ({
            let nodes = generated(p, eval, seed).nodes;
            let up = nodes[nodes[i].parent as int];
            &&& nodes[i].parent < i
            &&& nodes[i].depth == up.depth + 1
            &&& nodes[i].birth == value(eval, Rule::ChildBirth { birth: up.birth })
            &&& is_shoot(eval, seed, nodes, i)
        }),
{
    lemma_generated_grows(p, eval, seed);
    lemma_generated_trees_are_ordered(p, eval, seed);
    let nodes = generated(p, eval, seed).nodes;
    assert(is_shoot(eval, seed, nodes, i));
}

/// Children are born strictly after their parents, where sprouting takes
/// time.
pub proof fn lemma_children_are_born_later<F: Fn(Rule) -> u32>(
    p: TreeParams,
    eval: F,
    seed: u64,
    i: int,
)
    requires
        0 < i < generated(p, eval, seed).nodes.len(),
        forall|birth: u32| f32_lt_spec(birth, #[trigger] value(eval, Rule::ChildBirth { birth })),
    ensures
        ({
            let nodes = generated(p, eval, seed).nodes;
            f32_lt_spec(nodes[nodes[i].parent as int].birth, nodes[i].birth)
        }),
{
    lemma_branches_are_shoots(p, eval, seed, i);
}

/// Births depend on the depth alone: branches of one depth sprout
/// together, one sprouting later than the depth above.
pub proof fn lemma_depths_sprout_together<F: Fn(Rule) -> u32>(
    p: TreeParams,
    eval: F,
    seed: u64,
    i: int,
    j: int,
)
    requires
        0 <= i < generated(p, eval, seed).nodes.len(),
        0 <= j < generated(p, eval, seed).nodes.len(),
        generated(p, eval, seed).nodes[i].depth == generated(p, eval, seed).nodes[j].depth,
    ensures
        generated(p, eval, seed).nodes[i].birth == generated(p, eval, seed).nodes[j].birth,
    decreases i + j,
{
    let nodes = generated(p, eval, seed).nodes;
    lemma_the_trunk_comes_first(p, eval, seed);
    if i > 0 {
        lemma_branches_are_shoots(p, eval, seed, i);
    }
    if j > 0 {
        lemma_branches_are_shoots(p, eval, seed, j);
    }
    if i > 0 && j > 0 {
        lemma_depths_sprout_together(
            p,
            eval,
            seed,
            nodes[i].parent as int,
            nodes[j].parent as int,
        );
    }
}

/// Every branch above the last level forks, in a tree that stays under
/// the node cap: into a leader, a side branch and the rare third shoot,
/// each present exactly when it is long enough, and nothing else.
pub proof fn lemma_branches_fork<F: Fn(Rule) -> u32>(p: TreeParams, eval: F, seed: u64, i: int)
    requires
        0 <= i < generated(p, eval, seed).nodes.len(),
        generated(p, eval, seed).nodes.len() < 8192,
    ensures
        ({
            let nodes = generated(p, eval, seed).nodes;
            &&& nodes[i].depth < p.max_depth ==> forks(p, eval, seed, nodes, i)
            &&& nodes[i].depth >= p.max_depth ==> is_leaf(nodes, i)
        }),
{
    lemma_generated_grows(p, eval, seed);
    lemma_generated_trees_are_ordered(p, eval, seed);
    let nodes = generated(p, eval, seed).nodes;
    if nodes[i].depth >= p.max_depth {
        assert forall|k: int| 0 <= k < nodes.len() implies (#[trigger] nodes[k]).parent != i by {
            if k > 0 && nodes[k].parent == i {
                assert(nodes[k].depth == nodes[i].depth + 1);
            }
        }
    }
}

/// No branch is shorter than the minimum, or deeper than the cap.
pub proof fn lemma_branches_keep_the_limits<F: Fn(Rule) -> u32>(
    p: TreeParams,
    eval: F,
    seed: u64,
    i: int,
)
    requires
        0 < i < generated(p, eval, seed).nodes.len(),
    ensures
        f32_ge_spec(generated(p, eval, seed).nodes[i].len, p.min_len),
        generated(p, eval, seed).nodes[i].depth <= p.max_depth,
        generated(p, eval, seed).nodes.len() <= 8192,
{
    lemma_generated_trees_are_ordered(p, eval, seed);
}

/// Growth ends with the last branch: no branch is grown later, and unless
/// it ends at zero some branch is grown exactly then.
pub proof fn lemma_growth_ends_with_the_last_branch<F: Fn(Rule) -> u32>(
    eval: F,
    nodes: Seq<Node>,
    i: int,
)
    requires
        0 <= i < nodes.len(),
        forall|k: int|
            0 <= k < nodes.len() ==> !f32_is_nan(
                value(eval, Rule::Grown { birth: (#[trigger] nodes[k]).birth }),
            ),
    ensures
        f32_ge_spec(last_grown(eval, nodes), value(eval, Rule::Grown { birth: nodes[i].birth })),
        f32_ge_spec(last_grown(eval, nodes), 0),
        last_grown(eval, nodes) == 0 || exists|k: int|
            0 <= k < nodes.len() && last_grown(eval, nodes) == value(
                eval,
                Rule::Grown { birth: (#[trigger] nodes[k]).birth },
            ),
    decreases nodes.len(),
{
    let front = nodes.drop_last();
    assert forall|k: int| 0 <= k < front.len() implies #[trigger] front[k] == nodes[k] by {}
    assert(nodes.last() == nodes[nodes.len() - 1]);
    if front.len() > 0 {
        let j = if i < front.len() {
            i
        } else {
            0
        };
        lemma_growth_ends_with_the_last_branch(eval, front, j);
        if last_grown(eval, front) != 0 {
            let k = choose|k: int|
                0 <= k < front.len() && last_grown(eval, front) == value(
                    eval,
                    Rule::Grown { birth: (#[trigger] front[k]).birth },
                );
            assert(nodes[k] == front[k]);
        }
    } else {
        assert(last_grown(eval, front) == 0);
    }
}

/// The leaf count is the number of nodes that are nobody's parent.
pub proof fn lemma_leaves_are_childless(nodes: Seq<Node>, n: int)
    requires
        0 <= n <= nodes.len(),
    ensures
        ({
            let childless = Set::new(
                |i: int|
                    0 <= i < n && !exists|k: int|
                        0 <= k < nodes.len() && (#[trigger] nodes[k]).parent == i,
            );
            childless.finite() && leaves_among(nodes, n) == childless.len()
        }),
    decreases n,
{
    let childless = |n: int|
        Set::new(
            |i: int|
                0 <= i < n && !exists|k: int|
                    0 <= k < nodes.len() && (#[trigger] nodes[k]).parent == i,
        );
    if n == 0 {
        assert(childless(0) =~= Set::empty());
    } else {
        lemma_leaves_are_childless(nodes, n - 1);
        if is_leaf(nodes, n - 1) {
            assert(childless(n) =~= childless(n - 1).insert(n - 1));
        } else {
            assert(childless(n) =~= childless(n - 1));
        }
    }
}

/// A pose is connected: every branch starts at the tip of its parent and
/// swings about the parent's direction, and the trunk stands upright on
/// the ground point.
pub proof fn lemma_poses_are_connected<F: Fn(Node, Joint) -> Segment>(
    nodes: Seq<Node>,
    root: (u32, u32),
    swing: F,
    pose: Seq<Posed>,
    k: int,
)
    requires
        poses(nodes, root, swing, pose),
        0 <= k < nodes.len(),
    ensures
        pose.len() == nodes.len(),
        nodes[k].parent == 0xFFFF_FFFF ==> pose[k].start_x == root.0 && pose[k].start_y == root.1
            && call_ensures(
            swing,
            (nodes[k], Joint { x: root.0, y: root.1, angle: 0x3FC9_0FDB }),
            pose[k].seg,
        ),
        nodes[k].parent != 0xFFFF_FFFF ==> {
            let up = pose[nodes[k].parent as int].seg;
            &&& pose[k].start_x == up.tip_x
            &&& pose[k].start_y == up.tip_y
            &&& call_ensures(
                swing,
                (nodes[k], Joint { x: up.tip_x, y: up.tip_y, angle: up.angle }),
                pose[k].seg,
            )
        },
{
    assert(posed(nodes, root, swing, pose, k));
}

} // verus!
