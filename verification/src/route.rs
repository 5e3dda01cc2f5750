//! The route law: what the search expands, in which order, and why what
//! it returns is the cheapest walk. Everything here is about the map's
//! model; the executable search is `path`.
use vstd::prelude::*;

verus! {

use crate::map::{lemma_index_in_range, lemma_index_injective, MapModel, Tile};

/// The cheapest step on walkable ground: the heuristic's floor.
pub const MIN_COST: u32 = 9;

/// Absolute value.
pub open spec fn abs(v: int) -> int {
    if v < 0 {
        -v
    } else {
        v
    }
}

/// Column of a position.
pub open spec fn col(m: MapModel, i: int) -> int {
    i % m.width()
}

/// Row of a position.
pub open spec fn row(m: MapModel, i: int) -> int {
    i / m.width()
}

/// The tile at a position.
pub open spec fn tile_at(m: MapModel, i: int) -> Tile {
    Tile { x: col(m, i) as i32, z: row(m, i) as i32 }
}

/// Grid distance between two positions.
pub open spec fn manhattan(m: MapModel, a: int, b: int) -> int {
    abs(col(m, a) - col(m, b)) + abs(row(m, a) - row(m, b))
}

/// Lower bound on the remaining cost.
pub open spec fn heuristic(m: MapModel, goal: int, i: int) -> int {
    manhattan(m, i, goal) * 9
}

/// The neighbor law: East, North, West, South, in this order.
pub open spec fn neighbor(m: MapModel, i: int, d: int) -> Option<int> {
    if d == 0 {
        if col(m, i) + 1 < m.width() {
            Some(i + 1)
        } else {
            None
        }
    } else if d == 1 {
        if row(m, i) > 0 {
            Some(i - m.width())
        } else {
            None
        }
    } else if d == 2 {
        if col(m, i) > 0 {
            Some(i - 1)
        } else {
            None
        }
    } else {
        if row(m, i) + 1 < m.height() {
            Some(i + m.width())
        } else {
            None
        }
    }
}

/// The bookkeeping of a search: best known cost and predecessor of every
/// node reached, and the nodes already expanded.
#[verifier::ext_equal]
pub struct Search {
    pub g: Map<int, int>,
    pub from: Map<int, int>,
    pub closed: Set<int>,
}

/// Reached, not expanded yet.
pub open spec fn frontier(s: Search, i: int) -> bool {
    s.g.dom().contains(i) && !s.closed.contains(i)
}

/// Estimated cost of a route through a node.
pub open spec fn key(m: MapModel, goal: int, s: Search, i: int) -> int {
    s.g[i] + heuristic(m, goal, i)
}

/// The frontier order: by estimate, ties by position.
pub open spec fn comes_first(m: MapModel, goal: int, s: Search, i: int, j: int) -> bool {
    key(m, goal, s, i) < key(m, goal, s, j) || (key(m, goal, s, i) == key(m, goal, s, j) && i <= j)
}

/// The node to expand next.
pub open spec fn is_next(m: MapModel, goal: int, s: Search, i: int) -> bool {
    frontier(s, i) && forall|j: int| #[trigger] frontier(s, j) ==> comes_first(m, goal, s, i, j)
}

/// A search that has reached the start and nothing else.
pub open spec fn initial(start: int) -> Search {
    Search {
        g: Map::empty().insert(start, 0int),
        from: Map::empty(),
        closed: Set::empty(),
    }
}

/// The node counts as expanded.
pub open spec fn close(s: Search, i: int) -> Search {
    Search { closed: s.closed.insert(i), ..s }
}

/// Offer the route through `i` to its neighbor in direction `d`: kept
/// when the neighbor is walkable and was unreached or costs less so.
pub open spec fn relax(m: MapModel, s: Search, i: int, d: int) -> Search {
    match neighbor(m, i, d) {
        None => s,
        Some(n) => {
            let g = s.g[i] + m.cost_at(n);
            if m.cost_at(n) > 0 && (!s.g.dom().contains(n) || g < s.g[n]) {
                Search { g: s.g.insert(n, g), from: s.from.insert(n, i), closed: s.closed }
            } else {
                s
            }
        },
    }
}

/// Expand a node: close it and offer it to its neighbors in order.
pub open spec fn expand(m: MapModel, s: Search, i: int) -> Search {
    relax(m, relax(m, relax(m, relax(m, close(s, i), i, 0), i, 1), i, 2), i, 3)
}

/// Expand in frontier order until the goal comes up; `None` when the
/// frontier runs dry.
pub open spec fn search_from(m: MapModel, goal: int, s: Search, fuel: nat) -> Option<Search>
    decreases fuel,
{
    if fuel == 0 || !(exists|i: int| is_next(m, goal, s, i)) {
        None
    } else {
        let i = choose|i: int| is_next(m, goal, s, i);
        if i == goal {
            Some(close(s, i))
        } else {
            search_from(m, goal, expand(m, s, i), (fuel - 1) as nat)
        }
    }
}

/// The whole search. Every round closes another node, so a round per
/// tile and one more to notice that none is left are enough.
pub open spec fn search(m: MapModel, start: int, goal: int) -> Option<Search> {
    search_from(m, goal, initial(start), (m.tiles() + 1) as nat)
}

/// The predecessors of `n` back to the start, start first.
pub open spec fn trace(s: Search, start: int, n: int) -> Seq<int>
    decreases s.g[n],
{
    let p = s.from[n];
    if n == start || !(0 <= s.g[p] < s.g[n]) {
        seq![n]
    } else {
        trace(s, start, p).push(n)
    }
}

/// The route law: refused when an endpoint is not walkable, the single
/// tile when they coincide, else the trace of the search.
pub open spec fn find_route(m: MapModel, start: Tile, goal: Tile) -> Option<Seq<Tile>> {
    if !m.walkable(start) || !m.walkable(goal) {
        None
    } else if start == goal {
        Some(seq![start])
    } else {
        match search(m, m.index(start), m.index(goal)) {
            None => None,
            Some(s) => Some(
                trace(s, m.index(start), m.index(goal)).map_values(|i: int| tile_at(m, i)),
            ),
        }
    }
}

/// One hop: horizontally or vertically adjacent.
pub open spec fn adjacent(a: Tile, b: Tile) -> bool {
    abs(a.x - b.x) + abs(a.z - b.z) == 1
}

/// A walk over walkable tiles from start to goal, both inclusive, every
/// hop adjacent.
pub open spec fn valid_route(m: MapModel, route: Seq<Tile>, start: Tile, goal: Tile) -> bool {
    &&& route.len() > 0
    &&& route[0] == start
    &&& route.last() == goal
    &&& forall|k: int| 0 <= k < route.len() ==> m.walkable(#[trigger] route[k])
    &&& forall|k: int| 0 < k < route.len() ==> adjacent(#[trigger] route[k - 1], route[k])
}

/// What a walk costs: every tile entered, the start excluded.
pub open spec fn route_cost(m: MapModel, route: Seq<Tile>) -> int
    decreases route.len(),
{
    if route.len() <= 1 {
        0
    } else {
        route_cost(m, route.drop_last()) + m.cost(route.last())
    }
}

/// Some walk joins the tiles.
pub open spec fn connected(m: MapModel, start: Tile, goal: Tile) -> bool {
    exists|route: Seq<Tile>| valid_route(m, route, start, goal)
}

// ---------------------------------------------------------------------------
// Grid geometry
// ---------------------------------------------------------------------------

/// A position is its row and column.
pub proof fn lemma_position(m: MapModel, i: int)
    requires
        m.wf(),
        0 <= i < m.tiles(),
    ensures
        0 <= col(m, i) < m.width(),
        0 <= row(m, i) < m.height(),
        i == row(m, i) * m.width() + col(m, i),
        m.width() <= crate::map::MAX_TILES,
        m.height() <= crate::map::MAX_TILES,
        m.in_bounds(tile_at(m, i)),
        m.index(tile_at(m, i)) == i,
        tile_at(m, i).x == col(m, i),
        tile_at(m, i).z == row(m, i),
{
    let w = m.width();
    let h = m.height();
    assert(0 <= i % w < w && 0 <= i / w < h && i == (i / w) * w + i % w) by (nonlinear_arith)
        requires
            w > 0,
            0 <= i < w * h,
    ;
    assert(w <= w * h && h <= w * h) by (nonlinear_arith)
        requires
            w > 0,
            h > 0,
    ;
}

/// The tile of a grid tile's position is that tile.
pub proof fn lemma_tile_of_index(m: MapModel, t: Tile)
    requires
        m.wf(),
        m.in_bounds(t),
    ensures
        0 <= m.index(t) < m.tiles(),
        tile_at(m, m.index(t)) == t,
        col(m, m.index(t)) == t.x,
        row(m, m.index(t)) == t.z,
{
    lemma_index_in_range(m, t);
    lemma_position(m, m.index(t));
    lemma_index_injective(m, t, tile_at(m, m.index(t)));
}

/// The neighbor of a position in direction `d`, by coordinates.
pub open spec fn dx(d: int) -> int {
    if d == 0 {
        1
    } else if d == 2 {
        -1
    } else {
        0
    }
}

/// Row offset of direction `d`.
pub open spec fn dz(d: int) -> int {
    if d == 1 {
        -1
    } else if d == 3 {
        1
    } else {
        0
    }
}

/// A neighbor lies on the grid, one column or row over.
pub proof fn lemma_neighbor(m: MapModel, i: int, d: int)
    requires
        m.wf(),
        0 <= i < m.tiles(),
        0 <= d < 4,
    ensures
        neighbor(m, i, d) is Some <==> (0 <= col(m, i) + dx(d) < m.width() && 0 <= row(m, i) + dz(d)
            < m.height()),
        neighbor(m, i, d) matches Some(n) ==> {
            &&& 0 <= n < m.tiles()
            &&& n != i
            &&& col(m, n) == col(m, i) + dx(d)
            &&& row(m, n) == row(m, i) + dz(d)
        },
{
    lemma_position(m, i);
    let w = m.width();
    let h = m.height();
    let x = col(m, i);
    let z = row(m, i);
    if let Some(n) = neighbor(m, i, d) {
        let nx = x + dx(d);
        let nz = z + dz(d);
        assert(n == nz * w + nx) by (nonlinear_arith)
            requires
                i == z * w + x,
                nx == x + dx(d),
                nz == z + dz(d),
                (d == 0 && n == i + 1 && dx(d) == 1 && dz(d) == 0) || (d == 1 && n == i - w && dx(
                    d,
                ) == 0 && dz(d) == -1) || (d == 2 && n == i - 1 && dx(d) == -1 && dz(d) == 0) || (d
                    == 3 && n == i + w && dx(d) == 0 && dz(d) == 1),
        ;
        let t = Tile { x: nx as i32, z: nz as i32 };
        assert(m.in_bounds(t));
        assert(m.index(t) == n);
        lemma_tile_of_index(m, t);
    }
}

/// Adjacent grid tiles are neighbors in some direction.
proof fn lemma_adjacent_neighbor(m: MapModel, a: Tile, b: Tile)
    requires
        m.wf(),
        m.in_bounds(a),
        m.in_bounds(b),
        adjacent(a, b),
    ensures
        exists|d: int| 0 <= d < 4 && #[trigger] neighbor(m, m.index(a), d) == Some(m.index(b)),
{
    lemma_tile_of_index(m, a);
    lemma_tile_of_index(m, b);
    let d: int = if b.x == a.x + 1 {
        0
    } else if b.z == a.z - 1 {
        1
    } else if b.x == a.x - 1 {
        2
    } else {
        3
    };
    lemma_neighbor(m, m.index(a), d);
    let n = neighbor(m, m.index(a), d)->0;
    lemma_position(m, n);
    lemma_index_injective(m, tile_at(m, n), b);
    assert(neighbor(m, m.index(a), d) == Some(m.index(b)));
}

/// One hop changes the heuristic by at most one step's floor.
proof fn lemma_consistent(m: MapModel, goal: int, i: int, d: int)
    requires
        m.wf(),
        0 <= i < m.tiles(),
        0 <= d < 4,
    ensures
        neighbor(m, i, d) matches Some(n) ==> {
            &&& heuristic(m, goal, i) <= heuristic(m, goal, n) + 9
            &&& heuristic(m, goal, n) <= heuristic(m, goal, i) + 9
        },
{
    lemma_neighbor(m, i, d);
}

/// Step costs are 9 or 10 on open ground and zero elsewhere.
pub proof fn lemma_cost_range(m: MapModel, i: int)
    ensures
        m.cost_at(i) == 0 || 9 <= m.cost_at(i) <= 10,
        m.cost_at(i) > 0 <==> m.open_at(i),
{
}

// ---------------------------------------------------------------------------
// What every reachable search state satisfies
// ---------------------------------------------------------------------------

/// Reached nodes lie on the grid, on open ground, at a bounded cost.
pub open spec fn reached_ok(m: MapModel, s: Search, i: int) -> bool {
    0 <= i < m.tiles() && m.cost_at(i) > 0 && 0 <= s.g[i] <= 10 * s.closed.len()
}

/// A reached node other than the start hangs off an expanded neighbor at
/// exactly the price of the last step.
pub open spec fn parent_ok(m: MapModel, s: Search, n: int) -> bool {
    let p = s.from[n];
    &&& s.from.dom().contains(n)
    &&& s.closed.contains(p)
    &&& exists|d: int| 0 <= d < 4 && #[trigger] neighbor(m, p, d) == Some(n)
    &&& s.g[n] == s.g[p] + m.cost_at(n)
}

/// An expanded node has offered itself to its neighbors in the
/// directions before `upto`.
pub open spec fn offered(m: MapModel, s: Search, c: int, upto: int) -> bool {
    forall|d: int|
        0 <= d < upto ==> (#[trigger] neighbor(m, c, d) matches Some(n) ==> (m.cost_at(n) > 0 ==> {
            &&& s.g.dom().contains(n)
            &&& s.g[n] <= s.g[c] + m.cost_at(n)
        }))
}

/// The part of the invariant that holds between and within expansions.
pub open spec fn base_inv(m: MapModel, start: int, goal: int, s: Search) -> bool {
    &&& m.wf()
    &&& 0 <= goal < m.tiles()
    &&& s.closed.finite()
    &&& s.closed.subset_of(s.g.dom())
    &&& s.g.dom().contains(start)
    &&& s.g[start] == 0
    &&& !s.closed.contains(goal)
    &&& forall|i: int| #[trigger] s.g.dom().contains(i) ==> reached_ok(m, s, i)
    &&& forall|n: int| #[trigger] s.g.dom().contains(n) && n != start ==> parent_ok(m, s, n)
    &&& forall|c: int, j: int|
        #![trigger s.closed.contains(c), frontier(s, j)]
        s.closed.contains(c) && frontier(s, j) ==> key(m, goal, s, c) <= key(m, goal, s, j)
}

/// The search invariant: expanded nodes have offered themselves all
/// round.
pub open spec fn search_inv(m: MapModel, start: int, goal: int, s: Search) -> bool {
    &&& base_inv(m, start, goal, s)
    &&& forall|c: int| #[trigger] s.closed.contains(c) ==> offered(m, s, c, 4)
}

/// The invariant in the middle of expanding `i`.
pub open spec fn mid_inv(m: MapModel, start: int, goal: int, s: Search, i: int, d: int) -> bool {
    &&& base_inv(m, start, goal, s)
    &&& s.closed.contains(i)
    &&& forall|c: int|
        #[trigger] s.closed.contains(c) ==> key(m, goal, s, c) <= key(m, goal, s, i)
    &&& forall|c: int| #[trigger] s.closed.contains(c) && c != i ==> offered(m, s, c, 4)
    &&& offered(m, s, i, d)
    &&& s.g[i] + 10 <= 10 * s.closed.len()
}

/// The fresh search satisfies the invariant.
pub proof fn lemma_initial_inv(m: MapModel, start: int, goal: int)
    requires
        m.wf(),
        0 <= start < m.tiles(),
        0 <= goal < m.tiles(),
        m.cost_at(start) > 0,
    ensures
        search_inv(m, start, goal, initial(start)),
{
}

/// Closing the next node enters the middle of its expansion.
pub proof fn lemma_close_inv(m: MapModel, start: int, goal: int, s: Search, i: int)
    requires
        search_inv(m, start, goal, s),
        is_next(m, goal, s, i),
        i != goal,
    ensures
        mid_inv(m, start, goal, close(s, i), i, 0),
        close(s, i).closed.len() == s.closed.len() + 1,
{
    let t = close(s, i);
    assert(t.closed.len() == s.closed.len() + 1);
    assert(t.closed.subset_of(t.g.dom()));
    assert(reached_ok(m, s, i));
    assert forall|k: int| #[trigger] t.g.dom().contains(k) implies reached_ok(m, t, k) by {
        assert(reached_ok(m, s, k));
    }
    assert forall|n: int| #[trigger] t.g.dom().contains(n) && n != start implies parent_ok(
        m,
        t,
        n,
    ) by {
        assert(parent_ok(m, s, n));
    }
    assert forall|c: int, j: int|
        #![trigger t.closed.contains(c), frontier(t, j)]
        t.closed.contains(c) && frontier(t, j) implies key(m, goal, t, c) <= key(
        m,
        goal,
        t,
        j,
    ) by {
        assert(frontier(s, j));
        if c != i {
            assert(s.closed.contains(c));
        }
    }
    assert forall|c: int| #[trigger] t.closed.contains(c) implies key(m, goal, t, c) <= key(
        m,
        goal,
        t,
        i,
    ) by {
        if c != i {
            assert(s.closed.contains(c));
            assert(frontier(s, i));
        }
    }
    assert forall|c: int| #[trigger] t.closed.contains(c) && c != i implies offered(
        m,
        t,
        c,
        4,
    ) by {
        assert(s.closed.contains(c));
        assert(offered(m, s, c, 4));
        assert forall|d: int|
            0 <= d < 4 implies (#[trigger] neighbor(m, c, d) matches Some(n) ==> (m.cost_at(n) > 0
            ==> {
            &&& t.g.dom().contains(n)
            &&& t.g[n] <= t.g[c] + m.cost_at(n)
        })) by {}
    }
}

/// One offer keeps the middle invariant.
pub proof fn lemma_relax_inv(m: MapModel, start: int, goal: int, s: Search, i: int, d: int)
    requires
        mid_inv(m, start, goal, s, i, d),
        0 <= d < 4,
    ensures
        mid_inv(m, start, goal, relax(m, s, i, d), i, d + 1),
        relax(m, s, i, d).closed == s.closed,
        relax(m, s, i, d).g[i] == s.g[i],
{
    let t = relax(m, s, i, d);
    assert(s.g.dom().contains(i));
    assert(reached_ok(m, s, i));
    lemma_neighbor(m, i, d);
    match neighbor(m, i, d) {
        None => {
            assert(offered(m, t, i, d + 1));
        },
        Some(n) => {
            lemma_cost_range(m, n);
            let g = s.g[i] + m.cost_at(n);
            if m.cost_at(n) > 0 && (!s.g.dom().contains(n) || g < s.g[n]) {
                lemma_consistent(m, goal, i, d);
                if s.closed.contains(n) {
                    assert(key(m, goal, s, n) <= key(m, goal, s, i));
                    assert(false);
                }
                assert(n != start);
                assert(t.closed.subset_of(t.g.dom()));
                assert forall|k: int| #[trigger] t.g.dom().contains(k) implies reached_ok(
                    m,
                    t,
                    k,
                ) by {
                    if k != n {
                        assert(s.g.dom().contains(k));
                        assert(reached_ok(m, s, k));
                    }
                }
                assert forall|k: int| #[trigger] t.g.dom().contains(k) && k != start implies parent_ok(
                    m,
                    t,
                    k,
                ) by {
                    if k != n {
                        assert(s.g.dom().contains(k));
                        assert(parent_ok(m, s, k));
                        assert(s.closed.contains(s.from[k]));
                        assert(t.from[k] == s.from[k]);
                    } else {
                        assert(t.from[n] == i);
                        assert(neighbor(m, i, d) == Some(n));
                    }
                }
                assert forall|c: int, j: int|
                    #![trigger t.closed.contains(c), frontier(t, j)]
                    t.closed.contains(c) && frontier(t, j) implies key(m, goal, t, c) <= key(
                    m,
                    goal,
                    t,
                    j,
                ) by {
                    assert(s.closed.contains(c));
                    assert(key(m, goal, s, c) <= key(m, goal, s, i));
                    if j != n {
                        assert(frontier(s, j));
                    }
                }
                assert forall|c: int| #[trigger] t.closed.contains(c) implies key(m, goal, t, c)
                    <= key(m, goal, t, i) by {
                    assert(s.closed.contains(c));
                }
                assert forall|c: int| #[trigger] t.closed.contains(c) && c != i implies offered(
                    m,
                    t,
                    c,
                    4,
                ) by {
                    assert(s.closed.contains(c));
                    lemma_offered_mono(m, s, t, c, 4, n);
                }
                lemma_offered_mono(m, s, t, i, d, n);
                assert(offered(m, t, i, d + 1));
            } else {
                assert(offered(m, t, i, d + 1));
            }
        },
    }
}

/// Lowering one open node keeps what the expanded nodes have offered.
proof fn lemma_offered_mono(m: MapModel, s: Search, t: Search, c: int, upto: int, n: int)
    requires
        offered(m, s, c, upto),
        c != n,
        t.g == s.g.insert(n, t.g[n]),
        s.g.dom().contains(n) ==> t.g[n] <= s.g[n],
        t.g.dom().contains(n),
    ensures
        offered(m, t, c, upto),
{
    assert forall|d: int|
        0 <= d < upto implies (#[trigger] neighbor(m, c, d) matches Some(k) ==> (m.cost_at(k) > 0
        ==> {
        &&& t.g.dom().contains(k)
        &&& t.g[k] <= t.g[c] + m.cost_at(k)
    })) by {}
}

/// Expanding the next node keeps the invariant and closes one more node.
pub proof fn lemma_expand_inv(m: MapModel, start: int, goal: int, s: Search, i: int)
    requires
        search_inv(m, start, goal, s),
        is_next(m, goal, s, i),
        i != goal,
    ensures
        search_inv(m, start, goal, expand(m, s, i)),
        expand(m, s, i).closed == s.closed.insert(i),
        expand(m, s, i).closed.len() == s.closed.len() + 1,
{
    lemma_close_inv(m, start, goal, s, i);
    let s0 = close(s, i);
    lemma_relax_inv(m, start, goal, s0, i, 0);
    let s1 = relax(m, s0, i, 0);
    lemma_relax_inv(m, start, goal, s1, i, 1);
    let s2 = relax(m, s1, i, 1);
    lemma_relax_inv(m, start, goal, s2, i, 2);
    let s3 = relax(m, s2, i, 2);
    lemma_relax_inv(m, start, goal, s3, i, 3);
}

/// Expanded nodes are grid positions, so there are at most as many as
/// tiles, and fewer while one is still on the frontier.
pub proof fn lemma_closed_bound(m: MapModel, start: int, goal: int, s: Search)
    requires
        search_inv(m, start, goal, s),
    ensures
        s.closed.len() < m.tiles(),
{
    let all = vstd::set_lib::set_int_range(0, m.tiles());
    vstd::set_lib::lemma_int_range(0, m.tiles());
    assert forall|c: int| s.closed.insert(goal).contains(c) implies all.contains(c) by {
        if c != goal {
            assert(s.g.dom().contains(c));
            assert(reached_ok(m, s, c));
        }
    }
    vstd::set_lib::lemma_len_subset(s.closed.insert(goal), all);
}

// ---------------------------------------------------------------------------
// Soundness, completeness, optimality
// ---------------------------------------------------------------------------

/// At most one node comes next.
pub proof fn lemma_next_unique(m: MapModel, goal: int, s: Search, i: int, j: int)
    requires
        is_next(m, goal, s, i),
        is_next(m, goal, s, j),
    ensures
        i == j,
{
    assert(frontier(s, i));
    assert(frontier(s, j));
}

/// Among the frontier positions below `n`, one comes first.
proof fn lemma_least_below(m: MapModel, goal: int, s: Search, n: int) -> (r: Option<int>)
    requires
        0 <= n,
    ensures
        match r {
            None => forall|j: int| 0 <= j < n ==> !#[trigger] frontier(s, j),
            Some(i) => 0 <= i < n && frontier(s, i) && forall|j: int|
                0 <= j < n && #[trigger] frontier(s, j) ==> comes_first(m, goal, s, i, j),
        },
    decreases n,
{
    if n == 0 {
        None
    } else {
        let below = lemma_least_below(m, goal, s, n - 1);
        if !frontier(s, n - 1) {
            below
        } else {
            match below {
                None => Some(n - 1),
                Some(i) => if comes_first(m, goal, s, i, n - 1) {
                    Some(i)
                } else {
                    Some(n - 1)
                },
            }
        }
    }
}

/// A frontier that is not empty has a next node.
pub proof fn lemma_next_exists(m: MapModel, start: int, goal: int, s: Search, j: int)
    requires
        search_inv(m, start, goal, s),
        frontier(s, j),
    ensures
        exists|i: int| is_next(m, goal, s, i),
{
    let r = lemma_least_below(m, goal, s, m.tiles());
    assert(reached_ok(m, s, j));
    let i = r->0;
    assert forall|k: int| #[trigger] frontier(s, k) implies comes_first(m, goal, s, i, k) by {
        assert(reached_ok(m, s, k));
    }
    assert(is_next(m, goal, s, i));
}

/// The tiles of a trace.
pub open spec fn trace_tiles(m: MapModel, s: Search, start: int, n: int) -> Seq<Tile> {
    trace(s, start, n).map_values(|i: int| tile_at(m, i))
}

/// The predecessor of a reached node costs less and is reached.
pub proof fn lemma_parent(m: MapModel, start: int, goal: int, s: Search, n: int)
    requires
        base_inv(m, start, goal, s),
        s.g.dom().contains(n),
        n != start,
    ensures
        s.g.dom().contains(s.from[n]),
        0 <= s.g[s.from[n]] < s.g[n],
        0 <= s.from[n] < m.tiles(),
        adjacent(tile_at(m, s.from[n]), tile_at(m, n)),
{
    let p = s.from[n];
    assert(parent_ok(m, s, n));
    assert(s.g.dom().contains(p));
    assert(reached_ok(m, s, p));
    assert(reached_ok(m, s, n));
    let d = choose|d: int| 0 <= d < 4 && #[trigger] neighbor(m, p, d) == Some(n);
    lemma_neighbor(m, p, d);
    lemma_position(m, p);
    lemma_position(m, n);
}

/// The trace of a reached node is a valid walk from the start that costs
/// exactly what the search recorded.
pub proof fn lemma_trace_valid(m: MapModel, start: int, goal: int, s: Search, n: int)
    requires
        base_inv(m, start, goal, s),
        s.g.dom().contains(n),
    ensures
        valid_route(m, trace_tiles(m, s, start, n), tile_at(m, start), tile_at(m, n)),
        route_cost(m, trace_tiles(m, s, start, n)) == s.g[n],
        trace(s, start, n).len() > 0,
    decreases s.g[n],
{
    let r = trace_tiles(m, s, start, n);
    assert(reached_ok(m, s, n));
    lemma_position(m, n);
    lemma_cost_range(m, n);
    if n == start {
        assert(r =~= seq![tile_at(m, n)]);
        assert(r[0] == tile_at(m, n));
    } else {
        let p = s.from[n];
        lemma_parent(m, start, goal, s, n);
        lemma_trace_valid(m, start, goal, s, p);
        let q = trace_tiles(m, s, start, p);
        assert(r =~= q.push(tile_at(m, n)));
        assert(r.drop_last() =~= q);
        assert(parent_ok(m, s, n));
        assert forall|k: int| 0 <= k < r.len() implies m.walkable(#[trigger] r[k]) by {
            if k < q.len() {
                assert(m.walkable(q[k]));
            }
        }
        assert forall|k: int| 0 < k < r.len() implies adjacent(#[trigger] r[k - 1], r[k]) by {
            if k < q.len() {
                assert(adjacent(q[k - 1], q[k]));
            } else {
                assert(r[k - 1] == q.last());
            }
        }
        assert(r[0] == q[0]);
    }
}

/// From tile `j` of a walk on, the rest costs at least the heuristic.
proof fn lemma_suffix_bound(m: MapModel, route: Seq<Tile>, start: Tile, goal: Tile, j: int)
    requires
        m.wf(),
        valid_route(m, route, start, goal),
        0 <= j < route.len(),
    ensures
        route_cost(m, route) >= route_cost(m, route.take(j + 1)) + heuristic(
            m,
            m.index(goal),
            m.index(route[j]),
        ),
    decreases route.len() - j,
{
    assert(m.walkable(route[j]));
    lemma_tile_of_index(m, route[j]);
    assert(m.walkable(route[route.len() - 1]));
    lemma_tile_of_index(m, goal);
    if j == route.len() - 1 {
        assert(route.take(j + 1) =~= route);
    } else {
        lemma_suffix_bound(m, route, start, goal, j + 1);
        let longer = route.take(j + 2);
        assert(longer.drop_last() =~= route.take(j + 1));
        assert(longer.last() == route[j + 1]);
        assert(m.walkable(route[j + 1]));
        lemma_tile_of_index(m, route[j + 1]);
        lemma_cost_range(m, m.index(route[j + 1]));
        assert(adjacent(route[j + 1 - 1], route[j + 1]));
    }
}

/// While a walk's tiles are expanded, the search knows their prefix at
/// no more than its cost; the first tile that is not expanded is on the
/// frontier.
proof fn lemma_leaves_closed(
    m: MapModel,
    start: int,
    goal: int,
    s: Search,
    route: Seq<Tile>,
    j: int,
) -> (k: int)
    requires
        search_inv(m, start, goal, s),
        valid_route(m, route, tile_at(m, start), tile_at(m, goal)),
        0 <= start < m.tiles(),
        0 <= j < route.len(),
        s.g.dom().contains(m.index(route[j])),
        s.g[m.index(route[j])] <= route_cost(m, route.take(j + 1)),
    ensures
        0 <= k < route.len(),
        frontier(s, m.index(route[k])),
        s.g[m.index(route[k])] <= route_cost(m, route.take(k + 1)),
    decreases route.len() - j,
{
    let c = m.index(route[j]);
    lemma_position(m, goal);
    if !s.closed.contains(c) {
        j
    } else {
        assert(j < route.len() - 1);
        assert(m.walkable(route[j]));
        assert(m.walkable(route[j + 1]));
        assert(adjacent(route[j + 1 - 1], route[j + 1]));
        lemma_adjacent_neighbor(m, route[j], route[j + 1]);
        let n = m.index(route[j + 1]);
        let d = choose|d: int| 0 <= d < 4 && #[trigger] neighbor(m, c, d) == Some(n);
        assert(offered(m, s, c, 4));
        lemma_cost_range(m, n);
        let longer = route.take(j + 2);
        assert(longer.drop_last() =~= route.take(j + 1));
        assert(longer.last() == route[j + 1]);
        lemma_leaves_closed(m, start, goal, s, route, j + 1)
    }
}

/// When the goal comes next, no walk to it costs less than recorded.
proof fn lemma_goal_is_optimal(m: MapModel, start: int, goal: int, s: Search, route: Seq<Tile>)
    requires
        search_inv(m, start, goal, s),
        is_next(m, goal, s, goal),
        valid_route(m, route, tile_at(m, start), tile_at(m, goal)),
        0 <= start < m.tiles(),
    ensures
        route_cost(m, route) >= s.g[goal],
{
    lemma_position(m, start);
    lemma_position(m, goal);
    assert(route.take(1).len() == 1);
    let k = lemma_leaves_closed(m, start, goal, s, route, 0);
    let n = m.index(route[k]);
    assert(comes_first(m, goal, s, goal, n));
    lemma_suffix_bound(m, route, tile_at(m, start), tile_at(m, goal), k);
}

/// When the frontier is empty, no walk reaches the goal.
proof fn lemma_dry_is_disconnected(m: MapModel, start: int, goal: int, s: Search, route: Seq<Tile>)
    requires
        search_inv(m, start, goal, s),
        forall|i: int| !#[trigger] is_next(m, goal, s, i),
        0 <= start < m.tiles(),
    ensures
        !valid_route(m, route, tile_at(m, start), tile_at(m, goal)),
{
    if valid_route(m, route, tile_at(m, start), tile_at(m, goal)) {
        lemma_position(m, start);
        assert(route.take(1).len() == 1);
        let k = lemma_leaves_closed(m, start, goal, s, route, 0);
        lemma_next_exists(m, start, goal, s, m.index(route[k]));
    }
}

/// What a finished search says about the map.
pub open spec fn settles(m: MapModel, start: int, goal: int, found: Option<Search>) -> bool {
    let a = tile_at(m, start);
    let b = tile_at(m, goal);
    match found {
        None => !connected(m, a, b),
        Some(t) => {
            let route = trace_tiles(m, t, start, goal);
            &&& valid_route(m, route, a, b)
            &&& forall|other: Seq<Tile>| #[trigger]
                valid_route(m, other, a, b) ==> route_cost(m, route) <= route_cost(m, other)
        },
    }
}

/// A trace reads costs and predecessors only.
proof fn lemma_trace_ignores_closed(s: Search, t: Search, start: int, n: int)
    requires
        s.g == t.g,
        s.from == t.from,
    ensures
        trace(s, start, n) == trace(t, start, n),
    decreases s.g[n],
{
    let p = s.from[n];
    if n != start && 0 <= s.g[p] < s.g[n] {
        lemma_trace_ignores_closed(s, t, start, p);
    }
}

/// From any state the search reaches, its outcome settles the query.
pub proof fn lemma_search_settles(m: MapModel, start: int, goal: int, s: Search, fuel: nat)
    requires
        search_inv(m, start, goal, s),
        0 <= start < m.tiles(),
        fuel + s.closed.len() == m.tiles() + 1,
    ensures
        settles(m, start, goal, search_from(m, goal, s, fuel)),
    decreases fuel,
{
    lemma_closed_bound(m, start, goal, s);
    if exists|i: int| is_next(m, goal, s, i) {
        let i = choose|i: int| is_next(m, goal, s, i);
        if i == goal {
            let t = close(s, i);
            lemma_trace_valid(m, start, goal, s, goal);
            lemma_trace_ignores_closed(s, t, start, goal);
            assert forall|other: Seq<Tile>| #[trigger]
                valid_route(m, other, tile_at(m, start), tile_at(m, goal)) implies route_cost(
                m,
                trace_tiles(m, t, start, goal),
            ) <= route_cost(m, other) by {
                lemma_goal_is_optimal(m, start, goal, s, other);
            }
        } else {
            lemma_expand_inv(m, start, goal, s, i);
            lemma_search_settles(m, start, goal, expand(m, s, i), (fuel - 1) as nat);
        }
    } else {
        assert forall|route: Seq<Tile>| !#[trigger]
            valid_route(m, route, tile_at(m, start), tile_at(m, goal)) by {
            lemma_dry_is_disconnected(m, start, goal, s, route);
        }
    }
}

/// The route law is sound, complete and optimal: a route comes out if
/// and only if some walk joins the endpoints; it is a valid walk, and no
/// valid walk is cheaper.
pub proof fn lemma_route_law(m: MapModel, start: Tile, goal: Tile)
    requires
        m.wf(),
    ensures
        find_route(m, start, goal) is Some <==> connected(m, start, goal),
        find_route(m, start, goal) matches Some(route) ==> {
            &&& valid_route(m, route, start, goal)
            &&& forall|other: Seq<Tile>| #[trigger]
                valid_route(m, other, start, goal) ==> route_cost(m, route) <= route_cost(m, other)
        },
{
    if !m.walkable(start) || !m.walkable(goal) {
        assert forall|route: Seq<Tile>| !#[trigger] valid_route(m, route, start, goal) by {
            if valid_route(m, route, start, goal) {
                assert(m.walkable(route[0]));
                assert(m.walkable(route[route.len() - 1]));
            }
        }
    } else if start == goal {
        let route = seq![start];
        assert(route[0] == start);
        assert(valid_route(m, route, start, goal));
        assert forall|other: Seq<Tile>| #[trigger]
            valid_route(m, other, start, goal) implies route_cost(m, route) <= route_cost(
            m,
            other,
        ) by {
            lemma_cost_non_negative(m, other);
        }
    } else {
        let si = m.index(start);
        let gi = m.index(goal);
        lemma_tile_of_index(m, start);
        lemma_tile_of_index(m, goal);
        lemma_cost_range(m, si);
        lemma_initial_inv(m, si, gi);
        lemma_search_settles(m, si, gi, initial(si), (m.tiles() + 1) as nat);
    }
}

/// Walks never cost less than nothing.
proof fn lemma_cost_non_negative(m: MapModel, route: Seq<Tile>)
    ensures
        route_cost(m, route) >= 0,
    decreases route.len(),
{
    if route.len() > 1 {
        lemma_cost_non_negative(m, route.drop_last());
    }
}

} // verus!
