//! A* over the map's tile grid. A `Pathfinder` owns its scratchpad for
//! one map size; queries stamp entries with a generation counter instead
//! of clearing arrays. Neighbors open East, North, West, South, frontier
//! ties break on `(estimate, position)`, and a step costs the entered
//! tile, so the same query on the same map always gives the same route.
use vstd::multiset::Multiset;
use vstd::prelude::*;
use crate::heap::MinHeap;
use crate::map::{Tile, TileMap, MAX_TILES};
use crate::route::MIN_COST;

verus! {

use crate::map::{lemma_index_in_range, MapModel};
use crate::heap::pair_le;
use crate::route::{
    base_inv, close, connected, dx, dz, expand, find_route, frontier, heuristic, initial, is_next, key,
    lemma_close_inv, lemma_closed_bound, lemma_cost_range, lemma_expand_inv, lemma_initial_inv,
    lemma_neighbor, lemma_next_unique, lemma_parent, lemma_position, lemma_relax_inv, lemma_route_law,
    lemma_tile_of_index, mid_inv, neighbor, reached_ok, relax, route_cost, search, search_from,
    search_inv, tile_at, trace, valid_route, Search,
};

/// Predecessor of the start: none.
const NO_PARENT: u32 = u32::MAX;

/// Reusable A* scratchpad over one map size.
pub struct Pathfinder {
    width: u32,
    height: u32,
    generation: u32,
    open: MinHeap,
    g_score: Vec<u32>,
    came_from: Vec<u32>,
    stamp: Vec<u32>,
    closed: Vec<u32>,
}

/// The heap entry of a frontier node.
spec fn entry(m: MapModel, goal: int, s: Search, i: int) -> (u32, u32) {
    (key(m, goal, s, i) as u32, i as u32)
}

/// The open list against the search: entries never undercut their node,
/// and every frontier node has its own.
spec fn heap_ok(heap: Multiset<(u32, u32)>, m: MapModel, goal: int, s: Search) -> bool {
    &&& forall|e: (u32, u32)| #[trigger]
        heap.contains(e) ==> s.g.dom().contains(e.1 as int) && e.0 >= key(m, goal, s, e.1 as int)
    &&& forall|i: int| #[trigger] frontier(s, i) ==> heap.contains(entry(m, goal, s, i))
}

/// Estimates fit the heap's keys.
proof fn lemma_key_fits(m: MapModel, goal: int, s: Search, i: int)
    requires
        m.wf(),
        0 <= goal < m.tiles(),
        0 <= i < m.tiles(),
        s.g[i] <= 10 * (m.tiles() + 1),
        0 <= s.g[i],
    ensures
        0 <= heuristic(m, goal, i) <= 9 * (m.width() + m.height()),
        0 <= key(m, goal, s, i) < u32::MAX,
        9 * (m.width() + m.height()) < u32::MAX / 2,
{
    lemma_position(m, i);
    lemma_position(m, goal);
    let w = m.width();
    let h = m.height();
    assert(w + h <= w * h + 1) by (nonlinear_arith)
        requires
            w >= 1,
            h >= 1,
    ;
}

/// An unexpanded node at the top of the open list is the next one.
proof fn lemma_least_is_next(
    heap: Multiset<(u32, u32)>,
    m: MapModel,
    start: int,
    goal: int,
    s: Search,
    least: (u32, u32),
)
    requires
        heap_ok(heap, m, goal, s),
        search_inv(m, start, goal, s),
        s.closed.len() <= m.tiles(),
        heap.contains(least),
        forall|x: (u32, u32)| #[trigger] heap.contains(x) ==> pair_le(least, x),
        !s.closed.contains(least.1 as int),
    ensures
        is_next(m, goal, s, least.1 as int),
{
    let i = least.1 as int;
    assert(frontier(s, i));
    assert forall|j: int| #[trigger] frontier(s, j) implies crate::route::comes_first(
        m,
        goal,
        s,
        i,
        j,
    ) by {
        assert(reached_ok(m, s, i));
        assert(reached_ok(m, s, j));
        lemma_key_fits(m, goal, s, i);
        lemma_key_fits(m, goal, s, j);
        assert(heap.contains(entry(m, goal, s, i)));
        assert(heap.contains(entry(m, goal, s, j)));
    }
}

/// Dropping the entry of an expanded node leaves the frontier covered.
proof fn lemma_pop_keeps_cover(
    heap: Multiset<(u32, u32)>,
    m: MapModel,
    start: int,
    goal: int,
    s: Search,
    t: Search,
    least: (u32, u32),
)
    requires
        heap_ok(heap, m, goal, s),
        base_inv(m, start, goal, s),
        t.g == s.g,
        forall|i: int| frontier(t, i) ==> #[trigger] frontier(s, i),
        !frontier(t, least.1 as int),
        heap.contains(least),
    ensures
        heap_ok(heap.remove(least), m, goal, t),
{
    let rest = heap.remove(least);
    assert forall|e: (u32, u32)| #[trigger] rest.contains(e) implies t.g.dom().contains(e.1 as int)
        && e.0 >= key(m, goal, t, e.1 as int) by {
        assert(heap.contains(e));
    }
    assert forall|k: int| #[trigger] frontier(t, k) implies rest.contains(entry(m, goal, t, k)) by {
        assert(frontier(s, k));
        assert(reached_ok(m, s, k));
        assert(heap.contains(entry(m, goal, s, k)));
        assert(entry(m, goal, s, k).1 == k);
    }
}

/// Reverse a route in place.
fn reverse_tiles(out: &mut Vec<Tile>)
    ensures
        final(out)@ == old(out)@.reverse(),
{
    let n: usize = out.len();
    let mut k: usize = 0;
    while k < n / 2
        invariant
            n == out@.len(),
            n == old(out)@.len(),
            k <= n / 2,
            forall|j: int| 0 <= j < k ==> #[trigger] out@[j] == old(out)@[n - 1 - j],
            forall|j: int| n - k <= j < n ==> #[trigger] out@[j] == old(out)@[n - 1 - j],
            forall|j: int| k <= j < n - k ==> #[trigger] out@[j] == old(out)@[j],
        decreases n - k,
    {
        let a: Tile = out[k];
        let b: Tile = out[n - 1 - k];
        out.set(k, b);
        out.set(n - 1 - k, a);
        k = k + 1;
    }
    proof {
        assert(out@ =~= old(out)@.reverse());
    }
}

impl Pathfinder {
    /// The scratchpad has one slot per tile and no slot is stamped for a
    /// later query than the last.
    pub closed spec fn wf(&self) -> bool {
        let n = self.width as int * self.height as int;
        &&& 0 < n <= MAX_TILES
        &&& self.open.wf()
        &&& self.g_score@.len() == n
        &&& self.came_from@.len() == n
        &&& self.stamp@.len() == n
        &&& self.closed@.len() == n
        &&& forall|i: int| 0 <= i < n ==> #[trigger] self.stamp@[i] <= self.generation
        &&& forall|i: int| 0 <= i < n ==> #[trigger] self.closed@[i] <= self.generation
    }

    /// The map size the scratchpad serves.
    pub closed spec fn size(&self) -> (int, int) {
        (self.width as int, self.height as int)
    }

    /// The scratchpad is sized for this map.
    pub open spec fn fits(&self, m: MapModel) -> bool {
        self.size() == (m.width(), m.height())
    }

    /// The scratch arrays hold the search `s`.
    spec fn holds(&self, m: MapModel, start: int, s: Search) -> bool {
        let n = m.tiles();
        &&& self.fits(m)
        &&& self.g_score@.len() == n
        &&& self.came_from@.len() == n
        &&& self.stamp@.len() == n
        &&& self.closed@.len() == n
        &&& forall|i: int|
            0 <= i < n ==> (s.g.dom().contains(i) <==> #[trigger] self.stamp@[i]
                == self.generation)
        &&& forall|i: int|
            0 <= i < n && s.g.dom().contains(i) ==> #[trigger] self.g_score@[i] == s.g[i]
        &&& forall|i: int|
            0 <= i < n && s.g.dom().contains(i) && i != start ==> #[trigger] self.came_from@[i]
                == s.from[i]
        &&& forall|i: int|
            0 <= i < n ==> (s.closed.contains(i) <==> #[trigger] self.closed@[i]
                == self.generation)
        &&& forall|i: int| 0 <= i < n ==> #[trigger] self.stamp@[i] <= self.generation
        &&& forall|i: int| 0 <= i < n ==> #[trigger] self.closed@[i] <= self.generation
    }

    /// No slot carries the current generation.
    spec fn unstamped(&self) -> bool {
        &&& forall|i: int|
            0 <= i < self.stamp@.len() ==> #[trigger] self.stamp@[i] < self.generation
        &&& forall|i: int|
            0 <= i < self.closed@.len() ==> #[trigger] self.closed@[i] < self.generation
    }

    /// A scratchpad for maps of this size.
    pub fn new(map: &TileMap) -> (p: Pathfinder)
        requires
            map.wf(),
        ensures
            p.wf(),
            p.fits(map@),
    {
        proof {
            map.lemma_cache_is_fresh();
            let w = map@.width();
            let h = map@.height();
            assert(w * h > 0) by (nonlinear_arith)
                requires
                    w > 0,
                    h > 0,
            ;
        }
        let tiles: usize = map.tile_count();
        Pathfinder {
            width: map.width(),
            height: map.height(),
            generation: 0,
            open: MinHeap::new(),
            g_score: vec![u32::MAX; tiles],
            came_from: vec![NO_PARENT; tiles],
            stamp: vec![0; tiles],
            closed: vec![0; tiles],
        }
    }

    /// Find the route from `start` to `goal`, both inclusive, into `out`
    /// (cleared first). False, with `out` empty, when an endpoint is out
    /// of bounds or not walkable, or when nothing connects them.
    pub fn find_path_into(
        &mut self,
        map: &TileMap,
        start: Tile,
        goal: Tile,
        out: &mut Vec<Tile>,
    ) -> (r: bool)
        requires
            old(self).wf(),
            map.wf(),
            old(self).fits(map@),
        ensures
            final(self).wf(),
            final(self).fits(map@),
            r == connected(map@, start, goal),
            match find_route(map@, start, goal) {
                None => !r && final(out)@ == Seq::<Tile>::empty(),
                Some(route) => {
                    &&& r
                    &&& final(out)@ == route
                    &&& valid_route(map@, route, start, goal)
                    &&& forall|other: Seq<Tile>| #[trigger]
                        valid_route(map@, other, start, goal) ==> route_cost(map@, route)
                            <= route_cost(map@, other)
                },
            },
    {
        let ghost m = map@;
        proof {
            map.lemma_cache_is_fresh();
            lemma_route_law(m, start, goal);
        }
        out.clear();
        if !map.walkable(start) || !map.walkable(goal) {
            return false;
        }
        if start == goal {
            out.push(start);
            proof {
                assert(out@ =~= seq![start]);
            }
            return true;
        }
        self.begin_query();
        proof {
            lemma_tile_of_index(m, start);
            lemma_tile_of_index(m, goal);
            lemma_cost_range(m, m.index(start));
        }
        let si: usize = self.index(start, Ghost(m));
        let gi: usize = self.index(goal, Ghost(m));
        let ghost mut s: Search = initial(si as int);
        proof {
            lemma_initial_inv(m, si as int, gi as int);
            lemma_key_fits(m, gi as int, s, si as int);
        }
        let h0: u32 = self.estimate(start, goal, Ghost(m));
        self.stamp.set(si, self.generation);
        self.g_score.set(si, 0);
        self.came_from.set(si, NO_PARENT);
        let ghost bare = self.open@;
        self.open.push((h0, si as u32));
        let ghost mut fuel: nat = (m.tiles() + 1) as nat;
        proof {
            assert(heap_ok(self.open@, m, gi as int, s)) by {
                assert forall|i: int| #[trigger] frontier(s, i) implies self.open@.contains(
                    entry(m, gi as int, s, i),
                ) by {
                    assert(i == si);
                }
                assert forall|e: (u32, u32)| #[trigger] self.open@.contains(e) implies s.g.dom().contains(
                e.1 as int) && e.0 >= key(m, gi as int, s, e.1 as int) by {
                    assert(bare.count(e) == 0);
                    assert(e == (h0, si as u32));
                }
            }
            assert(self.holds(m, si as int, s));
        }
        loop
            invariant
                map.wf(),
                m == map@,
                m.wf(),
                self.wf(),
                self.holds(m, si as int, s),
                heap_ok(self.open@, m, gi as int, s),
                search_inv(m, si as int, gi as int, s),
                fuel + s.closed.len() == m.tiles() + 1,
                search_from(m, gi as int, s, fuel) == search(m, si as int, gi as int),
                si == m.index(start),
                gi == m.index(goal),
                0 <= si < m.tiles(),
                m.walkable(start),
                m.walkable(goal),
                start != goal,
                out@ == Seq::<Tile>::empty(),
            decreases m.tiles() - s.closed.len(), self.open@.len(),
        {
            proof {
                lemma_closed_bound(m, si as int, gi as int, s);
            }
            let ghost heap = self.open@;
            let popped = self.open.pop();
            match popped {
                None => {
                    proof {
                        assert forall|i: int| !#[trigger] is_next(m, gi as int, s, i) by {
                            if is_next(m, gi as int, s, i) {
                                assert(frontier(s, i));
                                assert(heap.contains(entry(m, gi as int, s, i)));
                            }
                        }
                        lemma_route_law(m, start, goal);
                    }
                    return false;
                },
                Some(least) => {
                    let i: u32 = least.1;
                    proof {
                        assert(reached_ok(m, s, i as int));
                    }
                    if self.closed[i as usize] == self.generation {
                        proof {
                            assert(s.closed.contains(i as int));
                            lemma_pop_keeps_cover(heap, m, si as int, gi as int, s, s, least);
                        }
                        continue ;
                    }
                    proof {
                        lemma_least_is_next(heap, m, si as int, gi as int, s, least);
                        let pick = choose|k: int| is_next(m, gi as int, s, k);
                        lemma_next_unique(m, gi as int, s, pick, i as int);
                    }
                    self.closed.set(i as usize, self.generation);
                    let ghost before = s;
                    proof {
                        s = close(before, i as int);
                        lemma_pop_keeps_cover(heap, m, si as int, gi as int, before, s, least);
                        assert(self.holds(m, si as int, s));
                    }
                    if i as usize == gi {
                        proof {
                            lemma_route_law(m, start, goal);
                            assert(search(m, si as int, gi as int) == Some(s));
                        }
                        self.reconstruct(si, gi, out, Ghost(m), Ghost(before), Ghost(s));
                        return true;
                    }
                    self.expand_node(map, goal, i, Ghost(si as int), Ghost(before));
                    proof {
                        lemma_expand_inv(m, si as int, gi as int, before, i as int);
                        s = expand(m, before, i as int);
                        fuel = (fuel - 1) as nat;
                    }
                },
            }
        }
    }

    /// The route as a fresh buffer; `None` where `find_path_into` refuses.
    pub fn find_path(&mut self, map: &TileMap, start: Tile, goal: Tile) -> (r: Option<Vec<Tile>>)
        requires
            old(self).wf(),
            map.wf(),
            old(self).fits(map@),
        ensures
            final(self).wf(),
            final(self).fits(map@),
            match find_route(map@, start, goal) {
                None => r is None,
                Some(route) => r matches Some(v) && v@ == route,
            },
            r is Some <==> connected(map@, start, goal),
    {
        let mut out: Vec<Tile> = Vec::new();
        if self.find_path_into(map, start, goal, &mut out) {
            Some(out)
        } else {
            None
        }
    }

    /// Start a query: a fresh generation that no slot carries, and an
    /// empty open list. When the counter wraps, one full clear keeps
    /// zero meaning "never stamped".
    fn begin_query(&mut self)
        requires
            old(self).wf(),
        ensures
            final(self).wf(),
            final(self).size() == old(self).size(),
            final(self).open@ == Multiset::<(u32, u32)>::empty(),
            final(self).unstamped(),
    {
        if self.generation == u32::MAX {
            let n: usize = self.stamp.len();
            let mut k: usize = 0;
            while k < n
                invariant
                    k <= n,
                    n == self.stamp@.len(),
                    n == self.closed@.len(),
                    self.wf(),
                    self.size() == old(self).size(),
                    forall|j: int| 0 <= j < k ==> #[trigger] self.stamp@[j] == 0,
                    forall|j: int| 0 <= j < k ==> #[trigger] self.closed@[j] == 0,
                decreases n - k,
            {
                self.stamp.set(k, 0);
                self.closed.set(k, 0);
                k = k + 1;
            }
            self.generation = 1;
        } else {
            self.generation = self.generation + 1;
        }
        self.open.clear();
    }

    /// Row-major position of a tile.
    fn index(&self, t: Tile, Ghost(m): Ghost<MapModel>) -> (r: usize)
        requires
            self.fits(m),
            m.wf(),
            m.in_bounds(t),
        ensures
            r == m.index(t),
            r < m.tiles(),
    {
        proof {
            lemma_index_in_range(m, t);
            let w = m.width();
            let z = t.z as int;
            assert(0 <= z * w) by (nonlinear_arith)
                requires
                    0 <= z,
                    0 <= w,
            ;
        }
        t.z as usize * self.width as usize + t.x as usize
    }

    /// The tile at a position.
    fn tile(&self, i: usize, Ghost(m): Ghost<MapModel>) -> (r: Tile)
        requires
            self.fits(m),
            m.wf(),
            i < m.tiles(),
        ensures
            r == tile_at(m, i as int),
    {
        proof {
            lemma_position(m, i as int);
        }
        Tile { x: (i % self.width as usize) as i32, z: (i / self.width as usize) as i32 }
    }

    /// The heuristic from one grid tile to another.
    fn estimate(&self, t: Tile, goal: Tile, Ghost(m): Ghost<MapModel>) -> (r: u32)
        requires
            m.wf(),
            m.in_bounds(t),
            m.in_bounds(goal),
        ensures
            r == heuristic(m, m.index(goal), m.index(t)),
    {
        proof {
            lemma_tile_of_index(m, t);
            lemma_tile_of_index(m, goal);
            lemma_position(m, m.index(t));
            let fresh = initial(m.index(t));
            lemma_key_fits(m, m.index(goal), fresh, m.index(t));
        }
        let ax: u32 = if t.x >= goal.x {
            (t.x - goal.x) as u32
        } else {
            (goal.x - t.x) as u32
        };
        let az: u32 = if t.z >= goal.z {
            (t.z - goal.z) as u32
        } else {
            (goal.z - t.z) as u32
        };
        (ax + az) * MIN_COST
    }

    /// Offer a closed node to its four neighbors in order.
    fn expand_node(
        &mut self,
        map: &TileMap,
        goal: Tile,
        i: u32,
        Ghost(start): Ghost<int>,
        Ghost(before): Ghost<Search>,
    )
        requires
            map.wf(),
            map@.wf(),
            old(self).wf(),
            map@.in_bounds(goal),
            i != map@.index(goal),
            search_inv(map@, start, map@.index(goal), before),
            is_next(map@, map@.index(goal), before, i as int),
            old(self).holds(map@, start, close(before, i as int)),
            heap_ok(old(self).open@, map@, map@.index(goal), close(before, i as int)),
        ensures
            final(self).wf(),
            final(self).holds(map@, start, expand(map@, before, i as int)),
            heap_ok(final(self).open@, map@, map@.index(goal), expand(map@, before, i as int)),
    {
        let ghost m = map@;
        let ghost gi = m.index(goal);
        let ghost k = i as int;
        let ghost s0 = close(before, k);
        let ghost s1 = relax(m, s0, k, 0);
        let ghost s2 = relax(m, s1, k, 1);
        let ghost s3 = relax(m, s2, k, 2);
        proof {
            lemma_close_inv(m, start, gi, before, k);
            lemma_closed_bound(m, start, gi, before);
            assert(frontier(before, k));
            assert(reached_ok(m, before, k));
            lemma_relax_inv(m, start, gi, s0, k, 0);
            lemma_relax_inv(m, start, gi, s1, k, 1);
            lemma_relax_inv(m, start, gi, s2, k, 2);
        }
        let here: Tile = self.tile(i as usize, Ghost(m));
        self.relax_neighbor(map, goal, here, i, 0, Ghost(start), Ghost(s0));
        self.relax_neighbor(map, goal, here, i, 1, Ghost(start), Ghost(s1));
        self.relax_neighbor(map, goal, here, i, 2, Ghost(start), Ghost(s2));
        self.relax_neighbor(map, goal, here, i, 3, Ghost(start), Ghost(s3));
    }

    /// Offer the route through `here` to its neighbor in direction `d`.
    fn relax_neighbor(
        &mut self,
        map: &TileMap,
        goal: Tile,
        here: Tile,
        i: u32,
        d: u8,
        Ghost(start): Ghost<int>,
        Ghost(s): Ghost<Search>,
    )
        requires
            map.wf(),
            map@.wf(),
            old(self).wf(),
            old(self).holds(map@, start, s),
            map@.in_bounds(goal),
            0 <= d < 4,
            mid_inv(map@, start, map@.index(goal), s, i as int, d as int),
            s.closed.len() <= map@.tiles(),
            here == tile_at(map@, i as int),
            heap_ok(old(self).open@, map@, map@.index(goal), s),
        ensures
            final(self).wf(),
            final(self).holds(map@, start, relax(map@, s, i as int, d as int)),
            heap_ok(
                final(self).open@,
                map@,
                map@.index(goal),
                relax(map@, s, i as int, d as int),
            ),
    {
        let ghost m = map@;
        let ghost gi = m.index(goal);
        proof {
            assert(s.g.dom().contains(i as int));
            assert(reached_ok(m, s, i as int));
            lemma_position(m, i as int);
            lemma_neighbor(m, i as int, d as int);
        }
        let ex: i32 = if d == 0 {
            1
        } else if d == 2 {
            -1
        } else {
            0
        };
        let ez: i32 = if d == 1 {
            -1
        } else if d == 3 {
            1
        } else {
            0
        };
        let n: Tile = Tile { x: here.x + ex, z: here.z + ez };
        proof {
            assert(ex == dx(d as int));
            assert(ez == dz(d as int));
            assert(m.in_bounds(n) <==> neighbor(m, i as int, d as int) is Some);
            if m.in_bounds(n) {
                let k = neighbor(m, i as int, d as int)->0;
                lemma_position(m, k);
                lemma_tile_of_index(m, n);
                assert(k == m.index(n));
            }
        }
        let step: u8 = map.cost(n);
        if step == 0 {
            return ;
        }
        let ni: usize = self.index(n, Ghost(m));
        proof {
            lemma_cost_range(m, ni as int);
        }
        let g: u32 = self.g_score[i as usize].saturating_add(step as u32);
        assert(g == s.g[i as int] + m.cost_at(ni as int));
        if self.stamp[ni] != self.generation || g < self.g_score[ni] {
            let ghost t = relax(m, s, i as int, d as int);
            let h: u32 = self.estimate(n, goal, Ghost(m));
            proof {
                lemma_relax_inv(m, start, gi, s, i as int, d as int);
                assert(t.g == s.g.insert(ni as int, g as int));
                assert(reached_ok(m, t, ni as int)) by {
                    assert(t.g.dom().contains(ni as int));
                }
                lemma_key_fits(m, gi, t, ni as int);
            }
            self.stamp.set(ni, self.generation);
            self.g_score.set(ni, g);
            self.came_from.set(ni, i);
            let ghost before = self.open@;
            self.open.push((g + h, ni as u32));
            proof {
                assert(ni != start);
                assert(self.holds(m, start, t));
                assert forall|e: (u32, u32)| #[trigger] self.open@.contains(e) implies t.g.dom().contains(
                e.1 as int) && e.0 >= key(m, gi, t, e.1 as int) by {
                    if e != (((g + h) as u32), ni as u32) {
                        assert(before.contains(e));
                    }
                }
                assert forall|k: int| #[trigger] frontier(t, k) implies self.open@.contains(
                    entry(m, gi, t, k),
                ) by {
                    if k != ni {
                        assert(frontier(s, k));
                        assert(before.contains(entry(m, gi, s, k)));
                        assert(entry(m, gi, s, k) == entry(m, gi, t, k));
                    }
                }
            }
        }
    }

    /// Walk the predecessors back from the goal, then reverse in place.
    fn reconstruct(
        &self,
        start: usize,
        goal: usize,
        out: &mut Vec<Tile>,
        Ghost(m): Ghost<MapModel>,
        Ghost(s): Ghost<Search>,
        Ghost(t): Ghost<Search>,
    )
        requires
            m.wf(),
            self.holds(m, start as int, t),
            base_inv(m, start as int, goal as int, s),
            t.g == s.g,
            t.from == s.from,
            s.g.dom().contains(goal as int),
            old(out)@ == Seq::<Tile>::empty(),
        ensures
            final(out)@ == trace(t, start as int, goal as int).map_values(|i: int| tile_at(m, i)),
    {
        let mut i: usize = goal;
        let ghost mut rest: Seq<int> = Seq::empty();
        let ghost st = start as int;
        proof {
            assert(trace(t, st, goal as int) =~= trace(t, st, i as int) + rest);
            assert(out@ =~= rest.reverse().map_values(|k: int| tile_at(m, k)));
        }
        while i != start
            invariant
                m.wf(),
                st == start,
                self.holds(m, st, t),
                base_inv(m, st, goal as int, s),
                t.g == s.g,
                t.from == s.from,
                s.g.dom().contains(i as int),
                trace(t, st, goal as int) == trace(t, st, i as int) + rest,
                out@ == rest.reverse().map_values(|k: int| tile_at(m, k)),
            decreases s.g[i as int],
        {
            proof {
                assert(reached_ok(m, s, i as int));
                lemma_parent(m, st, goal as int, s, i as int);
            }
            out.push(self.tile(i, Ghost(m)));
            let ghost p = s.from[i as int];
            proof {
                assert(trace(t, st, i as int) == trace(t, st, p).push(i as int));
                let longer = seq![i as int] + rest;
                assert(trace(t, st, p).push(i as int) + rest =~= trace(t, st, p) + longer);
                assert(longer.reverse() =~= rest.reverse().push(i as int));
                assert(out@ =~= longer.reverse().map_values(|k: int| tile_at(m, k)));
                rest = longer;
                assert(reached_ok(m, s, p));
            }
            i = self.came_from[i] as usize;
        }
        proof {
            assert(reached_ok(m, s, st));
        }
        out.push(self.tile(start, Ghost(m)));
        proof {
            let whole = seq![st] + rest;
            assert(trace(t, st, st) == seq![st]);
            assert(trace(t, st, goal as int) =~= whole);
            assert(whole.reverse() =~= rest.reverse().push(st));
            assert(out@ =~= whole.reverse().map_values(|k: int| tile_at(m, k)));
            assert(out@.reverse() =~= whole.map_values(|k: int| tile_at(m, k)));
        }
        reverse_tiles(out);
    }
}

} // verus!
