//! A dense uniform-grid broadphase, rebuilt in place by counting sort.
//! Entities enter as the grid coordinates their positions floor to;
//! coordinates outside the arena clamp onto the border cells. A query
//! scans each entity's three-by-three neighborhood.
use vstd::prelude::*;

verus! {

/// A coordinate clamped onto `0..len`.
pub open spec fn clamped(v: i64, len: int) -> int {
    if v < 0 {
        0
    } else if v >= len {
        len - 1
    } else {
        v as int
    }
}

/// The cell of an entity, row-major.
pub open spec fn cell_index(coord: (i64, i64), cols: int, rows: int) -> int {
    clamped(coord.1, rows) * cols + clamped(coord.0, cols)
}

/// The cells of all entities.
pub open spec fn cells_of(coords: Seq<(i64, i64)>, cols: int, rows: int) -> Seq<int> {
    coords.map_values(|p: (i64, i64)| cell_index(p, cols, rows))
}

/// The entities of cell `c`, ascending.
pub open spec fn bucket(cells: Seq<int>, c: int) -> Seq<u32>
    decreases cells.len(),
{
    if cells.len() == 0 {
        Seq::empty()
    } else {
        let front = bucket(cells.drop_last(), c);
        if cells.last() == c {
            front.push((cells.len() - 1) as u32)
        } else {
            front
        }
    }
}

/// Where cell `c` starts when the buckets lie one after the other.
pub open spec fn start_of(cells: Seq<int>, c: int) -> int
    decreases c,
{
    if c <= 0 {
        0
    } else {
        start_of(cells, c - 1) + bucket(cells, c - 1).len()
    }
}

/// The entries of a bucket that come after entity `i`, paired with it.
pub open spec fn later_pairs(entries: Seq<u32>, i: u32) -> Seq<(u32, u32)>
    decreases entries.len(),
{
    if entries.len() == 0 {
        Seq::empty()
    } else {
        let front = later_pairs(entries.drop_last(), i);
        if entries.last() > i {
            front.push((i, entries.last()))
        } else {
            front
        }
    }
}

/// Pairs of entity `i` within cells `lo..hi` of grid row `gy`.
pub open spec fn row_pairs(cells: Seq<int>, cols: int, i: u32, gy: int, lo: int, hi: int) -> Seq<
    (u32, u32),
>
    decreases hi - lo,
{
    if hi <= lo {
        Seq::empty()
    } else {
        row_pairs(cells, cols, i, gy, lo, hi - 1) + later_pairs(
            bucket(cells, gy * cols + (hi - 1)),
            i,
        )
    }
}

/// Pairs of entity `i` within rows `y_lo..y_hi` and columns `x_lo..x_hi`.
pub open spec fn block_pairs(
    cells: Seq<int>,
    cols: int,
    i: u32,
    y_lo: int,
    y_hi: int,
    x_lo: int,
    x_hi: int,
) -> Seq<(u32, u32)>
    decreases y_hi - y_lo,
{
    if y_hi <= y_lo {
        Seq::empty()
    } else {
        block_pairs(cells, cols, i, y_lo, y_hi - 1, x_lo, x_hi) + row_pairs(
            cells,
            cols,
            i,
            y_hi - 1,
            x_lo,
            x_hi,
        )
    }
}

/// First coordinate of a neighborhood.
pub open spec fn low(v: int) -> int {
    if v > 0 {
        v - 1
    } else {
        0
    }
}

/// One past the last coordinate of a neighborhood.
pub open spec fn high(v: int, len: int) -> int {
    if v + 2 <= len {
        v + 2
    } else {
        len
    }
}

/// Pairs of entity `i` within its three-by-three neighborhood.
pub open spec fn entity_pairs(coords: Seq<(i64, i64)>, cols: int, rows: int, i: int) -> Seq<
    (u32, u32),
> {
    let cx = clamped(coords[i].0, cols);
    let cy = clamped(coords[i].1, rows);
    block_pairs(
        cells_of(coords, cols, rows),
        cols,
        i as u32,
        low(cy),
        high(cy, rows),
        low(cx),
        high(cx, cols),
    )
}

/// The candidate pairs of the first `n` entities, in scan order.
pub open spec fn candidates(coords: Seq<(i64, i64)>, cols: int, rows: int, n: int) -> Seq<
    (u32, u32),
>
    decreases n,
{
    if n <= 0 {
        Seq::empty()
    } else {
        candidates(coords, cols, rows, n - 1) + entity_pairs(coords, cols, rows, n - 1)
    }
}

/// The pairs whose verdict is true, in order.
pub open spec fn kept(pairs: Seq<(u32, u32)>, verdicts: Seq<bool>) -> Seq<(u32, u32)>
    decreases pairs.len(),
{
    if pairs.len() == 0 {
        Seq::empty()
    } else {
        let front = kept(pairs.drop_last(), verdicts.drop_last());
        if verdicts.last() {
            front.push(pairs.last())
        } else {
            front
        }
    }
}

/// Growing the entity list appends to exactly one bucket.
proof fn lemma_bucket_push(cells: Seq<int>, i: int, c: int)
    requires
        0 <= i < cells.len(),
    ensures
        bucket(cells.take(i + 1), c) == if cells[i] == c {
            bucket(cells.take(i), c).push(i as u32)
        } else {
            bucket(cells.take(i), c)
        },
{
    assert(cells.take(i + 1).drop_last() =~= cells.take(i));
    assert(cells.take(i + 1).last() == cells[i]);
}

/// A bucket of a prefix is no longer than the whole bucket.
proof fn lemma_bucket_prefix(cells: Seq<int>, i: int, c: int)
    requires
        0 <= i <= cells.len(),
    ensures
        bucket(cells.take(i), c).len() <= bucket(cells, c).len(),
        bucket(cells.take(i), c).len() <= i,
        i < cells.len() && cells[i] == c ==> bucket(cells.take(i), c).len() < bucket(
            cells,
            c,
        ).len(),
    decreases cells.len() - i, i,
{
    lemma_bucket_len(cells.take(i), c);
    if i < cells.len() {
        lemma_bucket_prefix(cells, i + 1, c);
        lemma_bucket_push(cells, i, c);
    } else {
        assert(cells.take(i) =~= cells);
    }
}

/// A bucket holds at most every entity.
proof fn lemma_bucket_len(cells: Seq<int>, c: int)
    ensures
        bucket(cells, c).len() <= cells.len(),
    decreases cells.len(),
{
    if cells.len() > 0 {
        lemma_bucket_len(cells.drop_last(), c);
    }
}

/// Starts never decrease.
proof fn lemma_start_monotone(cells: Seq<int>, a: int, b: int)
    requires
        0 <= a <= b,
    ensures
        start_of(cells, a) <= start_of(cells, b),
        a < b ==> start_of(cells, a) + bucket(cells, a).len() <= start_of(cells, b),
        0 <= start_of(cells, a),
    decreases b,
{
    if a < b {
        lemma_start_monotone(cells, a, b - 1);
    } else if a > 0 {
        lemma_start_monotone(cells, a - 1, a - 1);
    }
}

/// The buckets of all cells together hold every entity once.
proof fn lemma_start_total(cells: Seq<int>, total: int)
    requires
        forall|k: int| 0 <= k < cells.len() ==> 0 <= #[trigger] cells[k] < total,
        0 <= total,
    ensures
        start_of(cells, total) == cells.len(),
    decreases cells.len(),
{
    if cells.len() == 0 {
        lemma_start_empty(cells, total);
    } else {
        let front = cells.drop_last();
        assert forall|k: int| 0 <= k < front.len() implies 0 <= #[trigger] front[k] < total by {
            assert(front[k] == cells[k]);
        }
        lemma_start_total(front, total);
        lemma_start_step(cells, total);
    }
}

/// No entities, no offsets.
proof fn lemma_start_empty(cells: Seq<int>, c: int)
    requires
        cells.len() == 0,
    ensures
        start_of(cells, c) == 0,
    decreases c,
{
    if c > 0 {
        lemma_start_empty(cells, c - 1);
    }
}

/// One more entity moves the starts after its cell by one.
proof fn lemma_start_step(cells: Seq<int>, c: int)
    requires
        cells.len() > 0,
        cells.last() >= 0,
        0 <= c,
    ensures
        start_of(cells, c) == start_of(cells.drop_last(), c) + if cells.last() < c {
            1int
        } else {
            0
        },
    decreases c,
{
    if c > 0 {
        lemma_start_step(cells, c - 1);
    }
}

/// Clamped coordinates address a cell of the grid.
proof fn lemma_cell_in_range(coord: (i64, i64), cols: int, rows: int)
    requires
        cols > 0,
        rows > 0,
    ensures
        0 <= cell_index(coord, cols, rows) < cols * rows,
{
    let x = clamped(coord.0, cols);
    let y = clamped(coord.1, rows);
    assert(0 <= y * cols + x < cols * rows) by (nonlinear_arith)
        requires
            0 <= x < cols,
            0 <= y < rows,
    ;
}

/// The grid.
#[derive(Debug, Clone)]
pub struct SpatialGrid {
    cols: usize,
    rows: usize,
    counts: Vec<u32>,
    cell_start: Vec<u32>,
    cursor: Vec<u32>,
    entries: Vec<u32>,
}

impl SpatialGrid {
    /// Columns and rows.
    pub closed spec fn size(&self) -> (int, int) {
        (self.cols as int, self.rows as int)
    }

    /// The storage matches the grid.
    pub closed spec fn wf(&self) -> bool {
        &&& self.cols > 0
        &&& self.rows > 0
        &&& self.cols as int * self.rows as int <= u32::MAX
        &&& self.counts@.len() == self.cols as int * self.rows as int
        &&& self.cell_start@.len() == self.cols as int * self.rows as int + 1
        &&& self.cursor@.len() == self.cols as int * self.rows as int
    }

    /// The buckets hold exactly the entities at `coords`.
    pub closed spec fn indexes(&self, coords: Seq<(i64, i64)>) -> bool {
        let cells = cells_of(coords, self.cols as int, self.rows as int);
        &&& self.wf()
        &&& self.entries@.len() == coords.len()
        &&& coords.len() <= u32::MAX
        &&& forall|c: int|
            0 <= c <= self.cols as int * self.rows as int ==> #[trigger] self.cell_start@[c]
                == start_of(cells, c)
        &&& forall|c: int, p: int|
            #![trigger bucket(cells, c)[p]]
            0 <= c < self.cols as int * self.rows as int && 0 <= p < bucket(cells, c).len()
                ==> self.entries@[start_of(cells, c) + p] == bucket(cells, c)[p]
    }

    /// An empty grid of `cols` by `rows` cells.
    pub fn new(cols: usize, rows: usize, capacity: usize) -> (g: SpatialGrid)
        requires
            cols > 0,
            rows > 0,
            cols as int * rows as int <= u32::MAX,
            (cols as int * rows as int) < usize::MAX,
        ensures
            g.wf(),
            g.size() == (cols as int, rows as int),
            g.indexes(Seq::empty()),
    {
        let cells: usize = cols * rows;
        let g = SpatialGrid {
            cols,
            rows,
            counts: vec![0; cells],
            cell_start: vec![0; cells + 1],
            cursor: vec![0; cells],
            entries: Vec::with_capacity(capacity),
        };
        proof {
            let empty = cells_of(Seq::<(i64, i64)>::empty(), cols as int, rows as int);
            assert forall|c: int| 0 <= c <= cells implies #[trigger] g.cell_start@[c] == start_of(
                empty,
                c,
            ) by {
                lemma_start_empty(empty, c);
            }
        }
        g
    }

    /// The cell of an entity, clamped onto the arena.
    fn cell_at(&self, coord: (i64, i64)) -> (c: usize)
        requires
            self.wf(),
        ensures
            c == cell_index(coord, self.cols as int, self.rows as int),
            c < self.cols as int * self.rows as int,
    {
        let x: usize = clamp(coord.0, self.cols);
        let y: usize = clamp(coord.1, self.rows);
        proof {
            lemma_cell_in_range(coord, self.cols as int, self.rows as int);
            let a = y as int;
            let b = self.cols as int;
            assert(0 <= a * b) by (nonlinear_arith)
                requires
                    0 <= a,
                    0 <= b,
            ;
        }
        y * self.cols + x
    }

    /// Rebuild the grid in place over the given entities: two passes and
    /// a prefix sum.
    pub fn rebuild(&mut self, coords: &[(i64, i64)])
        requires
            old(self).wf(),
            coords@.len() <= u32::MAX,
        ensures
            final(self).size() == old(self).size(),
            final(self).wf(),
            final(self).indexes(coords@),
    {
        let n: usize = coords.len();
        let cells: usize = self.counts.len();
        let ghost cols = self.cols as int;
        let ghost rows = self.rows as int;
        let ghost map = cells_of(coords@, cols, rows);
        proof {
            assert forall|k: int| 0 <= k < map.len() implies 0 <= #[trigger] map[k] < cells by {
                lemma_cell_in_range(coords@[k], cols, rows);
            }
            lemma_start_total(map, cells as int);
        }
        self.entries.resize(n, 0);
        let mut c: usize = 0;
        while c < cells
            invariant
                self.wf(),
                self.cols == cols,
                self.rows == rows,
                cells == self.counts@.len(),
                c <= cells,
                self.entries@.len() == n,
                forall|k: int| 0 <= k < c ==> #[trigger] self.counts@[k] == 0,
            decreases cells - c,
        {
            self.counts.set(c, 0);
            c = c + 1;
        }
        let mut i: usize = 0;
        proof {
            assert(map.take(0) =~= Seq::<int>::empty());
        }
        while i < n
            invariant
                self.wf(),
                self.cols == cols,
                self.rows == rows,
                cells == self.counts@.len(),
                map == cells_of(coords@, cols, rows),
                n == coords@.len(),
                n <= u32::MAX,
                i <= n,
                self.entries@.len() == n,
                forall|k: int|
                    0 <= k < cells ==> #[trigger] self.counts@[k] == bucket(
                        map.take(i as int),
                        k,
                    ).len(),
            decreases n - i,
        {
            let at: usize = self.cell_at(coords[i]);
            proof {
                assert(map[i as int] == at);
                lemma_bucket_prefix(map, i as int, at as int);
                assert forall|k: int| 0 <= k < cells implies bucket(
                    #[trigger] map.take(i + 1),
                    k,
                ).len() == bucket(map.take(i as int), k).len() + if k == at {
                    1int
                } else {
                    0
                } by {
                    lemma_bucket_push(map, i as int, k);
                }
            }
            let count: u32 = self.counts[at];
            self.counts.set(at, count + 1);
            proof {
                assert forall|k: int| 0 <= k < cells implies #[trigger] self.counts@[k] == bucket(
                    map.take(i + 1),
                    k,
                ).len() by {
                    lemma_bucket_push(map, i as int, k);
                }
            }
            i = i + 1;
        }
        proof {
            assert(map.take(n as int) =~= map);
        }
        let mut running: u32 = 0;
        c = 0;
        while c < cells
            invariant
                self.wf(),
                self.cols == cols,
                self.rows == rows,
                cells == self.counts@.len(),
                cells == self.cursor@.len(),
                map.len() == n,
                n <= u32::MAX,
                start_of(map, cells as int) == n,
                c <= cells,
                self.entries@.len() == n,
                running == start_of(map, c as int),
                forall|k: int| 0 <= k < cells ==> #[trigger] self.counts@[k] == bucket(map, k).len(),
                forall|k: int| 0 <= k < c ==> #[trigger] self.cell_start@[k] == start_of(map, k),
                forall|k: int| 0 <= k < c ==> #[trigger] self.cursor@[k] == start_of(map, k),
            decreases cells - c,
        {
            self.cell_start.set(c, running);
            self.cursor.set(c, running);
            proof {
                lemma_start_monotone(map, c + 1, cells as int);
            }
            running = running + self.counts[c];
            c = c + 1;
        }
        self.cell_start.set(cells, running);
        i = 0;
        proof {
            assert(map.take(0) =~= Seq::<int>::empty());
        }
        while i < n
            invariant
                self.wf(),
                self.cols == cols,
                self.rows == rows,
                cells == self.counts@.len(),
                cells == self.cursor@.len(),
                cells == cols * rows,
                map == cells_of(coords@, cols, rows),
                n == coords@.len(),
                n <= u32::MAX,
                i <= n,
                self.entries@.len() == n,
                start_of(map, cells as int) == n,
                forall|k: int| 0 <= k <= cells ==> #[trigger] self.cell_start@[k] == start_of(map, k),
                forall|k: int|
                    0 <= k < cells ==> #[trigger] self.cursor@[k] == start_of(map, k) + bucket(
                        map.take(i as int),
                        k,
                    ).len(),
                forall|k: int, p: int|
                    #![trigger bucket(map.take(i as int), k)[p]]
                    0 <= k < cells && 0 <= p < bucket(map.take(i as int), k).len()
                        ==> self.entries@[start_of(map, k) + p] == bucket(
                        map.take(i as int),
                        k,
                    )[p],
            decreases n - i,
        {
            let at: usize = self.cell_at(coords[i]);
            let ghost before = self.entries@;
            proof {
                assert(map[i as int] == at);
                lemma_bucket_prefix(map, i as int, at as int);
                lemma_start_monotone(map, at as int, cells as int);
                lemma_start_monotone(map, 0, at as int);
            }
            let slot: u32 = self.cursor[at];
            self.entries.set(slot as usize, i as u32);
            self.cursor.set(at, slot + 1);
            proof {
                assert forall|k: int| 0 <= k < cells implies #[trigger] self.cursor@[k] == start_of(
                    map,
                    k,
                ) + bucket(map.take(i + 1), k).len() by {
                    lemma_bucket_push(map, i as int, k);
                }
                assert forall|k: int, p: int|
                    #![trigger bucket(map.take(i + 1), k)[p]]
                    0 <= k < cells && 0 <= p < bucket(
                        map.take(i + 1),
                        k,
                    ).len() implies self.entries@[start_of(map, k) + p] == bucket(
                    map.take(i + 1),
                    k,
                )[p] by {
                    lemma_bucket_push(map, i as int, k);
                    lemma_bucket_prefix(map, i as int, k);
                    let b = bucket(map.take(i as int), k);
                    lemma_start_monotone(map, k, cells as int);
                    lemma_start_monotone(map, 0, k);
                    if p < b.len() {
                        assert(before[start_of(map, k) + p] == b[p]);
                        if k < at {
                            lemma_start_monotone(map, k, at as int);
                        } else if k > at {
                            lemma_start_monotone(map, at as int, k);
                        }
                    }
                }
            }
            i = i + 1;
        }
        proof {
            assert(map.take(n as int) =~= map);
        }
    }
}

/// The verdicts answer `near` on the pairs, one each.
pub open spec fn judged<F: Fn(u32, u32) -> bool>(
    near: F,
    pairs: Seq<(u32, u32)>,
    verdicts: Seq<bool>,
) -> bool {
    &&& pairs.len() == verdicts.len()
    &&& forall|k: int|
        0 <= k < pairs.len() ==> call_ensures(
            near,
            (#[trigger] pairs[k].0, pairs[k].1),
            verdicts[k],
        )
}

/// `out` keeps, in order, exactly the pairs that `near` accepted.
pub open spec fn filtered_by<F: Fn(u32, u32) -> bool>(
    near: F,
    pairs: Seq<(u32, u32)>,
    out: Seq<(u32, u32)>,
) -> bool {
    exists|verdicts: Seq<bool>| #[trigger]
        judged(near, pairs, verdicts) && out == kept(pairs, verdicts)
}

/// One more judged pair.
proof fn lemma_kept_push(pairs: Seq<(u32, u32)>, verdicts: Seq<bool>, pair: (u32, u32), v: bool)
    ensures
        kept(pairs.push(pair), verdicts.push(v)) == if v {
            kept(pairs, verdicts).push(pair)
        } else {
            kept(pairs, verdicts)
        },
{
    assert(pairs.push(pair).drop_last() =~= pairs);
    assert(verdicts.push(v).drop_last() =~= verdicts);
}

impl SpatialGrid {
    /// Pairs of entity `i` with the later entries of cell `c`, judged.
    fn scan_cell<F: Fn(u32, u32) -> bool>(
        &self,
        i: u32,
        c: usize,
        near: &F,
        out: &mut Vec<(u32, u32)>,
        Ghost(coords): Ghost<Seq<(i64, i64)>>,
        Ghost(pairs): Ghost<Seq<(u32, u32)>>,
        Ghost(verdicts): Ghost<Seq<bool>>,
    ) -> (r: Ghost<Seq<bool>>)
        requires
            self.indexes(coords),
            c < self.size().0 * self.size().1,
            forall|a: u32, b: u32| call_requires(*near, (a, b)),
            judged(*near, pairs, verdicts),
            old(out)@ == kept(pairs, verdicts),
        ensures
            judged(
                *near,
                pairs + later_pairs(
                    bucket(cells_of(coords, self.size().0, self.size().1), c as int),
                    i,
                ),
                r@,
            ),
            final(out)@ == kept(
                pairs + later_pairs(
                    bucket(cells_of(coords, self.size().0, self.size().1), c as int),
                    i,
                ),
                r@,
            ),
    {
        let ghost cells = cells_of(coords, self.cols as int, self.rows as int);
        let ghost b = bucket(cells, c as int);
        proof {
            let total = self.cols as int * self.rows as int;
            assert forall|k: int| 0 <= k < cells.len() implies 0 <= #[trigger] cells[k] < total by {
                lemma_cell_in_range(coords[k], self.cols as int, self.rows as int);
            }
            lemma_start_total(cells, total);
            lemma_start_monotone(cells, c + 1, total);
            lemma_start_monotone(cells, 0, c as int);
            assert(self.cell_start@[c + 1] == start_of(cells, c + 1));
            assert(self.cell_start@[c as int] == start_of(cells, c as int));
        }
        let first: usize = self.cell_start[c] as usize;
        let last: usize = self.cell_start[c + 1] as usize;
        let mut k: usize = first;
        let ghost mut done: Seq<(u32, u32)> = pairs;
        let ghost mut said: Seq<bool> = verdicts;
        proof {
            assert(pairs + later_pairs(b.take(0), i) =~= pairs);
        }
        while k < last
            invariant
                self.indexes(coords),
                cells == cells_of(coords, self.cols as int, self.rows as int),
                b == bucket(cells, c as int),
                c < self.cols as int * self.rows as int,
                first == start_of(cells, c as int),
                last == first + b.len(),
                last <= self.entries@.len(),
                first <= k <= last,
                forall|x: u32, y: u32| call_requires(*near, (x, y)),
                done == pairs + later_pairs(b.take(k - first), i),
                judged(*near, done, said),
                out@ == kept(done, said),
            decreases last - k,
        {
            let j: u32 = self.entries[k];
            proof {
                let p = k - first;
                assert(b[p] == self.entries@[start_of(cells, c as int) + p]);
                assert(b.take(p + 1).drop_last() =~= b.take(p));
                assert(b.take(p + 1).last() == j);
            }
            if j > i {
                let close: bool = near(i, j);
                if close {
                    out.push((i, j));
                }
                proof {
                    lemma_kept_push(done, said, (i, j), close);
                    let p = k - first;
                    assert((pairs + later_pairs(b.take(p), i)).push((i, j)) =~= pairs + later_pairs(
                        b.take(p),
                        i,
                    ).push((i, j)));
                    done = done.push((i, j));
                    said = said.push(close);
                }
            }
            k = k + 1;
        }
        proof {
            assert(b.take(last - first) =~= b);
        }
        Ghost(said)
    }

    /// Replace `out` by the pairs `(i, j)`, `i < j`, of entities in
    /// neighboring cells that `near` accepts, in scan order.
    pub fn query_pairs_into<F: Fn(u32, u32) -> bool>(
        &self,
        coords: &[(i64, i64)],
        near: F,
        out: &mut Vec<(u32, u32)>,
    )
        requires
            self.indexes(coords@),
            forall|a: u32, b: u32| call_requires(near, (a, b)),
        ensures
            filtered_by(
                near,
                candidates(coords@, self.size().0, self.size().1, coords@.len() as int),
                final(out)@,
            ),
    {
        out.clear();
        let ghost cols = self.cols as int;
        let ghost rows = self.rows as int;
        let ghost cells = cells_of(coords@, cols, rows);
        let ghost mut said: Seq<bool> = Seq::empty();
        let n: usize = coords.len();
        let mut i: usize = 0;
        while i < n
            invariant
                self.indexes(coords@),
                self.cols == cols,
                self.rows == rows,
                cells == cells_of(coords@, cols, rows),
                n == coords@.len(),
                i <= n,
                forall|a: u32, b: u32| call_requires(near, (a, b)),
                judged(near, candidates(coords@, cols, rows, i as int), said),
                out@ == kept(candidates(coords@, cols, rows, i as int), said),
            decreases n - i,
        {
            let cx: usize = clamp(coords[i].0, self.cols);
            let cy: usize = clamp(coords[i].1, self.rows);
            let y_lo: usize = if cy > 0 {
                cy - 1
            } else {
                0
            };
            let y_hi: usize = if cy + 1 < self.rows {
                cy + 2
            } else {
                self.rows
            };
            let x_lo: usize = if cx > 0 {
                cx - 1
            } else {
                0
            };
            let x_hi: usize = if cx + 1 < self.cols {
                cx + 2
            } else {
                self.cols
            };
            let ghost base = candidates(coords@, cols, rows, i as int);
            let mut gy: usize = y_lo;
            proof {
                assert(base + block_pairs(
                    cells,
                    cols,
                    i as u32,
                    y_lo as int,
                    y_lo as int,
                    x_lo as int,
                    x_hi as int,
                ) =~= base);
            }
            while gy < y_hi
                invariant
                    self.indexes(coords@),
                    self.cols == cols,
                    self.rows == rows,
                    cells == cells_of(coords@, cols, rows),
                    i < coords@.len() <= u32::MAX,
                    y_lo <= gy <= y_hi <= rows,
                    x_lo <= x_hi <= cols,
                    forall|a: u32, b: u32| call_requires(near, (a, b)),
                    judged(
                        near,
                        base + block_pairs(
                            cells,
                            cols,
                            i as u32,
                            y_lo as int,
                            gy as int,
                            x_lo as int,
                            x_hi as int,
                        ),
                        said,
                    ),
                    out@ == kept(
                        base + block_pairs(
                            cells,
                            cols,
                            i as u32,
                            y_lo as int,
                            gy as int,
                            x_lo as int,
                            x_hi as int,
                        ),
                        said,
                    ),
                decreases y_hi - gy,
            {
                let ghost base2 = base + block_pairs(
                    cells,
                    cols,
                    i as u32,
                    y_lo as int,
                    gy as int,
                    x_lo as int,
                    x_hi as int,
                );
                let mut gx: usize = x_lo;
                proof {
                    assert(base2 + row_pairs(
                        cells,
                        cols,
                        i as u32,
                        gy as int,
                        x_lo as int,
                        x_lo as int,
                    ) =~= base2);
                }
                while gx < x_hi
                    invariant
                        self.indexes(coords@),
                        self.cols == cols,
                        self.rows == rows,
                        cells == cells_of(coords@, cols, rows),
                        i < coords@.len() <= u32::MAX,
                        gy < rows,
                        x_lo <= gx <= x_hi <= cols,
                        forall|a: u32, b: u32| call_requires(near, (a, b)),
                        judged(
                            near,
                            base2 + row_pairs(
                                cells,
                                cols,
                                i as u32,
                                gy as int,
                                x_lo as int,
                                gx as int,
                            ),
                            said,
                        ),
                        out@ == kept(
                            base2 + row_pairs(
                                cells,
                                cols,
                                i as u32,
                                gy as int,
                                x_lo as int,
                                gx as int,
                            ),
                            said,
                        ),
                    decreases x_hi - gx,
                {
                    proof {
                        let y = gy as int;
                        let x = gx as int;
                        assert(0 <= y * cols && y * cols + x < cols * rows) by (nonlinear_arith)
                            requires
                                0 <= x < cols,
                                0 <= y < rows,
                        ;
                    }
                    let c: usize = gy * self.cols + gx;
                    let ghost base3 = base2 + row_pairs(
                        cells,
                        cols,
                        i as u32,
                        gy as int,
                        x_lo as int,
                        gx as int,
                    );
                    let more = self.scan_cell(
                        i as u32,
                        c,
                        &near,
                        out,
                        Ghost(coords@),
                        Ghost(base3),
                        Ghost(said),
                    );
                    proof {
                        said = more@;
                        assert(base3 + later_pairs(bucket(cells, c as int), i as u32) =~= base2
                            + row_pairs(
                            cells,
                            cols,
                            i as u32,
                            gy as int,
                            x_lo as int,
                            gx + 1,
                        ));
                    }
                    gx = gx + 1;
                }
                proof {
                    assert(base2 + row_pairs(
                        cells,
                        cols,
                        i as u32,
                        gy as int,
                        x_lo as int,
                        x_hi as int,
                    ) =~= base + block_pairs(
                        cells,
                        cols,
                        i as u32,
                        y_lo as int,
                        gy + 1,
                        x_lo as int,
                        x_hi as int,
                    ));
                }
                gy = gy + 1;
            }
            proof {
                assert(candidates(coords@, cols, rows, i + 1) =~= base + entity_pairs(
                    coords@,
                    cols,
                    rows,
                    i as int,
                ));
            }
            i = i + 1;
        }
        proof {
            assert(judged(near, candidates(coords@, cols, rows, n as int), said));
        }
    }

    /// The pairs as a fresh buffer.
    pub fn query_pairs<F: Fn(u32, u32) -> bool>(&self, coords: &[(i64, i64)], near: F) -> (r: Vec<
        (u32, u32),
    >)
        requires
            self.indexes(coords@),
            forall|a: u32, b: u32| call_requires(near, (a, b)),
        ensures
            filtered_by(
                near,
                candidates(coords@, self.size().0, self.size().1, coords@.len() as int),
                r@,
            ),
    {
        let mut pairs: Vec<(u32, u32)> = Vec::new();
        self.query_pairs_into(coords, near, &mut pairs);
        pairs
    }
}

/// A coordinate clamped onto `0..len`.
fn clamp(v: i64, len: usize) -> (r: usize)
    requires
        len > 0,
    ensures
        r == clamped(v, len as int),
{
    if v < 0 {
        0
    } else if v as u64 >= len as u64 {
        len - 1
    } else {
        v as usize
    }
}

} // verus!
