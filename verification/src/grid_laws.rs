//! What the broadphase promises as a whole: its candidates are exactly
//! the entity pairs in neighboring cells, each once, so that filtering
//! them by any closeness test that only relates neighboring cells gives
//! what comparing every pair would.
use vstd::prelude::*;

verus! {

use crate::grid::{
    block_pairs, bucket, candidates, cells_of, clamped, entity_pairs, filtered_by, high, judged, kept,
    later_pairs, low, row_pairs,
};

/// Two entities sit in the same or touching cells.
pub open spec fn touching(coords: Seq<(i64, i64)>, cols: int, rows: int, i: int, j: int) -> bool {
    &&& -1 <= clamped(coords[i].0, cols) - clamped(coords[j].0, cols) <= 1
    &&& -1 <= clamped(coords[i].1, rows) - clamped(coords[j].1, rows) <= 1
}

/// A bucket holds an entity if and only if it lies in the cell, once.
proof fn lemma_bucket_members(cells: Seq<int>, c: int)
    requires
        cells.len() <= u32::MAX,
    ensures
        forall|k: u32| #[trigger]
            bucket(cells, c).contains(k) <==> (k < cells.len() && cells[k as int] == c),
        bucket(cells, c).no_duplicates(),
    decreases cells.len(),
{
    if cells.len() > 0 {
        let front = cells.drop_last();
        lemma_bucket_members(front, c);
        let b = bucket(front, c);
        let last = (cells.len() - 1) as u32;
        assert forall|k: u32| #[trigger]
            bucket(cells, c).contains(k) <==> (k < cells.len() && cells[k as int] == c) by {
            if cells.last() == c {
                let full = b.push(last);
                assert(full[b.len() as int] == last);
                if b.contains(k) {
                    let p = choose|p: int| 0 <= p < b.len() && b[p] == k;
                    assert(full[p] == k);
                }
                if full.contains(k) && k != last {
                    let p = choose|p: int| 0 <= p < full.len() && full[p] == k;
                    assert(b[p] == k);
                }
            }
            if k < front.len() {
                assert(front[k as int] == cells[k as int]);
            }
        }
        if cells.last() == c {
            let full = b.push(last);
            assert forall|p: int, q: int|
                0 <= p < full.len() && 0 <= q < full.len() && p != q implies full[p] != full[q] by {
                if p < b.len() {
                    assert(b.contains(b[p]));
                }
                if q < b.len() {
                    assert(b.contains(b[q]));
                }
            }
        }
    }
}

/// The pairs of `i` with a list of entities.
proof fn lemma_later_members(b: Seq<u32>, i: u32)
    requires
        b.no_duplicates(),
    ensures
        forall|p: (u32, u32)| #[trigger]
            later_pairs(b, i).contains(p) <==> (p.0 == i && p.1 > i && b.contains(p.1)),
        later_pairs(b, i).no_duplicates(),
    decreases b.len(),
{
    if b.len() > 0 {
        let front = b.drop_last();
        assert(front.no_duplicates());
        lemma_later_members(front, i);
        let l = later_pairs(front, i);
        let j = b.last();
        assert(!front.contains(j)) by {
            if front.contains(j) {
                let q = choose|q: int| 0 <= q < front.len() && front[q] == j;
                assert(b[q] == b[b.len() - 1]);
            }
        }
        assert forall|p: (u32, u32)| #[trigger]
            later_pairs(b, i).contains(p) <==> (p.0 == i && p.1 > i && b.contains(p.1)) by {
            assert(b.contains(p.1) <==> (front.contains(p.1) || p.1 == j)) by {
                if front.contains(p.1) {
                    let q = choose|q: int| 0 <= q < front.len() && front[q] == p.1;
                    assert(b[q] == p.1);
                }
                if p.1 == j {
                    assert(b[b.len() - 1] == p.1);
                }
                if b.contains(p.1) && p.1 != j {
                    let q = choose|q: int| 0 <= q < b.len() && b[q] == p.1;
                    assert(front[q] == p.1);
                }
            }
            if j > i {
                lemma_push_members(l, (i, j), p);
            }
        }
        if j > i {
            lemma_push_no_duplicates(l, (i, j));
        }
    }
}

/// Membership in a pushed sequence.
proof fn lemma_push_members(l: Seq<(u32, u32)>, x: (u32, u32), p: (u32, u32))
    ensures
        l.push(x).contains(p) <==> (l.contains(p) || p == x),
{
    let full = l.push(x);
    assert(full[l.len() as int] == x);
    if l.contains(p) {
        let q = choose|q: int| 0 <= q < l.len() && l[q] == p;
        assert(full[q] == p);
    }
    if full.contains(p) && p != x {
        let q = choose|q: int| 0 <= q < full.len() && full[q] == p;
        assert(l[q] == p);
    }
}

/// Pushing something new keeps every item single.
proof fn lemma_push_no_duplicates(l: Seq<(u32, u32)>, x: (u32, u32))
    requires
        l.no_duplicates(),
        !l.contains(x),
    ensures
        l.push(x).no_duplicates(),
{
    let full = l.push(x);
    assert forall|p: int, q: int|
        0 <= p < full.len() && 0 <= q < full.len() && p != q implies full[p] != full[q] by {
        if p < l.len() {
            assert(l.contains(l[p]));
        }
        if q < l.len() {
            assert(l.contains(l[q]));
        }
    }
}

/// Joining lists without a common item.
proof fn lemma_join(a: Seq<(u32, u32)>, b: Seq<(u32, u32)>)
    requires
        a.no_duplicates(),
        b.no_duplicates(),
        forall|p: (u32, u32)| !(#[trigger] a.contains(p) && b.contains(p)),
    ensures
        (a + b).no_duplicates(),
        forall|p: (u32, u32)| #[trigger] (a + b).contains(p) <==> (a.contains(p) || b.contains(p)),
{
    let full = a + b;
    assert forall|p: (u32, u32)| #[trigger]
        full.contains(p) <==> (a.contains(p) || b.contains(p)) by {
        if a.contains(p) {
            let q = choose|q: int| 0 <= q < a.len() && a[q] == p;
            assert(full[q] == p);
        }
        if b.contains(p) {
            let q = choose|q: int| 0 <= q < b.len() && b[q] == p;
            assert(full[q + a.len()] == p);
        }
        if full.contains(p) {
            let q = choose|q: int| 0 <= q < full.len() && full[q] == p;
            if q < a.len() {
                assert(a[q] == p);
            } else {
                assert(b[q - a.len()] == p);
            }
        }
    }
    assert forall|p: int, q: int|
        0 <= p < full.len() && 0 <= q < full.len() && p != q implies full[p] != full[q] by {
        if p < a.len() && q >= a.len() {
            assert(a.contains(a[p]));
            assert(b.contains(b[q - a.len()]));
        }
        if q < a.len() && p >= a.len() {
            assert(a.contains(a[q]));
            assert(b.contains(b[p - a.len()]));
        }
    }
}

/// The pairs of `i` along part of a grid row.
proof fn lemma_row_members(cells: Seq<int>, cols: int, i: u32, gy: int, lo: int, hi: int)
    requires
        cells.len() <= u32::MAX,
        lo <= hi,
    ensures
        forall|p: (u32, u32)| #[trigger]
            row_pairs(cells, cols, i, gy, lo, hi).contains(p) <==> (p.0 == i && p.1 > i && p.1
                < cells.len() && lo <= cells[p.1 as int] - gy * cols < hi),
        row_pairs(cells, cols, i, gy, lo, hi).no_duplicates(),
    decreases hi - lo,
{
    if hi > lo {
        lemma_row_members(cells, cols, i, gy, lo, hi - 1);
        let c = gy * cols + (hi - 1);
        lemma_bucket_members(cells, c);
        lemma_later_members(bucket(cells, c), i);
        let a = row_pairs(cells, cols, i, gy, lo, hi - 1);
        let b = later_pairs(bucket(cells, c), i);
        assert forall|p: (u32, u32)| !(#[trigger] a.contains(p) && b.contains(p)) by {
            if b.contains(p) {
                assert(bucket(cells, c).contains(p.1));
            }
        }
        lemma_join(a, b);
        assert forall|p: (u32, u32)| #[trigger]
            row_pairs(cells, cols, i, gy, lo, hi).contains(p) <==> (p.0 == i && p.1 > i && p.1
                < cells.len() && lo <= cells[p.1 as int] - gy * cols < hi) by {
            assert((a + b).contains(p) <==> (a.contains(p) || b.contains(p)));
            assert(bucket(cells, c).contains(p.1) <==> (p.1 < cells.len() && cells[p.1 as int]
                == c));
        }
    }
}

/// Some row of the block holds the cell.
pub open spec fn in_block(cell: int, cols: int, y_lo: int, y_hi: int, x_lo: int, x_hi: int) -> bool {
    exists|gy: int| y_lo <= gy < y_hi && x_lo <= cell - #[trigger] (gy * cols) < x_hi
}

/// The pairs of `i` within a block of cells.
proof fn lemma_block_members(
    cells: Seq<int>,
    cols: int,
    i: u32,
    y_lo: int,
    y_hi: int,
    x_lo: int,
    x_hi: int,
)
    requires
        cells.len() <= u32::MAX,
        y_lo <= y_hi,
        0 <= x_lo <= x_hi <= cols,
    ensures
        forall|p: (u32, u32)| #[trigger]
            block_pairs(cells, cols, i, y_lo, y_hi, x_lo, x_hi).contains(p) <==> (p.0 == i && p.1
                > i && p.1 < cells.len() && in_block(
                cells[p.1 as int],
                cols,
                y_lo,
                y_hi,
                x_lo,
                x_hi,
            )),
        block_pairs(cells, cols, i, y_lo, y_hi, x_lo, x_hi).no_duplicates(),
    decreases y_hi - y_lo,
{
    if y_hi > y_lo {
        lemma_block_members(cells, cols, i, y_lo, y_hi - 1, x_lo, x_hi);
        let g = y_hi - 1;
        lemma_row_members(cells, cols, i, g, x_lo, x_hi);
        let a = block_pairs(cells, cols, i, y_lo, y_hi - 1, x_lo, x_hi);
        let b = row_pairs(cells, cols, i, g, x_lo, x_hi);
        assert forall|p: (u32, u32)| !(#[trigger] a.contains(p) && b.contains(p)) by {
            if a.contains(p) && b.contains(p) {
                let v = cells[p.1 as int];
                let gy = choose|gy: int|
                    y_lo <= gy < y_hi - 1 && x_lo <= v - #[trigger] (gy * cols) < x_hi;
                assert(false) by (nonlinear_arith)
                    requires
                        gy < g,
                        0 <= x_lo,
                        x_hi <= cols,
                        x_lo <= v - gy * cols < x_hi,
                        x_lo <= v - g * cols < x_hi,
                ;
            }
        }
        lemma_join(a, b);
        assert forall|p: (u32, u32)| #[trigger]
            block_pairs(cells, cols, i, y_lo, y_hi, x_lo, x_hi).contains(p) <==> (p.0 == i && p.1
                > i && p.1 < cells.len() && in_block(
                cells[p.1 as int],
                cols,
                y_lo,
                y_hi,
                x_lo,
                x_hi,
            )) by {
            assert((a + b).contains(p) <==> (a.contains(p) || b.contains(p)));
            if p.1 < cells.len() {
                let v = cells[p.1 as int];
                if in_block(v, cols, y_lo, y_hi, x_lo, x_hi) {
                    let gy = choose|gy: int|
                        y_lo <= gy < y_hi && x_lo <= v - #[trigger] (gy * cols) < x_hi;
                    if gy < g {
                        assert(in_block(v, cols, y_lo, y_hi - 1, x_lo, x_hi));
                    }
                }
                if x_lo <= v - g * cols < x_hi {
                    assert(in_block(v, cols, y_lo, y_hi, x_lo, x_hi));
                }
                if in_block(v, cols, y_lo, y_hi - 1, x_lo, x_hi) {
                    let gy = choose|gy: int|
                        y_lo <= gy < y_hi - 1 && x_lo <= v - #[trigger] (gy * cols) < x_hi;
                    assert(x_lo <= v - gy * cols < x_hi);
                    assert(in_block(v, cols, y_lo, y_hi, x_lo, x_hi));
                }
            }
        }
    }
}

/// The pairs of one entity are those with later entities in touching
/// cells.
proof fn lemma_entity_members(coords: Seq<(i64, i64)>, cols: int, rows: int, i: int)
    requires
        0 < cols,
        0 < rows,
        coords.len() <= u32::MAX,
        0 <= i < coords.len(),
    ensures
        forall|p: (u32, u32)| #[trigger]
            entity_pairs(coords, cols, rows, i).contains(p) <==> (p.0 == i && p.1 > i && p.1
                < coords.len() && touching(coords, cols, rows, i, p.1 as int)),
        entity_pairs(coords, cols, rows, i).no_duplicates(),
{
    let cells = cells_of(coords, cols, rows);
    let cx = clamped(coords[i].0, cols);
    let cy = clamped(coords[i].1, rows);
    let (y_lo, y_hi, x_lo, x_hi) = (low(cy), high(cy, rows), low(cx), high(cx, cols));
    lemma_block_members(cells, cols, i as u32, y_lo, y_hi, x_lo, x_hi);
    assert forall|p: (u32, u32)| #[trigger]
        entity_pairs(coords, cols, rows, i).contains(p) <==> (p.0 == i && p.1 > i && p.1
            < coords.len() && touching(coords, cols, rows, i, p.1 as int)) by {
        if p.1 < coords.len() {
            let v = cells[p.1 as int];
            let jx = clamped(coords[p.1 as int].0, cols);
            let jy = clamped(coords[p.1 as int].1, rows);
            assert(v == jy * cols + jx);
            if in_block(v, cols, y_lo, y_hi, x_lo, x_hi) {
                let gy = choose|gy: int|
                    y_lo <= gy < y_hi && x_lo <= v - #[trigger] (gy * cols) < x_hi;
                assert(gy == jy) by (nonlinear_arith)
                    requires
                        v == jy * cols + jx,
                        0 <= jx < cols,
                        0 <= v - gy * cols < cols,
                ;
            }
            if y_lo <= jy < y_hi && x_lo <= jx < x_hi {
                assert(x_lo <= v - jy * cols < x_hi);
                assert(in_block(v, cols, y_lo, y_hi, x_lo, x_hi));
            }
        }
    }
}

/// The candidates are exactly the pairs of entities in touching cells,
/// each once.
pub proof fn lemma_candidates_are_touching_pairs(
    coords: Seq<(i64, i64)>,
    cols: int,
    rows: int,
    n: int,
)
    requires
        0 < cols,
        0 < rows,
        coords.len() <= u32::MAX,
        0 <= n <= coords.len(),
    ensures
        forall|p: (u32, u32)| #[trigger]
            candidates(coords, cols, rows, n).contains(p) <==> (p.0 < n && p.0 < p.1 && p.1
                < coords.len() && touching(coords, cols, rows, p.0 as int, p.1 as int)),
        candidates(coords, cols, rows, n).no_duplicates(),
    decreases n,
{
    if n > 0 {
        lemma_candidates_are_touching_pairs(coords, cols, rows, n - 1);
        lemma_entity_members(coords, cols, rows, n - 1);
        let a = candidates(coords, cols, rows, n - 1);
        let b = entity_pairs(coords, cols, rows, n - 1);
        assert forall|p: (u32, u32)| !(#[trigger] a.contains(p) && b.contains(p)) by {}
        lemma_join(a, b);
        assert forall|p: (u32, u32)| #[trigger]
            candidates(coords, cols, rows, n).contains(p) <==> (p.0 < n && p.0 < p.1 && p.1
                < coords.len() && touching(coords, cols, rows, p.0 as int, p.1 as int)) by {
            assert((a + b).contains(p) <==> (a.contains(p) || b.contains(p)));
        }
    }
}

/// Filtering by verdicts that follow a rule keeps exactly the pairs that
/// satisfy the rule, each once.
proof fn lemma_kept_members(
    pairs: Seq<(u32, u32)>,
    verdicts: Seq<bool>,
    rule: spec_fn(u32, u32) -> bool,
)
    requires
        pairs.len() == verdicts.len(),
        pairs.no_duplicates(),
        forall|k: int| 0 <= k < pairs.len() ==> #[trigger] verdicts[k] == rule(
            pairs[k].0,
            pairs[k].1,
        ),
    ensures
        forall|p: (u32, u32)| #[trigger]
            kept(pairs, verdicts).contains(p) <==> (pairs.contains(p) && rule(p.0, p.1)),
        kept(pairs, verdicts).no_duplicates(),
    decreases pairs.len(),
{
    if pairs.len() > 0 {
        let front = pairs.drop_last();
        let said = verdicts.drop_last();
        assert forall|k: int| 0 <= k < front.len() implies #[trigger] said[k] == rule(
            front[k].0,
            front[k].1,
        ) by {
            assert(verdicts[k] == rule(pairs[k].0, pairs[k].1));
        }
        lemma_kept_members(front, said, rule);
        let last = pairs.last();
        let l = kept(front, said);
        assert(verdicts[pairs.len() - 1] == rule(last.0, last.1));
        assert(pairs =~= front.push(last));
        assert(!front.contains(last)) by {
            if front.contains(last) {
                let q = choose|q: int| 0 <= q < front.len() && front[q] == last;
                assert(pairs[q] == pairs[pairs.len() - 1]);
            }
        }
        assert forall|p: (u32, u32)| #[trigger]
            kept(pairs, verdicts).contains(p) <==> (pairs.contains(p) && rule(p.0, p.1)) by {
            lemma_push_members(front, last, p);
            lemma_push_members(l, last, p);
        }
        if rule(last.0, last.1) {
            lemma_push_no_duplicates(l, last);
        }
    }
}

/// A query keeps exactly the pairs that its closeness test accepts, each
/// once.
pub proof fn lemma_queries_keep_what_is_accepted<F: Fn(u32, u32) -> bool>(
    near: F,
    rule: spec_fn(u32, u32) -> bool,
    pairs: Seq<(u32, u32)>,
    out: Seq<(u32, u32)>,
)
    requires
        filtered_by(near, pairs, out),
        pairs.no_duplicates(),
        forall|i: u32, j: u32, said: bool|
            #[trigger] call_ensures(near, (i, j), said) ==> said == rule(i, j),
    ensures
        forall|p: (u32, u32)| #[trigger]
            out.contains(p) <==> (pairs.contains(p) && rule(p.0, p.1)),
        out.no_duplicates(),
{
    let verdicts = choose|verdicts: Seq<bool>| #[trigger]
        judged(near, pairs, verdicts) && out == kept(pairs, verdicts);
    assert forall|k: int| 0 <= k < pairs.len() implies #[trigger] verdicts[k] == rule(
        pairs[k].0,
        pairs[k].1,
    ) by {
        assert(call_ensures(near, (pairs[k].0, pairs[k].1), verdicts[k]));
    }
    lemma_kept_members(pairs, verdicts, rule);
}

/// The broadphase agrees with comparing every pair: when closeness only
/// ever relates entities in touching cells, filtering the candidates
/// gives exactly the close pairs `(i, j)` with `i < j`, each once.
pub proof fn lemma_query_matches_bruteforce(
    coords: Seq<(i64, i64)>,
    cols: int,
    rows: int,
    verdicts: Seq<bool>,
    near: spec_fn(u32, u32) -> bool,
)
    requires
        0 < cols,
        0 < rows,
        coords.len() <= u32::MAX,
        forall|i: u32, j: u32|
            i < j && j < coords.len() && #[trigger] near(i, j) ==> touching(
                coords,
                cols,
                rows,
                i as int,
                j as int,
            ),
        verdicts.len() == candidates(coords, cols, rows, coords.len() as int).len(),
        forall|k: int|
            0 <= k < verdicts.len() ==> #[trigger] verdicts[k] == near(
                candidates(coords, cols, rows, coords.len() as int)[k].0,
                candidates(coords, cols, rows, coords.len() as int)[k].1,
            ),
    ensures
        forall|p: (u32, u32)| #[trigger]
            kept(
                candidates(coords, cols, rows, coords.len() as int),
                verdicts,
            ).contains(p) <==> (p.0 < p.1 && p.1 < coords.len() && near(p.0, p.1)),
        kept(
            candidates(coords, cols, rows, coords.len() as int),
            verdicts,
        ).no_duplicates(),
{
    let all = candidates(coords, cols, rows, coords.len() as int);
    lemma_candidates_are_touching_pairs(coords, cols, rows, coords.len() as int);
    lemma_kept_members(all, verdicts, near);
    assert forall|p: (u32, u32)| #[trigger]
        kept(all, verdicts).contains(p) <==> (p.0 < p.1 && p.1 < coords.len() && near(
            p.0,
            p.1,
        )) by {
        assert(all.contains(p) <==> (p.0 < coords.len() && p.0 < p.1 && p.1 < coords.len()
            && touching(coords, cols, rows, p.0 as int, p.1 as int)));
    }
}

} // verus!
