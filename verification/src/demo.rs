//! The bouncing-particle scene: step the simulation, rebuild the grid
//! over the new positions, and count the pairs that meet.
use vstd::prelude::*;
use vstd::string::*;
use crate::grid::SpatialGrid;
use crate::sim::Sim;
use crate::text::same;

verus! {

use crate::eval::{steady, value};
use crate::grid::{candidates, filtered_by, judged, kept};
use crate::grid_laws::{lemma_candidates_are_touching_pairs, touching};

/// The presets: how many particles, and the width and height of their
/// box.
pub open spec fn preset_of(id: Seq<char>) -> Option<(usize, u32, u32)> {
    if id == "bounce"@ {
        Some((1000usize, 0x4348_0000u32, 0x4348_0000u32))
    } else if id == "bounce-big"@ {
        Some((10000usize, 0x4416_0000u32, 0x4416_0000u32))
    } else {
        None
    }
}

/// A scene's preset: a thousand particles in a box 200 wide, or ten
/// thousand in one 600 wide.
pub fn scene_preset(id: &str) -> (r: Option<(usize, u32, u32)>)
    ensures
        r == preset_of(id@),
{
    if same(id, "bounce") {
        Some((1000, 0x4348_0000, 0x4348_0000))
    } else if same(id, "bounce-big") {
        Some((10000, 0x4416_0000, 0x4416_0000))
    } else {
        None
    }
}

/// The two ends of a pair: x and y of the one, then of the other.
pub type Ends = (u32, u32, u32, u32);

/// Where the particles fall on the grid.
pub open spec fn cells_at<C: Fn(u32) -> i64>(sim: Sim, cell: C) -> Seq<(i64, i64)> {
    Seq::new(sim.xs@.len(), |i: int| (value(cell, sim.xs@[i]), value(cell, sim.ys@[i])))
}

/// Where a pair stands.
pub open spec fn ends_of(sim: Sim, p: (u32, u32)) -> Ends {
    (
        sim.xs@[p.0 as int],
        sim.ys@[p.0 as int],
        sim.xs@[p.1 as int],
        sim.ys@[p.1 as int],
    )
}

/// A pair of particles that are near each other.
pub open spec fn meets<N: Fn(Ends) -> bool>(sim: Sim, near: N, p: (u32, u32)) -> bool {
    p.0 < sim.xs@.len() && p.1 < sim.xs@.len() && value(near, ends_of(sim, p))
}

/// The pairs that meet on a grid of so many columns and rows: of the
/// pairs in touching cells, those that are near, in scan order.
pub open spec fn meeting<C: Fn(u32) -> i64, N: Fn(Ends) -> bool>(
    sim: Sim,
    cell: C,
    near: N,
    size: (int, int),
) -> Seq<(u32, u32)> {
    candidates(cells_at(sim, cell), size.0, size.1, sim.xs@.len() as int).filter(
        |p: (u32, u32)| meets(sim, near, p),
    )
}

/// Keeping by verdicts that answer a test is filtering by that test.
proof fn lemma_kept_filters(
    pairs: Seq<(u32, u32)>,
    verdicts: Seq<bool>,
    test: spec_fn((u32, u32)) -> bool,
)
    requires
        pairs.len() == verdicts.len(),
        forall|k: int| 0 <= k < pairs.len() ==> #[trigger] verdicts[k] == test(pairs[k]),
    ensures
        kept(pairs, verdicts) == pairs.filter(test),
    decreases pairs.len(),
{
    reveal(Seq::filter);
    if pairs.len() > 0 {
        let front = verdicts.drop_last();
        assert forall|k: int| 0 <= k < pairs.len() - 1 implies #[trigger] front[k] == test(
            pairs.drop_last()[k],
        ) by {
            assert(verdicts[k] == test(pairs[k]));
        }
        lemma_kept_filters(pairs.drop_last(), front, test);
        assert(verdicts[pairs.len() - 1] == test(pairs.last()));
    }
}

/// The scene's state: the particles, the reused grid and pair buffer,
/// and how many pairs have met so far.
pub struct Demo {
    pub sim: Sim,
    pub grid: SpatialGrid,
    pub pairs: Vec<(u32, u32)>,
    pub interactions: u64,
}

impl Demo {
    /// The simulation and the grid are sound.
    pub open spec fn wf(&self) -> bool {
        &&& self.sim.wf()
        &&& self.grid.wf()
        &&& self.sim.xs@.len() <= u32::MAX
    }

    /// Start: nothing has met yet.
    pub fn new(sim: Sim, grid: SpatialGrid) -> (r: Demo)
        requires
            sim.wf(),
            grid.wf(),
            sim.xs@.len() <= u32::MAX,
        ensures
            r.wf(),
            r.sim == sim,
            r.grid == grid,
            r.pairs@ == Seq::<(u32, u32)>::empty(),
            r.interactions == 0,
    {
        let pairs: Vec<(u32, u32)> = Vec::with_capacity(sim.xs.len());
        Demo { sim, grid, pairs, interactions: 0 }
    }

    /// One tick: step the particles, index them anew, and count the pairs
    /// that meet. `cell` is the grid coordinate of a position, and `near`
    /// says of two positions whether they meet.
    pub fn step_sim<F: Fn(u32, u32, u32) -> u32, C: Fn(u32) -> i64, N: Fn(Ends) -> bool>(
        &mut self,
        dt: u32,
        advance: F,
        cell: &C,
        near: &N,
    )
        requires
            old(self).wf(),
            forall|p: u32, v: u32| #[trigger] call_requires(advance, (p, v, dt)),
            steady(*cell),
            steady(*near),
        ensures
            final(self).wf(),
            old(self).sim.stepped(advance, dt, final(self).sim),
            final(self).grid.size() == old(self).grid.size(),
            final(self).grid.indexes(cells_at(final(self).sim, *cell)),
            final(self).pairs@ == meeting(
                final(self).sim,
                *cell,
                *near,
                old(self).grid.size(),
            ),
            final(self).interactions == (old(self).interactions + final(self).pairs@.len())
                % 0x1_0000_0000_0000_0000,
    {
        self.sim.step(dt, advance);
        let n: usize = self.sim.xs.len();
        let mut coords: Vec<(i64, i64)> = Vec::with_capacity(n);
        let mut i: usize = 0;
        while i < n
            invariant
                i <= n,
                n == self.sim.xs@.len(),
                self.sim.wf(),
                steady(*cell),
                coords@ == cells_at(self.sim, *cell).take(i as int),
            decreases n - i,
        {
            let x: i64 = (*cell)(self.sim.xs[i]);
            let y: i64 = (*cell)(self.sim.ys[i]);
            coords.push((x, y));
            i = i + 1;
            proof {
                assert(coords@ =~= cells_at(self.sim, *cell).take(i as int));
            }
        }
        proof {
            assert(cells_at(self.sim, *cell).take(n as int) =~= cells_at(self.sim, *cell));
        }
        self.grid.rebuild(coords.as_slice());
        let sim = &self.sim;
        let ghost s = self.sim;
        let judge = |a: u32, b: u32| -> (r: bool)
            ensures
                r == meets(*sim, *near, (a, b)),
            {
                let (p, q): (usize, usize) = (a as usize, b as usize);
                if p < sim.xs.len() && q < sim.xs.len() && p < sim.ys.len() && q < sim.ys.len() {
                    (*near)((sim.xs[p], sim.ys[p], sim.xs[q], sim.ys[q]))
                } else {
                    false
                }
            };
        self.grid.query_pairs_into(coords.as_slice(), judge, &mut self.pairs);
        proof {
            let all = candidates(
                cells_at(s, *cell),
                self.grid.size().0,
                self.grid.size().1,
                n as int,
            );
            let verdicts = choose|verdicts: Seq<bool>| #[trigger]
                judged(judge, all, verdicts) && self.pairs@ == kept(all, verdicts);
            let test = |p: (u32, u32)| meets(s, *near, p);
            assert(filtered_by(judge, all, self.pairs@));
            assert forall|k: int| 0 <= k < all.len() implies #[trigger] verdicts[k] == test(
                all[k],
            ) by {
                assert(call_ensures(judge, (all[k].0, all[k].1), verdicts[k]));
            }
            lemma_kept_filters(all, verdicts, test);
        }
        self.interactions = self.interactions.wrapping_add(self.pairs.len() as u64);
    }
}

/// Filtering distinct pairs keeps exactly those that pass, each once.
proof fn lemma_filtered_pairs(pairs: Seq<(u32, u32)>, test: spec_fn((u32, u32)) -> bool)
    requires
        pairs.no_duplicates(),
    ensures
        forall|p: (u32, u32)| #[trigger]
            pairs.filter(test).contains(p) <==> pairs.contains(p) && test(p),
        pairs.filter(test).no_duplicates(),
    decreases pairs.len(),
{
    reveal(Seq::filter);
    if pairs.len() > 0 {
        let (front, last) = (pairs.drop_last(), pairs.last());
        lemma_filtered_pairs(front, test);
        let kept = front.filter(test);
        assert(!front.contains(last));
        assert(pairs =~= front.push(last));
        assert forall|p: (u32, u32)| #[trigger]
            pairs.filter(test).contains(p) <==> pairs.contains(p) && test(p) by {
            assert(front.push(last).contains(p) <==> front.contains(p) || p == last) by {
                if front.contains(p) {
                    let k = choose|k: int| 0 <= k < front.len() && front[k] == p;
                    assert(front.push(last)[k] == p);
                }
                assert(front.push(last)[front.len() as int] == last);
            }
            assert(kept.push(last).contains(p) <==> kept.contains(p) || p == last) by {
                if kept.contains(p) {
                    let k = choose|k: int| 0 <= k < kept.len() && kept[k] == p;
                    assert(kept.push(last)[k] == p);
                }
                assert(kept.push(last)[kept.len() as int] == last);
            }
            assert(kept.contains(p) <==> front.contains(p) && test(p));
        }
        assert(!kept.contains(last));
    }
}

/// The pairs that meet are those of particles in touching cells that are
/// near each other, each once, the lower index first.
pub proof fn lemma_meeting_pairs<C: Fn(u32) -> i64, N: Fn(Ends) -> bool>(
    sim: Sim,
    cell: C,
    near: N,
    size: (int, int),
)
    requires
        0 < size.0,
        0 < size.1,
        sim.xs@.len() <= u32::MAX,
    ensures
        forall|p: (u32, u32)| #[trigger]
            meeting(sim, cell, near, size).contains(p) <==> (p.0 < p.1 && p.1 < sim.xs@.len()
                && touching(cells_at(sim, cell), size.0, size.1, p.0 as int, p.1 as int) && meets(
                sim,
                near,
                p,
            )),
        meeting(sim, cell, near, size).no_duplicates(),
{
    let all = candidates(cells_at(sim, cell), size.0, size.1, sim.xs@.len() as int);
    lemma_candidates_are_touching_pairs(
        cells_at(sim, cell),
        size.0,
        size.1,
        sim.xs@.len() as int,
    );
    lemma_filtered_pairs(all, |p: (u32, u32)| meets(sim, near, p));
}

} // verus!
