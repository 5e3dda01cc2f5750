//! The generator, the particle simulation, the broadphase grid, and the
//! statistics the reports are made of.

use bowo::bits::{f32_abs, f32_finite, f32_ge, f32_lt, f32_neg_abs, f32_unit};
use bowo::counting::{snapshot, CountingAlloc};
use bowo::digest::{digest_quads, fnv1a, fold, step, FNV_OFFSET};
use bowo::gallery::{alloc_detail, perf_report};
use bowo::gallery::{AllocStats, Boundary, FrameStats, LiveBytes, ProbeTotals, RunTotals};
use bowo::gallery::{Counts, WindowTotals};
use bowo::grid::SpatialGrid;
use bowo::rng::{nth_seed, splitmix_mix, Rng};
use bowo::sim::{reflect, Sim};
use bowo::singles::{fraction, one_minus};
use bowo::stats::{five_number_summary, percentile, sort};
use bowo::time::{SIM_DT, TICK_HZ};

fn f(bits: u32) -> f32 {
    f32::from_bits(bits)
}

fn advance(pos: u32, vel: u32, dt: u32) -> u32 {
    (f(pos) + f(vel) * f(dt)).to_bits()
}

fn seeded(n: usize, seed: u64, width: f32, height: f32) -> Sim {
    Sim::seeded(n, seed, width.to_bits(), height.to_bits(), &span)
}

/// A grid over an arena, as positions meet it.
struct Arena {
    grid: SpatialGrid,
    cell: f32,
}

impl Arena {
    fn new(width: f32, height: f32, cell: f32, capacity: usize) -> Arena {
        let cols = ((width / cell).ceil() as usize).max(1);
        let rows = ((height / cell).ceil() as usize).max(1);
        Arena {
            grid: SpatialGrid::new(cols, rows, capacity),
            cell,
        }
    }

    fn coords(&self, xs: &[f32], ys: &[f32]) -> Vec<(i64, i64)> {
        let at = |v: f32| (v / self.cell).floor() as i64;
        xs.iter().zip(ys).map(|(&x, &y)| (at(x), at(y))).collect()
    }

    fn rebuild(&mut self, xs: &[f32], ys: &[f32]) {
        let coords = self.coords(xs, ys);
        self.grid.rebuild(&coords);
    }

    fn query_pairs(&self, xs: &[f32], ys: &[f32], radius: f32) -> Vec<(u32, u32)> {
        assert!(radius <= self.cell);
        self.grid
            .query_pairs(&self.coords(xs, ys), |i, j| near(xs, ys, radius, i, j))
    }
}

fn near(xs: &[f32], ys: &[f32], radius: f32, i: u32, j: u32) -> bool {
    let (i, j) = (i as usize, j as usize);
    let (ex, ey) = (xs[i] - xs[j], ys[i] - ys[j]);
    ex * ex + ey * ey <= radius * radius
}

fn positions(sim: &Sim) -> (Vec<f32>, Vec<f32>) {
    let floats = |v: &[u32]| v.iter().map(|&b| f(b)).collect();
    (floats(&sim.xs), floats(&sim.ys))
}

fn bruteforce(xs: &[f32], ys: &[f32], radius: f32) -> Vec<(u32, u32)> {
    let mut out = Vec::new();
    for i in 0..xs.len() as u32 {
        for j in (i + 1)..xs.len() as u32 {
            if near(xs, ys, radius, i, j) {
                out.push((i, j));
            }
        }
    }
    out
}

#[test]
fn rng_is_deterministic_and_varied() {
    let mut a = Rng::new(42);
    let mut b = Rng::new(42);
    for _ in 0..100 {
        assert_eq!(a.next_u64(), b.next_u64());
    }
    let mut c = Rng::new(43);
    assert_ne!(a.next_u64(), c.next_u64());
}

#[test]
fn rng_ranges_are_bounded() {
    let mut rng = Rng::new(7);
    for _ in 0..1000 {
        let v = f(rng.next_f32());
        assert!((0.0..1.0).contains(&v));
        let r = f(rng.range_f32((-30.0f32).to_bits(), 30.0f32.to_bits(), &span));
        assert!((-30.0..30.0).contains(&r));
    }
}

/// A number of the unit interval placed between two others.
fn span((u, min, max): (u32, u32, u32)) -> u32 {
    (f(min) + f(u) * (f(max) - f(min))).to_bits()
}

#[test]
fn draws_stay_below_the_end_of_their_range() {
    let b = f32::to_bits;
    let ranges = [
        (1.0f32, 1.000_000_1f32),
        (-1.0, 0.0),
        (-1.0, -0.0),
        (-2.0, -1.0),
        (0.0, 1e-45),
        (1e30, 2e30),
    ];
    for (min, max) in ranges {
        let mut rng = Rng::new(3);
        let top = |_: (u32, u32, u32)| max.to_bits();
        let r = f(rng.range_f32(b(min), b(max), &top));
        assert!(min <= r && r < max, "{min} <= {r} < {max}");
        let low = |_: (u32, u32, u32)| (-1e38f32).to_bits();
        assert_eq!(f(rng.range_f32(b(min), b(max), &low)), min);
        let none = |_: (u32, u32, u32)| f32::NAN.to_bits();
        assert_eq!(f(rng.range_f32(b(min), b(max), &none)), min);
        for _ in 0..200 {
            let r = f(rng.range_f32(b(min), b(max), &span));
            assert!(min <= r && r < max, "{min} <= {r} < {max}");
        }
    }
    let mut rng = Rng::new(3);
    assert_eq!(f(rng.range_f32(b(5.0), b(5.0), &span)), 5.0);
}

#[test]
fn the_generator_is_splitmix64() {
    // The published reference outputs for seed 0.
    let mut rng = Rng::new(0);
    assert_eq!(rng.next_u64(), 0xE220_A839_7B1D_CDAF);
    assert_eq!(rng.next_u64(), 0x6E78_9E6A_A1B9_65F4);
    assert_eq!(rng.next_u64(), 0x06C4_5D18_8009_454F);
    assert_eq!(splitmix_mix(0x9E37_79B9_7F4A_7C15), 0xE220_A839_7B1D_CDAF);
    assert_eq!(Rng::new(0).next_unit(), 0xE2_20A8);
}

#[test]
fn sim_stepping_is_deterministic() {
    let mut a = seeded(500, 42, 100.0, 100.0);
    let mut b = seeded(500, 42, 100.0, 100.0);
    for _ in 0..600 {
        a.step(SIM_DT, advance);
        b.step(SIM_DT, advance);
    }
    assert_eq!(a.state_checksum(), b.state_checksum());
}

#[test]
fn sim_reflects_off_walls() {
    let mut sim = Sim {
        xs: vec![99.9f32.to_bits()],
        ys: vec![50.0f32.to_bits()],
        vxs: vec![10.0f32.to_bits()],
        vys: vec![0.0f32.to_bits()],
        width: 100.0f32.to_bits(),
        height: 100.0f32.to_bits(),
    };
    sim.step(0.5f32.to_bits(), advance);
    assert_eq!(f(sim.xs[0]), 100.0);
    assert_eq!(f(sim.vxs[0]), -10.0);
}

#[test]
fn sim_keeps_entities_inside_bounds() {
    let mut sim = seeded(200, 1, 64.0, 32.0);
    for _ in 0..2000 {
        sim.step(SIM_DT, advance);
    }
    for i in 0..sim.len() {
        assert!((0.0..=64.0).contains(&f(sim.xs[i])));
        assert!((0.0..=32.0).contains(&f(sim.ys[i])));
    }
}

#[test]
fn walls_turn_velocities_inward() {
    let b = f32::to_bits;
    assert_eq!(reflect(b(-1.0), b(-3.0), b(0.0), b(10.0)), (b(0.0), b(3.0)));
    assert_eq!(reflect(b(11.0), b(3.0), b(0.0), b(10.0)), (b(10.0), b(-3.0)));
    assert_eq!(reflect(b(5.0), b(3.0), b(0.0), b(10.0)), (b(5.0), b(3.0)));
    assert_eq!(reflect(b(10.0), b(3.0), b(0.0), b(10.0)), (b(10.0), b(3.0)));
}

#[test]
fn empty_simulations_are_empty() {
    let sim = seeded(0, 5, 10.0, 10.0);
    assert!(sim.is_empty());
    assert_eq!(sim.len(), 0);
    assert_eq!(sim.state_checksum(), FNV_OFFSET);
    assert!(!seeded(1, 5, 10.0, 10.0).is_empty());
}

#[test]
fn grid_finds_close_pairs_and_no_far_ones() {
    let xs = vec![0.0, 0.5, 50.0];
    let ys = vec![0.0, 0.5, 50.0];
    let mut grid = Arena::new(64.0, 64.0, 4.0, 3);
    grid.rebuild(&xs, &ys);
    let mut pairs = grid.query_pairs(&xs, &ys, 1.0);
    pairs.sort_unstable();
    assert_eq!(pairs, vec![(0, 1)]);
}

#[test]
fn grid_query_is_deterministic() {
    let (xs, ys) = positions(&seeded(300, 9, 50.0, 50.0));
    let mut grid = Arena::new(50.0, 50.0, 2.0, xs.len());
    grid.rebuild(&xs, &ys);
    let a = grid.query_pairs(&xs, &ys, 1.5);
    let b = grid.query_pairs(&xs, &ys, 1.5);
    assert_eq!(a, b);
}

#[test]
fn grid_matches_bruteforce() {
    let (xs, ys) = positions(&seeded(120, 3, 30.0, 30.0));
    let mut grid = Arena::new(30.0, 30.0, 2.0, xs.len());
    grid.rebuild(&xs, &ys);
    let mut via_grid = grid.query_pairs(&xs, &ys, 1.0);
    via_grid.sort_unstable();
    assert_eq!(via_grid, bruteforce(&xs, &ys, 1.0));
}

#[test]
fn grid_rebuild_reuse_matches_fresh_construction() {
    let mut sim = seeded(400, 5, 40.0, 40.0);
    let mut reused = Arena::new(40.0, 40.0, 1.0, sim.len());
    for _ in 0..50 {
        sim.step(SIM_DT, advance);
        let (xs, ys) = positions(&sim);
        reused.rebuild(&xs, &ys);
        let mut fresh = Arena::new(40.0, 40.0, 1.0, sim.len());
        fresh.rebuild(&xs, &ys);
        let mut a = reused.query_pairs(&xs, &ys, 1.0);
        let mut b = fresh.query_pairs(&xs, &ys, 1.0);
        a.sort_unstable();
        b.sort_unstable();
        assert_eq!(a, b);
    }
}

#[test]
fn grid_grows_with_entity_count() {
    let (xs, ys) = positions(&seeded(50, 11, 20.0, 20.0));
    let mut grid = Arena::new(20.0, 20.0, 1.0, 10); // under-sized on purpose
    grid.rebuild(&xs, &ys);
    let before = grid.query_pairs(&xs, &ys, 1.0).len();
    let (bx, by) = positions(&seeded(200, 11, 20.0, 20.0));
    grid.rebuild(&bx, &by);
    let mut sorted = grid.query_pairs(&bx, &by, 1.0);
    sorted.sort_unstable();
    let mut brute = bruteforce(&bx, &by, 1.0);
    brute.sort_unstable();
    assert_eq!(sorted, brute);
    assert!(before <= 50 * 49 / 2);
}

#[test]
fn grid_clamps_out_of_arena_positions() {
    let xs = vec![-5.0, 65.0, 10.0];
    let ys = vec![70.0, -1.0, 10.0];
    let mut grid = Arena::new(64.0, 64.0, 4.0, 3);
    grid.rebuild(&xs, &ys);
    assert!(grid.query_pairs(&xs, &ys, 1.0).is_empty());
}

#[test]
fn grid_scratch_is_cleared_before_a_query() {
    let coords = vec![(0, 0), (0, 0), (1, 1), (3, 3)];
    let mut grid = SpatialGrid::new(4, 4, 4);
    grid.rebuild(&coords);
    let mut out = vec![(9, 9)];
    grid.query_pairs_into(&coords, |_, _| true, &mut out);
    assert_eq!(out, vec![(0, 1), (0, 2), (1, 2)]);
    assert_eq!(grid.query_pairs(&coords, |_, _| false), vec![]);
}

fn doubles(v: &[f64]) -> Vec<u64> {
    v.iter().map(|x| x.to_bits()).collect()
}

#[test]
fn percentiles_of_sorted_sample() {
    let sample: Vec<u64> = (1..=100).map(|i| f64::from(i).to_bits()).collect();
    let at = |num: u64, den: u64| f64::from_bits(percentile(&sample, num, den));
    assert_eq!(at(0, 1), 1.0);
    assert_eq!(at(1, 2), 50.0);
    assert_eq!(at(9, 10), 90.0);
    assert_eq!(at(99, 100), 99.0);
    assert_eq!(at(1, 1), 100.0);
}

#[test]
fn percentile_edges() {
    assert_eq!(percentile(&doubles(&[]), 1, 2), 0.0f64.to_bits());
    assert_eq!(percentile(&doubles(&[7.0]), 1, 2), 7.0f64.to_bits());
    assert_eq!(percentile(&doubles(&[1.0, 2.0]), 5, 1), 2.0f64.to_bits()); // clamped p
}

#[test]
fn summary_sorts_its_input() {
    let (min, p50, _p90, _p99, max) = five_number_summary(&doubles(&[3.0, 1.0, 2.0]));
    assert_eq!(
        (
            f64::from_bits(min),
            f64::from_bits(p50),
            f64::from_bits(max)
        ),
        (1.0, 2.0, 3.0)
    );
}

#[test]
fn integer_ranks_agree_with_fractional_ones() {
    // The ranks of the reported percentiles, against the rounded
    // floating-point product, over every sample size a run can have.
    for n in 1..=3000usize {
        let sample: Vec<u64> = (1..=n as u64).collect();
        for (num, p) in [(0u64, 0.0f64), (50, 0.5), (90, 0.9), (99, 0.99), (100, 1.0)] {
            let rank = ((p * n as f64).ceil() as usize).clamp(1, n);
            assert_eq!(percentile(&sample, num, 100), rank as u64, "p {p} of {n}");
        }
    }
}

#[test]
fn sorting_follows_the_total_order() {
    let sample = [2.5, -1.0, f64::INFINITY, -0.0, 0.0, f64::NEG_INFINITY, -7.0];
    let mut want = sample;
    want.sort_by(f64::total_cmp);
    assert_eq!(sort(&doubles(&sample)), doubles(&want));
}

#[test]
fn tick_rate_matches_benchmark_convention() {
    assert_eq!(TICK_HZ, 60);
    assert_eq!(f(SIM_DT), 1.0 / 60.0);
    assert!((600.0 * f(SIM_DT) - 10.0).abs() < 1e-4);
}

#[test]
fn patterns_compare_as_their_numbers_do() {
    let values = [
        0.0f32,
        -0.0,
        1.0,
        -1.0,
        1.5e-40,
        -1.5e-40,
        f32::MAX,
        f32::MIN,
        f32::INFINITY,
        f32::NEG_INFINITY,
        f32::NAN,
        0.999_999_94,
    ];
    for a in values {
        assert_eq!(f32_finite(a.to_bits()), a.is_finite(), "{a}");
        assert_eq!(f32_unit(a.to_bits()), (0.0..=1.0).contains(&a), "{a}");
        if !a.is_nan() {
            assert_eq!(f32_abs(a.to_bits()), a.abs().to_bits());
            assert_eq!(f32_neg_abs(a.to_bits()), (-a.abs()).to_bits());
        }
        for b in values {
            assert_eq!(f32_ge(a.to_bits(), b.to_bits()), a >= b, "{a} >= {b}");
            assert_eq!(f32_lt(a.to_bits(), b.to_bits()), a < b, "{a} < {b}");
        }
    }
}

#[test]
fn digests_fold_word_by_word() {
    let prime = 0x1000_0000_01B3u64;
    assert_eq!(fnv1a(b""), 0xCBF2_9CE4_8422_2325);
    assert_eq!(
        fnv1a(b"a"),
        (0xCBF2_9CE4_8422_2325u64 ^ 0x61).wrapping_mul(prime)
    );
    assert_eq!(fnv1a(b"ab"), (fnv1a(b"a") ^ 0x62).wrapping_mul(prime));
    assert_eq!(step(3, 5), 3u64.wrapping_mul(prime) ^ 5);
    assert_eq!(fold(1, &[7, 9]), step(step(1, 7), 9));
    let one = digest_quads(&vec![1], &vec![2], &vec![3], &vec![4]);
    let word = splitmix_mix(fold(FNV_OFFSET, &[1, 2, 3, 4]));
    assert_eq!(one, FNV_OFFSET.wrapping_add(word));
}

#[test]
fn seeds_hop_by_the_golden_gamma() {
    assert_eq!(nth_seed(5, 0), 5);
    assert_eq!(nth_seed(5, 1), 0x9E37_79B9_7F4A_7C1A);
    assert_eq!(
        nth_seed(5, 3),
        5u64.wrapping_add(0x9E37_79B9_7F4A_7C15u64.wrapping_mul(3))
    );
}

#[test]
fn the_ledger_tracks_counts_and_peaks() {
    let mut ledger = CountingAlloc::new();
    assert_eq!(snapshot(&ledger), (0, 0));
    ledger.record_alloc(100);
    ledger.record_alloc(50);
    ledger.record_dealloc(100);
    ledger.record_alloc(20);
    assert_eq!(snapshot(&ledger), (3, 150));
}

fn counts(rows: &[(&str, Counts)]) -> Vec<(String, Counts)> {
    rows.iter().map(|&(n, c)| (n.to_string(), c)).collect()
}

#[test]
fn allocation_windows_account_for_the_run() {
    let before = counts(&[("pose", (10, 100, 2))]);
    let end = counts(&[("grid", (5, 50, 1)), ("pose", (14, 160, 6))]);
    let d = alloc_detail(
        &before,
        &end,
        Boundary {
            blocks: 3,
            bytes: 30,
        },
        Boundary {
            blocks: 20,
            bytes: 200,
        },
        Boundary {
            blocks: 50,
            bytes: 900,
        },
        64,
        96,
        &vec![4, 1, 2],
        &vec![40, 10, 20],
        3,
    );
    assert_eq!(
        d.setup,
        WindowTotals {
            blocks: 3,
            bytes: 30
        }
    );
    assert_eq!(
        d.warmup,
        WindowTotals {
            blocks: 17,
            bytes: 170
        }
    );
    assert_eq!((d.measured.blocks, d.measured.bytes), (30, 700));
    assert_eq!(d.measured.ticks, 3);
    assert_eq!(d.measured.blocks_per_tick, FrameStats::of(&vec![1, 2, 4]));
    assert_eq!(d.measured.blocks_per_tick.max, 4);
    assert_eq!(d.measured.bytes_per_tick.min, 10);
    // pose allocated 4 blocks inside the window, grid 5.
    assert_eq!(
        d.schedule_residual,
        WindowTotals {
            blocks: 30 - 9,
            bytes: 700 - 110
        }
    );
    let names: Vec<&str> = d.measured_probes.iter().map(|p| p.0.as_str()).collect();
    assert_eq!(names, vec!["grid", "pose"]);
    assert_eq!(
        d.measured_probes[1].1,
        ProbeTotals {
            blocks: 4,
            bytes: 60,
            calls: 6
        }
    );
    assert_eq!(
        d.probes[1].1,
        ProbeTotals {
            blocks: 14,
            bytes: 160,
            calls: 6
        }
    );
    assert_eq!(
        d.live,
        LiveBytes {
            start: 64,
            end: 96,
            ticks: 3
        }
    );
}

fn totals() -> RunTotals {
    RunTotals {
        scene: "tree".to_string(),
        ticks: 600,
        warmup_ticks: 60,
        seed: 42,
        entities: 512,
        interactions: 128,
        checksum: 0x0123_4567_89AB_CDEF,
    }
}

#[test]
fn reports_carry_the_pass_they_measured() {
    let frames = doubles(&[0.4, 0.0, 0.2]);
    let Some(r) = perf_report(totals(), false, &frames, None) else {
        panic!("the timing pass always reports");
    };
    assert_eq!(r.scene, "tree");
    assert_eq!((r.ticks, r.warmup_ticks, r.seed), (600, 60, 42));
    assert_eq!((r.entities, r.interactions), (512, 128));
    assert_eq!(r.state_checksum, "0123456789abcdef");
    assert_eq!(
        r.frame_ms.map(|s| (f64::from_bits(s.min), f64::from_bits(s.max))),
        Some((0.0, 0.4))
    );
    assert!(r.allocs.is_none() && r.alloc_detail.is_none());

    let stats = AllocStats {
        count: 7,
        peak_bytes: 900,
    };
    let Some(r) = perf_report(totals(), true, &frames, Some((stats, None))) else {
        panic!("a counting build reports");
    };
    assert!(r.frame_ms.is_none());
    assert_eq!(r.allocs, Some(stats));

    assert!(
        perf_report(totals(), true, &frames, None).is_none(),
        "a build without an allocator has nothing to report"
    );
}

#[test]
fn draws_are_numbers_of_the_unit_interval() {
    let mut words = Rng::new(99);
    let mut draws = Rng::new(99);
    let mut spans = Rng::new(99);
    for _ in 0..10_000 {
        let expected = (words.next_u64() >> 40) as f32 / 16_777_216.0;
        let drawn = f32::from_bits(draws.next_f32());
        assert_eq!(drawn, expected);
        assert!((0.0..1.0).contains(&drawn));
        let placed = f32::from_bits(spans.range_f32((-3.0f32).to_bits(), 5.0f32.to_bits(), &span));
        assert_eq!(placed, -3.0 + expected * 8.0);
    }
    assert_eq!(fraction(0), 0);
    assert_eq!(fraction(1), (1.0f32 / 16_777_216.0).to_bits());
    assert_eq!(fraction(0xFF_FFFF), 0.999_999_94f32.to_bits());
}

#[test]
fn the_digest_ignores_the_order_of_particles() {
    let a = seeded(50, 42, 100.0, 100.0);
    let turned = |v: &Vec<u32>| v.iter().rev().copied().collect::<Vec<u32>>();
    let b = Sim {
        xs: turned(&a.xs),
        ys: turned(&a.ys),
        vxs: turned(&a.vxs),
        vys: turned(&a.vys),
        ..a.clone()
    };
    assert_eq!(a.state_checksum(), b.state_checksum());
    let mut crossed = a.clone();
    crossed.xs.swap(0, 1);
    assert_ne!(a.state_checksum(), crossed.state_checksum());
    let mut moved = a.clone();
    moved.vys[7] ^= 1;
    assert_ne!(a.state_checksum(), moved.state_checksum());
}

#[test]
fn one_minus_agrees_with_the_machine() {
    let mut rng = Rng::new(11);
    for _ in 0..50_000 {
        let word = rng.next_u64();
        let x = (word as u32) % 0x3F80_0001;
        assert_eq!(one_minus(x), (1.0 - f(x)).to_bits(), "{}", f(x));
        let y = rng.next_f32();
        assert_eq!(one_minus(y), (1.0 - f(y)).to_bits(), "{}", f(y));
    }
    for x in [0.0f32, -0.0, 1.0, 0.5, 0.08, 0.22, 0.02, 1e-45, 2.980_232_2e-8, 5.960_464_5e-8] {
        assert_eq!(one_minus(x.to_bits()), (1.0 - x).to_bits(), "{x}");
    }
}
