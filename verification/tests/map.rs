//! Maps: generation, layers, costs, and the checksum that pins them.

use bowo::character::Vec3;
use bowo::digest::fnv1a;
use bowo::map::{blank_params, lattice, pick_terrain};
use bowo::map::{GenParams, Occupancy, Terrain, Tile, TileMap, TileSample};
use bowo::map_gallery::{scene_ids, scene_preset, SceneSummary};
use bowo::map_svg::{render_string, Plate, RenderMeta};
use bowo::path::Pathfinder;
use bowo::rng::Rng;
use bowo::tiles::{tile_center, tile_of};

const CH_STONE: u32 = 0;
const CH_WATER: u32 = 1;
const CH_TEMP: u32 = 2;
const CH_FERT: u32 = 3;

fn f(bits: u32) -> f32 {
    f32::from_bits(bits)
}

fn corner(seed: u64, channel: u32, x: i32, z: i32) -> f32 {
    lattice(seed, channel, x, z) as f32 / 16_777_216.0
}

fn smooth(t: f32) -> f32 {
    t * t * (3.0 - 2.0 * t)
}

fn value_noise(seed: u64, channel: u32, x: f32, z: f32) -> f32 {
    let (x0, z0) = (x.floor(), z.floor());
    let (tx, tz) = (smooth(x - x0), smooth(z - z0));
    let (xi, zi) = (x0 as i32, z0 as i32);
    let c00 = corner(seed, channel, xi, zi);
    let c10 = corner(seed, channel, xi + 1, zi);
    let c01 = corner(seed, channel, xi, zi + 1);
    let c11 = corner(seed, channel, xi + 1, zi + 1);
    let a = c00 * (1.0 - tx) + c10 * tx;
    let b = c01 * (1.0 - tx) + c11 * tx;
    a * (1.0 - tz) + b * tz
}

fn fbm(seed: u64, channel: u32, x: f32, z: f32, octaves: u32, scale: f32) -> f32 {
    let mut freq = 1.0 / scale;
    let mut amp = 1.0;
    let mut sum = 0.0;
    let mut norm = 0.0;
    for octave in 0..octaves {
        sum += amp * value_noise(seed, channel * 64 + octave, x * freq, z * freq);
        norm += amp;
        amp *= 0.5;
        freq *= 2.0;
    }
    sum / norm
}

fn samples(seed: u64, p: &GenParams) -> Vec<TileSample> {
    let grad = 1.0 / (p.height - 1).max(1) as f32;
    let mut out = Vec::new();
    for z in 0..p.height as i32 {
        for x in 0..p.width as i32 {
            let (cx, cz) = (x as f32 + 0.5, z as f32 + 0.5);
            let channel = |ch: u32| fbm(seed, ch, cx, cz, p.octaves, f(p.scale));
            let pooled = 1.0 - (1.0 - channel(CH_WATER)).powi(2);
            let gradient = f(p.temp_base_c) + f(p.temp_span_c) * z as f32 * grad;
            let noise = (channel(CH_TEMP) - 0.5) * 2.0;
            let raw = channel(CH_FERT);
            out.push(TileSample {
                pooled: pooled.to_bits(),
                stone: channel(CH_STONE).to_bits(),
                temperature: (gradient + noise * f(p.temp_noise_c)).to_bits(),
                fertility_soil: raw.to_bits(),
                fertility_stone: (raw * 0.60).to_bits(),
                fertility_water: (raw * 0.10).to_bits(),
            });
        }
    }
    out
}

fn generate(seed: u64, p: GenParams) -> TileMap {
    assert!(p.is_valid());
    TileMap::generate(seed, p, &samples(seed, &p))
}

fn blank(width: u32, height: u32) -> TileMap {
    let p = blank_params(width, height);
    assert!(p.is_valid());
    TileMap::blank(width, height, &samples(0, &p))
}

fn meadow() -> TileMap {
    generate(42, GenParams::default())
}

fn with_water(p: GenParams, fraction: f32) -> GenParams {
    GenParams {
        water_fraction: fraction.to_bits(),
        ..p
    }
}

fn all_tiles(m: &TileMap) -> Vec<Tile> {
    let mut out = Vec::new();
    for z in 0..m.height() as i32 {
        for x in 0..m.width() as i32 {
            out.push(Tile { x, z });
        }
    }
    out
}

#[test]
fn bounds_are_checked_and_queries_fail_closed() {
    let mut m = generate(
        7,
        GenParams {
            width: 16,
            height: 8,
            ..GenParams::default()
        },
    );
    assert!(m.in_bounds(Tile { x: 0, z: 0 }));
    assert!(m.in_bounds(Tile { x: 15, z: 7 }));
    for t in [
        Tile { x: -1, z: 0 },
        Tile { x: 0, z: -1 },
        Tile { x: 16, z: 0 },
        Tile { x: 0, z: 8 },
    ] {
        assert!(!m.in_bounds(t), "{t:?} should be out of bounds");
        assert!(!m.walkable(t));
        assert_eq!(m.cost(t), 0);
        assert_eq!(m.terrain_at(t), None);
        assert_eq!(m.occupancy_at(t), None);
        assert!(!m.set_occupancy(t, Occupancy::blocked()));
    }
}

#[test]
fn blank_maps_are_all_soil() {
    let m = blank(8, 8);
    assert_eq!(m.walkable_count(), 64);
    assert_eq!(m.terrain_at(Tile { x: 7, z: 7 }), Some(Terrain::Soil));
    assert_eq!(blank(8, 8).checksum(), m.checksum());
}

#[test]
fn map_generation_is_deterministic() {
    let p = GenParams::default();
    let a = generate(42, p);
    let b = generate(42, p);
    assert_eq!(a, b, "same (seed, params) must reproduce the whole map");
    assert_ne!(a.checksum(), generate(43, p).checksum());
}

#[test]
fn every_generation_parameter_moves_the_checksum() {
    let base = GenParams::default();
    let want = generate(42, base).checksum();
    let varied = [
        GenParams { octaves: 5, ..base },
        GenParams {
            scale: 8.5f32.to_bits(),
            ..base
        },
        GenParams {
            stone_threshold: 0.55f32.to_bits(),
            ..base
        },
        with_water(base, 0.12),
        GenParams {
            temp_base_c: 16.0f32.to_bits(),
            ..base
        },
        GenParams {
            temp_span_c: 15.0f32.to_bits(),
            ..base
        },
        GenParams {
            temp_noise_c: 3.0f32.to_bits(),
            ..base
        },
        GenParams { width: 63, ..base },
        GenParams { height: 65, ..base },
    ];
    for p in varied {
        assert_ne!(
            generate(42, p).checksum(),
            want,
            "params {p:?} slipped through the checksum"
        );
    }
    assert_ne!(generate(41, base).checksum(), want);
}

#[test]
fn default_generation_checksum_is_pinned() {
    assert_eq!(meadow().checksum(), 0x02AF_DE33_3145_E043);
}

#[test]
fn temperature_gradients_southward_within_its_envelope() {
    let p = GenParams::default();
    let m = generate(42, p);
    let (base, span, noise) = (f(p.temp_base_c), f(p.temp_span_c), f(p.temp_noise_c));
    let at = |x: i32, z: i32| m.temperature_at(Tile { x, z }).map_or(f32::NAN, f);
    let row_mean = |z: i32| {
        let n = m.width() as f32;
        (0..m.width() as i32).map(|x| at(x, z)).sum::<f32>() / n
    };
    let north = row_mean(0);
    let south = row_mean(m.height() as i32 - 1);
    assert!(
        south - north > span * 0.8,
        "gradient too weak: north {north}, south {south}"
    );
    for z in 0..m.height() as i32 {
        for x in 0..m.width() as i32 {
            let t = at(x, z);
            let gradient = base + span * z as f32 / (m.height() - 1).max(1) as f32;
            assert!(
                (gradient - noise..=gradient + noise).contains(&t),
                "tile ({x}, {z}) at {t} escaped the envelope"
            );
        }
    }
}

#[test]
fn fertility_is_a_fraction_and_respects_terrain() {
    let m = meadow();
    let mut soil = (0.0f64, 0usize);
    let mut stone = (0.0f64, 0usize);
    let mut water = (0.0f64, 0usize);
    for t in all_tiles(&m) {
        let v = m.fertility_at(t).map_or(f32::NAN, f);
        assert!((0.0..=1.0).contains(&v), "fertility {v} not a fraction");
        let bucket = match m.terrain_at(t) {
            Some(Terrain::Soil) => &mut soil,
            Some(Terrain::Stone) => &mut stone,
            _ => &mut water,
        };
        bucket.0 += f64::from(v);
        bucket.1 += 1;
    }
    let mean = |b: (f64, usize)| b.0 / b.1.max(1) as f64;
    assert!(mean(water) < mean(stone), "water out-ferts stone");
    assert!(mean(stone) < mean(soil), "stone out-ferts soil");
    assert!(
        mean(water) < 0.10,
        "water should be near-barren: {}",
        mean(water)
    );
}

#[test]
fn channel_writes_round_trip_checksum_exactly() {
    let mut m = meadow();
    let t = Tile { x: 30, z: 30 };
    let pristine = m.checksum();
    let t0 = m.temperature_at(t).map_or(f32::NAN, f);
    let f0 = m.fertility_at(t).map_or(f32::NAN, f);
    assert!(m.set_temperature(t, (t0 + 12.5).to_bits()), "in-bounds write");
    assert_ne!(m.checksum(), pristine);
    assert_eq!(m.temperature_at(t), Some((t0 + 12.5).to_bits()));
    assert!(m.set_fertility(t, 0.05f32.to_bits()));
    assert!(m.set_temperature(t, t0.to_bits()));
    assert!(m.set_fertility(t, f0.to_bits()));
    assert_eq!(m.checksum(), pristine, "restoring values restores the map");
    assert!(!m.set_temperature(Tile { x: -1, z: 0 }, 0.0f32.to_bits()));
    assert!(!m.set_fertility(Tile { x: 0, z: 99 }, 0.5f32.to_bits()));
    assert_eq!(m.checksum(), pristine, "out-of-bounds writes are no-ops");
}

#[test]
fn water_fraction_is_monotone() {
    let p = GenParams::default();
    let dry = generate(42, with_water(p, 0.05)).walkable_count();
    let mid = generate(42, with_water(p, 0.15)).walkable_count();
    let wet = generate(42, with_water(p, 0.30)).walkable_count();
    assert!(
        dry >= mid && mid >= wet,
        "water only floods: {dry} >= {mid} >= {wet}"
    );
    assert!(
        wet < dry,
        "a 30% water budget must actually flood something"
    );
}

#[test]
fn threshold_extremes_are_exact() {
    let p = GenParams::default();
    let ocean = generate(1, with_water(p, 1.0));
    assert_eq!(ocean.walkable_count(), 0, "water everywhere");
    let plain = generate(
        1,
        GenParams {
            stone_threshold: 1.0f32.to_bits(),
            ..with_water(p, 0.0)
        },
    );
    assert_eq!(plain.walkable_count(), plain.tile_count());
    assert!(all_tiles(&plain)
        .iter()
        .all(|&t| plain.terrain_at(t) == Some(Terrain::Soil)));
    assert_eq!(plain.terrain_count(Terrain::Soil), plain.tile_count());
}

#[test]
fn default_generation_paints_a_meadow() {
    let m = meadow();
    let n = m.tile_count() as f32;
    let count = |t: Terrain| m.terrain_count(t) as f32 / n;
    let water = count(Terrain::Water);
    let stone = count(Terrain::Stone);
    assert!(water > 0.0 && water < 0.30, "water fraction {water}");
    assert!(stone > 0.0 && stone < 0.50, "stone fraction {stone}");
    assert!(
        water + stone < 0.75,
        "should be mostly soil: {}",
        water + stone
    );
    let Some(stone_tile) = (0..64)
        .flat_map(|z| (0..64).map(move |x| Tile { x, z }))
        .find(|&t| m.terrain_at(t) == Some(Terrain::Stone))
    else {
        panic!("the default seed paints stone");
    };
    assert_eq!(m.cost(stone_tile), 9, "paved stone is the cheaper walk");
}

#[test]
fn occupancy_blocks_and_the_cost_cache_follows() {
    let mut m = meadow();
    let t = Tile { x: 10, z: 12 };
    assert!(m.walkable(t), "the pin needs a walkable tile");
    let pristine = m.checksum();
    let soil_cost = m.cost(t);
    assert!(m.set_occupancy(t, Occupancy::reserved()));
    assert!(!m.walkable(t), "a reservation holds its tiles");
    assert_eq!(m.cost(t), 0);
    assert_ne!(m.checksum(), pristine);
    assert!(m.set_occupancy(t, Occupancy::blocked() | Occupancy::reserved()));
    assert!(!m.walkable(t));
    assert_eq!(m.cost(t), 0);
    assert!(m.set_occupancy(t, Occupancy::empty()));
    assert!(m.walkable(t));
    assert_eq!(m.cost(t), soil_cost);
    assert_eq!(
        m.checksum(),
        pristine,
        "clearing restores the generated map exactly"
    );
}

#[test]
fn cost_cache_matches_a_fresh_derivation_after_mutations() {
    let mut m = generate(
        9,
        GenParams {
            width: 24,
            height: 24,
            ..GenParams::default()
        },
    );
    let mut rng = Rng::new(3);
    for _ in 0..40 {
        let t = Tile {
            x: (rng.next_u64() % 24) as i32,
            z: (rng.next_u64() % 24) as i32,
        };
        let occ = match rng.next_u64() % 3 {
            0 => Occupancy::empty(),
            1 => Occupancy::reserved(),
            _ => Occupancy::blocked(),
        };
        m.set_occupancy(t, occ);
    }
    for z in 0..24 {
        for x in 0..24 {
            let t = Tile { x, z };
            let want = match (m.terrain_at(t), m.occupancy_at(t)) {
                (Some(ter), Some(o)) if ter != Terrain::Water && o.is_empty() => ter.cost(),
                _ => 0,
            };
            assert_eq!(m.cost(t), want, "cost cache drifted at {t:?}");
        }
    }
}

#[test]
fn occupancy_flags_compose() {
    let both = Occupancy::blocked() | Occupancy::reserved();
    assert!(both.contains(Occupancy::blocked()));
    assert!(both.contains(Occupancy::reserved()));
    assert_eq!(both.remove(Occupancy::reserved()), Occupancy::blocked());
    assert_eq!(
        Occupancy::empty().insert(Occupancy::reserved()),
        Occupancy::reserved()
    );
    assert!(!Occupancy::reserved().contains(Occupancy::blocked()));
    assert!(Occupancy::empty().is_empty());
    assert_eq!(both.bits(), 3);
}

#[test]
fn terrain_costs_are_fixed_point() {
    assert_eq!(Terrain::Soil.cost(), 10);
    assert_eq!(Terrain::Stone.cost(), 9);
    assert_eq!(Terrain::Water.cost(), 0);
    assert_eq!(Terrain::default(), Terrain::Soil);
}

#[test]
fn terrain_follows_the_thresholds() {
    let s = TileSample {
        pooled: 0.9f32.to_bits(),
        stone: 0.6f32.to_bits(),
        temperature: 0,
        fertility_soil: 0,
        fertility_stone: 0,
        fertility_water: 0,
    };
    let pick = |cut: f32, stone: f32| pick_terrain(s, cut.to_bits(), stone.to_bits());
    assert_eq!(pick(0.9, 0.6), Terrain::Water, "water wins where both fire");
    assert_eq!(pick(0.91, 0.6), Terrain::Stone);
    assert_eq!(pick(0.91, 0.61), Terrain::Soil);
}

#[test]
fn channels_are_held_in_the_unit_range() {
    let pick = |pooled: f32, stone: f32, cut: f32, threshold: f32| {
        let s = TileSample {
            pooled: pooled.to_bits(),
            stone: stone.to_bits(),
            temperature: 0,
            fertility_soil: 0,
            fertility_stone: 0,
            fertility_water: 0,
        };
        pick_terrain(s, cut.to_bits(), threshold.to_bits())
    };
    for odd in [-1.0, 0.0, 0.5, 1.0, 2.0, f32::INFINITY, f32::NAN] {
        assert_eq!(pick(odd, 0.0, 0.0, 1.0), Terrain::Water, "{odd}");
        assert_eq!(pick(odd, odd, 1.0, 1.0), Terrain::Soil, "{odd}");
        assert_eq!(pick(0.0, odd, 1.0, 0.0), Terrain::Stone, "{odd}");
    }
}

#[test]
fn full_budgets_flood_whatever_the_noise_says() {
    let p = with_water(blank_params(3, 2), 1.0);
    let odd = [-1.0f32, 0.0, 0.5, 1.0, 2.0, f32::NAN];
    let samples: Vec<TileSample> = odd
        .iter()
        .map(|v| TileSample {
            pooled: v.to_bits(),
            stone: v.to_bits(),
            temperature: 0,
            fertility_soil: 0,
            fertility_stone: 0,
            fertility_water: 0,
        })
        .collect();
    let m = TileMap::generate(7, p, &samples);
    assert_eq!(m.walkable_count(), 0);
    for t in all_tiles(&m) {
        assert_eq!(m.terrain_at(t), Some(Terrain::Water));
    }
    assert_eq!(TileMap::blank(3, 2, &samples).walkable_count(), 6);
}

#[test]
fn invalid_parameters_are_refused() {
    let d = GenParams::default();
    assert!(d.is_valid());
    let bad = [
        GenParams { width: 0, ..d },
        GenParams { height: 0, ..d },
        GenParams {
            width: 4097,
            height: 4096,
            ..d
        },
        GenParams { octaves: 0, ..d },
        GenParams { octaves: 17, ..d },
        GenParams {
            scale: 0.0f32.to_bits(),
            ..d
        },
        GenParams {
            scale: f32::INFINITY.to_bits(),
            ..d
        },
        GenParams {
            stone_threshold: 1.01f32.to_bits(),
            ..d
        },
        with_water(d, -0.01),
        GenParams {
            temp_base_c: f32::NAN.to_bits(),
            ..d
        },
        GenParams {
            temp_span_c: f32::NEG_INFINITY.to_bits(),
            ..d
        },
        GenParams {
            temp_noise_c: (-0.5f32).to_bits(),
            ..d
        },
    ];
    for p in bad {
        assert!(!p.is_valid(), "{p:?}");
    }
    let edge = GenParams {
        width: 4096,
        height: 4096,
        octaves: 16,
        temp_noise_c: (-0.0f32).to_bits(),
        ..with_water(d, 1.0)
    };
    assert!(edge.is_valid());
}

fn walkable_from(map: &TileMap, x0: i32, z0: i32) -> Option<Tile> {
    let (w, h) = (map.width() as i32, map.height() as i32);
    let (xs, zs) = (x0.clamp(0, w - 1), z0.clamp(0, h - 1));
    for z in zs..h {
        for x in if z == zs { xs } else { 0 }..w {
            let t = Tile { x, z };
            if map.walkable(t) {
                return Some(t);
            }
        }
    }
    None
}

fn assert_valid_route(map: &TileMap, route: &[Tile], start: Tile, goal: Tile) {
    assert_eq!(route.first(), Some(&start), "route must begin at the start");
    assert_eq!(route.last(), Some(&goal), "route must end at the goal");
    for pair in route.windows(2) {
        let d = (pair[0].x - pair[1].x).abs() + (pair[0].z - pair[1].z).abs();
        assert_eq!(d, 1, "non-adjacent hop {:?} -> {:?}", pair[0], pair[1]);
    }
    for &t in route {
        assert!(map.walkable(t), "route crosses unwalkable {t:?}");
    }
}

#[test]
fn straight_routes_on_blank_maps_are_direct() {
    let map = blank(16, 16);
    let mut pf = Pathfinder::new(&map);
    let route = pf
        .find_path(&map, Tile { x: 2, z: 3 }, Tile { x: 8, z: 3 })
        .unwrap_or_default();
    assert_eq!(route.len(), 7);
    assert!(route.iter().all(|t| t.z == 3), "route drifted off the row");
}

#[test]
fn diagonal_tiebreak_is_pinned() {
    let map = blank(16, 16);
    let mut pf = Pathfinder::new(&map);
    let route = pf
        .find_path(&map, Tile { x: 2, z: 2 }, Tile { x: 6, z: 6 })
        .unwrap_or_default();
    let pinned: Vec<Tile> = [
        (2, 2),
        (3, 2),
        (4, 2),
        (5, 2),
        (6, 2),
        (6, 3),
        (6, 4),
        (6, 5),
        (6, 6),
    ]
    .iter()
    .map(|&(x, z)| Tile { x, z })
    .collect();
    assert_eq!(route, pinned, "the tie-break law drifted");
}

#[test]
fn routes_detour_around_blocked_walls() {
    let mut map = blank(16, 16);
    for z in 0..16 {
        if z != 10 {
            map.set_occupancy(Tile { x: 8, z }, Occupancy::blocked());
        }
    }
    let mut pf = Pathfinder::new(&map);
    let start = Tile { x: 2, z: 4 };
    let goal = Tile { x: 14, z: 4 };
    let route = pf.find_path(&map, start, goal).unwrap_or_default();
    assert_valid_route(&map, &route, start, goal);
    assert!(route.contains(&Tile { x: 8, z: 10 }), "must thread the gap");
    assert_eq!(route.len(), 25, "12 east + 6 north + 6 south + start");
}

#[test]
fn failing_queries_fail_closed() {
    let mut map = blank(16, 16);
    for &(dx, dz) in &[
        (1, 0),
        (-1, 0),
        (0, 1),
        (0, -1),
        (1, 1),
        (1, -1),
        (-1, 1),
        (-1, -1),
    ] {
        map.set_occupancy(
            Tile {
                x: 8 + dx,
                z: 8 + dz,
            },
            Occupancy::blocked(),
        );
    }
    let mut pf = Pathfinder::new(&map);
    let mut out = Vec::new();

    assert!(!pf.find_path_into(&map, Tile { x: 2, z: 2 }, Tile { x: 8, z: 8 }, &mut out));
    assert!(out.is_empty(), "a failed query must clear the buffer");

    assert!(!pf.find_path_into(&map, Tile { x: -1, z: 0 }, Tile { x: 2, z: 2 }, &mut out));
    assert!(!pf.find_path_into(&map, Tile { x: 2, z: 2 }, Tile { x: 99, z: 99 }, &mut out));

    assert!(pf.find_path_into(&map, Tile { x: 5, z: 5 }, Tile { x: 5, z: 5 }, &mut out));
    assert_eq!(out, vec![Tile { x: 5, z: 5 }]);
}

#[test]
fn meadow_routes_are_valid_and_repeatable() {
    let map = meadow();
    let start = walkable_from(&map, 0, 0).unwrap_or(Tile { x: 0, z: 0 });
    let goal = walkable_from(&map, 32, 32).unwrap_or(Tile { x: 63, z: 63 });
    let mut pf = Pathfinder::new(&map);
    let a = pf.find_path(&map, start, goal).unwrap_or_default();
    let mut out = Vec::new();
    assert!(pf.find_path_into(&map, start, goal, &mut out));
    assert_eq!(a, out, "same query must reproduce the same route");
    assert!(a.len() > 32, "a cross-map route should be substantial");
    assert_valid_route(&map, &a, start, goal);
}

#[test]
fn reused_scratch_matches_fresh_construction() {
    let map = meadow();
    let mut rng = Rng::new(7);
    let mut reused = Pathfinder::new(&map);
    let mut out = Vec::new();
    for _ in 0..30 {
        let start = walkable_from(
            &map,
            (rng.next_u64() % 60) as i32,
            (rng.next_u64() % 60) as i32,
        )
        .unwrap_or(Tile { x: 0, z: 0 });
        let goal = walkable_from(
            &map,
            (rng.next_u64() % 60) as i32,
            (rng.next_u64() % 60) as i32,
        )
        .unwrap_or(Tile { x: 63, z: 63 });
        let via_reuse = reused.find_path(&map, start, goal);
        let mut fresh = Pathfinder::new(&map);
        let via_fresh = fresh.find_path(&map, start, goal);
        assert_eq!(via_reuse, via_fresh, "stale stamps leaked between queries");
        assert!(reused.find_path_into(&map, start, goal, &mut out));
        assert_eq!(out, via_fresh.unwrap_or_default());
    }
}

#[test]
fn routes_prefer_paved_ground() {
    // Five columns, two rows, the upper row paved.
    let p = GenParams {
        stone_threshold: 0.5f32.to_bits(),
        ..blank_params(5, 2)
    };
    let mut tiles = samples(0, &p);
    for (k, s) in tiles.iter_mut().enumerate() {
        s.stone = if k < 5 { 0.9f32 } else { 0.1f32 }.to_bits();
    }
    let map = TileMap::generate(0, p, &tiles);
    assert_eq!(map.terrain_count(Terrain::Stone), 5);
    let mut pf = Pathfinder::new(&map);
    let route = pf
        .find_path(&map, Tile { x: 0, z: 0 }, Tile { x: 4, z: 1 })
        .unwrap_or_default();
    let cost: u32 = route.iter().skip(1).map(|&t| u32::from(map.cost(t))).sum();
    assert_eq!(cost, 9 * 4 + 10, "stay on the paving as long as possible");
}

fn summarize(map: &TileMap) -> SceneSummary {
    let plus = |(a, b): (u32, u32)| (f(a) + f(b)).to_bits();
    let over = |(sum, n): (u32, usize)| (f(sum) / n as f32).to_bits();
    bowo::map_gallery::summarize(map, &plus, &over)
}

fn scene(id: &str, seed: u64) -> TileMap {
    let params = scene_preset(id).unwrap_or_else(|| panic!("{id} scene"));
    generate(seed, params)
}

#[test]
fn scene_table_ids_are_stable() {
    let ids: Vec<&str> = scene_ids();
    assert_eq!(ids, vec!["meadow", "archipelago", "badlands", "blank"]);
    for id in ids {
        assert!(scene_preset(id).is_some(), "lookup missed {id}");
    }
    assert!(scene_preset("nope").is_none());
}

#[test]
fn meadow_is_the_default_params() {
    assert_eq!(scene_preset("meadow"), Some(GenParams::default()));
}

#[test]
fn scene_parameters_are_the_declared_ones() {
    let params = |w, h, octaves, v: [f32; 6]| GenParams {
        width: w,
        height: h,
        octaves,
        scale: v[0].to_bits(),
        stone_threshold: v[1].to_bits(),
        water_fraction: v[2].to_bits(),
        temp_base_c: v[3].to_bits(),
        temp_span_c: v[4].to_bits(),
        temp_noise_c: v[5].to_bits(),
    };
    let table = [
        ("meadow", params(64, 64, 4, [8.0, 0.60, 0.08, 15.0, 14.0, 2.5])),
        (
            "archipelago",
            params(64, 64, 3, [5.0, 0.68, 0.22, 24.0, 4.0, 1.5]),
        ),
        (
            "badlands",
            params(64, 64, 4, [10.0, 0.48, 0.02, 28.0, 8.0, 3.0]),
        ),
        ("blank", params(64, 64, 4, [8.0, 1.0, 0.0, 15.0, 14.0, 2.5])),
    ];
    for (id, want) in table {
        assert_eq!(scene_preset(id), Some(want), "{id}");
    }
}

#[test]
fn blank_scene_matches_map_blank() {
    let params = scene_preset("blank").unwrap_or_else(|| panic!("blank scene"));
    let blank_map = blank(params.width, params.height);
    for seed in [0, 1234] {
        let scene_map = generate(seed, params);
        let s = summarize(&scene_map);
        assert_eq!(s.soil, s.tiles, "seed {seed}: blank must be all soil");
        assert_eq!(s.walkable, s.tiles, "seed {seed}: all walkable");
        for t in all_tiles(&scene_map) {
            assert_eq!(
                scene_map.terrain_at(t),
                blank_map.terrain_at(t),
                "seed {seed}: layers diverged at {t:?}"
            );
        }
    }
}

#[test]
fn scenes_are_deterministic_and_seed_sensitive() {
    for id in scene_ids() {
        let a = scene(id, 42);
        let b = scene(id, 42);
        assert_eq!(a, b, "{id}: same (scene, seed) must reproduce");
        assert_eq!(summarize(&a).checksum, summarize(&b).checksum);
        let c = scene(id, 43);
        assert_ne!(
            summarize(&a).checksum,
            summarize(&c).checksum,
            "{id}: reroll seed should move the map"
        );
    }
}

#[test]
fn summaries_partition_the_tiles() {
    for id in scene_ids() {
        let s = summarize(&scene(id, 7));
        assert_eq!(s.soil + s.stone + s.water, s.tiles, "{id}: layers leaked");
        assert_eq!(s.walkable, s.tiles - s.water, "{id}: walkability law");
    }
}

#[test]
fn summaries_carry_the_channel_means() {
    let s = |id: &str| summarize(&scene(id, 42));
    let meadow = s("meadow");
    let archipelago = s("archipelago");
    let badlands = s("badlands");
    let temperature = |s: &SceneSummary| f(s.mean_temperature_c);
    assert!(
        (15.0..=29.0).contains(&temperature(&meadow)),
        "meadow mean temperature {}",
        temperature(&meadow)
    );
    assert!(
        temperature(&archipelago) > temperature(&meadow),
        "archipelago should outrank the meadow"
    );
    assert!(
        temperature(&badlands) > temperature(&archipelago),
        "badlands should be the hottest"
    );
    let blank = s("blank");
    for (id, sum) in [
        ("meadow", meadow),
        ("archipelago", archipelago),
        ("badlands", badlands),
        ("blank", blank),
    ] {
        assert!(
            (0.0..=1.0).contains(&f(sum.mean_fertility)),
            "{id} mean fertility {} not a fraction",
            f(sum.mean_fertility)
        );
    }
}

#[test]
fn means_are_sums_over_the_tiles_in_order() {
    let m = scene("meadow", 42);
    let n = m.tile_count() as f32;
    let (mut temp, mut fert) = (0.0f32, 0.0f32);
    for t in all_tiles(&m) {
        temp += m.temperature_at(t).map_or(0.0, f);
        fert += m.fertility_at(t).map_or(0.0, f);
    }
    let s = summarize(&m);
    assert_eq!(f(s.mean_temperature_c), temp / n);
    assert_eq!(f(s.mean_fertility), fert / n);
}

#[test]
fn scenes_match_their_character() {
    let share = |part: usize, whole: usize| part as f32 / whole as f32;
    let meadow = summarize(&scene("meadow", 42));
    assert!(share(meadow.water, meadow.tiles) > 0.01, "meadow has ponds");
    assert!(share(meadow.stone, meadow.tiles) > 0.05, "meadow has stone");
    assert!(
        share(meadow.soil, meadow.tiles) > 0.60,
        "meadow is mostly soil"
    );

    let arch = summarize(&scene("archipelago", 42));
    assert!(
        share(arch.water, arch.tiles) > 0.20,
        "archipelago is wet: {}",
        arch.water
    );

    let bad = summarize(&scene("badlands", 42));
    assert!(
        share(bad.stone, bad.tiles) > 0.30,
        "badlands are stony: {}",
        bad.stone
    );
    assert!(bad.water == 0 || share(bad.water, bad.tiles) < 0.05);

    let blank = summarize(&scene("blank", 42));
    assert_eq!(blank.soil, blank.tiles, "blank is all soil");
    assert_eq!(blank.walkable, blank.tiles);
}

fn cross(a: [f32; 3], b: [f32; 3]) -> [f32; 3] {
    [
        a[1] * b[2] - a[2] * b[1],
        a[2] * b[0] - a[0] * b[2],
        a[0] * b[1] - a[1] * b[0],
    ]
}

fn dot(a: [f32; 3], b: [f32; 3]) -> f32 {
    a[0] * b[0] + a[1] * b[1] + a[2] * b[2]
}

/// The plate of a map seen along the tactical direction.
fn plate(map: &TileMap) -> Plate {
    const FOCAL: f32 = 30.0;
    const MARGIN: f32 = 48.0;
    let (w, h) = (map.width() as i32, map.height() as i32);
    let (az, el) = (49.0f32.to_radians(), 15.5f32.to_radians());
    let dir = [el.cos() * az.sin(), el.sin(), el.cos() * az.cos()];
    let fwd = [dir[0] * -1.0, dir[1] * -1.0, dir[2] * -1.0];
    let side = cross(fwd, [0.0, 1.0, 0.0]);
    let len = dot(side, side).sqrt();
    let right = [side[0] * (1.0 / len), side[1] * (1.0 / len), side[2] * (1.0 / len)];
    let up = cross(right, fwd);
    let focus = [w as f32 * 0.5, 0.0, h as f32 * 0.5];
    let p = |x: i32, z: i32| {
        let d = [x as f32 - focus[0], 0.0 - focus[1], z as f32 - focus[2]];
        (FOCAL * dot(d, right), -FOCAL * dot(d, up))
    };
    let corners = [p(0, 0), p(w, 0), p(w, h), p(0, h)];
    let minx = corners.iter().fold(f32::MAX, |m, c| m.min(c.0)) - MARGIN;
    let miny = corners.iter().fold(f32::MAX, |m, c| m.min(c.1)) - MARGIN;
    let maxx = corners.iter().fold(f32::MIN, |m, c| m.max(c.0)) + MARGIN;
    let maxy = corners.iter().fold(f32::MIN, |m, c| m.max(c.1)) + MARGIN;
    let whole = |v: f32| format!("{v:.0}").parse::<i64>().unwrap_or_default();
    let mut points = Vec::new();
    for z in 0..=h {
        for x in 0..=w {
            let c = p(x, z);
            points.push((c.0.round() as i64, c.1.round() as i64));
        }
    }
    Plate {
        points,
        min_x: whole(minx),
        min_y: whole(miny),
        width: whole(maxx - minx),
        height: whole(maxy - miny),
        caption_x: whole(minx + MARGIN),
        caption_y: whole(maxy - MARGIN * 0.5),
    }
}

fn drawn(map: &TileMap, scene: &str, seed: u64) -> String {
    render_string(map, &RenderMeta { scene, seed }, &plate(map))
}

#[test]
fn golden_render_hash_is_pinned() {
    let svg = drawn(&scene("meadow", 42), "meadow", 42);
    assert_eq!(
        fnv1a(svg.as_bytes()),
        0x6F72_83DA_1147_9EE2,
        "render churned"
    );
}

#[test]
fn render_is_deterministic_and_seed_sensitive() {
    assert_eq!(
        drawn(&scene("meadow", 42), "meadow", 42),
        drawn(&scene("meadow", 42), "meadow", 42)
    );
    assert_ne!(
        drawn(&scene("meadow", 42), "meadow", 42),
        drawn(&scene("meadow", 43), "meadow", 42)
    );
}

#[test]
fn terrain_layers_render_by_kind() {
    let svg = drawn(&scene("meadow", 42), "meadow", 42);
    assert!(svg.contains("fill=\"#a89f8c\""), "no stone");
    assert!(svg.contains("fill=\"#49799c\""), "no water");
    assert!(svg.contains("fill=\"#5d9c4b\""), "no soil plate");
    let svg = drawn(&scene("blank", 7), "blank", 7);
    assert!(!svg.contains("fill=\"#a89f8c\""));
    assert!(!svg.contains("fill=\"#49799c\""));
}

#[test]
fn renders_carry_their_provenance() {
    let map = scene("meadow", 9);
    let svg = drawn(&map, "mea<dow", 9);
    assert!(svg.contains("<svg"), "missing svg root");
    assert!(svg.contains("seed 9"), "no seed caption");
    assert!(svg.contains("mea&lt;dow"), "the scene name is escaped");
    assert!(
        svg.contains(&format!("{:016x}", summarize(&map).checksum)),
        "no checksum caption"
    );
}

fn at(x: f32, y: f32, z: f32) -> Vec3 {
    Vec3 {
        x: x.to_bits(),
        y: y.to_bits(),
        z: z.to_bits(),
    }
}

#[test]
fn tile_of_floors_negative_coordinates() {
    assert_eq!(tile_of(at(-0.25, 0.0, 3.7)), Tile { x: -1, z: 3 });
    assert_eq!(tile_of(at(-1.0, 2.0, -0.9)), Tile { x: -1, z: -1 });
    assert_eq!(tile_of(at(2.0, 0.0, 7.0)), Tile { x: 2, z: 7 });
    assert_eq!(tile_of(at(2.999, 0.0, 7.999)), Tile { x: 2, z: 7 });
}

#[test]
fn tile_center_round_trips() {
    let t = Tile { x: -3, z: 5 };
    assert_eq!(tile_center(t), at(-2.5, 0.0, 5.5));
    assert_eq!(tile_of(tile_center(t)), t);
}

#[test]
fn tiles_agree_with_the_machine() {
    let mut rng = Rng::new(7);
    for _ in 0..20_000 {
        let word = rng.next_u64();
        let (a, b) = (f(word as u32), f((word >> 32) as u32));
        let floored = Tile {
            x: a.floor() as i32,
            z: b.floor() as i32,
        };
        assert_eq!(tile_of(at(a, 0.0, b)), floored, "{a} {b}");
        let shift = (rng.next_u64() % 32) as u32;
        let t = Tile {
            x: (word as i32) >> shift,
            z: ((word >> 32) as i32) >> shift,
        };
        let center = at(t.x as f32 + 0.5, 0.0, t.z as f32 + 0.5);
        assert_eq!(tile_center(t), center, "{t:?}");
    }
    for v in [
        0.0,
        -0.0,
        f32::INFINITY,
        f32::NEG_INFINITY,
        f32::NAN,
        1e-45,
        -1e-45,
        2_147_483_648.0,
        -2_147_483_648.0,
        2_147_483_520.0,
        8_388_607.5,
        -8_388_607.5,
    ] {
        assert_eq!(tile_of(at(v, 0.0, v)).x, v.floor() as i32, "{v}");
    }
    for x in [
        0,
        -1,
        8_388_607,
        8_388_608,
        8_388_609,
        -8_388_608,
        -8_388_609,
        16_777_215,
        16_777_217,
        i32::MAX,
        i32::MIN,
    ] {
        assert_eq!(
            tile_center(Tile { x, z: 0 }).x,
            (x as f32 + 0.5).to_bits(),
            "{x}"
        );
    }
    let past = Tile { x: 8_388_609, z: 0 };
    assert_eq!(tile_of(tile_center(past)).x, 8_388_610);
}

#[test]
fn flags_join_in_place() {
    let mut all = Occupancy::blocked();
    all |= Occupancy::reserved();
    assert_eq!(all, Occupancy::blocked() | Occupancy::reserved());
    assert_ne!(all, Occupancy::blocked());
}
