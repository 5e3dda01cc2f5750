//! What a generated map is, tile by tile: which terrain its samples make,
//! what it takes from them, what it costs to enter, where a tile lies, and
//! what a summary counts.
use vstd::prelude::*;

verus! {

use crate::bits::{f32_ge_spec, f32_lt_spec};
use crate::digest::{lemma_one_word_moves_the_digest, FNV_OFFSET};
use crate::eval::value;
use crate::map::{
    count_kind, generated, lattice_hash, lattice_spec, running_sum, GenParams, MapModel, Occupancy,
    Terrain, Tile, TileSample,
};
use crate::map_gallery::{scene_params, summarizes, SceneSummary};
use crate::rng::splitmix_mix_spec;
use crate::singles::complement;

/// A tile is water where the pooled channel reaches one less the water
/// fraction, else stone where the stone channel reaches its threshold,
/// else soil. It takes the sampled temperature and the fertility sampled
/// for its terrain, and nothing stands on it.
pub proof fn lemma_samples_make_terrain(
    seed: u64,
    params: GenParams,
    samples: Seq<TileSample>,
    i: int,
)
    requires
        0 <= i < samples.len(),
        f32_ge_spec(samples[i].pooled, 0),
        f32_lt_spec(samples[i].pooled, 0x3F80_0000),
        f32_ge_spec(samples[i].stone, 0),
        f32_lt_spec(samples[i].stone, 0x3F80_0000),
    ensures
        ({
            let m = generated(seed, params, complement(params.water_fraction), samples);
            let s = samples[i];
            let wet = f32_ge_spec(s.pooled, complement(params.water_fraction));
            let hard = f32_ge_spec(s.stone, params.stone_threshold);
            &&& m.seed == seed
            &&& m.params == params
            &&& m.terrain.len() == samples.len()
            &&& m.occupancy.len() == samples.len()
            &&& m.temperature.len() == samples.len()
            &&& m.fertility.len() == samples.len()
            &&& m.terrain[i] is Water <==> wet
            &&& m.terrain[i] is Stone <==> !wet && hard
            &&& m.terrain[i] is Soil <==> !wet && !hard
            &&& m.temperature[i] == s.temperature
            &&& m.terrain[i] is Water ==> m.fertility[i] == s.fertility_water
            &&& m.terrain[i] is Stone ==> m.fertility[i] == s.fertility_stone
            &&& m.terrain[i] is Soil ==> m.fertility[i] == s.fertility_soil
            &&& m.occupancy[i].spec_bits() == 0
        }),
{
    Occupancy::lemma_bits_identify(Occupancy::spec_empty(), Occupancy::spec_empty());
}

/// Open soil costs ten to enter and open stone nine; water, what is
/// occupied and what is off the map cannot be entered.
pub proof fn lemma_ground_costs_by_terrain(m: MapModel, t: Tile)
    requires
        m.wf(),
    ensures
        ({
            let i = t.z * m.params.width + t.x;
            let on = 0 <= t.x < m.params.width && 0 <= t.z < m.params.height;
            let clear = on && m.occupancy[i].spec_bits() == 0;
            &&& m.in_bounds(t) == on
            &&& m.cost(t) == if clear && m.terrain[i] is Soil {
                10int
            } else if clear && m.terrain[i] is Stone {
                9
            } else {
                0
            }
            &&& m.walkable(t) == (clear && !(m.terrain[i] is Water))
        }),
{
}

/// Tiles lie row by row: one to the east is the next position, one to the
/// south a whole row on.
pub proof fn lemma_tiles_lie_row_by_row(m: MapModel, t: Tile)
    requires
        t.x < i32::MAX,
        t.z < i32::MAX,
    ensures
        m.index(Tile { x: 0, z: 0 }) == 0,
        m.index(Tile { x: (t.x + 1) as i32, z: t.z }) == m.index(t) + 1,
        m.index(Tile { x: t.x, z: (t.z + 1) as i32 }) == m.index(t) + m.params.width,
{
    let w = m.params.width as int;
    let z = t.z as int;
    assert((z + 1) * w == z * w + w) by (nonlinear_arith);
}

/// A lattice value is the top 24 bits of the avalanche of its seed with
/// each coordinate and the channel folded in behind a factor of its own.
pub proof fn lemma_lattice_points_fold_in_apart(seed: u64, channel: u32, x: i32, z: i32)
    ensures
        ({
            let n = 0x1_0000_0000_0000_0000int;
            let at = |v: i32, factor: int| (((v as int) % n) * factor % n) as u64;
            let turn = (channel * 0x9E37_79B9_7F4A_7C15 % n) as u64;
            lattice_spec(seed, channel, x, z) == splitmix_mix_spec(
                seed ^ at(x, 0xBF58_476D_1CE4_E5B9) ^ at(z, 0x94D0_49BB_1331_11EB) ^ turn,
            ) >> 40
        }),
        lattice_spec(seed, channel, x, z) < 0x100_0000,
        lattice_hash(seed, 0, 0, 0) == seed,
{
    let mixed = splitmix_mix_spec(lattice_hash(seed, channel, x, z));
    assert(mixed >> 40 < 0x100_0000) by (bit_vector);
    assert(seed ^ 0u64 ^ 0u64 ^ 0u64 == seed) by (bit_vector);
}

/// Counting a terrain counts its tiles.
pub proof fn lemma_terrains_are_counted(layer: Seq<Terrain>, kind: Terrain)
    ensures
        count_kind(layer, kind) == layer.filter(|t: Terrain| t == kind).len(),
    decreases layer.len(),
{
    reveal(Seq::filter);
    if layer.len() > 0 {
        lemma_terrains_are_counted(layer.drop_last(), kind);
    }
}

/// The open positions among the first `n`, in order.
pub open spec fn open_positions(m: MapModel, n: int) -> Seq<int> {
    Seq::new(n as nat, |i: int| i).filter(
        |i: int| !(m.terrain[i] is Water) && m.occupancy[i].spec_bits() == 0,
    )
}

/// Counting the walkable tiles counts those that are not water and have
/// nothing on them.
pub proof fn lemma_walkable_tiles_are_counted(m: MapModel, n: int)
    requires
        0 <= n,
    ensures
        m.open_count(n) == open_positions(m, n).len(),
    decreases n,
{
    reveal(Seq::filter);
    if n > 0 {
        lemma_walkable_tiles_are_counted(m, n - 1);
        let all = Seq::new(n as nat, |i: int| i);
        assert(all.drop_last() =~= Seq::new((n - 1) as nat, |i: int| i));
        assert(all.last() == n - 1);
    } else {
        assert(Seq::new(n as nat, |i: int| i) =~= Seq::<int>::empty());
    }
}

/// A sum adds every value once, the later ones to the earlier, from
/// nothing.
pub proof fn lemma_sums_add_in_order<P: Fn((u32, u32)) -> u32>(
    values: Seq<u32>,
    last: u32,
    plus: P,
)
    ensures
        running_sum(Seq::<u32>::empty(), plus) == 0,
        running_sum(values.push(last), plus) == value(plus, (running_sum(values, plus), last)),
{
    assert(values.push(last).drop_last() =~= values);
}

/// A summary tells how many tiles there are, how many of each terrain and
/// how many can be walked, the two means over all tiles, and the map's
/// checksum.
pub proof fn lemma_summaries_count_the_map<
    P: Fn((u32, u32)) -> u32,
    Q: Fn((u32, usize)) -> u32,
>(s: SceneSummary, m: MapModel, plus: P, over: Q)
    requires
        m.wf(),
        summarizes(s, m, plus, over),
    ensures
        s.tiles == m.params.width * m.params.height,
        s.soil == m.terrain.filter(|t: Terrain| t is Soil).len(),
        s.stone == m.terrain.filter(|t: Terrain| t is Stone).len(),
        s.water == m.terrain.filter(|t: Terrain| t is Water).len(),
        s.walkable == open_positions(m, m.params.width * m.params.height).len(),
        s.mean_temperature_c == value(over, (running_sum(m.temperature, plus), s.tiles)),
        s.mean_fertility == value(over, (running_sum(m.fertility, plus), s.tiles)),
        s.checksum == m.checksum(),
{
    lemma_terrains_are_counted(m.terrain, Terrain::Soil);
    lemma_terrains_are_counted(m.terrain, Terrain::Stone);
    lemma_terrains_are_counted(m.terrain, Terrain::Water);
    lemma_walkable_tiles_are_counted(m, m.tiles());
    assert((|t: Terrain| t == Terrain::Soil) =~= (|t: Terrain| t is Soil));
    assert((|t: Terrain| t == Terrain::Stone) =~= (|t: Terrain| t is Stone));
    assert((|t: Terrain| t == Terrain::Water) =~= (|t: Terrain| t is Water));
    let (w, h) = (m.params.width as int, m.params.height as int);
    assert(w * h > 0) by (nonlinear_arith)
        requires
            w > 0,
            h > 0,
    ;
}

/// A map whose terrain differs on one tile has another checksum.
pub proof fn lemma_one_terrain_moves_the_checksum(m: MapModel, i: int, kind: Terrain)
    requires
        m.wf(),
        0 <= i < m.terrain.len(),
        kind != m.terrain[i],
    ensures
        (MapModel { terrain: m.terrain.update(i, kind), ..m }).checksum() != m.checksum(),
{
    let n = MapModel { terrain: m.terrain.update(i, kind), ..m };
    let at = 11 + i;
    let v = kind.spec_code();
    assert(m.words()[at] == m.terrain[i].spec_code());
    assert(n.words() =~= m.words().update(at, v));
    lemma_one_word_moves_the_digest(FNV_OFFSET, m.words(), at, v);
}

/// The scenes as their names have them: the archipelago is the wettest and
/// the blank map dry, the badlands are the stoniest and the warmest, and
/// all are of one size.
pub proof fn lemma_scenes_are_what_they_are_called()
    ensures
        ({
            let sea = scene_params("archipelago"@)->0;
            let land = scene_params("meadow"@)->0;
            let rock = scene_params("badlands"@)->0;
            let blank = scene_params("blank"@)->0;
            &&& scene_params("meadow"@) is Some
            &&& scene_params("archipelago"@) is Some
            &&& f32_lt_spec(land.water_fraction, sea.water_fraction)
            &&& f32_lt_spec(land.stone_threshold, sea.stone_threshold)
            &&& f32_lt_spec(land.temp_base_c, sea.temp_base_c)
            &&& sea.width == land.width && sea.height == land.height
            &&& scene_params("badlands"@) is Some
            &&& f32_lt_spec(rock.water_fraction, land.water_fraction)
            &&& f32_lt_spec(rock.stone_threshold, land.stone_threshold)
            &&& f32_lt_spec(sea.temp_base_c, rock.temp_base_c)
            &&& rock.width == land.width && rock.height == land.height
            &&& scene_params("blank"@) is Some
            &&& blank.water_fraction == 0
            &&& blank.stone_threshold == 0x3F80_0000
            &&& blank.width == land.width && blank.height == land.height
        }),
{
    reveal_strlit("meadow");
    assert("meadow"@.len() == 6);
    reveal_strlit("archipelago");
    assert("archipelago"@.len() == 11);
    reveal_strlit("badlands");
    assert("badlands"@.len() == 8);
    reveal_strlit("blank");
    assert("blank"@.len() == 5);
}

} // verus!
