//! What holds of the map across operations: mutations can be undone
//! exactly, single changes always move the checksum, a blank map is
//! plain, a full water budget floods everything, and more water only
//! floods.
use vstd::prelude::*;

verus! {

use crate::bits::{f32_ge_spec, F32_ONE};
use crate::digest::{lemma_one_word_moves_the_digest, FNV_OFFSET};
use crate::map::{
    blank_params_spec, generated, lemma_index_in_range, occupied, tilled, warmed, GenParams,
    MapModel, Occupancy, Terrain, Tile, TileSample,
};
use crate::singles::{complement, lemma_complement_falls};

/// Occupying a tile and setting back what was there restores the map,
/// its checksum, its costs and its walkability exactly.
pub proof fn lemma_clearing_restores_the_map(m: MapModel, t: Tile, occ: Occupancy)
    requires
        m.wf(),
        m.in_bounds(t),
    ensures
        occupied(occupied(m, t, occ), t, m.occupancy[m.index(t)]) == m,
{
    lemma_index_in_range(m, t);
    let back = occupied(occupied(m, t, occ), t, m.occupancy[m.index(t)]);
    assert(back.occupancy =~= m.occupancy);
}

/// Writing a channel and writing the former value back restores the map
/// exactly.
pub proof fn lemma_channel_writes_round_trip(m: MapModel, t: Tile, v: u32)
    requires
        m.wf(),
        m.in_bounds(t),
    ensures
        warmed(warmed(m, t, v), t, m.temperature[m.index(t)]) == m,
        tilled(tilled(m, t, v), t, m.fertility[m.index(t)]) == m,
{
    lemma_index_in_range(m, t);
    let a = warmed(warmed(m, t, v), t, m.temperature[m.index(t)]);
    assert(a.temperature =~= m.temperature);
    let b = tilled(tilled(m, t, v), t, m.fertility[m.index(t)]);
    assert(b.fertility =~= m.fertility);
}

/// What is written to a tile is read back there; other tiles and the
/// other layers keep what they had, and there is nothing to read out of
/// bounds.
pub proof fn lemma_writes_are_read_back(
    m: MapModel,
    t: Tile,
    other: Tile,
    occ: Occupancy,
    v: u32,
)
    requires
        m.wf(),
        m.in_bounds(t),
    ensures
        occupied(m, t, occ).occupancy_seen(t) == Some(occ),
        warmed(m, t, v).temperature_seen(t) == Some(v),
        tilled(m, t, v).fertility_seen(t) == Some(v),
        other != t ==> occupied(m, t, occ).occupancy_seen(other) == m.occupancy_seen(other),
        other != t ==> warmed(m, t, v).temperature_seen(other) == m.temperature_seen(other),
        other != t ==> tilled(m, t, v).fertility_seen(other) == m.fertility_seen(other),
        occupied(m, t, occ).terrain_seen(other) == m.terrain_seen(other),
        occupied(m, t, occ).temperature_seen(other) == m.temperature_seen(other),
        occupied(m, t, occ).fertility_seen(other) == m.fertility_seen(other),
        warmed(m, t, v).terrain_seen(other) == m.terrain_seen(other),
        warmed(m, t, v).occupancy_seen(other) == m.occupancy_seen(other),
        warmed(m, t, v).fertility_seen(other) == m.fertility_seen(other),
        tilled(m, t, v).terrain_seen(other) == m.terrain_seen(other),
        tilled(m, t, v).occupancy_seen(other) == m.occupancy_seen(other),
        tilled(m, t, v).temperature_seen(other) == m.temperature_seen(other),
        m.terrain_seen(other) is Some <==> 0 <= other.x < m.params.width && 0 <= other.z
            < m.params.height,
        m.occupancy_seen(other) is Some <==> m.terrain_seen(other) is Some,
        m.temperature_seen(other) is Some <==> m.terrain_seen(other) is Some,
        m.fertility_seen(other) is Some <==> m.terrain_seen(other) is Some,
        m.terrain_seen(t) == Some(m.terrain[t.z * m.params.width + t.x]),
{
    lemma_index_in_range(m, t);
    if m.in_bounds(other) {
        lemma_index_in_range(m, other);
        if m.index(other) == m.index(t) {
            crate::map::lemma_index_injective(m, other, t);
        }
    }
}

/// Something on a tile revokes its walkability and zeroes its cost;
/// other tiles keep theirs.
pub proof fn lemma_occupancy_blocks(m: MapModel, t: Tile, occ: Occupancy, other: Tile)
    requires
        m.wf(),
        m.in_bounds(t),
        occ.spec_bits() != 0,
    ensures
        !occupied(m, t, occ).walkable(t),
        occupied(m, t, occ).cost(t) == 0,
        other != t ==> occupied(m, t, occ).walkable(other) == m.walkable(other),
        other != t ==> occupied(m, t, occ).cost(other) == m.cost(other),
{
    lemma_index_in_range(m, t);
    if m.in_bounds(other) {
        lemma_index_in_range(m, other);
        if m.index(other) == m.index(t) {
            crate::map::lemma_index_injective(m, other, t);
        }
    }
}

/// Cost and walkability agree everywhere: a tile costs nothing exactly
/// when it cannot be walked.
pub proof fn lemma_cost_zero_iff_blocked(m: MapModel, t: Tile)
    ensures
        m.cost(t) == 0 <==> !m.walkable(t),
        m.walkable(t) ==> m.cost(t) == 9 || m.cost(t) == 10,
{
}

/// The words of two maps that differ in one layer entry differ in one
/// place.
proof fn lemma_words_differ_in_one_place(m: MapModel, n: MapModel, at: int, v: u64)
    requires
        0 <= at < m.words().len(),
        n.words() == m.words().update(at, v),
        v != m.words()[at],
    ensures
        n.checksum() != m.checksum(),
{
    lemma_one_word_moves_the_digest(FNV_OFFSET, m.words(), at, v);
}

/// Length of what stands before the occupancy layer in the word stream.
spec fn occupancy_start(m: MapModel) -> int {
    12 + m.terrain.len() as int
}

/// Length of what stands before the temperature layer.
spec fn temperature_start(m: MapModel) -> int {
    occupancy_start(m) + m.occupancy.len() + 1
}

/// Length of what stands before the fertility layer.
spec fn fertility_start(m: MapModel) -> int {
    temperature_start(m) + m.temperature.len() + 1
}

/// Writing a different value to one tile of any layer always moves the
/// checksum.
pub proof fn lemma_single_writes_move_the_checksum(m: MapModel, t: Tile, occ: Occupancy, v: u32)
    requires
        m.wf(),
        m.in_bounds(t),
    ensures
        occ.spec_bits() != m.occupancy[m.index(t)].spec_bits() ==> occupied(m, t, occ).checksum()
            != m.checksum(),
        v != m.temperature[m.index(t)] ==> warmed(m, t, v).checksum() != m.checksum(),
        v != m.fertility[m.index(t)] ==> tilled(m, t, v).checksum() != m.checksum(),
{
    lemma_index_in_range(m, t);
    let i = m.index(t);
    if occ.spec_bits() != m.occupancy[i].spec_bits() {
        let n = occupied(m, t, occ);
        let at = occupancy_start(m) + i;
        let w = occ.spec_bits() as u64;
        assert(n.words() =~= m.words().update(at, w));
        assert(m.words()[at] == m.occupancy[i].spec_bits() as u64);
        lemma_words_differ_in_one_place(m, n, at, w);
    }
    if v != m.temperature[i] {
        let n = warmed(m, t, v);
        let at = temperature_start(m) + i;
        assert(n.words() =~= m.words().update(at, v as u64));
        assert(m.words()[at] == m.temperature[i] as u64);
        lemma_words_differ_in_one_place(m, n, at, v as u64);
    }
    if v != m.fertility[i] {
        let n = tilled(m, t, v);
        let at = fertility_start(m) + i;
        assert(n.words() =~= m.words().update(at, v as u64));
        assert(m.words()[at] == m.fertility[i] as u64);
        lemma_words_differ_in_one_place(m, n, at, v as u64);
    }
}

/// Generation from another seed, or from parameters that differ in one
/// word, moves the checksum unless a layer moves too.
pub proof fn lemma_provenance_moves_the_checksum(m: MapModel, n: MapModel, k: int)
    requires
        0 <= k < 10,
        n.terrain == m.terrain,
        n.occupancy == m.occupancy,
        n.temperature == m.temperature,
        n.fertility == m.fertility,
        n.provenance_words()[k] != m.provenance_words()[k],
        forall|j: int|
            0 <= j < 10 && j != k ==> #[trigger] n.provenance_words()[j]
                == m.provenance_words()[j],
    ensures
        n.checksum() != m.checksum(),
{
    let v = n.provenance_words()[k];
    assert(n.words() =~= m.words().update(k, v));
    lemma_words_differ_in_one_place(m, n, k, v);
}

/// A blank map is all soil and all walkable, whatever the noise says: no
/// channel reaches a threshold of one.
pub proof fn lemma_blank_is_all_soil(width: u32, height: u32, samples: Seq<TileSample>, i: int)
    requires
        0 <= i < samples.len(),
    ensures
        generated(0, blank_params_spec(width, height), F32_ONE, samples).terrain[i]
            == Terrain::Soil,
        generated(0, blank_params_spec(width, height), F32_ONE, samples).open_at(i),
{
    Occupancy::lemma_bits_identify(Occupancy::spec_empty(), Occupancy::spec_empty());
}

/// A full water budget floods every tile, whatever the noise says: no
/// channel is below a cut of zero. Nothing is left to walk on.
pub proof fn lemma_full_budget_floods_everything(
    seed: u64,
    params: GenParams,
    samples: Seq<TileSample>,
    n: int,
)
    requires
        params.water_fraction == F32_ONE,
        0 <= n <= samples.len(),
    ensures
        ({
            let m = generated(seed, params, complement(params.water_fraction), samples);
            &&& forall|i: int| 0 <= i < n ==> #[trigger] m.terrain[i] == Terrain::Water
            &&& m.open_count(n) == 0
        }),
    decreases n,
{
    lemma_complement_falls(F32_ONE, F32_ONE);
    if n > 0 {
        lemma_full_budget_floods_everything(seed, params, samples, n - 1);
    }
}

/// Raising the water fraction can only flood more of the same map: every
/// tile that was water stays water, and walkable tiles never become more.
pub proof fn lemma_water_is_monotone(
    seed: u64,
    dry: GenParams,
    wet: GenParams,
    samples: Seq<TileSample>,
    n: int,
)
    requires
        dry.spec_valid(),
        wet.spec_valid(),
        wet == (GenParams { water_fraction: wet.water_fraction, ..dry }),
        f32_ge_spec(wet.water_fraction, dry.water_fraction),
        0 <= n <= samples.len(),
    ensures
        ({
            let a = generated(seed, dry, complement(dry.water_fraction), samples);
            let b = generated(seed, wet, complement(wet.water_fraction), samples);
            &&& forall|i: int|
                0 <= i < n && #[trigger] a.terrain[i] == Terrain::Water ==> b.terrain[i]
                    == Terrain::Water
            &&& b.open_count(n) <= a.open_count(n)
        }),
    decreases n,
{
    lemma_complement_falls(dry.water_fraction, wet.water_fraction);
    if n > 0 {
        lemma_water_is_monotone(seed, dry, wet, samples, n - 1);
        Occupancy::lemma_bits_identify(Occupancy::spec_empty(), Occupancy::spec_empty());
    }
}

/// The flags form a set algebra: inserting makes them contained,
/// removing takes exactly them away, and emptiness means no flag.
pub proof fn lemma_flags_compose(a: u8, b: u8)
    ensures
        (a | b) & a == a,
        (a | b) & b == b,
        (a & !b) & b == 0,
        a & b == 0 ==> (a | b) & !b == a,
        a | 0u8 == a,
        a | b == b | a,
{
    assert((a | b) & a == a) by (bit_vector);
    assert((a | b) & b == b) by (bit_vector);
    assert((a & !b) & b == 0) by (bit_vector);
    assert(a & b == 0 ==> (a | b) & !b == a) by (bit_vector);
    assert(a | 0u8 == a) by (bit_vector);
    assert(a | b == b | a) by (bit_vector);
}

} // verus!
